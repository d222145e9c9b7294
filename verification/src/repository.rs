//! A repository source resolved far enough to be walked: where it came
//! from, the filesystem-safe name its artifacts carry, where its tree
//! lives, and — once the walker has run — its buckets of rendered
//! content.

use vstd::prelude::*;

use crate::bucket::Bucket;
use crate::bucket::BucketModel;
use crate::text::dashify;
use crate::text::dashify_exec;
use crate::text::find_last;
use crate::text::find_last_char;
use crate::text::lemma_find_last;

verus! {

#[derive(Debug, Clone)]
pub struct Repository {
    pub url: String,
    pub name: String,
    pub path: String,
    pub content: Option<Vec<Bucket>>,
}

/// Spec-level image of a `Repository`.
#[verifier::ext_equal]
pub struct RepositoryModel {
    pub url: Seq<char>,
    pub name: Seq<char>,
    pub path: Seq<char>,
    pub content: Option<Seq<BucketModel>>,
}

impl View for Repository {
    type V = RepositoryModel;

    open spec fn view(&self) -> RepositoryModel {
        RepositoryModel {
            url: self.url@,
            name: self.name@,
            path: self.path@,
            content: self.content.deep_view(),
        }
    }
}

impl DeepView for Repository {
    type V = RepositoryModel;

    open spec fn deep_view(&self) -> RepositoryModel {
        self.view()
    }
}

/// The name a local repository takes: the final component of its path,
/// or a fixed fallback when the path ends in a separator.
pub open spec fn local_repo_name(p: Seq<char>) -> Seq<char> {
    let base = p.subrange(find_last(p, '/') + 1, p.len() as int);
    if base.len() == 0 {
        "local-repo"@
    } else {
        base
    }
}

impl Repository {
    /// A repository named by an `owner/repo` reference: the fetch URL
    /// gains the host and `.git`, the name replaces `/` with `-`, and
    /// the checkout path sits under the download directory.
    pub fn new(base_download_dir: &str, repo_url: &str) -> (r: Repository)
        ensures
            r@.url == "https://github.com/"@ + repo_url@ + ".git"@,
            r@.name == dashify(repo_url@),
            r@.path == base_download_dir@ + "/"@ + dashify(repo_url@),
            r@.content is None,
    {
        let mut url = String::from_str("https://github.com/");
        url.append(repo_url);
        url.append(".git");
        let name = dashify_exec(repo_url);
        let mut path = String::from_str(base_download_dir);
        path.append("/");
        path.append(name.as_str());
        Repository { url, name, path, content: None }
    }

    /// A repository bound to a local directory; its name is the final
    /// path component.
    pub fn from_local_path(local_path: &str) -> (r: Repository)
        ensures
            r@.url == "local"@,
            r@.name == local_repo_name(local_path@),
            r@.path == local_path@,
            r@.content is None,
    {
        let plen = local_path.unicode_len();
        let slash = find_last_char(local_path, plen, '/');
        proof {
            lemma_find_last(local_path@, '/');
        }
        let base_start: usize = match slash {
            None => 0,
            Some(i) => i + 1,
        };
        let name = if base_start == plen {
            String::from_str("local-repo")
        } else {
            String::from_str(local_path.substring_char(base_start, plen))
        };
        Repository {
            url: String::from_str("local"),
            name,
            path: String::from_str(local_path),
            content: None,
        }
    }

    /// Whether the walker has filled this repository's buckets.
    pub fn has_content(&self) -> (r: bool)
        ensures
            r == (self@.content is Some),
    {
        self.content.is_some()
    }

    /// A one-line account of the repository: its name, url, path, and
    /// whether it already carries content.
    pub fn describe(&self) -> (r: String)
        ensures
            r@ == "Repository(name: "@ + self@.name + ", url: "@ + self@.url + ", path: "@
                + self@.path + ", has_content: "@ + (if self@.content is Some {
                "true"@
            } else {
                "false"@
            }) + ")"@,
    {
        let mut out = String::from_str("Repository(name: ");
        out.append(self.name.as_str());
        out.append(", url: ");
        out.append(self.url.as_str());
        out.append(", path: ");
        out.append(self.path.as_str());
        out.append(", has_content: ");
        if self.content.is_some() {
            out.append("true");
        } else {
            out.append("false");
        }
        out.append(")");
        proof {
            assert(out@ =~= "Repository(name: "@ + self@.name + ", url: "@ + self@.url
                + ", path: "@ + self@.path + ", has_content: "@ + (if self@.content is Some {
                "true"@
            } else {
                "false"@
            }) + ")"@);
        }
        out
    }
}

} // verus!
