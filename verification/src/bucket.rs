//! Bucket assignment: a relative path is diverted into the bucket of the
//! first configured split folder that contains it; everything else goes
//! to the `default` bucket.

use vstd::prelude::*;

use crate::text::norm_seps;
use crate::text::norm_seps_exec;
use crate::text::region_eq;
use crate::text::str_eq;

verus! {

/// A named accumulator of rendered file blocks.
#[derive(Debug, Clone)]
pub struct Bucket {
    pub name: String,
    pub content: String,
}

/// Spec-level image of a `Bucket`.
#[verifier::ext_equal]
pub struct BucketModel {
    pub name: Seq<char>,
    pub content: Seq<char>,
}

impl View for Bucket {
    type V = BucketModel;

    open spec fn view(&self) -> BucketModel {
        BucketModel { name: self.name@, content: self.content@ }
    }
}

impl DeepView for Bucket {
    type V = BucketModel;

    open spec fn deep_view(&self) -> BucketModel {
        self.view()
    }
}

/// `path` is the folder itself or lies somewhere below it.
pub open spec fn path_under(folder: Seq<char>, path: Seq<char>) -> bool {
    path == folder || (path.len() > folder.len() && path.take(folder.len() as int) == folder
        && path[folder.len() as int] == '/')
}

/// The name of the bucket `path` belongs to: the first split folder that
/// contains it (separators normalized on both sides), else `default`.
pub open spec fn bucket_name_of(path: Seq<char>, splits: Seq<Seq<char>>) -> Seq<char>
    decreases splits.len(),
{
    if splits.len() == 0 {
        "default"@
    } else if path_under(norm_seps(splits[0]), norm_seps(path)) {
        splits[0]
    } else {
        bucket_name_of(path, splits.skip(1))
    }
}

/// Whether `path` equals `folder` or sits below it (both already
/// separator-normalized).
pub fn path_is_under(folder: &str, path: &str) -> (r: bool)
    ensures
        r == path_under(folder@, path@),
{
    let flen = folder.unicode_len();
    let plen = path.unicode_len();
    if plen == flen {
        return str_eq(path, folder);
    }
    if plen > flen && path.get_char(flen) == '/' {
        let pref = region_eq(path, 0, plen, folder, flen);
        proof {
            assert(path@.subrange(0, flen as int) =~= path@.take(flen as int));
        }
        return pref;
    }
    false
}

/// The bucket name for `path` given the ordered split folders: first
/// match wins, `default` when none matches.
pub fn assign_bucket(path: &str, split_folders: &Vec<String>) -> (r: String)
    ensures
        r@ == bucket_name_of(path@, split_folders.deep_view()),
{
    let p = norm_seps_exec(path);
    let n = split_folders.len();
    proof {
        assert(split_folders.deep_view().skip(0) =~= split_folders.deep_view());
    }
    let mut i: usize = 0;
    while i < n
        invariant
            n == split_folders.len(),
            i <= n,
            p@ == norm_seps(path@),
            bucket_name_of(path@, split_folders.deep_view()) == bucket_name_of(
                path@,
                split_folders.deep_view().skip(i as int),
            ),
        decreases n - i,
    {
        let f = norm_seps_exec(split_folders[i].as_str());
        proof {
            assert(split_folders.deep_view().skip(i as int)[0] == split_folders.deep_view()[
                i as int
            ]);
        }
        if path_is_under(f.as_str(), p.as_str()) {
            return split_folders[i].clone();
        }
        proof {
            assert(split_folders.deep_view().skip(i as int).skip(1) =~= split_folders.deep_view()
                .skip(i as int + 1));
        }
        i += 1;
    }
    proof {
        assert(split_folders.deep_view().skip(n as int).len() == 0);
    }
    String::from_str("default")
}

/// A file nested arbitrarily deep under a split folder is assigned to
/// one of the split folders' buckets, never to `default` (provided no
/// split folder is itself named `default`).
pub proof fn lemma_recursive_split(path: Seq<char>, splits: Seq<Seq<char>>, i: int)
    requires
        0 <= i < splits.len(),
        path_under(norm_seps(splits[i]), norm_seps(path)),
        forall|j: int| 0 <= j < splits.len() ==> splits[j] != "default"@,
    ensures
        bucket_name_of(path, splits) != "default"@,
        exists|j: int|
            0 <= j <= i && #[trigger] splits[j] == bucket_name_of(path, splits) && path_under(
                norm_seps(splits[j]),
                norm_seps(path),
            ),
    decreases splits.len(),
{
    if path_under(norm_seps(splits[0]), norm_seps(path)) {
        assert(bucket_name_of(path, splits) == splits[0]);
        assert(splits[0] == bucket_name_of(path, splits) && path_under(
            norm_seps(splits[0]),
            norm_seps(path),
        ));
    } else {
        assert(i > 0);
        assert(splits.skip(1)[i - 1] == splits[i]);
        assert(forall|j: int| 0 <= j < splits.skip(1).len() ==> splits.skip(1)[j] == splits[j + 1]);
        lemma_recursive_split(path, splits.skip(1), i - 1);
        let j2 = choose|j2: int|
            0 <= j2 <= i - 1 && #[trigger] splits.skip(1)[j2] == bucket_name_of(
                path,
                splits.skip(1),
            ) && path_under(norm_seps(splits.skip(1)[j2]), norm_seps(path));
        assert(bucket_name_of(path, splits) == bucket_name_of(path, splits.skip(1)));
        assert(splits[j2 + 1] == bucket_name_of(path, splits) && path_under(
            norm_seps(splits[j2 + 1]),
            norm_seps(path),
        ));
    }
}

} // verus!
