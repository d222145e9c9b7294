//! The repository walker and the aggregator. The walker folds a
//! repository's files into per-bucket content; the aggregator turns the
//! processed repositories into the final output artifacts, either one
//! set per repository or merged across all of them.

use vstd::prelude::*;

use crate::bucket::assign_bucket;
use crate::bucket::bucket_name_of;
use crate::bucket::path_under;
use crate::bucket::Bucket;
use crate::bucket::BucketModel;
use crate::ignore::is_valid_file;
use crate::ignore::valid_file;
use crate::render::block_of;
use crate::render::render_block;
use crate::repository::Repository;
use crate::repository::RepositoryModel;
use crate::text::add_unique;
use crate::text::contains_str;
use crate::text::lemma_add_unique_push;
use crate::text::norm_seps;
use crate::text::norm_seps_exec;
use crate::text::str_eq;
use crate::text::underscore_seps;
use crate::text::underscore_seps_exec;

verus! {

/// One candidate file: its path relative to the repository root and its
/// text content.
#[derive(Debug, Clone)]
pub struct FileEntry {
    pub path: String,
    pub content: String,
}

/// Spec-level image of a `FileEntry`.
#[verifier::ext_equal]
pub struct FileEntryModel {
    pub path: Seq<char>,
    pub content: Seq<char>,
}

impl View for FileEntry {
    type V = FileEntryModel;

    open spec fn view(&self) -> FileEntryModel {
        FileEntryModel { path: self.path@, content: self.content@ }
    }
}

impl DeepView for FileEntry {
    type V = FileEntryModel;

    open spec fn deep_view(&self) -> FileEntryModel {
        self.view()
    }
}

/// Whether the path lies inside the restriction folder, when one is
/// set.
pub open spec fn in_folder(path: Seq<char>, folder: Option<Seq<char>>) -> bool {
    match folder {
        None => true,
        Some(f) => path_under(norm_seps(f), norm_seps(path)),
    }
}

/// A file makes it into a bucket exactly when it lies in the
/// restriction folder and survives the ignore rules.
pub open spec fn included(
    f: FileEntryModel,
    patterns: Seq<Seq<char>>,
    folder: Option<Seq<char>>,
) -> bool {
    in_folder(f.path, folder) && valid_file(f.path, patterns)
}

/// The content the bucket called `name` accumulates over `files`, in
/// file order.
pub open spec fn bucket_content(
    files: Seq<FileEntryModel>,
    patterns: Seq<Seq<char>>,
    splits: Seq<Seq<char>>,
    folder: Option<Seq<char>>,
    no_headers: bool,
    merge: bool,
    name: Seq<char>,
) -> Seq<char>
    decreases files.len(),
{
    if files.len() == 0 {
        Seq::empty()
    } else {
        let prev = bucket_content(files.drop_last(), patterns, splits, folder, no_headers, merge, name);
        let f = files.last();
        if included(f, patterns, folder) && bucket_name_of(f.path, splits) == name {
            prev + block_of(f.path, f.content, no_headers, merge)
        } else {
            prev
        }
    }
}

/// The bucket names, in order: `default` first, then each split folder
/// once.
pub open spec fn bucket_names(splits: Seq<Seq<char>>) -> Seq<Seq<char>> {
    add_unique(seq!["default"@], splits)
}

/// The walker's entire result as a function of its inputs.
pub open spec fn walk_model(
    files: Seq<FileEntryModel>,
    patterns: Seq<Seq<char>>,
    splits: Seq<Seq<char>>,
    folder: Option<Seq<char>>,
    no_headers: bool,
    merge: bool,
) -> Seq<BucketModel> {
    Seq::new(
        bucket_names(splits).len(),
        |b: int|
            BucketModel {
                name: bucket_names(splits)[b],
                content: bucket_content(
                    files,
                    patterns,
                    splits,
                    folder,
                    no_headers,
                    merge,
                    bucket_names(splits)[b],
                ),
            },
    )
}

/// Walks a repository's files: every included file's rendered block is
/// appended to the bucket of its first matching split folder, or to
/// `default`. All configured buckets exist in the result, even empty.
pub fn process_repository_files(
    files: &Vec<FileEntry>,
    no_headers: bool,
    merge_files: bool,
    ignore_patterns: &Vec<String>,
    split_folders: &Vec<String>,
    folder: &Option<String>,
) -> (r: Vec<Bucket>)
    ensures
        r.deep_view() == walk_model(
            files.deep_view(),
            ignore_patterns.deep_view(),
            split_folders.deep_view(),
            folder.deep_view(),
            no_headers,
            merge_files,
        ),
{
    let ghost splits = split_folders.deep_view();
    // The bucket names: `default`, then each split folder once.
    let mut names: Vec<String> = Vec::new();
    names.push(String::from_str("default"));
    proof {
        assert(names.deep_view() =~= seq!["default"@]);
        assert(splits.take(0) =~= Seq::<Seq<char>>::empty());
        assert(add_unique(seq!["default"@], splits.take(0)) == seq!["default"@]);
    }
    let ns = split_folders.len();
    let mut si: usize = 0;
    while si < ns
        invariant
            ns == split_folders.len(),
            si <= ns,
            splits == split_folders.deep_view(),
            names.deep_view() == add_unique(seq!["default"@], splits.take(si as int)),
        decreases ns - si,
    {
        proof {
            lemma_add_unique_push(seq!["default"@], splits.take(si as int), splits[si as int]);
            assert(splits.take(si as int).push(splits[si as int]) =~= splits.take(si as int + 1));
        }
        if !contains_str(&names, split_folders[si].as_str()) {
            names.push(split_folders[si].clone());
            proof {
                assert(names.deep_view() =~= add_unique(seq!["default"@], splits.take(si as int))
                    .push(splits[si as int]));
            }
        }
        si += 1;
    }
    proof {
        assert(splits.take(ns as int) =~= splits);
    }
    // Fill each bucket in turn.
    let nb = names.len();
    let mut result: Vec<Bucket> = Vec::new();
    let mut b: usize = 0;
    while b < nb
        invariant
            nb == names.len(),
            b <= nb,
            splits == split_folders.deep_view(),
            names.deep_view() == bucket_names(splits),
            result.deep_view().len() == b,
            forall|j: int|
                0 <= j < b ==> result.deep_view()[j] == (BucketModel {
                    name: bucket_names(splits)[j],
                    content: bucket_content(
                        files.deep_view(),
                        ignore_patterns.deep_view(),
                        splits,
                        folder.deep_view(),
                        no_headers,
                        merge_files,
                        bucket_names(splits)[j],
                    ),
                }),
        decreases nb - b,
    {
        let mut content = String::new();
        let nf = files.len();
        let mut i: usize = 0;
        while i < nf
            invariant
                nf == files.len(),
                i <= nf,
                b < nb,
                nb == names.len(),
                splits == split_folders.deep_view(),
                names.deep_view() == bucket_names(splits),
                content@ == bucket_content(
                    files.deep_view().take(i as int),
                    ignore_patterns.deep_view(),
                    splits,
                    folder.deep_view(),
                    no_headers,
                    merge_files,
                    names.deep_view()[b as int],
                ),
            decreases nf - i,
        {
            let f = &files[i];
            let inside = match folder {
                None => true,
                Some(d) => {
                    let nd = norm_seps_exec(d.as_str());
                    let np = norm_seps_exec(f.path.as_str());
                    crate::bucket::path_is_under(nd.as_str(), np.as_str())
                },
            };
            if inside && is_valid_file(f.path.as_str(), ignore_patterns) {
                let bname = assign_bucket(f.path.as_str(), split_folders);
                if str_eq(bname.as_str(), names[b].as_str()) {
                    let block = render_block(
                        f.path.as_str(),
                        f.content.as_str(),
                        no_headers,
                        merge_files,
                    );
                    content.append(block.as_str());
                }
            }
            proof {
                assert(files.deep_view().take(i as int + 1).drop_last() =~= files.deep_view().take(
                    i as int,
                ));
                assert(files.deep_view().take(i as int + 1).last() == files.deep_view()[i as int]);
            }
            i += 1;
        }
        proof {
            assert(files.deep_view().take(nf as int) =~= files.deep_view());
        }
        let name = names[b].clone();
        proof {
            assert(name@ == names.deep_view()[b as int]);
        }
        let ghost prev = result.deep_view();
        let ghost newb = BucketModel { name: name@, content: content@ };
        result.push(Bucket { name, content });
        proof {
            assert(result.deep_view() =~= prev.push(newb));
            assert(result.deep_view()[b as int] =~= (BucketModel {
                name: bucket_names(splits)[b as int],
                content: bucket_content(
                    files.deep_view(),
                    ignore_patterns.deep_view(),
                    splits,
                    folder.deep_view(),
                    no_headers,
                    merge_files,
                    bucket_names(splits)[b as int],
                ),
            }));
        }
        b += 1;
    }
    proof {
        assert(result.deep_view() =~= walk_model(
            files.deep_view(),
            ignore_patterns.deep_view(),
            split_folders.deep_view(),
            folder.deep_view(),
            no_headers,
            merge_files,
        ));
    }
    result
}

/// One output artifact: where it is to be written and what it holds.
#[derive(Debug, Clone)]
pub struct Artifact {
    pub path: String,
    pub content: String,
}

/// Spec-level image of an `Artifact`.
#[verifier::ext_equal]
pub struct ArtifactModel {
    pub path: Seq<char>,
    pub content: Seq<char>,
}

impl View for Artifact {
    type V = ArtifactModel;

    open spec fn view(&self) -> ArtifactModel {
        ArtifactModel { path: self.path@, content: self.content@ }
    }
}

impl DeepView for Artifact {
    type V = ArtifactModel;

    open spec fn deep_view(&self) -> ArtifactModel {
        self.view()
    }
}

/// The buckets a repository carries; none before the walker ran.
pub open spec fn content_buckets(r: RepositoryModel) -> Seq<BucketModel> {
    match r.content {
        None => Seq::empty(),
        Some(bs) => bs,
    }
}

/// The content of the first bucket called `name`, or empty if absent.
pub open spec fn bucket_lookup(bs: Seq<BucketModel>, name: Seq<char>) -> Seq<char>
    decreases bs.len(),
{
    if bs.len() == 0 {
        Seq::empty()
    } else if bs[0].name == name {
        bs[0].content
    } else {
        bucket_lookup(bs.skip(1), name)
    }
}

/// The content of the repository's bucket called `name`.
pub open spec fn repo_bucket(r: RepositoryModel, name: Seq<char>) -> Seq<char> {
    bucket_lookup(content_buckets(r), name)
}

fn repo_bucket_exec(r: &Repository, name: &str) -> (c: String)
    ensures
        c@ == repo_bucket(r.deep_view(), name@),
{
    match &r.content {
        None => String::new(),
        Some(bs) => {
            let n = bs.len();
            proof {
                assert(bs.deep_view().skip(0) =~= bs.deep_view());
            }
            let mut j: usize = 0;
            while j < n
                invariant
                    n == bs.len(),
                    j <= n,
                    repo_bucket(r.deep_view(), name@) == bucket_lookup(bs.deep_view(), name@),
                    bucket_lookup(bs.deep_view(), name@) == bucket_lookup(
                        bs.deep_view().skip(j as int),
                        name@,
                    ),
                decreases n - j,
            {
                proof {
                    assert(bs.deep_view().skip(j as int)[0] == bs.deep_view()[j as int]);
                }
                if str_eq(bs[j].name.as_str(), name) {
                    return bs[j].content.clone();
                }
                proof {
                    assert(bs.deep_view().skip(j as int).skip(1) =~= bs.deep_view().skip(
                        j as int + 1,
                    ));
                }
                j += 1;
            }
            proof {
                assert(bs.deep_view().skip(n as int).len() == 0);
            }
            String::new()
        },
    }
}

/// The artifact one non-empty bucket of one repository yields in
/// separate (non-merge) mode: the default bucket is named after the
/// repository alone, the others carry the sanitized bucket name too.
pub open spec fn artifact_for(r: RepositoryModel, b: BucketModel, dir: Seq<char>) -> ArtifactModel {
    if b.name == "default"@ {
        ArtifactModel {
            path: dir + "/"@ + r.name + "_processed.md"@,
            content: "# Repository: "@ + r.name + "\n"@ + b.content,
        }
    } else {
        ArtifactModel {
            path: dir + "/"@ + r.name + "_"@ + underscore_seps(b.name) + "_processed.md"@,
            content: "# Repository: "@ + r.name + " ("@ + b.name + ")\n"@ + b.content,
        }
    }
}

/// One repository's artifacts: one per non-empty bucket, in bucket
/// order.
pub open spec fn repo_artifacts(r: RepositoryModel, bs: Seq<BucketModel>, dir: Seq<char>) -> Seq<
    ArtifactModel,
>
    decreases bs.len(),
{
    if bs.len() == 0 {
        Seq::empty()
    } else {
        repo_artifacts(r, bs.drop_last(), dir) + (if bs.last().content.len() > 0 {
            seq![artifact_for(r, bs.last(), dir)]
        } else {
            Seq::empty()
        })
    }
}

/// Separate-mode aggregation over all repositories, in input order.
pub open spec fn artifacts_separate(repos: Seq<RepositoryModel>, dir: Seq<char>) -> Seq<
    ArtifactModel,
>
    decreases repos.len(),
{
    if repos.len() == 0 {
        Seq::empty()
    } else {
        artifacts_separate(repos.drop_last(), dir) + repo_artifacts(
            repos.last(),
            content_buckets(repos.last()),
            dir,
        )
    }
}

/// Merge-mode combined default-bucket text: every repository appears
/// under its own sub-header, in input order.
pub open spec fn merged_default(repos: Seq<RepositoryModel>) -> Seq<char>
    decreases repos.len(),
{
    if repos.len() == 0 {
        Seq::empty()
    } else {
        merged_default(repos.drop_last()) + "## Repository: "@ + repos.last().name + "\n"@
            + repo_bucket(repos.last(), "default"@)
    }
}

/// Merge-mode combined text of one split bucket: repositories with
/// nothing in that bucket are skipped.
pub open spec fn merged_named(repos: Seq<RepositoryModel>, name: Seq<char>) -> Seq<char>
    decreases repos.len(),
{
    if repos.len() == 0 {
        Seq::empty()
    } else {
        merged_named(repos.drop_last(), name) + (if repo_bucket(repos.last(), name).len() > 0 {
            "## Repository: "@ + repos.last().name + "\n"@ + repo_bucket(repos.last(), name)
        } else {
            Seq::empty()
        })
    }
}

/// The names of one repository's buckets other than `default`.
pub open spec fn nondefault_names(bs: Seq<BucketModel>) -> Seq<Seq<char>> {
    bs.map_values(|b: BucketModel| b.name).filter(|n: Seq<char>| n != "default"@)
}

/// All split-bucket names over the repositories, with repetition.
pub open spec fn flat_split_names(repos: Seq<RepositoryModel>) -> Seq<Seq<char>>
    decreases repos.len(),
{
    if repos.len() == 0 {
        Seq::empty()
    } else {
        flat_split_names(repos.drop_last()) + nondefault_names(content_buckets(repos.last()))
    }
}

/// All split-bucket names, first appearance first, each once.
pub open spec fn all_split_names(repos: Seq<RepositoryModel>) -> Seq<Seq<char>> {
    add_unique(Seq::empty(), flat_split_names(repos))
}

/// Merge-mode artifacts for the given split-bucket names, in order;
/// an empty combined bucket yields no artifact.
pub open spec fn named_artifacts(
    repos: Seq<RepositoryModel>,
    names: Seq<Seq<char>>,
    dir: Seq<char>,
) -> Seq<ArtifactModel>
    decreases names.len(),
{
    if names.len() == 0 {
        Seq::empty()
    } else {
        let head: Seq<ArtifactModel> = if merged_named(repos, names[0]).len() > 0 {
            seq![
                ArtifactModel {
                    path: dir + "/all_repos_"@ + underscore_seps(names[0]) + "_processed.md"@,
                    content: merged_named(repos, names[0]),
                },
            ]
        } else {
            Seq::empty()
        };
        head + named_artifacts(repos, names.skip(1), dir)
    }
}

/// Merge-mode aggregation: one combined artifact over the default
/// buckets (when there is at least one repository), then one per
/// split-bucket name whose combined text is non-empty.
pub open spec fn artifacts_merged(repos: Seq<RepositoryModel>, dir: Seq<char>) -> Seq<
    ArtifactModel,
> {
    let head: Seq<ArtifactModel> = if repos.len() == 0 {
        Seq::empty()
    } else {
        seq![
            ArtifactModel {
                path: dir + "/all_repos_processed.md"@,
                content: "# Merged Repository Contents\n"@ + merged_default(repos),
            },
        ]
    };
    head + named_artifacts(repos, all_split_names(repos), dir)
}

/// The aggregator's entire result as a function of its inputs.
pub open spec fn assemble_model(
    repos: Seq<RepositoryModel>,
    merge: bool,
    dir: Seq<char>,
) -> Seq<ArtifactModel> {
    if merge {
        artifacts_merged(repos, dir)
    } else {
        artifacts_separate(repos, dir)
    }
}

proof fn lemma_ignored_file_leaves_bucket_unchanged(
    files: Seq<FileEntryModel>,
    patterns: Seq<Seq<char>>,
    splits: Seq<Seq<char>>,
    folder: Option<Seq<char>>,
    no_headers: bool,
    merge: bool,
    name: Seq<char>,
    i: int,
)
    requires
        0 <= i < files.len(),
        !included(files[i], patterns, folder),
    ensures
        bucket_content(files, patterns, splits, folder, no_headers, merge, name)
            == bucket_content(files.remove(i), patterns, splits, folder, no_headers, merge, name),
    decreases files.len(),
{
    if i == files.len() - 1 {
        assert(files.remove(i) =~= files.drop_last());
    } else {
        assert(files.remove(i).drop_last() =~= files.drop_last().remove(i));
        assert(files.remove(i).last() == files.last());
        lemma_ignored_file_leaves_bucket_unchanged(
            files.drop_last(),
            patterns,
            splits,
            folder,
            no_headers,
            merge,
            name,
            i,
        );
    }
}

/// Ignore completeness: a file excluded by the active ignore patterns
/// contributes no block anywhere — the walker's entire result is the
/// same as if the file were absent from the tree.
pub proof fn lemma_ignore_completeness(
    files: Seq<FileEntryModel>,
    patterns: Seq<Seq<char>>,
    splits: Seq<Seq<char>>,
    folder: Option<Seq<char>>,
    no_headers: bool,
    merge: bool,
    i: int,
)
    requires
        0 <= i < files.len(),
        crate::ignore::ignored_by(patterns, files[i].path),
    ensures
        !included(files[i], patterns, folder),
        walk_model(files, patterns, splits, folder, no_headers, merge) == walk_model(
            files.remove(i),
            patterns,
            splits,
            folder,
            no_headers,
            merge,
        ),
{
    assert(!crate::ignore::valid_file(files[i].path, patterns));
    assert forall|b: int| 0 <= b < bucket_names(splits).len() implies walk_model(
        files,
        patterns,
        splits,
        folder,
        no_headers,
        merge,
    )[b] == walk_model(files.remove(i), patterns, splits, folder, no_headers, merge)[b] by {
        lemma_ignored_file_leaves_bucket_unchanged(
            files,
            patterns,
            splits,
            folder,
            no_headers,
            merge,
            bucket_names(splits)[b],
            i,
        );
    }
    assert(walk_model(files, patterns, splits, folder, no_headers, merge) =~= walk_model(
        files.remove(i),
        patterns,
        splits,
        folder,
        no_headers,
        merge,
    ));
}

/// The bucket a path is assigned to is always one of the walker's
/// bucket names: a split folder's name, or `default`.
pub proof fn lemma_bucket_name_in_names(path: Seq<char>, splits: Seq<Seq<char>>)
    ensures
        bucket_names(splits).contains(bucket_name_of(path, splits)),
    decreases splits.len(),
{
    crate::text::lemma_add_unique_membership(seq!["default"@], splits, bucket_name_of(path, splits));
    if splits.len() == 0 {
        assert(seq!["default"@][0] == "default"@);
        assert(seq!["default"@].contains("default"@));
    } else if path_under(norm_seps(splits[0]), norm_seps(path)) {
        assert(splits.contains(splits[0]));
    } else {
        lemma_bucket_name_in_names(path, splits.skip(1));
        crate::text::lemma_add_unique_membership(
            seq!["default"@],
            splits.skip(1),
            bucket_name_of(path, splits),
        );
        if splits.skip(1).contains(bucket_name_of(path, splits)) {
            let j = choose|j: int|
                0 <= j < splits.skip(1).len() && splits.skip(1)[j] == bucket_name_of(path, splits);
            assert(splits[j + 1] == bucket_name_of(path, splits));
            assert(splits.contains(bucket_name_of(path, splits)));
        } else {
            assert(seq!["default"@].contains(bucket_name_of(path, splits)));
            assert(seq!["default"@][0] == "default"@);
        }
    }
}

/// Bucket partition: an included file's block lands in exactly one
/// bucket — the one named by its first matching split folder, or
/// `default`. Walking one file further extends that bucket by exactly
/// the file's block and leaves every other bucket's content unchanged;
/// the bucket names are distinct, and the assigned name is among them.
pub proof fn lemma_bucket_partition(
    files: Seq<FileEntryModel>,
    patterns: Seq<Seq<char>>,
    splits: Seq<Seq<char>>,
    folder: Option<Seq<char>>,
    no_headers: bool,
    merge: bool,
    i: int,
)
    requires
        0 <= i < files.len(),
        included(files[i], patterns, folder),
    ensures
        crate::text::distinct_seq(bucket_names(splits)),
        bucket_names(splits).contains(bucket_name_of(files[i].path, splits)),
        bucket_content(
            files.take(i + 1),
            patterns,
            splits,
            folder,
            no_headers,
            merge,
            bucket_name_of(files[i].path, splits),
        ) == bucket_content(
            files.take(i),
            patterns,
            splits,
            folder,
            no_headers,
            merge,
            bucket_name_of(files[i].path, splits),
        ) + block_of(files[i].path, files[i].content, no_headers, merge),
        forall|name: Seq<char>|
            name != bucket_name_of(files[i].path, splits) ==> bucket_content(
                files.take(i + 1),
                patterns,
                splits,
                folder,
                no_headers,
                merge,
                name,
            ) == bucket_content(files.take(i), patterns, splits, folder, no_headers, merge, name),
{
    crate::text::lemma_add_unique_distinct(seq!["default"@], splits);
    lemma_bucket_name_in_names(files[i].path, splits);
    assert(files.take(i + 1).drop_last() =~= files.take(i));
    assert(files.take(i + 1).last() == files[i]);
}

/// Determinism: the walker's buckets and the aggregator's artifacts
/// are functions of the file tree and the configuration alone, so two
/// runs over unchanged inputs produce byte-identical results.
pub proof fn lemma_pipeline_deterministic(
    files: Seq<FileEntryModel>,
    patterns: Seq<Seq<char>>,
    splits: Seq<Seq<char>>,
    folder: Option<Seq<char>>,
    no_headers: bool,
    merge: bool,
    dir: Seq<char>,
    r1: Seq<BucketModel>,
    r2: Seq<BucketModel>,
    repos: Seq<RepositoryModel>,
    a1: Seq<ArtifactModel>,
    a2: Seq<ArtifactModel>,
)
    requires
        r1 == walk_model(files, patterns, splits, folder, no_headers, merge),
        r2 == walk_model(files, patterns, splits, folder, no_headers, merge),
        a1 == assemble_model(repos, merge, dir),
        a2 == assemble_model(repos, merge, dir),
    ensures
        r1 == r2,
        a1 == a2,
{
}

/// Index of the first failed source, or the length when all succeeded.
pub open spec fn first_err(rs: Seq<Result<Repository, String>>) -> int
    decreases rs.len(),
{
    if rs.len() == 0 {
        0
    } else if rs[0] is Err {
        0
    } else {
        1 + first_err(rs.skip(1))
    }
}

pub proof fn lemma_first_err(rs: Seq<Result<Repository, String>>)
    ensures
        0 <= first_err(rs) <= rs.len(),
        forall|j: int| 0 <= j < first_err(rs) ==> rs[j] is Ok,
        first_err(rs) < rs.len() ==> rs[first_err(rs)] is Err,
    decreases rs.len(),
{
    if rs.len() > 0 && rs[0] is Ok {
        lemma_first_err(rs.skip(1));
        assert forall|j: int| 0 <= j < first_err(rs) implies rs[j] is Ok by {
            if j > 0 {
                assert(rs.skip(1)[j - 1] == rs[j]);
            }
        }
        if first_err(rs) < rs.len() {
            assert(rs.skip(1)[first_err(rs) - 1] == rs[first_err(rs)]);
        }
    }
}

/// Collects the per-source outcomes in input order, failing fast: the
/// first failed source (in input order, not completion order) decides,
/// and its message names the cause; otherwise every repository is
/// returned, in order.
pub fn collect_results(results: Vec<Result<Repository, String>>) -> (r: Result<
    Vec<Repository>,
    String,
>)
    ensures
        match r {
            Ok(repos) => {
                &&& first_err(results@) == results@.len()
                &&& repos@.len() == results@.len()
                &&& forall|i: int| 0 <= i < results@.len() ==> repos@[i] == results@[i]->Ok_0
            },
            Err(m) => {
                &&& first_err(results@) < results@.len()
                &&& m@ == "Failed to process a repository: "@ + results@[first_err(
                    results@,
                )]->Err_0@
            },
        },
{
    let ghost orig = results@;
    proof {
        lemma_first_err(orig);
    }
    let mut rest = results;
    let mut repos: Vec<Repository> = Vec::new();
    while rest.len() > 0
        invariant
            orig == results@,
            repos@.len() + rest@.len() == orig.len(),
            rest@ == orig.skip(repos@.len() as int),
            forall|j: int| 0 <= j < repos@.len() ==> orig[j] is Ok,
            forall|j: int| 0 <= j < repos@.len() ==> repos@[j] == orig[j]->Ok_0,
        decreases rest@.len(),
    {
        let ghost i = repos@.len() as int;
        proof {
            assert(rest@[0] == orig[i]);
        }
        let item = rest.remove(0);
        proof {
            assert(rest@ =~= orig.skip(i + 1));
        }
        match item {
            Ok(repo) => {
                repos.push(repo);
            },
            Err(e) => {
                let mut msg = String::from_str("Failed to process a repository: ");
                msg.append(e.as_str());
                proof {
                    lemma_first_err(orig);
                    if first_err(orig) < i {
                        assert(orig[first_err(orig)] is Ok);
                    }
                    if first_err(orig) > i {
                        assert(orig[i] is Ok);
                    }
                    assert(first_err(orig) == i);
                    assert(orig[i]->Err_0 == e);
                    assert(msg@ == "Failed to process a repository: "@ + orig[i]->Err_0@);
                }
                return Err(msg);
            },
        }
    }
    proof {
        lemma_first_err(orig);
        assert(repos@.len() == orig.len());
        if first_err(orig) < orig.len() {
            assert(orig[first_err(orig)] is Ok);
        }
    }
    Ok(repos)
}

/// The `owner/repo` reference hidden in a fetch URL: every trailing
/// `.git` and every leading host prefix removed.
pub open spec fn strip_suffix_all(s: Seq<char>, suf: Seq<char>) -> Seq<char>
    decreases s.len(),
{
    if suf.len() > 0 && s.len() >= suf.len() && s.skip(s.len() - suf.len()) == suf {
        strip_suffix_all(s.take(s.len() - suf.len()), suf)
    } else {
        s
    }
}

pub open spec fn strip_prefix_all(s: Seq<char>, pre: Seq<char>) -> Seq<char>
    decreases s.len(),
{
    if pre.len() > 0 && s.len() >= pre.len() && s.take(pre.len() as int) == pre {
        strip_prefix_all(s.skip(pre.len() as int), pre)
    } else {
        s
    }
}

/// Recovers the `owner/repo` reference that pull-request listing needs
/// from a repository's fetch URL.
pub fn pr_repo_name(url: &str) -> (r: String)
    ensures
        r@ == strip_prefix_all(strip_suffix_all(url@, ".git"@), "https://github.com/"@),
{
    let ulen = url.unicode_len();
    let suflen = ".git".unicode_len();
    let prelen = "https://github.com/".unicode_len();
    proof {
        reveal_strlit(".git");
        reveal_strlit("https://github.com/");
        assert(url@.take(ulen as int) =~= url@);
    }
    let mut end: usize = ulen;
    loop
        invariant
            ulen == url@.len(),
            suflen == ".git"@.len(),
            suflen == 4,
            end <= ulen,
            strip_suffix_all(url@, ".git"@) == strip_suffix_all(url@.take(end as int), ".git"@),
        ensures
            end <= ulen,
            strip_suffix_all(url@, ".git"@) == url@.take(end as int),
        decreases end,
    {
        if end >= suflen && crate::text::region_eq(url, end - suflen, ulen, ".git", suflen) {
            proof {
                assert(url@.take(end as int).skip(end - suflen) =~= url@.subrange(
                    end - suflen,
                    end as int,
                ));
                assert(url@.take(end as int).take(end - suflen) =~= url@.take(end - suflen));
            }
            end -= suflen;
        } else {
            proof {
                if end >= suflen {
                    assert(url@.take(end as int).skip(end - suflen) =~= url@.subrange(
                        end - suflen,
                        end as int,
                    ));
                }
            }
            break;
        }
    }
    let mut start: usize = 0;
    proof {
        assert(url@.subrange(0, end as int) =~= url@.take(end as int));
    }
    loop
        invariant
            ulen == url@.len(),
            prelen == "https://github.com/"@.len(),
            prelen == 19,
            start <= end <= ulen,
            strip_prefix_all(strip_suffix_all(url@, ".git"@), "https://github.com/"@)
                == strip_prefix_all(url@.subrange(start as int, end as int), "https://github.com/"@),
        ensures
            start <= end <= ulen,
            strip_prefix_all(strip_suffix_all(url@, ".git"@), "https://github.com/"@)
                == url@.subrange(start as int, end as int),
        decreases end - start,
    {
        if end - start >= prelen && crate::text::region_eq(
            url,
            start,
            ulen,
            "https://github.com/",
            prelen,
        ) {
            proof {
                assert(url@.subrange(start as int, end as int).take(prelen as int) =~= url@
                    .subrange(start as int, start as int + prelen as int));
                assert(url@.subrange(start as int, end as int).skip(prelen as int) =~= url@
                    .subrange(start as int + prelen as int, end as int));
            }
            start += prelen;
        } else {
            proof {
                if end - start >= prelen {
                    assert(url@.subrange(start as int, end as int).take(prelen as int) =~= url@
                        .subrange(start as int, start as int + prelen as int));
                }
            }
            break;
        }
    }
    String::from_str(url.substring_char(start, end))
}

/// The decimal digits of `n`, most significant first.
pub open spec fn dec_digits(n: nat) -> Seq<char>
    decreases n,
{
    if n < 10 {
        seq![digit_char(n)]
    } else {
        dec_digits(n / 10).push(digit_char(n % 10))
    }
}

/// The character for one decimal digit.
pub open spec fn digit_char(d: nat) -> char {
    ((d + 48) as char)
}

fn append_dec(n: u32, out: &mut String)
    ensures
        final(out)@ == old(out)@ + dec_digits(n as nat),
    decreases n,
{
    if n >= 10 {
        append_dec(n / 10, out);
    }
    let d = n % 10;
    let ds: &str = if d == 0 {
        "0"
    } else if d == 1 {
        "1"
    } else if d == 2 {
        "2"
    } else if d == 3 {
        "3"
    } else if d == 4 {
        "4"
    } else if d == 5 {
        "5"
    } else if d == 6 {
        "6"
    } else if d == 7 {
        "7"
    } else if d == 8 {
        "8"
    } else {
        "9"
    };
    proof {
        reveal_strlit("0");
        reveal_strlit("1");
        reveal_strlit("2");
        reveal_strlit("3");
        reveal_strlit("4");
        reveal_strlit("5");
        reveal_strlit("6");
        reveal_strlit("7");
        reveal_strlit("8");
        reveal_strlit("9");
        assert(ds@ =~= seq![digit_char((n % 10) as nat)]);
    }
    out.append(ds);
    proof {
        if n < 10 {
            assert(n % 10 == n);
            assert(out@ =~= old(out)@ + dec_digits(n as nat));
        } else {
            assert(out@ =~= old(out)@ + dec_digits(n as nat));
        }
    }
}

/// The scratch directory a pull request is reconstructed under:
/// `<repository path>/pr-<number>`.
pub fn pr_temp_path(repo_path: &str, pr_number: u32) -> (r: String)
    ensures
        r@ == repo_path@ + "/pr-"@ + dec_digits(pr_number as nat),
{
    let mut out = String::from_str(repo_path);
    out.append("/pr-");
    append_dec(pr_number, &mut out);
    proof {
        assert(out@ =~= repo_path@ + "/pr-"@ + dec_digits(pr_number as nat));
    }
    out
}

/// Turns the processed repositories into the final artifacts, separate
/// or merged.
pub fn handle_results(repositories: &Vec<Repository>, merge_files: bool, output_dir: &str) -> (r:
    Vec<Artifact>)
    ensures
        r.deep_view() == assemble_model(repositories.deep_view(), merge_files, output_dir@),
{
    if merge_files {
        assemble_merged(repositories, output_dir)
    } else {
        assemble_separate(repositories, output_dir)
    }
}

fn assemble_separate(repositories: &Vec<Repository>, output_dir: &str) -> (r: Vec<Artifact>)
    ensures
        r.deep_view() == artifacts_separate(repositories.deep_view(), output_dir@),
{
    let ghost repos_dv = repositories.deep_view();
    let mut out: Vec<Artifact> = Vec::new();
    let nr = repositories.len();
    proof {
        assert(repos_dv.take(0) =~= Seq::<RepositoryModel>::empty());
        assert(out.deep_view() =~= artifacts_separate(repos_dv.take(0), output_dir@));
    }
    let mut i: usize = 0;
    while i < nr
        invariant
            nr == repositories.len(),
            repos_dv == repositories.deep_view(),
            i <= nr,
            out.deep_view() == artifacts_separate(repos_dv.take(i as int), output_dir@),
        decreases nr - i,
    {
        let repo = &repositories[i];
        let ghost rm = repos_dv[i as int];
        match &repo.content {
            None => {
                proof {
                    assert(content_buckets(rm) =~= Seq::<BucketModel>::empty());
                    assert(repo_artifacts(rm, content_buckets(rm), output_dir@)
                        =~= Seq::<ArtifactModel>::empty());
                }
            },
            Some(bs) => {
                let nbk = bs.len();
                proof {
                    assert(bs.deep_view().take(0) =~= Seq::<BucketModel>::empty());
                }
                let mut j: usize = 0;
                while j < nbk
                    invariant
                        nbk == bs.len(),
                        j <= nbk,
                        i < nr,
                        nr == repositories.len(),
                        repos_dv == repositories.deep_view(),
                        rm == repos_dv[i as int],
                        repo.name@ == rm.name,
                        bs.deep_view() == content_buckets(rm),
                        out.deep_view() == artifacts_separate(repos_dv.take(i as int), output_dir@)
                            + repo_artifacts(rm, bs.deep_view().take(j as int), output_dir@),
                    decreases nbk - j,
                {
                    proof {
                        assert(bs.deep_view().take(j as int + 1).drop_last() =~= bs.deep_view()
                            .take(j as int));
                        assert(bs.deep_view().take(j as int + 1).last() == bs.deep_view()[j as int]);
                    }
                    let blen = bs[j].content.as_str().unicode_len();
                    if blen > 0 {
                        let is_default = str_eq(bs[j].name.as_str(), "default");
                        let mut path = String::from_str(output_dir);
                        path.append("/");
                        path.append(repo.name.as_str());
                        let mut content = String::from_str("# Repository: ");
                        content.append(repo.name.as_str());
                        if is_default {
                            path.append("_processed.md");
                            content.append("\n");
                        } else {
                            path.append("_");
                            let und = underscore_seps_exec(bs[j].name.as_str());
                            path.append(und.as_str());
                            path.append("_processed.md");
                            content.append(" (");
                            content.append(bs[j].name.as_str());
                            content.append(")\n");
                        }
                        content.append(bs[j].content.as_str());
                        let ghost prev = out.deep_view();
                        let ghost newa = ArtifactModel { path: path@, content: content@ };
                        proof {
                            assert(newa =~= artifact_for(rm, bs.deep_view()[j as int], output_dir@));
                        }
                        out.push(Artifact { path, content });
                        proof {
                            assert(out.deep_view() =~= prev.push(newa));
                            assert(out.deep_view() =~= artifacts_separate(
                                repos_dv.take(i as int),
                                output_dir@,
                            ) + repo_artifacts(rm, bs.deep_view().take(j as int + 1), output_dir@));
                        }
                    } else {
                        proof {
                            assert(bs.deep_view()[j as int].content.len() == 0);
                            assert(out.deep_view() =~= artifacts_separate(
                                repos_dv.take(i as int),
                                output_dir@,
                            ) + repo_artifacts(rm, bs.deep_view().take(j as int + 1), output_dir@));
                        }
                    }
                    j += 1;
                }
                proof {
                    assert(bs.deep_view().take(nbk as int) =~= bs.deep_view());
                }
            },
        }
        proof {
            assert(repos_dv.take(i as int + 1).drop_last() =~= repos_dv.take(i as int));
            assert(repos_dv.take(i as int + 1).last() == rm);
            assert(out.deep_view() =~= artifacts_separate(repos_dv.take(i as int + 1), output_dir@));
        }
        i += 1;
    }
    proof {
        assert(repos_dv.take(nr as int) =~= repos_dv);
    }
    out
}

fn assemble_merged(repositories: &Vec<Repository>, output_dir: &str) -> (r: Vec<Artifact>)
    ensures
        r.deep_view() == artifacts_merged(repositories.deep_view(), output_dir@),
{
    let ghost repos_dv = repositories.deep_view();
    let nr = repositories.len();
    // The combined default-bucket artifact.
    let mut combined = String::from_str("# Merged Repository Contents\n");
    proof {
        assert(repos_dv.take(0) =~= Seq::<RepositoryModel>::empty());
        assert(combined@ =~= "# Merged Repository Contents\n"@ + merged_default(repos_dv.take(0)));
    }
    let mut i: usize = 0;
    while i < nr
        invariant
            nr == repositories.len(),
            repos_dv == repositories.deep_view(),
            i <= nr,
            combined@ == "# Merged Repository Contents\n"@ + merged_default(
                repos_dv.take(i as int),
            ),
        decreases nr - i,
    {
        let repo = &repositories[i];
        combined.append("## Repository: ");
        combined.append(repo.name.as_str());
        combined.append("\n");
        let dflt = repo_bucket_exec(repo, "default");
        combined.append(dflt.as_str());
        proof {
            assert(repos_dv.take(i as int + 1).drop_last() =~= repos_dv.take(i as int));
            assert(repos_dv.take(i as int + 1).last() == repos_dv[i as int]);
            assert(combined@ =~= "# Merged Repository Contents\n"@ + merged_default(
                repos_dv.take(i as int + 1),
            ));
        }
        i += 1;
    }
    proof {
        assert(repos_dv.take(nr as int) =~= repos_dv);
    }
    let mut out: Vec<Artifact> = Vec::new();
    let ghost head: Seq<ArtifactModel> = if repos_dv.len() == 0 {
        Seq::empty()
    } else {
        seq![
            ArtifactModel {
                path: output_dir@ + "/all_repos_processed.md"@,
                content: "# Merged Repository Contents\n"@ + merged_default(repos_dv),
            },
        ]
    };
    if nr > 0 {
        let mut apath = String::from_str(output_dir);
        apath.append("/all_repos_processed.md");
        let ghost newa = ArtifactModel { path: apath@, content: combined@ };
        out.push(Artifact { path: apath, content: combined });
        proof {
            assert(newa =~= head[0]);
            assert(out.deep_view() =~= head);
        }
    } else {
        proof {
            assert(out.deep_view() =~= head);
        }
    }
    // The split-bucket names, in order of first appearance.
    let mut names: Vec<String> = Vec::new();
    proof {
        assert(flat_split_names(repos_dv.take(0)) =~= Seq::<Seq<char>>::empty());
        assert(names.deep_view() =~= add_unique(
            Seq::<Seq<char>>::empty(),
            flat_split_names(repos_dv.take(0)),
        ));
    }
    let mut i2: usize = 0;
    while i2 < nr
        invariant
            nr == repositories.len(),
            repos_dv == repositories.deep_view(),
            i2 <= nr,
            names.deep_view() == add_unique(
                Seq::<Seq<char>>::empty(),
                flat_split_names(repos_dv.take(i2 as int)),
            ),
        decreases nr - i2,
    {
        let repo = &repositories[i2];
        let ghost rm = repos_dv[i2 as int];
        let ghost flat_i = flat_split_names(repos_dv.take(i2 as int));
        match &repo.content {
            None => {
                proof {
                    assert(content_buckets(rm) =~= Seq::<BucketModel>::empty());
                    assert(nondefault_names(content_buckets(rm)) =~= Seq::<Seq<char>>::empty());
                    assert(flat_i + nondefault_names(content_buckets(rm)) =~= flat_i);
                }
            },
            Some(bs) => {
                let nbk = bs.len();
                proof {
                    assert(bs.deep_view().take(0) =~= Seq::<BucketModel>::empty());
                    assert(nondefault_names(bs.deep_view().take(0)) =~= Seq::<Seq<char>>::empty());
                    assert(flat_i + nondefault_names(bs.deep_view().take(0)) =~= flat_i);
                }
                let mut j: usize = 0;
                while j < nbk
                    invariant
                        nbk == bs.len(),
                        j <= nbk,
                        i2 < nr,
                        nr == repositories.len(),
                        repos_dv == repositories.deep_view(),
                        rm == repos_dv[i2 as int],
                        bs.deep_view() == content_buckets(rm),
                        flat_i == flat_split_names(repos_dv.take(i2 as int)),
                        names.deep_view() == add_unique(
                            Seq::<Seq<char>>::empty(),
                            flat_i + nondefault_names(bs.deep_view().take(j as int)),
                        ),
                    decreases nbk - j,
                {
                    proof {
                        broadcast use vstd::prelude::Seq::lemma_push_map_commute, vstd::prelude::Seq::lemma_filter_push;

                        assert(bs.deep_view().take(j as int + 1) =~= bs.deep_view().take(
                            j as int,
                        ).push(bs.deep_view()[j as int]));
                        assert(bs.deep_view().take(j as int).push(
                            bs.deep_view()[j as int],
                        ).map_values(|b: BucketModel| b.name) == bs.deep_view().take(
                            j as int,
                        ).map_values(|b: BucketModel| b.name).push(bs.deep_view()[j as int].name));
                    }
                    let nm = bs[j].name.as_str();
                    if !str_eq(nm, "default") {
                        proof {
                            assert(nondefault_names(bs.deep_view().take(j as int + 1))
                                =~= nondefault_names(bs.deep_view().take(j as int)).push(
                                bs.deep_view()[j as int].name,
                            ));
                            assert(flat_i + nondefault_names(bs.deep_view().take(j as int + 1))
                                =~= (flat_i + nondefault_names(bs.deep_view().take(j as int))).push(
                                bs.deep_view()[j as int].name,
                            ));
                            lemma_add_unique_push(
                                Seq::<Seq<char>>::empty(),
                                flat_i + nondefault_names(bs.deep_view().take(j as int)),
                                bs.deep_view()[j as int].name,
                            );
                        }
                        if !contains_str(&names, nm) {
                            names.push(bs[j].name.clone());
                        }
                    } else {
                        proof {
                            assert(nondefault_names(bs.deep_view().take(j as int + 1))
                                =~= nondefault_names(bs.deep_view().take(j as int)));
                            assert(flat_i + nondefault_names(bs.deep_view().take(j as int + 1))
                                =~= flat_i + nondefault_names(bs.deep_view().take(j as int)));
                        }
                    }
                    j += 1;
                }
                proof {
                    assert(bs.deep_view().take(nbk as int) =~= bs.deep_view());
                }
            },
        }
        proof {
            assert(repos_dv.take(i2 as int + 1).drop_last() =~= repos_dv.take(i2 as int));
            assert(repos_dv.take(i2 as int + 1).last() == rm);
            assert(flat_split_names(repos_dv.take(i2 as int + 1)) =~= flat_i + nondefault_names(
                content_buckets(rm),
            ));
        }
        i2 += 1;
    }
    proof {
        assert(repos_dv.take(nr as int) =~= repos_dv);
        assert(names.deep_view() == all_split_names(repos_dv));
    }
    // One artifact per split-bucket name with non-empty combined text.
    let ghost names_dv = names.deep_view();
    proof {
        assert(names_dv.skip(0) =~= names_dv);
    }
    let nn = names.len();
    let mut k: usize = 0;
    while k < nn
        invariant
            nn == names.len(),
            names_dv == names.deep_view(),
            nr == repositories.len(),
            repos_dv == repositories.deep_view(),
            k <= nn,
            out.deep_view() + named_artifacts(repos_dv, names_dv.skip(k as int), output_dir@)
                == head + named_artifacts(repos_dv, names_dv, output_dir@),
        decreases nn - k,
    {
        let mut sect = String::new();
        proof {
            assert(repos_dv.take(0) =~= Seq::<RepositoryModel>::empty());
            assert(sect@ =~= merged_named(repos_dv.take(0), names_dv[k as int]));
        }
        let mut i3: usize = 0;
        while i3 < nr
            invariant
                nr == repositories.len(),
                repos_dv == repositories.deep_view(),
                names_dv == names.deep_view(),
                k < nn,
                nn == names.len(),
                i3 <= nr,
                sect@ == merged_named(repos_dv.take(i3 as int), names_dv[k as int]),
            decreases nr - i3,
        {
            let repo = &repositories[i3];
            let c = repo_bucket_exec(repo, names[k].as_str());
            if c.as_str().unicode_len() > 0 {
                sect.append("## Repository: ");
                sect.append(repo.name.as_str());
                sect.append("\n");
                sect.append(c.as_str());
            }
            proof {
                assert(repos_dv.take(i3 as int + 1).drop_last() =~= repos_dv.take(i3 as int));
                assert(repos_dv.take(i3 as int + 1).last() == repos_dv[i3 as int]);
                assert(sect@ =~= merged_named(repos_dv.take(i3 as int + 1), names_dv[k as int]));
            }
            i3 += 1;
        }
        proof {
            assert(repos_dv.take(nr as int) =~= repos_dv);
        }
        let ghost prevout = out.deep_view();
        let sect_len = sect.as_str().unicode_len();
        if sect_len > 0 {
            let mut apath = String::from_str(output_dir);
            apath.append("/all_repos_");
            let und = underscore_seps_exec(names[k].as_str());
            apath.append(und.as_str());
            apath.append("_processed.md");
            let ghost newa = ArtifactModel { path: apath@, content: sect@ };
            proof {
                assert(newa =~= (ArtifactModel {
                    path: output_dir@ + "/all_repos_"@ + underscore_seps(names_dv[k as int])
                        + "_processed.md"@,
                    content: merged_named(repos_dv, names_dv[k as int]),
                }));
            }
            out.push(Artifact { path: apath, content: sect });
            proof {
                assert(out.deep_view() =~= prevout.push(newa));
            }
        }
        proof {
            assert(names_dv.skip(k as int)[0] == names_dv[k as int]);
            assert(names_dv.skip(k as int).skip(1) =~= names_dv.skip(k as int + 1));
            assert(out.deep_view() + named_artifacts(
                repos_dv,
                names_dv.skip(k as int + 1),
                output_dir@,
            ) =~= head + named_artifacts(repos_dv, names_dv, output_dir@));
        }
        k += 1;
    }
    proof {
        assert(names_dv.skip(nn as int).len() == 0);
        assert(named_artifacts(repos_dv, names_dv.skip(nn as int), output_dir@)
            =~= Seq::<ArtifactModel>::empty());
        assert(out.deep_view() + named_artifacts(repos_dv, names_dv.skip(nn as int), output_dir@)
            =~= out.deep_view());
        assert(out.deep_view() =~= artifacts_merged(repos_dv, output_dir@));
    }
    out
}

} // verus!
