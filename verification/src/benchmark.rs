//! Where Criterion's benchmark artifacts live.
//!
//! Criterion writes, for every benchmark `group/function`, a directory under
//! its root with `new/estimates.json` (point estimates of the mean and the
//! median) and `new/sample.json` (the raw samples).
use vstd::prelude::*;
use crate::columns::ColumnStat;

verus! {

/// The path that `std::path::Path::join` makes of `base` and `part`, as text.
/// It is a function of the two strings for the platform the library is built
/// for; Unix and Windows differ (separator, absolute paths, prefixes).
pub uninterp spec fn joined_path(base: Seq<char>, part: Seq<char>) -> Seq<char>;

/// A path separator on Unix (`/`) or Windows (`/` or `\\`).
pub open spec fn is_separator(c: char) -> bool {
    c == '/' || c == '\\'
}

/// A base path that `Path::join` extends by appending: not empty, not ending
/// in a separator, without a Windows prefix (no `:`, no leading `\\`).
pub open spec fn plain_base(b: Seq<char>) -> bool {
    &&& b.len() > 0
    &&& !is_separator(b.last())
    &&& b[0] != '\\'
    &&& !b.contains(':')
}

/// A relative path without root or Windows prefix: not empty, not starting
/// with a separator, without `:`.
pub open spec fn plain_relative(p: Seq<char>) -> bool {
    &&& p.len() > 0
    &&& !is_separator(p[0])
    &&& !p.contains(':')
}

/// Joins `part` onto `base` with `std::path::Path::join` and returns the
/// result as a string (lossless: both are UTF-8). The contract names the
/// result: `joined_path` of the two strings. As `PathBuf::push` documents,
/// a relative part without root or prefix is appended after the platform's
/// separator (`/` on Unix, `\\` on Windows) when the base does not already
/// end in one; the other cases (absolute parts, prefixes, bases ending in a
/// separator) are left to the name.
#[verifier::external_body]
fn path_join(base: &str, part: &str) -> (r: String)
    ensures
        r@ == joined_path(base@, part@),
        plain_base(base@) && plain_relative(part@) ==> {
            &&& is_separator(r@[base@.len() as int])
            &&& r@ == base@ + seq![r@[base@.len() as int]] + part@
        },
{
    std::path::Path::new(base).join(part).to_string_lossy().into_owned()
}

/// Criterion's default output directory, `target/criterion`.
pub fn default_criterion_root() -> (r: String)
    ensures
        r@ == "target/criterion"@,
{
    "target/criterion".to_owned()
}

/// The directory of benchmark `id` under Criterion root `root`.
pub fn criterion_path(root: &str, id: &str) -> (r: String)
    ensures
        r@ == joined_path(root@, id@),
        plain_base(root@) && plain_relative(id@) ==> {
            &&& is_separator(r@[root@.len() as int])
            &&& r@ == root@ + seq![r@[root@.len() as int]] + id@
        },
{
    path_join(root, id)
}

/// The path of file `file` in the `new` directory of `group_function` under `root`.
pub open spec fn criterion_file_path(root: Seq<char>, group_function: Seq<char>, file: Seq<char>) -> Seq<char> {
    joined_path(joined_path(joined_path(root, group_function), "new"@), file)
}

/// The message of the error for an empty benchmark id.
pub open spec fn empty_id_message() -> Seq<char> {
    "group/function cannot be empty"@
}

/// A root and benchmark id whose joins are spelled out by [`spelled_path`].
pub open spec fn plain_target(root: Seq<char>, id: Seq<char>) -> bool {
    plain_base(root) && plain_relative(id) && !is_separator(id.last())
}

/// `p` is `root`, `id`, `new` and `file` with a separator between each.
pub open spec fn spelled_path(root: Seq<char>, id: Seq<char>, file: Seq<char>, p: Seq<char>) -> bool {
    exists|s1: char, s2: char, s3: char|
        #![trigger is_separator(s1), is_separator(s2), is_separator(s3)]
        is_separator(s1) && is_separator(s2) && is_separator(s3) && p == root + seq![s1] + id + seq![s2] + "new"@
            + seq![s3] + file
}

fn criterion_new_file(root: &str, group_function: &str, file: &str) -> (r: Result<String, String>)
    ensures
        match r {
            Ok(p) => {
                &&& group_function@.len() > 0
                &&& p@ == criterion_file_path(root@, group_function@, file@)
                &&& plain_target(root@, group_function@) && plain_relative(file@) ==> spelled_path(
                    root@,
                    group_function@,
                    file@,
                    p@,
                )
            },
            Err(m) => group_function@.len() == 0 && m@ == empty_id_message(),
        },
{
    if group_function.is_empty() {
        return Err("group/function cannot be empty".to_owned());
    }
    let dir = path_join(root, group_function);
    let new_dir = path_join(dir.as_str(), "new");
    let p = path_join(new_dir.as_str(), file);
    proof {
        if plain_target(root@, group_function@) && plain_relative(file@) {
            reveal_strlit("new");
            let s1 = dir@[root@.len() as int];
            assert(dir@.last() == group_function@.last());
            assert(dir@[0] == root@[0]);
            assert forall|i: int| 0 <= i < dir@.len() implies dir@[i] != ':' by {
                if i < root@.len() {
                    assert(dir@[i] == root@[i]);
                } else if i > root@.len() {
                    assert(dir@[i] == group_function@[i - root@.len() - 1]);
                }
            }
            assert(plain_relative("new"@)) by {
                assert("new"@ =~= seq!['n', 'e', 'w']);
            }
            let s2 = new_dir@[dir@.len() as int];
            assert(new_dir@.last() == 'w');
            assert(new_dir@[0] == root@[0]);
            assert forall|i: int| 0 <= i < new_dir@.len() implies new_dir@[i] != ':' by {
                if i < dir@.len() {
                    assert(new_dir@[i] == dir@[i]);
                } else if i > dir@.len() {
                    assert(new_dir@[i] == "new"@[i - dir@.len() - 1]);
                }
            }
            let s3 = p@[new_dir@.len() as int];
            assert(p@ =~= root@ + seq![s1] + group_function@ + seq![s2] + "new"@ + seq![s3] + file@);
            assert(is_separator(s1) && is_separator(s2) && is_separator(s3));
        }
    }
    Ok(p)
}

/// Build an `estimates.json` path from Criterion root, e.g.
/// `target/criterion/math/elliprf/new/estimates.json`.
pub fn criterion_estimates_path(criterion_root: &str, group_function: &str) -> (r: Result<String, String>)
    ensures
        match r {
            Ok(p) => {
                &&& group_function@.len() > 0
                &&& p@ == criterion_file_path(criterion_root@, group_function@, "estimates.json"@)
                &&& plain_target(criterion_root@, group_function@) ==> spelled_path(
                    criterion_root@,
                    group_function@,
                    "estimates.json"@,
                    p@,
                )
            },
            Err(m) => group_function@.len() == 0 && m@ == empty_id_message(),
        },
{
    proof {
        reveal_strlit("estimates.json");
        assert("estimates.json"@[0] == 'e');
    }
    criterion_new_file(criterion_root, group_function, "estimates.json")
}

/// Build a `sample.json` path from Criterion root and `group/function`.
pub fn criterion_sample_path(criterion_root: &str, group_function: &str) -> (r: Result<String, String>)
    ensures
        match r {
            Ok(p) => {
                &&& group_function@.len() > 0
                &&& p@ == criterion_file_path(criterion_root@, group_function@, "sample.json"@)
                &&& plain_target(criterion_root@, group_function@) ==> spelled_path(
                    criterion_root@,
                    group_function@,
                    "sample.json"@,
                    p@,
                )
            },
            Err(m) => group_function@.len() == 0 && m@ == empty_id_message(),
        },
{
    proof {
        reveal_strlit("sample.json");
        assert("sample.json"@[0] == 's');
    }
    criterion_new_file(criterion_root, group_function, "sample.json")
}

/// Which Criterion artifact a statistic is read from.
#[derive(Debug, Clone, Copy, PartialEq, Eq, Structural)]
pub enum CriterionSource {
    /// `estimates.json`: Criterion's own point estimates.
    Estimates,
    /// `sample.json`: statistics computed from the raw per-iteration times.
    Samples,
}

/// The mean and the median come from Criterion's point estimates; every
/// other statistic is computed from the samples.
pub open spec fn spec_source_of(stat: ColumnStat) -> CriterionSource {
    match stat {
        ColumnStat::Mean | ColumnStat::Median => CriterionSource::Estimates,
        _ => CriterionSource::Samples,
    }
}

/// The Criterion artifact that statistic `stat` is read from.
pub fn criterion_source(stat: ColumnStat) -> (r: CriterionSource)
    ensures
        r == spec_source_of(stat),
{
    match stat {
        ColumnStat::Mean | ColumnStat::Median => CriterionSource::Estimates,
        _ => CriterionSource::Samples,
    }
}

/// The file that statistic `stat` of benchmark `criterion_id` is read from.
pub fn criterion_stat_path(criterion_root: &str, criterion_id: &str, stat: ColumnStat) -> (r: Result<String, String>)
    ensures
        match r {
            Ok(p) => {
                &&& criterion_id@.len() > 0
                &&& p@ == criterion_file_path(criterion_root@, criterion_id@, if spec_source_of(stat) == CriterionSource::Estimates { "estimates.json"@ } else { "sample.json"@ })
                &&& plain_target(criterion_root@, criterion_id@) ==> spelled_path(
                    criterion_root@,
                    criterion_id@,
                    if spec_source_of(stat) == CriterionSource::Estimates { "estimates.json"@ } else { "sample.json"@ },
                    p@,
                )
            },
            Err(m) => criterion_id@.len() == 0 && m@ == empty_id_message(),
        },
{
    match criterion_source(stat) {
        CriterionSource::Estimates => criterion_estimates_path(criterion_root, criterion_id),
        CriterionSource::Samples => criterion_sample_path(criterion_root, criterion_id),
    }
}

} // verus!
