//! Argument lists for the external package-and-run tool, `uv`.

use vstd::prelude::*;

verus! {

/// Views of a sequence of strings.
pub open spec fn arg_views(s: Seq<String>) -> Seq<Seq<char>> {
    s.map_values(|x: String| x@)
}

/// Appends copies of `extra` to `args`.
fn extend_args(args: &mut Vec<String>, extra: &Vec<String>)
    ensures
        arg_views(final(args)@) == arg_views(old(args)@) + arg_views(extra@),
{
    let ghost start = arg_views(args@);
    let mut i: usize = 0;
    while i < extra.len()
        invariant
            i <= extra.len(),
            arg_views(args@) == start + arg_views(extra@.take(i as int)),
        decreases extra.len() - i,
    {
        let ghost before = args@;
        args.push(extra[i].clone());
        assert(args@ == before.push(extra@[i as int]));
        assert(arg_views(extra@.take(i + 1)) =~= arg_views(extra@.take(i as int)).push(extra@[i as int]@));
        assert(arg_views(args@) =~= arg_views(before).push(extra@[i as int]@));
        assert(arg_views(args@) =~= start + arg_views(extra@.take(i + 1)));
        i = i + 1;
    }
    assert(extra@.take(i as int) == extra@);
}

/// `uv run --project <dir> <entry> [extra...]`.
pub fn uv_run_args(project_dir: &str, entry: &str, extra: &Vec<String>) -> (r: Vec<String>)
    ensures
        arg_views(r@) == seq!["run"@, "--project"@, project_dir@, entry@] + arg_views(extra@),
{
    let mut r: Vec<String> = Vec::new();
    r.push("run".to_owned());
    r.push("--project".to_owned());
    r.push(project_dir.to_owned());
    r.push(entry.to_owned());
    assert(arg_views(r@) =~= seq!["run"@, "--project"@, project_dir@, entry@]);
    extend_args(&mut r, extra);
    r
}

/// `uv build --project <dir>`.
pub fn uv_build_args(project_dir: &str) -> (r: Vec<String>)
    ensures
        arg_views(r@) == seq!["build"@, "--project"@, project_dir@],
{
    let mut r: Vec<String> = Vec::new();
    r.push("build".to_owned());
    r.push("--project".to_owned());
    r.push(project_dir.to_owned());
    assert(arg_views(r@) =~= seq!["build"@, "--project"@, project_dir@]);
    r
}

/// `uv run --project <dir> pytest <tests dir> [extra...]`.
pub fn uv_test_args(project_dir: &str, tests_dir: &str, extra: &Vec<String>) -> (r: Vec<String>)
    ensures
        arg_views(r@) == seq!["run"@, "--project"@, project_dir@, "pytest"@, tests_dir@] + arg_views(extra@),
{
    let mut r: Vec<String> = Vec::new();
    r.push("run".to_owned());
    r.push("--project".to_owned());
    r.push(project_dir.to_owned());
    r.push("pytest".to_owned());
    r.push(tests_dir.to_owned());
    assert(arg_views(r@) =~= seq!["run"@, "--project"@, project_dir@, "pytest"@, tests_dir@]);
    extend_args(&mut r, extra);
    r
}

/// `uv sync`.
pub fn uv_sync_args() -> (r: Vec<String>)
    ensures
        arg_views(r@) == seq!["sync"@],
{
    let mut r: Vec<String> = Vec::new();
    r.push("sync".to_owned());
    assert(arg_views(r@) =~= seq!["sync"@]);
    r
}

} // verus!
