//! The workspace check: cycles, source routing of app dependencies, the
//! `src/<name>` layout, and manifest presence.

use vstd::prelude::*;

use crate::config::has_key;
use crate::graph::{dep_count, has_cycle, DependencyGraph, INDEX_LIMIT};
use crate::names::{dep_name, dependency_name, hyphenated, to_hyphen, to_underscore, underscored};
use crate::workspace::{first_index, index_of, lemma_first_index, names_of, Brick, Workspace};

verus! {

/// What the filesystem shows of one brick's directory.
#[derive(Debug, Clone, Copy, PartialEq, Eq, Structural)]
pub struct LayoutFacts {
    /// The directory holds `src/<underscore name>`.
    pub has_src_dir: bool,
    /// The directory holds a project manifest.
    pub has_manifest: bool,
}

/// One problem found by the check.
#[derive(Debug)]
pub enum Finding {
    /// The dependency graph has a cycle (an error).
    CircularDependency,
    /// An app depends on a member that its source-routing table lacks (a warning).
    MissingSource { app: String, member: String },
    /// A brick lacks its `src/<name>` directory (a warning).
    MissingSrcDir { brick: String, expected: String },
    /// A brick lacks its manifest (an error).
    MissingManifest { brick: String },
}

/// The outcome of the check: what was found, and how many errors and warnings.
#[derive(Debug)]
pub struct CheckReport {
    pub cyclic: bool,
    pub errors: usize,
    pub warnings: usize,
    pub findings: Vec<Finding>,
}

/// An app's specifier names a member that the app's source-routing table
/// holds under neither spelling.
pub open spec fn lacks_source(app: Brick, spec: Seq<char>, names: Seq<Seq<char>>) -> bool {
    &&& names.contains(dep_name(spec))
    &&& !(app.pyproject.sources() matches Some(e) && (has_key(e, dep_name(spec)) || has_key(
        e,
        hyphenated(dep_name(spec)),
    )))
}

/// Number of the first `k` specifiers of `app` that lack a source entry.
pub open spec fn lacking_in(app: Brick, k: int, names: Seq<Seq<char>>) -> nat
    decreases k,
{
    if k <= 0 {
        0
    } else {
        lacking_in(app, k - 1, names) + if lacks_source(app, app.pyproject.deps()[k - 1]@, names) {
            1nat
        } else {
            0nat
        }
    }
}

/// Number of specifiers, over all `apps`, that lack a source entry.
pub open spec fn lacking_sources(apps: Seq<Brick>, names: Seq<Seq<char>>) -> nat
    decreases apps.len(),
{
    if apps.len() == 0 {
        0
    } else {
        lacking_sources(apps.drop_last(), names) + lacking_in(
            apps.last(),
            apps.last().pyproject.deps().len() as int,
            names,
        )
    }
}

/// Number of `false` among `flags`.
pub open spec fn count_false(flags: Seq<bool>) -> nat
    decreases flags.len(),
{
    if flags.len() == 0 {
        0
    } else {
        count_false(flags.drop_last()) + if flags.last() {
            0nat
        } else {
            1nat
        }
    }
}

/// Errors the check reports: one for any cycle, one per missing manifest.
pub open spec fn expected_errors(g: DependencyGraph, layout: Seq<LayoutFacts>) -> nat {
    (if has_cycle(g.edges()) {
        1nat
    } else {
        0nat
    }) + count_false(layout.map_values(|f: LayoutFacts| f.has_manifest))
}

/// Warnings the check reports: one per app dependency without a source entry,
/// one per brick without its `src/<name>` directory.
pub open spec fn expected_warnings(ws: Workspace, layout: Seq<LayoutFacts>) -> nat {
    lacking_sources(ws.apps@, names_of(ws.members())) + count_false(
        layout.map_values(|f: LayoutFacts| f.has_src_dir),
    )
}

/// A finding as plain values.
pub enum FindingView {
    CircularDependency,
    MissingSource { app: Seq<char>, member: Seq<char> },
    MissingSrcDir { brick: Seq<char>, expected: Seq<char> },
    MissingManifest { brick: Seq<char> },
}

impl View for Finding {
    type V = FindingView;

    open spec fn view(&self) -> FindingView {
        match self {
            Finding::CircularDependency => FindingView::CircularDependency,
            Finding::MissingSource { app, member } => FindingView::MissingSource {
                app: app@,
                member: member@,
            },
            Finding::MissingSrcDir { brick, expected } => FindingView::MissingSrcDir {
                brick: brick@,
                expected: expected@,
            },
            Finding::MissingManifest { brick } => FindingView::MissingManifest { brick: brick@ },
        }
    }
}

/// Views of a sequence of findings.
pub open spec fn finding_views(f: Seq<Finding>) -> Seq<FindingView> {
    f.map_values(|x: Finding| x@)
}

/// Findings for the first `k` specifiers of `app` that lack a source entry.
pub open spec fn source_findings_in(app: Brick, k: int, names: Seq<Seq<char>>) -> Seq<FindingView>
    decreases k,
{
    if k <= 0 {
        Seq::empty()
    } else {
        let rest = source_findings_in(app, k - 1, names);
        let spec = app.pyproject.deps()[k - 1]@;
        if lacks_source(app, spec, names) {
            rest.push(FindingView::MissingSource { app: app.name@, member: dep_name(spec) })
        } else {
            rest
        }
    }
}

/// Findings for every app specifier that lacks a source entry, app by app.
pub open spec fn source_findings(apps: Seq<Brick>, names: Seq<Seq<char>>) -> Seq<FindingView>
    decreases apps.len(),
{
    if apps.len() == 0 {
        Seq::empty()
    } else {
        source_findings(apps.drop_last(), names) + source_findings_in(
            apps.last(),
            apps.last().pyproject.deps().len() as int,
            names,
        )
    }
}

/// Findings for the first `k` bricks whose `src/<name>` directory is missing.
pub open spec fn src_dir_findings(bricks: Seq<Brick>, layout: Seq<LayoutFacts>, k: int) -> Seq<FindingView>
    decreases k,
{
    if k <= 0 {
        Seq::empty()
    } else {
        let rest = src_dir_findings(bricks, layout, k - 1);
        if layout[k - 1].has_src_dir {
            rest
        } else {
            rest.push(FindingView::MissingSrcDir {
                brick: bricks[k - 1].name@,
                expected: "src/"@ + underscored(bricks[k - 1].name@),
            })
        }
    }
}

/// Findings for the first `k` bricks whose manifest is missing.
pub open spec fn manifest_findings(bricks: Seq<Brick>, layout: Seq<LayoutFacts>, k: int) -> Seq<FindingView>
    decreases k,
{
    if k <= 0 {
        Seq::empty()
    } else {
        let rest = manifest_findings(bricks, layout, k - 1);
        if layout[k - 1].has_manifest {
            rest
        } else {
            rest.push(FindingView::MissingManifest { brick: bricks[k - 1].name@ })
        }
    }
}

/// Everything the check reports, in order: the cycle, then the app
/// dependencies without a source entry, then the missing `src/<name>`
/// directories, then the missing manifests.
pub open spec fn expected_findings(ws: Workspace, g: DependencyGraph, layout: Seq<LayoutFacts>) -> Seq<FindingView> {
    let n = ws.members().len() as int;
    (if has_cycle(g.edges()) {
        seq![FindingView::CircularDependency]
    } else {
        Seq::empty()
    }) + source_findings(ws.apps@, names_of(ws.members())) + src_dir_findings(ws.members(), layout, n)
        + manifest_findings(ws.members(), layout, n)
}

/// The directory, relative to a brick's own, that the layout convention asks
/// for: `src/` and the underscore spelling of the name.
pub fn expected_src_dir(name: &str) -> (r: String)
    ensures
        r@ == "src/"@ + underscored(name@),
{
    let snake = to_underscore(name);
    let mut r = String::new();
    r.append("src/");
    r.append(snake.as_str());
    r
}

proof fn lemma_count_false_push(flags: Seq<bool>, b: bool)
    ensures
        count_false(flags.push(b)) == count_false(flags) + if b {
            0nat
        } else {
            1nat
        },
{
    assert(flags.push(b).drop_last() == flags);
}

proof fn lemma_lacking_sources_push(apps: Seq<Brick>, app: Brick, names: Seq<Seq<char>>)
    ensures
        lacking_sources(apps.push(app), names) == lacking_sources(apps, names) + lacking_in(
            app,
            app.pyproject.deps().len() as int,
            names,
        ),
{
    assert(apps.push(app).drop_last() == apps);
}

/// Counts the app dependencies on members that the app's source-routing
/// table lacks, adding a finding for each.
fn check_sources(app: &Brick, names: &Vec<String>, findings: &mut Vec<Finding>) -> (r: usize)
    requires
        app.pyproject.deps().len() < INDEX_LIMIT,
    ensures
        r == lacking_in(*app, app.pyproject.deps().len() as int, names@.map_values(|s: String| s@)),
        final(findings)@.len() == old(findings)@.len() + r,
        finding_views(final(findings)@) == finding_views(old(findings)@) + source_findings_in(
            *app,
            app.pyproject.deps().len() as int,
            names@.map_values(|s: String| s@),
        ),
{
    let ghost all = names@.map_values(|s: String| s@);
    let deps = app.pyproject.dependency_specs();
    let mut count: usize = 0;
    let mut j: usize = 0;
    while j < deps.len()
        invariant
            all == names@.map_values(|s: String| s@),
            deps@ == app.pyproject.deps(),
            deps@.len() < INDEX_LIMIT,
            j <= deps.len(),
            count <= j,
            count == lacking_in(*app, j as int, all),
            findings@.len() == old(findings)@.len() + count,
            finding_views(findings@) == finding_views(old(findings)@) + source_findings_in(*app, j as int, all),
        decreases deps.len() - j,
    {
        let dep = dependency_name(deps[j].as_str());
        let member = index_of(names, dep.as_str());
        proof {
            lemma_first_index(all, dep@);
            if all.contains(dep@) {
                let k = choose|k: int| 0 <= k < all.len() && all[k] == dep@;
            }
        }
        if member.is_some() {
            let hyphen = to_hyphen(dep.as_str());
            let routed = app.pyproject.has_source(dep.as_str()) || app.pyproject.has_source(
                hyphen.as_str(),
            );
            if !routed {
                let ghost before = findings@;
                findings.push(Finding::MissingSource { app: app.name.clone(), member: dep });
                proof {
                    let prev = source_findings_in(*app, j as int, all);
                    let item = FindingView::MissingSource { app: app.name@, member: dep@ };
                    assert(finding_views(findings@) =~= finding_views(before).push(item));
                    assert((finding_views(old(findings)@) + prev).push(item) =~= finding_views(old(findings)@) + prev.push(item));
                }
                count = count + 1;
            }
        }
        j = j + 1;
    }
    count
}

/// Runs every check over the workspace and its graph. `layout[i]` describes
/// the directory of `ws.members()[i]`.
pub fn check(ws: &Workspace, g: &DependencyGraph, layout: &Vec<LayoutFacts>) -> (r: CheckReport)
    requires
        g.wf(),
        layout@.len() == ws.members().len(),
        ws.members().len() < INDEX_LIMIT,
        dep_count(ws.members()) < INDEX_LIMIT,
        dep_count(ws.members()) + ws.members().len() <= usize::MAX,
    ensures
        r.cyclic == has_cycle(g.edges()),
        r.errors == expected_errors(*g, layout@),
        r.warnings == expected_warnings(*ws, layout@),
        r.findings@.len() == r.errors + r.warnings,
        finding_views(r.findings@) == expected_findings(*ws, *g, layout@),
{
    let mut findings: Vec<Finding> = Vec::new();
    let mut errors: usize = 0;
    let mut warnings: usize = 0;
    let cyclic = g.is_cyclic();
    if cyclic {
        findings.push(Finding::CircularDependency);
        errors = 1;
    }
    let ghost head = finding_views(findings@);
    assert(head =~= (if has_cycle(g.edges()) {
        seq![FindingView::CircularDependency]
    } else {
        Seq::<FindingView>::empty()
    }));
    let names = ws.member_names();
    proof {
        lemma_apps_dep_count(ws.packages@, ws.apps@);
    }
    let mut a: usize = 0;
    while a < ws.apps.len()
        invariant
            names@.map_values(|s: String| s@) == names_of(ws.members()),
            dep_count(ws.apps@) < INDEX_LIMIT,
            a <= ws.apps.len(),
            errors <= 1,
            warnings <= dep_count(ws.apps@.take(a as int)),
            warnings == lacking_sources(ws.apps@.take(a as int), names_of(ws.members())),
            findings@.len() == errors + warnings,
            finding_views(findings@) == head + source_findings(ws.apps@.take(a as int), names_of(ws.members())),
        decreases ws.apps.len() - a,
    {
        proof {
            lemma_dep_count_take(ws.apps@, a as int);
            assert(ws.apps@.take(a + 1) == ws.apps@.take(a as int).push(ws.apps@[a as int]));
            assert(ws.apps@.take(a + 1).drop_last() == ws.apps@.take(a as int));
            lemma_lacking_sources_push(ws.apps@.take(a as int), ws.apps@[a as int], names_of(ws.members()));
            lemma_lacking_le(ws.apps@[a as int], ws.apps@[a as int].pyproject.deps().len() as int, names_of(ws.members()));
        }
        proof {
            lemma_source_findings_push(ws.apps@.take(a as int), ws.apps@[a as int], names_of(ws.members()));
        }
        let ghost before = finding_views(findings@);
        let n = check_sources(&ws.apps[a], &names, &mut findings);
        proof {
            let sa = source_findings(ws.apps@.take(a as int), names_of(ws.members()));
            let sb = source_findings_in(ws.apps@[a as int], ws.apps@[a as int].pyproject.deps().len() as int, names_of(ws.members()));
            assert(head + sa + sb =~= head + (sa + sb));
        }
        warnings = warnings + n;
        a = a + 1;
    }
    assert(ws.apps@.take(a as int) == ws.apps@);
    let ghost with_sources = finding_views(findings@);
    let ghost lacking = warnings;
    let ghost src_flags = layout@.map_values(|f: LayoutFacts| f.has_src_dir);
    let ghost manifest_flags = layout@.map_values(|f: LayoutFacts| f.has_manifest);
    let mut i: usize = 0;
    while i < layout.len()
        invariant
            layout@.len() == ws.members().len(),
            ws.members().len() < INDEX_LIMIT,
            dep_count(ws.apps@) < INDEX_LIMIT,
            dep_count(ws.apps@) + ws.members().len() <= usize::MAX,
            lacking <= dep_count(ws.apps@),
            src_flags == layout@.map_values(|f: LayoutFacts| f.has_src_dir),
            i <= layout.len(),
            warnings == lacking + count_false(src_flags.take(i as int)),
            count_false(src_flags.take(i as int)) <= i,
            findings@.len() == errors + warnings,
            errors <= 1,
            finding_views(findings@) == with_sources + src_dir_findings(ws.members(), layout@, i as int),
        decreases layout.len() - i,
    {
        proof {
            assert(src_flags.take(i + 1) == src_flags.take(i as int).push(src_flags[i as int]));
            lemma_count_false_push(src_flags.take(i as int), src_flags[i as int]);
        }
        if !layout[i].has_src_dir {
            let brick = ws.member_at(i);
            let ghost before = finding_views(findings@);
            findings.push(Finding::MissingSrcDir { brick: brick.name.clone(), expected: expected_src_dir(brick.name.as_str()) });
            proof {
                let prev = src_dir_findings(ws.members(), layout@, i as int);
                let item = FindingView::MissingSrcDir { brick: brick.name@, expected: "src/"@ + underscored(brick.name@) };
                assert(finding_views(findings@) =~= before.push(item));
                assert((with_sources + prev).push(item) =~= with_sources + prev.push(item));
            }
            warnings = warnings + 1;
        }
        i = i + 1;
    }
    assert(src_flags.take(i as int) == src_flags);
    let ghost with_dirs = finding_views(findings@);
    let ghost cycle_errors = errors;
    let mut k: usize = 0;
    while k < layout.len()
        invariant
            layout@.len() == ws.members().len(),
            ws.members().len() < INDEX_LIMIT,
            manifest_flags == layout@.map_values(|f: LayoutFacts| f.has_manifest),
            k <= layout.len(),
            cycle_errors <= 1,
            errors == cycle_errors + count_false(manifest_flags.take(k as int)),
            count_false(manifest_flags.take(k as int)) <= k,
            findings@.len() == errors + warnings,
            finding_views(findings@) == with_dirs + manifest_findings(ws.members(), layout@, k as int),
        decreases layout.len() - k,
    {
        proof {
            assert(manifest_flags.take(k + 1) == manifest_flags.take(k as int).push(manifest_flags[k as int]));
            lemma_count_false_push(manifest_flags.take(k as int), manifest_flags[k as int]);
        }
        if !layout[k].has_manifest {
            let brick = ws.member_at(k);
            let ghost before = finding_views(findings@);
            findings.push(Finding::MissingManifest { brick: brick.name.clone() });
            proof {
                let prev = manifest_findings(ws.members(), layout@, k as int);
                let item = FindingView::MissingManifest { brick: brick.name@ };
                assert(finding_views(findings@) =~= before.push(item));
                assert((with_dirs + prev).push(item) =~= with_dirs + prev.push(item));
            }
            errors = errors + 1;
        }
        k = k + 1;
    }
    assert(manifest_flags.take(k as int) == manifest_flags);
    assert(finding_views(findings@) =~= expected_findings(*ws, *g, layout@));
    CheckReport { cyclic, errors, warnings, findings }
}

proof fn lemma_source_findings_push(apps: Seq<Brick>, app: Brick, names: Seq<Seq<char>>)
    ensures
        source_findings(apps.push(app), names) == source_findings(apps, names) + source_findings_in(
            app,
            app.pyproject.deps().len() as int,
            names,
        ),
{
    assert(apps.push(app).drop_last() == apps);
}

/// The apps' specifiers are part of the workspace's.
proof fn lemma_apps_dep_count(packages: Seq<Brick>, apps: Seq<Brick>)
    ensures
        dep_count(apps) <= dep_count(packages + apps),
    decreases apps.len(),
{
    if apps.len() > 0 {
        lemma_apps_dep_count(packages, apps.drop_last());
        assert((packages + apps).drop_last() == packages + apps.drop_last());
    } else {
        assert(packages + apps == packages);
    }
}

/// The specifiers of a prefix, plus those of the next brick, are within the whole.
proof fn lemma_dep_count_take(bricks: Seq<Brick>, a: int)
    requires
        0 <= a < bricks.len(),
    ensures
        dep_count(bricks.take(a)) + bricks[a].pyproject.deps().len() <= dep_count(bricks),
    decreases bricks.len() - a,
{
    assert(bricks.take(a + 1).drop_last() == bricks.take(a));
    if a + 1 < bricks.len() {
        lemma_dep_count_take(bricks, a + 1);
    } else {
        assert(bricks.take(a + 1) == bricks);
    }
}

/// No more lacking entries than specifiers.
proof fn lemma_lacking_le(app: Brick, k: int, names: Seq<Seq<char>>)
    requires
        0 <= k,
    ensures
        lacking_in(app, k, names) <= k,
    decreases k,
{
    if k > 0 {
        lemma_lacking_le(app, k - 1, names);
    }
}

/// No finding in `f` reports a cycle.
pub open spec fn no_cycle_finding(f: Seq<FindingView>) -> bool {
    forall|i: int| 0 <= i < f.len() ==> !(#[trigger] f[i] is CircularDependency)
}

proof fn lemma_no_cycle_concat(a: Seq<FindingView>, b: Seq<FindingView>)
    requires
        no_cycle_finding(a),
        no_cycle_finding(b),
    ensures
        no_cycle_finding(a + b),
{
    assert forall|i: int| 0 <= i < (a + b).len() implies !(#[trigger] (a + b)[i] is CircularDependency) by {
        if i >= a.len() {
            assert((a + b)[i] == b[i - a.len()]);
        }
    }
}

proof fn lemma_no_cycle_sources_in(app: Brick, k: int, names: Seq<Seq<char>>)
    ensures
        no_cycle_finding(source_findings_in(app, k, names)),
    decreases k,
{
    if k > 0 {
        lemma_no_cycle_sources_in(app, k - 1, names);
    }
}

proof fn lemma_no_cycle_sources(apps: Seq<Brick>, names: Seq<Seq<char>>)
    ensures
        no_cycle_finding(source_findings(apps, names)),
    decreases apps.len(),
{
    if apps.len() > 0 {
        lemma_no_cycle_sources(apps.drop_last(), names);
        lemma_no_cycle_sources_in(apps.last(), apps.last().pyproject.deps().len() as int, names);
        lemma_no_cycle_concat(
            source_findings(apps.drop_last(), names),
            source_findings_in(apps.last(), apps.last().pyproject.deps().len() as int, names),
        );
    }
}

proof fn lemma_no_cycle_layout(bricks: Seq<Brick>, layout: Seq<LayoutFacts>, k: int)
    ensures
        no_cycle_finding(src_dir_findings(bricks, layout, k)),
        no_cycle_finding(manifest_findings(bricks, layout, k)),
    decreases k,
{
    if k > 0 {
        lemma_no_cycle_layout(bricks, layout, k - 1);
    }
}

/// However many cycles the graph has, and however long, the check reports
/// exactly one cycle finding, first, when there is a cycle, and none when
/// there is not.
pub proof fn lemma_single_cycle_finding(ws: Workspace, g: DependencyGraph, layout: Seq<LayoutFacts>)
    ensures
        has_cycle(g.edges()) ==> expected_findings(ws, g, layout)[0] is CircularDependency
            && no_cycle_finding(expected_findings(ws, g, layout).skip(1)),
        !has_cycle(g.edges()) ==> no_cycle_finding(expected_findings(ws, g, layout)),
{
    let n = ws.members().len() as int;
    let names = names_of(ws.members());
    let rest = source_findings(ws.apps@, names) + src_dir_findings(ws.members(), layout, n)
        + manifest_findings(ws.members(), layout, n);
    lemma_no_cycle_sources(ws.apps@, names);
    lemma_no_cycle_layout(ws.members(), layout, n);
    lemma_no_cycle_concat(source_findings(ws.apps@, names), src_dir_findings(ws.members(), layout, n));
    lemma_no_cycle_concat(
        source_findings(ws.apps@, names) + src_dir_findings(ws.members(), layout, n),
        manifest_findings(ws.members(), layout, n),
    );
    if has_cycle(g.edges()) {
        let head = seq![FindingView::CircularDependency];
        assert(expected_findings(ws, g, layout) == head + rest);
        assert((head + rest)[0] == FindingView::CircularDependency);
        assert((head + rest).skip(1) =~= rest);
    } else {
        assert(expected_findings(ws, g, layout) =~= rest);
    }
}

} // verus!
