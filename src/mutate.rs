//! Adding a workspace-internal dependency to a brick's manifest.

use vstd::prelude::*;

use crate::config::{
    entries_insert, insert_source, key_count, lemma_insert_has_key, lemma_unique_key_count,
    new_sources, source_entries, ProjectMeta, PyProject, ToolConfig, UvSource,
    UvToolConfig,
};
use crate::names::{has_prefix, hyphenated, starts_with, to_hyphen, to_underscore, underscored};
use crate::workspace::{answering, names_of, Brick, Workspace};

verus! {

/// Why a dependency could not be added.
#[derive(Debug)]
pub enum AddError {
    /// No package answers to the name; `available` lists the packages.
    PackageNotFound { name: String, available: Vec<String> },
    /// No member answers to the target name; `available` lists the members.
    TargetNotFound { name: String, available: Vec<String> },
    /// The target's manifest has no `project` section to hold dependencies.
    InvalidManifest { target: String },
}

/// What adding a dependency did.
#[derive(Debug, Clone, Copy, PartialEq, Eq, Structural)]
pub enum AddOutcome {
    /// The dependency and its source entry were written into the manifest.
    Added,
    /// A specifier starting with the name was already declared; nothing changed.
    AlreadyPresent,
}

/// Resolves the package to add and the brick that receives it.
pub fn resolve_add<'a>(ws: &'a Workspace, package: &str, to: &str) -> (r: Result<(&'a Brick, &'a Brick), AddError>)
    ensures
        answering(ws.packages@, package@) is None ==> (r matches Err(AddError::PackageNotFound { name, available })
            && name@ == package@ && available@.map_values(|s: String| s@) == names_of(ws.packages@)),
        answering(ws.packages@, package@) is Some && ws.resolve(to@) is None ==> (r matches Err(
            AddError::TargetNotFound { name, available },
        ) && name@ == to@ && available@.map_values(|s: String| s@) == names_of(ws.members())),
        answering(ws.packages@, package@) is Some && ws.resolve(to@) is Some ==> (r matches Ok((p, t))
            && Some(*p) == answering(ws.packages@, package@) && Some(*t) == ws.resolve(to@)),
{
    let pkg = match ws.find_package(package) {
        Some(p) => p,
        None => {
            return Err(AddError::PackageNotFound { name: package.to_owned(), available: ws.package_names() });
        },
    };
    let target = match ws.find_brick(to) {
        Some(t) => t,
        None => {
            return Err(AddError::TargetNotFound { name: to.to_owned(), available: ws.member_names() });
        },
    };
    Ok((pkg, target))
}

/// Some declared specifier starts with `dep`.
pub open spec fn declares(deps: Seq<Seq<char>>, dep: Seq<char>) -> bool {
    exists|i: int| 0 <= i < deps.len() && has_prefix(#[trigger] deps[i], dep)
}

/// The specifiers after adding `dep`: unchanged when one already starts with
/// it, else `dep` appended.
pub open spec fn deps_after_add(deps: Seq<Seq<char>>, dep: Seq<char>) -> Seq<Seq<char>> {
    if declares(deps, dep) {
        deps
    } else {
        deps.push(dep)
    }
}

/// Views of a sequence of strings.
pub open spec fn views(s: Seq<String>) -> Seq<Seq<char>> {
    s.map_values(|x: String| x@)
}

/// The `project` sections agree in everything but the dependency list.
pub open spec fn same_but_deps(a: ProjectMeta, b: ProjectMeta) -> bool {
    &&& a.name == b.name
    &&& a.version == b.version
    &&& a.description == b.description
    &&& a.requires_python == b.requires_python
    &&& a.scripts == b.scripts
}

/// The source-routing entries after the workspace entry for `key` is inserted.
pub open spec fn sources_after_add(p: PyProject, key: Seq<char>) -> Seq<(Seq<char>, UvSource)> {
    entries_insert(
        match p.sources() {
            Some(e) => e,
            None => Seq::empty(),
        },
        key,
        UvSource::Workspace { workspace: true },
    )
}

/// The `tool.uv.workspace` section, if any.
pub open spec fn uv_workspace(p: PyProject) -> Option<crate::config::UvWorkspaceConfig> {
    match p.tool {
        Some(t) => match t.uv {
            Some(u) => u.workspace,
            None => None,
        },
        None => None,
    }
}

/// Whether some specifier in `deps` starts with `dep`.
fn any_starts_with(deps: &Vec<String>, dep: &str) -> (r: bool)
    ensures
        r == declares(views(deps@), dep@),
{
    let mut i: usize = 0;
    while i < deps.len()
        invariant
            i <= deps.len(),
            forall|k: int| 0 <= k < i ==> !has_prefix(#[trigger] views(deps@)[k], dep@),
        decreases deps.len() - i,
    {
        if starts_with(deps[i].as_str(), dep) {
            assert(has_prefix(views(deps@)[i as int], dep@));
            return true;
        }
        i = i + 1;
    }
    false
}

/// Declares the package named `package` as a dependency in the manifest
/// `pyproject` of the brick named `target`: appends its hyphen spelling to
/// the dependency list and routes it to the workspace in `tool.uv.sources`.
/// A specifier that already starts with that spelling makes this a no-op.
pub fn add_dependency(pyproject: &mut PyProject, package: &str, target: &str) -> (r: Result<AddOutcome, AddError>)
    ensures
        old(pyproject).project is None <==> r is Err,
        r matches Err(e) ==> e matches AddError::InvalidManifest { target: t } && t@ == target@,
        r == Ok::<AddOutcome, AddError>(AddOutcome::AlreadyPresent) <==> (old(pyproject).project is Some
            && declares(views(old(pyproject).deps()), hyphenated(package@))),
        !(r matches Ok(AddOutcome::Added)) ==> *final(pyproject) == *old(pyproject),
        r is Ok ==> views(final(pyproject).deps()) == deps_after_add(
            views(old(pyproject).deps()),
            hyphenated(package@),
        ),
        r is Ok ==> final(pyproject).project is Some && declares(
            views(final(pyproject).deps()),
            hyphenated(package@),
        ),
        r matches Ok(AddOutcome::Added) ==> {
            &&& final(pyproject).project matches Some(m) && same_but_deps(m, old(pyproject).project.unwrap())
            &&& final(pyproject).sources() == Some(sources_after_add(*old(pyproject), hyphenated(package@)))
            &&& final(pyproject).sources() matches Some(e) && key_count(e, hyphenated(package@)) == 1
            &&& uv_workspace(*final(pyproject)) == uv_workspace(*old(pyproject))
            &&& final(pyproject).build_system == old(pyproject).build_system
        },
{
    let dep = to_hyphen(package);
    let project = pyproject.project.take();
    let mut meta = match project {
        Some(m) => m,
        None => {
            return Err(AddError::InvalidManifest { target: target.to_owned() });
        },
    };
    proof {
        lemma_add_idempotent(views(meta.dependencies@), hyphenated(package@));
    }
    if any_starts_with(&meta.dependencies, dep.as_str()) {
        pyproject.project = Some(meta);
        return Ok(AddOutcome::AlreadyPresent);
    }
    let ghost old_deps = meta.dependencies@;
    meta.dependencies.push(dep);
    assert(views(meta.dependencies@) =~= views(old_deps).push(hyphenated(package@)));
    pyproject.project = Some(meta);
    let snake = to_underscore(package);
    let source_name = to_hyphen(snake.as_str());
    proof {
        lemma_hyphenated_underscored(package@);
    }
    let mut tool = match pyproject.tool.take() {
        Some(t) => t,
        None => ToolConfig { uv: None },
    };
    let mut uv = match tool.uv.take() {
        Some(u) => u,
        None => UvToolConfig { workspace: None, sources: None },
    };
    let mut sources = match uv.sources.take() {
        Some(s) => s,
        None => new_sources(),
    };
    let ghost before = source_entries(sources);
    insert_source(&mut sources, source_name, UvSource::Workspace { workspace: true });
    proof {
        lemma_insert_has_key(before, hyphenated(package@), UvSource::Workspace { workspace: true });
        lemma_unique_key_count(source_entries(sources), hyphenated(package@));
    }
    uv.sources = Some(sources);
    tool.uv = Some(uv);
    pyproject.tool = Some(tool);
    Ok(AddOutcome::Added)
}

/// Spelling `_` as `-` after spelling `-` as `_` is spelling `_` as `-`.
pub proof fn lemma_hyphenated_underscored(s: Seq<char>)
    ensures
        hyphenated(underscored(s)) == hyphenated(s),
{
    assert(hyphenated(underscored(s)) =~= hyphenated(s));
}

/// Number of specifiers that start with `dep`.
pub open spec fn occurrences(deps: Seq<Seq<char>>, dep: Seq<char>) -> nat
    decreases deps.len(),
{
    if deps.len() == 0 {
        0
    } else {
        occurrences(deps.drop_last(), dep) + if has_prefix(deps.last(), dep) {
            1nat
        } else {
            0nat
        }
    }
}

proof fn lemma_no_occurrences(deps: Seq<Seq<char>>, dep: Seq<char>)
    requires
        !declares(deps, dep),
    ensures
        occurrences(deps, dep) == 0,
    decreases deps.len(),
{
    if deps.len() > 0 {
        let d = deps.drop_last();
        assert(!declares(d, dep)) by {
            if declares(d, dep) {
                let i = choose|i: int| 0 <= i < d.len() && has_prefix(#[trigger] d[i], dep);
                assert(deps[i] == d[i]);
            }
        }
        lemma_no_occurrences(d, dep);
        assert(!has_prefix(deps[deps.len() - 1], dep));
    }
}

/// Adding the same dependency twice is adding it once: the second time finds
/// it declared and changes nothing, and a dependency that was not declared
/// before occurs exactly once after.
pub proof fn lemma_add_idempotent(deps: Seq<Seq<char>>, dep: Seq<char>)
    ensures
        declares(deps_after_add(deps, dep), dep),
        deps_after_add(deps_after_add(deps, dep), dep) == deps_after_add(deps, dep),
        !declares(deps, dep) ==> occurrences(deps_after_add(deps, dep), dep) == 1,
{
    let once = deps_after_add(deps, dep);
    if !declares(deps, dep) {
        assert(dep.take(dep.len() as int) == dep);
        assert(has_prefix(once[deps.len() as int], dep));
        lemma_no_occurrences(deps, dep);
        assert(once.drop_last() == deps);
    }
}

} // verus!
