//! The manifest model: the workspace manifest and each brick's project manifest.

use indexmap::IndexMap;
use vstd::prelude::*;

verus! {

#[verifier::external_type_specification]
#[verifier::external_body]
#[verifier::reject_recursive_types(K)]
#[verifier::reject_recursive_types(V)]
#[verifier::reject_recursive_types(S)]
pub struct ExIndexMap<K, V, S>(IndexMap<K, V, S>);

/// Workspace manifest: its single `workspace` section.
#[derive(Debug)]
pub struct PascalConfig {
    pub workspace: WorkspaceConfig,
}

/// Workspace-level settings.
#[derive(Debug)]
pub struct WorkspaceConfig {
    pub name: String,
    pub python: String,
    pub description: Option<String>,
    /// Explicit package paths, relative to the root; `None` scans `packages/`.
    pub packages: Option<Vec<String>>,
    /// Explicit app paths, relative to the root; `None` scans `apps/`.
    pub apps: Option<Vec<String>>,
}

/// A brick's project manifest.
#[derive(Debug)]
pub struct PyProject {
    pub project: Option<ProjectMeta>,
    pub tool: Option<ToolConfig>,
    pub build_system: Option<BuildSystem>,
}

/// The `project` section.
#[derive(Debug)]
pub struct ProjectMeta {
    pub name: String,
    pub version: Option<String>,
    pub description: Option<String>,
    pub requires_python: Option<String>,
    /// Dependency specifiers such as `cart` or `httpx>=0.27`.
    pub dependencies: Vec<String>,
    /// Entry points, in declaration order.
    pub scripts: Option<IndexMap<String, String>>,
}

/// The `tool` section.
#[derive(Debug)]
pub struct ToolConfig {
    pub uv: Option<UvToolConfig>,
}

/// The `tool.uv` section.
#[derive(Debug)]
pub struct UvToolConfig {
    pub workspace: Option<UvWorkspaceConfig>,
    /// Source routing for workspace-internal dependencies, by dependency name.
    pub sources: Option<IndexMap<String, UvSource>>,
}

/// The `tool.uv.workspace` section.
#[derive(Debug)]
pub struct UvWorkspaceConfig {
    pub members: Vec<String>,
}

/// Where a dependency is taken from: the workspace, or a filesystem path.
#[derive(Debug)]
pub enum UvSource {
    Workspace { workspace: bool },
    Path { path: String },
}

/// The `build-system` section.
#[derive(Debug)]
pub struct BuildSystem {
    pub requires: Vec<String>,
    pub build_backend: String,
}

/// The entries of a source-routing table, in order, keyed by name.
pub uninterp spec fn source_entries(m: IndexMap<String, UvSource>) -> Seq<(Seq<char>, UvSource)>;

/// The entries of a script table, in order: script name and target.
pub uninterp spec fn script_entries(m: IndexMap<String, String>) -> Seq<(Seq<char>, Seq<char>)>;

/// Position of the first entry keyed `k`, or -1.
pub open spec fn key_position<V>(e: Seq<(Seq<char>, V)>, k: Seq<char>) -> int
    decreases e.len(),
{
    if e.len() == 0 {
        -1
    } else {
        let p = key_position(e.drop_last(), k);
        if p >= 0 {
            p
        } else if e.last().0 == k {
            e.len() - 1
        } else {
            -1
        }
    }
}

/// Whether some entry is keyed `k`.
pub open spec fn has_key<V>(e: Seq<(Seq<char>, V)>, k: Seq<char>) -> bool {
    key_position(e, k) >= 0
}

/// The entries after inserting `v` under `k`: an existing key keeps its place
/// and takes the new value; a new key goes last.
pub open spec fn entries_insert<V>(e: Seq<(Seq<char>, V)>, k: Seq<char>, v: V) -> Seq<
    (Seq<char>, V),
> {
    if has_key(e, k) {
        e.update(key_position(e, k), (k, v))
    } else {
        e.push((k, v))
    }
}

/// No two entries share a key.
pub open spec fn keys_unique<V>(e: Seq<(Seq<char>, V)>) -> bool {
    forall|i: int, j: int| 0 <= i < j < e.len() ==> (#[trigger] e[i]).0 != (#[trigger] e[j]).0
}

/// Number of entries keyed `k`.
pub open spec fn key_count<V>(e: Seq<(Seq<char>, V)>, k: Seq<char>) -> nat
    decreases e.len(),
{
    if e.len() == 0 {
        0
    } else {
        key_count(e.drop_last(), k) + if e.last().0 == k {
            1nat
        } else {
            0nat
        }
    }
}

/// `key_position` is -1 or the position of an entry keyed `k`.
pub proof fn lemma_key_position<V>(e: Seq<(Seq<char>, V)>, k: Seq<char>)
    ensures
        -1 <= key_position(e, k) < e.len(),
        key_position(e, k) >= 0 ==> e[key_position(e, k)].0 == k,
    decreases e.len(),
{
    if e.len() > 0 {
        lemma_key_position(e.drop_last(), k);
    }
}

/// After inserting under `k`, some entry is keyed `k`.
pub proof fn lemma_insert_has_key<V>(e: Seq<(Seq<char>, V)>, k: Seq<char>, v: V)
    ensures
        exists|i: int| 0 <= i < entries_insert(e, k, v).len() && (#[trigger] entries_insert(e, k, v)[i]).0 == k,
{
    lemma_key_position(e, k);
    let r = entries_insert(e, k, v);
    if has_key(e, k) {
        assert(r[key_position(e, k)].0 == k);
    } else {
        assert(r[e.len() as int].0 == k);
    }
}

/// With unique keys, a key that occurs occurs exactly once.
pub proof fn lemma_unique_key_count<V>(e: Seq<(Seq<char>, V)>, k: Seq<char>)
    requires
        keys_unique(e),
        exists|i: int| 0 <= i < e.len() && (#[trigger] e[i]).0 == k,
    ensures
        key_count(e, k) == 1,
    decreases e.len(),
{
    let d = e.drop_last();
    assert(keys_unique(d)) by {
        assert forall|i: int, j: int| 0 <= i < j < d.len() implies (#[trigger] d[i]).0 != (#[trigger] d[j]).0 by {
            assert(d[i] == e[i] && d[j] == e[j]);
        }
    }
    if e.last().0 == k {
        assert forall|i: int| 0 <= i < d.len() implies (#[trigger] d[i]).0 != k by {
            assert(d[i] == e[i]);
            assert(e[i].0 != e[e.len() - 1].0);
        }
        lemma_absent_key_count(d, k);
    } else {
        let i = choose|i: int| 0 <= i < e.len() && (#[trigger] e[i]).0 == k;
        assert(d[i] == e[i]);
        lemma_unique_key_count(d, k);
    }
}

/// A key no entry holds is counted zero times.
pub proof fn lemma_absent_key_count<V>(e: Seq<(Seq<char>, V)>, k: Seq<char>)
    requires
        forall|i: int| 0 <= i < e.len() ==> (#[trigger] e[i]).0 != k,
    ensures
        key_count(e, k) == 0,
    decreases e.len(),
{
    if e.len() > 0 {
        let d = e.drop_last();
        assert forall|i: int| 0 <= i < d.len() implies (#[trigger] d[i]).0 != k by {
            assert(d[i] == e[i]);
        }
        lemma_absent_key_count(d, k);
        assert(e.last() == e[e.len() - 1]);
    }
}

/// Relies on `IndexMap::new`: the map starts empty.
#[verifier::external_body]
pub(crate) fn new_sources() -> (r: IndexMap<String, UvSource>)
    ensures
        source_entries(r) == Seq::<(Seq<char>, UvSource)>::empty(),
{
    IndexMap::new()
}

/// Relies on `IndexMap::insert`: an existing key keeps its place and takes the
/// new value, a new key goes last; and on the map's keys being unique.
#[verifier::external_body]
pub(crate) fn insert_source(m: &mut IndexMap<String, UvSource>, k: String, v: UvSource)
    ensures
        source_entries(*final(m)) == entries_insert(source_entries(*old(m)), k@, v),
        keys_unique(source_entries(*final(m))),
{
    m.insert(k, v);
}

/// Relies on `IndexMap::contains_key`: whether an entry has that key.
#[verifier::external_body]
pub(crate) fn source_contains(m: &IndexMap<String, UvSource>, k: &str) -> (r: bool)
    ensures
        r == has_key(source_entries(*m), k@),
{
    m.contains_key(k)
}

/// Relies on `IndexMap::keys`: the first key in order, if any.
#[verifier::external_body]
pub(crate) fn first_script_name(m: &IndexMap<String, String>) -> (r: Option<String>)
    ensures
        r is None <==> script_entries(*m).len() == 0,
        r matches Some(k) ==> k@ == script_entries(*m)[0].0,
{
    m.keys().next().cloned()
}

impl PyProject {
    /// The declared dependency specifiers; none without a `project` section.
    pub open spec fn deps(&self) -> Seq<String> {
        match self.project {
            Some(p) => p.dependencies@,
            None => Seq::empty(),
        }
    }

    /// The source-routing entries, if the manifest has a table.
    pub open spec fn sources(&self) -> Option<Seq<(Seq<char>, UvSource)>> {
        match self.tool {
            Some(t) => match t.uv {
                Some(u) => match u.sources {
                    Some(s) => Some(source_entries(s)),
                    None => None,
                },
                None => None,
            },
            None => None,
        }
    }

    /// A copy of the declared dependency specifiers.
    pub fn dependency_specs(&self) -> (r: Vec<String>)
        ensures
            r@ == self.deps(),
    {
        let mut r: Vec<String> = Vec::new();
        match &self.project {
            Some(p) => {
                let mut i: usize = 0;
                while i < p.dependencies.len()
                    invariant
                        i <= p.dependencies.len(),
                        r@ == p.dependencies@.take(i as int),
                    decreases p.dependencies.len() - i,
                {
                    r.push(p.dependencies[i].clone());
                    assert(p.dependencies@.take(i + 1) == p.dependencies@.take(i as int).push(
                        p.dependencies@[i as int],
                    ));
                    i = i + 1;
                }
                assert(p.dependencies@.take(i as int) == p.dependencies@);
            },
            None => {},
        }
        r
    }

    /// Whether the source-routing table has an entry named `k`.
    pub fn has_source(&self, k: &str) -> (r: bool)
        ensures
            r == (self.sources() matches Some(e) && has_key(e, k@)),
    {
        match &self.tool {
            Some(t) => match &t.uv {
                Some(u) => match &u.sources {
                    Some(s) => source_contains(s, k),
                    None => false,
                },
                None => false,
            },
            None => false,
        }
    }
}

} // verus!
