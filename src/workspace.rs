//! Bricks and the workspace that holds them.

use vstd::prelude::*;

use crate::config::{first_script_name, script_entries, PascalConfig, PyProject, WorkspaceConfig};
use crate::names::{dep_name, dependency_name, hyphenated, same_text, to_underscore, underscored};

verus! {

/// Whether a brick is a reusable package or a deployable app.
#[derive(Debug, Clone, Copy, PartialEq, Eq, Structural)]
pub enum BrickKind {
    Package,
    App,
}

impl BrickKind {
    /// The kind's name as shown to users.
    pub fn as_str(&self) -> (r: &'static str)
        ensures
            r@ == (match self {
                BrickKind::Package => "package"@,
                BrickKind::App => "app"@,
            }),
    {
        match self {
            BrickKind::Package => "package",
            BrickKind::App => "app",
        }
    }

    /// The folder under the root that auto-discovery scans for this kind.
    pub fn conventional_dir(&self) -> (r: &'static str)
        ensures
            r@ == (match self {
                BrickKind::Package => "packages"@,
                BrickKind::App => "apps"@,
            }),
    {
        match self {
            BrickKind::Package => "packages",
            BrickKind::App => "apps",
        }
    }
}

/// One package or app of the workspace.
#[derive(Debug)]
pub struct Brick {
    /// Normalized name: the manifest's project name in underscore spelling.
    pub name: String,
    pub kind: BrickKind,
    /// Absolute path of the brick's directory.
    pub path: String,
    /// The parsed project manifest.
    pub pyproject: PyProject,
}

/// The name a brick gets: the manifest's project name in underscore
/// spelling, or else the directory's own name as it stands.
pub open spec fn resolved_name(pyproject: PyProject, dir_name: Seq<char>) -> Seq<char> {
    match pyproject.project {
        Some(p) => underscored(p.name@),
        None => dir_name,
    }
}

impl Brick {
    /// A brick read from the manifest found in directory `path`, whose last
    /// component is `dir_name`.
    pub fn new(kind: BrickKind, path: String, dir_name: &str, pyproject: PyProject) -> (r: Brick)
        ensures
            r.name@ == resolved_name(pyproject, dir_name@),
            r.kind == kind,
            r.path == path,
            r.pyproject == pyproject,
    {
        let name = match &pyproject.project {
            Some(p) => to_underscore(p.name.as_str()),
            None => dir_name.to_owned(),
        };
        Brick { name, kind, path, pyproject }
    }
}

/// The names of a sequence of bricks.
pub open spec fn names_of(bricks: Seq<Brick>) -> Seq<Seq<char>> {
    bricks.map_values(|b: Brick| b.name@)
}

/// Position of the first occurrence of `x` in `s`, or -1.
pub open spec fn first_index(s: Seq<Seq<char>>, x: Seq<char>) -> int
    decreases s.len(),
{
    if s.len() == 0 {
        -1
    } else {
        let p = first_index(s.drop_last(), x);
        if p >= 0 {
            p
        } else if s.last() == x {
            s.len() - 1
        } else {
            -1
        }
    }
}

/// `first_index` is the least position holding `x`.
pub proof fn lemma_first_index(s: Seq<Seq<char>>, x: Seq<char>)
    ensures
        -1 <= first_index(s, x) < s.len(),
        first_index(s, x) >= 0 ==> s[first_index(s, x)] == x,
        forall|j: int| 0 <= j < s.len() && s[j] == x ==> first_index(s, x) >= 0 && first_index(s, x) <= j,
    decreases s.len(),
{
    if s.len() > 0 {
        lemma_first_index(s.drop_last(), x);
        assert forall|j: int| 0 <= j < s.len() - 1 implies s.drop_last()[j] == s[j] by {}
    }
}

/// Extending `s` by one element keeps or completes its `first_index`.
pub proof fn lemma_first_index_push(s: Seq<Seq<char>>, y: Seq<char>, x: Seq<char>)
    ensures
        first_index(s.push(y), x) == (if first_index(s, x) >= 0 {
            first_index(s, x)
        } else if y == x {
            s.len() as int
        } else {
            -1
        }),
{
    assert(s.push(y).drop_last() == s);
}

/// Index of the first brick named `name`, or none.
pub(crate) fn position_of(bricks: &Vec<Brick>, name: &str) -> (r: Option<usize>)
    ensures
        r matches Some(i) ==> i < bricks@.len() && i as int == first_index(names_of(bricks@), name@),
        r is None ==> first_index(names_of(bricks@), name@) == -1,
{
    let mut i: usize = 0;
    while i < bricks.len()
        invariant
            i <= bricks.len(),
            first_index(names_of(bricks@.take(i as int)), name@) == -1,
        decreases bricks.len() - i,
    {
        proof {
            lemma_first_index_push(names_of(bricks@.take(i as int)), bricks@[i as int].name@, name@);
            assert(names_of(bricks@.take(i + 1)) == names_of(bricks@.take(i as int)).push(
                bricks@[i as int].name@,
            ));
        }
        if same_text(bricks[i].name.as_str(), name) {
            proof {
                lemma_first_index_prefix(names_of(bricks@), i as int + 1, name@);
                assert(names_of(bricks@).take(i + 1) == names_of(bricks@.take(i + 1)));
            }
            return Some(i);
        }
        i = i + 1;
    }
    assert(bricks@.take(i as int) == bricks@);
    None
}

/// A found position is kept by every extension of the prefix it was found in.
pub proof fn lemma_first_index_prefix(s: Seq<Seq<char>>, k: int, x: Seq<char>)
    requires
        0 <= k <= s.len(),
        first_index(s.take(k), x) >= 0,
    ensures
        first_index(s, x) == first_index(s.take(k), x),
    decreases s.len() - k,
{
    if k < s.len() {
        lemma_first_index_push(s.take(k), s[k], x);
        assert(s.take(k + 1) == s.take(k).push(s[k]));
        lemma_first_index_prefix(s, k + 1, x);
    } else {
        assert(s.take(k) == s);
    }
}

/// The workspace: its root, its configuration and every discovered brick.
#[derive(Debug)]
pub struct Workspace {
    /// Absolute path of the workspace root.
    pub root: String,
    pub config: PascalConfig,
    pub packages: Vec<Brick>,
    pub apps: Vec<Brick>,
}

impl Workspace {
    /// Every brick: packages first, then apps.
    pub open spec fn members(&self) -> Seq<Brick> {
        self.packages@ + self.apps@
    }

    /// The brick named `name`, if any: the first package, else the first app.
    pub open spec fn lookup(&self, name: Seq<char>) -> Option<Brick> {
        let i = first_index(names_of(self.members()), name);
        if i >= 0 {
            Some(self.members()[i])
        } else {
            None
        }
    }

    /// Finds a brick by its name spelled exactly as given, searching
    /// packages then apps.
    pub fn find_exact(&self, name: &str) -> (r: Option<&Brick>)
        ensures
            r == (match self.lookup(name@) {
                Some(b) => Some(&b),
                None => None,
            }),
    {
        proof {
            assert(names_of(self.members()) == names_of(self.packages@) + names_of(self.apps@));
            assert(names_of(self.members()).take(self.packages.len() as int) == names_of(self.packages@));
        }
        match position_of(&self.packages, name) {
            Some(i) => {
                proof {
                    lemma_first_index_prefix(names_of(self.members()), self.packages.len() as int, name@);
                }
                Some(&self.packages[i])
            },
            None => match position_of(&self.apps, name) {
                Some(j) => {
                    proof {
                        lemma_first_index_concat(names_of(self.packages@), names_of(self.apps@), name@);
                    }
                    Some(&self.apps[j])
                },
                None => {
                    proof {
                        lemma_first_index_concat(names_of(self.packages@), names_of(self.apps@), name@);
                    }
                    None
                },
            },
        }
    }

    /// The names of every brick: packages first, then apps.
    pub fn member_names(&self) -> (r: Vec<String>)
        ensures
            r@.map_values(|s: String| s@) == names_of(self.members()),
    {
        let mut r: Vec<String> = Vec::new();
        let mut i: usize = 0;
        while i < self.packages.len()
            invariant
                i <= self.packages.len(),
                r@.len() == i,
                forall|k: int| 0 <= k < i ==> #[trigger] r@[k]@ == self.members()[k].name@,
            decreases self.packages.len() - i,
        {
            r.push(self.packages[i].name.clone());
            i = i + 1;
        }
        let mut j: usize = 0;
        while j < self.apps.len()
            invariant
                i == self.packages.len(),
                j <= self.apps.len(),
                r@.len() == i + j,
                forall|k: int| 0 <= k < i + j ==> #[trigger] r@[k]@ == self.members()[k].name@,
            decreases self.apps.len() - j,
        {
            r.push(self.apps[j].name.clone());
            j = j + 1;
        }
        assert(r@.map_values(|s: String| s@) =~= names_of(self.members()));
        r
    }
}

/// `first_index` over a concatenation looks in the second part only when the
/// first has no match.
pub proof fn lemma_first_index_concat(a: Seq<Seq<char>>, b: Seq<Seq<char>>, x: Seq<char>)
    requires
        first_index(a, x) == -1,
    ensures
        first_index(a + b, x) == (if first_index(b, x) >= 0 {
            a.len() + first_index(b, x)
        } else {
            -1
        }),
    decreases b.len(),
{
    if b.len() == 0 {
        assert(a + b == a);
    } else {
        lemma_first_index_concat(a, b.drop_last(), x);
        assert((a + b).drop_last() == a + b.drop_last());
    }
}

impl WorkspaceConfig {
    /// The explicit relative paths configured for `kind`, if any.
    pub fn explicit_paths(&self, kind: BrickKind) -> (r: Option<&Vec<String>>)
        ensures
            r == (match kind {
                BrickKind::Package => match self.packages {
                    Some(v) => Some(&v),
                    None => None,
                },
                BrickKind::App => match self.apps {
                    Some(v) => Some(&v),
                    None => None,
                },
            }),
    {
        match kind {
            BrickKind::Package => match &self.packages {
                Some(v) => Some(v),
                None => None,
            },
            BrickKind::App => match &self.apps {
                Some(v) => Some(v),
                None => None,
            },
        }
    }
}

/// Index of the first of `names` equal to `x`, or none.
pub fn index_of(names: &Vec<String>, x: &str) -> (r: Option<usize>)
    ensures
        r matches Some(i) ==> i < names@.len() && i as int == first_index(
            names@.map_values(|s: String| s@),
            x@,
        ),
        r is None ==> first_index(names@.map_values(|s: String| s@), x@) == -1,
{
    let ghost all = names@.map_values(|s: String| s@);
    let mut i: usize = 0;
    while i < names.len()
        invariant
            all == names@.map_values(|s: String| s@),
            i <= names.len(),
            first_index(all.take(i as int), x@) == -1,
        decreases names.len() - i,
    {
        proof {
            lemma_first_index_push(all.take(i as int), all[i as int], x@);
            assert(all.take(i + 1) == all.take(i as int).push(all[i as int]));
        }
        if same_text(names[i].as_str(), x) {
            proof {
                lemma_first_index_prefix(all, i as int + 1, x@);
            }
            return Some(i);
        }
        i = i + 1;
    }
    assert(all.take(i as int) == all);
    None
}

impl Workspace {
    /// The brick at position `i` of `members()`.
    pub fn member_at(&self, i: usize) -> (r: &Brick)
        requires
            i < self.members().len(),
        ensures
            *r == self.members()[i as int],
    {
        if i < self.packages.len() {
            &self.packages[i]
        } else {
            &self.apps[i - self.packages.len()]
        }
    }
}

/// `b` is named `name` in either of the spellings the user may give:
/// literally, or with `-` spelled `_`.
pub open spec fn answers_to(b: Brick, name: Seq<char>) -> bool {
    b.name@ == name || b.name@ == underscored(name)
}

/// Position of the first brick that answers to `name`, or -1.
pub open spec fn first_answering(bricks: Seq<Brick>, name: Seq<char>) -> int
    decreases bricks.len(),
{
    if bricks.len() == 0 {
        -1
    } else {
        let p = first_answering(bricks.drop_last(), name);
        if p >= 0 {
            p
        } else if answers_to(bricks.last(), name) {
            bricks.len() - 1
        } else {
            -1
        }
    }
}

/// The first brick that answers to `name`, if any.
pub open spec fn answering(bricks: Seq<Brick>, name: Seq<char>) -> Option<Brick> {
    let i = first_answering(bricks, name);
    if i >= 0 {
        Some(bricks[i])
    } else {
        None
    }
}

proof fn lemma_first_answering_prefix(bricks: Seq<Brick>, k: int, name: Seq<char>)
    requires
        0 <= k <= bricks.len(),
        first_answering(bricks.take(k), name) >= 0,
    ensures
        first_answering(bricks, name) == first_answering(bricks.take(k), name),
    decreases bricks.len() - k,
{
    if k < bricks.len() {
        assert(bricks.take(k + 1).drop_last() == bricks.take(k));
        lemma_first_answering_prefix(bricks, k + 1, name);
    } else {
        assert(bricks.take(k) == bricks);
    }
}

/// The first of `bricks` named `name` literally or in underscore spelling.
pub fn find_named<'a>(bricks: &'a Vec<Brick>, name: &str) -> (r: Option<&'a Brick>)
    ensures
        r == (match answering(bricks@, name@) {
            Some(b) => Some(&b),
            None => None,
        }),
{
    let snake = to_underscore(name);
    let mut i: usize = 0;
    while i < bricks.len()
        invariant
            snake@ == underscored(name@),
            i <= bricks.len(),
            first_answering(bricks@.take(i as int), name@) == -1,
        decreases bricks.len() - i,
    {
        assert(bricks@.take(i + 1).drop_last() == bricks@.take(i as int));
        if same_text(bricks[i].name.as_str(), name) || same_text(bricks[i].name.as_str(), snake.as_str()) {
            proof {
                lemma_first_answering_prefix(bricks@, i + 1, name@);
            }
            return Some(&bricks[i]);
        }
        i = i + 1;
    }
    assert(bricks@.take(i as int) == bricks@);
    None
}

impl Workspace {
    /// The package that answers to `name`, if any.
    pub fn find_package(&self, name: &str) -> (r: Option<&Brick>)
        ensures
            r == (match answering(self.packages@, name@) {
                Some(b) => Some(&b),
                None => None,
            }),
    {
        find_named(&self.packages, name)
    }

    /// The app that answers to `name`, if any.
    pub fn find_app(&self, name: &str) -> (r: Option<&Brick>)
        ensures
            r == (match answering(self.apps@, name@) {
                Some(b) => Some(&b),
                None => None,
            }),
    {
        find_named(&self.apps, name)
    }

    /// The member that `name` resolves to: an exact match first, else the
    /// underscore spelling.
    pub open spec fn resolve(&self, name: Seq<char>) -> Option<Brick> {
        match self.lookup(name) {
            Some(b) => Some(b),
            None => self.lookup(underscored(name)),
        }
    }

    /// Finds a brick by name in either spelling: the name as given first,
    /// else its underscore spelling. With underscore-spelled member names the
    /// hyphen and underscore spellings find the same brick
    /// (`lemma_spellings_resolve_alike`).
    pub fn find_brick(&self, name: &str) -> (r: Option<&Brick>)
        ensures
            r == (match self.resolve(name@) {
                Some(b) => Some(&b),
                None => None,
            }),
    {
        match self.find_exact(name) {
            Some(b) => Some(b),
            None => {
                let snake = to_underscore(name);
                self.find_exact(snake.as_str())
            },
        }
    }

    /// The names of the packages, in order.
    pub fn package_names(&self) -> (r: Vec<String>)
        ensures
            r@.map_values(|s: String| s@) == names_of(self.packages@),
    {
        names_in(&self.packages)
    }

    /// The names of the apps, in order.
    pub fn app_names(&self) -> (r: Vec<String>)
        ensures
            r@.map_values(|s: String| s@) == names_of(self.apps@),
    {
        names_in(&self.apps)
    }
}

/// The names of `bricks`, in order.
fn names_in(bricks: &Vec<Brick>) -> (r: Vec<String>)
    ensures
        r@.map_values(|s: String| s@) == names_of(bricks@),
{
    let mut r: Vec<String> = Vec::new();
    let mut i: usize = 0;
    while i < bricks.len()
        invariant
            i <= bricks.len(),
            r@.len() == i,
            forall|k: int| 0 <= k < i ==> #[trigger] r@[k]@ == bricks@[k].name@,
        decreases bricks.len() - i,
    {
        r.push(bricks[i].name.clone());
        i = i + 1;
    }
    assert(r@.map_values(|s: String| s@) =~= names_of(bricks@));
    r
}

/// Every member name is in underscore spelling, as discovery makes it.
pub open spec fn names_normalized(bricks: Seq<Brick>) -> bool {
    forall|i: int| 0 <= i < bricks.len() ==> (#[trigger] bricks[i]).name@ == underscored(bricks[i].name@)
}

proof fn lemma_underscored_idempotent(s: Seq<char>)
    ensures
        underscored(underscored(s)) == underscored(s),
        underscored(hyphenated(s)) == underscored(s),
{
    assert(underscored(underscored(s)) =~= underscored(s));
    assert(underscored(hyphenated(s)) =~= underscored(s));
}

/// A spelling with a `-` in it is no normalized member's name; one without
/// is its own underscore spelling.
proof fn lemma_hyphen_spelling(bricks: Seq<Brick>, s: Seq<char>)
    requires
        names_normalized(bricks),
    ensures
        hyphenated(s) == underscored(s) || forall|i: int|
            0 <= i < bricks.len() ==> (#[trigger] bricks[i]).name@ != hyphenated(s),
{
    let h = hyphenated(s);
    if exists|k: int| 0 <= k < h.len() && h[k] == '-' {
        let k = choose|k: int| 0 <= k < h.len() && h[k] == '-';
        assert forall|i: int| 0 <= i < bricks.len() implies (#[trigger] bricks[i]).name@ != h by {
            if bricks[i].name@ == h {
                assert(underscored(bricks[i].name@)[k] == '_');
            }
        }
    } else {
        assert forall|k: int| 0 <= k < s.len() implies s[k] != '-' && s[k] != '_' by {
            assert(h[k] != '-');
        }
        assert(h =~= underscored(s));
    }
}

proof fn lemma_first_index_absent(s: Seq<Seq<char>>, x: Seq<char>)
    requires
        forall|i: int| 0 <= i < s.len() ==> s[i] != x,
    ensures
        first_index(s, x) == -1,
{
    lemma_first_index(s, x);
}

proof fn lemma_first_answering_same(bricks: Seq<Brick>, x: Seq<char>, y: Seq<char>)
    requires
        forall|i: int| 0 <= i < bricks.len() ==> answers_to(#[trigger] bricks[i], x) == answers_to(bricks[i], y),
    ensures
        first_answering(bricks, x) == first_answering(bricks, y),
    decreases bricks.len(),
{
    if bricks.len() > 0 {
        let d = bricks.drop_last();
        assert forall|i: int| 0 <= i < d.len() implies answers_to(#[trigger] d[i], x) == answers_to(d[i], y) by {
            assert(d[i] == bricks[i]);
        }
        lemma_first_answering_same(d, x, y);
        assert(answers_to(bricks[bricks.len() - 1], x) == answers_to(bricks[bricks.len() - 1], y));
    }
}

/// With member names in underscore spelling, the hyphen and the underscore
/// spelling of a name resolve to the same brick: through `find_brick`
/// (`resolve`), and through `find_package` and `find_app` (`answering`).
pub proof fn lemma_spellings_resolve_alike(ws: Workspace, s: Seq<char>)
    requires
        names_normalized(ws.members()),
    ensures
        ws.resolve(hyphenated(s)) == ws.resolve(underscored(s)),
        answering(ws.packages@, hyphenated(s)) == answering(ws.packages@, underscored(s)),
        answering(ws.apps@, hyphenated(s)) == answering(ws.apps@, underscored(s)),
{
    let h = hyphenated(s);
    let u = underscored(s);
    lemma_underscored_idempotent(s);
    lemma_hyphen_spelling(ws.members(), s);
    if h != u {
        let names = names_of(ws.members());
        assert forall|i: int| 0 <= i < names.len() implies names[i] != h by {
            assert(names[i] == ws.members()[i].name@);
        }
        lemma_first_index_absent(names, h);
    }
    assert forall|i: int| 0 <= i < ws.packages@.len() implies answers_to(#[trigger] ws.packages@[i], h)
        == answers_to(ws.packages@[i], u) by {
        assert(ws.members()[i] == ws.packages@[i]);
    }
    assert forall|i: int| 0 <= i < ws.apps@.len() implies answers_to(#[trigger] ws.apps@[i], h)
        == answers_to(ws.apps@[i], u) by {
        assert(ws.members()[ws.packages@.len() + i] == ws.apps@[i]);
    }
    lemma_first_answering_same(ws.packages@, h, u);
    lemma_first_answering_same(ws.apps@, h, u);
}

/// The command an app runs as: its first declared script, else its name.
pub open spec fn entry_name(b: Brick) -> Seq<char> {
    match b.pyproject.project {
        Some(p) => match p.scripts {
            Some(m) => if script_entries(m).len() > 0 {
                script_entries(m)[0].0
            } else {
                b.name@
            },
            None => b.name@,
        },
        None => b.name@,
    }
}

/// The specifiers of `deps` that name a member, as member names, in order.
pub open spec fn internal_deps(deps: Seq<String>, names: Seq<Seq<char>>) -> Seq<Seq<char>>
    decreases deps.len(),
{
    if deps.len() == 0 {
        Seq::empty()
    } else {
        let rest = internal_deps(deps.drop_last(), names);
        if names.contains(dep_name(deps.last()@)) {
            rest.push(dep_name(deps.last()@))
        } else {
            rest
        }
    }
}

/// The specifiers of `deps` that name no member, as written, in order.
pub open spec fn external_deps(deps: Seq<String>, names: Seq<Seq<char>>) -> Seq<Seq<char>>
    decreases deps.len(),
{
    if deps.len() == 0 {
        Seq::empty()
    } else {
        let rest = external_deps(deps.drop_last(), names);
        if names.contains(dep_name(deps.last()@)) {
            rest
        } else {
            rest.push(deps.last()@)
        }
    }
}

/// A brick's dependencies, split into workspace members and outside packages.
#[derive(Debug)]
pub struct DependencySplit {
    /// Member names, normalized.
    pub internal: Vec<String>,
    /// Outside specifiers, as declared.
    pub external: Vec<String>,
}

impl Brick {
    /// The command the app runs as: the first script it declares, else its name.
    pub fn entry_point(&self) -> (r: String)
        ensures
            r@ == entry_name(*self),
    {
        match &self.pyproject.project {
            Some(p) => match &p.scripts {
                Some(m) => match first_script_name(m) {
                    Some(k) => k,
                    None => self.name.clone(),
                },
                None => self.name.clone(),
            },
            None => self.name.clone(),
        }
    }

    /// Splits the brick's specifiers into those naming one of `names` and the rest.
    pub fn split_dependencies(&self, names: &Vec<String>) -> (r: DependencySplit)
        ensures
            r.internal@.map_values(|s: String| s@) == internal_deps(
                self.pyproject.deps(),
                names@.map_values(|s: String| s@),
            ),
            r.external@.map_values(|s: String| s@) == external_deps(
                self.pyproject.deps(),
                names@.map_values(|s: String| s@),
            ),
    {
        let ghost all = names@.map_values(|s: String| s@);
        let deps = self.pyproject.dependency_specs();
        let mut internal: Vec<String> = Vec::new();
        let mut external: Vec<String> = Vec::new();
        let mut j: usize = 0;
        while j < deps.len()
            invariant
                all == names@.map_values(|s: String| s@),
                deps@ == self.pyproject.deps(),
                j <= deps.len(),
                internal@.map_values(|s: String| s@) == internal_deps(deps@.take(j as int), all),
                external@.map_values(|s: String| s@) == external_deps(deps@.take(j as int), all),
            decreases deps.len() - j,
        {
            let name = dependency_name(deps[j].as_str());
            assert(deps@.take(j + 1).drop_last() == deps@.take(j as int));
            proof {
                lemma_first_index(all, name@);
                if all.contains(name@) {
                    let k = choose|k: int| 0 <= k < all.len() && all[k] == name@;
                }
            }
            if index_of(names, name.as_str()).is_some() {
                internal.push(name);
                assert(internal@.map_values(|s: String| s@) =~= internal_deps(deps@.take(j as int), all).push(
                    dep_name(deps@[j as int]@),
                ));
            } else {
                external.push(deps[j].clone());
                assert(external@.map_values(|s: String| s@) =~= external_deps(deps@.take(j as int), all).push(
                    deps@[j as int]@,
                ));
            }
            j = j + 1;
        }
        assert(deps@.take(j as int) == deps@);
        DependencySplit { internal, external }
    }
}

} // verus!
