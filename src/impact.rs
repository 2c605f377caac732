//! Change impact: which bricks a set of changed paths touches directly, and
//! which apps depend on those.

use vstd::prelude::*;

use crate::names::{dep_name, dependency_name, has_prefix, starts_with};
use crate::workspace::{first_index, index_of, lemma_first_index, Brick, Workspace};

verus! {

/// `path` relative to `root`: empty when equal, the rest after `root/` when
/// below it, and `path` unchanged otherwise.
pub open spec fn rel_dir(root: Seq<char>, path: Seq<char>) -> Seq<char> {
    if path == root {
        Seq::empty()
    } else if has_prefix(path, root) && path[root.len() as int] == '/' {
        path.skip(root.len() as int + 1)
    } else {
        path
    }
}

/// Some changed path starts with the brick's root-relative directory.
pub open spec fn touched(root: Seq<char>, b: Brick, changed: Seq<Seq<char>>) -> bool {
    exists|k: int| 0 <= k < changed.len() && has_prefix(#[trigger] changed[k], rel_dir(root, b.path@))
}

/// Names of the bricks the changes touch, in order.
pub open spec fn touched_names(root: Seq<char>, bricks: Seq<Brick>, changed: Seq<Seq<char>>) -> Seq<Seq<char>>
    decreases bricks.len(),
{
    if bricks.len() == 0 {
        Seq::empty()
    } else {
        let rest = touched_names(root, bricks.drop_last(), changed);
        if touched(root, bricks.last(), changed) {
            rest.push(bricks.last().name@)
        } else {
            rest
        }
    }
}

/// The app is not touched itself but declares a dependency on a touched brick.
pub open spec fn affected(app: Brick, touched: Seq<Seq<char>>) -> bool {
    &&& !touched.contains(app.name@)
    &&& exists|j: int|
        0 <= j < app.pyproject.deps().len() && touched.contains(dep_name(#[trigger] app.pyproject.deps()[j]@))
}

/// Names of the affected apps, in order.
pub open spec fn affected_names(apps: Seq<Brick>, touched: Seq<Seq<char>>) -> Seq<Seq<char>>
    decreases apps.len(),
{
    if apps.len() == 0 {
        Seq::empty()
    } else {
        let rest = affected_names(apps.drop_last(), touched);
        if affected(apps.last(), touched) {
            rest.push(apps.last().name@)
        } else {
            rest
        }
    }
}

/// Bricks changed directly, and apps affected through a dependency on one.
#[derive(Debug)]
pub struct Impact {
    pub changed: Vec<String>,
    pub affected_apps: Vec<String>,
}

/// `path` relative to `root`, as `rel_dir` gives it.
pub fn relative_dir(root: &str, path: &str) -> (r: String)
    ensures
        r@ == rel_dir(root@, path@),
{
    let n = path.unicode_len();
    let m = root.unicode_len();
    if n == m && starts_with(path, root) {
        assert(path@.take(m as int) == path@);
        return String::new();
    }
    if n > m && starts_with(path, root) && path.get_char(m) == '/' {
        assert(path@ != root@) by {
            assert(path@.len() != root@.len());
        }
        return path.substring_char(m + 1, n).to_owned();
    }
    proof {
        if path@ == root@ {
            assert(path@.take(m as int) == path@);
        }
    }
    path.to_owned()
}

/// Whether some changed path starts with the brick's root-relative directory.
pub fn is_touched(root: &str, brick: &Brick, changed: &Vec<String>) -> (r: bool)
    ensures
        r == touched(root@, *brick, changed@.map_values(|s: String| s@)),
{
    let ghost all = changed@.map_values(|s: String| s@);
    let rel = relative_dir(root, brick.path.as_str());
    let mut k: usize = 0;
    while k < changed.len()
        invariant
            all == changed@.map_values(|s: String| s@),
            rel@ == rel_dir(root@, brick.path@),
            k <= changed.len(),
            forall|i: int| 0 <= i < k ==> !has_prefix(#[trigger] all[i], rel@),
        decreases changed.len() - k,
    {
        if starts_with(changed[k].as_str(), rel.as_str()) {
            assert(has_prefix(all[k as int], rel@));
            return true;
        }
        k = k + 1;
    }
    false
}

/// Position of `x` in `s` exists exactly when `s` contains `x`.
proof fn lemma_contains_first_index(s: Seq<Seq<char>>, x: Seq<char>)
    ensures
        s.contains(x) <==> first_index(s, x) >= 0,
{
    lemma_first_index(s, x);
    if s.contains(x) {
        let j = choose|j: int| 0 <= j < s.len() && s[j] == x;
    }
}

/// Whether `app` is affected by the touched bricks named in `touched`.
fn is_affected(app: &Brick, touched: &Vec<String>) -> (r: bool)
    ensures
        r == affected(*app, touched@.map_values(|s: String| s@)),
{
    let ghost t = touched@.map_values(|s: String| s@);
    proof {
        lemma_contains_first_index(t, app.name@);
    }
    if index_of(touched, app.name.as_str()).is_some() {
        return false;
    }
    let deps = app.pyproject.dependency_specs();
    let mut j: usize = 0;
    while j < deps.len()
        invariant
            t == touched@.map_values(|s: String| s@),
            deps@ == app.pyproject.deps(),
            !t.contains(app.name@),
            j <= deps.len(),
            forall|i: int| 0 <= i < j ==> !t.contains(dep_name(#[trigger] deps@[i]@)),
        decreases deps.len() - j,
    {
        let name = dependency_name(deps[j].as_str());
        proof {
            lemma_contains_first_index(t, name@);
        }
        if index_of(touched, name.as_str()).is_some() {
            assert(t.contains(dep_name(app.pyproject.deps()[j as int]@)));
            return true;
        }
        j = j + 1;
    }
    false
}

/// Appends the names of the touched `bricks` to `names`.
fn collect_touched(root: &str, bricks: &Vec<Brick>, changed: &Vec<String>, names: &mut Vec<String>)
    ensures
        final(names)@.map_values(|s: String| s@) == old(names)@.map_values(|s: String| s@)
            + touched_names(root@, bricks@, changed@.map_values(|s: String| s@)),
{
    let ghost all = changed@.map_values(|s: String| s@);
    let ghost start = names@.map_values(|s: String| s@);
    let mut i: usize = 0;
    while i < bricks.len()
        invariant
            all == changed@.map_values(|s: String| s@),
            i <= bricks.len(),
            names@.map_values(|s: String| s@) == start + touched_names(root@, bricks@.take(i as int), all),
        decreases bricks.len() - i,
    {
        assert(bricks@.take(i + 1).drop_last() == bricks@.take(i as int));
        if is_touched(root, &bricks[i], changed) {
            names.push(bricks[i].name.clone());
            let ghost prev = touched_names(root@, bricks@.take(i as int), all);
            assert(names@.map_values(|s: String| s@) =~= (start + prev).push(bricks@[i as int].name@));
            assert((start + prev).push(bricks@[i as int].name@) =~= start + prev.push(bricks@[i as int].name@));
        }
        i = i + 1;
    }
    assert(bricks@.take(i as int) == bricks@);
}

/// The touched names of a concatenation are those of each part in turn.
proof fn lemma_touched_names_concat(root: Seq<char>, a: Seq<Brick>, b: Seq<Brick>, changed: Seq<Seq<char>>)
    ensures
        touched_names(root, a + b, changed) == touched_names(root, a, changed) + touched_names(root, b, changed),
    decreases b.len(),
{
    if b.len() == 0 {
        assert(a + b == a);
        assert(touched_names(root, a, changed) + Seq::<Seq<char>>::empty() == touched_names(root, a, changed));
    } else {
        lemma_touched_names_concat(root, a, b.drop_last(), changed);
        assert((a + b).drop_last() == a + b.drop_last());
        assert((a + b).last() == b.last());
        let ta = touched_names(root, a, changed);
        let tb = touched_names(root, b.drop_last(), changed);
        assert((ta + tb).push(b.last().name@) == ta + tb.push(b.last().name@));
    }
}

/// No changed paths touch no brick.
proof fn lemma_nothing_touched(root: Seq<char>, bricks: Seq<Brick>, changed: Seq<Seq<char>>)
    requires
        changed.len() == 0,
    ensures
        touched_names(root, bricks, changed).len() == 0,
    decreases bricks.len(),
{
    if bricks.len() > 0 {
        lemma_nothing_touched(root, bricks.drop_last(), changed);
    }
}

/// No touched bricks affect no app.
proof fn lemma_nothing_affected(apps: Seq<Brick>, touched: Seq<Seq<char>>)
    requires
        touched.len() == 0,
    ensures
        affected_names(apps, touched).len() == 0,
    decreases apps.len(),
{
    if apps.len() > 0 {
        lemma_nothing_affected(apps.drop_last(), touched);
    }
}

/// Bricks whose directory holds a changed path, and apps that are not
/// changed themselves but declare a dependency on a changed brick (one hop).
/// `changed` holds paths relative to the workspace root.
pub fn analyze(ws: &Workspace, changed: &Vec<String>) -> (r: Impact)
    ensures
        r.changed@.map_values(|s: String| s@) == touched_names(
            ws.root@,
            ws.members(),
            changed@.map_values(|s: String| s@),
        ),
        r.affected_apps@.map_values(|s: String| s@) == affected_names(
            ws.apps@,
            r.changed@.map_values(|s: String| s@),
        ),
        changed@.len() == 0 ==> r.changed@.len() == 0 && r.affected_apps@.len() == 0,
{
    let ghost all = changed@.map_values(|s: String| s@);
    let mut names: Vec<String> = Vec::new();
    collect_touched(ws.root.as_str(), &ws.packages, changed, &mut names);
    collect_touched(ws.root.as_str(), &ws.apps, changed, &mut names);
    proof {
        lemma_touched_names_concat(ws.root@, ws.packages@, ws.apps@, all);
    }
    let ghost t = names@.map_values(|s: String| s@);
    let mut apps: Vec<String> = Vec::new();
    let mut a: usize = 0;
    while a < ws.apps.len()
        invariant
            t == names@.map_values(|s: String| s@),
            a <= ws.apps.len(),
            apps@.map_values(|s: String| s@) == affected_names(ws.apps@.take(a as int), t),
        decreases ws.apps.len() - a,
    {
        assert(ws.apps@.take(a + 1).drop_last() == ws.apps@.take(a as int));
        if is_affected(&ws.apps[a], &names) {
            apps.push(ws.apps[a].name.clone());
            assert(apps@.map_values(|s: String| s@) =~= affected_names(ws.apps@.take(a as int), t).push(ws.apps@[a as int].name@));
        }
        a = a + 1;
    }
    assert(ws.apps@.take(a as int) == ws.apps@);
    proof {
        if changed@.len() == 0 {
            lemma_nothing_touched(ws.root@, ws.members(), all);
            lemma_nothing_affected(ws.apps@, t);
        }
    }
    Impact { changed: names, affected_apps: apps }
}

} // verus!
