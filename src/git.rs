//! Choosing among what the version-control collaborator reports.

use vstd::prelude::*;

verus! {

/// The tag to compare against: among `(commit time, name)` pairs, the first
/// with the latest time; none when there are no tags.
pub fn latest_tag_name(tags: &Vec<(i64, String)>) -> (r: Option<String>)
    ensures
        r is None <==> tags@.len() == 0,
        r matches Some(n) ==> exists|k: int|
            0 <= k < tags@.len() && n@ == tags@[k].1@ && (forall|i: int|
                0 <= i < tags@.len() ==> (#[trigger] tags@[i]).0 <= tags@[k].0) && (forall|i: int|
                0 <= i < k ==> (#[trigger] tags@[i]).0 < tags@[k].0),
{
    if tags.len() == 0 {
        return None;
    }
    let mut best: usize = 0;
    let mut i: usize = 1;
    while i < tags.len()
        invariant
            0 < tags@.len(),
            best < i <= tags@.len(),
            forall|j: int| 0 <= j < i ==> (#[trigger] tags@[j]).0 <= tags@[best as int].0,
            forall|j: int| 0 <= j < best ==> (#[trigger] tags@[j]).0 < tags@[best as int].0,
        decreases tags.len() - i,
    {
        if tags[i].0 > tags[best].0 {
            best = i;
        }
        i = i + 1;
    }
    Some(tags[best].1.clone())
}

} // verus!
