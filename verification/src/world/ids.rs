use vstd::prelude::*;

use super::board::EntityId;

verus! {

/// Whether `e` is listed in `ids`.
pub fn contains_id(ids: &Vec<EntityId>, e: EntityId) -> (found: bool)
    ensures
        found == ids@.contains(e),
{
    let mut i: usize = 0;
    while i < ids.len()
        invariant
            i <= ids@.len(),
            forall|j: int| 0 <= j < i ==> ids@[j] != e,
        decreases ids@.len() - i,
    {
        if ids[i] == e {
            return true;
        }
        i = i + 1;
    }
    false
}

/// Adds `e` to the set `ids` (a list without repeats) unless it is there.
pub fn insert_id(ids: &mut Vec<EntityId>, e: EntityId)
    ensures
        final(ids)@.to_set() == old(ids)@.to_set().insert(e),
        old(ids)@.no_duplicates() ==> final(ids)@.no_duplicates(),
        old(ids)@.contains(e) ==> final(ids)@ == old(ids)@,
        !old(ids)@.contains(e) ==> final(ids)@ == old(ids)@.push(e),
{
    if !contains_id(ids, e) {
        ids.push(e);
        proof {
            assert(ids@.to_set() =~= old(ids)@.to_set().insert(e)) by {
                assert forall|x: EntityId| ids@.to_set().contains(x) <==> old(ids)@.to_set().insert(e).contains(x) by {
                    if x != e {
                        if ids@.contains(x) {
                            let k = choose|k: int| 0 <= k < ids@.len() && ids@[k] == x;
                            assert(old(ids)@[k] == x);
                        }
                        if old(ids)@.contains(x) {
                            let k = choose|k: int| 0 <= k < old(ids)@.len() && old(ids)@[k] == x;
                            assert(ids@[k] == x);
                        }
                    } else {
                        assert(ids@[ids@.len() - 1] == e);
                    }
                }
            }
        }
    } else {
        assert(old(ids)@.to_set().insert(e) =~= old(ids)@.to_set());
    }
}

} // verus!
