//! Walking slot-keyed maps in ascending slot order.

use std::collections::BTreeMap;
use vstd::prelude::*;

verus! {

/// The slots that a map holds, ascending and without repetition.
pub fn sorted_slots<V>(map: &BTreeMap<u16, V>) -> (slots: Vec<u16>)
    ensures
        forall|i: int, j: int| 0 <= i < j < slots@.len() ==> slots@[i] < slots@[j],
        forall|slot: u16| #[trigger] map@.contains_key(slot) <==> slots@.contains(slot),
        slots@.len() == map@.len(),
{
    let mut slots: Vec<u16> = Vec::new();
    let walk = map.iter();
    let ghost pairs = vstd::std_specs::iter::IteratorSpec::remaining(&walk);
    let ghost keys = pairs.map_values(|kv: (&u16, &V)| *kv.0);
    for entry in it: walk
        invariant
            it.seq() == pairs,
            keys == pairs.map_values(|kv: (&u16, &V)| *kv.0),
            slots@.len() == it.index(),
            forall|i: int| 0 <= i < slots@.len() ==> slots@[i] == keys[i],
    {
        slots.push(*entry.0);
    }
    assert(slots@ =~= keys);
    proof {
        assert(vstd::std_specs::btree::increasing_seq(keys));
        assert forall|i: int, j: int| 0 <= i < j < slots@.len() implies slots@[i] < slots@[j] by {
            assert(vstd::std_specs::cmp::OrdSpec::cmp_spec(&keys[i], &keys[j]) is Less);
        }
        assert forall|slot: u16| #[trigger] map@.contains_key(slot) implies slots@.contains(
            slot,
        ) by {
            let entry = (&slot, &map@[slot]);
            assert(pairs.contains(entry));
            let i = choose|i: int| 0 <= i < pairs.len() && pairs[i] == entry;
            assert(slots@[i] == slot);
        }
        assert forall|slot: u16| slots@.contains(slot) implies #[trigger] map@.contains_key(
            slot,
        ) by {
            let i = choose|i: int| 0 <= i < slots@.len() && slots@[i] == slot;
            assert(map@.contains_key(*pairs[i].0));
        }
    }
    slots
}

} // verus!
