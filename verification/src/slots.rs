//! The backing store: a sequence of slots, at most one per key, read as a map
//! from key to erased value.
use crate::cell::erase;
use crate::cell::payload;
use crate::cell::restore;
use crate::cell::same_key;
use crate::cell::Key;
use crate::cell::Erased;
use crate::cell::Value;
use std::any::TypeId;
use vstd::prelude::*;

verus! {

/// One entry of the store: a cell and the key it is filed under.
pub struct Slot {
    pub key: TypeId,
    pub value: Value,
}

/// No key occurs twice.
pub open spec fn distinct(slots: Seq<Slot>) -> bool {
    forall|i: int, j: int|
        0 <= i < j < slots.len() ==> (#[trigger] slots[i]).key != (#[trigger] slots[j]).key
}

/// Every cell is filed under the identity of the type of the value it holds.
pub open spec fn filed(slots: Seq<Slot>) -> bool {
    forall|i: int| 0 <= i < slots.len() ==> (#[trigger] slots[i]).value.identity() == slots[i].key
}

/// Whether some slot is filed under `key`.
pub open spec fn has_key(slots: Seq<Slot>, key: TypeId) -> bool {
    exists|i: int| 0 <= i < slots.len() && (#[trigger] slots[i]).key == key
}

/// The place of a slot filed under `key`.
pub open spec fn position(slots: Seq<Slot>, key: TypeId) -> int {
    choose|i: int| 0 <= i < slots.len() && (#[trigger] slots[i]).key == key
}

/// The store as a map from key to erased value.
pub open spec fn map_of(slots: Seq<Slot>) -> Map<TypeId, Erased> {
    Map::new(|key: TypeId| has_key(slots, key), |key: TypeId| slots[position(slots, key)].value.erased())
}

/// In a store without repeated keys, the slot at `i` is the entry of its key.
pub proof fn lemma_map_of_slot(slots: Seq<Slot>, i: int)
    requires
        distinct(slots),
        0 <= i < slots.len(),
    ensures
        map_of(slots).contains_key(slots[i].key),
        map_of(slots)[slots[i].key] == slots[i].value.erased(),
        position(slots, slots[i].key) == i,
{
    let key = slots[i].key;
    assert(has_key(slots, key));
    let p = position(slots, key);
    assert(0 <= p < slots.len() && slots[p].key == key);
    if p < i {
        assert(slots[p].key != slots[i].key);
    } else if i < p {
        assert(slots[i].key != slots[p].key);
    }
}

/// Without its last slot, a store without repeated keys still has none, its
/// cells stay filed, and the key of the slot that left is not among the rest.
pub proof fn lemma_distinct_front(slots: Seq<Slot>)
    requires
        distinct(slots),
        slots.len() > 0,
    ensures
        distinct(slots.drop_last()),
        !has_key(slots.drop_last(), slots.last().key),
        filed(slots) ==> filed(slots.drop_last()) && slots.last().value.identity()
            == slots.last().key,
{
    let front = slots.drop_last();
    assert forall|i: int, j: int| 0 <= i < j < front.len() implies (#[trigger] front[i]).key != (
    #[trigger] front[j]).key by {
        assert(front[i] == slots[i] && front[j] == slots[j]);
    }
    if has_key(front, slots.last().key) {
        let p = position(front, slots.last().key);
        assert(front[p] == slots[p]);
        assert(slots[p].key != slots[slots.len() - 1].key);
    }
    if filed(slots) {
        assert forall|i: int| 0 <= i < front.len() implies (#[trigger] front[i]).value.identity()
            == front[i].key by {
            assert(front[i] == slots[i]);
        }
        assert(slots[slots.len() - 1].value.identity() == slots[slots.len() - 1].key);
    }
}

/// The keys of a store are those of its front part and the key of its last slot.
pub proof fn lemma_map_of_dom_step(slots: Seq<Slot>)
    requires
        slots.len() > 0,
    ensures
        map_of(slots).dom() == map_of(slots.drop_last()).dom().insert(slots.last().key),
{
    let front = slots.drop_last();
    let last = slots.last();
    assert forall|key: TypeId| map_of(slots).dom().contains(key) implies map_of(front).dom().insert(
        last.key,
    ).contains(key) by {
        let p = position(slots, key);
        if p < front.len() {
            assert(front[p] == slots[p]);
        }
    }
    assert forall|key: TypeId| map_of(front).dom().insert(last.key).contains(key) implies map_of(
        slots,
    ).dom().contains(key) by {
        if key == last.key {
            assert(slots[slots.len() - 1].key == key);
        } else {
            let p = position(front, key);
            assert(front[p] == slots[p]);
        }
    }
    assert(map_of(slots).dom() =~= map_of(front).dom().insert(last.key));
}

/// A store has finitely many keys.
pub proof fn lemma_map_of_finite(slots: Seq<Slot>)
    ensures
        map_of(slots).dom().finite(),
    decreases slots.len(),
{
    if slots.len() == 0 {
        assert(map_of(slots).dom() =~= Set::<TypeId>::empty());
    } else {
        lemma_map_of_finite(slots.drop_last());
        lemma_map_of_dom_step(slots);
    }
}

/// A store without repeated keys has as many entries as slots.
pub proof fn lemma_map_of_len(slots: Seq<Slot>)
    requires
        distinct(slots),
    ensures
        map_of(slots).dom().finite(),
        map_of(slots).dom().len() == slots.len(),
    decreases slots.len(),
{
    lemma_map_of_finite(slots);
    if slots.len() == 0 {
        assert(map_of(slots).dom() =~= Set::<TypeId>::empty());
    } else {
        lemma_distinct_front(slots);
        lemma_map_of_len(slots.drop_last());
        lemma_map_of_dom_step(slots);
    }
}

/// Adding a slot with a new key adds its entry.
pub proof fn lemma_map_of_push(slots: Seq<Slot>, slot: Slot)
    requires
        distinct(slots),
        !has_key(slots, slot.key),
    ensures
        distinct(slots.push(slot)),
        map_of(slots.push(slot)) == map_of(slots).insert(slot.key, slot.value.erased()),
{
    let grown = slots.push(slot);
    assert(distinct(grown)) by {
        assert forall|i: int, j: int| 0 <= i < j < grown.len() implies (#[trigger] grown[i]).key != (
        #[trigger] grown[j]).key by {
            assert(grown[i] == slots[i]);
            if j < slots.len() {
                assert(grown[j] == slots[j]);
            }
        }
    }
    assert forall|key: TypeId| has_key(grown, key) <==> (key == slot.key || has_key(slots, key)) by {
        if has_key(grown, key) {
            let p = position(grown, key);
            if p < slots.len() {
                assert(slots[p] == grown[p]);
            }
        }
        if has_key(slots, key) {
            let p = position(slots, key);
            assert(grown[p] == slots[p]);
        }
        if key == slot.key {
            assert(grown[slots.len() as int].key == key);
        }
    }
    assert forall|key: TypeId| has_key(grown, key) implies map_of(grown)[key] == map_of(
        slots,
    ).insert(slot.key, slot.value.erased())[key] by {
        if key == slot.key {
            lemma_map_of_slot(grown, slots.len() as int);
        } else {
            let p = position(slots, key);
            assert(grown[p] == slots[p]);
            lemma_map_of_slot(grown, p);
        }
    }
    assert(map_of(grown) =~= map_of(slots).insert(slot.key, slot.value.erased()));
}

/// Replacing the cell of a slot replaces the entry of its key.
pub proof fn lemma_map_of_update(slots: Seq<Slot>, i: int, slot: Slot)
    requires
        distinct(slots),
        0 <= i < slots.len(),
        slot.key == slots[i].key,
    ensures
        distinct(slots.update(i, slot)),
        map_of(slots.update(i, slot)) == map_of(slots).insert(slot.key, slot.value.erased()),
{
    let changed = slots.update(i, slot);
    assert(distinct(changed)) by {
        assert forall|a: int, b: int| 0 <= a < b < changed.len() implies (#[trigger] changed[a]).key
            != (#[trigger] changed[b]).key by {
            assert(changed[a].key == slots[a].key);
            assert(changed[b].key == slots[b].key);
        }
    }
    assert forall|key: TypeId| has_key(changed, key) <==> has_key(slots, key) by {
        if has_key(changed, key) {
            let p = position(changed, key);
            assert(slots[p].key == key);
        }
        if has_key(slots, key) {
            let p = position(slots, key);
            assert(changed[p].key == key);
        }
    }
    assert(has_key(slots, slot.key)) by {
        assert(slots[i].key == slot.key);
    }
    assert forall|key: TypeId| has_key(changed, key) implies map_of(changed)[key] == map_of(
        slots,
    ).insert(slot.key, slot.value.erased())[key] by {
        if key == slot.key {
            lemma_map_of_slot(changed, i);
        } else {
            let p = position(slots, key);
            assert(changed[p] == slots[p]);
            lemma_map_of_slot(changed, p);
        }
    }
    assert(map_of(changed) =~= map_of(slots).insert(slot.key, slot.value.erased()));
}

/// Taking the slot at `i` out, with the last slot moved into its place,
/// removes the entry of its key.
pub proof fn lemma_map_of_swap_remove(slots: Seq<Slot>, i: int)
    requires
        distinct(slots),
        0 <= i < slots.len(),
    ensures
        distinct(slots.update(i, slots.last()).drop_last()),
        map_of(slots.update(i, slots.last()).drop_last()) == map_of(slots).remove(slots[i].key),
{
    let rest = slots.update(i, slots.last()).drop_last();
    let gone = slots[i].key;
    let last = slots.len() - 1;
    assert forall|a: int| 0 <= a < rest.len() implies (#[trigger] rest[a]) == slots[if a == i {
        last
    } else {
        a
    }] by {}
    assert(distinct(rest)) by {
        assert forall|a: int, b: int| 0 <= a < b < rest.len() implies (#[trigger] rest[a]).key != (
        #[trigger] rest[b]).key by {
            let left = if a == i { last } else { a };
            let right = if b == i { last } else { b };
            assert(rest[a] == slots[left] && rest[b] == slots[right]);
            if left < right {
                assert(slots[left].key != slots[right].key);
            } else {
                assert(slots[right].key != slots[left].key);
            }
        }
    }
    assert forall|key: TypeId| has_key(rest, key) <==> (key != gone && has_key(slots, key)) by {
        if has_key(rest, key) {
            let p = position(rest, key);
            let origin = if p == i { last } else { p };
            assert(rest[p] == slots[origin]);
            if origin < i {
                assert(slots[origin].key != slots[i].key);
            } else if i < origin {
                assert(slots[i].key != slots[origin].key);
            }
        }
        if key != gone && has_key(slots, key) {
            let p = position(slots, key);
            if p == last {
                assert(rest[i] == slots[last]);
            } else {
                assert(rest[p] == slots[p]);
            }
        }
    }
    assert forall|key: TypeId| has_key(rest, key) implies map_of(rest)[key] == map_of(slots).remove(
        gone,
    )[key] by {
        let p = position(rest, key);
        let origin = if p == i { last } else { p };
        assert(rest[p] == slots[origin]);
        lemma_map_of_slot(rest, p);
        lemma_map_of_slot(slots, origin);
    }
    assert(map_of(rest) =~= map_of(slots).remove(gone));
}

/// Taking a slot out keeps the other cells filed under their own keys.
pub proof fn lemma_filed_swap_remove(slots: Seq<Slot>, i: int)
    requires
        filed(slots),
        0 <= i < slots.len(),
    ensures
        filed(slots.update(i, slots.last()).drop_last()),
{
    let rest = slots.update(i, slots.last()).drop_last();
    assert forall|j: int| 0 <= j < rest.len() implies (#[trigger] rest[j]).value.identity()
        == rest[j].key by {
        if j == i {
            assert(rest[j] == slots[slots.len() - 1]);
        } else {
            assert(rest[j] == slots[j]);
        }
    }
}

/// Whatever value of type `T` replaces the value in the cell at `i`, the
/// store keeps its shape and reads as the old map with that one entry changed.
pub proof fn lemma_cell_changed<T: Send + Sync + 'static>(slots: Seq<Slot>, i: int)
    requires
        distinct(slots),
        filed(slots),
        0 <= i < slots.len(),
    ensures
        forall|after: Seq<Slot>, value: T|
            #![trigger restore::<T>(after[i].value.erased()), erase(value)]
            {
                &&& after.len() == slots.len()
                &&& forall|j: int| 0 <= j < slots.len() && j != i ==> after[j] == slots[j]
                &&& after[i].key == slots[i].key
                &&& after[i].value.identity() == slots[i].value.identity()
                &&& after[i].value.erased() == erase(value)
                &&& restore::<T>(after[i].value.erased()) == Some(value)
            } ==> {
                &&& distinct(after)
                &&& filed(after)
                &&& map_of(after) == map_of(slots).insert(slots[i].key, erase(value))
                &&& payload::<T>(map_of(after)[slots[i].key]) == value
            },
{
    assert forall|after: Seq<Slot>, value: T|
        #![trigger restore::<T>(after[i].value.erased()), erase(value)]
        {
            &&& after.len() == slots.len()
            &&& forall|j: int| 0 <= j < slots.len() && j != i ==> after[j] == slots[j]
            &&& after[i].key == slots[i].key
            &&& after[i].value.identity() == slots[i].value.identity()
            &&& after[i].value.erased() == erase(value)
            &&& restore::<T>(after[i].value.erased()) == Some(value)
        } implies {
            &&& distinct(after)
            &&& filed(after)
            &&& map_of(after) == map_of(slots).insert(slots[i].key, erase(value))
            &&& payload::<T>(map_of(after)[slots[i].key]) == value
        } by {
        assert(after =~= slots.update(i, after[i]));
        lemma_map_of_update(slots, i, after[i]);
        assert(filed(after)) by {
            assert forall|j: int| 0 <= j < after.len() implies (#[trigger] after[j]).value.identity()
                == after[j].key by {
                if j != i {
                    assert(after[j] == slots[j]);
                }
            }
        }
        lemma_map_of_slot(after, i);
    }
}

/// Looks for the slot filed under `key`.
pub fn find(slots: &Vec<Slot>, key: &TypeId) -> (found: Option<usize>)
    ensures
        found matches Some(i) ==> i < slots.len() && slots[i as int].key == *key,
        found is None ==> !has_key(slots@, *key),
{
    let mut i: usize = 0;
    while i < slots.len()
        invariant
            i <= slots.len(),
            forall|j: int| 0 <= j < i ==> (#[trigger] slots[j]).key != *key,
        decreases slots.len() - i,
    {
        if same_key(&slots[i].key, key) {
            return Some(i);
        }
        i += 1;
    }
    None
}

/// Borrows the value in the cell at `i`, which holds it as the type of
/// `key`. The store after the borrow differs from the store before it in that
/// cell alone, which then holds what the caller left behind the borrow.
pub fn cell_mut<'a, T: Send + Sync + 'static>(slots: &'a mut Vec<Slot>, i: usize, key: &Key<T>) -> (r:
    &'a mut T)
    requires
        i < old(slots).len(),
        old(slots)[i as int].value.identity() == key.id(),
    ensures
        old(slots)[i as int].value.erased() == erase(*r),
        restore::<T>(old(slots)[i as int].value.erased()) == Some(*r),
        final(slots)@.len() == old(slots)@.len(),
        forall|j: int| 0 <= j < old(slots)@.len() && j != i ==> final(slots)@[j] == old(slots)@[j],
        final(slots)@[i as int].key == old(slots)@[i as int].key,
        final(slots)@[i as int].value.identity() == old(slots)@[i as int].value.identity(),
        final(slots)@[i as int].value.erased() == erase(*final(r)),
        restore::<T>(final(slots)@[i as int].value.erased()) == Some(*final(r)),
    no_unwind
{
    let slot = &mut slots[i];
    match slot.value.downcast_mut::<T>(key) {
        Some(value) => value,
        None => unreached(),
    }
}

} // verus!
