//! What holds of every set, every key, every value and every sequence of
//! operations, stated over the same predicates as the contracts of the
//! operations.
use crate::slots::lemma_map_of_finite;
use crate::TypeSet;
use std::any::TypeId;
use vstd::prelude::*;

verus! {

/// A set has finitely many entries.
pub proof fn lemma_finite(set: TypeSet)
    ensures
        set@.dom().finite(),
{
    lemma_map_of_finite(set.slots@);
}

/// Storing a value adds one entry if its key was absent and none otherwise.
pub proof fn lemma_count_with<T: Send + Sync + 'static>(
    before: TypeSet,
    after: TypeSet,
    key: TypeId,
    value: T,
)
    requires
        after.is_with_at(before, key, value),
    ensures
        after.count() == before.count() + if before.has_at(key) {
            0nat
        } else {
            1nat
        },
{
    lemma_finite(before);
    if before.has_at(key) {
        assert(after@.dom() =~= before@.dom());
    } else {
        assert(after@.dom() =~= before@.dom().insert(key));
    }
}

/// Taking a value out removes one entry if its key was present and none otherwise.
pub proof fn lemma_count_without(before: TypeSet, after: TypeSet, key: TypeId)
    requires
        after.is_without_at(before, key),
    ensures
        after.count() == before.count() - if before.has_at(key) {
            1nat
        } else {
            0nat
        },
{
    lemma_finite(before);
    if before.has_at(key) {
        assert(after@.dom() =~= before@.dom().remove(key));
    } else {
        assert(after@.dom() =~= before@.dom());
    }
}

/// Insert, then insert again under the same key. Storing a value under a key
/// that was absent reports no previous value and grows the set by exactly
/// one; storing a second value under that key reports the first and leaves
/// the size as it was.
pub proof fn lemma_insert_twice<T: Send + Sync + 'static>(
    empty: TypeSet,
    key: TypeId,
    first: T,
    once: TypeSet,
    second: T,
    twice: TypeSet,
)
    requires
        !empty.has_at(key),
        once.is_with_at(empty, key, first),
        twice.is_with_at(once, key, second),
    ensures
        empty.value_at::<T>(key) is None,
        once.count() == empty.count() + 1,
        once.value_at::<T>(key) == Some(first),
        twice.count() == once.count(),
        twice.value_at::<T>(key) == Some(second),
{
    lemma_count_with(empty, once, key, first);
    lemma_count_with(once, twice, key, second);
}

/// Get after insert. Once a value is stored under a key, the key is present
/// and reads back as that value.
pub proof fn lemma_get_after_insert<T: Send + Sync + 'static>(
    before: TypeSet,
    key: TypeId,
    value: T,
    after: TypeSet,
)
    requires
        after.is_with_at(before, key, value),
    ensures
        after.has_at(key),
        after.value_at::<T>(key) == Some(value),
        after.agrees_at(key, value),
{
}

/// Insert, then take, then take again, all under the same key. The first
/// take hands back the value that was stored and leaves the key absent; the
/// second finds nothing and changes nothing.
pub proof fn lemma_take_after_insert<T: Send + Sync + 'static>(
    before: TypeSet,
    key: TypeId,
    value: T,
    stored: TypeSet,
    taken: TypeSet,
    again: TypeSet,
)
    requires
        stored.is_with_at(before, key, value),
        taken.is_without_at(stored, key),
        again.is_without_at(taken, key),
    ensures
        stored.value_at::<T>(key) == Some(value),
        !taken.has_at(key),
        taken.value_at::<T>(key) is None,
        taken.count() == stored.count() - 1,
        again@ == taken@,
{
    lemma_count_without(stored, taken, key);
    assert(again@ =~= taken@);
}

/// Storing or taking a value under one key leaves every other key as it was.
pub proof fn lemma_other_keys_untouched<T: Send + Sync + 'static, U: Send + Sync + 'static>(
    before: TypeSet,
    key: TypeId,
    value: T,
    after: TypeSet,
    other: TypeId,
)
    requires
        key != other,
        after.is_with_at(before, key, value) || after.is_without_at(before, key),
    ensures
        after.has_at(other) == before.has_at(other),
        after.value_at::<U>(other) == before.value_at::<U>(other),
{
}

/// Reading through a mutable borrow and writing nothing leaves the set as it
/// was: when the value left behind is the value that was there, the set
/// after is the set before.
pub proof fn lemma_unwritten<T: Send + Sync + 'static>(
    before: TypeSet,
    key: TypeId,
    value: T,
    after: TypeSet,
)
    requires
        before.has_at(key),
        before.agrees_at(key, value),
        after.is_with_at(before, key, value),
    ensures
        after@ == before@,
{
    assert(after@ =~= before@);
}

/// "Get or insert" is one operation, whichever way it is reached. The value
/// that the caller sees is the stored one, or else the default; the set
/// afterwards is the set before with whatever the caller left behind the
/// borrow. Two outcomes that meet this description for the same set, the
/// same key, the same default and the same value left behind agree in what
/// is returned and in the set that results.
pub proof fn lemma_or_insert_determined<T: Send + Sync + 'static>(
    before: TypeSet,
    key: TypeId,
    default: T,
    seen_a: T,
    left_a: T,
    after_a: TypeSet,
    seen_b: T,
    left_b: T,
    after_b: TypeSet,
)
    requires
        seen_a == before.value_or_at(key, default),
        after_a.is_with_at(before, key, left_a),
        seen_b == before.value_or_at(key, default),
        after_b.is_with_at(before, key, left_b),
        left_a == left_b,
    ensures
        seen_a == seen_b,
        after_a@ == after_b@,
        after_a.value_at::<T>(key) == after_b.value_at::<T>(key),
        after_a.count() == after_b.count(),
{
}

/// Merging `right` into `left`: a key present only in `left` keeps its
/// value, a key present in `right` has the value from `right`, whether or
/// not `left` held one, and the merged set has as many entries as the two
/// key sets have together.
pub proof fn lemma_merge<T: Send + Sync + 'static>(
    left: TypeSet,
    right: TypeSet,
    merged: TypeSet,
    key: TypeId,
)
    requires
        merged@ == left@.union_prefer_right(right@),
    ensures
        merged.has_at(key) == (left.has_at(key) || right.has_at(key)),
        right.has_at(key) ==> merged.value_at::<T>(key) == right.value_at::<T>(key),
        !right.has_at(key) ==> merged.value_at::<T>(key) == left.value_at::<T>(key),
        merged.count() == (left@.dom() + right@.dom()).len(),
{
    assert(merged@.dom() =~= left@.dom() + right@.dom());
}

} // verus!
