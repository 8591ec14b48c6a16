//! A set that holds at most one value of each type, addressed by the type.
//!
//! A [`TypeSet`] is read as a map from the identity of a type to the erased
//! value stored for that type. Values go in and come out by naming their type.
//!
//! Each operation comes in two forms. The keyed form (`insert_at`, `get_at`,
//! ...) takes the [`Key`] of the type and says exactly what it does to the
//! entry of that key. The plain form (`insert`, `get`, ...) asks for the key
//! itself and then does the same; its contract speaks of "some key", because
//! nothing can be promised of the key that comes back.
pub mod cell;
pub mod entry;
pub mod laws;
mod slots;
pub mod summary;

use crate::cell::erase;
use crate::cell::key;
use crate::cell::payload;
use crate::cell::Erased;
use crate::cell::Key;
use crate::entry::Entry;
use crate::laws::lemma_count_with;
use crate::laws::lemma_count_without;
use crate::slots::cell_mut;
use crate::slots::distinct;
use crate::slots::filed;
use crate::slots::find;
use crate::slots::lemma_cell_changed;
use crate::slots::lemma_distinct_front;
use crate::slots::lemma_map_of_len;
use crate::slots::lemma_map_of_push;
use crate::slots::lemma_map_of_slot;
use crate::slots::lemma_map_of_update;
use crate::slots::map_of;
use crate::slots::Slot;
use std::any::TypeId;
use vstd::prelude::*;

verus! {

/// A collection of values of different types, at most one of each type.
///
/// There is no way to walk the collection: a value is reached only by naming
/// its type.
pub struct TypeSet {
    slots: Vec<Slot>,
}

impl View for TypeSet {
    type V = Map<TypeId, Erased>;

    /// The set as a map from the identity of a type to the erased value
    /// stored under it.
    closed spec fn view(&self) -> Map<TypeId, Erased> {
        map_of(self.slots@)
    }
}

impl TypeSet {
    #[verifier::type_invariant]
    spec fn well_formed(&self) -> bool {
        distinct(self.slots@) && filed(self.slots@)
    }

    /// Whether a value is stored under `key`.
    pub open spec fn has_at(&self, key: TypeId) -> bool {
        self@.contains_key(key)
    }

    /// The value stored under `key`, read as a `T`, if there is one.
    pub open spec fn value_at<T: Send + Sync + 'static>(&self, key: TypeId) -> Option<T> {
        if self.has_at(key) {
            Some(payload::<T>(self@[key]))
        } else {
            None
        }
    }

    /// The value stored under `key`, or `default` if there is none.
    pub open spec fn value_or_at<T: Send + Sync + 'static>(&self, key: TypeId, default: T) -> T {
        match self.value_at::<T>(key) {
            Some(value) => value,
            None => default,
        }
    }

    /// Whether `self` is `before` with `value` stored under `key`, in place
    /// of any value that `before` held there.
    pub open spec fn is_with_at<T: Send + Sync + 'static>(
        &self,
        before: TypeSet,
        key: TypeId,
        value: T,
    ) -> bool {
        &&& self@ == before@.insert(key, erase(value))
        &&& self.value_at::<T>(key) == Some(value)
    }

    /// Whether `self` is `before` with the value under `key`, if any, taken out.
    pub open spec fn is_without_at(&self, before: TypeSet, key: TypeId) -> bool {
        self@ == before@.remove(key)
    }

    /// Whether the value under `key`, if there is one, is `value`.
    pub open spec fn agrees_at<T: Send + Sync + 'static>(&self, key: TypeId, value: T) -> bool {
        self.has_at(key) ==> self@[key] == erase(value) && self.value_at::<T>(key) == Some(value)
    }

    /// The number of distinct types stored.
    pub open spec fn count(&self) -> nat {
        self@.dom().len()
    }

    /// Create an empty `TypeSet`.
    pub fn new() -> (set: Self)
        ensures
            set@ == Map::<TypeId, Erased>::empty(),
            set.count() == 0,
    {
        let set = TypeSet { slots: Vec::new() };
        proof {
            assert(set@ =~= Map::<TypeId, Erased>::empty());
        }
        set
    }

    /// Returns true if the `TypeSet` contains zero types.
    pub fn is_empty(&self) -> (empty: bool)
        ensures
            empty == (self.count() == 0),
            empty == (self@ == Map::<TypeId, Erased>::empty()),
    {
        proof {
            use_type_invariant(self);
            lemma_map_of_len(self.slots@);
            if self.slots@.len() == 0 {
                assert(self@ =~= Map::<TypeId, Erased>::empty());
            }
        }
        self.slots.len() == 0
    }

    /// Returns the number of distinct types in this `TypeSet`.
    pub fn len(&self) -> (len: usize)
        ensures
            len == self.count(),
    {
        proof {
            use_type_invariant(self);
            lemma_map_of_len(self.slots@);
        }
        self.slots.len()
    }

    /// Check if this `TypeSet` contains a value under `key`.
    pub fn contains_at<T: Send + Sync + 'static>(&self, key: &Key<T>) -> (present: bool)
        ensures
            present == self.has_at(key.id()),
    {
        let id = key.type_id();
        let found = find(&self.slots, &id);
        proof {
            use_type_invariant(self);
            if let Some(i) = found {
                lemma_map_of_slot(self.slots@, i as int);
            }
        }
        found.is_some()
    }

    /// Check if this `TypeSet` contains a value for type T
    pub fn contains<T: Send + Sync + 'static>(&self) -> (present: bool)
        ensures
            exists|key: TypeId| present == #[trigger] self.has_at(key),
    {
        let key = key::<T>();
        let present = self.contains_at(&key);
        proof {
            assert(present == self.has_at(key.id()));
        }
        present
    }

    /// Immutably borrow the value stored under `key`.
    pub fn get_at<T: Send + Sync + 'static>(&self, key: &Key<T>) -> (r: Option<&T>)
        ensures
            (r is Some) == self.has_at(key.id()),
            r matches Some(value) ==> self.agrees_at(key.id(), *value),
    {
        let id = key.type_id();
        proof {
            use_type_invariant(self);
        }
        match find(&self.slots, &id) {
            Some(i) => {
                proof {
                    lemma_map_of_slot(self.slots@, i as int);
                }
                let value = self.slots[i].value.downcast_ref::<T>(key);
                Some(value.unwrap())
            },
            None => None,
        }
    }

    /// Immutably borrow a value that has been inserted into this `TypeSet`.
    pub fn get<T: Send + Sync + 'static>(&self) -> (r: Option<&T>)
        ensures
            exists|key: TypeId|
                {
                    &&& (r is Some) == #[trigger] self.has_at(key)
                    &&& r matches Some(value) ==> self.agrees_at(key, *value)
                },
    {
        let key = key::<T>();
        let r = self.get_at(&key);
        proof {
            assert((r is Some) == self.has_at(key.id()));
        }
        r
    }

    /// Attempt to mutably borrow the value stored under `key`.
    pub fn get_mut_at<T: Send + Sync + 'static>(&mut self, key: &Key<T>) -> (r: Option<&mut T>)
        ensures
            (r is Some) == old(self).has_at(key.id()),
            r matches Some(value) ==> {
                &&& old(self).agrees_at(key.id(), *value)
                &&& final(self).is_with_at(*old(self), key.id(), *final(value))
            },
            r is None ==> *final(self) == *old(self),
    {
        let id = key.type_id();
        proof {
            use_type_invariant(&*self);
        }
        match find(&self.slots, &id) {
            Some(i) => {
                proof {
                    lemma_map_of_slot(self.slots@, i as int);
                    lemma_cell_changed::<T>(self.slots@, i as int);
                }
                Some(cell_mut::<T>(&mut self.slots, i, key))
            },
            None => None,
        }
    }

    /// Attempt to mutably borrow to a value that has been inserted into this `TypeSet`.
    pub fn get_mut<T: Send + Sync + 'static>(&mut self) -> (r: Option<&mut T>)
        ensures
            exists|key: TypeId|
                {
                    &&& (r is Some) == #[trigger] old(self).has_at(key)
                    &&& r matches Some(value) ==> {
                        &&& old(self).agrees_at(key, *value)
                        &&& final(self).is_with_at(*old(self), key, *final(value))
                    }
                },
            r is None ==> *final(self) == *old(self),
    {
        let key = key::<T>();
        let r = self.get_mut_at(&key);
        proof {
            assert((r is Some) == old(self).has_at(key.id()));
        }
        r
    }

    /// Gets the place of `key` in the set for in-place manipulation.
    pub fn entry_at<T: Send + Sync + 'static>(&mut self, key: &Key<T>) -> (entry: Entry<'_, T>)
        ensures
            entry.key() == key.id(),
            *entry.target() == *old(self),
            *final(entry.target()) == *final(self),
            (entry is Occupied) == old(self).has_at(key.id()),
    {
        let id = key.type_id();
        let found = find(&self.slots, &id);
        proof {
            use_type_invariant(&*self);
            if let Some(i) = found {
                lemma_map_of_slot(self.slots@, i as int);
            }
        }
        Entry::new(self, key.duplicate(), found)
    }

    /// Gets the corresponding type in the set for in-place manipulation.
    ///
    /// See [`Entry`] for usage.
    pub fn entry<T: Send + Sync + 'static>(&mut self) -> (entry: Entry<'_, T>)
        ensures
            *entry.target() == *old(self),
            *final(entry.target()) == *final(self),
            (entry is Occupied) == old(self).has_at(entry.key()),
    {
        let key = key::<T>();
        self.entry_at(&key)
    }

    /// Stores `value` under `key`.
    ///
    /// If a value was stored there, it is replaced and returned.
    pub fn insert_at<T: Send + Sync + 'static>(&mut self, key: &Key<T>, value: T) -> (previous:
        Option<T>)
        ensures
            previous == old(self).value_at::<T>(key.id()),
            previous matches Some(before) ==> old(self).agrees_at(key.id(), before),
            final(self).is_with_at(*old(self), key.id(), value),
            final(self).count() == old(self).count() + if old(self).has_at(key.id()) {
                0nat
            } else {
                1nat
            },
    {
        let previous = self.entry_at(key).insert(value);
        proof {
            lemma_count_with(*old(self), *self, key.id(), value);
        }
        previous
    }

    /// Insert a value into this `TypeSet`.
    ///
    /// If a value of this type already exists, it will be replaced and returned.
    pub fn insert<T: Send + Sync + 'static>(&mut self, value: T) -> (previous: Option<T>)
        ensures
            exists|key: TypeId|
                {
                    &&& #[trigger] final(self).is_with_at(*old(self), key, value)
                    &&& previous == old(self).value_at::<T>(key)
                    &&& previous matches Some(before) ==> old(self).agrees_at(key, before)
                    &&& final(self).count() == old(self).count() + if old(self).has_at(key) {
                        0nat
                    } else {
                        1nat
                    }
                },
    {
        let key = key::<T>();
        let previous = self.insert_at(&key, value);
        proof {
            assert(self.is_with_at(*old(self), key.id(), value));
        }
        previous
    }

    /// Chainable constructor to add a type to this `TypeSet`
    pub fn with<T: Send + Sync + 'static>(self, value: T) -> (set: Self)
        ensures
            exists|key: TypeId|
                {
                    &&& #[trigger] set.is_with_at(self, key, value)
                    &&& set.count() == self.count() + if self.has_at(key) {
                        0nat
                    } else {
                        1nat
                    }
                },
    {
        let mut set = self;
        set.insert(value);
        set
    }

    /// Removes the value stored under `key`.
    ///
    /// If a value was stored there, it is returned.
    pub fn take_at<T: Send + Sync + 'static>(&mut self, key: &Key<T>) -> (r: Option<T>)
        ensures
            r == old(self).value_at::<T>(key.id()),
            r matches Some(value) ==> old(self).agrees_at(key.id(), value),
            final(self).is_without_at(*old(self), key.id()),
            !final(self).has_at(key.id()),
            final(self).count() == old(self).count() - if old(self).has_at(key.id()) {
                1nat
            } else {
                0nat
            },
    {
        let r = self.entry_at(key).take();
        proof {
            lemma_count_without(*old(self), *self, key.id());
        }
        r
    }

    /// Remove a value from this `TypeSet`.
    ///
    /// If a value of this type exists, it will be returned.
    pub fn take<T: Send + Sync + 'static>(&mut self) -> (r: Option<T>)
        ensures
            exists|key: TypeId|
                {
                    &&& #[trigger] final(self).is_without_at(*old(self), key)
                    &&& r == old(self).value_at::<T>(key)
                    &&& r matches Some(value) ==> old(self).agrees_at(key, value)
                    &&& !final(self).has_at(key)
                    &&& final(self).count() == old(self).count() - if old(self).has_at(key) {
                        1nat
                    } else {
                        0nat
                    }
                },
    {
        let key = key::<T>();
        let r = self.take_at(&key);
        proof {
            assert(self.is_without_at(*old(self), key.id()));
        }
        r
    }

    /// Get a value from this `TypeSet` or populate it with the provided default.
    ///
    /// Identical to [`Entry::or_insert`]
    ///
    /// If building T is expensive, use [`TypeSet::get_or_insert_with`] or [`Entry::or_insert_with`]
    pub fn get_or_insert<T: Send + Sync + 'static>(&mut self, default: T) -> (r: &mut T)
        ensures
            exists|key: TypeId|
                {
                    &&& #[trigger] final(self).is_with_at(*old(self), key, *final(r))
                    &&& *r == old(self).value_or_at(key, default)
                    &&& old(self).agrees_at(key, *r)
                },
    {
        self.entry().or_insert(default)
    }

    /// Get a value from this `TypeSet` or populate it with the provided default function.
    ///
    /// Identical to [`Entry::or_insert_with`]
    ///
    /// Prefer this to [`TypeSet::get_or_insert`] when building type T is expensive, since it will only be
    /// executed when T is absent.
    pub fn get_or_insert_with<T: Send + Sync + 'static>(
        &mut self,
        default: impl FnOnce() -> T,
    ) -> (r: &mut T)
        requires
            (exists|key: TypeId| !#[trigger] old(self).has_at(key)) ==> default.requires(()),
        ensures
            exists|key: TypeId|
                {
                    &&& #[trigger] final(self).is_with_at(*old(self), key, *final(r))
                    &&& match old(self).value_at::<T>(key) {
                        Some(value) => *r == value,
                        None => default.ensures((), *r),
                    }
                    &&& old(self).agrees_at(key, *r)
                },
    {
        self.entry().or_insert_with(default)
    }

    /// Ensure a value is present by filling with [`Default::default`]
    ///
    /// Identical to [`Entry::or_default`].
    pub fn get_or_insert_default<T: Default + Send + Sync + 'static>(&mut self) -> (r: &mut T)
        ensures
            exists|key: TypeId|
                {
                    &&& #[trigger] final(self).is_with_at(*old(self), key, *final(r))
                    &&& match old(self).value_at::<T>(key) {
                        Some(value) => *r == value,
                        None => call_ensures(T::default, (), *r),
                    }
                    &&& old(self).agrees_at(key, *r)
                },
    {
        self.entry().or_default()
    }

    /// Merge another `TypeSet` into this one, replacing any collisions
    pub fn merge(&mut self, other: TypeSet)
        ensures
            final(self)@ == old(self)@.union_prefer_right(other@),
            final(self).count() == (old(self)@.dom() + other@.dom()).len(),
    {
        proof {
            use_type_invariant(&*self);
            use_type_invariant(&other);
        }
        let ghost merged = self@.union_prefer_right(other@);
        let mut mine: Vec<Slot> = Vec::new();
        std::mem::swap(&mut mine, &mut self.slots);
        let mut theirs = other.slots;
        while theirs.len() > 0
            invariant
                distinct(mine@),
                filed(mine@),
                distinct(theirs@),
                filed(theirs@),
                map_of(mine@).union_prefer_right(map_of(theirs@)) == merged,
                self.slots@.len() == 0,
            decreases theirs.len(),
        {
            let ghost before = mine@;
            let ghost pending = theirs@;
            let slot = theirs.pop().unwrap();
            proof {
                assert(pending =~= theirs@.push(slot));
                lemma_distinct_front(pending);
                lemma_map_of_push(theirs@, slot);
            }
            match find(&mine, &slot.key) {
                Some(i) => {
                    proof {
                        lemma_map_of_update(mine@, i as int, slot);
                    }
                    mine.set(i, slot);
                },
                None => {
                    proof {
                        lemma_map_of_push(mine@, slot);
                    }
                    mine.push(slot);
                },
            }
            proof {
                assert(map_of(mine@).union_prefer_right(map_of(theirs@)) =~= map_of(
                    before,
                ).union_prefer_right(map_of(pending)));
            }
        }
        proof {
            assert(map_of(mine@).union_prefer_right(map_of(theirs@)) =~= map_of(mine@));
        }
        std::mem::swap(&mut mine, &mut self.slots);
        proof {
            assert(merged.dom() =~= old(self)@.dom() + other@.dom());
        }
    }
}

impl Default for TypeSet {
    /// The empty set.
    fn default() -> (set: Self)
        ensures
            set@ == Map::<TypeId, Erased>::empty(),
    {
        TypeSet::new()
    }
}

} // verus!
