//! Views into the place of one type in a [`TypeSet`]: vacant or occupied.
//!
//! An entry knows the key it was made for, and its contracts speak of the
//! entry of that key in the set it borrows.
use crate::cell::Erased;
use crate::cell::Key;
use crate::cell::Value;
use crate::slots::cell_mut;
use crate::slots::has_key;
use crate::slots::lemma_cell_changed;
use crate::slots::lemma_filed_swap_remove;
use crate::slots::lemma_map_of_push;
use crate::slots::lemma_map_of_slot;
use crate::slots::lemma_map_of_swap_remove;
use crate::slots::Slot;
use crate::TypeSet;
use std::any::TypeId;
use std::ops::Deref;
use std::ops::DerefMut;
use vstd::prelude::*;

verus! {

/// A view into the place of a single type in a `TypeSet`, which is either vacant or occupied.
///
/// This type is constructed by [`TypeSet::entry`].
pub enum Entry<'a, T: Send + Sync + 'static> {
    /// A view into the place where a `T` would be stored.
    Vacant(VacantEntry<'a, T>),
    /// A view into the place where a `T` is stored.
    Occupied(OccupiedEntry<'a, T>),
}

/// A view into a vacant place in a `TypeSet`.
pub struct VacantEntry<'a, T: Send + Sync + 'static> {
    set: &'a mut TypeSet,
    key: Key<T>,
}

/// A view into the place where a `T` is stored.
pub struct OccupiedEntry<'a, T: Send + Sync + 'static> {
    set: &'a mut TypeSet,
    index: usize,
    key: Key<T>,
}

impl<'a, T: Send + Sync + 'static> Entry<'a, T> {
    /// The set that this entry borrows.
    pub open spec fn target(self) -> &'a mut TypeSet {
        match self {
            Entry::Vacant(vacant) => vacant.target(),
            Entry::Occupied(occupied) => occupied.target(),
        }
    }

    /// The key whose place this entry views.
    pub open spec fn key(self) -> TypeId {
        match self {
            Entry::Vacant(vacant) => vacant.key(),
            Entry::Occupied(occupied) => occupied.key(),
        }
    }

    /// Once the entry is done with, the set is as the entry last saw it.
    pub proof fn lemma_released(self)
        requires
            has_resolved(self),
        ensures
            *final(self.target()) == *self.target(),
    {
        match self {
            Entry::Vacant(vacant) => vacant.lemma_released(),
            Entry::Occupied(occupied) => occupied.lemma_released(),
        }
    }

    /// The view that fits what a search for `key` found in `set`.
    pub(crate) fn new(set: &'a mut TypeSet, key: Key<T>, found: Option<usize>) -> (entry: Self)
        requires
            found matches Some(i) ==> i < set.slots@.len() && set.slots@[i as int].key == key.id(),
            found is None ==> !has_key(set.slots@, key.id()),
        ensures
            entry.key() == key.id(),
            *entry.target() == *old(set),
            *final(entry.target()) == *final(set),
            (entry is Occupied) == (found is Some),
    {
        match found {
            Some(index) => Entry::Occupied(OccupiedEntry { set, index, key }),
            None => Entry::Vacant(VacantEntry { set, key }),
        }
    }

    /// Ensures a value is in the `Entry` by inserting the provided `default` value if the Entry was
    /// previously vacant. Returns a mutable reference to the value.
    ///
    /// Prefer [`Entry::or_insert_with`] if constructing a T is expensive.
    pub fn or_insert(self, default: T) -> (r: &'a mut T)
        ensures
            (self is Occupied) == old(self.target()).has_at(self.key()),
            *r == old(self.target()).value_or_at(self.key(), default),
            old(self.target()).agrees_at(self.key(), *r),
            final(self.target()).is_with_at(*old(self.target()), self.key(), *final(r)),
    {
        match self {
            Entry::Vacant(vacant) => vacant.insert(default),
            Entry::Occupied(occupied) => occupied.into_mut(),
        }
    }

    /// Ensures a value is in the `Entry` by inserting the provided value returned by the `default`
    /// function if the `Entry` was previously vacant. Returns a mutable reference to the value.
    ///
    /// Prefer this to [`Entry::or_insert`] if constructing a T is expensive. On
    /// an occupied entry `default` is not called, so nothing is asked of it there.
    pub fn or_insert_with(self, default: impl FnOnce() -> T) -> (r: &'a mut T)
        requires
            self is Vacant && !self.target().has_at(self.key()) ==> default.requires(()),
        ensures
            (self is Occupied) == old(self.target()).has_at(self.key()),
            match old(self.target()).value_at::<T>(self.key()) {
                Some(value) => *r == value,
                None => default.ensures((), *r),
            },
            old(self.target()).agrees_at(self.key(), *r),
            final(self.target()).is_with_at(*old(self.target()), self.key(), *final(r)),
    {
        match self {
            Entry::Vacant(vacant) => {
                proof {
                    use_type_invariant(&vacant);
                }
                vacant.insert(default())
            },
            Entry::Occupied(occupied) => occupied.into_mut(),
        }
    }

    /// Provides in-place mutable access to an occupied entry before any potential inserts into the
    /// set using [`Entry::or_insert`] or [`Entry::or_insert_with`].
    ///
    /// On a vacant entry `f` is not called, so nothing is asked of it there.
    pub fn and_modify(self, f: impl FnOnce(&mut T)) -> (entry: Self)
        requires
            self is Occupied && self.target().has_at(self.key()) ==> forall|place: &mut T|
                self.target().value_at::<T>(self.key()) == Some(*place) ==> #[trigger] f.requires(
                    (place,),
                ),
        ensures
            (self is Occupied) == old(self.target()).has_at(self.key()),
            (entry is Occupied) == (self is Occupied),
            entry.key() == self.key(),
            *final(entry.target()) == *final(self.target()),
            self is Vacant ==> *entry.target() == *old(self.target()),
            self is Occupied ==> exists|place: &mut T|
                {
                    &&& old(self.target()).agrees_at(self.key(), *place)
                    &&& #[trigger] f.ensures((place,), ())
                    &&& entry.target().is_with_at(*old(self.target()), self.key(), *final(place))
                },
    {
        match self {
            Entry::Vacant(vacant) => {
                proof {
                    use_type_invariant(&vacant);
                }
                Entry::Vacant(vacant)
            },
            Entry::Occupied(mut occupied) => {
                f(occupied.get_mut());
                Entry::Occupied(occupied)
            },
        }
    }

    /// Sets the value of the entry, whichever state it is in, and returns
    /// the value that it replaced, if any.
    pub fn insert(self, value: T) -> (previous: Option<T>)
        ensures
            (self is Occupied) == old(self.target()).has_at(self.key()),
            previous == old(self.target()).value_at::<T>(self.key()),
            previous matches Some(before) ==> old(self.target()).agrees_at(self.key(), before),
            final(self.target()).is_with_at(*old(self.target()), self.key(), value),
    {
        match self {
            Entry::Vacant(vacant) => {
                proof {
                    use_type_invariant(&vacant);
                }
                vacant.insert(value);
                None
            },
            Entry::Occupied(mut occupied) => Some(occupied.insert(value)),
        }
    }

    /// Takes the value out of the entry, if it is occupied, and leaves the
    /// place vacant.
    pub fn take(self) -> (r: Option<T>)
        ensures
            (self is Occupied) == old(self.target()).has_at(self.key()),
            r == old(self.target()).value_at::<T>(self.key()),
            r matches Some(value) ==> old(self.target()).agrees_at(self.key(), value),
            final(self.target()).is_without_at(*old(self.target()), self.key()),
            !final(self.target()).has_at(self.key()),
    {
        match self {
            Entry::Vacant(vacant) => {
                proof {
                    use_type_invariant(&vacant);
                    assert(vacant.target()@.remove(vacant.key()) =~= vacant.target()@);
                }
                None
            },
            Entry::Occupied(occupied) => Some(occupied.remove()),
        }
    }
}

impl<'a, T: Default + Send + Sync + 'static> Entry<'a, T> {
    /// Ensures a value is in the Entry by inserting the default value if vacant, and returns a
    /// mutable reference to the value.
    ///
    /// Equivalent to `.or_insert_with(Default::default)`
    pub fn or_default(self) -> (r: &'a mut T)
        ensures
            (self is Occupied) == old(self.target()).has_at(self.key()),
            match old(self.target()).value_at::<T>(self.key()) {
                Some(value) => *r == value,
                None => call_ensures(T::default, (), *r),
            },
            old(self.target()).agrees_at(self.key(), *r),
            final(self.target()).is_with_at(*old(self.target()), self.key(), *final(r)),
    {
        self.or_insert_with(T::default)
    }
}

impl<'a, T: Send + Sync + 'static> VacantEntry<'a, T> {
    #[verifier::type_invariant]
    spec fn well_formed(&self) -> bool {
        !has_key(self.set.slots@, self.key.id())
    }

    /// The set that this entry borrows.
    pub closed spec fn target(self) -> &'a mut TypeSet {
        self.set
    }

    /// The key whose place this entry views.
    pub closed spec fn key(self) -> TypeId {
        self.key.id()
    }

    /// Once the entry is done with, the set is as the entry last saw it.
    pub proof fn lemma_released(self)
        requires
            has_resolved(self),
        ensures
            *final(self.target()) == *self.target(),
    {
    }

    /// Sets the value of this entry to the provided `value`
    pub fn insert(self, value: T) -> (r: &'a mut T)
        ensures
            *r == value,
            !old(self.target()).has_at(self.key()),
            final(self.target()).is_with_at(*old(self.target()), self.key(), *final(r)),
    {
        proof {
            use_type_invariant(&self);
        }
        let VacantEntry { set, key } = self;
        proof {
            use_type_invariant(&*set);
        }
        let ghost before = set@;
        let id = key.type_id();
        let mut slots: Vec<Slot> = Vec::new();
        std::mem::swap(&mut slots, &mut set.slots);
        let slot = Slot { key: id, value: Value::new(value, &key) };
        proof {
            lemma_map_of_push(slots@, slot);
        }
        slots.push(slot);
        let last = slots.len() - 1;
        std::mem::swap(&mut slots, &mut set.slots);
        proof {
            lemma_cell_changed::<T>(set.slots@, last as int);
            assert forall|cell: Erased| #[trigger]
                before.insert(id, slot.value.erased()).insert(id, cell) == before.insert(
                    id,
                    cell,
                ) by {
                assert(before.insert(id, slot.value.erased()).insert(id, cell) =~= before.insert(
                    id,
                    cell,
                ));
            }
        }
        cell_mut::<T>(&mut set.slots, last, &key)
    }
}

impl<'a, T: Send + Sync + 'static> OccupiedEntry<'a, T> {
    #[verifier::type_invariant]
    spec fn well_formed(&self) -> bool {
        &&& self.index < self.set.slots@.len()
        &&& self.set.slots@[self.index as int].key == self.key.id()
    }

    /// The set that this entry borrows.
    pub closed spec fn target(self) -> &'a mut TypeSet {
        self.set
    }

    /// The key whose place this entry views.
    pub closed spec fn key(self) -> TypeId {
        self.key.id()
    }

    /// Once the entry is done with, the set is as the entry last saw it.
    pub proof fn lemma_released(self)
        requires
            has_resolved(self),
        ensures
            *final(self.target()) == *self.target(),
    {
    }

    /// Gets a reference to the value in this entry
    pub fn get(&self) -> (r: &T)
        ensures
            self.target().has_at(self.key()),
            self.target().agrees_at(self.key(), *r),
    {
        proof {
            use_type_invariant(self);
            use_type_invariant(&*self.set);
            lemma_map_of_slot(self.set.slots@, self.index as int);
        }
        match self.set.slots[self.index].value.downcast_ref::<T>(&self.key) {
            Some(value) => value,
            None => unreached(),
        }
    }

    /// Gets a mutable reference to the value in the entry
    ///
    /// If you need a reference that may outlive the entry, see
    /// [`OccupiedEntry::into_mut`].
    pub fn get_mut(&mut self) -> (r: &mut T)
        ensures
            old(self).target().has_at(old(self).key()),
            old(self).target().agrees_at(old(self).key(), *r),
            final(self).key() == old(self).key(),
            final(self).target().is_with_at(*old(self).target(), old(self).key(), *final(r)),
            *final(final(self).target()) == *final(old(self).target()),
    {
        proof {
            use_type_invariant(&*self);
            use_type_invariant(&*self.set);
            lemma_map_of_slot(self.set.slots@, self.index as int);
            lemma_cell_changed::<T>(self.set.slots@, self.index as int);
        }
        cell_mut::<T>(&mut self.set.slots, self.index, &self.key)
    }

    /// Sets the value of the entry to `value`, returning the entry's previous value.
    pub fn insert(&mut self, value: T) -> (previous: T)
        ensures
            old(self).target().has_at(old(self).key()),
            old(self).target().agrees_at(old(self).key(), previous),
            final(self).key() == old(self).key(),
            final(self).target().is_with_at(*old(self).target(), old(self).key(), value),
            *final(final(self).target()) == *final(old(self).target()),
    {
        let mut value = value;
        let place = self.get_mut();
        std::mem::swap(place, &mut value);
        value
    }

    /// Take ownership of the value from this Entry
    pub fn remove(self) -> (r: T)
        ensures
            old(self.target()).has_at(self.key()),
            old(self.target()).agrees_at(self.key(), r),
            final(self.target()).is_without_at(*old(self.target()), self.key()),
            !final(self.target()).has_at(self.key()),
    {
        proof {
            use_type_invariant(&self);
        }
        let OccupiedEntry { set, index, key } = self;
        proof {
            use_type_invariant(&*set);
            lemma_map_of_slot(set.slots@, index as int);
            lemma_map_of_swap_remove(set.slots@, index as int);
            lemma_filed_swap_remove(set.slots@, index as int);
        }
        let mut slots: Vec<Slot> = Vec::new();
        std::mem::swap(&mut slots, &mut set.slots);
        let slot = slots.swap_remove(index);
        std::mem::swap(&mut slots, &mut set.slots);
        match slot.value.downcast::<T>(&key) {
            Some(value) => value,
            None => unreached(),
        }
    }

    /// Converts the entry into a mutable reference to its value.
    ///
    /// If you need multiple references to the `OccupiedEntry`, see [`OccupiedEntry::get_mut`].
    pub fn into_mut(self) -> (r: &'a mut T)
        ensures
            old(self.target()).has_at(self.key()),
            old(self.target()).agrees_at(self.key(), *r),
            final(self.target()).is_with_at(*old(self.target()), self.key(), *final(r)),
    {
        proof {
            use_type_invariant(&self);
        }
        let OccupiedEntry { set, index, key } = self;
        proof {
            use_type_invariant(&*set);
            lemma_map_of_slot(set.slots@, index as int);
            lemma_cell_changed::<T>(set.slots@, index as int);
        }
        cell_mut::<T>(&mut set.slots, index, &key)
    }
}

impl<'a, T: Send + Sync + 'static> Deref for OccupiedEntry<'a, T> {
    type Target = T;

    /// An occupied entry reads as the value it views.
    fn deref(&self) -> (r: &T)
        ensures
            self.target().has_at(self.key()),
            self.target().agrees_at(self.key(), *r),
    {
        self.get()
    }
}

impl<'a, T: Send + Sync + 'static> DerefMut for OccupiedEntry<'a, T> {
    /// An occupied entry writes as the value it views.
    fn deref_mut(&mut self) -> (r: &mut T)
        ensures
            old(self).target().has_at(old(self).key()),
            old(self).target().agrees_at(old(self).key(), *r),
            final(self).key() == old(self).key(),
            final(self).target().is_with_at(*old(self).target(), old(self).key(), *final(r)),
            *final(final(self).target()) == *final(old(self).target()),
    {
        self.get_mut()
    }
}

} // verus!
