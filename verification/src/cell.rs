//! Erased value cells and type keys.
//!
//! A cell owns one value whose concrete type is hidden. In specifications an
//! erased value is a trait object of [`Storable`], obtained from a typed value
//! by [`erase`]; [`restore`] is the checked way back.
//!
//! std tells types apart more finely than Verus does: two types that differ
//! only in a lifetime under a `for` binder are one type to Verus and two to
//! std. So nothing here speaks of "the key of `T`". A [`Key`] is a value, made
//! once by [`key`], and every contract speaks of the key it was handed.
use std::any::Any;
use std::any::TypeId;
use std::marker::PhantomData;
use vstd::prelude::*;

verus! {

/// Marker for the values a set can store. Every `Send + Sync + 'static` type
/// has it, so `dyn Storable` stands for "a value of some storable type".
pub trait Storable: Send + Sync {

}

impl<T: Send + Sync + 'static> Storable for T {

}

/// An erased value as specifications see it: a value of some storable type,
/// with the type forgotten.
pub struct Erased {
    pub boxed: Box<dyn Storable>,
}

/// The erased form of `value`: the typed value seen as a trait object.
pub open spec fn erase<T: Send + Sync + 'static>(value: T) -> Erased {
    Erased { boxed: Box::new(value) }
}

/// Whether `cell` is the erased form of some value of type `T`.
pub open spec fn holds<T: Send + Sync + 'static>(cell: Erased) -> bool {
    exists|value: T| #![trigger erase(value)] erase(value) == cell
}

/// The value of type `T` that `cell` erases. Meaningful when `holds::<T>(cell)`.
pub open spec fn payload<T: Send + Sync + 'static>(cell: Erased) -> T
    recommends
        holds::<T>(cell),
{
    choose|value: T| #![trigger erase(value)] erase(value) == cell
}

/// The checked cast back to `T`: the payload when `cell` holds a `T`, nothing otherwise.
pub open spec fn restore<T: Send + Sync + 'static>(cell: Erased) -> Option<T> {
    if holds::<T>(cell) {
        Some(payload::<T>(cell))
    } else {
        None
    }
}

/// `std::any::TypeId`, the identity of a type. Opaque: only equality is used.
#[verifier::external_type_specification]
#[verifier::external_body]
pub struct ExTypeId(TypeId);

/// The identity of `T` as std sees it, as a value that remembers which type
/// it is the identity of.
///
/// Every `Key<T>` holds what `TypeId::of::<T>()` gives. That is kept by
/// construction, not proved: the fields are private, a key comes from [`key`]
/// or from another key of the same type, and it cannot pass for the key of
/// another type, not even of one that `T` could be coerced to, because the
/// marker makes `Key<T>` invariant in `T`. The contracts of the casts rest
/// on it.
pub struct Key<T: Send + Sync + 'static> {
    id: TypeId,
    marker: PhantomData<&'static mut T>,
}

impl<T: Send + Sync + 'static> Key<T> {
    /// The identity that the key holds.
    pub closed spec fn id(&self) -> TypeId {
        self.id
    }

    /// The identity that the key holds, as a value.
    pub fn type_id(&self) -> (id: TypeId)
        ensures
            id == self.id(),
    {
        self.id
    }

    /// Another key for the same type, with the same identity.
    pub fn duplicate(&self) -> (copy: Self)
        ensures
            copy.id() == self.id(),
    {
        Key { id: self.id, marker: PhantomData }
    }
}

/// Calls `TypeId::of::<T>()` and keeps the result as the key of `T`. Nothing
/// is promised of the identity itself, not even that two calls agree: Verus
/// reads some types as one that std tells apart.
#[verifier::external_body]
fn identify<T: Send + Sync + 'static>() -> (key: Key<T>) {
    Key { id: TypeId::of::<T>(), marker: PhantomData }
}

/// The key of `T`.
pub fn key<T: Send + Sync + 'static>() -> (key: Key<T>) {
    identify::<T>()
}

/// Calls `==` on two `TypeId`s. Trusted: std's equality on `TypeId` is
/// equality of the identities.
#[verifier::external_body]
pub(crate) fn same_key(a: &TypeId, b: &TypeId) -> (same: bool)
    ensures
        same == (*a == *b),
{
    a == b
}

/// An owned erased value: a `Box<dyn Any + Send + Sync>`. Verus cannot look
/// into a trait object of `Any`, so the box is opaque; [`content`] names what
/// it holds and [`identity`] names the type it holds it as.
#[verifier::external_body]
pub struct AnyBox {
    inner: Box<dyn Any + Send + Sync>,
}

/// The erased value that a box holds.
pub uninterp spec fn content(cell: AnyBox) -> Erased;

/// The identity of the concrete type of the value in a box: what
/// `Any::type_id` gives for it.
pub uninterp spec fn identity(cell: AnyBox) -> TypeId;

impl AnyBox {
    /// Calls `Box::new` and unsizes the box to `dyn Any`. Trusted: the box
    /// holds `value` as a `T`, so its identity is that of the key of `T`, and
    /// restoring it at `T` gives `value` back. The key is not consulted when
    /// the call runs; it stands for `T` in the contract.
    #[verifier::external_body]
    pub(crate) fn new<T: Send + Sync + 'static>(value: T, key: &Key<T>) -> (cell: AnyBox)
        ensures
            identity(cell) == key.id(),
            content(cell) == erase(value),
            restore::<T>(content(cell)) == Some(value),
    {
        AnyBox { inner: Box::new(value) }
    }

    /// Calls `<dyn Any>::downcast_ref`. Trusted: the cast succeeds exactly
    /// when the identity of the box is that of the key of `T`, and then the
    /// result is the value in the box.
    #[verifier::external_body]
    pub(crate) fn downcast_ref<T: Send + Sync + 'static>(&self, key: &Key<T>) -> (r: Option<&T>)
        ensures
            r is Some <==> identity(*self) == key.id(),
            r matches Some(value) ==> content(*self) == erase(*value) && restore::<T>(
                content(*self),
            ) == Some(*value),
    {
        self.inner.downcast_ref::<T>()
    }

    /// Calls `<dyn Any>::downcast_mut`. Trusted: the cast succeeds exactly
    /// when the identity of the box is that of the key of `T`; then the
    /// result is a borrow of the value in the box, whatever is written
    /// through it is what the box holds afterwards, still as a `T`; a failed
    /// cast leaves the box as it was; and the call never panics.
    #[verifier::external_body]
    pub(crate) fn downcast_mut<T: Send + Sync + 'static>(&mut self, key: &Key<T>) -> (r: Option<
        &mut T,
    >)
        ensures
            r is Some <==> identity(*old(self)) == key.id(),
            r matches Some(value) ==> {
                &&& content(*old(self)) == erase(*value)
                &&& restore::<T>(content(*old(self))) == Some(*value)
                &&& identity(*final(self)) == identity(*old(self))
                &&& content(*final(self)) == erase(*final(value))
                &&& restore::<T>(content(*final(self))) == Some(*final(value))
            },
            r is None ==> *final(self) == *old(self),
        no_unwind
    {
        self.inner.downcast_mut::<T>()
    }

    /// Calls `Box::<dyn Any + Send + Sync>::downcast`. Trusted: the cast
    /// succeeds exactly when the identity of the box is that of the key of
    /// `T`, and then the result is the value that was in the box.
    #[verifier::external_body]
    pub(crate) fn downcast<T: Send + Sync + 'static>(self, key: &Key<T>) -> (r: Option<T>)
        ensures
            r is Some <==> identity(self) == key.id(),
            r matches Some(value) ==> content(self) == erase(value) && restore::<T>(content(self))
                == Some(value),
    {
        match self.inner.downcast::<T>() {
            Ok(value) => Some(*value),
            Err(_) => None,
        }
    }
}

/// An erased value cell: it owns exactly one value of a hidden type.
pub struct Value {
    pub(crate) any: AnyBox,
}

impl Value {
    /// The erased value in the cell.
    pub closed spec fn erased(&self) -> Erased {
        content(self.any)
    }

    /// The identity of the type of the value in the cell.
    pub closed spec fn identity(&self) -> TypeId {
        identity(self.any)
    }

    /// A cell that holds `value`, a value of the type of `key`.
    pub fn new<T: Send + Sync + 'static>(value: T, key: &Key<T>) -> (cell: Self)
        ensures
            cell.identity() == key.id(),
            cell.erased() == erase(value),
            restore::<T>(cell.erased()) == Some(value),
    {
        Value { any: AnyBox::new(value, key) }
    }

    /// Borrows the value if the cell holds it as the type of `key`.
    pub fn downcast_ref<T: Send + Sync + 'static>(&self, key: &Key<T>) -> (r: Option<&T>)
        ensures
            r is Some <==> self.identity() == key.id(),
            r matches Some(value) ==> self.erased() == erase(*value) && restore::<T>(self.erased())
                == Some(*value),
    {
        self.any.downcast_ref::<T>(key)
    }

    /// Borrows the value mutably if the cell holds it as the type of `key`.
    /// What the caller leaves behind the borrow is what the cell holds
    /// afterwards.
    pub fn downcast_mut<T: Send + Sync + 'static>(&mut self, key: &Key<T>) -> (r: Option<&mut T>)
        ensures
            r is Some <==> old(self).identity() == key.id(),
            r matches Some(value) ==> {
                &&& old(self).erased() == erase(*value)
                &&& restore::<T>(old(self).erased()) == Some(*value)
                &&& final(self).identity() == old(self).identity()
                &&& final(self).erased() == erase(*final(value))
                &&& restore::<T>(final(self).erased()) == Some(*final(value))
            },
            r is None ==> *final(self) == *old(self),
        no_unwind
    {
        self.any.downcast_mut::<T>(key)
    }

    /// Moves the value out if the cell holds it as the type of `key`.
    pub fn downcast<T: Send + Sync + 'static>(self, key: &Key<T>) -> (r: Option<T>)
        ensures
            r is Some <==> self.identity() == key.id(),
            r matches Some(value) ==> self.erased() == erase(value) && restore::<T>(self.erased())
                == Some(value),
    {
        self.any.downcast::<T>(key)
    }
}

} // verus!
