//! The identity of a component type.
//!
//! A component is known to the container by the `TypeId` of its type. The
//! container never looks inside a key: it only asks whether two keys are the
//! same one.

use std::any::TypeId;
use vstd::prelude::*;

verus! {

/// `std::any::TypeId`, carried through the container as an opaque value.
#[verifier::external_type_specification]
#[verifier::external_body]
pub struct ExTypeId(TypeId);

/// The key of the type `T`, as `TypeId::of` gives it.
///
/// Nothing is stated about the key: which key a type has is decided by the
/// compiler.
#[verifier::external_body]
fn type_key<T: 'static + ?Sized>() -> (key: TypeId) {
    TypeId::of::<T>()
}

/// Whether `key` is the key of the type `T`: one that `TypeId::of` gives
/// for it.
pub closed spec fn is_key_of<T: 'static + ?Sized>(key: TypeId) -> bool {
    call_ensures(type_key::<T>, (), key)
}

/// The key of the type `T`.
pub fn key_of<T: 'static + ?Sized>() -> (key: TypeId)
    ensures
        is_key_of::<T>(key),
{
    let key = type_key::<T>();
    assert(call_ensures(type_key::<T>, (), key));
    key
}

/// Compares two keys with `TypeId`'s own `==`.
///
/// The contract claims that this comparison holds exactly of equal keys.
#[verifier::external_body]
pub(crate) fn same_key(a: &TypeId, b: &TypeId) -> (same: bool)
    ensures
        same == (*a == *b),
{
    a == b
}

} // verus!
