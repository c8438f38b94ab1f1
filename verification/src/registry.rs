//! The store of constructed components.
//!
//! A `Registry` maps the key of a type to a value of that type. The values
//! are of any type, so each is kept behind `dyn Any` and is turned back
//! into its type when it is read.

use crate::collections::KeyMap;
use crate::error::{ErrorView, InjectError};
use std::any::Any;
use std::any::TypeId;
use vstd::prelude::*;

verus! {

/// A value of some type that is known only when the program runs.
///
/// It holds a `Box<dyn Any>`, a type that the verifier does not take; so
/// nothing is known of what is inside.
#[verifier::external_body]
pub struct OpaqueValue {
    inner: Box<dyn Any>,
}

impl OpaqueValue {
    /// Calls `Box::new` and keeps the box as `dyn Any`. Nothing is stated
    /// of the result.
    #[verifier::external_body]
    pub(crate) fn new<X: 'static>(value: X) -> (erased: OpaqueValue) {
        OpaqueValue { inner: Box::new(value) }
    }

    /// Calls `<dyn Any>::downcast_ref`, which gives the value in the box
    /// back if it is of type `X`, and nothing otherwise.
    ///
    /// The contract claims both ways of it: a box that hides a value of
    /// type `X` gives that value back, and a value that is given back is
    /// the value that the box hides.
    #[verifier::external_body]
    pub(crate) fn downcast_ref<X: 'static>(&self) -> (value: Option<&X>)
        ensures
            forall|x: X| #[trigger] erased(x, *self) ==> value == Some(&x),
            value matches Some(held) ==> erased(*held, *self),
    {
        self.inner.downcast_ref::<X>()
    }
}

/// Whether `value` is what hiding `x` behind `dyn Any` gives.
pub closed spec fn erased<X: 'static>(x: X, value: OpaqueValue) -> bool {
    call_ensures(OpaqueValue::new::<X>, (x,), value)
}

/// Hides `x` behind `dyn Any`.
pub fn erase<X: 'static>(x: X) -> (value: OpaqueValue)
    ensures
        erased(x, value),
{
    let value = OpaqueValue::new(x);
    assert(call_ensures(OpaqueValue::new::<X>, (x,), value));
    value
}

/// Whether `copy` is what cloning a value of its type gives.
pub open spec fn copied<X: Clone>(copy: X) -> bool {
    exists|inner: X| call_ensures(X::clone, (&inner,), copy)
}

/// What a lookup answers once the registry has been searched: the value
/// that was found, or that a value of the type called `label` is missing.
pub fn value_or_missing<X>(found: Option<X>, label: String) -> (answer: Result<X, InjectError>)
    ensures
        match found {
            Some(value) => answer == Ok::<X, InjectError>(value),
            None => answer matches Err(error) && error@ == (ErrorView::MissingValue {
                name: label@,
            }),
        },
{
    match found {
        Some(value) => Ok(value),
        None => Err(InjectError::MissingValue { name: label }),
    }
}

/// Whether `answer` is what looking up `key`, as a value of type `X`, gives
/// where the components are `held`: a clone of the value of type `X` that
/// is hidden under `key`, or, where no such value is hidden there, the
/// failure that the value called `label` is missing.
pub open spec fn looked_up<X: Clone + 'static>(
    held: Map<TypeId, OpaqueValue>,
    key: TypeId,
    label: Seq<char>,
    answer: Result<X, InjectError>,
) -> bool {
    match answer {
        Ok(copy) => {
            &&& held.contains_key(key)
            &&& exists|inner: X| #[trigger] erased(inner, held[key])
            &&& forall|inner: X| #[trigger]
                erased(inner, held[key]) ==> call_ensures(X::clone, (&inner,), copy)
        },
        Err(error) => error@ == (ErrorView::MissingValue { name: label }) && !(held.contains_key(
            key,
        ) && exists|inner: X| #[trigger] erased(inner, held[key])),
    }
}

/// What is put under a key is what a lookup of that key finds: where `x`
/// was hidden in `item` and `item` put under `key`, a lookup of `key` as a
/// value of the type of `x` answers with a clone of `x`.
pub proof fn lemma_stored_is_found<X: Clone + 'static>(
    held: Map<TypeId, OpaqueValue>,
    key: TypeId,
    x: X,
    item: OpaqueValue,
    label: Seq<char>,
    answer: Result<X, InjectError>,
)
    requires
        erased(x, item),
        looked_up(held.insert(key, item), key, label, answer),
    ensures
        answer matches Ok(copy) && call_ensures(X::clone, (&x,), copy),
{
    assert(held.insert(key, item)[key] == item);
}

/// A lookup of a key under which nothing is held fails, and the failure
/// is that the value is missing.
pub proof fn lemma_unheld_is_missing<X: Clone + 'static>(
    held: Map<TypeId, OpaqueValue>,
    key: TypeId,
    label: Seq<char>,
    answer: Result<X, InjectError>,
)
    requires
        !held.contains_key(key),
        looked_up(held, key, label, answer),
    ensures
        answer matches Err(error) && error@ == (ErrorView::MissingValue { name: label }),
{
}

/// What is put under one key does not change what a lookup of another key
/// finds.
pub proof fn lemma_other_keys_keep<X: Clone + 'static>(
    held: Map<TypeId, OpaqueValue>,
    key: TypeId,
    item: OpaqueValue,
    other: TypeId,
    label: Seq<char>,
    answer: Result<X, InjectError>,
)
    requires
        other != key,
    ensures
        looked_up(held.insert(key, item), other, label, answer) == looked_up(
            held,
            other,
            label,
            answer,
        ),
{
    assert(held.insert(key, item).contains_key(other) == held.contains_key(other));
    if held.contains_key(other) {
        assert(held.insert(key, item)[other] == held[other]);
    }
}

/// The constructed components, each under the key of its type.
pub struct Registry {
    values: KeyMap<OpaqueValue>,
}

impl View for Registry {
    type V = Map<TypeId, OpaqueValue>;

    closed spec fn view(&self) -> Map<TypeId, OpaqueValue> {
        self.values@
    }
}

impl Registry {
    /// A registry that holds `values`.
    pub fn new(values: KeyMap<OpaqueValue>) -> (registry: Registry)
        ensures
            registry@ == values@,
    {
        Registry { values }
    }

    /// Puts `value` under `key`, in place of what stood there. Nothing
    /// else changes, and nothing is ever removed.
    pub fn insert(&mut self, key: TypeId, value: OpaqueValue)
        ensures
            final(self)@ == old(self)@.insert(key, value),
    {
        self.values.insert(key, value);
    }

    /// Takes in what a constructor made for `key`. A value is put under
    /// `key`, in place of what stood there, and nothing else changes; a
    /// failure is handed back as it is, and nothing changes at all.
    pub fn store(&mut self, key: TypeId, made: Result<OpaqueValue, InjectError>) -> (done: Result<
        (),
        InjectError,
    >)
        ensures
            match made {
                Ok(item) => done is Ok && final(self)@ == old(self)@.insert(key, item),
                Err(error) => done == Err::<(), InjectError>(error) && final(self)@ == old(self)@,
            },
    {
        match made {
            Ok(item) => {
                self.insert(key, item);
                Ok(())
            },
            Err(error) => Err(error),
        }
    }

    /// Whether a value stands under `key`.
    pub fn contains(&self, key: &TypeId) -> (found: bool)
        ensures
            found == self@.contains_key(*key),
    {
        self.values.contains_key(key)
    }

    /// A copy of the value under `key`, as a value of type `X`.
    ///
    /// Where what stands under `key` hides a value of type `X`, the answer
    /// is a clone of that value. Where nothing stands under `key` the
    /// answer is that the value is missing, and so it is where what stands
    /// there is not of type `X`. No other failure occurs, and nothing is
    /// made up: a value that is handed back is a clone of the one that is
    /// hidden under `key`.
    pub fn lookup<X: Clone + 'static>(&self, key: &TypeId, label: String) -> (answer: Result<
        X,
        InjectError,
    >)
        ensures
            !self@.contains_key(*key) ==> answer is Err,
            forall|x: X|
                self@.contains_key(*key) && #[trigger] erased(x, self@[*key]) ==> (answer matches Ok(
                    copy,
                ) && call_ensures(X::clone, (&x,), copy)),
            match answer {
                Ok(copy) => self@.contains_key(*key) && copied(copy) && exists|held: X|
                    #[trigger] erased(held, self@[*key]) && call_ensures(X::clone, (&held,), copy),
                Err(error) => error@ == (ErrorView::MissingValue { name: label@ }),
            },
            looked_up(self@, *key, label@, answer),
    {
        match self.values.get(key) {
            Some(stored) => match stored.downcast_ref::<X>() {
                Some(inner) => {
                    let copy = inner.clone();
                    assert(erased(*inner, self@[*key]) && call_ensures(
                        X::clone,
                        (inner,),
                        copy,
                    ));
                    value_or_missing(Some(copy), label)
                },
                None => value_or_missing(None, label),
            },
            None => value_or_missing(None, label),
        }
    }
}

} // verus!
