//! The finished container.
//!
//! An `Injector` is a handle on a registry behind a reader-writer lock. It
//! is shared by cloning: every clone reads and fills the same registry.

use crate::collections::KeyMap;
use crate::error::{ErrorView, InjectError};
use crate::named::Named;
use crate::registry::{copied, looked_up, OpaqueValue, Registry};
use crate::tuples::TupleInjectTypes;
use crate::type_key::{is_key_of, key_of};
use parking_lot::RawRwLock;
use parking_lot::RwLock;
use std::any::TypeId;
use std::sync::Arc;
use vstd::prelude::*;

verus! {

/// `lock_api::RwLock`, the lock that `parking_lot::RwLock` names.
#[verifier::external_type_specification]
#[verifier::external_body]
#[verifier::reject_recursive_types(R)]
#[verifier::reject_recursive_types(T)]
pub struct ExRwLock<R, T: ?Sized>(parking_lot::lock_api::RwLock<R, T>);

/// `parking_lot::RawRwLock`, the state of such a lock.
#[verifier::external_type_specification]
#[verifier::external_body]
pub struct ExRawRwLock(RawRwLock);

/// Calls `RwLock::new`, which makes an unlocked lock around `registry`.
/// Nothing is stated of the lock.
#[verifier::external_body]
fn new_lock(registry: Registry) -> (lock: RwLock<Registry>) {
    RwLock::new(registry)
}

/// Calls `RwLock::read` and runs `reader` on the registry while the lock
/// is held for reading.
///
/// What the registry holds at that moment is not known: the contract says
/// that the result is one that `reader` gives on some registry.
#[verifier::external_body]
fn with_read<R, F: FnOnce(&Registry) -> R>(lock: &RwLock<Registry>, reader: F) -> (result: R)
    requires
        forall|registry: &Registry| call_requires(reader, (registry,)),
    ensures
        exists|registry: &Registry| call_ensures(reader, (registry,), result),
{
    reader(&*lock.read())
}

/// Calls `RwLock::write` and runs `writer` on the registry while the lock
/// is held for writing.
///
/// What the registry holds before and after is not known here, as other
/// handles may write as well: the contract says that the result is one
/// that `writer` gives on some registry.
#[verifier::external_body]
fn with_write<R, F: FnOnce(&mut Registry) -> R>(lock: &RwLock<Registry>, writer: F) -> (result: R)
    requires
        forall|registry: &mut Registry| call_requires(writer, (registry,)),
    ensures
        exists|registry: &mut Registry| call_ensures(writer, (registry,), result),
{
    writer(&mut *lock.write())
}

/// Whether `error` says that the value of type `X` is missing.
pub open spec fn misses<X: Named>(error: InjectError) -> bool {
    exists|label: String|
        call_ensures(X::type_label, (), label) && error@ == (ErrorView::MissingValue {
            name: label@,
        })
}

/// Whether `answer` is what `Injector::get` may give for the type `X` on
/// `injector`.
pub open spec fn got<X: Named + Clone + 'static>(
    injector: &Injector,
    answer: Result<X, InjectError>,
) -> bool {
    call_ensures(Injector::get::<X>, (injector,), answer)
}

/// A shared handle on the registry of constructed components.
#[derive(Clone)]
pub struct Injector {
    values: Arc<RwLock<Registry>>,
}

impl Injector {
    /// A container that holds `values`.
    pub(crate) fn new(values: KeyMap<OpaqueValue>) -> Injector {
        Injector { values: Arc::new(new_lock(Registry::new(values))) }
    }

    /// Takes in what a constructor made for `key`: a value is put under
    /// `key` in the registry, and a failure is handed back as it is.
    pub(crate) fn store(&self, key: TypeId, made: Result<OpaqueValue, InjectError>) -> (done: Result<
        (),
        InjectError,
    >)
        ensures
            match made {
                Ok(_) => done is Ok,
                Err(error) => done == Err::<(), InjectError>(error),
            },
    {
        let writer = move |registry: &mut Registry| -> (done: Result<(), InjectError>)
            ensures
                match made {
                    Ok(_) => done is Ok,
                    Err(error) => done == Err::<(), InjectError>(error),
                },
            { registry.store(key, made) };
        with_write(&self.values, writer)
    }

    /// A copy of the component under `key`, as a value of type `X`; `label`
    /// is how the type is called if the component is missing.
    ///
    /// The answer is what a lookup gives on what the registry holds at
    /// that moment: a clone of the value of type `X` that is hidden under
    /// `key`, or the failure that the value is missing, where no such
    /// value is hidden there.
    pub fn get_keyed<X: Clone + 'static>(&self, key: TypeId, label: String) -> (answer: Result<
        X,
        InjectError,
    >)
        ensures
            match answer {
                Ok(copy) => copied(copy),
                Err(error) => error@ == (ErrorView::MissingValue { name: label@ }),
            },
            exists|held: Map<TypeId, OpaqueValue>| #[trigger] looked_up(held, key, label@, answer),
    {
        let ghost called = label@;
        let reader = move |registry: &Registry| -> (answer: Result<X, InjectError>)
            ensures
                match answer {
                    Ok(copy) => copied(copy),
                    Err(error) => error@ == (ErrorView::MissingValue { name: called }),
                },
                looked_up(registry@, key, called, answer),
            {
                registry.lookup::<X>(&key, label)
            };
        let answer = with_read(&self.values, reader);
        proof {
            let registry = choose|registry: &Registry| call_ensures(reader, (registry,), answer);
            assert(looked_up(registry@, key, called, answer));
        }
        answer
    }

    /// A copy of the component of type `X`.
    ///
    /// The answer is what a lookup under the key of `X` gives on what the
    /// registry holds at that moment: a clone of the value of type `X`
    /// that is hidden there, or, where none is, the failure that the value
    /// of type `X` is missing. The call fails in no other way.
    pub fn get<X: Named + Clone + 'static>(&self) -> (answer: Result<X, InjectError>)
        ensures
            answer matches Err(error) ==> error@ is MissingValue,
            match answer {
                Ok(copy) => copied(copy),
                Err(error) => misses::<X>(error),
            },
            exists|held: Map<TypeId, OpaqueValue>, key: TypeId, label: String|
                is_key_of::<X>(key) && call_ensures(X::type_label, (), label) && #[trigger] looked_up(
                    held,
                    key,
                    label@,
                    answer,
                ),
    {
        let key = key_of::<X>();
        let label = X::type_label();
        let ghost called = label;
        let answer = self.get_keyed::<X>(key, label);
        proof {
            let held = choose|held: Map<TypeId, OpaqueValue>| #[trigger]
                looked_up(held, key, called@, answer);
            assert(is_key_of::<X>(key) && call_ensures(X::type_label, (), called) && looked_up(
                held,
                key,
                called@,
                answer,
            ));
        }
        answer
    }

    /// Copies of the components of the types of a tuple: what the tuple
    /// reads from this container.
    pub fn get_tuple<Tuple: TupleInjectTypes>(&self) -> (answer: Result<Tuple, InjectError>)
        ensures
            answer matches Err(error) ==> error@ is MissingValue,
            call_ensures(Tuple::read_from_injector, (self,), answer),
    {
        Tuple::read_from_injector(self)
    }
}

} // verus!
