//! Constructors as the binder keeps them.
//!
//! Each registered constructor makes a value of its own type. The binder
//! keeps them all in one list, so each is kept as a `Build`, which hands
//! its value back without its type.

use crate::error::InjectError;
use crate::injector::Injector;
use crate::registry::{erase, erased, OpaqueValue};
use std::marker::PhantomData;
use vstd::prelude::*;

verus! {

/// Something that constructs a component from what the container holds.
pub(crate) trait Build {
    /// Whether the constructor, run on `injector`, may hand back `made`.
    spec fn gives(&self, injector: &Injector, made: Result<OpaqueValue, InjectError>) -> bool;

    /// Constructs the component, or says why it cannot.
    fn build(&self, injector: &Injector) -> (made: Result<OpaqueValue, InjectError>)
        ensures
            self.gives(injector, made),
    ;
}

/// A function that constructs a component of type `X`.
#[verifier::reject_recursive_types(X)]
pub(crate) struct FnBuild<X: 'static, F: Fn(&Injector) -> Result<X, InjectError>> {
    construct: F,
    _component: PhantomData<X>,
}

impl<X: 'static, F: Fn(&Injector) -> Result<X, InjectError>> FnBuild<X, F> {
    /// The function may be called on every container.
    #[verifier::type_invariant]
    spec fn callable(self) -> bool {
        forall|injector: &Injector| call_requires(self.construct, (injector,))
    }

    /// The function that is kept.
    pub(crate) closed spec fn constructor(&self) -> F {
        self.construct
    }

    /// Keeps `construct` as a constructor.
    pub(crate) fn new(construct: F) -> (builder: Self)
        requires
            forall|injector: &Injector| call_requires(construct, (injector,)),
        ensures
            builder.constructor() == construct,
    {
        FnBuild { construct, _component: PhantomData }
    }
}

impl<X: 'static, F: Fn(&Injector) -> Result<X, InjectError>> Build for FnBuild<X, F> {
    /// What the function gives: where it is a value, that very value
    /// hidden behind `dyn Any`; where it is a failure, the failure as it
    /// is.
    open spec fn gives(&self, injector: &Injector, made: Result<OpaqueValue, InjectError>) -> bool {
        match made {
            Ok(stored) => exists|value: X|
                #[trigger] call_ensures(
                    self.constructor(),
                    (injector,),
                    Ok::<X, InjectError>(value),
                ) && erased(value, stored),
            Err(error) => call_ensures(
                self.constructor(),
                (injector,),
                Err::<X, InjectError>(error),
            ),
        }
    }

    fn build(&self, injector: &Injector) -> (made: Result<OpaqueValue, InjectError>) {
        proof {
            use_type_invariant(self);
        }
        match (self.construct)(injector) {
            Ok(value) => {
                assert(call_ensures(
                    self.constructor(),
                    (injector,),
                    Ok::<X, InjectError>(value),
                ));
                let stored = erase(value);
                assert(erased(value, stored));
                Ok(stored)
            },
            Err(error) => Err(error),
        }
    }
}

} // verus!
