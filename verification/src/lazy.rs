//! Deferred components.
//!
//! A `Lazy<T>` stands for a component of type `T` that is read from the
//! container only when it is first asked for. It can therefore be
//! constructed before `T`, which breaks a cycle of dependencies.

use crate::component_meta::ComponentMeta;
use crate::error::{ErrorView, InjectError};
use crate::injector::{got, misses, Injector};
use crate::named::{generic_label, Named};
use crate::registry::copied;
use crate::type_key::{is_key_of, key_of};
use std::any::TypeId;
use std::sync::Arc;
use vstd::prelude::*;

verus! {

/// A component of type `T` that is read when it is first asked for.
///
/// It holds a shared `once_cell::sync::Lazy` whose initialiser is a boxed
/// closure, a type that the verifier does not take; so nothing is known of
/// what is inside. A clone shares the cell with the value it was cloned
/// from.
#[verifier::external_body]
#[verifier::reject_recursive_types(T)]
pub struct Lazy<T> {
    cell: Arc<
        once_cell::sync::Lazy<
            Result<T, InjectError>,
            Box<dyn FnOnce() -> Result<T, InjectError>>,
        >,
    >,
}

impl<T: Named + Clone + 'static> Lazy<T> {
    /// Calls `once_cell::sync::Lazy::new` with a closure that reads the
    /// component of type `T` from `injector`. The closure is not run here,
    /// and nothing is stated of the result.
    #[verifier::external_body]
    fn defer(injector: Injector) -> (deferred: Lazy<T>) {
        let read: Box<dyn FnOnce() -> Result<T, InjectError>> = Box::new(
            move || injector.get::<T>(),
        );
        Lazy { cell: Arc::new(once_cell::sync::Lazy::new(read)) }
    }

    /// Calls `once_cell::sync::Lazy::force`, which runs the closure the
    /// first time and keeps what it gave, and hands out what is kept.
    ///
    /// The closure of every `Lazy<T>` is the one that `defer` writes: a
    /// call of `Injector::get` for `T` on the container that it was given.
    /// The contract claims that what is kept is what that call gave, on
    /// some container.
    #[verifier::external_body]
    fn evaluate(&self) -> (kept: &Result<T, InjectError>)
        ensures
            exists|injector: &Injector| #[trigger] got::<T>(injector, *kept),
    {
        once_cell::sync::Lazy::force(&self.cell)
    }

    /// The component, read from the container at the first call and kept
    /// for the later ones; or the failure of that reading, which is that
    /// the value of type `T` is missing. What is handed back is a copy of
    /// what is kept: a clone of the value that `Injector::get` gave, or a
    /// failure that holds what its failure holds.
    pub fn force(&self) -> (answer: Result<T, InjectError>)
        ensures
            answer matches Err(error) ==> error@ is MissingValue,
            match answer {
                Ok(copy) => copied(copy) && exists|injector: &Injector, value: T|
                    #[trigger] got::<T>(injector, Ok::<T, InjectError>(value)) && call_ensures(
                        T::clone,
                        (&value,),
                        copy,
                    ),
                Err(error) => misses::<T>(error) && exists|injector: &Injector, kept: InjectError|
                    #[trigger] got::<T>(injector, Err::<T, InjectError>(kept)) && error@ == kept@,
            },
    {
        let kept = self.evaluate();
        let answer = hand_out(kept);
        proof {
            let injector = choose|injector: &Injector| #[trigger] got::<T>(injector, *kept);
            if *kept is Ok {
                assert(got::<T>(injector, Ok::<T, InjectError>(kept->Ok_0)));
            } else {
                let error = kept->Err_0;
                assert(got::<T>(injector, Err::<T, InjectError>(error)));
                let label = choose|label: String|
                    call_ensures(T::type_label, (), label) && error@
                        == (ErrorView::MissingValue { name: label@ });
                assert(misses::<T>(answer->Err_0));
            }
        }
        answer
    }
}

/// A copy of what a deferred component keeps: a clone of the value, or a
/// failure that holds what the kept failure holds.
pub fn hand_out<T: Clone>(kept: &Result<T, InjectError>) -> (answer: Result<T, InjectError>)
    ensures
        match *kept {
            Ok(value) => answer matches Ok(copy) && call_ensures(T::clone, (&value,), copy),
            Err(error) => answer matches Err(copy) && copy@ == error@,
        },
{
    match kept {
        Ok(value) => {
            let copy = value.clone();
            assert(call_ensures(T::clone, (value,), copy));
            Ok(copy)
        },
        Err(error) => Err(error.clone()),
    }
}

impl<T> Clone for Lazy<T> {
    /// Calls `Arc::clone`: the clone shares the cell. Nothing is stated of
    /// it.
    #[verifier::external_body]
    fn clone(&self) -> Self {
        Lazy { cell: self.cell.clone() }
    }
}

impl<T: Named + Clone + 'static> ComponentMeta for Lazy<T> {
    fn inject(injector: &Injector) -> (made: Result<Self, InjectError>)
        ensures
            made is Ok,
    {
        Ok(Lazy::defer(injector.clone()))
    }

    fn debug_line() -> (site: Option<String>)
        ensures
            site is None,
    {
        None
    }

    fn dependencies_names() -> (pairs: Vec<(TypeId, String)>)
        ensures
            pairs@.len() == 1,
            is_key_of::<T>(pairs@[0].0),
            call_ensures(T::type_label, (), pairs@[0].1),
    {
        let mut pairs: Vec<(TypeId, String)> = Vec::new();
        pairs.push((key_of::<T>(), T::type_label()));
        pairs
    }

    fn lazy() -> (deferred: bool)
        ensures
            deferred,
    {
        true
    }
}

impl<T: Named> Named for Lazy<T> {
    fn type_label() -> (label: String)
        ensures
            exists|inner: String|
                call_ensures(T::type_label, (), inner) && label@ == "mydi::lazy::Lazy"@ + "<"@
                    + inner@ + ">"@,
    {
        generic_label("mydi::lazy::Lazy", T::type_label())
    }
}

} // verus!
