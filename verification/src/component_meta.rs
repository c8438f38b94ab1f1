//! What a component tells the container about itself.

use crate::error::InjectError;
use crate::injector::Injector;
use std::any::TypeId;
use std::rc::Rc;
use std::sync::Arc;
use vstd::prelude::*;

verus! {

/// A type that the container can construct.
pub trait ComponentMeta: Sized {
    /// Constructs the component from what the container holds.
    fn inject(injector: &Injector) -> Result<Self, InjectError>;

    /// Where the component was declared, to help find it.
    fn debug_line() -> Option<String>;

    /// The key and the name of each type that the component needs.
    fn dependencies_names() -> Vec<(TypeId, String)>;

    /// Whether the component is deferred: it is resolved before what it
    /// needs, and reads it later.
    fn lazy() -> bool {
        false
    }
}

impl<Inner: ComponentMeta> ComponentMeta for Box<Inner> {
    fn inject(injector: &Injector) -> (made: Result<Self, InjectError>)
        ensures
            match made {
                Ok(wrapped) => call_ensures(
                    Inner::inject,
                    (injector,),
                    Ok::<Inner, InjectError>(*wrapped),
                ),
                Err(error) => call_ensures(
                    Inner::inject,
                    (injector,),
                    Err::<Inner, InjectError>(error),
                ),
            },
    {
        match Inner::inject(injector) {
            Ok(result) => Ok(Box::new(result)),
            Err(error) => Err(error),
        }
    }

    fn debug_line() -> (site: Option<String>)
        ensures
            call_ensures(Inner::debug_line, (), site),
    {
        Inner::debug_line()
    }

    fn dependencies_names() -> (pairs: Vec<(TypeId, String)>)
        ensures
            call_ensures(Inner::dependencies_names, (), pairs),
    {
        Inner::dependencies_names()
    }
}

impl<Inner: ComponentMeta> ComponentMeta for Rc<Inner> {
    fn inject(injector: &Injector) -> (made: Result<Self, InjectError>)
        ensures
            match made {
                Ok(wrapped) => call_ensures(
                    Inner::inject,
                    (injector,),
                    Ok::<Inner, InjectError>(*wrapped),
                ),
                Err(error) => call_ensures(
                    Inner::inject,
                    (injector,),
                    Err::<Inner, InjectError>(error),
                ),
            },
    {
        match Inner::inject(injector) {
            Ok(result) => Ok(Rc::new(result)),
            Err(error) => Err(error),
        }
    }

    fn debug_line() -> (site: Option<String>)
        ensures
            call_ensures(Inner::debug_line, (), site),
    {
        Inner::debug_line()
    }

    fn dependencies_names() -> (pairs: Vec<(TypeId, String)>)
        ensures
            call_ensures(Inner::dependencies_names, (), pairs),
    {
        Inner::dependencies_names()
    }
}

impl<Inner: ComponentMeta> ComponentMeta for Arc<Inner> {
    fn inject(injector: &Injector) -> (made: Result<Self, InjectError>)
        ensures
            match made {
                Ok(wrapped) => call_ensures(
                    Inner::inject,
                    (injector,),
                    Ok::<Inner, InjectError>(*wrapped),
                ),
                Err(error) => call_ensures(
                    Inner::inject,
                    (injector,),
                    Err::<Inner, InjectError>(error),
                ),
            },
    {
        match Inner::inject(injector) {
            Ok(result) => Ok(Arc::new(result)),
            Err(error) => Err(error),
        }
    }

    fn debug_line() -> (site: Option<String>)
        ensures
            call_ensures(Inner::debug_line, (), site),
    {
        Inner::debug_line()
    }

    fn dependencies_names() -> (pairs: Vec<(TypeId, String)>)
        ensures
            call_ensures(Inner::dependencies_names, (), pairs),
    {
        Inner::dependencies_names()
    }
}

} // verus!
