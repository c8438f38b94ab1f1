//! Values with a tag.
//!
//! A tag in the type tells two components of one underlying type apart:
//! `Tagged<T, A>` and `Tagged<T, B>` have different keys.

use crate::component_meta::ComponentMeta;
use crate::error::InjectError;
use crate::injector::Injector;
use crate::named::Named;
use std::any::TypeId;
use std::marker::PhantomData;
use vstd::prelude::*;
use vstd::string::*;

verus! {

/// A value of type `T` that carries the tag `Tag` in its type.
pub struct Tagged<T, Tag> {
    x: T,
    _phantom: PhantomData<Tag>,
}

impl<T, Tag> View for Tagged<T, Tag> {
    type V = T;

    closed spec fn view(&self) -> T {
        self.x
    }
}

impl<T> Tagged<T, ()> {
    /// A value with the empty tag.
    pub fn pure(x: T) -> (tagged: Self)
        ensures
            tagged@ == x,
    {
        Tagged::new(x)
    }
}

impl<T, Tag> Tagged<T, Tag> {
    /// A value with the tag `Tag`.
    pub fn new(x: T) -> (tagged: Self)
        ensures
            tagged@ == x,
    {
        Self { x, _phantom: PhantomData }
    }

    /// The same value with another tag.
    pub fn tagged<NewTag>(self) -> (tagged: Tagged<T, NewTag>)
        ensures
            tagged@ == self@,
    {
        Tagged::new(self.x)
    }

    /// The value without its tag.
    pub fn untag(self) -> (x: T)
        ensures
            x == self@,
    {
        self.x
    }
}

impl<T: ComponentMeta, Tag> ComponentMeta for Tagged<T, Tag> {
    fn inject(injector: &Injector) -> (made: Result<Self, InjectError>)
        ensures
            match made {
                Ok(tagged) => call_ensures(T::inject, (injector,), Ok::<T, InjectError>(tagged@)),
                Err(error) => call_ensures(T::inject, (injector,), Err::<T, InjectError>(error)),
            },
    {
        match T::inject(injector) {
            Ok(res) => Ok(Self::new(res)),
            Err(error) => Err(error),
        }
    }

    fn debug_line() -> (site: Option<String>)
        ensures
            call_ensures(T::debug_line, (), site),
    {
        T::debug_line()
    }

    fn dependencies_names() -> (pairs: Vec<(TypeId, String)>)
        ensures
            call_ensures(T::dependencies_names, (), pairs),
    {
        T::dependencies_names()
    }
}

impl<T: Named, Tag: Named> Named for Tagged<T, Tag> {
    fn type_label() -> (label: String)
        ensures
            exists|value: String, tag: String|
                call_ensures(T::type_label, (), value) && call_ensures(Tag::type_label, (), tag)
                    && label@ == "mydi::tags::Tagged<"@ + value@ + ", "@ + tag@ + ">"@,
    {
        let value = T::type_label();
        let tag = Tag::type_label();
        let mut label = String::new();
        label.append("mydi::tags::Tagged<");
        label.append(value.as_str());
        label.append(", ");
        label.append(tag.as_str());
        label.append(">");
        assert(label@ =~= "mydi::tags::Tagged<"@ + value@ + ", "@ + tag@ + ">"@);
        label
    }
}

impl<T: Clone, Tag> Clone for Tagged<T, Tag> {
    fn clone(&self) -> (copy: Self)
        ensures
            call_ensures(T::clone, (&self@,), copy@),
    {
        Tagged::new(self.x.clone())
    }
}

impl<T, Tag> std::ops::Deref for Tagged<T, Tag> {
    type Target = T;

    fn deref(&self) -> (x: &T)
        ensures
            *x == self@,
    {
        &self.x
    }
}

} // verus!
