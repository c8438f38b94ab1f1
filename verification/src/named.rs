//! The names under which types appear in diagnostics.
//!
//! The container reports failures by type. A type that takes part names
//! itself through `Named`; the names of the types of the standard library
//! that are used most are given here.

use std::marker::PhantomData;
use std::rc::Rc;
use std::sync::Arc;
use vstd::prelude::*;
use vstd::string::*;

verus! {

/// A type that can say how it is called.
pub trait Named {
    /// The name of the type, module path included.
    fn type_label() -> String;
}

/// A generic name: `name`, and `argument` in angle brackets.
pub fn generic_label(name: &str, argument: String) -> (label: String)
    ensures
        label@ == name@ + "<"@ + argument@ + ">"@,
{
    let mut label = String::new();
    label.append(name);
    label.append("<");
    label.append(argument.as_str());
    label.append(">");
    assert(label@ =~= name@ + "<"@ + argument@ + ">"@);
    label
}

impl Named for () {
    fn type_label() -> (label: String)
        ensures
            label@ == "()"@,
    {
        "()".to_owned()
    }
}

impl Named for bool {
    fn type_label() -> (label: String)
        ensures
            label@ == "bool"@,
    {
        "bool".to_owned()
    }
}

impl Named for char {
    fn type_label() -> (label: String)
        ensures
            label@ == "char"@,
    {
        "char".to_owned()
    }
}

impl Named for u8 {
    fn type_label() -> (label: String)
        ensures
            label@ == "u8"@,
    {
        "u8".to_owned()
    }
}

impl Named for u16 {
    fn type_label() -> (label: String)
        ensures
            label@ == "u16"@,
    {
        "u16".to_owned()
    }
}

impl Named for u32 {
    fn type_label() -> (label: String)
        ensures
            label@ == "u32"@,
    {
        "u32".to_owned()
    }
}

impl Named for u64 {
    fn type_label() -> (label: String)
        ensures
            label@ == "u64"@,
    {
        "u64".to_owned()
    }
}

impl Named for u128 {
    fn type_label() -> (label: String)
        ensures
            label@ == "u128"@,
    {
        "u128".to_owned()
    }
}

impl Named for usize {
    fn type_label() -> (label: String)
        ensures
            label@ == "usize"@,
    {
        "usize".to_owned()
    }
}

impl Named for i8 {
    fn type_label() -> (label: String)
        ensures
            label@ == "i8"@,
    {
        "i8".to_owned()
    }
}

impl Named for i16 {
    fn type_label() -> (label: String)
        ensures
            label@ == "i16"@,
    {
        "i16".to_owned()
    }
}

impl Named for i32 {
    fn type_label() -> (label: String)
        ensures
            label@ == "i32"@,
    {
        "i32".to_owned()
    }
}

impl Named for i64 {
    fn type_label() -> (label: String)
        ensures
            label@ == "i64"@,
    {
        "i64".to_owned()
    }
}

impl Named for i128 {
    fn type_label() -> (label: String)
        ensures
            label@ == "i128"@,
    {
        "i128".to_owned()
    }
}

impl Named for isize {
    fn type_label() -> (label: String)
        ensures
            label@ == "isize"@,
    {
        "isize".to_owned()
    }
}

impl Named for String {
    fn type_label() -> (label: String)
        ensures
            label@ == "alloc::string::String"@,
    {
        "alloc::string::String".to_owned()
    }
}

impl Named for &'static str {
    fn type_label() -> (label: String)
        ensures
            label@ == "&str"@,
    {
        "&str".to_owned()
    }
}

impl<T: Named + ?Sized> Named for Box<T> {
    fn type_label() -> (label: String)
        ensures
            exists|inner: String|
                call_ensures(T::type_label, (), inner) && label@ == "alloc::boxed::Box"@ + "<"@ + inner@
                    + ">"@,
    {
        generic_label("alloc::boxed::Box", T::type_label())
    }
}

impl<T: Named + ?Sized> Named for Rc<T> {
    fn type_label() -> (label: String)
        ensures
            exists|inner: String|
                call_ensures(T::type_label, (), inner) && label@ == "alloc::rc::Rc"@ + "<"@ + inner@
                    + ">"@,
    {
        generic_label("alloc::rc::Rc", T::type_label())
    }
}

impl<T: Named + ?Sized> Named for Arc<T> {
    fn type_label() -> (label: String)
        ensures
            exists|inner: String|
                call_ensures(T::type_label, (), inner) && label@ == "alloc::sync::Arc"@ + "<"@ + inner@
                    + ">"@,
    {
        generic_label("alloc::sync::Arc", T::type_label())
    }
}

impl<T: Named> Named for Option<T> {
    fn type_label() -> (label: String)
        ensures
            exists|inner: String|
                call_ensures(T::type_label, (), inner) && label@ == "core::option::Option"@ + "<"@ + inner@
                    + ">"@,
    {
        generic_label("core::option::Option", T::type_label())
    }
}

impl<T: Named> Named for Vec<T> {
    fn type_label() -> (label: String)
        ensures
            exists|inner: String|
                call_ensures(T::type_label, (), inner) && label@ == "alloc::vec::Vec"@ + "<"@ + inner@
                    + ">"@,
    {
        generic_label("alloc::vec::Vec", T::type_label())
    }
}

impl<T: Named + ?Sized> Named for PhantomData<T> {
    fn type_label() -> (label: String)
        ensures
            exists|inner: String|
                call_ensures(T::type_label, (), inner) && label@ == "core::marker::PhantomData"@ + "<"@ + inner@
                    + ">"@,
    {
        generic_label("core::marker::PhantomData", T::type_label())
    }
}

} // verus!
