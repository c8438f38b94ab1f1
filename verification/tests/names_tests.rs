use mydi::error::{InjectError, MissingReport};
use mydi::named::{generic_label, Named};
use mydi::names::{join, make_name_shorter, trim};
use std::marker::PhantomData;
use std::rc::Rc;
use std::sync::Arc;

#[test]
fn short_name_drops_the_module_path() {
    assert_eq!(make_name_shorter("a::b::C", true), "C");
    assert_eq!(make_name_shorter("injection_tests::fail_on_cyclic_dep::CycleStart", true), "CycleStart");
}

#[test]
fn short_name_keeps_the_generic_arguments() {
    assert_eq!(make_name_shorter("a::b::C<d::E>", true), "C<d::E>");
    assert_eq!(
        make_name_shorter("alloc::boxed::Box<app::CycleStart>", true),
        "Box<app::CycleStart>"
    );
    assert_eq!(
        make_name_shorter("core::result::Result<a::B, c::D<e::F>>", true),
        "Result<a::B, c::D<e::F>>"
    );
}

#[test]
fn short_name_of_a_name_without_path_is_the_name() {
    assert_eq!(make_name_shorter("u32", true), "u32");
    assert_eq!(make_name_shorter("Vec<a::B>", true), "Vec<a::B>");
    assert_eq!(make_name_shorter("", true), "");
}

#[test]
fn long_name_is_kept_when_not_asked_to_shorten() {
    assert_eq!(make_name_shorter("a::b::C", false), "a::b::C");
    assert_eq!(make_name_shorter("", false), "");
}

#[test]
fn short_name_at_the_edges() {
    assert_eq!(make_name_shorter("a:", true), "");
    assert_eq!(make_name_shorter(":a", true), "a");
    assert_eq!(make_name_shorter("x<y:z", true), "z");
    assert_eq!(make_name_shorter("a::b>c", true), "a::b>c");
}

#[test]
fn short_name_counts_characters_not_bytes() {
    assert_eq!(make_name_shorter("m\u{e9}::\u{e9}t\u{e9}", true), "\u{e9}t\u{e9}");
    assert_eq!(make_name_shorter("a:\u{e9}b", true), "\u{e9}b");
}

#[test]
fn join_puts_the_separator_between_parts() {
    let parts = vec!["a".to_string(), "b".to_string(), "c".to_string()];
    assert_eq!(join(&parts, ", "), "a, b, c");
}

#[test]
fn join_of_one_part_and_of_none() {
    assert_eq!(join(&vec!["only".to_string()], ", "), "only");
    assert_eq!(join(&vec![], ", "), "");
    assert_eq!(join(&vec!["".to_string(), "".to_string()], "-"), "-");
}

#[test]
fn trim_removes_white_space_at_both_ends() {
    assert_eq!(trim("  a b \n"), "a b");
    assert_eq!(trim("\t\u{a0}x\u{2003}"), "x");
    assert_eq!(trim("x"), "x");
}

#[test]
fn trim_of_white_space_is_empty() {
    assert_eq!(trim("   "), "");
    assert_eq!(trim(""), "");
}

#[test]
fn message_of_duplicate_registration() {
    let error = InjectError::DuplicateRegistration {
        types: vec!["a::A".to_string(), "B".to_string()],
    };
    assert_eq!(error.to_string(), "Dependencies duplications found: a::A, B");
}

#[test]
fn message_of_illegal_lazy_nesting() {
    let error = InjectError::IllegalLazyNesting { types: vec!["Lazy<Lazy<T>>".to_string()] };
    assert_eq!(error.to_string(), "Nested lazy dependencies: Lazy<Lazy<T>>");
}

#[test]
fn message_of_dependency_cycle() {
    let error = InjectError::DependencyCycle { types: vec!["A".to_string(), "B".to_string()] };
    assert_eq!(error.to_string(), "Dependencies cycle (one or more) found :A, B");
    let nobody = InjectError::DependencyCycle { types: vec![] };
    assert_eq!(nobody.to_string(), "Dependencies cycle (one or more) found :");
}

#[test]
fn message_of_missing_value() {
    let error = InjectError::MissingValue { name: "app::Config".to_string() };
    assert_eq!(error.to_string(), "Missing value of type app::Config");
}

#[test]
fn message_of_construction_failure() {
    let error = InjectError::ConstructionFailed { reason: "no socket is free".to_string() };
    assert_eq!(error.to_string(), "no socket is free");
}

#[test]
fn message_of_missing_dependencies() {
    let error = InjectError::MissingDependencies {
        per_component: vec![
            MissingReport {
                name: "Owner".to_string(),
                debug_site: Some("src/app.rs:12".to_string()),
                missing: vec!["X".to_string(), "Y".to_string()],
            },
            MissingReport { name: "Other".to_string(), debug_site: None, missing: vec!["Z".to_string()] },
        ],
    };
    assert_eq!(
        error.to_string(),
        "Missing injection values:\nfor type Owner\n at src/app.rs:12\nmissing dependencies: X, Y\n\nfor type Other\nmissing dependencies: Z\n\n"
    );
}

#[test]
fn paragraph_of_one_report() {
    let report = MissingReport {
        name: "Owner".to_string(),
        debug_site: None,
        missing: vec!["X".to_string()],
    };
    assert_eq!(report.paragraph(), "for type Owner\nmissing dependencies: X\n\n");
}

#[test]
fn labels_of_plain_types() {
    assert_eq!(<()>::type_label(), "()");
    assert_eq!(bool::type_label(), "bool");
    assert_eq!(char::type_label(), "char");
    assert_eq!(u8::type_label(), "u8");
    assert_eq!(u16::type_label(), "u16");
    assert_eq!(u32::type_label(), "u32");
    assert_eq!(u64::type_label(), "u64");
    assert_eq!(u128::type_label(), "u128");
    assert_eq!(usize::type_label(), "usize");
    assert_eq!(i8::type_label(), "i8");
    assert_eq!(i16::type_label(), "i16");
    assert_eq!(i32::type_label(), "i32");
    assert_eq!(i64::type_label(), "i64");
    assert_eq!(i128::type_label(), "i128");
    assert_eq!(isize::type_label(), "isize");
    assert_eq!(String::type_label(), "alloc::string::String");
    assert_eq!(<&'static str>::type_label(), "&str");
}

#[test]
fn labels_of_wrapped_types() {
    assert_eq!(<Box<u32>>::type_label(), "alloc::boxed::Box<u32>");
    assert_eq!(<Rc<u32>>::type_label(), "alloc::rc::Rc<u32>");
    assert_eq!(<Arc<Box<u8>>>::type_label(), "alloc::sync::Arc<alloc::boxed::Box<u8>>");
    assert_eq!(<Option<bool>>::type_label(), "core::option::Option<bool>");
    assert_eq!(<Vec<char>>::type_label(), "alloc::vec::Vec<char>");
    assert_eq!(<PhantomData<()>>::type_label(), "core::marker::PhantomData<()>");
    assert_eq!(generic_label("Wrapper", "Inner".to_string()), "Wrapper<Inner>");
}

#[test]
fn short_label_of_a_wrapped_type() {
    let label = <Arc<Box<u8>>>::type_label();
    assert_eq!(make_name_shorter(&label, true), "Arc<alloc::boxed::Box<u8>>");
}
