use mydi::collections::KeyMap;
use mydi::component_meta::ComponentMeta;
use mydi::error::{InjectError, MissingReport};
use mydi::expander::ComponentExpander;
use mydi::injection_binder::InjectionBinder;
use mydi::injector::Injector;
use mydi::lazy::{hand_out, Lazy};
use mydi::named::Named;
use mydi::registry::{erase, value_or_missing, Registry};
use mydi::tags::Tagged;
use mydi::tuples::TupleInjectTypes;
use mydi::type_key::key_of;
use std::any::TypeId;
use std::rc::Rc;
use std::sync::atomic::{AtomicUsize, Ordering};
use std::sync::Arc;

fn dep<T: Named + 'static>() -> (TypeId, String) {
    (TypeId::of::<T>(), T::type_label())
}

#[derive(Clone, Debug, PartialEq)]
struct Socket {
    number: u32,
}

impl Named for Socket {
    fn type_label() -> String {
        "app::net::Socket".to_string()
    }
}

impl ComponentMeta for Socket {
    fn inject(injector: &Injector) -> Result<Self, InjectError> {
        let number = injector.get()?;
        Ok(Socket { number })
    }

    fn debug_line() -> Option<String> {
        Some("src/net.rs:3".to_string())
    }

    fn dependencies_names() -> Vec<(TypeId, String)> {
        vec![dep::<u32>()]
    }
}

#[derive(Clone, Debug, PartialEq)]
struct Server {
    socket: Socket,
    name: String,
}

impl Named for Server {
    fn type_label() -> String {
        "app::net::Server".to_string()
    }
}

impl ComponentMeta for Server {
    fn inject(injector: &Injector) -> Result<Self, InjectError> {
        let socket = injector.get()?;
        let name = injector.get()?;
        Ok(Server { socket, name })
    }

    fn debug_line() -> Option<String> {
        None
    }

    fn dependencies_names() -> Vec<(TypeId, String)> {
        vec![dep::<Socket>(), dep::<String>()]
    }
}

// ----- the container -----

#[test]
fn get_of_an_unregistered_type_is_a_missing_value() {
    let injector = InjectionBinder::new().instance(1u32).build().unwrap();
    assert_eq!(
        injector.get::<u64>(),
        Err(InjectError::MissingValue { name: "u64".to_string() })
    );
    assert_eq!(
        injector.get::<Socket>().err().unwrap().to_string(),
        "Missing value of type app::net::Socket"
    );
    assert_eq!(injector.get::<u32>(), Ok(1));
}

#[test]
fn an_empty_binder_builds_an_empty_container() {
    let injector = InjectionBinder::new().build().unwrap();
    assert_eq!(
        injector.get::<u32>(),
        Err(InjectError::MissingValue { name: "u32".to_string() })
    );
    assert_eq!(InjectionBinder::new().verify(vec![], false), Ok(()));
}

#[test]
fn get_keyed_reads_under_the_key_it_is_given() {
    let injector = InjectionBinder::new().instance(7u32).build().unwrap();
    assert_eq!(injector.get_keyed::<u32>(TypeId::of::<u32>(), "number".to_string()), Ok(7));
    assert_eq!(
        injector.get_keyed::<u32>(TypeId::of::<u64>(), "number".to_string()),
        Err(InjectError::MissingValue { name: "number".to_string() })
    );
}

#[test]
fn a_value_of_another_type_under_a_key_is_a_missing_value() {
    let injector = InjectionBinder::new()
        .instance_as(TypeId::of::<u32>(), "u32".to_string(), 5u64)
        .build()
        .unwrap();
    assert_eq!(
        injector.get::<u32>(),
        Err(InjectError::MissingValue { name: "u32".to_string() })
    );
}

#[test]
fn clones_of_the_container_share_the_registry() {
    let injector = InjectionBinder::new().instance(3u8).build().unwrap();
    let copy = injector.clone();
    assert_eq!(copy.get::<u8>(), Ok(3));
}

#[test]
fn a_plain_registry_answers_missing_value() {
    let registry = Registry::new(KeyMap::new());
    assert!(!registry.contains(&TypeId::of::<u32>()));
    assert_eq!(
        registry.lookup::<u32>(&TypeId::of::<u32>(), "u32".to_string()),
        Err(InjectError::MissingValue { name: "u32".to_string() })
    );
}

#[test]
fn value_or_missing_keeps_what_was_found() {
    assert_eq!(value_or_missing(Some(4u8), "u8".to_string()), Ok(4));
    assert_eq!(
        value_or_missing::<u8>(None, "u8".to_string()),
        Err(InjectError::MissingValue { name: "u8".to_string() })
    );
}

// ----- tuples -----

#[test]
fn the_empty_tuple_reads_nothing() {
    let injector = InjectionBinder::new().build().unwrap();
    assert_eq!(injector.get_tuple::<()>(), Ok(()));
    assert_eq!(<()>::dependencies_names(), vec![]);
}

#[test]
fn a_tuple_reads_its_components_in_order() {
    let injector = InjectionBinder::new()
        .instance(1u8)
        .instance(2u16)
        .instance(3u32)
        .build()
        .unwrap();
    assert_eq!(injector.get_tuple::<(u32, u8, u16)>(), Ok((3, 1, 2)));
    assert_eq!(injector.get_tuple::<(u8,)>(), Ok((1,)));
}

#[test]
fn a_tuple_fails_with_the_first_missing_component() {
    let injector = InjectionBinder::new().instance(1u8).build().unwrap();
    assert_eq!(
        injector.get_tuple::<(u8, u16, u32)>(),
        Err(InjectError::MissingValue { name: "u16".to_string() })
    );
}

#[test]
fn a_tuple_names_its_types() {
    assert_eq!(<(u8,)>::dependencies_names(), vec![dep::<u8>()]);
    assert_eq!(<(u8, Socket, String)>::dependencies_names(), vec![dep::<u8>(), dep::<Socket>(), dep::<String>()]);
}

#[test]
fn a_tuple_of_eighteen_components() {
    type Wide = (
        u8, u16, u32, u64, u128, usize, i8, i16, i32, i64, i128, isize, bool, char, String,
        Socket, Box<u8>, Arc<u8>,
    );
    assert_eq!(<Wide>::dependencies_names().len(), 18);
    assert_eq!(<Wide>::dependencies_names()[17], dep::<Arc<u8>>());
    let injector = InjectionBinder::new()
        .instance(1u8)
        .instance(2u16)
        .instance(3u32)
        .instance(4u64)
        .instance(5u128)
        .instance(6usize)
        .instance(7i8)
        .instance(8i16)
        .instance(9i32)
        .instance(10i64)
        .instance(11i128)
        .instance(12isize)
        .instance(true)
        .instance('c')
        .instance("s".to_string())
        .instance(Socket { number: 16 })
        .instance(Box::new(17u8))
        .instance(Arc::new(18u8))
        .build()
        .unwrap();
    let wide = injector.get_tuple::<Wide>().unwrap();
    assert_eq!(wide.0, 1);
    assert_eq!(wide.11, 12);
    assert_eq!(wide.15, Socket { number: 16 });
    assert_eq!(*wide.17, 18);
}

// ----- registering -----

#[test]
fn a_value_supplied_twice_is_no_duplicate_and_the_last_stays() {
    let injector = InjectionBinder::new().instance(1u32).instance(2u32).build().unwrap();
    assert_eq!(injector.get::<u32>(), Ok(2));
}

#[test]
fn a_component_without_dependencies_registered_twice_is_no_duplicate() {
    let calls = Arc::new(AtomicUsize::new(0));
    let first = calls.clone();
    let second = calls.clone();
    let injector = InjectionBinder::new()
        .inject_fn(move |()| {
            first.fetch_add(1, Ordering::SeqCst);
            1u32
        })
        .inject_fn(move |()| {
            second.fetch_add(10, Ordering::SeqCst);
            2u32
        })
        .build()
        .unwrap();
    assert_eq!(injector.get::<u32>(), Ok(2));
    assert_eq!(calls.load(Ordering::SeqCst), 10);
}

#[test]
fn a_supplied_value_registered_again_with_dependencies_is_a_duplicate() {
    let built = InjectionBinder::new()
        .instance(1u32)
        .instance(Socket { number: 9 })
        .inject::<Socket>()
        .build();
    assert_eq!(
        built.err().unwrap(),
        InjectError::DuplicateRegistration { types: vec!["app::net::Socket".to_string()] }
    );
}

#[test]
fn each_constructor_runs_once_and_after_what_it_needs() {
    let calls = Arc::new(AtomicUsize::new(0));
    let counter = calls.clone();
    let injector = InjectionBinder::new()
        .inject::<Server>()
        .inject_fn(move |(number,): (u32,)| {
            counter.fetch_add(1, Ordering::SeqCst);
            Socket { number }
        })
        .instance("main".to_string())
        .instance(80u32)
        .build()
        .unwrap();
    assert_eq!(calls.load(Ordering::SeqCst), 1);
    assert_eq!(
        injector.get::<Server>(),
        Ok(Server { socket: Socket { number: 80 }, name: "main".to_string() })
    );
}

#[test]
fn a_failing_constructor_fails_the_build_with_its_failure() {
    let binder = InjectionBinder::new().instance(1u32).inject_fn_ok(|(_n,): (u32,)| {
        Err::<Socket, InjectError>(InjectError::ConstructionFailed {
            reason: "no socket is free".to_string(),
        })
    });
    assert_eq!(binder.verify(vec![], false), Ok(()));
    assert_eq!(
        binder.build().err().unwrap(),
        InjectError::ConstructionFailed { reason: "no socket is free".to_string() }
    );
}

#[test]
fn validation_fails_before_any_constructor_runs() {
    let calls = Arc::new(AtomicUsize::new(0));
    let counter = calls.clone();
    let built = InjectionBinder::new()
        .inject_fn(move |()| {
            counter.fetch_add(1, Ordering::SeqCst);
            1u32
        })
        .inject::<Server>()
        .inject::<Socket>()
        .build();
    assert_eq!(
        built.err().unwrap(),
        InjectError::MissingDependencies {
            per_component: vec![MissingReport {
                name: "app::net::Server".to_string(),
                debug_site: None,
                missing: vec!["alloc::string::String".to_string()],
            }],
        }
    );
    assert_eq!(calls.load(Ordering::SeqCst), 0);
}

#[test]
fn verify_takes_keys_that_are_provided_from_outside() {
    let binder = InjectionBinder::new().inject::<Socket>();
    assert_eq!(binder.verify(vec![TypeId::of::<u32>()], false), Ok(()));
    assert_eq!(
        binder.verify(vec![], true),
        Err(InjectError::MissingDependencies {
            per_component: vec![MissingReport {
                name: "Socket".to_string(),
                debug_site: Some("src/net.rs:3".to_string()),
                missing: vec!["u32".to_string()],
            }],
        })
    );
    assert_eq!(
        binder.verify(vec![], false).err().unwrap().to_string(),
        "Missing injection values:\nfor type app::net::Socket\n at src/net.rs:3\nmissing dependencies: u32\n\n"
    );
}

#[test]
fn verify_counts_a_key_from_outside_as_registered() {
    let binder = InjectionBinder::new().instance(1u32).inject::<Socket>();
    assert_eq!(
        binder.verify(vec![TypeId::of::<Socket>()], true),
        Err(InjectError::DuplicateRegistration { types: vec!["Socket".to_string()] })
    );
}

#[test]
fn register_takes_key_name_and_dependencies_as_given() {
    let binder = InjectionBinder::new().register::<u64, _>(
        TypeId::of::<u64>(),
        "the::Answer".to_string(),
        |injector: &Injector| Ok(u64::from(injector.get::<u32>()?) + 1),
        vec![(TypeId::of::<u32>(), "a::Number".to_string())],
        Some("here".to_string()),
        false,
    );
    assert_eq!(
        binder.verify(vec![], true),
        Err(InjectError::MissingDependencies {
            per_component: vec![MissingReport {
                name: "Answer".to_string(),
                debug_site: Some("here".to_string()),
                missing: vec!["Number".to_string()],
            }],
        })
    );
    let injector = binder.instance(41u32).build().unwrap();
    assert_eq!(injector.get::<u64>(), Ok(42));
}

#[test]
fn inject_fn_raw_marks_a_component_as_deferred() {
    // two components that need each other; the first is deferred
    let first = |_injector: &Injector| Ok(1u8);
    let second = |injector: &Injector| Ok(u16::from(injector.get::<u8>()?) + 1);
    let eager = InjectionBinder::new()
        .inject_fn_raw(first, vec![dep::<u16>()], None, false)
        .inject_fn_raw(second, vec![dep::<u8>()], None, false);
    assert_eq!(
        eager.verify(vec![], false),
        Err(InjectError::DependencyCycle { types: vec!["u8".to_string(), "u16".to_string()] })
    );
    let deferred = InjectionBinder::new()
        .inject_fn_raw(first, vec![dep::<u16>()], None, true)
        .inject_fn_raw(second, vec![dep::<u8>()], None, false);
    let injector = deferred.build().unwrap();
    assert_eq!(injector.get::<u16>(), Ok(2));
}

#[test]
fn merge_prefers_what_the_second_binder_holds() {
    let one = InjectionBinder::new().instance(1u32).instance(1u64);
    let other = InjectionBinder::new().instance(2u32).instance(2u8);
    let injector = one.merge(other).build().unwrap();
    assert_eq!(injector.get::<u32>(), Ok(2));
    assert_eq!(injector.get::<u64>(), Ok(1));
    assert_eq!(injector.get::<u8>(), Ok(2));
}

#[test]
fn merge_in_either_order_builds_the_same() {
    let leaves = || InjectionBinder::new().instance(80u32).instance("main".to_string());
    let dependents = || InjectionBinder::new().inject::<Server>().inject::<Socket>();
    let expected = Server { socket: Socket { number: 80 }, name: "main".to_string() };
    let one = leaves().merge(dependents()).build().unwrap();
    let other = dependents().merge(leaves()).build().unwrap();
    let single = InjectionBinder::new()
        .inject::<Socket>()
        .instance("main".to_string())
        .inject::<Server>()
        .instance(80u32)
        .build()
        .unwrap();
    for injector in [one, other, single] {
        assert_eq!(injector.get::<Server>(), Ok(expected.clone()));
        assert_eq!(injector.get::<Socket>(), Ok(Socket { number: 80 }));
        assert_eq!(injector.get::<u32>(), Ok(80));
    }
}

#[test]
fn merge_finds_a_duplicate_across_binders() {
    let one = InjectionBinder::new().instance(1u32).inject::<Socket>();
    let other = InjectionBinder::new().inject::<Socket>();
    assert_eq!(
        one.merge(other).verify(vec![], true),
        Err(InjectError::DuplicateRegistration { types: vec!["Socket".to_string()] })
    );
}

#[test]
fn void_keeps_what_the_binder_holds() {
    let injector = InjectionBinder::new().instance(1u32).inject::<Socket>().void().build().unwrap();
    assert_eq!(injector.get::<Socket>(), Ok(Socket { number: 1 }));
}

#[test]
fn auto_arc_registers_a_shared_pointer() {
    let injector = InjectionBinder::new()
        .instance(5u32)
        .inject::<Socket>()
        .auto_arc()
        .build()
        .unwrap();
    assert_eq!(injector.get::<Arc<Socket>>().unwrap().number, 5);
    assert_eq!(injector.get::<Socket>().unwrap().number, 5);
}

#[test]
fn auto_registers_what_the_function_makes() {
    let injector = InjectionBinder::new()
        .instance(5u32)
        .inject::<Socket>()
        .auto(|socket: Socket| u64::from(socket.number) * 2)
        .build()
        .unwrap();
    assert_eq!(injector.get::<u64>(), Ok(10));
}

// ----- what components tell about themselves -----

#[test]
fn wrapped_components_need_what_the_component_needs() {
    assert_eq!(<Box<Socket>>::dependencies_names(), Socket::dependencies_names());
    assert_eq!(<Rc<Socket>>::dependencies_names(), Socket::dependencies_names());
    assert_eq!(<Arc<Socket>>::dependencies_names(), Socket::dependencies_names());
    assert_eq!(<Box<Socket>>::debug_line(), Some("src/net.rs:3".to_string()));
    assert_eq!(<Rc<Server>>::debug_line(), None);
    assert_eq!(<Arc<Socket>>::debug_line(), Some("src/net.rs:3".to_string()));
    assert!(!<Box<Socket>>::lazy());
    assert!(!Socket::lazy());
}

#[test]
fn wrapped_components_are_constructed_from_the_container() {
    let injector = InjectionBinder::new()
        .instance(8u32)
        .inject::<Box<Socket>>()
        .inject::<Rc<Socket>>()
        .inject::<Arc<Socket>>()
        .build()
        .unwrap();
    assert_eq!(injector.get::<Box<Socket>>().unwrap().number, 8);
    assert_eq!(injector.get::<Rc<Socket>>().unwrap().number, 8);
    assert_eq!(injector.get::<Arc<Socket>>().unwrap().number, 8);
    assert!(injector.get::<Socket>().is_err());
}

// ----- deferred components -----

#[test]
fn a_deferred_component_tells_that_it_is_deferred() {
    assert!(<Lazy<Socket>>::lazy());
    assert_eq!(<Lazy<Socket>>::dependencies_names(), vec![dep::<Socket>()]);
    assert_eq!(<Lazy<Socket>>::debug_line(), None);
    assert_eq!(<Lazy<Socket>>::type_label(), "mydi::lazy::Lazy<app::net::Socket>");
}

#[test]
fn forcing_reads_the_component_once() {
    let calls = Arc::new(AtomicUsize::new(0));
    let counter = calls.clone();
    let injector = InjectionBinder::new()
        .inject::<Lazy<Socket>>()
        .inject_fn(move |(number,): (u32,)| {
            counter.fetch_add(1, Ordering::SeqCst);
            Socket { number }
        })
        .instance(4u32)
        .build()
        .unwrap();
    let lazy = injector.get::<Lazy<Socket>>().unwrap();
    assert_eq!(lazy.force(), Ok(Socket { number: 4 }));
    assert_eq!(lazy.force(), Ok(Socket { number: 4 }));
    assert_eq!(lazy.clone().force(), injector.get::<Socket>());
    assert_eq!(calls.load(Ordering::SeqCst), 1);
}

#[test]
fn forcing_fails_where_the_component_is_missing() {
    let injector = InjectionBinder::new().build().unwrap();
    let lazy = <Lazy<Socket>>::inject(&injector).unwrap();
    assert_eq!(
        lazy.force(),
        Err(InjectError::MissingValue { name: "app::net::Socket".to_string() })
    );
}

// ----- tags -----

struct Primary;

impl Named for Primary {
    fn type_label() -> String {
        "app::Primary".to_string()
    }
}

struct Backup;

impl Named for Backup {
    fn type_label() -> String {
        "app::Backup".to_string()
    }
}

#[test]
fn a_tagged_value_gives_its_value_back() {
    assert_eq!(Tagged::<u32, Primary>::new(5).untag(), 5);
    assert_eq!(Tagged::pure(6u8).untag(), 6);
    assert_eq!(Tagged::<u32, Primary>::new(7).tagged::<Backup>().untag(), 7);
    let tagged = Tagged::<Socket, Primary>::new(Socket { number: 1 });
    assert_eq!(tagged.number, 1);
    assert_eq!(tagged.clone().untag(), Socket { number: 1 });
}

#[test]
fn tags_tell_two_values_of_one_type_apart() {
    let injector = InjectionBinder::new()
        .instance(Tagged::<u32, Primary>::new(1))
        .instance(Tagged::<u32, Backup>::new(2))
        .build()
        .unwrap();
    assert_eq!(injector.get::<Tagged<u32, Primary>>().unwrap().untag(), 1);
    assert_eq!(injector.get::<Tagged<u32, Backup>>().unwrap().untag(), 2);
    assert!(injector.get::<u32>().is_err());
}

#[test]
fn a_tagged_component_needs_what_the_component_needs() {
    assert_eq!(<Tagged<Socket, Primary>>::dependencies_names(), Socket::dependencies_names());
    assert_eq!(<Tagged<Socket, Primary>>::debug_line(), Socket::debug_line());
    assert_eq!(
        <Tagged<Socket, Primary>>::type_label(),
        "mydi::tags::Tagged<app::net::Socket, app::Primary>"
    );
    let injector = InjectionBinder::new()
        .instance(3u32)
        .inject::<Tagged<Socket, Primary>>()
        .build()
        .unwrap();
    assert_eq!(injector.get::<Tagged<Socket, Primary>>().unwrap().number, 3);
}

// ----- expansion -----

#[derive(Clone)]
struct Settings {
    socket: u32,
    name: String,
}

impl ComponentExpander for Settings {
    fn expand<T: Clone + Named + 'static>(self, injector: InjectionBinder<T>) -> InjectionBinder<T> {
        injector.instance(self.socket).instance(self.name)
    }
}

struct Nested {
    settings: Settings,
    flag: bool,
}

impl ComponentExpander for Nested {
    fn expand<T: Clone + Named + 'static>(self, injector: InjectionBinder<T>) -> InjectionBinder<T> {
        injector.instance(self.flag).expand(self.settings)
    }
}

#[test]
fn boxed_and_shared_values_expand_as_the_value() {
    let settings = Settings { socket: 1, name: "n".to_string() };
    let boxed = InjectionBinder::new().expand(Box::new(settings.clone())).build().unwrap();
    assert_eq!(boxed.get::<u32>(), Ok(1));
    assert_eq!(boxed.get::<String>(), Ok("n".to_string()));
    let shared = InjectionBinder::new().expand(Arc::new(settings)).build().unwrap();
    assert_eq!(shared.get::<u32>(), Ok(1));
}

#[test]
fn nested_values_expand_their_parts() {
    let nested = Nested { settings: Settings { socket: 2, name: "m".to_string() }, flag: true };
    let injector = InjectionBinder::new().expand(nested).inject::<Socket>().build().unwrap();
    assert_eq!(injector.get::<bool>(), Ok(true));
    assert_eq!(injector.get::<String>(), Ok("m".to_string()));
    assert_eq!(injector.get::<Socket>(), Ok(Socket { number: 2 }));
}

#[test]
fn hand_out_copies_what_is_kept() {
    let kept: Result<Socket, InjectError> = Ok(Socket { number: 7 });
    assert_eq!(hand_out(&kept), Ok(Socket { number: 7 }));
    let failed: Result<Socket, InjectError> =
        Err(InjectError::MissingValue { name: "app::net::Socket".to_string() });
    assert_eq!(
        hand_out(&failed),
        Err(InjectError::MissingValue { name: "app::net::Socket".to_string() })
    );
}

#[test]
fn a_copy_of_a_failure_holds_what_the_failure_holds() {
    let failures = vec![
        InjectError::DuplicateRegistration { types: vec!["A".to_string(), "B".to_string()] },
        InjectError::IllegalLazyNesting { types: vec!["L".to_string()] },
        InjectError::MissingDependencies {
            per_component: vec![
                MissingReport {
                    name: "Owner".to_string(),
                    debug_site: Some("src/app.rs:1".to_string()),
                    missing: vec!["X".to_string(), "Y".to_string()],
                },
                MissingReport { name: "Other".to_string(), debug_site: None, missing: vec![] },
            ],
        },
        InjectError::DependencyCycle { types: vec![] },
        InjectError::MissingValue { name: "V".to_string() },
        InjectError::ConstructionFailed { reason: "no".to_string() },
    ];
    for failure in failures {
        assert_eq!(failure.clone(), failure);
    }
}

#[test]
fn merge_keeps_the_constructors_of_both_binders() {
    let one = InjectionBinder::new().inject_fn(|()| 1u8).inject_fn(|()| 1u16);
    let other = InjectionBinder::new().inject_fn(|()| 2u16).inject_fn(|()| 2u32);
    let injector = one.merge(other).build().unwrap();
    assert_eq!(injector.get::<u8>(), Ok(1));
    assert_eq!(injector.get::<u16>(), Ok(2));
    assert_eq!(injector.get::<u32>(), Ok(2));
}

#[test]
fn a_missing_dependency_is_always_found() {
    let binder = InjectionBinder::new().register::<u64, _>(
        TypeId::of::<u64>(),
        "u64".to_string(),
        |injector: &Injector| Ok(u64::from(injector.get::<u32>()?)),
        vec![(TypeId::of::<u32>(), "".to_string())],
        None,
        false,
    );
    assert_eq!(
        binder.verify(vec![], false),
        Err(InjectError::MissingDependencies {
            per_component: vec![MissingReport {
                name: "u64".to_string(),
                debug_site: None,
                missing: vec!["".to_string()],
            }],
        })
    );
}

// ----- the plain registry -----

#[test]
fn a_stored_value_is_read_back_as_its_own_type() {
    let mut registry = Registry::new(KeyMap::new());
    let key = TypeId::of::<Socket>();
    assert_eq!(registry.store(key, Ok(erase(Socket { number: 80 }))), Ok(()));
    assert!(registry.contains(&key));
    assert_eq!(
        registry.lookup::<Socket>(&key, "Socket".to_string()),
        Ok(Socket { number: 80 })
    );
}

#[test]
fn a_value_of_another_type_under_the_key_is_missing() {
    let mut registry = Registry::new(KeyMap::new());
    let key = TypeId::of::<u32>();
    registry.insert(key, erase(7u64));
    assert!(registry.contains(&key));
    assert_eq!(
        registry.lookup::<u32>(&key, "u32".to_string()),
        Err(InjectError::MissingValue { name: "u32".to_string() })
    );
    assert_eq!(registry.lookup::<u64>(&key, "u64".to_string()), Ok(7));
}

#[test]
fn a_stored_failure_changes_nothing() {
    let mut registry = Registry::new(KeyMap::new());
    let key = TypeId::of::<u8>();
    registry.insert(key, erase(1u8));
    let failure = InjectError::ConstructionFailed { reason: "no socket".to_string() };
    assert_eq!(registry.store(key, Err(failure.clone())), Err(failure));
    assert_eq!(registry.lookup::<u8>(&key, "u8".to_string()), Ok(1));
}

#[test]
fn a_later_value_replaces_the_earlier_one() {
    let mut registry = Registry::new(KeyMap::new());
    let key = TypeId::of::<u8>();
    assert_eq!(registry.store(key, Ok(erase(1u8))), Ok(()));
    assert_eq!(registry.store(key, Ok(erase(2u8))), Ok(()));
    assert_eq!(registry.lookup::<u8>(&key, "u8".to_string()), Ok(2));
}

#[test]
fn auto_box_and_auto_arc_wrap_the_last_component() {
    let injector = InjectionBinder::new()
        .instance(443u32)
        .inject::<Socket>()
        .auto_box()
        .auto_arc()
        .build()
        .unwrap();
    assert_eq!(injector.get::<Box<Socket>>(), Ok(Box::new(Socket { number: 443 })));
    assert_eq!(injector.get::<Arc<Socket>>(), Ok(Arc::new(Socket { number: 443 })));
}

#[test]
fn auto_box_fails_where_the_component_is_missing() {
    let built = InjectionBinder::new().instance(1u8).void().auto_box().build();
    assert!(matches!(built, Err(InjectError::MissingDependencies { .. })));
}

// ----- keys -----

#[test]
fn the_key_of_a_type_is_its_type_id() {
    assert_eq!(key_of::<u8>(), TypeId::of::<u8>());
    assert_eq!(key_of::<Socket>(), TypeId::of::<Socket>());
    assert_eq!(key_of::<str>(), TypeId::of::<str>());
    assert_ne!(key_of::<u8>(), key_of::<u16>());
    assert_ne!(key_of::<Box<u8>>(), key_of::<u8>());
}
