use dyn_clone::DynClone;
use mydi::component_meta::ComponentMeta;
use mydi::error::InjectError;
use mydi::expander::ComponentExpander;
use mydi::injection_binder::InjectionBinder;
use mydi::injector::Injector;
use mydi::lazy::Lazy;
use mydi::named::Named;
use std::any::TypeId;
use std::marker::PhantomData;
use std::sync::Arc;

fn dep<T: Named + 'static>() -> (TypeId, String) {
    (TypeId::of::<T>(), T::type_label())
}

fn site(line: u32) -> Option<String> {
    Some(format!("tests/injection_tests.rs:{}", line))
}

// ----- a chain of three components -----

#[derive(Clone)]
struct A {
    x: u32,
}

impl Named for A {
    fn type_label() -> String {
        "injection_tests::A".to_string()
    }
}

impl ComponentMeta for A {
    fn inject(injector: &Injector) -> Result<Self, InjectError> {
        let x = injector.get()?;
        Ok(A { x })
    }

    fn debug_line() -> Option<String> {
        site(25)
    }

    fn dependencies_names() -> Vec<(TypeId, String)> {
        vec![dep::<u32>()]
    }
}

#[derive(Clone)]
struct B {
    a: A,
}

impl Named for B {
    fn type_label() -> String {
        "injection_tests::B".to_string()
    }
}

impl ComponentMeta for B {
    fn inject(injector: &Injector) -> Result<Self, InjectError> {
        let a = injector.get()?;
        Ok(B { a })
    }

    fn debug_line() -> Option<String> {
        site(50)
    }

    fn dependencies_names() -> Vec<(TypeId, String)> {
        vec![dep::<A>()]
    }
}

#[derive(Clone)]
struct C {
    b: B,
}

impl Named for C {
    fn type_label() -> String {
        "injection_tests::C".to_string()
    }
}

impl ComponentMeta for C {
    fn inject(injector: &Injector) -> Result<Self, InjectError> {
        let b = injector.get()?;
        Ok(C { b })
    }

    fn debug_line() -> Option<String> {
        site(75)
    }

    fn dependencies_names() -> Vec<(TypeId, String)> {
        vec![dep::<B>()]
    }
}

#[test]
fn resolve_simple_values() {
    let inject = InjectionBinder::new()
        .instance(1u32)
        .inject::<A>()
        .inject::<B>()
        .inject::<C>()
        .build()
        .unwrap();

    let x = inject.get::<C>().unwrap().b.a.x;
    assert_eq!(x, 1)
}

// ----- a field that takes its default value -----

#[derive(Clone)]
struct DefaultA {
    x: u32,
}

impl Named for DefaultA {
    fn type_label() -> String {
        "injection_tests::default_value::A".to_string()
    }
}

impl ComponentMeta for DefaultA {
    fn inject(_injector: &Injector) -> Result<Self, InjectError> {
        Ok(DefaultA { x: Default::default() })
    }

    fn debug_line() -> Option<String> {
        site(120)
    }

    fn dependencies_names() -> Vec<(TypeId, String)> {
        vec![]
    }
}

#[derive(Clone)]
struct DefaultB {
    a: DefaultA,
}

impl Named for DefaultB {
    fn type_label() -> String {
        "injection_tests::default_value::B".to_string()
    }
}

impl ComponentMeta for DefaultB {
    fn inject(injector: &Injector) -> Result<Self, InjectError> {
        let a = injector.get()?;
        Ok(DefaultB { a })
    }

    fn debug_line() -> Option<String> {
        site(145)
    }

    fn dependencies_names() -> Vec<(TypeId, String)> {
        vec![dep::<DefaultA>()]
    }
}

#[derive(Clone)]
struct DefaultC {
    b: DefaultB,
}

impl Named for DefaultC {
    fn type_label() -> String {
        "injection_tests::default_value::C".to_string()
    }
}

impl ComponentMeta for DefaultC {
    fn inject(injector: &Injector) -> Result<Self, InjectError> {
        let b = injector.get()?;
        Ok(DefaultC { b })
    }

    fn debug_line() -> Option<String> {
        site(170)
    }

    fn dependencies_names() -> Vec<(TypeId, String)> {
        vec![dep::<DefaultB>()]
    }
}

#[test]
fn default_value() {
    let inject = InjectionBinder::new()
        .inject::<DefaultA>()
        .inject::<DefaultB>()
        .inject::<DefaultC>()
        .build()
        .unwrap();

    let x = inject.get::<DefaultC>().unwrap().b.a.x;
    assert_eq!(x, 0)
}

// ----- a field that takes the value of a function -----

fn func() -> u32 {
    2
}

#[derive(Clone)]
struct FuncA {
    x: u32,
}

impl Named for FuncA {
    fn type_label() -> String {
        "injection_tests::default_value_func::A".to_string()
    }
}

impl ComponentMeta for FuncA {
    fn inject(_injector: &Injector) -> Result<Self, InjectError> {
        Ok(FuncA { x: func() })
    }

    fn debug_line() -> Option<String> {
        site(215)
    }

    fn dependencies_names() -> Vec<(TypeId, String)> {
        vec![]
    }
}

#[derive(Clone)]
struct FuncB {
    a: FuncA,
}

impl Named for FuncB {
    fn type_label() -> String {
        "injection_tests::default_value_func::B".to_string()
    }
}

impl ComponentMeta for FuncB {
    fn inject(injector: &Injector) -> Result<Self, InjectError> {
        let a = injector.get()?;
        Ok(FuncB { a })
    }

    fn debug_line() -> Option<String> {
        site(240)
    }

    fn dependencies_names() -> Vec<(TypeId, String)> {
        vec![dep::<FuncA>()]
    }
}

#[derive(Clone)]
struct FuncC {
    b: FuncB,
}

impl Named for FuncC {
    fn type_label() -> String {
        "injection_tests::default_value_func::C".to_string()
    }
}

impl ComponentMeta for FuncC {
    fn inject(injector: &Injector) -> Result<Self, InjectError> {
        let b = injector.get()?;
        Ok(FuncC { b })
    }

    fn debug_line() -> Option<String> {
        site(265)
    }

    fn dependencies_names() -> Vec<(TypeId, String)> {
        vec![dep::<FuncB>()]
    }
}

#[test]
fn default_value_func() {
    let inject = InjectionBinder::new()
        .inject::<FuncA>()
        .inject::<FuncB>()
        .inject::<FuncC>()
        .build()
        .unwrap();

    let x = inject.get::<FuncC>().unwrap().b.a.x;
    assert_eq!(x, 2)
}

// ----- components without fields -----

#[derive(Clone)]
struct EmptyB {}

impl Named for EmptyB {
    fn type_label() -> String {
        "injection_tests::resolve_empty_structs::B".to_string()
    }
}

impl ComponentMeta for EmptyB {
    fn inject(_injector: &Injector) -> Result<Self, InjectError> {
        Ok(EmptyB {})
    }

    fn debug_line() -> Option<String> {
        site(305)
    }

    fn dependencies_names() -> Vec<(TypeId, String)> {
        vec![]
    }
}

#[derive(Clone)]
struct UnitC;

impl Named for UnitC {
    fn type_label() -> String {
        "injection_tests::resolve_empty_structs::C".to_string()
    }
}

impl ComponentMeta for UnitC {
    fn inject(_injector: &Injector) -> Result<Self, InjectError> {
        Ok(UnitC)
    }

    fn debug_line() -> Option<String> {
        site(328)
    }

    fn dependencies_names() -> Vec<(TypeId, String)> {
        vec![]
    }
}

#[test]
fn resolve_empty_structs() {
    let inject = InjectionBinder::new()
        .instance(1u32)
        .inject::<A>()
        .inject::<EmptyB>()
        .inject::<UnitC>()
        .build()
        .unwrap();

    let x = inject.get::<A>().unwrap().x;
    assert_eq!(x, 1);

    inject.get::<EmptyB>().unwrap();
    inject.get::<UnitC>().unwrap();
}

// ----- a generic component -----

#[derive(Clone)]
struct GenericA<T: Clone + 'static> {
    x: T,
}

impl<T: Clone + Named + 'static> Named for GenericA<T> {
    fn type_label() -> String {
        format!("injection_tests::resolve_simple_generic_values::A<{}>", T::type_label())
    }
}

impl<T: Clone + Named + 'static> ComponentMeta for GenericA<T> {
    fn inject(injector: &Injector) -> Result<Self, InjectError> {
        let x = injector.get()?;
        Ok(GenericA { x })
    }

    fn debug_line() -> Option<String> {
        site(370)
    }

    fn dependencies_names() -> Vec<(TypeId, String)> {
        vec![dep::<T>()]
    }
}

#[test]
fn resolve_simple_generic_values() {
    let inject = InjectionBinder::new()
        .instance(1u32)
        .instance(2u64)
        .inject::<GenericA<u32>>()
        .inject::<GenericA<u64>>()
        .build()
        .unwrap();

    let x = inject.get::<GenericA<u32>>().unwrap().x;
    assert_eq!(x, 1);
    let x = inject.get::<GenericA<u64>>().unwrap().x;
    assert_eq!(x, 2);
}

#[test]
fn resolve_simple_value_reverse_order() {
    let inject = InjectionBinder::new()
        .inject::<C>()
        .inject::<B>()
        .inject::<A>()
        .instance(1u32)
        .build()
        .unwrap();

    let x = inject.get::<C>().unwrap().b.a.x;
    assert_eq!(x, 1)
}

// ----- components with several dependencies -----

#[derive(Clone)]
struct ManyB {
    _a: A,
    x: u32,
}

impl Named for ManyB {
    fn type_label() -> String {
        "injection_tests::resolve_values_with_multiple_deps::B".to_string()
    }
}

impl ComponentMeta for ManyB {
    fn inject(injector: &Injector) -> Result<Self, InjectError> {
        let _a = injector.get()?;
        let x = injector.get()?;
        Ok(ManyB { _a, x })
    }

    fn debug_line() -> Option<String> {
        site(430)
    }

    fn dependencies_names() -> Vec<(TypeId, String)> {
        vec![dep::<A>(), dep::<u32>()]
    }
}

#[derive(Clone)]
struct ManyC {
    _b: ManyB,
    _a: A,
    x: u64,
}

impl Named for ManyC {
    fn type_label() -> String {
        "injection_tests::resolve_values_with_multiple_deps::C".to_string()
    }
}

impl ComponentMeta for ManyC {
    fn inject(injector: &Injector) -> Result<Self, InjectError> {
        let _b = injector.get()?;
        let _a = injector.get()?;
        let x = injector.get()?;
        Ok(ManyC { _b, _a, x })
    }

    fn debug_line() -> Option<String> {
        site(460)
    }

    fn dependencies_names() -> Vec<(TypeId, String)> {
        vec![dep::<ManyB>(), dep::<A>(), dep::<u64>()]
    }
}

#[test]
fn resolve_values_with_multiple_deps() {
    let inject = InjectionBinder::new()
        .inject::<ManyC>()
        .inject::<ManyB>()
        .inject::<A>()
        .instance(1u32)
        .instance(2u64)
        .build()
        .unwrap();

    let x = inject.get::<ManyC>().unwrap();
    assert_eq!(x._b._a.x, 1);
    assert_eq!(x._b.x, 1);
    assert_eq!(x.x, 2);
}

// ----- a boxed component -----

#[derive(Clone)]
struct BoxedB {
    a: Box<A>,
}

impl Named for BoxedB {
    fn type_label() -> String {
        "injection_tests::resolve_auto_boxing::B".to_string()
    }
}

impl ComponentMeta for BoxedB {
    fn inject(injector: &Injector) -> Result<Self, InjectError> {
        let a = injector.get()?;
        Ok(BoxedB { a })
    }

    fn debug_line() -> Option<String> {
        site(510)
    }

    fn dependencies_names() -> Vec<(TypeId, String)> {
        vec![dep::<Box<A>>()]
    }
}

#[derive(Clone)]
struct BoxedC {
    b: BoxedB,
}

impl Named for BoxedC {
    fn type_label() -> String {
        "injection_tests::resolve_auto_boxing::C".to_string()
    }
}

impl ComponentMeta for BoxedC {
    fn inject(injector: &Injector) -> Result<Self, InjectError> {
        let b = injector.get()?;
        Ok(BoxedC { b })
    }

    fn debug_line() -> Option<String> {
        site(535)
    }

    fn dependencies_names() -> Vec<(TypeId, String)> {
        vec![dep::<BoxedB>()]
    }
}

#[test]
fn resolve_auto_boxing() {
    let inject = InjectionBinder::new()
        .instance(1u32)
        .inject::<A>()
        .auto_box()
        .inject::<BoxedB>()
        .inject::<BoxedC>()
        .build()
        .unwrap();

    let x = inject.get::<BoxedC>().unwrap().b.a.x;
    assert_eq!(x, 1)
}

// ----- a cycle that a deferred component breaks -----

#[derive(Clone)]
struct CycleA {
    x: u32,
    c: Lazy<CycleC>,
}

impl Named for CycleA {
    fn type_label() -> String {
        "injection_tests::resolve_cyclic_dependencies::A".to_string()
    }
}

impl ComponentMeta for CycleA {
    fn inject(injector: &Injector) -> Result<Self, InjectError> {
        let x = injector.get()?;
        let c = injector.get()?;
        Ok(CycleA { x, c })
    }

    fn debug_line() -> Option<String> {
        site(580)
    }

    fn dependencies_names() -> Vec<(TypeId, String)> {
        vec![dep::<u32>(), dep::<Lazy<CycleC>>()]
    }
}

#[derive(Clone)]
struct CycleB {
    a: CycleA,
    x: u32,
}

impl Named for CycleB {
    fn type_label() -> String {
        "injection_tests::resolve_cyclic_dependencies::B".to_string()
    }
}

impl ComponentMeta for CycleB {
    fn inject(injector: &Injector) -> Result<Self, InjectError> {
        let a = injector.get()?;
        let x = injector.get()?;
        Ok(CycleB { a, x })
    }

    fn debug_line() -> Option<String> {
        site(610)
    }

    fn dependencies_names() -> Vec<(TypeId, String)> {
        vec![dep::<CycleA>(), dep::<u32>()]
    }
}

#[derive(Clone)]
struct CycleC {
    b: CycleB,
    _a: CycleA,
    x: u64,
}

impl Named for CycleC {
    fn type_label() -> String {
        "injection_tests::resolve_cyclic_dependencies::C".to_string()
    }
}

impl ComponentMeta for CycleC {
    fn inject(injector: &Injector) -> Result<Self, InjectError> {
        let b = injector.get()?;
        let _a = injector.get()?;
        let x = injector.get()?;
        Ok(CycleC { b, _a, x })
    }

    fn debug_line() -> Option<String> {
        site(640)
    }

    fn dependencies_names() -> Vec<(TypeId, String)> {
        vec![dep::<CycleB>(), dep::<CycleA>(), dep::<u64>()]
    }
}

#[test]
fn resolve_cyclic_dependencies() {
    let binder1 = InjectionBinder::new()
        .inject::<CycleC>()
        .inject::<Lazy<CycleC>>()
        .inject::<CycleB>();
    let binder2 = InjectionBinder::new()
        .inject::<CycleA>()
        .instance(1u32)
        .instance(2u64);

    let inject = (binder1.merge(binder2)).build().unwrap();

    let x = inject.get::<CycleC>().unwrap();
    assert_eq!(x.b.a.x, 1);
    assert_eq!(x.b.x, 1);
    assert_eq!(x.x, 2);
    assert_eq!(x.b.a.c.force().unwrap().x, 2);
}

#[test]
fn resolve_values_with_multiple_binders() {
    let binder1 = InjectionBinder::new().inject::<ManyC>().inject::<ManyB>();
    let binder2 = InjectionBinder::new()
        .inject::<A>()
        .instance(1u32)
        .instance(2u64);

    let inject = (binder1.merge(binder2)).build().unwrap();

    let x = inject.get::<ManyC>().unwrap();
    assert_eq!(x._b._a.x, 1);
    assert_eq!(x._b.x, 1);
    assert_eq!(x.x, 2);
}

#[test]
fn read_tuples() {
    let binder1 = InjectionBinder::new().inject::<ManyC>().inject::<ManyB>();
    let binder2 = InjectionBinder::new()
        .inject::<A>()
        .instance(1u32)
        .instance(2u64);

    let inject = (binder1.merge(binder2)).build().unwrap();

    let (_, _, x) = inject.get_tuple::<(A, ManyB, ManyC)>().unwrap();
    assert_eq!(x._b._a.x, 1);
    assert_eq!(x._b.x, 1);
    assert_eq!(x.x, 2);
}

#[test]
fn resolve_values_with_multiple_deps_tuple_init() {
    let inject = InjectionBinder::new()
        .inject_fn(|(_b, _a, x)| ManyC { _b, _a, x })
        .inject::<ManyB>()
        .inject::<A>()
        .instance(1u32)
        .instance(2u64)
        .build()
        .unwrap();

    let x = inject.get::<ManyC>().unwrap();
    assert_eq!(x._b._a.x, 1);
    assert_eq!(x._b.x, 1);
    assert_eq!(x.x, 2);
}

// ----- a component that is registered twice -----

#[derive(Clone)]
struct DuplicateStruct {
    _b: ManyB,
    _a: A,
    _x: u64,
}

impl Named for DuplicateStruct {
    fn type_label() -> String {
        "injection_tests::fail_on_duplicate_values::DuplicateStruct".to_string()
    }
}

impl ComponentMeta for DuplicateStruct {
    fn inject(injector: &Injector) -> Result<Self, InjectError> {
        let _b = injector.get()?;
        let _a = injector.get()?;
        let _x = injector.get()?;
        Ok(DuplicateStruct { _b, _a, _x })
    }

    fn debug_line() -> Option<String> {
        site(745)
    }

    fn dependencies_names() -> Vec<(TypeId, String)> {
        vec![dep::<ManyB>(), dep::<A>(), dep::<u64>()]
    }
}

#[test]
fn fail_on_duplicate_values() {
    let inject_res = InjectionBinder::new()
        .inject::<DuplicateStruct>()
        .inject::<DuplicateStruct>()
        .inject::<ManyB>()
        .inject::<A>()
        .instance(1u32)
        .instance(2u64)
        .build();

    assert!(inject_res.is_err());
    let err_string = inject_res.err().unwrap().to_string();
    assert!(err_string.contains("Dependencies duplications found"));
    assert!(err_string.contains("DuplicateStruct"));
}

// ----- a dependency that nothing provides -----

#[derive(Clone)]
struct MissingDep {}

impl Named for MissingDep {
    fn type_label() -> String {
        "injection_tests::fail_on_duplicate_missing_values::MissingDep".to_string()
    }
}

#[derive(Clone)]
struct StructWithoutDep {
    _b: ManyB,
    _a: A,
    _x: u64,
    _missing: MissingDep,
}

impl Named for StructWithoutDep {
    fn type_label() -> String {
        "injection_tests::fail_on_duplicate_missing_values::StructWithoutDep".to_string()
    }
}

impl ComponentMeta for StructWithoutDep {
    fn inject(injector: &Injector) -> Result<Self, InjectError> {
        let _b = injector.get()?;
        let _a = injector.get()?;
        let _x = injector.get()?;
        let _missing = injector.get()?;
        Ok(StructWithoutDep { _b, _a, _x, _missing })
    }

    fn debug_line() -> Option<String> {
        site(810)
    }

    fn dependencies_names() -> Vec<(TypeId, String)> {
        vec![dep::<ManyB>(), dep::<A>(), dep::<u64>(), dep::<MissingDep>()]
    }
}

#[test]
fn fail_on_duplicate_missing_values() {
    let inject_res = InjectionBinder::new()
        .inject::<StructWithoutDep>()
        .inject::<ManyB>()
        .inject::<A>()
        .instance(1u32)
        .instance(2u64)
        .build();

    assert!(inject_res.is_err());
    let err_string = inject_res.err().unwrap().to_string();
    assert!(err_string.contains("Missing injection values"));
    assert!(err_string.contains("StructWithoutDep"));
    assert!(err_string.contains("MissingDep"));
}

// ----- deferred components -----

#[derive(Clone)]
struct MissingStruct {
    _x: u32,
}

impl Named for MissingStruct {
    fn type_label() -> String {
        "injection_tests::fail_on_missing_lazy_values::MissingStruct".to_string()
    }
}

impl ComponentMeta for MissingStruct {
    fn inject(injector: &Injector) -> Result<Self, InjectError> {
        let _x = injector.get()?;
        Ok(MissingStruct { _x })
    }

    fn debug_line() -> Option<String> {
        site(860)
    }

    fn dependencies_names() -> Vec<(TypeId, String)> {
        vec![dep::<u32>()]
    }
}

#[test]
fn fail_on_missing_lazy_values() {
    let inject_res = InjectionBinder::new()
        .inject::<Lazy<MissingStruct>>()
        .instance(1u32)
        .build();

    assert!(inject_res.is_err());
    let err_string = inject_res.err().unwrap().to_string();
    assert!(err_string.contains("Missing injection values"));
    assert!(err_string.contains("MissingStruct"));
}

#[test]
fn fail_on_nested_lazy_values() {
    let inject_res = InjectionBinder::new()
        .inject::<Lazy<MissingStruct>>()
        .inject::<Lazy<Lazy<MissingStruct>>>()
        .inject::<MissingStruct>()
        .instance(1u32)
        .build();

    assert!(inject_res.is_err());
    let err_string = inject_res.err().unwrap().to_string();
    assert!(err_string.contains("Nested lazy dependencies"));
    assert!(err_string.contains("MissingStruct"));
}

// ----- components behind a trait -----

trait Test {
    fn x(&self) -> u32;
}

impl Test for A {
    fn x(&self) -> u32 {
        self.x
    }
}

impl Named for dyn Test {
    fn type_label() -> String {
        "dyn injection_tests::work_with_arc_dyn_traits::Test".to_string()
    }
}

#[test]
fn work_with_arc_dyn_traits() {
    let inject_res = InjectionBinder::new()
        .inject::<A>()
        .auto(|x| -> Arc<dyn Test> { Arc::new(x) })
        .instance(1u32)
        .build()
        .unwrap();
    let dyn_type = inject_res.get::<Arc<dyn Test>>().unwrap();
    assert_eq!(dyn_type.x(), 1u32)
}

trait BoxedTest: DynClone {
    fn x(&self) -> u32;
}

impl Clone for Box<dyn BoxedTest> {
    fn clone(&self) -> Self {
        dyn_clone::clone_box(&**self)
    }
}

impl BoxedTest for A {
    fn x(&self) -> u32 {
        self.x
    }
}

impl Named for dyn BoxedTest {
    fn type_label() -> String {
        "dyn injection_tests::work_with_box_dyn_traits::Test".to_string()
    }
}

#[test]
fn work_with_box_dyn_traits() {
    let inject_res = InjectionBinder::new()
        .inject::<A>()
        .auto(|x| -> Box<dyn BoxedTest> { Box::new(x) })
        .instance(1u32)
        .build()
        .unwrap();
    let dyn_type = inject_res.get::<Box<dyn BoxedTest>>().unwrap();
    assert_eq!(dyn_type.x(), 1u32)
}

#[test]
fn fail_on_duplicate_missing_values_with_tuple_init() {
    let inject_res = InjectionBinder::new()
        .inject_fn(|(_b, _a, _x, _missing)| StructWithoutDep { _b, _a, _x, _missing })
        .inject::<ManyB>()
        .inject::<A>()
        .instance(1u32)
        .instance(2u64)
        .build();

    assert!(inject_res.is_err());
    let err_string = inject_res.err().unwrap().to_string();
    assert!(err_string.contains("Missing injection values"));
    assert!(err_string.contains("StructWithoutDep"));
    assert!(err_string.contains("MissingDep"));
}

// ----- a cycle -----

#[derive(Clone)]
struct LoopA {
    _x: u32,
    _cycle: Box<CycleStart>,
}

impl Named for LoopA {
    fn type_label() -> String {
        "injection_tests::fail_on_cyclic_dep::A".to_string()
    }
}

impl ComponentMeta for LoopA {
    fn inject(injector: &Injector) -> Result<Self, InjectError> {
        let _x = injector.get()?;
        let _cycle = injector.get()?;
        Ok(LoopA { _x, _cycle })
    }

    fn debug_line() -> Option<String> {
        site(1000)
    }

    fn dependencies_names() -> Vec<(TypeId, String)> {
        vec![dep::<u32>(), dep::<Box<CycleStart>>()]
    }
}

#[derive(Clone)]
struct LoopB {
    _a: LoopA,
    _x: u32,
}

impl Named for LoopB {
    fn type_label() -> String {
        "injection_tests::fail_on_cyclic_dep::B".to_string()
    }
}

impl ComponentMeta for LoopB {
    fn inject(injector: &Injector) -> Result<Self, InjectError> {
        let _a = injector.get()?;
        let _x = injector.get()?;
        Ok(LoopB { _a, _x })
    }

    fn debug_line() -> Option<String> {
        site(1030)
    }

    fn dependencies_names() -> Vec<(TypeId, String)> {
        vec![dep::<LoopA>(), dep::<u32>()]
    }
}

#[derive(Clone)]
struct ShouldNotBeInErr {
    _x: u32,
}

impl Named for ShouldNotBeInErr {
    fn type_label() -> String {
        "injection_tests::fail_on_cyclic_dep::ShouldNotBeInErr".to_string()
    }
}

impl ComponentMeta for ShouldNotBeInErr {
    fn inject(injector: &Injector) -> Result<Self, InjectError> {
        let _x = injector.get()?;
        Ok(ShouldNotBeInErr { _x })
    }

    fn debug_line() -> Option<String> {
        site(1055)
    }

    fn dependencies_names() -> Vec<(TypeId, String)> {
        vec![dep::<u32>()]
    }
}

#[derive(Clone)]
struct CycleStart {
    _b: LoopB,
    _a: LoopA,
    _x: u64,
    _d: ShouldNotBeInErr,
}

impl Named for CycleStart {
    fn type_label() -> String {
        "injection_tests::fail_on_cyclic_dep::CycleStart".to_string()
    }
}

impl ComponentMeta for CycleStart {
    fn inject(injector: &Injector) -> Result<Self, InjectError> {
        let _b = injector.get()?;
        let _a = injector.get()?;
        let _x = injector.get()?;
        let _d = injector.get()?;
        Ok(CycleStart { _b, _a, _x, _d })
    }

    fn debug_line() -> Option<String> {
        site(1090)
    }

    fn dependencies_names() -> Vec<(TypeId, String)> {
        vec![dep::<LoopB>(), dep::<LoopA>(), dep::<u64>(), dep::<ShouldNotBeInErr>()]
    }
}

#[test]
fn fail_on_cyclic_dep() {
    let inject_res = InjectionBinder::new()
        .inject::<Box<CycleStart>>()
        .inject::<ShouldNotBeInErr>()
        .inject::<LoopB>()
        .inject::<LoopA>()
        .instance(1u32)
        .instance(2u64)
        .build();

    assert!(inject_res.is_err());
    let err_string = inject_res.err().unwrap().to_string();
    assert!(err_string.contains("Dependencies cycle (one or more) found"));
    assert!(err_string.contains("CycleStart"));
    assert!(err_string.contains("A"));
    assert!(!err_string.contains("ShouldNotBeInErr"));
}

// ----- values that register their fields -----

struct ExpandOne {
    x: u32,
}

impl ComponentExpander for ExpandOne {
    fn expand<T: Clone + Named + 'static>(self, injector: InjectionBinder<T>) -> InjectionBinder<T> {
        let ExpandOne { x } = self;
        injector.instance(x)
    }
}

#[test]
fn should_work_with_expansion() {
    let inject = InjectionBinder::new()
        .expand(ExpandOne { x: 1 })
        .build()
        .unwrap();

    let x = inject.get::<u32>().unwrap();
    assert_eq!(x, 1);
}

struct ExpandTwo {
    x: u32,
    y: u64,
}

impl ComponentExpander for ExpandTwo {
    fn expand<T: Clone + Named + 'static>(self, injector: InjectionBinder<T>) -> InjectionBinder<T> {
        let ExpandTwo { x, y } = self;
        injector.instance(x).instance(y)
    }
}

#[test]
fn should_work_with_expansion_with_multiple_fields() {
    let inject = InjectionBinder::new()
        .expand(ExpandTwo { x: 1, y: 2 })
        .build()
        .unwrap();

    let x = inject.get::<u32>().unwrap();
    assert_eq!(x, 1);
    let y = inject.get::<u64>().unwrap();
    assert_eq!(y, 2);
}

struct ExpandIgnoring {
    x: u32,
    _y: u64,
}

impl ComponentExpander for ExpandIgnoring {
    fn expand<T: Clone + Named + 'static>(self, injector: InjectionBinder<T>) -> InjectionBinder<T> {
        let ExpandIgnoring { x, .. } = self;
        injector.instance(x)
    }
}

#[test]
fn should_work_with_expansion_with_ignore() {
    let inject = InjectionBinder::new()
        .expand(ExpandIgnoring { x: 1, _y: 2 })
        .build()
        .unwrap();

    let x = inject.get::<u32>().unwrap();
    assert_eq!(x, 1);
    let y = inject.get::<u64>();
    assert_eq!(y.is_err(), true);
}

struct ExpandGeneric<T> {
    x: u32,
    _p: PhantomData<T>,
}

impl<P> ComponentExpander for ExpandGeneric<P> {
    fn expand<T: Clone + Named + 'static>(self, injector: InjectionBinder<T>) -> InjectionBinder<T> {
        let ExpandGeneric { x, .. } = self;
        injector.instance(x)
    }
}

#[test]
fn should_work_with_generics() {
    let inject = InjectionBinder::new()
        .expand(ExpandGeneric::<()> { x: 1, _p: PhantomData })
        .build()
        .unwrap();

    let x = inject.get::<u32>().unwrap();
    assert_eq!(x, 1);
    let y = inject.get::<PhantomData<()>>();
    assert_eq!(y.is_err(), true);
}
