use mydi::collections::{holds, KeyMap, KeySet};
use mydi::error::{InjectError, MissingReport};
use mydi::graph::Registration;
use mydi::resolution::{
    traverse_dependencies_and_verify_recursion, validate, verify_recursive_deps,
};
use mydi::validation::{
    depends_on_any, find_duplicates, find_missing, find_nested_lazy, registered_keys,
    render_names, verify_duplicates, verify_missing_deps, verify_nested_lazy_deps,
};
use std::any::TypeId;

struct K1;
struct K2;
struct K3;
struct K4;
struct K5;
struct K6;

fn k1() -> TypeId {
    TypeId::of::<K1>()
}

fn k2() -> TypeId {
    TypeId::of::<K2>()
}

fn k3() -> TypeId {
    TypeId::of::<K3>()
}

fn k4() -> TypeId {
    TypeId::of::<K4>()
}

fn k5() -> TypeId {
    TypeId::of::<K5>()
}

fn k6() -> TypeId {
    TypeId::of::<K6>()
}

fn node(key: TypeId, dependencies: Vec<TypeId>) -> Registration {
    Registration { key, dependencies }
}

fn set_of(keys: Vec<TypeId>) -> KeySet {
    let mut set = KeySet::new();
    set.insert_all(&keys);
    set
}

fn names_of(pairs: Vec<(TypeId, &str)>) -> KeyMap<String> {
    let mut names = KeyMap::new();
    for (key, name) in pairs {
        names.insert(key, name.to_string());
    }
    names
}

fn all_names() -> KeyMap<String> {
    names_of(vec![
        (k1(), "app::K1"),
        (k2(), "app::K2"),
        (k3(), "app::K3"),
        (k4(), "app::K4"),
        (k5(), "app::K5"),
        (k6(), "app::K6"),
    ])
}

// ----- collections -----

#[test]
fn key_set_tells_keys_apart() {
    let mut set = KeySet::new();
    assert!(!set.contains(&k1()));
    assert!(set.insert(k1()));
    assert!(set.contains(&k1()));
    assert!(!set.contains(&k2()));
    assert!(!set.insert(k1()));
    assert!(set.insert(k2()));
    assert!(set.contains(&k2()));
}

#[test]
fn key_set_takes_the_keys_of_another() {
    let mut set = set_of(vec![k1()]);
    let other = set_of(vec![k2(), k3()]);
    set.extend(&other);
    assert!(set.contains(&k1()));
    assert!(set.contains(&k2()));
    assert!(set.contains(&k3()));
    assert!(!set.contains(&k4()));
}

#[test]
fn holds_finds_a_key_in_a_list() {
    let keys = vec![k1(), k2()];
    assert!(holds(&keys, &k2()));
    assert!(!holds(&keys, &k3()));
    assert!(!holds(&vec![], &k1()));
}

#[test]
fn key_map_keeps_the_last_value_of_a_key() {
    let mut map: KeyMap<u32> = KeyMap::new();
    assert_eq!(map.get(&k1()), None);
    assert!(!map.contains_key(&k1()));
    map.insert(k1(), 1);
    map.insert(k2(), 2);
    map.insert(k1(), 10);
    assert_eq!(map.get(&k1()), Some(&10));
    assert_eq!(map.get(&k2()), Some(&2));
    assert_eq!(map.get(&k3()), None);
    assert!(map.contains_key(&k2()));
    assert_eq!(map.keys().len(), 2);
}

#[test]
fn key_map_extend_prefers_the_other_map() {
    let mut map: KeyMap<u32> = KeyMap::new();
    map.insert(k1(), 1);
    map.insert(k2(), 2);
    let mut other: KeyMap<u32> = KeyMap::new();
    other.insert(k2(), 20);
    other.insert(k3(), 30);
    map.extend(other);
    assert_eq!(map.get(&k1()), Some(&1));
    assert_eq!(map.get(&k2()), Some(&20));
    assert_eq!(map.get(&k3()), Some(&30));
    let keys = map.keys();
    assert_eq!(keys.len(), 3);
    assert!(holds(&keys, &k1()) && holds(&keys, &k2()) && holds(&keys, &k3()));
}

// ----- names of keys -----

#[test]
fn render_names_skips_keys_without_a_name() {
    let names = names_of(vec![(k1(), "app::K1"), (k3(), "app::deep::K3")]);
    let keys = vec![k1(), k2(), k3()];
    assert_eq!(render_names(&keys, &names, false), vec!["app::K1", "app::deep::K3"]);
    assert_eq!(render_names(&keys, &names, true), vec!["K1", "K3"]);
}

// ----- duplicates -----

#[test]
fn duplicates_are_listed_once_in_the_order_met() {
    let graph = vec![
        node(k1(), vec![k5()]),
        node(k2(), vec![k5()]),
        node(k2(), vec![k5()]),
        node(k1(), vec![k6()]),
        node(k1(), vec![k5()]),
        node(k2(), vec![k5()]),
    ];
    assert_eq!(find_duplicates(&KeySet::new(), &graph), vec![k2(), k1()]);
}

#[test]
fn registrations_without_dependencies_are_never_duplicates() {
    let graph = vec![
        node(k1(), vec![]),
        node(k1(), vec![]),
        node(k2(), vec![k1()]),
        node(k2(), vec![]),
        node(k1(), vec![]),
    ];
    assert_eq!(find_duplicates(&KeySet::new(), &graph), Vec::<TypeId>::new());
    assert_eq!(verify_duplicates(&KeySet::new(), &graph, &all_names(), false), Ok(()));
}

#[test]
fn a_known_key_registered_with_dependencies_is_a_duplicate() {
    let graph = vec![node(k1(), vec![k2()]), node(k3(), vec![])];
    let known = set_of(vec![k1(), k3()]);
    assert_eq!(find_duplicates(&known, &graph), vec![k1()]);
}

#[test]
fn duplicate_failure_names_the_types() {
    let graph = vec![node(k1(), vec![k2()]), node(k1(), vec![k2()]), node(k2(), vec![])];
    assert_eq!(
        verify_duplicates(&KeySet::new(), &graph, &all_names(), false),
        Err(InjectError::DuplicateRegistration { types: vec!["app::K1".to_string()] })
    );
    assert_eq!(
        verify_duplicates(&KeySet::new(), &graph, &all_names(), true),
        Err(InjectError::DuplicateRegistration { types: vec!["K1".to_string()] })
    );
}

#[test]
fn duplicate_is_found_wherever_it_stands() {
    let first = vec![node(k1(), vec![k2()]), node(k1(), vec![k2()]), node(k2(), vec![]), node(k3(), vec![k2()])];
    let middle = vec![node(k1(), vec![k2()]), node(k2(), vec![]), node(k1(), vec![k2()]), node(k3(), vec![k2()])];
    let ends = vec![node(k1(), vec![k2()]), node(k2(), vec![]), node(k3(), vec![k2()]), node(k1(), vec![k2()])];
    for graph in [first, middle, ends] {
        assert_eq!(find_duplicates(&KeySet::new(), &graph), vec![k1()]);
    }
}

// ----- deferred components -----

#[test]
fn depends_on_any_looks_at_every_dependency() {
    let set = set_of(vec![k3()]);
    assert!(depends_on_any(&vec![k1(), k3()], &set));
    assert!(!depends_on_any(&vec![k1(), k2()], &set));
    assert!(!depends_on_any(&vec![], &set));
}

#[test]
fn nested_lazy_lists_deferred_components_that_need_deferred_ones() {
    let lazy = set_of(vec![k1(), k2()]);
    let graph = vec![
        node(k1(), vec![k3()]),
        node(k2(), vec![k1()]),
        node(k3(), vec![k1()]),
        node(k2(), vec![k4(), k2()]),
    ];
    assert_eq!(find_nested_lazy(&lazy, &graph), vec![k2(), k2()]);
    assert_eq!(
        verify_nested_lazy_deps(&lazy, &graph, &all_names(), true),
        Err(InjectError::IllegalLazyNesting { types: vec!["K2".to_string(), "K2".to_string()] })
    );
}

#[test]
fn deferred_components_that_need_plain_ones_are_fine() {
    let lazy = set_of(vec![k1()]);
    let graph = vec![node(k1(), vec![k2()]), node(k2(), vec![k1()])];
    assert_eq!(find_nested_lazy(&lazy, &graph), Vec::<TypeId>::new());
    assert_eq!(verify_nested_lazy_deps(&lazy, &graph, &all_names(), false), Ok(()));
}

// ----- missing dependencies -----

#[test]
fn registered_keys_are_those_of_the_graph() {
    let graph = vec![node(k1(), vec![k2()]), node(k3(), vec![])];
    let keys = registered_keys(&graph);
    assert!(keys.contains(&k1()));
    assert!(keys.contains(&k3()));
    assert!(!keys.contains(&k2()));
}

#[test]
fn missing_reports_name_owner_site_and_dependencies() {
    let graph = vec![
        node(k1(), vec![k2(), k5(), k6()]),
        node(k2(), vec![]),
        node(k3(), vec![k2()]),
        node(k4(), vec![k6()]),
    ];
    let mut sites = KeyMap::new();
    sites.insert(k1(), "src/app.rs:7".to_string());
    let reports = find_missing(&KeySet::new(), &graph, &all_names(), &sites, true);
    assert_eq!(
        reports,
        vec![
            MissingReport {
                name: "K1".to_string(),
                debug_site: Some("src/app.rs:7".to_string()),
                missing: vec!["K5".to_string(), "K6".to_string()],
            },
            MissingReport { name: "K4".to_string(), debug_site: None, missing: vec!["K6".to_string()] },
        ]
    );
}

#[test]
fn known_keys_are_not_missing() {
    let graph = vec![node(k1(), vec![k2(), k5()])];
    let known = set_of(vec![k2(), k5()]);
    assert_eq!(verify_missing_deps(&known, &graph, &all_names(), &KeyMap::new(), false), Ok(()));
}

#[test]
fn every_missing_name_is_trimmed() {
    let names = names_of(vec![(k1(), " app::Owner "), (k2(), " app::X "), (k3(), " app::Y ")]);
    let graph = vec![node(k1(), vec![k2(), k3()])];
    let long = find_missing(&KeySet::new(), &graph, &names, &KeyMap::new(), false);
    assert_eq!(long[0].name, " app::Owner ");
    assert_eq!(long[0].missing, vec!["app::X", "app::Y"]);
    let short = find_missing(&KeySet::new(), &graph, &names, &KeyMap::new(), true);
    assert_eq!(short[0].name, "Owner ");
    assert_eq!(short[0].missing, vec!["X", "Y"]);
}

#[test]
fn dependencies_and_owners_without_a_name_are_not_reported() {
    let names = names_of(vec![(k1(), "app::K1"), (k4(), "app::K4")]);
    let graph = vec![node(k1(), vec![k2()]), node(k3(), vec![k4()])];
    let reports = find_missing(&KeySet::new(), &graph, &names, &KeyMap::new(), false);
    assert_eq!(reports, vec![]);
}

#[test]
fn missing_failure_holds_the_reports() {
    let graph = vec![node(k1(), vec![k2()])];
    assert_eq!(
        verify_missing_deps(&KeySet::new(), &graph, &all_names(), &KeyMap::new(), true),
        Err(InjectError::MissingDependencies {
            per_component: vec![MissingReport {
                name: "K1".to_string(),
                debug_site: None,
                missing: vec!["K2".to_string()],
            }],
        })
    );
}

// ----- resolution -----

#[test]
fn resolution_goes_in_waves() {
    let graph = vec![
        node(k4(), vec![k3()]),
        node(k3(), vec![k2()]),
        node(k2(), vec![k1()]),
        node(k1(), vec![]),
    ];
    let found = traverse_dependencies_and_verify_recursion(&KeySet::new(), &graph, &KeySet::new());
    assert_eq!(found.order, vec![k1(), k2(), k3(), k4()]);
    assert_eq!(found.stalled, Vec::<TypeId>::new());
}

#[test]
fn a_wave_keeps_the_order_of_registration() {
    let graph = vec![
        node(k3(), vec![k1()]),
        node(k2(), vec![k1()]),
        node(k4(), vec![k2(), k3()]),
        node(k1(), vec![]),
        node(k5(), vec![]),
    ];
    let found = traverse_dependencies_and_verify_recursion(&KeySet::new(), &graph, &KeySet::new());
    assert_eq!(found.order, vec![k1(), k5(), k3(), k2(), k4()]);
}

#[test]
fn known_keys_count_as_available() {
    let graph = vec![node(k2(), vec![k1()])];
    let found = traverse_dependencies_and_verify_recursion(&set_of(vec![k1()]), &graph, &KeySet::new());
    assert_eq!(found.order, vec![k2()]);
    let stuck = traverse_dependencies_and_verify_recursion(&KeySet::new(), &graph, &KeySet::new());
    assert_eq!(stuck.order, Vec::<TypeId>::new());
    assert_eq!(stuck.stalled, vec![k2()]);
}

#[test]
fn deferred_components_are_resolved_first() {
    // k3 needs k2 and k1; k2 needs k1; k1 needs the deferred k4; k4 stands for k3
    let graph = vec![
        node(k3(), vec![k2(), k1()]),
        node(k4(), vec![k3()]),
        node(k2(), vec![k1()]),
        node(k1(), vec![k4()]),
    ];
    let lazy = set_of(vec![k4()]);
    let found = traverse_dependencies_and_verify_recursion(&KeySet::new(), &graph, &lazy);
    assert_eq!(found.order, vec![k4(), k1(), k2(), k3()]);
    assert_eq!(found.stalled, Vec::<TypeId>::new());
}

#[test]
fn a_cycle_stalls_and_only_the_cycle() {
    let graph = vec![
        node(k1(), vec![k2()]),
        node(k5(), vec![k6()]),
        node(k2(), vec![k3()]),
        node(k3(), vec![k1()]),
        node(k6(), vec![]),
        node(k4(), vec![k1()]),
    ];
    let found = traverse_dependencies_and_verify_recursion(&KeySet::new(), &graph, &KeySet::new());
    assert_eq!(found.order, vec![k6(), k5()]);
    assert_eq!(found.stalled, vec![k1(), k2(), k3(), k4()]);
}

#[test]
fn an_empty_graph_resolves_to_nothing() {
    let found = traverse_dependencies_and_verify_recursion(&KeySet::new(), &vec![], &KeySet::new());
    assert_eq!(found.order, Vec::<TypeId>::new());
    assert_eq!(found.stalled, Vec::<TypeId>::new());
    assert_eq!(
        validate(&KeySet::new(), &vec![], &KeySet::new(), &KeyMap::new(), &KeyMap::new(), false),
        Ok(vec![])
    );
}

#[test]
fn the_last_registration_of_a_key_counts() {
    let later_is_plain = vec![node(k1(), vec![k1()]), node(k1(), vec![])];
    let found = traverse_dependencies_and_verify_recursion(&KeySet::new(), &later_is_plain, &KeySet::new());
    assert_eq!(found.order, vec![k1()]);
    let later_is_circular = vec![node(k1(), vec![]), node(k1(), vec![k1()])];
    let stuck = traverse_dependencies_and_verify_recursion(&KeySet::new(), &later_is_circular, &KeySet::new());
    assert_eq!(stuck.order, Vec::<TypeId>::new());
    assert_eq!(stuck.stalled, vec![k1()]);
}

#[test]
fn a_key_registered_twice_is_resolved_once() {
    let graph = vec![node(k1(), vec![]), node(k2(), vec![k1()]), node(k1(), vec![])];
    let found = traverse_dependencies_and_verify_recursion(&KeySet::new(), &graph, &KeySet::new());
    assert_eq!(found.order, vec![k1(), k2()]);
}

#[test]
fn cycle_failure_names_the_stalled() {
    let graph = vec![node(k1(), vec![k2()]), node(k2(), vec![k1()]), node(k3(), vec![])];
    assert_eq!(
        verify_recursive_deps(&KeySet::new(), &graph, &KeySet::new(), &all_names(), true),
        Err(InjectError::DependencyCycle { types: vec!["K1".to_string(), "K2".to_string()] })
    );
    let fine = vec![node(k1(), vec![k3()]), node(k3(), vec![])];
    assert_eq!(
        verify_recursive_deps(&KeySet::new(), &fine, &KeySet::new(), &all_names(), true),
        Ok(vec![k3(), k1()])
    );
}

// ----- validation as a whole -----

#[test]
fn the_earlier_pass_decides_the_failure() {
    let names = all_names();
    let sites = KeyMap::new();
    let lazy = set_of(vec![k3(), k4()]);
    // duplicates, nesting, a missing dependency and a cycle at once
    let everything = vec![
        node(k1(), vec![k2()]),
        node(k1(), vec![k2()]),
        node(k2(), vec![k1(), k6()]),
        node(k3(), vec![k4()]),
        node(k4(), vec![k5()]),
        node(k5(), vec![]),
    ];
    assert_eq!(
        validate(&KeySet::new(), &everything, &lazy, &names, &sites, true),
        Err(InjectError::DuplicateRegistration { types: vec!["K1".to_string()] })
    );
    let without_duplicates: Vec<Registration> = everything.into_iter().skip(1).collect();
    assert_eq!(
        validate(&KeySet::new(), &without_duplicates, &lazy, &names, &sites, true),
        Err(InjectError::IllegalLazyNesting { types: vec!["K3".to_string()] })
    );
    let without_nesting = vec![
        node(k1(), vec![k2()]),
        node(k2(), vec![k1(), k6()]),
        node(k4(), vec![k5()]),
        node(k5(), vec![]),
    ];
    assert_eq!(
        validate(&KeySet::new(), &without_nesting, &lazy, &names, &sites, true),
        Err(InjectError::MissingDependencies {
            per_component: vec![MissingReport {
                name: "K2".to_string(),
                debug_site: None,
                missing: vec!["K6".to_string()],
            }],
        })
    );
    let only_the_cycle = vec![
        node(k1(), vec![k2()]),
        node(k2(), vec![k1()]),
        node(k4(), vec![k5()]),
        node(k5(), vec![]),
    ];
    assert_eq!(
        validate(&KeySet::new(), &only_the_cycle, &lazy, &names, &sites, true),
        Err(InjectError::DependencyCycle { types: vec!["K1".to_string(), "K2".to_string()] })
    );
}

#[test]
fn a_layered_graph_validates_in_any_order() {
    let forward = vec![
        node(k1(), vec![]),
        node(k2(), vec![k1()]),
        node(k3(), vec![k2(), k1()]),
        node(k4(), vec![k3()]),
    ];
    let backward = vec![
        node(k4(), vec![k3()]),
        node(k3(), vec![k2(), k1()]),
        node(k2(), vec![k1()]),
        node(k1(), vec![]),
    ];
    let mixed = vec![
        node(k3(), vec![k2(), k1()]),
        node(k1(), vec![]),
        node(k4(), vec![k3()]),
        node(k2(), vec![k1()]),
    ];
    for graph in [forward, backward, mixed] {
        assert_eq!(
            validate(&KeySet::new(), &graph, &KeySet::new(), &all_names(), &KeyMap::new(), false),
            Ok(vec![k1(), k2(), k3(), k4()])
        );
    }
}

#[test]
fn merged_graphs_validate_whichever_comes_first() {
    let leaves = || vec![node(k1(), vec![]), node(k2(), vec![])];
    let dependents = || vec![node(k4(), vec![k3(), k2()]), node(k3(), vec![k1()])];
    let mut one = leaves();
    one.extend(dependents());
    let mut other = dependents();
    other.extend(leaves());
    let first = validate(&KeySet::new(), &one, &KeySet::new(), &all_names(), &KeyMap::new(), false).unwrap();
    let second = validate(&KeySet::new(), &other, &KeySet::new(), &all_names(), &KeyMap::new(), false).unwrap();
    assert_eq!(first, vec![k1(), k2(), k3(), k4()]);
    assert_eq!(second, vec![k1(), k2(), k3(), k4()]);
}

#[test]
fn where_registrations_of_a_key_disagree_the_order_matters() {
    let a = vec![node(k1(), vec![k1()])];
    let b = vec![node(k1(), vec![])];
    let mut a_then_b = vec![node(k1(), vec![k1()])];
    a_then_b.extend(b);
    let mut b_then_a = vec![node(k1(), vec![])];
    b_then_a.extend(a);
    let names = all_names();
    assert_eq!(
        validate(&KeySet::new(), &a_then_b, &KeySet::new(), &names, &KeyMap::new(), true),
        Ok(vec![k1()])
    );
    assert_eq!(
        validate(&KeySet::new(), &b_then_a, &KeySet::new(), &names, &KeyMap::new(), true),
        Err(InjectError::DependencyCycle { types: vec!["K1".to_string()] })
    );
}

#[test]
fn a_deferred_component_breaks_a_cycle() {
    let cycle = vec![
        node(k1(), vec![k3()]),
        node(k2(), vec![k1()]),
        node(k3(), vec![k2()]),
    ];
    assert_eq!(
        validate(&KeySet::new(), &cycle, &KeySet::new(), &all_names(), &KeyMap::new(), true),
        Err(InjectError::DependencyCycle {
            types: vec!["K1".to_string(), "K2".to_string(), "K3".to_string()],
        })
    );
    let broken = vec![
        node(k1(), vec![k4()]),
        node(k2(), vec![k1()]),
        node(k3(), vec![k2()]),
        node(k4(), vec![k3()]),
    ];
    assert_eq!(
        validate(&KeySet::new(), &broken, &set_of(vec![k4()]), &all_names(), &KeyMap::new(), true),
        Ok(vec![k4(), k1(), k2(), k3()])
    );
}
