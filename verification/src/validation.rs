//! The validation passes that look at each registration by itself:
//! duplicates, deferred components that depend on deferred components, and
//! missing dependencies.

use crate::collections::{holds, KeyMap, KeySet};
use crate::error::{report_views, ErrorView, InjectError, MissingReport};
use crate::graph::{
    checked, duplicate_keys, labels, missing_names, missing_reports, nested_lazy_keys, nests_lazy,
    node_keys, nodes_of, pick, provided_keys, registers, repeats_at, report_on,
    shown_missing, touches, Node, Registration,
};
use crate::names::{make_name_shorter, texts, trim};
use std::any::TypeId;
use vstd::prelude::*;

verus! {

/// The names of `keys` as a report shows them.
pub fn render_names(keys: &Vec<TypeId>, names: &KeyMap<String>, short_types: bool) -> (shown: Vec<
    String,
>)
    ensures
        texts(shown@) == labels(keys@, names@, short_types),
{
    let mut shown: Vec<String> = Vec::new();
    let mut i: usize = 0;
    assert(texts(shown@) =~= labels(keys@.take(0), names@, short_types));
    while i < keys.len()
        invariant
            i <= keys.len(),
            texts(shown@) == labels(keys@.take(i as int), names@, short_types),
        decreases keys.len() - i,
    {
        proof {
            assert(keys@.take(i + 1).drop_last() =~= keys@.take(i as int));
            assert(keys@.take(i + 1).last() == keys@[i as int]);
        }
        match names.get(&keys[i]) {
            Some(name) => {
                let ghost before = shown@;
                let label = make_name_shorter(name.as_str(), short_types).to_owned();
                shown.push(label);
                assert(texts(shown@) =~= texts(before).push(label@));
            },
            None => {},
        }
        i += 1;
    }
    assert(keys@.take(keys.len() as int) =~= keys@);
    shown
}

/// The keys that are registered twice.
pub fn find_duplicates(known: &KeySet, graph: &Vec<Registration>) -> (found: Vec<TypeId>)
    ensures
        found@ == duplicate_keys(known@, nodes_of(graph@)),
{
    let ghost nodes = nodes_of(graph@);
    let mut seen = KeySet::new();
    let mut found: Vec<TypeId> = Vec::new();
    let mut i: usize = 0;
    assert(found@ =~= duplicate_keys(known@, nodes.take(0)));
    while i < graph.len()
        invariant
            i <= graph.len(),
            nodes == nodes_of(graph@),
            forall|k: TypeId|
                (known@.contains(k) || seen@.contains(k)) == checked(
                    known@,
                    nodes.take(i as int),
                    k,
                ),
            found@ == duplicate_keys(known@, nodes.take(i as int)),
        decreases graph.len() - i,
    {
        let ghost before = nodes.take(i as int);
        let ghost after = nodes.take(i + 1);
        proof {
            assert(after.drop_last() =~= before);
            assert(after.last() == nodes[i as int]);
            assert(after.take(i as int) =~= before);
            assert(nodes[i as int] == graph@[i as int]@);
        }
        let key = graph[i].key;
        if graph[i].dependencies.len() > 0 {
            if known.contains(&key) || seen.contains(&key) {
                assert(repeats_at(known@, after, i as int));
                if !holds(&found, &key) {
                    found.push(key);
                }
            } else {
                assert(!repeats_at(known@, after, i as int));
                seen.insert(key);
            }
        } else {
            assert(!repeats_at(known@, after, i as int));
        }
        proof {
            assert forall|k: TypeId|
                (known@.contains(k) || seen@.contains(k)) == checked(known@, after, k) by {
                if checked(known@, before, k) {
                    if !known@.contains(k) {
                        let j = choose|j: int|
                            0 <= j < before.len() && before[j].deps.len() > 0
                                && #[trigger] before[j].key == k;
                        assert(after[j] == before[j]);
                    }
                }
                if checked(known@, after, k) && !known@.contains(k) {
                    let j = choose|j: int|
                        0 <= j < after.len() && after[j].deps.len() > 0 && #[trigger] after[j].key
                            == k;
                    if j < i {
                        assert(before[j] == after[j]);
                    }
                }
                if graph@[i as int].dependencies@.len() > 0 && k == key {
                    assert(after[i as int].key == k);
                }
            }
        }
        i += 1;
    }
    assert(nodes.take(graph.len() as int) =~= nodes);
    found
}

/// Fails where a component with dependencies is registered twice.
pub fn verify_duplicates(
    known: &KeySet,
    graph: &Vec<Registration>,
    names: &KeyMap<String>,
    short_types: bool,
) -> (checked: Result<(), InjectError>)
    ensures
        match checked {
            Ok(_) => duplicate_keys(known@, nodes_of(graph@)).len() == 0,
            Err(error) => duplicate_keys(known@, nodes_of(graph@)).len() > 0 && error@
                == (ErrorView::DuplicateRegistration {
                types: labels(duplicate_keys(known@, nodes_of(graph@)), names@, short_types),
            }),
        },
{
    let duplicates = find_duplicates(known, graph);
    if duplicates.len() == 0 {
        return Ok(());
    }
    Err(InjectError::DuplicateRegistration { types: render_names(&duplicates, names, short_types) })
}

/// Whether one of `deps` is in `set`.
pub fn depends_on_any(deps: &Vec<TypeId>, set: &KeySet) -> (found: bool)
    ensures
        found == touches(deps@, set@),
{
    let mut j: usize = 0;
    while j < deps.len()
        invariant
            j <= deps.len(),
            forall|t: int| 0 <= t < j ==> !set@.contains(#[trigger] deps@[t]),
        decreases deps.len() - j,
    {
        if set.contains(&deps[j]) {
            return true;
        }
        j += 1;
    }
    false
}

/// The deferred registrations that depend on a deferred component.
pub fn find_nested_lazy(lazy: &KeySet, graph: &Vec<Registration>) -> (found: Vec<TypeId>)
    ensures
        found@ == nested_lazy_keys(lazy@, nodes_of(graph@)),
{
    let ghost nodes = nodes_of(graph@);
    let ghost wanted = |node: Node| nests_lazy(lazy@, node);
    let mut found: Vec<TypeId> = Vec::new();
    let mut i: usize = 0;
    assert(found@ =~= node_keys(pick(nodes.take(0), wanted)));
    while i < graph.len()
        invariant
            i <= graph.len(),
            nodes == nodes_of(graph@),
            wanted == (|node: Node| nests_lazy(lazy@, node)),
            found@ == node_keys(pick(nodes.take(i as int), wanted)),
        decreases graph.len() - i,
    {
        proof {
            assert(nodes.take(i + 1).drop_last() =~= nodes.take(i as int));
            assert(nodes.take(i + 1).last() == graph@[i as int]@);
        }
        if lazy.contains(&graph[i].key) && depends_on_any(&graph[i].dependencies, lazy) {
            found.push(graph[i].key);
            assert(found@ =~= node_keys(pick(nodes.take(i + 1), wanted)));
        }
        i += 1;
    }
    assert(nodes.take(graph.len() as int) =~= nodes);
    found
}

/// Fails where a deferred component depends on a deferred component.
pub fn verify_nested_lazy_deps(
    lazy: &KeySet,
    graph: &Vec<Registration>,
    names: &KeyMap<String>,
    short_types: bool,
) -> (checked: Result<(), InjectError>)
    ensures
        match checked {
            Ok(_) => nested_lazy_keys(lazy@, nodes_of(graph@)).len() == 0,
            Err(error) => nested_lazy_keys(lazy@, nodes_of(graph@)).len() > 0 && error@
                == (ErrorView::IllegalLazyNesting {
                types: labels(nested_lazy_keys(lazy@, nodes_of(graph@)), names@, short_types),
            }),
        },
{
    let invalid = find_nested_lazy(lazy, graph);
    if invalid.len() == 0 {
        return Ok(());
    }
    Err(InjectError::IllegalLazyNesting { types: render_names(&invalid, names, short_types) })
}

/// The keys that `graph` registers.
pub fn registered_keys(graph: &Vec<Registration>) -> (keys: KeySet)
    ensures
        forall|k: TypeId| keys@.contains(k) == registers(nodes_of(graph@), k),
{
    let ghost nodes = nodes_of(graph@);
    let mut keys = KeySet::new();
    let mut i: usize = 0;
    while i < graph.len()
        invariant
            i <= graph.len(),
            nodes == nodes_of(graph@),
            forall|k: TypeId| keys@.contains(k) == registers(nodes.take(i as int), k),
        decreases graph.len() - i,
    {
        let ghost before = nodes.take(i as int);
        let ghost after = nodes.take(i + 1);
        keys.insert(graph[i].key);
        proof {
            assert(nodes[i as int] == graph@[i as int]@);
            assert forall|k: TypeId| keys@.contains(k) == registers(after, k) by {
                if registers(before, k) {
                    let j = choose|j: int| 0 <= j < before.len() && #[trigger] before[j].key == k;
                    assert(after[j].key == k);
                }
                if registers(after, k) {
                    let j = choose|j: int| 0 <= j < after.len() && #[trigger] after[j].key == k;
                    if j < i {
                        assert(before[j].key == k);
                    }
                }
                if k == graph@[i as int].key {
                    assert(after[i as int].key == k);
                }
            }
        }
        i += 1;
    }
    assert(nodes.take(graph.len() as int) =~= nodes);
    keys
}

/// The names, as a report shows them, of those of `deps` that neither
/// `known` nor `registered` holds.
fn missing_of(
    known: &KeySet,
    registered: &KeySet,
    deps: &Vec<TypeId>,
    names: &KeyMap<String>,
    short_types: bool,
) -> (missing: Vec<String>)
    ensures
        texts(missing@) == shown_missing(
            missing_names(known@.union(registered@), deps@, names@),
            short_types,
        ),
{
    let ghost available = known@.union(registered@);
    let mut missing: Vec<String> = Vec::new();
    let mut j: usize = 0;
    assert(texts(missing@) =~= shown_missing(
        missing_names(available, deps@.take(0), names@),
        short_types,
    ));
    while j < deps.len()
        invariant
            j <= deps.len(),
            available == known@.union(registered@),
            texts(missing@) == shown_missing(
                missing_names(available, deps@.take(j as int), names@),
                short_types,
            ),
            missing@.len() == missing_names(available, deps@.take(j as int), names@).len(),
        decreases deps.len() - j,
    {
        proof {
            assert(deps@.take(j + 1).drop_last() =~= deps@.take(j as int));
            assert(deps@.take(j + 1).last() == deps@[j as int]);
        }
        if !known.contains(&deps[j]) && !registered.contains(&deps[j]) {
            match names.get(&deps[j]) {
                Some(name) => {
                    let ghost before = missing@;
                    let ghost raw = missing_names(available, deps@.take(j as int), names@);
                    let label = make_name_shorter(trim(name.as_str()), short_types).to_owned();
                    missing.push(label);
                    assert(texts(missing@) =~= shown_missing(raw.push(name@), short_types)) by {
                        assert(texts(missing@) =~= texts(before).push(label@));
                    }
                },
                None => {},
            }
        }
        j += 1;
    }
    assert(deps@.take(deps.len() as int) =~= deps@);
    missing
}

/// The reports on the registrations of which a dependency is missing.
pub fn find_missing(
    known: &KeySet,
    graph: &Vec<Registration>,
    names: &KeyMap<String>,
    sites: &KeyMap<String>,
    short_types: bool,
) -> (reports: Vec<MissingReport>)
    ensures
        report_views(reports@) == missing_reports(
            provided_keys(known@, nodes_of(graph@)),
            nodes_of(graph@),
            names@,
            sites@,
            short_types,
        ),
{
    let ghost nodes = nodes_of(graph@);
    let ghost available = provided_keys(known@, nodes);
    let registered = registered_keys(graph);
    assert(available =~= known@.union(registered@));
    let mut reports: Vec<MissingReport> = Vec::new();
    let mut i: usize = 0;
    assert(report_views(reports@) =~= missing_reports(
        available,
        nodes.take(0),
        names@,
        sites@,
        short_types,
    ));
    while i < graph.len()
        invariant
            i <= graph.len(),
            nodes == nodes_of(graph@),
            available == known@.union(registered@),
            report_views(reports@) == missing_reports(
                available,
                nodes.take(i as int),
                names@,
                sites@,
                short_types,
            ),
        decreases graph.len() - i,
    {
        proof {
            assert(nodes.take(i + 1).drop_last() =~= nodes.take(i as int));
            assert(nodes.take(i + 1).last() == graph@[i as int]@);
        }
        let missing = missing_of(known, &registered, &graph[i].dependencies, names, short_types);
        proof {
            let raw = missing_names(available, graph@[i as int]@.deps, names@);
            assert(texts(missing@).len() == missing@.len());
            assert(shown_missing(raw, short_types).len() == raw.len());
        }
        if missing.len() > 0 {
            match names.get(&graph[i].key) {
                Some(name) => {
                    let debug_site = match sites.get(&graph[i].key) {
                        Some(site) => Some(site.clone()),
                        None => None,
                    };
                    let report = MissingReport {
                        name: make_name_shorter(name.as_str(), short_types).to_owned(),
                        debug_site,
                        missing,
                    };
                    let ghost before = reports@;
                    assert(Some(report@) == report_on(
                        available,
                        graph@[i as int]@,
                        names@,
                        sites@,
                        short_types,
                    ));
                    reports.push(report);
                    assert(report_views(reports@) =~= report_views(before).push(report@));
                },
                None => {},
            }
        }
        i += 1;
    }
    assert(nodes.take(graph.len() as int) =~= nodes);
    reports
}

/// Fails where a component depends on a key that is neither known nor
/// registered.
pub fn verify_missing_deps(
    known: &KeySet,
    graph: &Vec<Registration>,
    names: &KeyMap<String>,
    sites: &KeyMap<String>,
    short_types: bool,
) -> (checked: Result<(), InjectError>)
    ensures
        match checked {
            Ok(_) => missing_reports(
                provided_keys(known@, nodes_of(graph@)),
                nodes_of(graph@),
                names@,
                sites@,
                short_types,
            ).len() == 0,
            Err(error) => missing_reports(
                provided_keys(known@, nodes_of(graph@)),
                nodes_of(graph@),
                names@,
                sites@,
                short_types,
            ).len() > 0 && error@ == (ErrorView::MissingDependencies {
                per_component: missing_reports(
                    provided_keys(known@, nodes_of(graph@)),
                    nodes_of(graph@),
                    names@,
                    sites@,
                    short_types,
                ),
            }),
        },
{
    let reports = find_missing(known, graph, names, sites, short_types);
    assert(report_views(reports@).len() == reports@.len());
    if reports.len() == 0 {
        return Ok(());
    }
    Err(InjectError::MissingDependencies { per_component: reports })
}

} // verus!
