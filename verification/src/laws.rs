//! What holds of validation and resolution whatever the graph.

use crate::error::{ErrorView, MissingReportView};
use crate::graph::{
    all_keys_named, duplicate_keys, eager_part, effective, effective_upto, is_last_of_key, labels,
    lazy_part, missing_names, missing_reports, nested_lazy_keys, nests_lazy, node_keys, pick,
    provided, provided_keys, ready, ready_part, registers, repeats_at, report_on, resolution,
    shown_missing, touches, validation, waiting_part, waves, Node,
};
use crate::injection_binder::BinderView;
use crate::names::{shown, trimmed};
use std::any::TypeId;
use vstd::prelude::*;

verus! {

// ----- parts of a sequence -----
/// A picked part holds exactly the accepted items of the whole.
pub proof fn lemma_pick_members(nodes: Seq<Node>, wanted: spec_fn(Node) -> bool)
    ensures
        forall|node: Node| #[trigger]
            pick(nodes, wanted).contains(node) <==> nodes.contains(node) && wanted(node),
    decreases nodes.len(),
{
    if nodes.len() > 0 {
        let before = nodes.drop_last();
        let part = pick(before, wanted);
        lemma_pick_members(before, wanted);
        assert forall|node: Node| #[trigger]
            pick(nodes, wanted).contains(node) <==> nodes.contains(node) && wanted(node) by {
            assert(part.contains(node) <==> before.contains(node) && wanted(node));
            if nodes.contains(node) {
                let i = choose|i: int| 0 <= i < nodes.len() && nodes[i] == node;
                if i < before.len() {
                    assert(before[i] == node);
                }
            }
            if before.contains(node) {
                let i = choose|i: int| 0 <= i < before.len() && before[i] == node;
                assert(nodes[i] == node);
            }
            assert(nodes[nodes.len() - 1] == nodes.last());
            if wanted(nodes.last()) {
                let whole = part.push(nodes.last());
                if part.contains(node) {
                    let t = choose|t: int| 0 <= t < part.len() && part[t] == node;
                    assert(whole[t] == node);
                }
                if node == nodes.last() {
                    assert(whole[part.len() as int] == node);
                }
                if whole.contains(node) {
                    let t = choose|t: int| 0 <= t < whole.len() && whole[t] == node;
                    if t < part.len() {
                        assert(part[t] == node);
                    }
                }
            }
        }
    }
}

/// Where a key of a list has a name, the labels of the list hold that name
/// as it is shown.
pub proof fn lemma_labels_hold(
    keys: Seq<TypeId>,
    names: Map<TypeId, String>,
    short_types: bool,
    key: TypeId,
)
    requires
        keys.contains(key),
        names.contains_key(key),
    ensures
        labels(keys, names, short_types).contains(shown(names[key]@, short_types)),
    decreases keys.len(),
{
    let before = keys.drop_last();
    let all = labels(keys, names, short_types);
    let part = labels(before, names, short_types);
    if keys.last() == key {
        assert(all == part.push(shown(names[key]@, short_types)));
        assert(all[part.len() as int] == shown(names[key]@, short_types));
    } else {
        let i = choose|i: int| 0 <= i < keys.len() && keys[i] == key;
        assert(before[i] == key);
        lemma_labels_hold(before, names, short_types, key);
        let t = choose|t: int| 0 <= t < part.len() && part[t] == shown(names[key]@, short_types);
        if names.contains_key(keys.last()) {
            assert(all[t] == part[t]);
        }
    }
}

// ----- duplicates -----
/// The duplicate keys are exactly the keys of the registrations that
/// repeat a key.
pub proof fn lemma_duplicate_keys_exact(known: Set<TypeId>, nodes: Seq<Node>)
    ensures
        forall|key: TypeId|
            duplicate_keys(known, nodes).contains(key) <==> exists|i: int|
                repeats_at(known, nodes, i) && #[trigger] nodes[i].key == key,
    decreases nodes.len(),
{
    if nodes.len() > 0 {
        let before = nodes.drop_last();
        let last = nodes.len() - 1;
        let found = duplicate_keys(known, before);
        let all = duplicate_keys(known, nodes);
        lemma_duplicate_keys_exact(known, before);
        assert forall|i: int| 0 <= i < before.len() implies repeats_at(known, before, i)
            == repeats_at(known, nodes, i) by {
            assert(before.take(i) =~= nodes.take(i));
            assert(before[i] == nodes[i]);
        }
        assert forall|key: TypeId|
            all.contains(key) <==> exists|i: int|
                repeats_at(known, nodes, i) && #[trigger] nodes[i].key == key by {
            if found.contains(key) {
                let t = choose|t: int| 0 <= t < found.len() && found[t] == key;
                if all != found {
                    assert(all[t] == key);
                }
                let i = choose|i: int| repeats_at(known, before, i) && #[trigger] before[i].key
                    == key;
                assert(repeats_at(known, nodes, i) && nodes[i].key == key);
            }
            if all.contains(key) && !found.contains(key) {
                let t = choose|t: int| 0 <= t < all.len() && all[t] == key;
                assert(all == found.push(nodes.last().key));
                if t < found.len() {
                    assert(found[t] == key);
                }
                assert(repeats_at(known, nodes, last) && nodes[last].key == key);
            }
            if exists|i: int| repeats_at(known, nodes, i) && #[trigger] nodes[i].key == key {
                let i = choose|i: int| repeats_at(known, nodes, i) && #[trigger] nodes[i].key
                    == key;
                if i < last {
                    assert(repeats_at(known, before, i) && before[i].key == key);
                    assert(found.contains(key));
                } else {
                    if !found.contains(key) {
                        assert(all == found.push(key));
                        assert(all[found.len() as int] == key);
                    }
                }
            }
        }
    }
}

/// A component with dependencies that is registered twice makes validation
/// fail: the failure is a duplicate registration, and it names the
/// component wherever the two registrations stand.
pub proof fn lemma_duplicate_is_reported(
    known: Set<TypeId>,
    nodes: Seq<Node>,
    lazy: Set<TypeId>,
    names: Map<TypeId, String>,
    sites: Map<TypeId, String>,
    short_types: bool,
    i: int,
    j: int,
)
    requires
        0 <= i < j < nodes.len(),
        nodes[i].key == nodes[j].key,
        nodes[i].deps.len() > 0,
        nodes[j].deps.len() > 0,
    ensures
        validation(known, nodes, lazy, names, sites, short_types) matches Err(
            ErrorView::DuplicateRegistration { types },
        ) && (names.contains_key(nodes[i].key) ==> types.contains(
            shown(names[nodes[i].key]@, short_types),
        )),
{
    let key = nodes[i].key;
    assert(repeats_at(known, nodes, j)) by {
        assert(nodes.take(j)[i] == nodes[i]);
    }
    lemma_duplicate_keys_exact(known, nodes);
    let duplicates = duplicate_keys(known, nodes);
    assert(duplicates.contains(key));
    if names.contains_key(key) {
        lemma_labels_hold(duplicates, names, short_types, key);
    }
}

/// A component with dependencies whose key is known beforehand makes
/// validation fail in the same way.
pub proof fn lemma_known_key_is_duplicate(
    known: Set<TypeId>,
    nodes: Seq<Node>,
    lazy: Set<TypeId>,
    names: Map<TypeId, String>,
    sites: Map<TypeId, String>,
    short_types: bool,
    i: int,
)
    requires
        0 <= i < nodes.len(),
        nodes[i].deps.len() > 0,
        known.contains(nodes[i].key),
    ensures
        validation(known, nodes, lazy, names, sites, short_types) matches Err(
            ErrorView::DuplicateRegistration { types },
        ) && (names.contains_key(nodes[i].key) ==> types.contains(
            shown(names[nodes[i].key]@, short_types),
        )),
{
    let key = nodes[i].key;
    assert(repeats_at(known, nodes, i));
    lemma_duplicate_keys_exact(known, nodes);
    let duplicates = duplicate_keys(known, nodes);
    assert(duplicates.contains(key));
    if names.contains_key(key) {
        lemma_labels_hold(duplicates, names, short_types, key);
    }
}

/// Registrations without dependencies are never duplicates, however often
/// a key is registered.
pub proof fn lemma_plain_values_never_repeat(known: Set<TypeId>, nodes: Seq<Node>)
    requires
        forall|i: int| 0 <= i < nodes.len() ==> (#[trigger] nodes[i]).deps.len() == 0,
    ensures
        duplicate_keys(known, nodes).len() == 0,
{
    lemma_duplicate_keys_exact(known, nodes);
    let duplicates = duplicate_keys(known, nodes);
    if duplicates.len() > 0 {
        assert(duplicates.contains(duplicates[0]));
    }
}

// ----- deferred components -----
/// A deferred component that depends on a deferred component makes
/// validation fail, where nothing is registered twice: the failure is an
/// illegal nesting, and it names the component.
pub proof fn lemma_nested_lazy_is_reported(
    known: Set<TypeId>,
    nodes: Seq<Node>,
    lazy: Set<TypeId>,
    names: Map<TypeId, String>,
    sites: Map<TypeId, String>,
    short_types: bool,
    i: int,
    d: int,
)
    requires
        duplicate_keys(known, nodes).len() == 0,
        0 <= i < nodes.len(),
        0 <= d < nodes[i].deps.len(),
        lazy.contains(nodes[i].key),
        lazy.contains(nodes[i].deps[d]),
    ensures
        validation(known, nodes, lazy, names, sites, short_types) matches Err(
            ErrorView::IllegalLazyNesting { types },
        ) && (names.contains_key(nodes[i].key) ==> types.contains(
            shown(names[nodes[i].key]@, short_types),
        )),
{
    let wanted = |node: Node| nests_lazy(lazy, node);
    let part = pick(nodes, wanted);
    lemma_pick_members(nodes, wanted);
    assert(touches(nodes[i].deps, lazy));
    assert(nodes.contains(nodes[i]));
    assert(part.contains(nodes[i]));
    let t = choose|t: int| 0 <= t < part.len() && part[t] == nodes[i];
    let nested = nested_lazy_keys(lazy, nodes);
    assert(nested[t] == nodes[i].key);
    assert(nested.contains(nodes[i].key));
    if names.contains_key(nodes[i].key) {
        lemma_labels_hold(nested, names, short_types, nodes[i].key);
    }
}

// ----- missing dependencies -----
/// The missing names hold the name of each dependency that is not
/// available and has a name.
pub proof fn lemma_missing_names_hold(
    available: Set<TypeId>,
    deps: Seq<TypeId>,
    names: Map<TypeId, String>,
    d: int,
)
    requires
        0 <= d < deps.len(),
        !available.contains(deps[d]),
        names.contains_key(deps[d]),
    ensures
        missing_names(available, deps, names).contains(names[deps[d]]@),
    decreases deps.len(),
{
    let before = deps.drop_last();
    let all = missing_names(available, deps, names);
    let part = missing_names(available, before, names);
    if d == deps.len() - 1 {
        assert(all == part.push(names[deps[d]]@));
        assert(all[part.len() as int] == names[deps[d]]@);
    } else {
        assert(before[d] == deps[d]);
        lemma_missing_names_hold(available, before, names, d);
        let t = choose|t: int| 0 <= t < part.len() && part[t] == names[deps[d]]@;
        if all != part {
            assert(all[t] == part[t]);
        }
    }
}

/// Each missing name is the name of a dependency that is not available.
pub proof fn lemma_missing_names_only(
    available: Set<TypeId>,
    deps: Seq<TypeId>,
    names: Map<TypeId, String>,
    t: int,
)
    requires
        0 <= t < missing_names(available, deps, names).len(),
    ensures
        exists|d: int|
            0 <= d < deps.len() && !available.contains(#[trigger] deps[d]) && names.contains_key(
                deps[d],
            ) && names[deps[d]]@ == missing_names(available, deps, names)[t],
    decreases deps.len(),
{
    let before = deps.drop_last();
    let all = missing_names(available, deps, names);
    let part = missing_names(available, before, names);
    if deps.len() > 0 {
        if t < part.len() {
            lemma_missing_names_only(available, before, names, t);
            let d = choose|d: int|
                0 <= d < before.len() && !available.contains(#[trigger] before[d])
                    && names.contains_key(before[d]) && names[before[d]]@ == part[t];
            assert(deps[d] == before[d]);
            if all != part {
                assert(all[t] == part[t]);
            }
        } else {
            let d = deps.len() - 1;
            assert(all == part.push(names[deps[d]]@));
            assert(!available.contains(deps[d]) && names.contains_key(deps[d]));
        }
    }
}

/// The reports are exactly those on the single registrations.
pub proof fn lemma_missing_reports_exact(
    available: Set<TypeId>,
    nodes: Seq<Node>,
    names: Map<TypeId, String>,
    sites: Map<TypeId, String>,
    short_types: bool,
)
    ensures
        forall|report: MissingReportView|
            missing_reports(available, nodes, names, sites, short_types).contains(report)
                <==> exists|i: int|
                0 <= i < nodes.len() && report_on(
                    available,
                    #[trigger] nodes[i],
                    names,
                    sites,
                    short_types,
                ) == Some(report),
    decreases nodes.len(),
{
    if nodes.len() > 0 {
        let before = nodes.drop_last();
        let all = missing_reports(available, nodes, names, sites, short_types);
        let part = missing_reports(available, before, names, sites, short_types);
        let last = report_on(available, nodes.last(), names, sites, short_types);
        lemma_missing_reports_exact(available, before, names, sites, short_types);
        assert forall|report: MissingReportView|
            all.contains(report) <==> exists|i: int|
                0 <= i < nodes.len() && report_on(
                    available,
                    #[trigger] nodes[i],
                    names,
                    sites,
                    short_types,
                ) == Some(report) by {
            if part.contains(report) {
                let t = choose|t: int| 0 <= t < part.len() && part[t] == report;
                if all != part {
                    assert(all[t] == report);
                }
                let i = choose|i: int|
                    0 <= i < before.len() && report_on(
                        available,
                        #[trigger] before[i],
                        names,
                        sites,
                        short_types,
                    ) == Some(report);
                assert(nodes[i] == before[i]);
            }
            if all.contains(report) && !part.contains(report) {
                let t = choose|t: int| 0 <= t < all.len() && all[t] == report;
                if t < part.len() {
                    assert(part[t] == all[t]);
                }
                assert(last == Some(report));
                assert(nodes[nodes.len() - 1] == nodes.last());
            }
            if exists|i: int|
                0 <= i < nodes.len() && report_on(
                    available,
                    #[trigger] nodes[i],
                    names,
                    sites,
                    short_types,
                ) == Some(report) {
                let i = choose|i: int|
                    0 <= i < nodes.len() && report_on(
                        available,
                        #[trigger] nodes[i],
                        names,
                        sites,
                        short_types,
                    ) == Some(report);
                if i < before.len() {
                    assert(before[i] == nodes[i]);
                    assert(part.contains(report));
                } else {
                    assert(all == part.push(report));
                    assert(all[part.len() as int] == report);
                }
            }
        }
    }
}

/// Whether a list of shown names holds the raw name `raw` as a report
/// shows it: trimmed and then shortened.
pub open spec fn names_dependency(listed: Seq<Seq<char>>, raw: Seq<char>, short_types: bool) -> bool {
    listed.contains(shown(trimmed(raw), short_types))
}

/// A component that depends on a key that nothing provides makes
/// validation fail, where the two earlier passes find nothing: the failure
/// is that of missing dependencies, and one of its reports names both the
/// component and the dependency.
pub proof fn lemma_missing_dependency_is_reported(
    known: Set<TypeId>,
    nodes: Seq<Node>,
    lazy: Set<TypeId>,
    names: Map<TypeId, String>,
    sites: Map<TypeId, String>,
    short_types: bool,
    i: int,
    d: int,
)
    requires
        duplicate_keys(known, nodes).len() == 0,
        nested_lazy_keys(lazy, nodes).len() == 0,
        0 <= i < nodes.len(),
        0 <= d < nodes[i].deps.len(),
        !provided(known, nodes, nodes[i].deps[d]),
        names.contains_key(nodes[i].key),
        names.contains_key(nodes[i].deps[d]),
    ensures
        validation(known, nodes, lazy, names, sites, short_types) == Err::<
            Seq<TypeId>,
            ErrorView,
        >(
            ErrorView::MissingDependencies {
                per_component: missing_reports(
                    provided_keys(known, nodes),
                    nodes,
                    names,
                    sites,
                    short_types,
                ),
            },
        ),
        exists|r: int|
            0 <= r < missing_reports(
                provided_keys(known, nodes),
                nodes,
                names,
                sites,
                short_types,
            ).len() && (#[trigger] missing_reports(
                provided_keys(known, nodes),
                nodes,
                names,
                sites,
                short_types,
            )[r]).name == shown(names[nodes[i].key]@, short_types) && names_dependency(
                missing_reports(provided_keys(known, nodes), nodes, names, sites, short_types)[r].missing,
                names[nodes[i].deps[d]]@,
                short_types,
            ),
{
    let available = provided_keys(known, nodes);
    let raw = missing_names(available, nodes[i].deps, names);
    let name = names[nodes[i].deps[d]]@;
    lemma_missing_names_hold(available, nodes[i].deps, names, d);
    let t = choose|t: int| 0 <= t < raw.len() && raw[t] == name;
    let listed = shown_missing(raw, short_types);
    assert(listed[t] == shown(trimmed(name), short_types));
    assert(names_dependency(listed, name, short_types));
    let report = report_on(available, nodes[i], names, sites, short_types);
    assert(report is Some);
    lemma_missing_reports_exact(available, nodes, names, sites, short_types);
    let reports = missing_reports(available, nodes, names, sites, short_types);
    assert(reports.contains(report->0));
    let r = choose|r: int| 0 <= r < reports.len() && reports[r] == report->0;
    assert(reports[r].name == shown(names[nodes[i].key]@, short_types));
    assert(reports[r].missing == listed);
    assert(reports.len() > 0);
    assert(validation(known, nodes, lazy, names, sites, short_types) == Err::<
        Seq<TypeId>,
        ErrorView,
    >(ErrorView::MissingDependencies { per_component: reports }));
    assert(names_dependency(reports[r].missing, names[nodes[i].deps[d]]@, short_types));
    assert(exists|r: int|
        0 <= r < reports.len() && (#[trigger] reports[r]).name == shown(
            names[nodes[i].key]@,
            short_types,
        ) && names_dependency(reports[r].missing, names[nodes[i].deps[d]]@, short_types));
}

/// A failure of missing dependencies reports only components of which a
/// dependency is missing: each report is that on a registration with a
/// dependency that nothing provides.
pub proof fn lemma_reports_only_offenders(
    known: Set<TypeId>,
    nodes: Seq<Node>,
    names: Map<TypeId, String>,
    sites: Map<TypeId, String>,
    short_types: bool,
    r: int,
)
    requires
        0 <= r < missing_reports(
            provided_keys(known, nodes),
            nodes,
            names,
            sites,
            short_types,
        ).len(),
    ensures
        exists|i: int, d: int|
            0 <= i < nodes.len() && 0 <= d < nodes[i].deps.len() && !provided(
                known,
                nodes,
                #[trigger] nodes[i].deps[d],
            ) && report_on(provided_keys(known, nodes), nodes[i], names, sites, short_types)
                == Some(
                missing_reports(provided_keys(known, nodes), nodes, names, sites, short_types)[r],
            ),
{
    let available = provided_keys(known, nodes);
    let reports = missing_reports(available, nodes, names, sites, short_types);
    lemma_missing_reports_exact(available, nodes, names, sites, short_types);
    assert(reports.contains(reports[r]));
    let i = choose|i: int|
        0 <= i < nodes.len() && report_on(available, #[trigger] nodes[i], names, sites, short_types)
            == Some(reports[r]);
    lemma_missing_names_only(available, nodes[i].deps, names, 0);
    let d = choose|d: int|
        0 <= d < nodes[i].deps.len() && !available.contains(#[trigger] nodes[i].deps[d])
            && names.contains_key(nodes[i].deps[d]) && names[nodes[i].deps[d]]@ == missing_names(
            available,
            nodes[i].deps,
            names,
        )[0];
    assert(!provided(known, nodes, nodes[i].deps[d]));
}

// ----- waves -----
/// A node that is ready stays ready when more keys become available.
pub proof fn lemma_ready_grows(smaller: Set<TypeId>, larger: Set<TypeId>, node: Node)
    requires
        ready(smaller, node),
        smaller.subset_of(larger),
    ensures
        ready(larger, node),
{
    assert forall|j: int| 0 <= j < node.deps.len() implies larger.contains(
        #[trigger] node.deps[j],
    ) by {
        assert(smaller.contains(node.deps[j]));
    }
}

/// The keys of a sequence of nodes are the keys of its members.
pub proof fn lemma_node_keys_members(nodes: Seq<Node>)
    ensures
        forall|key: TypeId|
            node_keys(nodes).contains(key) <==> exists|node: Node|
                #[trigger] nodes.contains(node) && node.key == key,
{
    let keys = node_keys(nodes);
    assert forall|key: TypeId|
        keys.contains(key) <==> exists|node: Node|
            #[trigger] nodes.contains(node) && node.key == key by {
        if keys.contains(key) {
            let i = choose|i: int| 0 <= i < keys.len() && keys[i] == key;
            assert(nodes.contains(nodes[i]) && nodes[i].key == key);
        }
        if exists|node: Node| #[trigger] nodes.contains(node) && node.key == key {
            let node = choose|node: Node| #[trigger] nodes.contains(node) && node.key == key;
            let i = choose|i: int| 0 <= i < nodes.len() && nodes[i] == node;
            assert(keys[i] == key);
        }
    }
}

/// Every pending node is resolved or stalled, and a stalled node is
/// pending and not ready even when all resolved keys are available.
pub proof fn lemma_waves_account(available: Set<TypeId>, pending: Seq<Node>)
    ensures
        waves(available, pending).order.len() + waves(available, pending).stalled.len()
            == pending.len(),
        forall|node: Node| #[trigger]
            waves(available, pending).stalled.contains(node) ==> pending.contains(node) && !ready(
                available.union(waves(available, pending).order.to_set()),
                node,
            ),
        forall|node: Node| #[trigger]
            pending.contains(node) ==> waves(available, pending).stalled.contains(node) || waves(
                available,
                pending,
            ).order.contains(node.key),
        forall|key: TypeId| #[trigger]
            waves(available, pending).order.contains(key) ==> node_keys(pending).contains(key),
    decreases pending.len(),
{
    let out = waves(available, pending);
    let is_ready = |node: Node| ready(available, node);
    let is_waiting = |node: Node| !ready(available, node);
    let now = ready_part(available, pending);
    let later = waiting_part(available, pending);
    lemma_pick_members(pending, is_ready);
    lemma_pick_members(pending, is_waiting);
    lemma_node_keys_members(pending);
    if pending.len() == 0 {
        assert(available.union(out.order.to_set()) =~= available);
    } else if now.len() == 0 {
        assert(available.union(out.order.to_set()) =~= available);
        assert forall|node: Node| #[trigger] out.stalled.contains(node) implies !ready(
            available,
            node,
        ) by {
            if ready(available, node) {
                assert(now.contains(node));
                let t = choose|t: int| 0 <= t < now.len() && now[t] == node;
            }
        }
    } else {
        let fresh = node_keys(now);
        let next = available.union(fresh.to_set());
        let rest = waves(next, later);
        lemma_pick_lengths_of(available, pending);
        lemma_waves_account(next, later);
        lemma_node_keys_members(now);
        lemma_node_keys_members(later);
        assert(out.order == fresh + rest.order);
        assert(available.union(out.order.to_set()) =~= next.union(rest.order.to_set())) by {
            assert forall|key: TypeId| out.order.to_set().contains(key) == (fresh.to_set().contains(
                key,
            ) || rest.order.to_set().contains(key)) by {
                lemma_concat_contains(fresh, rest.order, key);
            }
        }
        assert forall|node: Node| #[trigger] pending.contains(node) implies out.stalled.contains(
            node,
        ) || out.order.contains(node.key) by {
            if ready(available, node) {
                assert(now.contains(node));
                assert(fresh.contains(node.key));
                lemma_concat_contains(fresh, rest.order, node.key);
            } else {
                assert(later.contains(node));
                if rest.order.contains(node.key) {
                    lemma_concat_contains(fresh, rest.order, node.key);
                }
            }
        }
        assert forall|key: TypeId| #[trigger] out.order.contains(key) implies node_keys(
            pending,
        ).contains(key) by {
            lemma_concat_contains(fresh, rest.order, key);
            if fresh.contains(key) {
                let node = choose|node: Node| #[trigger] now.contains(node) && node.key == key;
                assert(pending.contains(node));
            } else {
                assert(node_keys(later).contains(key));
                let node = choose|node: Node| #[trigger] later.contains(node) && node.key == key;
                assert(pending.contains(node));
            }
        }
    }
}

/// The ready and the waiting part are together as long as the whole.
pub proof fn lemma_pick_lengths_of(available: Set<TypeId>, pending: Seq<Node>)
    ensures
        ready_part(available, pending).len() + waiting_part(available, pending).len()
            == pending.len(),
    decreases pending.len(),
{
    if pending.len() > 0 {
        lemma_pick_lengths_of(available, pending.drop_last());
    }
}

/// A key is in a concatenation where it is in one of the two parts.
pub proof fn lemma_concat_contains(first: Seq<TypeId>, second: Seq<TypeId>, key: TypeId)
    ensures
        (first + second).contains(key) == (first.contains(key) || second.contains(key)),
{
    let both = first + second;
    if first.contains(key) {
        let i = choose|i: int| 0 <= i < first.len() && first[i] == key;
        assert(both[i] == key);
    }
    if second.contains(key) {
        let i = choose|i: int| 0 <= i < second.len() && second[i] == key;
        assert(both[first.len() + i] == key);
    }
    if both.contains(key) {
        let i = choose|i: int| 0 <= i < both.len() && both[i] == key;
        if i < first.len() {
            assert(first[i] == key);
        } else {
            assert(second[i - first.len()] == key);
        }
    }
}

/// Each key stands in the order after everything that its node needs:
/// the node is ready once the known keys and the keys before it are
/// available.
pub proof fn lemma_waves_respect_dependencies(available: Set<TypeId>, pending: Seq<Node>, t: int)
    requires
        0 <= t < waves(available, pending).order.len(),
    ensures
        exists|node: Node|
            #[trigger] pending.contains(node) && node.key == waves(available, pending).order[t]
                && ready(available.union(waves(available, pending).order.take(t).to_set()), node),
    decreases pending.len(),
{
    let out = waves(available, pending);
    let is_ready = |node: Node| ready(available, node);
    let is_waiting = |node: Node| !ready(available, node);
    let now = ready_part(available, pending);
    let later = waiting_part(available, pending);
    lemma_pick_members(pending, is_ready);
    lemma_pick_members(pending, is_waiting);
    let fresh = node_keys(now);
    let next = available.union(fresh.to_set());
    let rest = waves(next, later);
    assert(out.order == fresh + rest.order);
    let before = available.union(out.order.take(t).to_set());
    if t < fresh.len() {
        let node = now[t];
        assert(now.contains(node));
        assert(pending.contains(node));
        lemma_ready_grows(available, before, node);
    } else {
        let u = t - fresh.len();
        lemma_pick_lengths_of(available, pending);
        lemma_waves_respect_dependencies(next, later, u);
        let node = choose|node: Node|
            #[trigger] later.contains(node) && node.key == rest.order[u] && ready(
                next.union(rest.order.take(u).to_set()),
                node,
            );
        assert(pending.contains(node));
        assert(out.order.take(t) =~= fresh + rest.order.take(u));
        assert(next.union(rest.order.take(u).to_set()).subset_of(before)) by {
            assert forall|key: TypeId|
                next.union(rest.order.take(u).to_set()).contains(key) implies before.contains(
                key,
            ) by {
                lemma_concat_contains(fresh, rest.order.take(u), key);
            }
        }
        lemma_ready_grows(next.union(rest.order.take(u).to_set()), before, node);
    }
}

/// Nodes that wait for each other never get resolved. Where each node of
/// a set needs a key that is not available and that only nodes of the set
/// register, every pending node of the set is stalled.
pub proof fn lemma_blocked_nodes_stall(
    available: Set<TypeId>,
    pending: Seq<Node>,
    blocked: Set<Node>,
)
    requires
        forall|node: Node| #[trigger]
            blocked.contains(node) ==> exists|d: int|
                0 <= d < node.deps.len() && !available.contains(#[trigger] node.deps[d])
                    && forall|other: Node| #[trigger]
                    pending.contains(other) && other.key == node.deps[d] ==> blocked.contains(
                        other,
                    ),
    ensures
        forall|node: Node|
            blocked.contains(node) && pending.contains(node) ==> #[trigger] waves(
                available,
                pending,
            ).stalled.contains(node),
    decreases pending.len(),
{
    let out = waves(available, pending);
    let is_ready = |node: Node| ready(available, node);
    let is_waiting = |node: Node| !ready(available, node);
    let now = ready_part(available, pending);
    let later = waiting_part(available, pending);
    lemma_pick_members(pending, is_ready);
    lemma_pick_members(pending, is_waiting);
    if pending.len() > 0 && now.len() > 0 {
        let fresh = node_keys(now);
        let next = available.union(fresh.to_set());
        lemma_node_keys_members(now);
        assert forall|node: Node| #[trigger] blocked.contains(node) implies !ready(
            available,
            node,
        ) by {
            let d = choose|d: int|
                0 <= d < node.deps.len() && !available.contains(#[trigger] node.deps[d])
                    && forall|other: Node| #[trigger]
                    pending.contains(other) && other.key == node.deps[d] ==> blocked.contains(
                        other,
                    );
            assert(!available.contains(node.deps[d]));
        }
        assert forall|node: Node| #[trigger] blocked.contains(node) implies exists|d: int|
            0 <= d < node.deps.len() && !next.contains(#[trigger] node.deps[d]) && forall|
                other: Node,
            | #[trigger]
                later.contains(other) && other.key == node.deps[d] ==> blocked.contains(other) by {
            let d = choose|d: int|
                0 <= d < node.deps.len() && !available.contains(#[trigger] node.deps[d])
                    && forall|other: Node| #[trigger]
                    pending.contains(other) && other.key == node.deps[d] ==> blocked.contains(
                        other,
                    );
            if fresh.contains(node.deps[d]) {
                let other = choose|other: Node|
                    #[trigger] now.contains(other) && other.key == node.deps[d];
                assert(pending.contains(other));
                assert(blocked.contains(other));
                assert(ready(available, other));
            }
            assert(!next.contains(node.deps[d]));
            assert forall|other: Node| #[trigger]
                later.contains(other) && other.key == node.deps[d] implies blocked.contains(
                other,
            ) by {
                assert(pending.contains(other));
            }
        }
        lemma_pick_lengths_of(available, pending);
        lemma_blocked_nodes_stall(next, later, blocked);
        assert forall|node: Node| blocked.contains(node) && pending.contains(node) implies #[trigger] out.stalled.contains(
            node,
        ) by {
            assert(!ready(available, node));
            assert(later.contains(node));
            assert(waves(next, later).stalled.contains(node));
        }
    }
}

/// A graph in layers is resolved completely. Where a rank can be given to
/// the keys such that each pending node needs only keys that are available
/// or that pending nodes of lower rank register, nothing is stalled.
pub proof fn lemma_layered_waves_complete(
    available: Set<TypeId>,
    pending: Seq<Node>,
    rank: spec_fn(TypeId) -> nat,
)
    requires
        forall|node: Node, d: int|
            #![trigger pending.contains(node), node.deps[d]]
            pending.contains(node) && 0 <= d < node.deps.len() ==> available.contains(
                node.deps[d],
            ) || (node_keys(pending).contains(node.deps[d]) && rank(node.deps[d]) < rank(
                node.key,
            )),
    ensures
        waves(available, pending).stalled.len() == 0,
    decreases pending.len(),
{
    let is_ready = |node: Node| ready(available, node);
    let is_waiting = |node: Node| !ready(available, node);
    let now = ready_part(available, pending);
    let later = waiting_part(available, pending);
    lemma_pick_members(pending, is_ready);
    lemma_pick_members(pending, is_waiting);
    lemma_node_keys_members(pending);
    lemma_node_keys_members(now);
    lemma_node_keys_members(later);
    if pending.len() > 0 {
        let n = pending.len() as int;
        lemma_lowest_rank(pending, rank, n);
        let low = choose|low: int| is_lowest(pending, rank, n, low);
        let lowest = pending[low];
        assert(pending.contains(lowest));
        assert(ready(available, lowest)) by {
            assert forall|d: int| 0 <= d < lowest.deps.len() implies available.contains(
                #[trigger] lowest.deps[d],
            ) by {
                if !available.contains(lowest.deps[d]) {
                    assert(node_keys(pending).contains(lowest.deps[d]));
                    let other = choose|other: Node|
                        #[trigger] pending.contains(other) && other.key == lowest.deps[d];
                    let i = choose|i: int| 0 <= i < pending.len() && pending[i] == other;
                    assert(rank(lowest.key) <= rank(pending[i].key));
                }
            }
        }
        assert(now.contains(lowest));
        let fresh = node_keys(now);
        let next = available.union(fresh.to_set());
        assert forall|node: Node, d: int|
            #![trigger later.contains(node), node.deps[d]]
            later.contains(node) && 0 <= d < node.deps.len() implies next.contains(node.deps[d])
                || (node_keys(later).contains(node.deps[d]) && rank(node.deps[d]) < rank(
                node.key,
            )) by {
            assert(pending.contains(node));
            if !available.contains(node.deps[d]) {
                let other = choose|other: Node|
                    #[trigger] pending.contains(other) && other.key == node.deps[d];
                if ready(available, other) {
                    assert(now.contains(other));
                    assert(fresh.contains(node.deps[d]));
                } else {
                    assert(later.contains(other));
                }
            }
        }
        lemma_pick_lengths_of(available, pending);
        lemma_layered_waves_complete(next, later, rank);
    }
}

/// Whether no node among the first `n` has a lower rank than the one at
/// `low`.
pub open spec fn is_lowest(nodes: Seq<Node>, rank: spec_fn(TypeId) -> nat, n: int, low: int) -> bool {
    0 <= low < n && forall|i: int|
        0 <= i < n ==> rank(nodes[low].key) <= rank((#[trigger] nodes[i]).key)
}

/// Among the first `n` nodes of a sequence that is not empty, one has
/// the lowest rank.
pub proof fn lemma_lowest_rank(nodes: Seq<Node>, rank: spec_fn(TypeId) -> nat, n: int)
    requires
        0 < n <= nodes.len(),
    ensures
        exists|low: int| is_lowest(nodes, rank, n, low),
    decreases n,
{
    if n == 1 {
        assert(is_lowest(nodes, rank, n, 0));
    } else {
        let m = n - 1;
        lemma_lowest_rank(nodes, rank, m);
        let low = choose|low: int| is_lowest(nodes, rank, m, low);
        if rank(nodes[n - 1].key) < rank(nodes[low].key) {
            assert(is_lowest(nodes, rank, n, n - 1));
        } else {
            assert(is_lowest(nodes, rank, n, low));
        }
    }
}

// ----- the registrations that count -----
/// The registrations that count among the first `n` are those that are
/// the last of their key.
pub proof fn lemma_effective_members(nodes: Seq<Node>, n: int)
    requires
        0 <= n <= nodes.len(),
    ensures
        forall|node: Node|
            effective_upto(nodes, n).contains(node) <==> exists|i: int|
                0 <= i < n && is_last_of_key(nodes, i) && #[trigger] nodes[i] == node,
    decreases n,
{
    if n > 0 {
        let m = n - 1;
        let part = effective_upto(nodes, m);
        let all = effective_upto(nodes, n);
        lemma_effective_members(nodes, m);
        assert forall|node: Node|
            all.contains(node) <==> exists|i: int|
                0 <= i < n && is_last_of_key(nodes, i) && #[trigger] nodes[i] == node by {
            if part.contains(node) {
                let t = choose|t: int| 0 <= t < part.len() && part[t] == node;
                if all != part {
                    assert(all[t] == node);
                }
                let i = choose|i: int|
                    0 <= i < m && is_last_of_key(nodes, i) && #[trigger] nodes[i] == node;
                assert(0 <= i < n && is_last_of_key(nodes, i) && nodes[i] == node);
            }
            if all.contains(node) && !part.contains(node) {
                let t = choose|t: int| 0 <= t < all.len() && all[t] == node;
                if t < part.len() {
                    assert(part[t] == all[t]);
                }
                assert(is_last_of_key(nodes, m) && nodes[m] == node);
            }
            if exists|i: int|
                0 <= i < n && is_last_of_key(nodes, i) && #[trigger] nodes[i] == node {
                let i = choose|i: int|
                    0 <= i < n && is_last_of_key(nodes, i) && #[trigger] nodes[i] == node;
                if i < m {
                    assert(part.contains(node));
                } else {
                    assert(all == part.push(node));
                    assert(all[part.len() as int] == node);
                }
            }
        }
    }
}

/// Every registered key has a last registration.
pub proof fn lemma_last_registration_exists(nodes: Seq<Node>, i: int)
    requires
        0 <= i < nodes.len(),
    ensures
        exists|j: int|
            i <= j < nodes.len() && #[trigger] is_last_of_key(nodes, j) && nodes[j].key
                == nodes[i].key,
    decreases nodes.len() - i,
{
    if is_last_of_key(nodes, i) {
    } else {
        let k = choose|k: int| i < k < nodes.len() && #[trigger] nodes[k].key == nodes[i].key;
        lemma_last_registration_exists(nodes, k);
        let j = choose|j: int|
            k <= j < nodes.len() && #[trigger] is_last_of_key(nodes, j) && nodes[j].key
                == nodes[k].key;
        assert(i <= j < nodes.len() && is_last_of_key(nodes, j) && nodes[j].key == nodes[i].key);
    }
}

/// Two registrations that count and have one key are one registration.
pub proof fn lemma_effective_keys_differ(nodes: Seq<Node>, one: Node, other: Node)
    requires
        effective(nodes).contains(one),
        effective(nodes).contains(other),
        one.key == other.key,
    ensures
        one == other,
{
    lemma_effective_members(nodes, nodes.len() as int);
    let i = choose|i: int|
        0 <= i < nodes.len() && is_last_of_key(nodes, i) && #[trigger] nodes[i] == one;
    let j = choose|j: int|
        0 <= j < nodes.len() && is_last_of_key(nodes, j) && #[trigger] nodes[j] == other;
    if i < j {
        assert(nodes[j].key != nodes[i].key);
    }
    if j < i {
        assert(nodes[i].key != nodes[j].key);
    }
}

/// The last registration of a key is pending where the key is not
/// deferred, and resolved first where it is.
pub proof fn lemma_last_registration_counts(nodes: Seq<Node>, lazy: Set<TypeId>, i: int)
    requires
        0 <= i < nodes.len(),
        is_last_of_key(nodes, i),
    ensures
        effective(nodes).contains(nodes[i]),
        lazy.contains(nodes[i].key) ==> lazy_part(lazy, effective(nodes)).contains(nodes[i]),
        !lazy.contains(nodes[i].key) ==> eager_part(lazy, effective(nodes)).contains(nodes[i]),
{
    lemma_effective_members(nodes, nodes.len() as int);
    lemma_pick_members(effective(nodes), |node: Node| lazy.contains(node.key));
    lemma_pick_members(effective(nodes), |node: Node| !lazy.contains(node.key));
}

/// A pending node is the last registration of its key, and not deferred;
/// a node that is resolved first is the last registration of its key, and
/// deferred.
pub proof fn lemma_counted_is_last_registration(nodes: Seq<Node>, lazy: Set<TypeId>, node: Node)
    requires
        eager_part(lazy, effective(nodes)).contains(node) || lazy_part(
            lazy,
            effective(nodes),
        ).contains(node),
    ensures
        effective(nodes).contains(node),
        eager_part(lazy, effective(nodes)).contains(node) ==> !lazy.contains(node.key),
        lazy_part(lazy, effective(nodes)).contains(node) ==> lazy.contains(node.key),
        exists|i: int|
            0 <= i < nodes.len() && is_last_of_key(nodes, i) && #[trigger] nodes[i] == node,
{
    lemma_effective_members(nodes, nodes.len() as int);
    lemma_pick_members(effective(nodes), |node: Node| lazy.contains(node.key));
    lemma_pick_members(effective(nodes), |node: Node| !lazy.contains(node.key));
}

// ----- every key once -----
/// Whether no two nodes of a sequence have one key.
pub open spec fn keys_differ(nodes: Seq<Node>) -> bool {
    forall|i: int, j: int|
        0 <= i < j < nodes.len() ==> (#[trigger] nodes[i]).key != (#[trigger] nodes[j]).key
}

/// The registrations that count have different keys.
pub proof fn lemma_effective_keys_all_differ(nodes: Seq<Node>, n: int)
    requires
        0 <= n <= nodes.len(),
    ensures
        keys_differ(effective_upto(nodes, n)),
    decreases n,
{
    if n > 0 {
        let m = n - 1;
        let part = effective_upto(nodes, m);
        let all = effective_upto(nodes, n);
        lemma_effective_keys_all_differ(nodes, m);
        lemma_effective_members(nodes, m);
        if is_last_of_key(nodes, m) {
            assert forall|i: int, j: int| 0 <= i < j < all.len() implies (#[trigger] all[i]).key
                != (#[trigger] all[j]).key by {
                if j < part.len() {
                    assert(all[i] == part[i] && all[j] == part[j]);
                } else {
                    assert(all[j] == nodes[m]);
                    assert(all[i] == part[i]);
                    assert(part.contains(part[i]));
                    let x = choose|x: int|
                        0 <= x < m && is_last_of_key(nodes, x) && #[trigger] nodes[x] == part[i];
                    assert(nodes[m].key != nodes[x].key);
                }
            }
        }
    }
}

/// A part of nodes with different keys has different keys.
pub proof fn lemma_picked_keys_differ(nodes: Seq<Node>, wanted: spec_fn(Node) -> bool)
    requires
        keys_differ(nodes),
    ensures
        keys_differ(pick(nodes, wanted)),
    decreases nodes.len(),
{
    if nodes.len() > 0 {
        let before = nodes.drop_last();
        let part = pick(before, wanted);
        let all = pick(nodes, wanted);
        assert(keys_differ(before)) by {
            assert forall|i: int, j: int| 0 <= i < j < before.len() implies (
            #[trigger] before[i]).key != (#[trigger] before[j]).key by {
                assert(before[i] == nodes[i] && before[j] == nodes[j]);
            }
        }
        lemma_picked_keys_differ(before, wanted);
        lemma_pick_members(before, wanted);
        if wanted(nodes.last()) {
            assert forall|i: int, j: int| 0 <= i < j < all.len() implies (#[trigger] all[i]).key
                != (#[trigger] all[j]).key by {
                if j < part.len() {
                    assert(all[i] == part[i] && all[j] == part[j]);
                } else {
                    assert(all[j] == nodes.last());
                    assert(all[i] == part[i]);
                    assert(part.contains(part[i]));
                    let x = choose|x: int| 0 <= x < before.len() && before[x] == part[i];
                    assert(nodes[x] == part[i]);
                    assert(nodes[x].key != nodes[nodes.len() - 1].key);
                }
            }
        }
    }
}

/// The waves resolve each key once, where the pending nodes have
/// different keys.
pub proof fn lemma_waves_resolve_once(available: Set<TypeId>, pending: Seq<Node>)
    requires
        keys_differ(pending),
    ensures
        waves(available, pending).order.no_duplicates(),
    decreases pending.len(),
{
    let out = waves(available, pending);
    let is_ready = |node: Node| ready(available, node);
    let is_waiting = |node: Node| !ready(available, node);
    let now = ready_part(available, pending);
    let later = waiting_part(available, pending);
    if pending.len() > 0 && now.len() > 0 {
        let fresh = node_keys(now);
        let next = available.union(fresh.to_set());
        let rest = waves(next, later);
        lemma_pick_lengths_of(available, pending);
        lemma_picked_keys_differ(pending, is_ready);
        lemma_picked_keys_differ(pending, is_waiting);
        lemma_pick_members(pending, is_ready);
        lemma_pick_members(pending, is_waiting);
        lemma_waves_resolve_once(next, later);
        lemma_waves_account(next, later);
        lemma_node_keys_members(later);
        assert forall|i: int, j: int| 0 <= i < j < out.order.len() implies out.order[i]
            != out.order[j] by {
            if j < fresh.len() {
                assert(now[i].key != now[j].key);
            } else if i >= fresh.len() {
                assert(rest.order[i - fresh.len()] != rest.order[j - fresh.len()]);
            } else {
                let key = rest.order[j - fresh.len()];
                assert(rest.order.contains(key));
                assert(node_keys(later).contains(key));
                let other = choose|other: Node| #[trigger] later.contains(other) && other.key == key;
                assert(now.contains(now[i]));
                assert(pending.contains(now[i]) && pending.contains(other));
                if now[i].key == key {
                    let x = choose|x: int| 0 <= x < pending.len() && pending[x] == now[i];
                    let y = choose|y: int| 0 <= y < pending.len() && pending[y] == other;
                    if x < y {
                        assert(pending[x].key != pending[y].key);
                    } else if y < x {
                        assert(pending[y].key != pending[x].key);
                    } else {
                        assert(ready(available, other));
                    }
                }
            }
        }
    }
}

/// Every component is resolved once: no key stands twice in the order of
/// resolution.
pub proof fn lemma_each_key_is_resolved_once(known: Set<TypeId>, nodes: Seq<Node>, lazy: Set<TypeId>)
    ensures
        resolution(known, nodes, lazy).order.no_duplicates(),
{
    let is_lazy = |node: Node| lazy.contains(node.key);
    let is_eager = |node: Node| !lazy.contains(node.key);
    let deferred = lazy_part(lazy, effective(nodes));
    let pending = eager_part(lazy, effective(nodes));
    let first = node_keys(deferred);
    let available = known.union(first.to_set());
    let rest = waves(available, pending);
    let order = resolution(known, nodes, lazy).order;
    lemma_effective_keys_all_differ(nodes, nodes.len() as int);
    lemma_picked_keys_differ(effective(nodes), is_lazy);
    lemma_picked_keys_differ(effective(nodes), is_eager);
    lemma_pick_members(effective(nodes), is_lazy);
    lemma_pick_members(effective(nodes), is_eager);
    lemma_waves_resolve_once(available, pending);
    lemma_waves_account(available, pending);
    lemma_node_keys_members(pending);
    assert forall|i: int, j: int| 0 <= i < j < order.len() implies order[i] != order[j] by {
        if j < first.len() {
            assert(deferred[i].key != deferred[j].key);
        } else if i >= first.len() {
            assert(rest.order[i - first.len()] != rest.order[j - first.len()]);
        } else {
            let key = rest.order[j - first.len()];
            assert(rest.order.contains(key));
            assert(node_keys(pending).contains(key));
            let other = choose|other: Node| #[trigger] pending.contains(other) && other.key == key;
            assert(deferred.contains(deferred[i]));
            assert(is_lazy(deferred[i]));
            assert(is_eager(other));
        }
    }
}

// ----- graphs that validate -----
/// Whether no component with dependencies is registered twice, nor under
/// a key that is known beforehand.
pub open spec fn free_of_repeats(known: Set<TypeId>, nodes: Seq<Node>) -> bool {
    &&& forall|i: int|
        0 <= i < nodes.len() && (#[trigger] nodes[i]).deps.len() > 0 ==> !known.contains(
            nodes[i].key,
        )
    &&& forall|i: int, j: int|
        0 <= i < j < nodes.len() && (#[trigger] nodes[i]).deps.len() > 0 && (
        #[trigger] nodes[j]).deps.len() > 0 ==> nodes[i].key != nodes[j].key
}

/// Whether no deferred component depends on a deferred component.
pub open spec fn free_of_nesting(lazy: Set<TypeId>, nodes: Seq<Node>) -> bool {
    forall|i: int| 0 <= i < nodes.len() ==> !nests_lazy(lazy, #[trigger] nodes[i])
}

/// Whether every dependency is known beforehand or registered.
pub open spec fn fully_provided(known: Set<TypeId>, nodes: Seq<Node>) -> bool {
    forall|i: int, d: int|
        0 <= i < nodes.len() && 0 <= d < nodes[i].deps.len() ==> provided(
            known,
            nodes,
            #[trigger] nodes[i].deps[d],
        )
}

/// Whether the graph lies in layers: each registration that counts and is
/// not deferred needs only keys that are known beforehand, deferred, or of
/// lower rank than its own.
pub open spec fn layered(
    known: Set<TypeId>,
    nodes: Seq<Node>,
    lazy: Set<TypeId>,
    rank: spec_fn(TypeId) -> nat,
) -> bool {
    forall|i: int, d: int|
        0 <= i < nodes.len() && 0 <= d < nodes[i].deps.len() && is_last_of_key(nodes, i)
            && !lazy.contains(nodes[i].key) ==> known.contains(#[trigger] nodes[i].deps[d])
            || lazy.contains(nodes[i].deps[d]) || rank(nodes[i].deps[d]) < rank(nodes[i].key)
}

/// Nothing is a duplicate exactly where the graph is free of repeats.
pub proof fn lemma_free_of_repeats(known: Set<TypeId>, nodes: Seq<Node>)
    ensures
        free_of_repeats(known, nodes) <==> duplicate_keys(known, nodes).len() == 0,
{
    let duplicates = duplicate_keys(known, nodes);
    lemma_duplicate_keys_exact(known, nodes);
    if free_of_repeats(known, nodes) && duplicates.len() > 0 {
        assert(duplicates.contains(duplicates[0]));
        let i = choose|i: int| repeats_at(known, nodes, i) && #[trigger] nodes[i].key
            == duplicates[0];
        if !known.contains(nodes[i].key) {
            let before = nodes.take(i);
            let j = choose|j: int|
                0 <= j < before.len() && before[j].deps.len() > 0 && #[trigger] before[j].key
                    == nodes[i].key;
            assert(before[j] == nodes[j]);
        }
    }
    if duplicates.len() == 0 {
        assert forall|i: int|
            0 <= i < nodes.len() && (#[trigger] nodes[i]).deps.len() > 0 implies !known.contains(
            nodes[i].key,
        ) by {
            if known.contains(nodes[i].key) {
                assert(repeats_at(known, nodes, i));
                assert(duplicates.contains(nodes[i].key));
                let t = choose|t: int| 0 <= t < duplicates.len() && duplicates[t] == nodes[i].key;
            }
        }
        assert forall|i: int, j: int|
            0 <= i < j < nodes.len() && (#[trigger] nodes[i]).deps.len() > 0 && (
            #[trigger] nodes[j]).deps.len() > 0 implies nodes[i].key != nodes[j].key by {
            if nodes[i].key == nodes[j].key {
                assert(nodes.take(j)[i] == nodes[i]);
                assert(repeats_at(known, nodes, j));
                assert(duplicates.contains(nodes[j].key));
                let t = choose|t: int| 0 <= t < duplicates.len() && duplicates[t] == nodes[j].key;
            }
        }
    }
}

/// No deferred component is reported as nested exactly where the graph is
/// free of nesting.
pub proof fn lemma_free_of_nesting(lazy: Set<TypeId>, nodes: Seq<Node>)
    ensures
        free_of_nesting(lazy, nodes) <==> nested_lazy_keys(lazy, nodes).len() == 0,
{
    let wanted = |node: Node| nests_lazy(lazy, node);
    let part = pick(nodes, wanted);
    lemma_pick_members(nodes, wanted);
    if free_of_nesting(lazy, nodes) && part.len() > 0 {
        assert(part.contains(part[0]));
        let i = choose|i: int| 0 <= i < nodes.len() && nodes[i] == part[0];
        assert(!nests_lazy(lazy, nodes[i]));
    }
    if part.len() == 0 {
        assert forall|i: int| 0 <= i < nodes.len() implies !nests_lazy(
            lazy,
            #[trigger] nodes[i],
        ) by {
            if nests_lazy(lazy, nodes[i]) {
                assert(nodes.contains(nodes[i]));
                assert(part.contains(nodes[i]));
                let t = choose|t: int| 0 <= t < part.len() && part[t] == nodes[i];
            }
        }
    }
}

/// Where every dependency is provided, nothing is reported as missing.
pub proof fn lemma_fully_provided(
    known: Set<TypeId>,
    nodes: Seq<Node>,
    names: Map<TypeId, String>,
    sites: Map<TypeId, String>,
    short_types: bool,
)
    requires
        fully_provided(known, nodes),
    ensures
        missing_reports(provided_keys(known, nodes), nodes, names, sites, short_types).len() == 0,
{
    let reports = missing_reports(provided_keys(known, nodes), nodes, names, sites, short_types);
    if reports.len() > 0 {
        lemma_reports_only_offenders(known, nodes, names, sites, short_types, 0);
    }
}

/// Where nothing is stalled, the order of resolution lists exactly the
/// registered keys.
pub proof fn lemma_complete_order_lists_registered(
    known: Set<TypeId>,
    nodes: Seq<Node>,
    lazy: Set<TypeId>,
)
    requires
        resolution(known, nodes, lazy).stalled.len() == 0,
    ensures
        forall|key: TypeId|
            resolution(known, nodes, lazy).order.contains(key) <==> registers(nodes, key),
{
    let first = node_keys(lazy_part(lazy, effective(nodes)));
    let available = known.union(first.to_set());
    let pending = eager_part(lazy, effective(nodes));
    let rest = waves(available, pending);
    let order = resolution(known, nodes, lazy).order;
    lemma_waves_account(available, pending);
    lemma_node_keys_members(lazy_part(lazy, effective(nodes)));
    lemma_node_keys_members(pending);
    assert forall|key: TypeId| order.contains(key) <==> registers(nodes, key) by {
        lemma_concat_contains(first, rest.order, key);
        if registers(nodes, key) {
            let i = choose|i: int| 0 <= i < nodes.len() && #[trigger] nodes[i].key == key;
            lemma_last_registration_exists(nodes, i);
            let j = choose|j: int|
                i <= j < nodes.len() && #[trigger] is_last_of_key(nodes, j) && nodes[j].key
                    == nodes[i].key;
            lemma_last_registration_counts(nodes, lazy, j);
            if lazy.contains(key) {
                assert(first.contains(key));
            } else {
                assert(pending.contains(nodes[j]));
                if rest.stalled.contains(nodes[j]) {
                    let t = choose|t: int| 0 <= t < rest.stalled.len() && rest.stalled[t]
                        == nodes[j];
                }
                assert(rest.order.contains(key));
            }
        }
        if first.contains(key) {
            let node = choose|node: Node| #[trigger]
                lazy_part(lazy, effective(nodes)).contains(node) && node.key == key;
            lemma_counted_is_last_registration(nodes, lazy, node);
            let i = choose|i: int|
                0 <= i < nodes.len() && is_last_of_key(nodes, i) && #[trigger] nodes[i] == node;
            assert(nodes[i].key == key);
        }
        if rest.order.contains(key) {
            assert(node_keys(pending).contains(key));
            let node = choose|node: Node| #[trigger] pending.contains(node) && node.key == key;
            lemma_counted_is_last_registration(nodes, lazy, node);
            let i = choose|i: int|
                0 <= i < nodes.len() && is_last_of_key(nodes, i) && #[trigger] nodes[i] == node;
            assert(nodes[i].key == key);
        }
    }
}

/// A graph in layers validates. Where no component is registered twice,
/// no deferred component depends on a deferred one, every dependency is
/// provided and the graph lies in layers, validation succeeds, and its
/// order lists every registered key. None of these conditions speaks of
/// the order of the registrations.
pub proof fn lemma_layered_graph_validates(
    known: Set<TypeId>,
    nodes: Seq<Node>,
    lazy: Set<TypeId>,
    names: Map<TypeId, String>,
    sites: Map<TypeId, String>,
    short_types: bool,
    rank: spec_fn(TypeId) -> nat,
)
    requires
        free_of_repeats(known, nodes),
        free_of_nesting(lazy, nodes),
        fully_provided(known, nodes),
        layered(known, nodes, lazy, rank),
    ensures
        validation(known, nodes, lazy, names, sites, short_types) == Ok::<Seq<TypeId>, ErrorView>(
            resolution(known, nodes, lazy).order,
        ),
        forall|key: TypeId|
            resolution(known, nodes, lazy).order.contains(key) <==> registers(nodes, key),
{
    lemma_free_of_repeats(known, nodes);
    lemma_free_of_nesting(lazy, nodes);
    lemma_fully_provided(known, nodes, names, sites, short_types);
    let first = node_keys(lazy_part(lazy, effective(nodes)));
    let available = known.union(first.to_set());
    let pending = eager_part(lazy, effective(nodes));
    lemma_node_keys_members(lazy_part(lazy, effective(nodes)));
    lemma_node_keys_members(pending);
    assert forall|node: Node, d: int|
        #![trigger pending.contains(node), node.deps[d]]
        pending.contains(node) && 0 <= d < node.deps.len() implies available.contains(
        node.deps[d],
    ) || (node_keys(pending).contains(node.deps[d]) && rank(node.deps[d]) < rank(node.key)) by {
        let dep = node.deps[d];
        lemma_counted_is_last_registration(nodes, lazy, node);
        let i = choose|i: int|
            0 <= i < nodes.len() && is_last_of_key(nodes, i) && #[trigger] nodes[i] == node;
        assert(provided(known, nodes, nodes[i].deps[d]));
        assert(known.contains(nodes[i].deps[d]) || lazy.contains(nodes[i].deps[d]) || rank(
            nodes[i].deps[d],
        ) < rank(nodes[i].key));
        if !known.contains(dep) {
            let r = choose|r: int| 0 <= r < nodes.len() && #[trigger] nodes[r].key == dep;
            lemma_last_registration_exists(nodes, r);
            let j = choose|j: int|
                r <= j < nodes.len() && #[trigger] is_last_of_key(nodes, j) && nodes[j].key
                    == nodes[r].key;
            lemma_last_registration_counts(nodes, lazy, j);
            if lazy.contains(dep) {
                assert(first.contains(dep));
            } else {
                assert(pending.contains(nodes[j]));
                assert(node_keys(pending).contains(dep));
            }
        }
    }
    lemma_layered_waves_complete(available, pending, rank);
    lemma_complete_order_lists_registered(known, nodes, lazy);
}

/// A component is resolved after what it needs. Each key of the order
/// belongs to a registration that is deferred, or whose dependencies are
/// all known beforehand or stand earlier in the order.
pub proof fn lemma_order_respects_dependencies(
    known: Set<TypeId>,
    nodes: Seq<Node>,
    lazy: Set<TypeId>,
    t: int,
)
    requires
        0 <= t < resolution(known, nodes, lazy).order.len(),
    ensures
        exists|i: int|
            0 <= i < nodes.len() && is_last_of_key(nodes, i) && (#[trigger] nodes[i]).key
                == resolution(known, nodes, lazy).order[t] && (lazy.contains(nodes[i].key)
                || ready(
                known.union(resolution(known, nodes, lazy).order.take(t).to_set()),
                nodes[i],
            )),
{
    let deferred = lazy_part(lazy, effective(nodes));
    let first = node_keys(deferred);
    let available = known.union(first.to_set());
    let pending = eager_part(lazy, effective(nodes));
    let rest = waves(available, pending);
    let order = resolution(known, nodes, lazy).order;
    if t < first.len() {
        let node = deferred[t];
        assert(deferred.contains(node));
        lemma_counted_is_last_registration(nodes, lazy, node);
        let i = choose|i: int|
            0 <= i < nodes.len() && is_last_of_key(nodes, i) && #[trigger] nodes[i] == node;
        assert(nodes[i].key == order[t]);
    } else {
        let u = t - first.len();
        lemma_waves_respect_dependencies(available, pending, u);
        let node = choose|node: Node|
            #[trigger] pending.contains(node) && node.key == rest.order[u] && ready(
                available.union(rest.order.take(u).to_set()),
                node,
            );
        lemma_counted_is_last_registration(nodes, lazy, node);
        let i = choose|i: int|
            0 <= i < nodes.len() && is_last_of_key(nodes, i) && #[trigger] nodes[i] == node;
        assert(order.take(t) =~= first + rest.order.take(u));
        let before = known.union(order.take(t).to_set());
        assert(available.union(rest.order.take(u).to_set()).subset_of(before)) by {
            assert forall|key: TypeId|
                available.union(rest.order.take(u).to_set()).contains(key) implies before.contains(
                key,
            ) by {
                lemma_concat_contains(first, rest.order.take(u), key);
            }
        }
        lemma_ready_grows(available.union(rest.order.take(u).to_set()), before, node);
        assert(nodes[i].key == order[t]);
    }
}

// ----- cycles -----
/// Whether `dep` is neither known beforehand nor deferred, and every
/// registration that counts for it is one of `members`.
pub open spec fn held_by(
    known: Set<TypeId>,
    nodes: Seq<Node>,
    lazy: Set<TypeId>,
    members: Set<int>,
    dep: TypeId,
) -> bool {
    &&& !known.contains(dep)
    &&& !lazy.contains(dep)
    &&& forall|j: int|
        0 <= j < nodes.len() && #[trigger] is_last_of_key(nodes, j) && nodes[j].key == dep
            ==> members.contains(j)
}

/// Whether the registration at `i` counts, is not deferred, and needs a
/// key that only `members` can provide.
pub open spec fn waits_within(
    known: Set<TypeId>,
    nodes: Seq<Node>,
    lazy: Set<TypeId>,
    members: Set<int>,
    i: int,
) -> bool {
    &&& 0 <= i < nodes.len()
    &&& is_last_of_key(nodes, i)
    &&& !lazy.contains(nodes[i].key)
    &&& exists|d: int|
        0 <= d < nodes[i].deps.len() && held_by(known, nodes, lazy, members, #[trigger] nodes[i].deps[d])
}

/// A dependency is reported as missing exactly where something is
/// missing, where every key has a name: the pass for missing dependencies
/// finds something if and only if a registration needs a key that is
/// neither known beforehand nor registered.
pub proof fn lemma_missing_found_exactly(
    known: Set<TypeId>,
    nodes: Seq<Node>,
    names: Map<TypeId, String>,
    sites: Map<TypeId, String>,
    short_types: bool,
)
    requires
        all_keys_named(nodes, names),
    ensures
        missing_reports(provided_keys(known, nodes), nodes, names, sites, short_types).len() > 0
            <==> !fully_provided(known, nodes),
{
    let available = provided_keys(known, nodes);
    let reports = missing_reports(available, nodes, names, sites, short_types);
    if fully_provided(known, nodes) {
        lemma_fully_provided(known, nodes, names, sites, short_types);
    } else {
        let (i, d) = choose|i: int, d: int|
            0 <= i < nodes.len() && 0 <= d < nodes[i].deps.len() && !provided(
                known,
                nodes,
                #[trigger] nodes[i].deps[d],
            );
        assert(names.contains_key(nodes[i].key));
        assert(names.contains_key(nodes[i].deps[d]));
        lemma_missing_names_hold(available, nodes[i].deps, names, d);
        let raw = missing_names(available, nodes[i].deps, names);
        let t = choose|t: int| 0 <= t < raw.len() && raw[t] == names[nodes[i].deps[d]]@;
        let report = report_on(available, nodes[i], names, sites, short_types);
        assert(report is Some);
        lemma_missing_reports_exact(available, nodes, names, sites, short_types);
        assert(reports.contains(report->0));
        let r = choose|r: int| 0 <= r < reports.len() && reports[r] == report->0;
    }
}

/// The members of a cycle are stalled. Where each registration of a set
/// waits for a key that only registrations of the set can provide, the
/// resolution leaves every one of them unresolved.
pub proof fn lemma_cycle_members_stall(
    known: Set<TypeId>,
    nodes: Seq<Node>,
    lazy: Set<TypeId>,
    members: Set<int>,
    i: int,
)
    requires
        forall|m: int| members.contains(m) ==> waits_within(known, nodes, lazy, members, m),
        members.contains(i),
    ensures
        resolution(known, nodes, lazy).stalled.contains(nodes[i]),
        node_keys(resolution(known, nodes, lazy).stalled).contains(nodes[i].key),
{
    let deferred = lazy_part(lazy, effective(nodes));
    let first = node_keys(deferred);
    let available = known.union(first.to_set());
    let pending = eager_part(lazy, effective(nodes));
    let blocked = Set::new(|node: Node| exists|m: int| members.contains(m) && nodes[m] == node);
    lemma_node_keys_members(deferred);
    assert forall|node: Node| #[trigger] blocked.contains(node) implies exists|d: int|
        0 <= d < node.deps.len() && !available.contains(#[trigger] node.deps[d]) && forall|
            other: Node,
        | #[trigger]
            pending.contains(other) && other.key == node.deps[d] ==> blocked.contains(other) by {
        let m = choose|m: int| members.contains(m) && nodes[m] == node;
        assert(waits_within(known, nodes, lazy, members, m));
        let d = choose|d: int|
            0 <= d < nodes[m].deps.len() && held_by(
                known,
                nodes,
                lazy,
                members,
                #[trigger] nodes[m].deps[d],
            );
        let dep = node.deps[d];
        if first.contains(dep) {
            let other = choose|other: Node| #[trigger] deferred.contains(other) && other.key == dep;
            lemma_counted_is_last_registration(nodes, lazy, other);
        }
        assert(!available.contains(dep));
        assert forall|other: Node| #[trigger]
            pending.contains(other) && other.key == dep implies blocked.contains(other) by {
            lemma_counted_is_last_registration(nodes, lazy, other);
            let j = choose|j: int|
                0 <= j < nodes.len() && is_last_of_key(nodes, j) && #[trigger] nodes[j] == other;
            assert(members.contains(j));
        }
    }
    lemma_blocked_nodes_stall(available, pending, blocked);
    assert(waits_within(known, nodes, lazy, members, i));
    lemma_last_registration_counts(nodes, lazy, i);
    assert(blocked.contains(nodes[i]));
    let stalled = resolution(known, nodes, lazy).stalled;
    assert(stalled.contains(nodes[i]));
    lemma_node_keys_members(stalled);
}

/// A cycle makes validation fail, where the three earlier passes find
/// nothing: the failure is a dependency cycle, and it names every member
/// of the cycle that has a name.
pub proof fn lemma_cycle_is_reported(
    known: Set<TypeId>,
    nodes: Seq<Node>,
    lazy: Set<TypeId>,
    names: Map<TypeId, String>,
    sites: Map<TypeId, String>,
    short_types: bool,
    members: Set<int>,
    i: int,
)
    requires
        duplicate_keys(known, nodes).len() == 0,
        nested_lazy_keys(lazy, nodes).len() == 0,
        missing_reports(provided_keys(known, nodes), nodes, names, sites, short_types).len() == 0,
        forall|m: int| members.contains(m) ==> waits_within(known, nodes, lazy, members, m),
        members.contains(i),
    ensures
        validation(known, nodes, lazy, names, sites, short_types) matches Err(
            ErrorView::DependencyCycle { types },
        ) && (names.contains_key(nodes[i].key) ==> types.contains(
            shown(names[nodes[i].key]@, short_types),
        )),
{
    lemma_cycle_members_stall(known, nodes, lazy, members, i);
    let stalled = resolution(known, nodes, lazy).stalled;
    let t = choose|t: int| 0 <= t < stalled.len() && stalled[t] == nodes[i];
    if names.contains_key(nodes[i].key) {
        lemma_labels_hold(node_keys(stalled), names, short_types, nodes[i].key);
    }
}

/// A deferred component is always resolved, whatever it needs and
/// whatever needs it: its key stands in the order of resolution.
pub proof fn lemma_deferred_components_are_resolved(
    known: Set<TypeId>,
    nodes: Seq<Node>,
    lazy: Set<TypeId>,
    i: int,
)
    requires
        0 <= i < nodes.len(),
        lazy.contains(nodes[i].key),
    ensures
        resolution(known, nodes, lazy).order.contains(nodes[i].key),
{
    let deferred = lazy_part(lazy, effective(nodes));
    let first = node_keys(deferred);
    let rest = waves(known.union(first.to_set()), eager_part(lazy, effective(nodes)));
    lemma_last_registration_exists(nodes, i);
    let j = choose|j: int|
        i <= j < nodes.len() && #[trigger] is_last_of_key(nodes, j) && nodes[j].key
            == nodes[i].key;
    lemma_last_registration_counts(nodes, lazy, j);
    lemma_node_keys_members(deferred);
    assert(first.contains(nodes[i].key));
    lemma_concat_contains(first, rest.order, nodes[i].key);
}

/// What can be resolved is not reported. A registration whose
/// dependencies are all known beforehand or resolved is not stalled.
pub proof fn lemma_ready_nodes_are_resolved(
    known: Set<TypeId>,
    nodes: Seq<Node>,
    lazy: Set<TypeId>,
    node: Node,
)
    requires
        ready(known.union(resolution(known, nodes, lazy).order.to_set()), node),
    ensures
        !resolution(known, nodes, lazy).stalled.contains(node),
{
    let first = node_keys(lazy_part(lazy, effective(nodes)));
    let available = known.union(first.to_set());
    let pending = eager_part(lazy, effective(nodes));
    let rest = waves(available, pending);
    lemma_waves_account(available, pending);
    assert(known.union(resolution(known, nodes, lazy).order.to_set()) =~= available.union(
        rest.order.to_set(),
    )) by {
        assert forall|key: TypeId| (first + rest.order).to_set().contains(key) == (
        first.to_set().contains(key) || rest.order.to_set().contains(key)) by {
            lemma_concat_contains(first, rest.order, key);
        }
    }
}

/// Only what waits for a cycle is reported. Where every dependency is
/// provided, each stalled registration needs a key that a stalled
/// registration registers.
pub proof fn lemma_stalled_wait_for_stalled(
    known: Set<TypeId>,
    nodes: Seq<Node>,
    lazy: Set<TypeId>,
    s: int,
)
    requires
        fully_provided(known, nodes),
        0 <= s < resolution(known, nodes, lazy).stalled.len(),
    ensures
        exists|d: int|
            0 <= d < resolution(known, nodes, lazy).stalled[s].deps.len() && node_keys(
                resolution(known, nodes, lazy).stalled,
            ).contains(#[trigger] resolution(known, nodes, lazy).stalled[s].deps[d]),
{
    let deferred = lazy_part(lazy, effective(nodes));
    let first = node_keys(deferred);
    let available = known.union(first.to_set());
    let pending = eager_part(lazy, effective(nodes));
    let rest = waves(available, pending);
    let stalled = rest.stalled;
    let node = stalled[s];
    let reached = available.union(rest.order.to_set());
    lemma_waves_account(available, pending);
    lemma_node_keys_members(deferred);
    lemma_node_keys_members(stalled);
    assert(stalled.contains(node));
    assert(!ready(reached, node));
    let d = choose|d: int| 0 <= d < node.deps.len() && !reached.contains(#[trigger] node.deps[d]);
    let dep = node.deps[d];
    lemma_counted_is_last_registration(nodes, lazy, node);
    let i = choose|i: int|
        0 <= i < nodes.len() && is_last_of_key(nodes, i) && #[trigger] nodes[i] == node;
    assert(provided(known, nodes, nodes[i].deps[d]));
    let r = choose|r: int| 0 <= r < nodes.len() && #[trigger] nodes[r].key == dep;
    lemma_last_registration_exists(nodes, r);
    let j = choose|j: int|
        r <= j < nodes.len() && #[trigger] is_last_of_key(nodes, j) && nodes[j].key
            == nodes[r].key;
    lemma_last_registration_counts(nodes, lazy, j);
    if lazy.contains(dep) {
        assert(deferred.contains(nodes[j]));
        assert(first.contains(dep));
    }
    assert(pending.contains(nodes[j]));
    assert(stalled.contains(nodes[j]));
    assert(node_keys(stalled).contains(dep));
}

// ----- the order of registration -----
/// Whether registrations of one key agree on what the key needs.
pub open spec fn consistent(nodes: Seq<Node>) -> bool {
    forall|i: int, j: int|
        0 <= i < nodes.len() && 0 <= j < nodes.len() && (#[trigger] nodes[i]).key == (
        #[trigger] nodes[j]).key ==> nodes[i].deps == nodes[j].deps
}

/// Whether two graphs hold the same registrations, in whatever order and
/// however often.
pub open spec fn same_members(one: Seq<Node>, other: Seq<Node>) -> bool {
    forall|node: Node| one.contains(node) <==> other.contains(node)
}

/// The place of the first occurrence of `key` in `order`.
pub open spec fn place(order: Seq<TypeId>, key: TypeId) -> nat
    decreases order.len(),
{
    if order.len() == 0 {
        0
    } else if order.drop_last().contains(key) {
        place(order.drop_last(), key)
    } else {
        (order.len() - 1) as nat
    }
}

/// The place of a key that occurs is the first position that holds it.
pub proof fn lemma_place(order: Seq<TypeId>, key: TypeId)
    requires
        order.contains(key),
    ensures
        place(order, key) < order.len(),
        order[place(order, key) as int] == key,
        forall|s: int| 0 <= s < order.len() && order[s] == key ==> place(order, key) <= s,
    decreases order.len(),
{
    let before = order.drop_last();
    if before.contains(key) {
        lemma_place(before, key);
        assert forall|s: int| 0 <= s < order.len() && order[s] == key implies place(order, key)
            <= s by {
            if s < before.len() {
                assert(before[s] == key);
            }
        }
    } else {
        let i = choose|i: int| 0 <= i < order.len() && order[i] == key;
        if i < before.len() {
            assert(before[i] == key);
        }
        assert forall|s: int| 0 <= s < order.len() && order[s] == key implies place(order, key)
            <= s by {
            if s < before.len() {
                assert(before[s] == key);
            }
        }
    }
}

/// Graphs with the same registrations register the same keys.
pub proof fn lemma_same_members_register(one: Seq<Node>, other: Seq<Node>)
    requires
        same_members(one, other),
    ensures
        forall|key: TypeId| registers(one, key) <==> registers(other, key),
        forall|known: Set<TypeId>| #[trigger] provided_keys(known, one) == provided_keys(known, other),
        consistent(one) ==> consistent(other),
{
    assert forall|key: TypeId| registers(one, key) <==> registers(other, key) by {
        if registers(one, key) {
            let i = choose|i: int| 0 <= i < one.len() && #[trigger] one[i].key == key;
            assert(one.contains(one[i]));
            let j = choose|j: int| 0 <= j < other.len() && other[j] == one[i];
            assert(other[j].key == key);
        }
        if registers(other, key) {
            let i = choose|i: int| 0 <= i < other.len() && #[trigger] other[i].key == key;
            assert(other.contains(other[i]));
            let j = choose|j: int| 0 <= j < one.len() && one[j] == other[i];
            assert(one[j].key == key);
        }
    }
    assert forall|known: Set<TypeId>| #[trigger]
        provided_keys(known, one) == provided_keys(known, other) by {
        assert(provided_keys(known, one) =~= provided_keys(known, other));
    }
    if consistent(one) {
        assert forall|i: int, j: int|
            0 <= i < other.len() && 0 <= j < other.len() && (#[trigger] other[i]).key == (
            #[trigger] other[j]).key implies other[i].deps == other[j].deps by {
            assert(other.contains(other[i]));
            assert(other.contains(other[j]));
            let x = choose|x: int| 0 <= x < one.len() && one[x] == other[i];
            let y = choose|y: int| 0 <= y < one.len() && one[y] == other[j];
            assert(one[x].key == one[y].key);
        }
    }
}

/// Where registrations of one key agree, every registration counts.
pub proof fn lemma_effective_is_all(nodes: Seq<Node>)
    requires
        consistent(nodes),
    ensures
        forall|node: Node| effective(nodes).contains(node) <==> nodes.contains(node),
{
    lemma_effective_members(nodes, nodes.len() as int);
    assert forall|node: Node| effective(nodes).contains(node) <==> nodes.contains(node) by {
        if nodes.contains(node) {
            let i = choose|i: int| 0 <= i < nodes.len() && nodes[i] == node;
            lemma_last_registration_exists(nodes, i);
            let j = choose|j: int|
                i <= j < nodes.len() && #[trigger] is_last_of_key(nodes, j) && nodes[j].key
                    == nodes[i].key;
            assert(nodes[j].deps == nodes[i].deps);
            assert(nodes[j] == node);
        }
        if effective(nodes).contains(node) {
            let i = choose|i: int|
                0 <= i < nodes.len() && is_last_of_key(nodes, i) && #[trigger] nodes[i] == node;
            assert(nodes.contains(node));
        }
    }
}

/// Whether a graph can be resolved is a matter of its registrations, not
/// of their order. Where registrations of one key agree, a graph with the
/// same registrations as one that resolves completely resolves completely.
pub proof fn lemma_resolvable_in_any_order(
    known: Set<TypeId>,
    one: Seq<Node>,
    other: Seq<Node>,
    lazy: Set<TypeId>,
)
    requires
        consistent(one),
        same_members(one, other),
        resolution(known, one, lazy).stalled.len() == 0,
    ensures
        resolution(known, other, lazy).stalled.len() == 0,
{
    let is_lazy = |node: Node| lazy.contains(node.key);
    let is_eager = |node: Node| !lazy.contains(node.key);
    let deferred1 = lazy_part(lazy, effective(one));
    let deferred2 = lazy_part(lazy, effective(other));
    let first1 = node_keys(deferred1);
    let first2 = node_keys(deferred2);
    let available1 = known.union(first1.to_set());
    let available2 = known.union(first2.to_set());
    let pending1 = eager_part(lazy, effective(one));
    let pending2 = eager_part(lazy, effective(other));
    let done = waves(available1, pending1);
    lemma_same_members_register(one, other);
    lemma_effective_is_all(one);
    lemma_effective_is_all(other);
    lemma_pick_members(effective(one), is_lazy);
    lemma_pick_members(effective(one), is_eager);
    lemma_pick_members(effective(other), is_lazy);
    lemma_pick_members(effective(other), is_eager);
    lemma_node_keys_members(deferred1);
    lemma_node_keys_members(deferred2);
    lemma_node_keys_members(pending1);
    lemma_node_keys_members(pending2);
    assert forall|node: Node| pending1.contains(node) <==> pending2.contains(node) by {
        assert(pending1.contains(node) <==> effective(one).contains(node) && is_eager(node));
        assert(pending2.contains(node) <==> effective(other).contains(node) && is_eager(node));
        assert(effective(one).contains(node) <==> one.contains(node));
        assert(effective(other).contains(node) <==> other.contains(node));
        assert(one.contains(node) <==> other.contains(node));
    }
    assert(available1 =~= available2) by {
        assert forall|key: TypeId| first1.contains(key) <==> first2.contains(key) by {
            if first1.contains(key) {
                let node = choose|node: Node| #[trigger] deferred1.contains(node) && node.key == key;
                assert(deferred1.contains(node) <==> effective(one).contains(node) && is_lazy(
                    node,
                ));
                assert(deferred2.contains(node) <==> effective(other).contains(node) && is_lazy(
                    node,
                ));
                assert(effective(one).contains(node) <==> one.contains(node));
                assert(effective(other).contains(node) <==> other.contains(node));
                assert(one.contains(node) <==> other.contains(node));
                assert(deferred2.contains(node));
            }
            if first2.contains(key) {
                let node = choose|node: Node| #[trigger] deferred2.contains(node) && node.key == key;
                assert(deferred1.contains(node) <==> effective(one).contains(node) && is_lazy(
                    node,
                ));
                assert(deferred2.contains(node) <==> effective(other).contains(node) && is_lazy(
                    node,
                ));
                assert(effective(one).contains(node) <==> one.contains(node));
                assert(effective(other).contains(node) <==> other.contains(node));
                assert(one.contains(node) <==> other.contains(node));
                assert(deferred1.contains(node));
            }
        }
    }
    lemma_waves_account(available1, pending1);
    let rank = |key: TypeId| place(done.order, key);
    assert forall|node: Node, d: int|
        #![trigger pending2.contains(node), node.deps[d]]
        pending2.contains(node) && 0 <= d < node.deps.len() implies available2.contains(
        node.deps[d],
    ) || (node_keys(pending2).contains(node.deps[d]) && rank(node.deps[d]) < rank(node.key)) by {
        let dep = node.deps[d];
        assert(pending1.contains(node));
        if done.stalled.contains(node) {
            let t = choose|t: int| 0 <= t < done.stalled.len() && done.stalled[t] == node;
        }
        assert(done.order.contains(node.key));
        lemma_place(done.order, node.key);
        let t = place(done.order, node.key) as int;
        lemma_waves_respect_dependencies(available1, pending1, t);
        let found = choose|found: Node|
            #[trigger] pending1.contains(found) && found.key == done.order[t] && ready(
                available1.union(done.order.take(t).to_set()),
                found,
            );
        assert(pending1.contains(found) <==> effective(one).contains(found) && is_eager(found));
        assert(pending1.contains(node) <==> effective(one).contains(node) && is_eager(node));
        lemma_effective_keys_differ(one, found, node);
        assert(available1.union(done.order.take(t).to_set()).contains(found.deps[d]));
        if !available2.contains(dep) {
            let before = done.order.take(t);
            assert(before.contains(dep));
            let s = choose|s: int| 0 <= s < before.len() && before[s] == dep;
            assert(done.order[s] == dep);
            assert(done.order.contains(dep));
            lemma_place(done.order, dep);
            assert(rank(dep) < rank(node.key));
            assert(node_keys(pending1).contains(dep));
            let holder = choose|holder: Node|
                #[trigger] pending1.contains(holder) && holder.key == dep;
            assert(pending2.contains(holder));
            assert(node_keys(pending2).contains(dep));
        }
    }
    lemma_layered_waves_complete(available2, pending2, rank);
}

/// Whether nothing is reported as missing is a matter of which keys have
/// names, not of what the names are.
pub proof fn lemma_reports_in_any_order(
    known: Set<TypeId>,
    one: Seq<Node>,
    other: Seq<Node>,
    names: Map<TypeId, String>,
    sites: Map<TypeId, String>,
    short_types: bool,
    other_names: Map<TypeId, String>,
    other_sites: Map<TypeId, String>,
    other_short_types: bool,
)
    requires
        same_members(one, other),
        names.dom() == other_names.dom(),
        missing_reports(provided_keys(known, one), one, names, sites, short_types).len() == 0,
    ensures
        missing_reports(
            provided_keys(known, other),
            other,
            other_names,
            other_sites,
            other_short_types,
        ).len() == 0,
{
    let available = provided_keys(known, one);
    let reports = missing_reports(available, one, names, sites, short_types);
    let other_reports = missing_reports(
        provided_keys(known, other),
        other,
        other_names,
        other_sites,
        other_short_types,
    );
    lemma_same_members_register(one, other);
    assert(provided_keys(known, other) == available);
    if other_reports.len() > 0 {
        lemma_missing_reports_exact(available, other, other_names, other_sites, other_short_types);
        assert(other_reports.contains(other_reports[0]));
        let i = choose|i: int|
            0 <= i < other.len() && report_on(
                available,
                #[trigger] other[i],
                other_names,
                other_sites,
                other_short_types,
            ) == Some(other_reports[0]);
        let node = other[i];
        lemma_missing_names_only(available, node.deps, other_names, 0);
        let d = choose|d: int|
            0 <= d < node.deps.len() && !available.contains(#[trigger] node.deps[d])
                && other_names.contains_key(node.deps[d]) && other_names[node.deps[d]]@
                == missing_names(available, node.deps, other_names)[0];
        assert(names.dom().contains(node.deps[d]));
        assert(names.dom().contains(node.key));
        lemma_missing_names_hold(available, node.deps, names, d);
        let raw = missing_names(available, node.deps, names);
        let t = choose|t: int| 0 <= t < raw.len() && raw[t] == names[node.deps[d]]@;
        let report = report_on(available, node, names, sites, short_types);
        assert(report is Some);
        assert(other.contains(node));
        let x = choose|x: int| 0 <= x < one.len() && one[x] == node;
        lemma_missing_reports_exact(available, one, names, sites, short_types);
        assert(reports.contains(report->0));
        let r = choose|r: int| 0 <= r < reports.len() && reports[r] == report->0;
    }
}

/// Whether `other` holds the registrations of `one` in another order:
/// the registration at `i` of `other` is the one at `there[i]` of `one`,
/// and `back` leads the other way.
pub open spec fn rearranges(one: Seq<Node>, other: Seq<Node>, there: Seq<int>, back: Seq<int>) -> bool {
    &&& one.len() == other.len()
    &&& there.len() == one.len()
    &&& back.len() == one.len()
    &&& forall|i: int|
        0 <= i < other.len() ==> 0 <= #[trigger] there[i] < one.len() && other[i] == one[there[i]]
            && back[there[i]] == i
    &&& forall|j: int|
        0 <= j < one.len() ==> 0 <= #[trigger] back[j] < other.len() && there[back[j]] == j
}

/// A graph in another order holds the same registrations.
pub proof fn lemma_rearranged_same_members(
    one: Seq<Node>,
    other: Seq<Node>,
    there: Seq<int>,
    back: Seq<int>,
)
    requires
        rearranges(one, other, there, back),
    ensures
        same_members(one, other),
{
    assert forall|node: Node| one.contains(node) <==> other.contains(node) by {
        if one.contains(node) {
            let j = choose|j: int| 0 <= j < one.len() && one[j] == node;
            let i = back[j];
            assert(there[i] == j);
            assert(other[i] == node);
        }
        if other.contains(node) {
            let i = choose|i: int| 0 <= i < other.len() && other[i] == node;
            assert(one[there[i]] == node);
        }
    }
}

/// Whether a component is registered twice does not depend on the order
/// of the registrations.
pub proof fn lemma_repeats_rearranged(
    known: Set<TypeId>,
    one: Seq<Node>,
    other: Seq<Node>,
    there: Seq<int>,
    back: Seq<int>,
)
    requires
        rearranges(one, other, there, back),
        free_of_repeats(known, one),
    ensures
        free_of_repeats(known, other),
{
    assert forall|i: int|
        0 <= i < other.len() && (#[trigger] other[i]).deps.len() > 0 implies !known.contains(
        other[i].key,
    ) by {
        assert(other[i] == one[there[i]]);
    }
    assert forall|i: int, j: int|
        0 <= i < j < other.len() && (#[trigger] other[i]).deps.len() > 0 && (
        #[trigger] other[j]).deps.len() > 0 implies other[i].key != other[j].key by {
        let x = there[i];
        let y = there[j];
        assert(other[i] == one[x]);
        assert(other[j] == one[y]);
        assert(back[x] == i && back[y] == j);
        if x < y {
            assert(one[x].key != one[y].key);
        } else {
            assert(one[y].key != one[x].key);
        }
    }
}

/// A graph that validates, validates in any order. Where registrations
/// of one key agree on what the key needs, a graph that holds the
/// registrations of a valid graph in another order is valid, and the same
/// keys are resolved.
pub proof fn lemma_valid_in_any_order(
    known: Set<TypeId>,
    one: Seq<Node>,
    other: Seq<Node>,
    there: Seq<int>,
    back: Seq<int>,
    lazy: Set<TypeId>,
    names: Map<TypeId, String>,
    sites: Map<TypeId, String>,
    short_types: bool,
    other_names: Map<TypeId, String>,
    other_sites: Map<TypeId, String>,
    other_short_types: bool,
)
    requires
        rearranges(one, other, there, back),
        consistent(one),
        names.dom() == other_names.dom(),
        validation(known, one, lazy, names, sites, short_types) is Ok,
    ensures
        validation(known, other, lazy, other_names, other_sites, other_short_types) is Ok,
        resolution(known, one, lazy).order.to_set() == resolution(
            known,
            other,
            lazy,
        ).order.to_set(),
{
    lemma_rearranged_same_members(one, other, there, back);
    lemma_same_members_register(one, other);
    lemma_free_of_repeats(known, one);
    lemma_repeats_rearranged(known, one, other, there, back);
    lemma_free_of_repeats(known, other);
    lemma_free_of_nesting(lazy, one);
    assert(free_of_nesting(lazy, other)) by {
        assert forall|i: int| 0 <= i < other.len() implies !nests_lazy(
            lazy,
            #[trigger] other[i],
        ) by {
            assert(other[i] == one[there[i]]);
            assert(!nests_lazy(lazy, one[there[i]]));
        }
    }
    lemma_free_of_nesting(lazy, other);
    lemma_reports_in_any_order(
        known,
        one,
        other,
        names,
        sites,
        short_types,
        other_names,
        other_sites,
        other_short_types,
    );
    lemma_resolvable_in_any_order(known, one, other, lazy);
    lemma_complete_order_lists_registered(known, one, lazy);
    lemma_complete_order_lists_registered(known, other, lazy);
    assert forall|key: TypeId|
        resolution(known, one, lazy).order.to_set().contains(key) == resolution(
            known,
            other,
            lazy,
        ).order.to_set().contains(key) by {
        assert(registers(one, key) <==> registers(other, key));
    }
    assert(resolution(known, one, lazy).order.to_set() =~= resolution(
        known,
        other,
        lazy,
    ).order.to_set());
}

/// Whether two answers of validation are of one kind: both an order of
/// resolution, or both the failure of the same pass.
pub open spec fn alike(
    one: Result<Seq<TypeId>, ErrorView>,
    other: Result<Seq<TypeId>, ErrorView>,
) -> bool {
    match (one, other) {
        (Ok(_), Ok(_)) => true,
        (Err(first), Err(second)) => {
            &&& first is DuplicateRegistration <==> second is DuplicateRegistration
            &&& first is IllegalLazyNesting <==> second is IllegalLazyNesting
            &&& first is MissingDependencies <==> second is MissingDependencies
            &&& first is DependencyCycle <==> second is DependencyCycle
        },
        _ => false,
    }
}

/// A graph fails in any order as it fails in one. Where registrations of
/// one key agree on what the key needs, a graph that holds the
/// registrations of another in another order validates if the other does,
/// and otherwise fails in the same pass.
pub proof fn lemma_fails_alike_in_any_order(
    known: Set<TypeId>,
    one: Seq<Node>,
    other: Seq<Node>,
    there: Seq<int>,
    back: Seq<int>,
    lazy: Set<TypeId>,
    names: Map<TypeId, String>,
    sites: Map<TypeId, String>,
    short_types: bool,
    other_names: Map<TypeId, String>,
    other_sites: Map<TypeId, String>,
    other_short_types: bool,
)
    requires
        rearranges(one, other, there, back),
        consistent(one),
        names.dom() == other_names.dom(),
    ensures
        alike(
            validation(known, one, lazy, names, sites, short_types),
            validation(known, other, lazy, other_names, other_sites, other_short_types),
        ),
{
    assert(rearranges(other, one, back, there)) by {
        assert forall|i: int| 0 <= i < one.len() implies 0 <= #[trigger] back[i] < other.len()
            && one[i] == other[back[i]] && there[back[i]] == i by {
            assert(other[back[i]] == one[there[back[i]]]);
        }
    }
    lemma_rearranged_same_members(one, other, there, back);
    lemma_rearranged_same_members(other, one, back, there);
    assert(consistent(other)) by {
        assert forall|i: int, j: int|
            0 <= i < other.len() && 0 <= j < other.len() && (#[trigger] other[i]).key == (
            #[trigger] other[j]).key implies other[i].deps == other[j].deps by {
            assert(other[i] == one[there[i]]);
            assert(other[j] == one[there[j]]);
        }
    }
    lemma_free_of_repeats(known, one);
    lemma_free_of_repeats(known, other);
    if free_of_repeats(known, one) {
        lemma_repeats_rearranged(known, one, other, there, back);
    }
    if free_of_repeats(known, other) {
        lemma_repeats_rearranged(known, other, one, back, there);
    }
    lemma_free_of_nesting(lazy, one);
    lemma_free_of_nesting(lazy, other);
    if free_of_nesting(lazy, one) {
        assert forall|i: int| 0 <= i < other.len() implies !nests_lazy(
            lazy,
            #[trigger] other[i],
        ) by {
            assert(other[i] == one[there[i]]);
        }
    }
    if free_of_nesting(lazy, other) {
        assert forall|i: int| 0 <= i < one.len() implies !nests_lazy(lazy, #[trigger] one[i]) by {
            assert(one[i] == other[back[i]]);
        }
    }
    if missing_reports(provided_keys(known, one), one, names, sites, short_types).len() == 0 {
        lemma_reports_in_any_order(
            known,
            one,
            other,
            names,
            sites,
            short_types,
            other_names,
            other_sites,
            other_short_types,
        );
    }
    if missing_reports(
        provided_keys(known, other),
        other,
        other_names,
        other_sites,
        other_short_types,
    ).len() == 0 {
        lemma_reports_in_any_order(
            known,
            other,
            one,
            other_names,
            other_sites,
            other_short_types,
            names,
            sites,
            short_types,
        );
    }
    if resolution(known, one, lazy).stalled.len() == 0 {
        lemma_resolvable_in_any_order(known, one, other, lazy);
    }
    if resolution(known, other, lazy).stalled.len() == 0 {
        lemma_resolvable_in_any_order(known, other, one, lazy);
    }
}

/// The positions that lead from `b + a` to `a + b`.
pub open spec fn swap_positions(a: Seq<Node>, b: Seq<Node>) -> Seq<int> {
    Seq::new(
        a.len() + b.len(),
        |i: int|
            if i < b.len() {
                i + a.len()
            } else {
                i - b.len()
            },
    )
}

/// Two merged graphs are each other in another order.
pub proof fn lemma_swap_rearranges(a: Seq<Node>, b: Seq<Node>)
    ensures
        rearranges(a + b, b + a, swap_positions(a, b), swap_positions(b, a)),
        rearranges(b + a, a + b, swap_positions(b, a), swap_positions(a, b)),
{
    let one = a + b;
    let other = b + a;
    let there = swap_positions(a, b);
    let back = swap_positions(b, a);
    assert forall|i: int| 0 <= i < other.len() implies 0 <= #[trigger] there[i] < one.len()
        && other[i] == one[there[i]] && back[there[i]] == i by {}
    assert forall|j: int| 0 <= j < one.len() implies 0 <= #[trigger] back[j] < other.len()
        && there[back[j]] == j by {}
    assert forall|i: int| 0 <= i < one.len() implies 0 <= #[trigger] back[i] < other.len()
        && one[i] == other[back[i]] && there[back[i]] == i by {}
    assert forall|j: int| 0 <= j < other.len() implies 0 <= #[trigger] there[j] < one.len()
        && back[there[j]] == j by {}
}

/// Merging in either order comes to the same. Where registrations of one
/// key agree on what the key needs, the graph of two merged binders
/// validates whichever of the two comes first, and the same keys are
/// resolved; where it does not validate, it fails in the same pass
/// either way.
pub proof fn lemma_merge_order_is_irrelevant(
    known: Set<TypeId>,
    a: Seq<Node>,
    b: Seq<Node>,
    lazy: Set<TypeId>,
    names: Map<TypeId, String>,
    sites: Map<TypeId, String>,
    short_types: bool,
    other_names: Map<TypeId, String>,
    other_sites: Map<TypeId, String>,
    other_short_types: bool,
)
    requires
        consistent(a + b),
        names.dom() == other_names.dom(),
    ensures
        validation(known, a + b, lazy, names, sites, short_types) is Ok <==> validation(
            known,
            b + a,
            lazy,
            other_names,
            other_sites,
            other_short_types,
        ) is Ok,
        validation(known, a + b, lazy, names, sites, short_types) is Ok ==> resolution(
            known,
            a + b,
            lazy,
        ).order.to_set() == resolution(known, b + a, lazy).order.to_set(),
        alike(
            validation(known, a + b, lazy, names, sites, short_types),
            validation(known, b + a, lazy, other_names, other_sites, other_short_types),
        ),
{
    lemma_swap_rearranges(a, b);
    lemma_fails_alike_in_any_order(
        known,
        a + b,
        b + a,
        swap_positions(a, b),
        swap_positions(b, a),
        lazy,
        names,
        sites,
        short_types,
        other_names,
        other_sites,
        other_short_types,
    );
    if validation(known, a + b, lazy, names, sites, short_types) is Ok {
        lemma_valid_in_any_order(
            known,
            a + b,
            b + a,
            swap_positions(a, b),
            swap_positions(b, a),
            lazy,
            names,
            sites,
            short_types,
            other_names,
            other_sites,
            other_short_types,
        );
    }
    if validation(known, b + a, lazy, other_names, other_sites, other_short_types) is Ok {
        lemma_rearranged_same_members(a + b, b + a, swap_positions(a, b), swap_positions(b, a));
        lemma_same_members_register(a + b, b + a);
        lemma_valid_in_any_order(
            known,
            b + a,
            a + b,
            swap_positions(b, a),
            swap_positions(a, b),
            lazy,
            other_names,
            other_sites,
            other_short_types,
            names,
            sites,
            short_types,
        );
    }
}

/// The positions that lead from a reversed graph of `n` registrations to
/// the graph.
pub open spec fn mirror_positions(n: nat) -> Seq<int> {
    Seq::new(n, |i: int| n - 1 - i)
}

/// Registering in reverse order comes to the same. Where registrations of
/// one key agree on what the key needs, a graph validates exactly if the
/// graph of the same registrations in reverse order does, and the same
/// keys are resolved; where it does not validate, it fails in the same
/// pass either way.
pub proof fn lemma_reverse_order_is_irrelevant(
    known: Set<TypeId>,
    nodes: Seq<Node>,
    lazy: Set<TypeId>,
    names: Map<TypeId, String>,
    sites: Map<TypeId, String>,
    short_types: bool,
)
    requires
        consistent(nodes),
    ensures
        validation(known, nodes, lazy, names, sites, short_types) is Ok <==> validation(
            known,
            nodes.reverse(),
            lazy,
            names,
            sites,
            short_types,
        ) is Ok,
        validation(known, nodes, lazy, names, sites, short_types) is Ok ==> resolution(
            known,
            nodes,
            lazy,
        ).order.to_set() == resolution(known, nodes.reverse(), lazy).order.to_set(),
        alike(
            validation(known, nodes, lazy, names, sites, short_types),
            validation(known, nodes.reverse(), lazy, names, sites, short_types),
        ),
{
    let turned = nodes.reverse();
    let mirror = mirror_positions(nodes.len());
    assert(rearranges(nodes, turned, mirror, mirror)) by {
        assert forall|i: int| 0 <= i < turned.len() implies 0 <= #[trigger] mirror[i]
            < nodes.len() && turned[i] == nodes[mirror[i]] && mirror[mirror[i]] == i by {}
    }
    lemma_fails_alike_in_any_order(
        known,
        nodes,
        turned,
        mirror,
        mirror,
        lazy,
        names,
        sites,
        short_types,
        names,
        sites,
        short_types,
    );
    assert(rearranges(turned, nodes, mirror, mirror)) by {
        assert forall|i: int| 0 <= i < nodes.len() implies 0 <= #[trigger] mirror[i]
            < turned.len() && nodes[i] == turned[mirror[i]] && mirror[mirror[i]] == i by {}
    }
    if validation(known, nodes, lazy, names, sites, short_types) is Ok {
        lemma_valid_in_any_order(
            known,
            nodes,
            turned,
            mirror,
            mirror,
            lazy,
            names,
            sites,
            short_types,
            names,
            sites,
            short_types,
        );
    }
    if validation(known, turned, lazy, names, sites, short_types) is Ok {
        lemma_rearranged_same_members(nodes, turned, mirror, mirror);
        lemma_same_members_register(nodes, turned);
        lemma_valid_in_any_order(
            known,
            turned,
            nodes,
            mirror,
            mirror,
            lazy,
            names,
            sites,
            short_types,
            names,
            sites,
            short_types,
        );
    }
}

/// Two binders merge to the same whichever is merged into the other.
/// Where registrations of one key agree on what the key needs, the merged
/// binder validates either way or neither way, and the same keys are
/// resolved; where it does not validate, it fails in the same pass
/// either way.
pub proof fn lemma_merged_binders_validate_alike(
    one: BinderView,
    other: BinderView,
    additional: Set<TypeId>,
    short_types: bool,
)
    requires
        consistent(one.registrations + other.registrations),
    ensures
        one.merged(other).validation(additional, short_types) is Ok <==> other.merged(
            one,
        ).validation(additional, short_types) is Ok,
        one.merged(other).validation(additional, short_types) matches Ok(order) ==> other.merged(
            one,
        ).validation(additional, short_types) matches Ok(other_order) && order.to_set()
            == other_order.to_set(),
        alike(
            one.merged(other).validation(additional, short_types),
            other.merged(one).validation(additional, short_types),
        ),
{
    let forth = one.merged(other);
    let back = other.merged(one);
    let known = additional.union(forth.statics.dom());
    assert(additional.union(back.statics.dom()) =~= known);
    assert(back.lazy =~= forth.lazy);
    assert(back.names.dom() =~= forth.names.dom());
    lemma_merge_order_is_irrelevant(
        known,
        one.registrations,
        other.registrations,
        forth.lazy,
        forth.names,
        forth.sites,
        short_types,
        back.names,
        back.sites,
        short_types,
    );
}

} // verus!
