//! The dependency graph and what its validation and resolution mean.
//!
//! A graph is the sequence of registrations in the order in which they were
//! made. Everything here is a mathematical statement; the functions that
//! compute these values are in `validation` and `resolution`.

use crate::error::{ErrorView, MissingReportView};
use crate::names::{shown, trimmed};
use std::any::TypeId;
use vstd::prelude::*;

verus! {

/// One registration: a component and the keys of what it needs.
pub struct Registration {
    pub key: TypeId,
    pub dependencies: Vec<TypeId>,
}

/// What a registration holds.
pub struct Node {
    pub key: TypeId,
    pub deps: Seq<TypeId>,
}

impl View for Registration {
    type V = Node;

    open spec fn view(&self) -> Node {
        Node { key: self.key, deps: self.dependencies@ }
    }
}

/// What a sequence of registrations holds.
pub open spec fn nodes_of(graph: Seq<Registration>) -> Seq<Node> {
    Seq::new(graph.len(), |i: int| graph[i]@)
}

/// The keys of `nodes`, in order.
pub open spec fn node_keys(nodes: Seq<Node>) -> Seq<TypeId> {
    Seq::new(nodes.len(), |i: int| nodes[i].key)
}

/// Whether a node of `nodes` has the key `key`.
pub open spec fn registers(nodes: Seq<Node>, key: TypeId) -> bool {
    exists|i: int| 0 <= i < nodes.len() && #[trigger] nodes[i].key == key
}

/// The items of `nodes` that `wanted` accepts, in order.
pub open spec fn pick(nodes: Seq<Node>, wanted: spec_fn(Node) -> bool) -> Seq<Node>
    decreases nodes.len(),
{
    if nodes.len() == 0 {
        Seq::empty()
    } else if wanted(nodes.last()) {
        pick(nodes.drop_last(), wanted).push(nodes.last())
    } else {
        pick(nodes.drop_last(), wanted)
    }
}

/// The names of `keys` as a report shows them; a key without a name is
/// left out.
pub open spec fn labels(keys: Seq<TypeId>, names: Map<TypeId, String>, short_types: bool) -> Seq<
    Seq<char>,
>
    decreases keys.len(),
{
    if keys.len() == 0 {
        Seq::empty()
    } else if names.contains_key(keys.last()) {
        labels(keys.drop_last(), names, short_types).push(
            shown(names[keys.last()]@, short_types),
        )
    } else {
        labels(keys.drop_last(), names, short_types)
    }
}

// ----- duplicates -----
/// Whether `key` is known beforehand or registered with dependencies in
/// `nodes`.
pub open spec fn checked(known: Set<TypeId>, nodes: Seq<Node>, key: TypeId) -> bool {
    known.contains(key) || exists|j: int|
        0 <= j < nodes.len() && nodes[j].deps.len() > 0 && #[trigger] nodes[j].key == key
}

/// Whether the registration at `i` repeats a key: it has dependencies, and
/// its key is known beforehand or was registered with dependencies before.
pub open spec fn repeats_at(known: Set<TypeId>, nodes: Seq<Node>, i: int) -> bool {
    &&& 0 <= i < nodes.len()
    &&& nodes[i].deps.len() > 0
    &&& checked(known, nodes.take(i), nodes[i].key)
}

/// The keys that are registered twice, each once, in the order in which
/// the repetitions are met.
pub open spec fn duplicate_keys(known: Set<TypeId>, nodes: Seq<Node>) -> Seq<TypeId>
    decreases nodes.len(),
{
    if nodes.len() == 0 {
        Seq::empty()
    } else {
        let found = duplicate_keys(known, nodes.drop_last());
        if repeats_at(known, nodes, nodes.len() - 1) && !found.contains(nodes.last().key) {
            found.push(nodes.last().key)
        } else {
            found
        }
    }
}

// ----- deferred components that depend on deferred components -----
/// Whether one of `deps` is in `set`.
pub open spec fn touches(deps: Seq<TypeId>, set: Set<TypeId>) -> bool {
    exists|j: int| 0 <= j < deps.len() && set.contains(#[trigger] deps[j])
}

/// Whether `node` is deferred and depends on a deferred component.
pub open spec fn nests_lazy(lazy: Set<TypeId>, node: Node) -> bool {
    lazy.contains(node.key) && touches(node.deps, lazy)
}

/// The keys of the deferred registrations that depend on a deferred
/// component, in order.
pub open spec fn nested_lazy_keys(lazy: Set<TypeId>, nodes: Seq<Node>) -> Seq<TypeId> {
    node_keys(pick(nodes, |node: Node| nests_lazy(lazy, node)))
}

// ----- missing dependencies -----
/// Whether every key of `nodes`, and every key that a node needs, has a
/// name.
pub open spec fn all_keys_named(nodes: Seq<Node>, names: Map<TypeId, String>) -> bool {
    forall|i: int|
        0 <= i < nodes.len() ==> names.contains_key((#[trigger] nodes[i]).key) && forall|d: int|
            0 <= d < nodes[i].deps.len() ==> names.contains_key(#[trigger] nodes[i].deps[d])
}

/// Whether `key` is known beforehand or registered in `nodes`.
pub open spec fn provided(known: Set<TypeId>, nodes: Seq<Node>, key: TypeId) -> bool {
    known.contains(key) || registers(nodes, key)
}

/// The keys that are known beforehand or registered in `nodes`.
pub open spec fn provided_keys(known: Set<TypeId>, nodes: Seq<Node>) -> Set<TypeId> {
    Set::new(|key: TypeId| provided(known, nodes, key))
}

/// The names of those of `deps` that are not in `available`, in order; a
/// key without a name is left out.
pub open spec fn missing_names(
    available: Set<TypeId>,
    deps: Seq<TypeId>,
    names: Map<TypeId, String>,
) -> Seq<Seq<char>>
    decreases deps.len(),
{
    if deps.len() == 0 {
        Seq::empty()
    } else if !available.contains(deps.last()) && names.contains_key(deps.last()) {
        missing_names(available, deps.drop_last(), names).push(names[deps.last()]@)
    } else {
        missing_names(available, deps.drop_last(), names)
    }
}

/// The names of missing dependencies as a report shows them: each is
/// trimmed and then shortened.
pub open spec fn shown_missing(raw: Seq<Seq<char>>, short_types: bool) -> Seq<Seq<char>> {
    Seq::new(raw.len(), |i: int| shown(trimmed(raw[i]), short_types))
}

/// The report on `node`, if some dependency of it is missing and the node
/// has a name.
pub open spec fn report_on(
    available: Set<TypeId>,
    node: Node,
    names: Map<TypeId, String>,
    sites: Map<TypeId, String>,
    short_types: bool,
) -> Option<MissingReportView> {
    let raw = missing_names(available, node.deps, names);
    if raw.len() > 0 && names.contains_key(node.key) {
        Some(
            MissingReportView {
                name: shown(names[node.key]@, short_types),
                debug_site: if sites.contains_key(node.key) {
                    Some(sites[node.key]@)
                } else {
                    None
                },
                missing: shown_missing(raw, short_types),
            },
        )
    } else {
        None
    }
}

/// The reports on the nodes of `nodes`, in order.
pub open spec fn missing_reports(
    available: Set<TypeId>,
    nodes: Seq<Node>,
    names: Map<TypeId, String>,
    sites: Map<TypeId, String>,
    short_types: bool,
) -> Seq<MissingReportView>
    decreases nodes.len(),
{
    if nodes.len() == 0 {
        Seq::empty()
    } else {
        let before = missing_reports(available, nodes.drop_last(), names, sites, short_types);
        match report_on(available, nodes.last(), names, sites, short_types) {
            Some(report) => before.push(report),
            None => before,
        }
    }
}

// ----- resolution -----
/// Whether no later registration has the key of the one at `i`.
pub open spec fn is_last_of_key(nodes: Seq<Node>, i: int) -> bool {
    forall|j: int| i < j < nodes.len() ==> #[trigger] nodes[j].key != nodes[i].key
}

/// Of the first `n` registrations, those that are the last of their key.
pub open spec fn effective_upto(nodes: Seq<Node>, n: int) -> Seq<Node>
    decreases n,
{
    if n <= 0 {
        Seq::empty()
    } else if is_last_of_key(nodes, n - 1) {
        effective_upto(nodes, n - 1).push(nodes[n - 1])
    } else {
        effective_upto(nodes, n - 1)
    }
}

/// The registrations that count: where a key is registered more than once,
/// the last registration stands for it.
pub open spec fn effective(nodes: Seq<Node>) -> Seq<Node> {
    effective_upto(nodes, nodes.len() as int)
}

/// Whether every dependency of `node` is available.
pub open spec fn ready(available: Set<TypeId>, node: Node) -> bool {
    forall|j: int| 0 <= j < node.deps.len() ==> available.contains(#[trigger] node.deps[j])
}

/// The nodes of `pending` that are ready.
pub open spec fn ready_part(available: Set<TypeId>, pending: Seq<Node>) -> Seq<Node> {
    pick(pending, |node: Node| ready(available, node))
}

/// The nodes of `pending` that are not ready.
pub open spec fn waiting_part(available: Set<TypeId>, pending: Seq<Node>) -> Seq<Node> {
    pick(pending, |node: Node| !ready(available, node))
}

/// The deferred nodes of `nodes`.
pub open spec fn lazy_part(lazy: Set<TypeId>, nodes: Seq<Node>) -> Seq<Node> {
    pick(nodes, |node: Node| lazy.contains(node.key))
}

/// The nodes of `nodes` that are not deferred.
pub open spec fn eager_part(lazy: Set<TypeId>, nodes: Seq<Node>) -> Seq<Node> {
    pick(nodes, |node: Node| !lazy.contains(node.key))
}

/// How a resolution ends: the keys in the order in which they are resolved,
/// and the nodes that never become ready.
pub struct Outcome {
    pub order: Seq<TypeId>,
    pub stalled: Seq<Node>,
}

/// A picked part is no longer than the whole, and the two parts that a
/// condition and its negation pick are together as long as the whole.
pub proof fn lemma_pick_lengths(nodes: Seq<Node>, wanted: spec_fn(Node) -> bool)
    ensures
        pick(nodes, wanted).len() + pick(nodes, |node: Node| !wanted(node)).len() == nodes.len(),
    decreases nodes.len(),
{
    if nodes.len() > 0 {
        lemma_pick_lengths(nodes.drop_last(), wanted);
    }
}

/// Resolution in waves. Each wave resolves, in order, the pending nodes
/// whose dependencies are all available, and makes their keys available
/// to the next wave. It ends when nothing is pending or nothing is ready.
pub open spec fn waves(available: Set<TypeId>, pending: Seq<Node>) -> Outcome
    decreases pending.len(),
    via waves_decreases
{
    let now = ready_part(available, pending);
    if pending.len() == 0 {
        Outcome { order: Seq::empty(), stalled: Seq::empty() }
    } else if now.len() == 0 {
        Outcome { order: Seq::empty(), stalled: pending }
    } else {
        let rest = waves(
            available.union(node_keys(now).to_set()),
            waiting_part(available, pending),
        );
        Outcome { order: node_keys(now) + rest.order, stalled: rest.stalled }
    }
}

#[via_fn]
proof fn waves_decreases(available: Set<TypeId>, pending: Seq<Node>) {
    lemma_pick_lengths(pending, |node: Node| ready(available, node));
    assert(waiting_part(available, pending) == pick(
        pending,
        |node: Node| !(|node: Node| ready(available, node))(node),
    )) by {
        assert((|node: Node| !ready(available, node)) =~= (|node: Node|
            !(|node: Node| ready(available, node))(node)));
    }
}

/// The resolution of a graph: the deferred components first, then the
/// others in waves, starting from the known keys and those of the deferred
/// components.
pub open spec fn resolution(known: Set<TypeId>, nodes: Seq<Node>, lazy: Set<TypeId>) -> Outcome {
    let first = node_keys(lazy_part(lazy, effective(nodes)));
    let rest = waves(known.union(first.to_set()), eager_part(lazy, effective(nodes)));
    Outcome { order: first + rest.order, stalled: rest.stalled }
}

// ----- validation -----
/// What validation answers: the order of resolution, or the first failure
/// in the order duplicates, nested deferral, missing dependencies, cycles.
pub open spec fn validation(
    known: Set<TypeId>,
    nodes: Seq<Node>,
    lazy: Set<TypeId>,
    names: Map<TypeId, String>,
    sites: Map<TypeId, String>,
    short_types: bool,
) -> Result<Seq<TypeId>, ErrorView> {
    let duplicates = duplicate_keys(known, nodes);
    let nested = nested_lazy_keys(lazy, nodes);
    let reports = missing_reports(provided_keys(known, nodes), nodes, names, sites, short_types);
    let outcome = resolution(known, nodes, lazy);
    if duplicates.len() > 0 {
        Err(ErrorView::DuplicateRegistration { types: labels(duplicates, names, short_types) })
    } else if nested.len() > 0 {
        Err(ErrorView::IllegalLazyNesting { types: labels(nested, names, short_types) })
    } else if reports.len() > 0 {
        Err(ErrorView::MissingDependencies { per_component: reports })
    } else if outcome.stalled.len() > 0 {
        Err(
            ErrorView::DependencyCycle {
                types: labels(node_keys(outcome.stalled), names, short_types),
            },
        )
    } else {
        Ok(outcome.order)
    }
}

} // verus!
