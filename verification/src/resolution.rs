//! Resolution of the graph in waves, and the validation as a whole.

use crate::collections::{lemma_push_to_set, KeyMap, KeySet};
use crate::error::{ErrorView, InjectError};
use crate::graph::{
    effective_upto, is_last_of_key, labels, node_keys, nodes_of,
    pick, ready, ready_part, resolution, validation, waiting_part, waves, Node, Outcome,
    Registration,
};
use crate::type_key::same_key;
use crate::validation::{
    render_names, verify_duplicates, verify_missing_deps, verify_nested_lazy_deps,
};
use std::any::TypeId;
use vstd::prelude::*;

verus! {

/// How a resolution ended.
pub struct Resolution {
    /// The keys in the order in which they were resolved.
    pub order: Vec<TypeId>,
    /// The keys of the registrations that never became ready.
    pub stalled: Vec<TypeId>,
}

/// The nodes at the positions `picked`.
pub open spec fn nodes_at(nodes: Seq<Node>, picked: Seq<usize>) -> Seq<Node> {
    Seq::new(picked.len(), |t: int| nodes[picked[t] as int])
}

/// Whether every position of `picked` is one of `nodes`.
pub open spec fn positions_within(nodes: Seq<Node>, picked: Seq<usize>) -> bool {
    forall|t: int| 0 <= t < picked.len() ==> #[trigger] picked[t] < nodes.len()
}

/// Whether no later registration has the key of the one at `i`.
fn is_last_registration(graph: &Vec<Registration>, i: usize) -> (last: bool)
    requires
        i < graph.len(),
    ensures
        last == is_last_of_key(nodes_of(graph@), i as int),
{
    let ghost nodes = nodes_of(graph@);
    let mut j: usize = i + 1;
    while j < graph.len()
        invariant
            i < j <= graph.len(),
            nodes == nodes_of(graph@),
            forall|t: int| i < t < j ==> #[trigger] nodes[t].key != nodes[i as int].key,
        decreases graph.len() - j,
    {
        assert(nodes[j as int] == graph@[j as int]@);
        assert(nodes[i as int] == graph@[i as int]@);
        if same_key(&graph[j].key, &graph[i].key) {
            assert(nodes[j as int].key == nodes[i as int].key);
            assert(!is_last_of_key(nodes, i as int));
            return false;
        }
        j += 1;
    }
    true
}

/// Whether every key of `deps` is in `known` or in `resolved`.
fn is_ready(registration: &Registration, known: &KeySet, resolved: &KeySet) -> (all: bool)
    ensures
        all == ready(known@.union(resolved@), registration@),
{
    let deps = &registration.dependencies;
    let mut j: usize = 0;
    while j < deps.len()
        invariant
            j <= deps.len(),
            deps@ == registration@.deps,
            forall|t: int|
                0 <= t < j ==> known@.union(resolved@).contains(#[trigger] registration@.deps[t]),
        decreases deps.len() - j,
    {
        if !known.contains(&deps[j]) && !resolved.contains(&deps[j]) {
            return false;
        }
        j += 1;
    }
    true
}

/// Appends the keys of the registrations at `picked` to `order` and adds
/// them to `resolved`.
fn resolve_all(
    graph: &Vec<Registration>,
    picked: &Vec<usize>,
    order: &mut Vec<TypeId>,
    resolved: &mut KeySet,
)
    requires
        positions_within(nodes_of(graph@), picked@),
    ensures
        final(order)@ == old(order)@ + node_keys(nodes_at(nodes_of(graph@), picked@)),
        final(resolved)@ == old(resolved)@.union(
            node_keys(nodes_at(nodes_of(graph@), picked@)).to_set(),
        ),
{
    let ghost nodes = nodes_of(graph@);
    let ghost keys = node_keys(nodes_at(nodes, picked@));
    let mut u: usize = 0;
    assert(order@ =~= old(order)@ + keys.take(0));
    assert(resolved@ =~= old(resolved)@.union(keys.take(0).to_set()));
    while u < picked.len()
        invariant
            u <= picked.len(),
            nodes == nodes_of(graph@),
            keys == node_keys(nodes_at(nodes, picked@)),
            positions_within(nodes, picked@),
            order@ == old(order)@ + keys.take(u as int),
            resolved@ == old(resolved)@.union(keys.take(u as int).to_set()),
        decreases picked.len() - u,
    {
        let at = picked[u];
        assert(at < nodes.len());
        let key = graph[at].key;
        proof {
            assert(nodes[at as int] == graph@[at as int]@);
            assert(keys[u as int] == key);
            assert(keys.take(u + 1) =~= keys.take(u as int).push(key));
            lemma_push_to_set(keys.take(u as int), key);
        }
        order.push(key);
        resolved.insert(key);
        assert(order@ =~= old(order)@ + keys.take(u + 1));
        assert(resolved@ =~= old(resolved)@.union(keys.take(u + 1).to_set()));
        u += 1;
    }
    assert(keys.take(picked.len() as int) =~= keys);
}

/// Resolves the graph: the deferred components first, then the others in
/// waves. Gives the order in which the keys are resolved and the keys that
/// stay unresolved, which depend on each other in a circle.
pub fn traverse_dependencies_and_verify_recursion(
    known: &KeySet,
    graph: &Vec<Registration>,
    lazy: &KeySet,
) -> (found: Resolution)
    ensures
        found.order@ == resolution(known@, nodes_of(graph@), lazy@).order,
        found.stalled@ == node_keys(resolution(known@, nodes_of(graph@), lazy@).stalled),
{
    let ghost nodes = nodes_of(graph@);
    let ghost is_lazy = |node: Node| lazy@.contains(node.key);
    let ghost is_eager = |node: Node| !lazy@.contains(node.key);
    let mut order: Vec<TypeId> = Vec::new();
    let mut resolved = KeySet::new();
    let mut pending: Vec<usize> = Vec::new();
    let mut i: usize = 0;
    assert(order@ =~= node_keys(pick(effective_upto(nodes, 0), is_lazy)));
    assert(nodes_at(nodes, pending@) =~= pick(effective_upto(nodes, 0), is_eager));
    assert(resolved@ =~= order@.to_set());
    while i < graph.len()
        invariant
            i <= graph.len(),
            nodes == nodes_of(graph@),
            is_lazy == (|node: Node| lazy@.contains(node.key)),
            is_eager == (|node: Node| !lazy@.contains(node.key)),
            order@ == node_keys(pick(effective_upto(nodes, i as int), is_lazy)),
            resolved@ == order@.to_set(),
            positions_within(nodes, pending@),
            nodes_at(nodes, pending@) == pick(effective_upto(nodes, i as int), is_eager),
        decreases graph.len() - i,
    {
        let ghost before = effective_upto(nodes, i as int);
        if is_last_registration(graph, i) {
            proof {
                assert(nodes[i as int] == graph@[i as int]@);
                assert(effective_upto(nodes, i + 1) == before.push(nodes[i as int]));
                assert(before.push(nodes[i as int]).drop_last() =~= before);
            }
            if lazy.contains(&graph[i].key) {
                proof {
                    lemma_push_to_set(order@, graph@[i as int].key);
                }
                order.push(graph[i].key);
                resolved.insert(graph[i].key);
                assert(order@ =~= node_keys(pick(effective_upto(nodes, i + 1), is_lazy)));
            } else {
                pending.push(i);
                assert(nodes_at(nodes, pending@) =~= pick(effective_upto(nodes, i + 1), is_eager));
            }
        }
        i += 1;
    }
    let ghost lazy_keys = order@;
    let ghost goal = resolution(known@, nodes, lazy@);
    assert(goal.order == lazy_keys + waves(
        known@.union(lazy_keys.to_set()),
        nodes_at(nodes, pending@),
    ).order);
    let mut done = false;
    while !done
        invariant
            nodes == nodes_of(graph@),
            goal == resolution(known@, nodes, lazy@),
            positions_within(nodes, pending@),
            goal.order == order@ + waves(
                known@.union(resolved@),
                nodes_at(nodes, pending@),
            ).order,
            goal.stalled == waves(known@.union(resolved@), nodes_at(nodes, pending@)).stalled,
            done ==> waves(known@.union(resolved@), nodes_at(nodes, pending@)) == (Outcome {
                order: Seq::empty(),
                stalled: nodes_at(nodes, pending@),
            }),
        decreases pending.len() + if done { 0int } else { 1int },
    {
        let ghost available = known@.union(resolved@);
        let ghost waiting = nodes_at(nodes, pending@);
        let ghost wants_ready = |node: Node| ready(available, node);
        let ghost wants_waiting = |node: Node| !ready(available, node);
        let mut now: Vec<usize> = Vec::new();
        let mut later: Vec<usize> = Vec::new();
        let mut t: usize = 0;
        assert(nodes_at(nodes, now@) =~= pick(waiting.take(0), wants_ready));
        assert(nodes_at(nodes, later@) =~= pick(waiting.take(0), wants_waiting));
        while t < pending.len()
            invariant
                t <= pending.len(),
                nodes == nodes_of(graph@),
                available == known@.union(resolved@),
                waiting == nodes_at(nodes, pending@),
                wants_ready == (|node: Node| ready(available, node)),
                wants_waiting == (|node: Node| !ready(available, node)),
                positions_within(nodes, pending@),
                positions_within(nodes, now@),
                positions_within(nodes, later@),
                nodes_at(nodes, now@) == pick(waiting.take(t as int), wants_ready),
                nodes_at(nodes, later@) == pick(waiting.take(t as int), wants_waiting),
                later@.len() <= t,
                now@.len() + later@.len() == t,
            decreases pending.len() - t,
        {
            let at = pending[t];
            assert(at < nodes.len());
            proof {
                assert(nodes[at as int] == graph@[at as int]@);
                assert(waiting.take(t + 1).drop_last() =~= waiting.take(t as int));
                assert(waiting.take(t + 1).last() == nodes[at as int]);
            }
            if is_ready(&graph[at], known, &resolved) {
                now.push(at);
                assert(nodes_at(nodes, now@) =~= pick(waiting.take(t + 1), wants_ready));
            } else {
                later.push(at);
                assert(nodes_at(nodes, later@) =~= pick(waiting.take(t + 1), wants_waiting));
            }
            t += 1;
        }
        proof {
            assert(waiting.take(pending.len() as int) =~= waiting);
            assert(nodes_at(nodes, now@) == ready_part(available, waiting));
            assert(nodes_at(nodes, later@) == waiting_part(available, waiting));
        }
        if pending.len() == 0 || now.len() == 0 {
            proof {
                if pending.len() == 0 {
                    assert(waiting =~= Seq::<Node>::empty());
                }
            }
            done = true;
        } else {
            let ghost order_before = order@;
            resolve_all(graph, &now, &mut order, &mut resolved);
            proof {
                let fresh = node_keys(nodes_at(nodes, now@));
                let rest = waves(available.union(fresh.to_set()), nodes_at(nodes, later@));
                assert(known@.union(resolved@) =~= available.union(fresh.to_set()));
                assert(waves(available, waiting).order == fresh + rest.order);
                assert(order_before + (fresh + rest.order) =~= (order_before + fresh)
                    + rest.order);
            }
            pending = later;
        }
    }
    let mut stalled: Vec<TypeId> = Vec::new();
    let mut t: usize = 0;
    while t < pending.len()
        invariant
            t <= pending.len(),
            nodes == nodes_of(graph@),
            positions_within(nodes, pending@),
            stalled@ == node_keys(nodes_at(nodes, pending@)).take(t as int),
        decreases pending.len() - t,
    {
        let at = pending[t];
        assert(at < nodes.len());
        assert(nodes[at as int] == graph@[at as int]@);
        stalled.push(graph[at].key);
        assert(stalled@ =~= node_keys(nodes_at(nodes, pending@)).take(t + 1));
        t += 1;
    }
    assert(stalled@ =~= node_keys(nodes_at(nodes, pending@)));
    assert(order@ + Seq::<TypeId>::empty() =~= order@);
    Resolution { order, stalled }
}

/// Fails where components depend on each other in a circle; else gives
/// the order in which the components are resolved.
pub fn verify_recursive_deps(
    known: &KeySet,
    graph: &Vec<Registration>,
    lazy: &KeySet,
    names: &KeyMap<String>,
    short_types: bool,
) -> (checked: Result<Vec<TypeId>, InjectError>)
    ensures
        match checked {
            Ok(order) => resolution(known@, nodes_of(graph@), lazy@).stalled.len() == 0 && order@
                == resolution(known@, nodes_of(graph@), lazy@).order,
            Err(error) => resolution(known@, nodes_of(graph@), lazy@).stalled.len() > 0 && error@
                == (ErrorView::DependencyCycle {
                types: labels(
                    node_keys(resolution(known@, nodes_of(graph@), lazy@).stalled),
                    names@,
                    short_types,
                ),
            }),
        },
{
    let found = traverse_dependencies_and_verify_recursion(known, graph, lazy);
    if found.stalled.len() == 0 {
        return Ok(found.order);
    }
    Err(InjectError::DependencyCycle { types: render_names(&found.stalled, names, short_types) })
}

/// Whether a result and what validation means agree.
pub open spec fn answers(
    checked: Result<Vec<TypeId>, InjectError>,
    meant: Result<Seq<TypeId>, ErrorView>,
) -> bool {
    match checked {
        Ok(order) => meant == Ok::<Seq<TypeId>, ErrorView>(order@),
        Err(error) => meant == Err::<Seq<TypeId>, ErrorView>(error@),
    }
}

/// Validates the graph: duplicates, deferred components that depend on
/// deferred components, missing dependencies and cycles, in this order.
/// Gives the first failure, or the order in which the components are
/// resolved.
pub fn validate(
    known: &KeySet,
    graph: &Vec<Registration>,
    lazy: &KeySet,
    names: &KeyMap<String>,
    sites: &KeyMap<String>,
    short_types: bool,
) -> (checked: Result<Vec<TypeId>, InjectError>)
    ensures
        answers(
            checked,
            validation(known@, nodes_of(graph@), lazy@, names@, sites@, short_types),
        ),
{
    match verify_duplicates(known, graph, names, short_types) {
        Err(error) => {
            return Err(error);
        },
        Ok(_) => {},
    }
    match verify_nested_lazy_deps(lazy, graph, names, short_types) {
        Err(error) => {
            return Err(error);
        },
        Ok(_) => {},
    }
    match verify_missing_deps(known, graph, names, sites, short_types) {
        Err(error) => {
            return Err(error);
        },
        Ok(_) => {},
    }
    verify_recursive_deps(known, graph, lazy, names, short_types)
}

} // verus!
