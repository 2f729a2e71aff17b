//! The projection as a mathematical value, and what each event does to it.
use vstd::prelude::*;
use vstd::multiset::Multiset;
use crate::entity::{EntityView, created_entity};
use crate::fact::Fact;
use crate::relationship::{Relationship, parse_relationship_type};

verus! {

/// The materialised graph: entities by id, and the edges, parallel ones
/// counted with their multiplicity.
pub struct Projection {
    pub nodes: Map<u128, EntityView>,
    pub edges: Multiset<Relationship>,
}

pub open spec fn empty_projection() -> Projection {
    Projection { nodes: Map::empty(), edges: Multiset::empty() }
}

/// Adds an entity unless its id is taken (the first one stays).
pub open spec fn with_entity(p: Projection, e: EntityView) -> Projection {
    if p.nodes.contains_key(e.id) {
        p
    } else {
        Projection { nodes: p.nodes.insert(e.id, e), edges: p.edges }
    }
}

/// Adds the entities one after the other.
pub open spec fn with_entities(p: Projection, es: Seq<EntityView>) -> Projection
    decreases es.len(),
{
    if es.len() == 0 {
        p
    } else {
        with_entity(with_entities(p, es.drop_last()), es.last())
    }
}

/// Adds an edge where both endpoints exist; otherwise nothing changes.
pub open spec fn with_relationship(p: Projection, r: Relationship) -> Projection {
    if p.nodes.contains_key(r.source_id) && p.nodes.contains_key(r.target_id) {
        Projection { nodes: p.nodes, edges: p.edges.insert(r) }
    } else {
        p
    }
}

/// An entity with `upd` merged into its properties; its kind stays.
pub open spec fn updated_entity(e: EntityView, upd: Map<Seq<char>, Seq<char>>) -> EntityView {
    EntityView {
        id: e.id,
        name: e.name,
        entity_type: e.entity_type,
        properties: e.properties.union_prefer_right(upd),
    }
}

/// Removes an entity and every edge from or to it.
pub open spec fn without_entity(p: Projection, id: u128) -> Projection {
    Projection {
        nodes: p.nodes.remove(id),
        edges: p.edges.filter(|r: Relationship| r.source_id != id && r.target_id != id),
    }
}

/// Removes every edge from `s` to `t`, whatever its kind or validity.
pub open spec fn without_edges_between(p: Projection, s: u128, t: u128) -> Projection {
    Projection {
        nodes: p.nodes,
        edges: p.edges.filter(|r: Relationship| !(r.source_id == s && r.target_id == t)),
    }
}

/// Whether applying the event skips a step for want of a known relationship
/// kind.
pub open spec fn is_rejected(f: Fact) -> bool {
    f matches Fact::RelationshipAdded { relationship_type, .. } && parse_relationship_type(
        relationship_type@,
    ) is None
}

/// What one event does to the projection.
pub open spec fn apply_fact(p: Projection, f: Fact) -> Projection {
    match f {
        Fact::EntityCreated { entity_id, properties, .. } => with_entity(
            p,
            created_entity(entity_id, properties@),
        ),
        Fact::EntityUpdated { entity_id, updated_properties, .. } => {
            if p.nodes.contains_key(entity_id) {
                Projection {
                    nodes: p.nodes.insert(
                        entity_id,
                        updated_entity(p.nodes[entity_id], updated_properties@),
                    ),
                    edges: p.edges,
                }
            } else {
                p
            }
        },
        Fact::EntityDeleted { entity_id, .. } => {
            if p.nodes.contains_key(entity_id) {
                without_entity(p, entity_id)
            } else {
                p
            }
        },
        Fact::RelationshipAdded {
            source_id,
            target_id,
            relationship_type,
            valid_from,
            valid_to,
            ..
        } => match parse_relationship_type(relationship_type@) {
            Some(t) => with_relationship(
                p,
                Relationship { source_id, target_id, relationship_type: t, valid_from, valid_to },
            ),
            None => p,
        },
        Fact::RelationshipInvalidated { source_id, target_id, .. } => {
            if p.nodes.contains_key(source_id) && p.nodes.contains_key(target_id) {
                without_edges_between(p, source_id, target_id)
            } else {
                p
            }
        },
    }
}

/// Applies the events in order, from the first to the last.
pub open spec fn apply_facts(p: Projection, fs: Seq<Fact>) -> Projection
    decreases fs.len(),
{
    if fs.len() == 0 {
        p
    } else {
        apply_fact(apply_facts(p, fs.drop_last()), fs.last())
    }
}

/// The projection that replaying a log from empty yields.
pub open spec fn replay(log: Seq<Fact>) -> Projection {
    apply_facts(empty_projection(), log)
}

/// Whether an edge leaves `id`.
pub open spec fn leaves(id: u128) -> spec_fn(Relationship) -> bool {
    |r: Relationship| r.source_id == id
}

/// Whether an edge enters `id`.
pub open spec fn enters(id: u128) -> spec_fn(Relationship) -> bool {
    |r: Relationship| r.target_id == id
}

/// Whether the projection holds an edge from `a` to `b`.
pub open spec fn has_edge(p: Projection, a: u128, b: u128) -> bool {
    exists|r: Relationship| #[trigger] p.edges.count(r) > 0 && r.source_id == a && r.target_id == b
}

/// Whether consecutive ids of `path` are joined by edges of the projection.
pub open spec fn is_path(p: Projection, path: Seq<u128>) -> bool {
    forall|i: int| 0 <= i < path.len() - 1 ==> has_edge(p, #[trigger] path[i], path[i + 1])
}

/// Whether `to` can be reached from `from` by following at most `k` edges
/// forward.
pub open spec fn within_hops(p: Projection, from: u128, to: u128, k: nat) -> bool {
    exists|path: Seq<u128>|
        #![trigger is_path(p, path)]
        1 <= path.len() <= k + 1 && path[0] == from && path.last() == to && is_path(p, path)
}

/// What is reached within `k` hops is reached within any larger bound.
pub proof fn lemma_within_hops_monotone(p: Projection, from: u128, to: u128, k: nat, j: nat)
    requires
        k <= j,
        within_hops(p, from, to, k),
    ensures
        within_hops(p, from, to, j),
{
    let path = choose|path: Seq<u128>|
        #![trigger is_path(p, path)]
        1 <= path.len() <= k + 1 && path[0] == from && path.last() == to && is_path(p, path);
    assert(is_path(p, path));
}

/// One more edge from a node reached within `k` hops reaches within `k + 1`.
pub proof fn lemma_within_hops_step(p: Projection, from: u128, m: u128, to: u128, k: nat)
    requires
        within_hops(p, from, m, k),
        has_edge(p, m, to),
    ensures
        within_hops(p, from, to, k + 1),
{
    let path = choose|path: Seq<u128>|
        #![trigger is_path(p, path)]
        1 <= path.len() <= k + 1 && path[0] == from && path.last() == m && is_path(p, path);
    let longer = path.push(to);
    assert forall|i: int| 0 <= i < longer.len() - 1 implies has_edge(p, #[trigger] longer[i], longer[i + 1]) by {
        if i < path.len() - 1 {
            assert(longer[i] == path[i] && longer[i + 1] == path[i + 1]);
        } else {
            assert(longer[i] == m);
        }
    }
    assert(is_path(p, longer));
}

/// The seed is reached within zero hops.
pub proof fn lemma_within_hops_zero(p: Projection, from: u128)
    ensures
        within_hops(p, from, from, 0),
{
    let path = seq![from];
    assert(is_path(p, path));
}

/// What is reached within `k + 1` hops is reached within `k`, or is one edge
/// from something reached within `k`.
pub proof fn lemma_within_hops_last_step(p: Projection, from: u128, to: u128, k: nat)
    requires
        within_hops(p, from, to, k + 1),
    ensures
        within_hops(p, from, to, k) || exists|m: u128|
            #[trigger] within_hops(p, from, m, k) && has_edge(p, m, to),
{
    let path = choose|path: Seq<u128>|
        #![trigger is_path(p, path)]
        1 <= path.len() <= k + 2 && path[0] == from && path.last() == to && is_path(p, path);
    if path.len() <= k + 1 {
        assert(is_path(p, path));
    } else {
        let shorter = path.drop_last();
        let m = shorter.last();
        assert forall|i: int| 0 <= i < shorter.len() - 1 implies has_edge(
            p,
            #[trigger] shorter[i],
            shorter[i + 1],
        ) by {
            assert(shorter[i] == path[i] && shorter[i + 1] == path[i + 1]);
        }
        assert(is_path(p, shorter));
        assert(within_hops(p, from, m, k));
        assert(has_edge(p, path[path.len() - 2], path[path.len() - 1]));
    }
}

/// What is reached within zero hops is the start itself.
pub proof fn lemma_within_hops_zero_only(p: Projection, from: u128, to: u128)
    requires
        within_hops(p, from, to, 0),
    ensures
        to == from,
{
    let path = choose|path: Seq<u128>|
        #![trigger is_path(p, path)]
        1 <= path.len() <= 1 && path[0] == from && path.last() == to && is_path(p, path);
}

/// Applying two lists of events one after the other is applying their
/// concatenation.
pub proof fn lemma_apply_facts_append(p: Projection, a: Seq<Fact>, b: Seq<Fact>)
    ensures
        apply_facts(apply_facts(p, a), b) == apply_facts(p, a + b),
    decreases b.len(),
{
    if b.len() == 0 {
        assert(a + b =~= a);
    } else {
        lemma_apply_facts_append(p, a, b.drop_last());
        assert((a + b).drop_last() =~= a + b.drop_last());
        assert((a + b).last() == b.last());
    }
}

/// Replay equivalence: applying events live to the projection that a log
/// replays to gives the projection that replaying the log extended by those
/// events gives. Starting from the empty store, whose log is empty, the
/// projection held after any sequence of event batches is therefore the one
/// that replaying its log from empty rebuilds.
pub proof fn lemma_replay_equivalence(log: Seq<Fact>, facts: Seq<Fact>)
    ensures
        apply_facts(replay(log), facts) == replay(log + facts),
{
    lemma_apply_facts_append(empty_projection(), log, facts);
}

/// Creation is idempotent: applying the same creation event twice yields the
/// projection that applying it once yields.
pub proof fn lemma_creation_idempotent(p: Projection, f: Fact)
    requires
        f is EntityCreated,
    ensures
        apply_fact(apply_fact(p, f), f) == apply_fact(p, f),
{
}

} // verus!
