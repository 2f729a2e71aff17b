//! The store: the fact log and the graph projection kept equal to it.
use vstd::prelude::*;
use vstd::multiset::Multiset;
use std::collections::HashMap;
use crate::entity::Entity;
use crate::properties::Properties;
use crate::projection::{
    Projection, apply_fact, lemma_replay_equivalence, enters, has_edge, leaves, lemma_within_hops_last_step, lemma_within_hops_monotone, lemma_within_hops_step,
    lemma_within_hops_zero, lemma_within_hops_zero_only, within_hops, apply_facts, empty_projection, is_rejected, replay, updated_entity,
    with_entities, with_entity, with_relationship, without_edges_between, without_entity,
};
use crate::relationship::{Relationship, RelationshipType};
use crate::fact::{Fact, FactStore, contains_id};
use crate::store::{
    EntityGraph, graph_add_edge, graph_add_node, graph_edges, graph_edges_connecting,
    graph_in_edges, graph_new, graph_node_indices, graph_node_weight, graph_nodes, graph_out_edges,
    graph_remove_edge, graph_remove_node, graph_set_node_weight,
};

verus! {

broadcast use vstd::std_specs::hash::group_hash_axioms, vstd::multiset::group_multiset_axioms;

/// The edge slots of `m` whose weight is `r`.
pub open spec fn slots_of(m: Map<usize, (usize, usize, Relationship)>, r: Relationship) -> Set<
    usize,
> {
    m.dom().filter(|e: usize| m[e].2 == r)
}

/// A fresh slot holding `v` adds one to the slots of `v`'s weight and none to
/// any other.
proof fn lemma_slots_insert(
    m: Map<usize, (usize, usize, Relationship)>,
    e: usize,
    v: (usize, usize, Relationship),
    r: Relationship,
)
    requires
        m.dom().finite(),
        !m.contains_key(e),
    ensures
        slots_of(m.insert(e, v), r).len() == slots_of(m, r).len() + if v.2 == r {
            1int
        } else {
            0int
        },
{
    if v.2 == r {
        assert(slots_of(m.insert(e, v), r) =~= slots_of(m, r).insert(e));
    } else {
        assert(slots_of(m.insert(e, v), r) =~= slots_of(m, r));
    }
}

/// The slots of `m` that hold `r`.
pub open spec fn holding(m: Map<usize, Relationship>, r: Relationship) -> Set<usize> {
    m.dom().filter(|e: usize| m[e] == r)
}

/// A multiset that counts each weight as often as it fills a slot of `m`
/// has as many elements as `m` has slots.
proof fn lemma_slot_count_len(m: Map<usize, Relationship>, ms: Multiset<Relationship>)
    requires
        m.dom().finite(),
        forall|r: Relationship| #[trigger] ms.count(r) == holding(m, r).len(),
    ensures
        ms.len() == m.dom().len(),
    decreases m.dom().len(),
{
    vstd::set_lib::lemma_set_empty_equivalency_len(m.dom());
    if m.dom().len() == 0 {
        assert forall|r: Relationship| ms.count(r) == 0 by {
            assert(holding(m, r) =~= Set::empty());
        }
        assert(ms =~= Multiset::empty());
    } else {
        let e = choose|e: usize| m.dom().contains(e);
        let r0 = m[e];
        let m2 = m.remove(e);
        let ms2 = ms.remove(r0);
        assert(holding(m, r0).contains(e));
        assert forall|r: Relationship| #[trigger] ms2.count(r) == holding(m2, r).len() by {
            if r == r0 {
                assert(holding(m2, r) =~= holding(m, r).remove(e));
            } else {
                assert(holding(m2, r) =~= holding(m, r));
            }
        }
        assert(m2.dom() =~= m.dom().remove(e));
        lemma_slot_count_len(m2, ms2);
        assert(ms =~= ms2.insert(r0));
    }
}

/// The store. `graph` holds the live entities and edges, `uuid_index_map`
/// finds an entity's node from its id, `event_log` holds every applied event
/// in order, and `projection` is what `graph` stands for.
pub struct GraphDb {
    graph: EntityGraph,
    uuid_index_map: HashMap<u128, usize>,
    event_log: Vec<Fact>,
    projection: Ghost<Projection>,
}

impl GraphDb {
    /// The graph as entities by id and edges with their multiplicity.
    pub closed spec fn projection(&self) -> Projection {
        self.projection@
    }

    /// Every event applied so far, in order.
    pub closed spec fn log(&self) -> Seq<Fact> {
        self.event_log@
    }

    /// The index map and the node slots match one for one, each node shows
    /// the entity that the projection holds under its id, each edge joins the
    /// nodes of its weight's endpoints, and each weight occupies as many slots
    /// as the projection counts it.
    pub closed spec fn wf(&self) -> bool {
        let nodes = graph_nodes(self.graph);
        let edges = graph_edges(self.graph);
        let idx = self.uuid_index_map@;
        let p = self.projection@;
        &&& nodes.dom().finite()
        &&& edges.dom().finite()
        &&& p.nodes.dom().finite()
        &&& idx.dom() == p.nodes.dom()
        &&& forall|id: u128|
            #[trigger] idx.contains_key(id) ==> {
                &&& nodes.contains_key(idx[id])
                &&& nodes[idx[id]].id == id
                &&& nodes[idx[id]]@ == p.nodes[id]
            }
        &&& forall|a: usize|
            #[trigger] nodes.contains_key(a) ==> idx.contains_key(nodes[a].id) && idx[nodes[a].id]
                == a
        &&& forall|e: usize|
            #[trigger] edges.contains_key(e) ==> {
                &&& nodes.contains_key(edges[e].0)
                &&& nodes.contains_key(edges[e].1)
                &&& nodes[edges[e].0].id == edges[e].2.source_id
                &&& nodes[edges[e].1].id == edges[e].2.target_id
            }
        &&& forall|r: Relationship| #[trigger] p.edges.count(r) == slots_of(edges, r).len()
    }

    /// An empty store.
    pub fn new() -> (r: GraphDb)
        ensures
            r.wf(),
            r.projection() == empty_projection(),
            r.log() == Seq::<Fact>::empty(),
    {
        let r = GraphDb {
            graph: graph_new(),
            uuid_index_map: HashMap::new(),
            event_log: Vec::new(),
            projection: Ghost(empty_projection()),
        };
        proof {
            assert(graph_nodes(r.graph) =~= Map::empty());
            assert(graph_edges(r.graph) =~= Map::empty());
            assert(r.uuid_index_map@.dom() =~= Set::empty());
            assert(r.projection@.nodes.dom() =~= Set::empty());
            assert forall|rel: Relationship| #[trigger] r.projection@.edges.count(rel) == slots_of(
                graph_edges(r.graph),
                rel,
            ).len() by {
                assert(slots_of(graph_edges(r.graph), rel) =~= Set::empty());
            }
        }
        r
    }

    /// Puts an entity into the graph unless its id is already there; the log
    /// is not touched.
    pub fn add_entity(&mut self, entity: Entity)
        requires
            old(self).wf(),
        ensures
            final(self).wf(),
            final(self).projection() == with_entity(old(self).projection(), entity@),
            final(self).log() == old(self).log(),
    {
        if self.uuid_index_map.contains_key(&entity.id) {
            return ;
        }
        let ghost view = entity@;
        let id = entity.id;
        let node_index = graph_add_node(&mut self.graph, entity);
        self.uuid_index_map.insert(id, node_index);
        self.projection = Ghost(with_entity(self.projection@, view));
    }

    /// Adds a directed edge where both endpoints are in the graph; otherwise
    /// nothing changes.
    pub fn add_relationship(&mut self, relationship: Relationship)
        requires
            old(self).wf(),
        ensures
            final(self).wf(),
            final(self).projection() == with_relationship(old(self).projection(), relationship),
            final(self).log() == old(self).log(),
    {
        let source = self.uuid_index_map.get(&relationship.source_id);
        let target = self.uuid_index_map.get(&relationship.target_id);
        match (source, target) {
            (Some(a), Some(b)) => {
                let a = *a;
                let b = *b;
                let ghost old_edges = graph_edges(self.graph);
                let e = graph_add_edge(&mut self.graph, a, b, relationship);
                self.projection = Ghost(with_relationship(self.projection@, relationship));
                proof {
                    assert forall|r: Relationship| #[trigger] self.projection@.edges.count(r)
                        == slots_of(graph_edges(self.graph), r).len() by {
                        lemma_slots_insert(old_edges, e, (a, b, relationship), r);
                    }
                }
            },
            _ => {},
        }
    }

    /// Merges `upd` into the properties of entity `id`, if it is there.
    fn update_entity(&mut self, id: u128, upd: &Properties)
        requires
            old(self).wf(),
        ensures
            final(self).wf(),
            final(self).projection() == (if old(self).projection().nodes.contains_key(id) {
                Projection {
                    nodes: old(self).projection().nodes.insert(
                        id,
                        updated_entity(old(self).projection().nodes[id], upd@),
                    ),
                    edges: old(self).projection().edges,
                }
            } else {
                old(self).projection()
            }),
            final(self).log() == old(self).log(),
    {
        let a = match self.uuid_index_map.get(&id) {
            Some(a) => *a,
            None => {
                return ;
            },
        };
        let entity = match graph_node_weight(&self.graph, a) {
            Some(w) => {
                let mut props = w.properties.duplicate();
                props.merge(upd);
                Entity { id: w.id, name: w.name.clone(), entity_type: w.entity_type, properties: props }
            },
            None => {
                return ;
            },
        };
        let ghost p = self.projection@;
        graph_set_node_weight(&mut self.graph, a, entity);
        self.projection = Ghost(
            Projection {
                nodes: p.nodes.insert(id, updated_entity(p.nodes[id], upd@)),
                edges: p.edges,
            },
        );
        proof {
            assert(self.uuid_index_map@.dom() =~= self.projection@.nodes.dom());
            assert forall|r: Relationship| #[trigger] self.projection@.edges.count(r) == slots_of(
                graph_edges(self.graph),
                r,
            ).len() by {
                assert(p.edges.count(r) == slots_of(graph_edges(self.graph), r).len());
            }
        }
    }

    /// Removes entity `id` and every edge from or to it, if it is there.
    fn delete_entity(&mut self, id: u128)
        requires
            old(self).wf(),
        ensures
            final(self).wf(),
            final(self).projection() == (if old(self).projection().nodes.contains_key(id) {
                without_entity(old(self).projection(), id)
            } else {
                old(self).projection()
            }),
            final(self).log() == old(self).log(),
    {
        let a = match self.uuid_index_map.get(&id) {
            Some(a) => *a,
            None => {
                return ;
            },
        };
        let ghost p = self.projection@;
        let ghost nodes0 = graph_nodes(self.graph);
        let ghost edges0 = graph_edges(self.graph);
        let ghost idx0 = self.uuid_index_map@;
        graph_remove_node(&mut self.graph, a);
        self.uuid_index_map.remove(&id);
        self.projection = Ghost(without_entity(p, id));
        proof {
            let nodes = graph_nodes(self.graph);
            let edges = graph_edges(self.graph);
            assert(edges.dom() =~= edges0.dom().intersect(
                edges0.dom().filter(|e: usize| edges0[e].0 != a && edges0[e].1 != a),
            ));
            assert(self.uuid_index_map@.dom() =~= self.projection@.nodes.dom());
            assert forall|x: usize| #[trigger] nodes.contains_key(x) implies self.uuid_index_map@.contains_key(
                nodes[x].id,
            ) && self.uuid_index_map@[nodes[x].id] == x by {
                assert(nodes0.contains_key(x));
                assert(idx0[nodes0[x].id] == x);
            }
            assert forall|e: usize| #[trigger] edges.contains_key(e) implies {
                &&& nodes.contains_key(edges[e].0)
                &&& nodes.contains_key(edges[e].1)
                &&& nodes[edges[e].0].id == edges[e].2.source_id
                &&& nodes[edges[e].1].id == edges[e].2.target_id
            } by {
                assert(edges0.contains_key(e));
            }
            assert forall|r: Relationship| #[trigger] self.projection@.edges.count(r) == slots_of(
                edges,
                r,
            ).len() by {
                if r.source_id != id && r.target_id != id {
                    assert forall|e: usize| #[trigger] slots_of(edges0, r).contains(e) implies slots_of(
                        edges,
                        r,
                    ).contains(e) by {
                        assert(edges0.contains_key(e));
                        assert(nodes0[edges0[e].0].id == r.source_id);
                        assert(nodes0[edges0[e].1].id == r.target_id);
                    }
                    assert(slots_of(edges, r) =~= slots_of(edges0, r));
                } else {
                    assert forall|e: usize| !(#[trigger] slots_of(edges, r).contains(e)) by {
                        if slots_of(edges, r).contains(e) {
                            assert(edges0.contains_key(e));
                            let x = edges0[e].0;
                            let y = edges0[e].1;
                            assert(idx0[nodes0[x].id] == x);
                            assert(idx0[nodes0[y].id] == y);
                        }
                    }
                    assert(slots_of(edges, r) =~= Set::empty());
                }
            }
        }
    }

    /// Removes every edge from entity `s` to entity `t`, if both are there.
    fn invalidate_relationships(&mut self, s: u128, t: u128)
        requires
            old(self).wf(),
        ensures
            final(self).wf(),
            final(self).projection() == (if old(self).projection().nodes.contains_key(s)
                && old(self).projection().nodes.contains_key(t) {
                without_edges_between(old(self).projection(), s, t)
            } else {
                old(self).projection()
            }),
            final(self).log() == old(self).log(),
    {
        let (a, b) = match (self.uuid_index_map.get(&s), self.uuid_index_map.get(&t)) {
            (Some(a), Some(b)) => (*a, *b),
            _ => {
                return ;
            },
        };
        let ghost p = self.projection@;
        let ghost nodes0 = graph_nodes(self.graph);
        let ghost edges0 = graph_edges(self.graph);
        let ghost idx0 = self.uuid_index_map@;
        let ghost log0 = self.event_log@;
        let list = graph_edges_connecting(&self.graph, a, b);
        let mut k: usize = 0;
        while k < list.len()
            invariant
                k <= list@.len(),
                self.uuid_index_map@ == idx0,
                self.projection@ == p,
                self.event_log@ == log0,
                graph_nodes(self.graph) == nodes0,
                graph_edges(self.graph).dom().finite(),
                forall|e: usize|
                    #[trigger] graph_edges(self.graph).contains_key(e) <==> edges0.contains_key(e)
                        && !list@.take(k as int).contains(e),
                forall|e: usize|
                    #[trigger] graph_edges(self.graph).contains_key(e) ==> graph_edges(self.graph)[e]
                        == edges0[e],
            decreases list@.len() - k,
        {
            graph_remove_edge(&mut self.graph, list[k]);
            proof {
                let next = list@.take(k + 1);
                assert(next =~= list@.take(k as int).push(list@[k as int]));
                assert forall|e: usize| #[trigger] next.contains(e) == (list@.take(k as int).contains(e)
                    || e == list@[k as int]) by {
                    if e == list@[k as int] {
                        assert(next[k as int] == e);
                    }
                    if list@.take(k as int).contains(e) {
                        let i = choose|i: int| 0 <= i < k && list@.take(k as int)[i] == e;
                        assert(next[i] == e);
                    }
                    if next.contains(e) {
                        let i = choose|i: int| 0 <= i < k + 1 && next[i] == e;
                        if i < k {
                            assert(list@.take(k as int)[i] == e);
                        }
                    }
                }
            }
            k = k + 1;
        }
        self.projection = Ghost(without_edges_between(p, s, t));
        proof {
            let edges = graph_edges(self.graph);
            assert(list@.take(k as int) =~= list@);
            assert(self.uuid_index_map@.dom() =~= self.projection@.nodes.dom());
            assert forall|e: usize| #[trigger] edges.contains_key(e) implies {
                &&& nodes0.contains_key(edges[e].0)
                &&& nodes0.contains_key(edges[e].1)
                &&& nodes0[edges[e].0].id == edges[e].2.source_id
                &&& nodes0[edges[e].1].id == edges[e].2.target_id
            } by {
                assert(edges0.contains_key(e));
            }
            assert forall|r: Relationship| #[trigger] self.projection@.edges.count(r) == slots_of(
                edges,
                r,
            ).len() by {
                if !(r.source_id == s && r.target_id == t) {
                    assert forall|e: usize| #[trigger] slots_of(edges0, r).contains(e) implies slots_of(
                        edges,
                        r,
                    ).contains(e) by {
                        assert(edges0.contains_key(e));
                        let x = edges0[e].0;
                        let y = edges0[e].1;
                        assert(idx0[nodes0[x].id] == x);
                        assert(idx0[nodes0[y].id] == y);
                        if list@.contains(e) {
                            let i = choose|i: int| 0 <= i < list@.len() && list@[i] == e;
                            assert(edges0[list@[i]].0 == a);
                        }
                    }
                    assert(slots_of(edges, r) =~= slots_of(edges0, r));
                } else {
                    assert forall|e: usize| !(#[trigger] slots_of(edges, r).contains(e)) by {
                        if slots_of(edges, r).contains(e) {
                            assert(edges0.contains_key(e));
                            let x = edges0[e].0;
                            let y = edges0[e].1;
                            assert(idx0[nodes0[x].id] == x);
                            assert(idx0[nodes0[y].id] == y);
                            assert(list@.contains(e));
                        }
                    }
                    assert(slots_of(edges, r) =~= Set::empty());
                }
            }
        }
    }

    /// Applies one event to the graph (not to the log). A relationship event
    /// with an unknown kind changes nothing and answers `true`.
    fn apply_one(&mut self, fact: &Fact) -> (rejected: bool)
        requires
            old(self).wf(),
        ensures
            final(self).wf(),
            final(self).projection() == apply_fact(old(self).projection(), *fact),
            final(self).log() == old(self).log(),
            rejected == is_rejected(*fact),
    {
        match fact {
            Fact::EntityCreated { entity_id, properties, .. } => {
                self.add_entity(Entity::from_created(*entity_id, properties));
                false
            },
            Fact::EntityUpdated { entity_id, updated_properties, .. } => {
                self.update_entity(*entity_id, updated_properties);
                false
            },
            Fact::EntityDeleted { entity_id, .. } => {
                self.delete_entity(*entity_id);
                false
            },
            Fact::RelationshipAdded {
                source_id,
                target_id,
                relationship_type,
                valid_from,
                valid_to,
                ..
            } => match RelationshipType::from_str(relationship_type.as_str()) {
                Ok(t) => {
                    self.add_relationship(
                        Relationship {
                            source_id: *source_id,
                            target_id: *target_id,
                            relationship_type: t,
                            valid_from: *valid_from,
                            valid_to: *valid_to,
                        },
                    );
                    false
                },
                Err(_) => true,
            },
            Fact::RelationshipInvalidated { source_id, target_id, .. } => {
                self.invalidate_relationships(*source_id, *target_id);
                false
            },
        }
    }

    /// Ingests a batch: its entities go straight into the graph (and not into
    /// the log), then its events are applied in order and appended to the
    /// log. Returns the positions, among the events, of those whose
    /// relationship kind is unknown: their step was skipped, and they are
    /// logged all the same.
    pub fn add_fact(&mut self, fact_store: FactStore) -> (rejected: Vec<usize>)
        requires
            old(self).wf(),
        ensures
            final(self).wf(),
            final(self).projection() == apply_facts(
                with_entities(
                    old(self).projection(),
                    fact_store.entities@.map_values(|e: Entity| e@),
                ),
                fact_store.relationships@,
            ),
            final(self).log() == old(self).log() + fact_store.relationships@,
            forall|i: int, j: int| 0 <= i < j < rejected@.len() ==> rejected@[i] < rejected@[j],
            forall|k: usize|
                rejected@.contains(k) <==> k < fact_store.relationships@.len()
                    && is_rejected(#[trigger] fact_store.relationships@[k as int]),
    {
        let FactStore { entities, relationships } = fact_store;
        let ghost p0 = self.projection@;
        let ghost es = entities@.map_values(|e: Entity| e@);
        let mut entities = entities;
        let n = entities.len();
        let mut i: usize = 0;
        while entities.len() > 0
            invariant
                self.wf(),
                self.log() == old(self).log(),
                i + entities@.len() == n,
                es.len() == n,
                forall|j: int| 0 <= j < entities@.len() ==> #[trigger] entities@[j]@ == es[i + j],
                self.projection@ == with_entities(p0, es.take(i as int)),
            decreases entities@.len(),
        {
            let e = entities.remove(0);
            proof {
                assert(es.take(i + 1).drop_last() =~= es.take(i as int));
                assert(es.take(i + 1).last() == e@);
            }
            self.add_entity(e);
            i = i + 1;
        }
        proof {
            assert(es.take(i as int) =~= es);
        }
        let ghost p1 = self.projection@;
        let mut rejected: Vec<usize> = Vec::new();
        let mut k: usize = 0;
        while k < relationships.len()
            invariant
                self.wf(),
                self.log() == old(self).log(),
                k <= relationships@.len(),
                self.projection@ == apply_facts(p1, relationships@.take(k as int)),
                forall|a: int, b: int| 0 <= a < b < rejected@.len() ==> rejected@[a] < rejected@[b],
                forall|a: int| 0 <= a < rejected@.len() ==> rejected@[a] < k,
                forall|j: usize|
                    rejected@.contains(j) <==> j < k && is_rejected(#[trigger] relationships@[j as int]),
            decreases relationships@.len() - k,
        {
            let bad = self.apply_one(&relationships[k]);
            proof {
                assert(relationships@.take(k + 1).drop_last() =~= relationships@.take(k as int));
            }
            let ghost prev = rejected@;
            if bad {
                rejected.push(k);
            }
            proof {
                assert forall|j: usize| rejected@.contains(j) <==> j < k + 1 && is_rejected(
                    #[trigger] relationships@[j as int],
                ) by {
                    if bad {
                        assert(rejected@[prev.len() as int] == k);
                        if rejected@.contains(j) && j != k {
                            let a = choose|a: int| 0 <= a < rejected@.len() && rejected@[a] == j;
                            assert(prev[a] == j);
                            assert(prev.contains(j));
                        }
                        if prev.contains(j) {
                            let a = choose|a: int| 0 <= a < prev.len() && prev[a] == j;
                            assert(rejected@[a] == j);
                        }
                    } else {
                        assert(rejected@ == prev);
                    }
                }
            }
            k = k + 1;
        }
        proof {
            assert(relationships@.take(k as int) =~= relationships@);
        }
        let mut relationships = relationships;
        self.event_log.append(&mut relationships);
        rejected
    }

    /// A store rebuilt from a log: every event applied in order to an empty
    /// graph, and the log kept as it was.
    pub fn replay(log: Vec<Fact>) -> (r: GraphDb)
        ensures
            r.wf(),
            r.projection() == replay(log@),
            r.log() == log@,
    {
        let mut db = GraphDb::new();
        let ghost facts = log@;
        let _ = db.add_fact(FactStore { entities: Vec::new(), relationships: log });
        proof {
            assert(Seq::<Entity>::empty().map_values(|e: Entity| e@) =~= Seq::empty());
            assert(Seq::<Fact>::empty() + facts =~= facts);
        }
        db
    }

    /// The log, in order.
    pub fn event_log(&self) -> (r: &Vec<Fact>)
        ensures
            r@ == self.log(),
    {
        &self.event_log
    }

    /// Each edge slot is counted by the projection, so its weight is an edge
    /// of the projection between the ids of its endpoint nodes.
    proof fn lemma_slot_is_edge(&self, e: usize)
        requires
            self.wf(),
            graph_edges(self.graph).contains_key(e),
        ensures
            self.projection@.edges.count(graph_edges(self.graph)[e].2) > 0,
            has_edge(
                self.projection@,
                graph_nodes(self.graph)[graph_edges(self.graph)[e].0].id,
                graph_nodes(self.graph)[graph_edges(self.graph)[e].1].id,
            ),
    {
        let edges = graph_edges(self.graph);
        let r = edges[e].2;
        assert(slots_of(edges, r).contains(e));
        assert(slots_of(edges, r).len() != 0);
        assert(self.projection@.edges.count(r) > 0);
    }

    /// An edge of the projection occupies a slot.
    proof fn lemma_edge_has_slot(&self, r: Relationship) -> (e: usize)
        requires
            self.wf(),
            self.projection@.edges.count(r) > 0,
        ensures
            graph_edges(self.graph).contains_key(e),
            graph_edges(self.graph)[e].2 == r,
            graph_edges(self.graph)[e].0 == self.uuid_index_map@[r.source_id],
            graph_edges(self.graph)[e].1 == self.uuid_index_map@[r.target_id],
    {
        let edges = graph_edges(self.graph);
        let nodes = graph_nodes(self.graph);
        if slots_of(edges, r) =~= Set::empty() {
            assert(slots_of(edges, r).len() == 0);
        }
        let e = choose|e: usize| slots_of(edges, r).contains(e);
        assert(self.uuid_index_map@[nodes[edges[e].0].id] == edges[e].0);
        assert(self.uuid_index_map@[nodes[edges[e].1].id] == edges[e].1);
        e
    }

    /// Listing each edge slot at one end of node `a` once lists as many
    /// entries as the projection has edges at that end of `a`'s entity
    /// (the source end where `outgoing`, the target end otherwise).
    proof fn lemma_degree(&self, id: u128, slots: Seq<usize>, outgoing: bool)
        requires
            self.wf(),
            self.uuid_index_map@.contains_key(id),
            slots.no_duplicates(),
            forall|e: usize|
                #[trigger] slots.contains(e) <==> graph_edges(self.graph).contains_key(e) && (if outgoing {
                    graph_edges(self.graph)[e].0
                } else {
                    graph_edges(self.graph)[e].1
                }) == self.uuid_index_map@[id],
        ensures
            slots.len() == self.projection@.edges.filter(
                if outgoing {
                    leaves(id)
                } else {
                    enters(id)
                },
            ).len(),
    {
        let edges = graph_edges(self.graph);
        let nodes = graph_nodes(self.graph);
        let idx = self.uuid_index_map@;
        let a = idx[id];
        let at_end = if outgoing {
            leaves(id)
        } else {
            enters(id)
        };
        let slot_set = slots.to_set();
        assert(slot_set =~= edges.dom().filter(
            |e: usize| (if outgoing { edges[e].0 } else { edges[e].1 }) == a,
        ));
        let m = Map::new(|e: usize| slot_set.contains(e), |e: usize| edges[e].2);
        assert(m.dom() =~= slot_set);
        let ms = self.projection@.edges.filter(at_end);
        assert forall|r: Relationship| #[trigger] ms.count(r) == holding(m, r).len() by {
            if at_end(r) {
                assert forall|e: usize| #[trigger] slots_of(edges, r).contains(e) implies holding(m, r).contains(e) by {
                    assert(idx[nodes[edges[e].0].id] == edges[e].0);
                    assert(idx[nodes[edges[e].1].id] == edges[e].1);
                }
                assert(holding(m, r) =~= slots_of(edges, r));
            } else {
                assert forall|e: usize| !(#[trigger] holding(m, r).contains(e)) by {
                    if holding(m, r).contains(e) {
                        assert(nodes[a].id == id);
                    }
                }
                assert(holding(m, r) =~= Set::empty());
            }
        }
        lemma_slot_count_len(m, ms);
        slots.unique_seq_to_set();
    }

    /// The entities that edges from `uuid` lead to, one per edge; empty when
    /// `uuid` is not in the graph.
    pub fn get_outgoing_neighbours(&self, uuid: &u128) -> (r: Vec<&Entity>)
        requires
            self.wf(),
        ensures
            forall|i: int|
                0 <= i < r@.len() ==> {
                    &&& self.projection().nodes.contains_key((#[trigger] r@[i]).id)
                    &&& r@[i]@ == self.projection().nodes[r@[i].id]
                    &&& has_edge(self.projection(), *uuid, r@[i].id)
                },
            forall|rel: Relationship|
                #[trigger] self.projection().edges.count(rel) > 0 && rel.source_id == *uuid
                    ==> exists|i: int| 0 <= i < r@.len() && (#[trigger] r@[i]).id == rel.target_id,
            r@.len() == self.projection().edges.filter(leaves(*uuid)).len(),
    {
        let mut neighbors: Vec<&Entity> = Vec::new();
        let a = match self.uuid_index_map.get(uuid) {
            Some(a) => *a,
            None => {
                proof {
                    assert forall|rel: Relationship|
                        !(#[trigger] self.projection@.edges.count(rel) > 0 && rel.source_id == *uuid) by {
                        if self.projection@.edges.count(rel) > 0 && rel.source_id == *uuid {
                            let e = self.lemma_edge_has_slot(rel);
                            let x = graph_edges(self.graph)[e].0;
                            assert(self.uuid_index_map@.contains_key(graph_nodes(self.graph)[x].id));
                        }
                    }
                    assert(self.projection@.edges.filter(leaves(*uuid)) =~= Multiset::empty());
                }
                return neighbors;
            },
        };
        let nodes = Ghost(graph_nodes(self.graph));
        let edges = Ghost(graph_edges(self.graph));
        let out = graph_out_edges(&self.graph, a);
        let mut j: usize = 0;
        while j < out.len()
            invariant
                self.wf(),
                nodes@ == graph_nodes(self.graph),
                edges@ == graph_edges(self.graph),
                self.uuid_index_map@.contains_key(*uuid),
                self.uuid_index_map@[*uuid] == a,
                j <= out@.len(),
                neighbors@.len() == j,
                forall|k: int| 0 <= k < j ==> *(#[trigger] neighbors@[k]) == nodes@[out@[k].1],
                forall|k: int|
                    0 <= k < out@.len() ==> {
                        let e = (#[trigger] out@[k]).0;
                        edges@.contains_key(e) && edges@[e].0 == a && edges@[e].1 == out@[k].1
                    },
            decreases out@.len() - j,
        {
            let target = out[j].1;
            proof {
                let e = out@[j as int].0;
                assert(edges@.contains_key(e));
            }
            match graph_node_weight(&self.graph, target) {
                Some(w) => neighbors.push(w),
                None => {},
            }
            j = j + 1;
        }
        proof {
            let p = self.projection@;
            assert forall|i: int| 0 <= i < neighbors@.len() implies {
                &&& p.nodes.contains_key((#[trigger] neighbors@[i]).id)
                &&& neighbors@[i]@ == p.nodes[neighbors@[i].id]
                &&& has_edge(p, *uuid, neighbors@[i].id)
            } by {
                let e = out@[i].0;
                assert(edges@.contains_key(e));
                self.lemma_slot_is_edge(e);
                let b = out@[i].1;
                assert(self.uuid_index_map@[nodes@[b].id] == b);
            }
            assert forall|rel: Relationship|
                #[trigger] p.edges.count(rel) > 0 && rel.source_id == *uuid implies exists|i: int|
                0 <= i < neighbors@.len() && (#[trigger] neighbors@[i]).id == rel.target_id by {
                let e = self.lemma_edge_has_slot(rel);
                assert(edges@[e].0 == a);
                let i = choose|i: int| 0 <= i < out@.len() && (#[trigger] out@[i]).0 == e;
                assert(neighbors@[i].id == rel.target_id);
            }
            let slots = out@.map_values(|x: (usize, usize)| x.0);
            assert forall|x: int, y: int| 0 <= x < y < slots.len() implies slots[x] != slots[y] by {
                assert(out@[x].0 != out@[y].0);
            }
            assert forall|e: usize| #[trigger] slots.contains(e) <==> edges@.contains_key(e) && edges@[e].0 == a by {
                if slots.contains(e) {
                    let i = choose|i: int| 0 <= i < slots.len() && slots[i] == e;
                    assert(out@[i].0 == e);
                }
                if edges@.contains_key(e) && edges@[e].0 == a {
                    let i = choose|i: int| 0 <= i < out@.len() && (#[trigger] out@[i]).0 == e;
                    assert(slots[i] == e);
                }
            }
            self.lemma_degree(*uuid, slots, true);
        }
        neighbors
    }

    /// The entities with an edge to `uuid`, one per edge; empty when `uuid`
    /// is not in the graph.
    pub fn get_incoming_neighbours(&self, uuid: &u128) -> (r: Vec<&Entity>)
        requires
            self.wf(),
        ensures
            forall|i: int|
                0 <= i < r@.len() ==> {
                    &&& self.projection().nodes.contains_key((#[trigger] r@[i]).id)
                    &&& r@[i]@ == self.projection().nodes[r@[i].id]
                    &&& has_edge(self.projection(), r@[i].id, *uuid)
                },
            forall|rel: Relationship|
                #[trigger] self.projection().edges.count(rel) > 0 && rel.target_id == *uuid
                    ==> exists|i: int| 0 <= i < r@.len() && (#[trigger] r@[i]).id == rel.source_id,
            r@.len() == self.projection().edges.filter(enters(*uuid)).len(),
    {
        let mut neighbors: Vec<&Entity> = Vec::new();
        let a = match self.uuid_index_map.get(uuid) {
            Some(a) => *a,
            None => {
                proof {
                    assert forall|rel: Relationship|
                        !(#[trigger] self.projection@.edges.count(rel) > 0 && rel.target_id == *uuid) by {
                        if self.projection@.edges.count(rel) > 0 && rel.target_id == *uuid {
                            let e = self.lemma_edge_has_slot(rel);
                            let x = graph_edges(self.graph)[e].1;
                            assert(self.uuid_index_map@.contains_key(graph_nodes(self.graph)[x].id));
                        }
                    }
                    assert(self.projection@.edges.filter(enters(*uuid)) =~= Multiset::empty());
                }
                return neighbors;
            },
        };
        let nodes = Ghost(graph_nodes(self.graph));
        let edges = Ghost(graph_edges(self.graph));
        let inc = graph_in_edges(&self.graph, a);
        let mut j: usize = 0;
        while j < inc.len()
            invariant
                self.wf(),
                nodes@ == graph_nodes(self.graph),
                edges@ == graph_edges(self.graph),
                self.uuid_index_map@.contains_key(*uuid),
                self.uuid_index_map@[*uuid] == a,
                j <= inc@.len(),
                neighbors@.len() == j,
                forall|k: int| 0 <= k < j ==> *(#[trigger] neighbors@[k]) == nodes@[inc@[k].1],
                forall|k: int|
                    0 <= k < inc@.len() ==> {
                        let e = (#[trigger] inc@[k]).0;
                        edges@.contains_key(e) && edges@[e].1 == a && edges@[e].0 == inc@[k].1
                    },
            decreases inc@.len() - j,
        {
            let source = inc[j].1;
            proof {
                let e = inc@[j as int].0;
                assert(edges@.contains_key(e));
            }
            match graph_node_weight(&self.graph, source) {
                Some(w) => neighbors.push(w),
                None => {},
            }
            j = j + 1;
        }
        proof {
            let p = self.projection@;
            assert forall|i: int| 0 <= i < neighbors@.len() implies {
                &&& p.nodes.contains_key((#[trigger] neighbors@[i]).id)
                &&& neighbors@[i]@ == p.nodes[neighbors@[i].id]
                &&& has_edge(p, neighbors@[i].id, *uuid)
            } by {
                let e = inc@[i].0;
                assert(edges@.contains_key(e));
                self.lemma_slot_is_edge(e);
                let b = inc@[i].1;
                assert(self.uuid_index_map@[nodes@[b].id] == b);
            }
            assert forall|rel: Relationship|
                #[trigger] p.edges.count(rel) > 0 && rel.target_id == *uuid implies exists|i: int|
                0 <= i < neighbors@.len() && (#[trigger] neighbors@[i]).id == rel.source_id by {
                let e = self.lemma_edge_has_slot(rel);
                assert(edges@[e].1 == a);
                let i = choose|i: int| 0 <= i < inc@.len() && (#[trigger] inc@[i]).0 == e;
                assert(neighbors@[i].id == rel.source_id);
            }
            let slots = inc@.map_values(|x: (usize, usize)| x.0);
            assert forall|x: int, y: int| 0 <= x < y < slots.len() implies slots[x] != slots[y] by {
                assert(inc@[x].0 != inc@[y].0);
            }
            assert forall|e: usize| #[trigger] slots.contains(e) <==> edges@.contains_key(e) && edges@[e].1 == a by {
                if slots.contains(e) {
                    let i = choose|i: int| 0 <= i < slots.len() && slots[i] == e;
                    assert(inc@[i].0 == e);
                }
                if edges@.contains_key(e) && edges@[e].1 == a {
                    let i = choose|i: int| 0 <= i < inc@.len() && (#[trigger] inc@[i]).0 == e;
                    assert(slots[i] == e);
                }
            }
            self.lemma_degree(*uuid, slots, false);
        }
        neighbors
    }

    /// Every entity of the graph, once each, in node order.
    pub fn entities(&self) -> (r: Vec<&Entity>)
        requires
            self.wf(),
        ensures
            forall|i: int|
                0 <= i < r@.len() ==> self.projection().nodes.contains_key((#[trigger] r@[i]).id)
                    && r@[i]@ == self.projection().nodes[r@[i].id],
            forall|id: u128|
                #[trigger] self.projection().nodes.contains_key(id) ==> exists|i: int|
                    0 <= i < r@.len() && (#[trigger] r@[i]).id == id,
            forall|i: int, j: int| 0 <= i < j < r@.len() ==> (#[trigger] r@[i]).id != (#[trigger] r@[j]).id,
    {
        let nodes = Ghost(graph_nodes(self.graph));
        let indices = graph_node_indices(&self.graph);
        let mut out: Vec<&Entity> = Vec::new();
        let mut j: usize = 0;
        while j < indices.len()
            invariant
                self.wf(),
                nodes@ == graph_nodes(self.graph),
                j <= indices@.len(),
                out@.len() == j,
                forall|k: int| 0 <= k < j ==> *(#[trigger] out@[k]) == nodes@[indices@[k]],
                forall|k: int| 0 <= k < indices@.len() ==> nodes@.contains_key(#[trigger] indices@[k]),
            decreases indices@.len() - j,
        {
            match graph_node_weight(&self.graph, indices[j]) {
                Some(w) => out.push(w),
                None => {},
            }
            j = j + 1;
        }
        proof {
            let idx = self.uuid_index_map@;
            assert forall|i: int| 0 <= i < out@.len() implies self.projection@.nodes.contains_key(
                (#[trigger] out@[i]).id,
            ) && out@[i]@ == self.projection@.nodes[out@[i].id] by {
                assert(idx[nodes@[indices@[i]].id] == indices@[i]);
            }
            assert forall|id: u128| #[trigger] self.projection@.nodes.contains_key(id) implies exists|i: int|
                0 <= i < out@.len() && (#[trigger] out@[i]).id == id by {
                assert(idx.contains_key(id));
                let a = idx[id];
                assert(indices@.contains(a));
                let i = choose|i: int| 0 <= i < indices@.len() && indices@[i] == a;
                assert(out@[i].id == id);
            }
            assert forall|i: int, j: int| 0 <= i < j < out@.len() implies (#[trigger] out@[i]).id
                != (#[trigger] out@[j]).id by {
                assert(indices@[i] < indices@[j]);
                assert(idx[nodes@[indices@[i]].id] == indices@[i]);
                assert(idx[nodes@[indices@[j]].id] == indices@[j]);
            }
        }
        out
    }

    /// What a finished traversal lists: an entity within `k <= max_depth`
    /// hops of the seed was met, at a depth of at most `k`. The queue's
    /// entries were all taken out, each met entity below `max_depth` had every
    /// edge out of it put on the queue one level deeper, and every entry
    /// taken out was met at no greater depth.
    proof fn lemma_traversal_complete(
        &self,
        queue: Seq<(usize, usize)>,
        depth_of: Map<u128, int>,
        start: usize,
        seed: u128,
        max_depth: usize,
        v: u128,
        k: nat,
    )
        requires
            self.wf(),
            queue.len() >= 1,
            queue[0] == (start, 0usize),
            graph_nodes(self.graph).contains_key(start),
            graph_nodes(self.graph)[start].id == seed,
            forall|q: int|
                0 <= q < queue.len() ==> {
                    &&& graph_nodes(self.graph).contains_key((#[trigger] queue[q]).0)
                    &&& depth_of.contains_key(graph_nodes(self.graph)[queue[q].0].id)
                    &&& depth_of[graph_nodes(self.graph)[queue[q].0].id] <= queue[q].1
                },
            forall|u: u128, e: usize|
                #[trigger] depth_of.contains_key(u) && depth_of[u] < max_depth
                    && #[trigger] graph_edges(self.graph).contains_key(e) && graph_edges(
                    self.graph,
                )[e].0 == self.uuid_index_map@[u] ==> exists|q: int|
                    0 <= q < queue.len() && (#[trigger] queue[q]).0 == graph_edges(self.graph)[e].1
                        && queue[q].1 == depth_of[u] + 1,
            within_hops(self.projection@, seed, v, k),
            k <= max_depth,
        ensures
            depth_of.contains_key(v),
            depth_of[v] <= k,
        decreases k,
    {
        let nodes = graph_nodes(self.graph);
        let edges = graph_edges(self.graph);
        let p = self.projection@;
        if k == 0 {
            lemma_within_hops_zero_only(p, seed, v);
            assert(queue[0] == (start, 0usize));
        } else if within_hops(p, seed, v, (k - 1) as nat) {
            self.lemma_traversal_complete(queue, depth_of, start, seed, max_depth, v, (k - 1) as nat);
        } else {
            lemma_within_hops_last_step(p, seed, v, (k - 1) as nat);
            let m = choose|m: u128|
                #[trigger] within_hops(p, seed, m, (k - 1) as nat) && has_edge(p, m, v);
            self.lemma_traversal_complete(queue, depth_of, start, seed, max_depth, m, (k - 1) as nat);
            let rel = choose|r: Relationship|
                #[trigger] p.edges.count(r) > 0 && r.source_id == m && r.target_id == v;
            let e = self.lemma_edge_has_slot(rel);
            assert(depth_of.contains_key(m) && depth_of[m] < max_depth);
            let q = choose|q: int|
                0 <= q < queue.len() && (#[trigger] queue[q]).0 == edges[e].1 && queue[q].1 == depth_of[m]
                    + 1;
            assert(nodes[edges[e].1].id == v);
        }
    }

    /// Breadth-first search from `seed` along outgoing edges: the ids met, in
    /// the order first met, down to `max_depth` edges from the seed. Nodes at
    /// `max_depth` are listed but not expanded; edges' validity years play no
    /// part. Empty when `seed` is not in the graph; otherwise exactly the
    /// entities within `max_depth` hops, the seed first.
    pub fn collect_related_entities(&self, seed: u128, max_depth: usize) -> (r: Vec<u128>)
        requires
            self.wf(),
        ensures
            r@.no_duplicates(),
            forall|i: int|
                0 <= i < r@.len() ==> self.projection().nodes.contains_key(#[trigger] r@[i])
                    && within_hops(self.projection(), seed, r@[i], max_depth as nat),
            self.projection().nodes.contains_key(seed) ==> forall|v: u128|
                #[trigger] within_hops(self.projection(), seed, v, max_depth as nat) ==> r@.contains(v),
            r@.len() > 0 <==> self.projection().nodes.contains_key(seed),
            r@.len() > 0 ==> r@[0] == seed,
    {
        let mut related: Vec<u128> = Vec::new();
        let start = match self.uuid_index_map.get(&seed) {
            Some(a) => *a,
            None => {
                return related;
            },
        };
        let ghost p = self.projection@;
        let ghost nodes = graph_nodes(self.graph);
        let ghost edges = graph_edges(self.graph);
        let ghost idx = self.uuid_index_map@;
        let ghost mut depth_of: Map<u128, int> = Map::empty();
        let mut queue: Vec<(usize, usize)> = Vec::new();
        queue.push((start, 0));
        proof {
            lemma_within_hops_zero(p, seed);
        }
        let mut head: usize = 0;
        while head < queue.len()
            invariant
                self.wf(),
                p == self.projection@,
                nodes == graph_nodes(self.graph),
                edges == graph_edges(self.graph),
                idx == self.uuid_index_map@,
                nodes.contains_key(start),
                nodes[start].id == seed,
                head <= queue@.len(),
                queue@.len() >= 1,
                queue@[0] == (start, 0usize),
                head == 0 ==> queue@.len() == 1,
                forall|k: int|
                    0 <= k < queue@.len() ==> {
                        &&& nodes.contains_key((#[trigger] queue@[k]).0)
                        &&& queue@[k].1 <= max_depth
                        &&& within_hops(p, seed, nodes[queue@[k].0].id, queue@[k].1 as nat)
                    },
                forall|a: int, b: int|
                    0 <= a < b < queue@.len() ==> (#[trigger] queue@[a]).1 <= (#[trigger] queue@[b]).1,
                head > 0 ==> forall|a: int|
                    0 <= a < queue@.len() ==> (#[trigger] queue@[a]).1 <= queue@[head - 1].1 + 1,
                related@.no_duplicates(),
                related@.len() <= p.nodes.dom().len(),
                forall|i: int|
                    0 <= i < related@.len() ==> p.nodes.contains_key(#[trigger] related@[i])
                        && within_hops(p, seed, related@[i], max_depth as nat),
                head == 0 ==> related@.len() == 0,
                head > 0 ==> related@.len() > 0 && related@[0] == seed,
                forall|u: u128| #[trigger] depth_of.contains_key(u) <==> related@.contains(u),
                head > 0 ==> forall|u: u128|
                    #[trigger] depth_of.contains_key(u) ==> depth_of[u] <= queue@[head - 1].1,
                forall|q: int|
                    0 <= q < head ==> {
                        &&& depth_of.contains_key(nodes[(#[trigger] queue@[q]).0].id)
                        &&& depth_of[nodes[queue@[q].0].id] <= queue@[q].1
                    },
                forall|u: u128, e: usize|
                    #[trigger] depth_of.contains_key(u) && depth_of[u] < max_depth
                        && #[trigger] edges.contains_key(e) && edges[e].0 == idx[u] ==> exists|q: int|
                        0 <= q < queue@.len() && (#[trigger] queue@[q]).0 == edges[e].1 && queue@[q].1
                            == depth_of[u] + 1,
            decreases p.nodes.dom().len() - related@.len(), queue@.len() - head,
        {
            let (node_idx, depth) = queue[head];
            let ghost h0 = head;
            proof {
                if head > 0 {
                    assert(queue@[head - 1].1 <= queue@[head as int].1);
                }
            }
            head = head + 1;
            if depth > max_depth {
                continue;
            }
            let entity = match graph_node_weight(&self.graph, node_idx) {
                Some(w) => w,
                None => {
                    continue;
                },
            };
            let id = entity.id;
            proof {
                assert(idx[nodes[node_idx].id] == node_idx);
            }
            if contains_id(related.as_slice(), id) {
                proof {
                    assert(depth_of.contains_key(id));
                    assert(h0 > 0);
                    assert(depth_of[id] <= queue@[h0 - 1].1);
                    assert(queue@[h0 - 1].1 <= queue@[h0 as int].1);
                }
                continue;
            }
            let ghost old_related = related@;
            proof {
                lemma_within_hops_monotone(p, seed, id, depth as nat, max_depth as nat);
                let grown = old_related.push(id);
                assert forall|i: int, j: int| 0 <= i < j < grown.len() implies grown[i] != grown[j] by {
                    if j == grown.len() - 1 {
                        assert(old_related.contains(grown[i]) || grown[i] != id);
                    }
                }
                assert(grown.to_set().subset_of(p.nodes.dom())) by {
                    assert forall|x: u128| grown.to_set().contains(x) implies p.nodes.dom().contains(x) by {
                        let i = choose|i: int| 0 <= i < grown.len() && grown[i] == x;
                        if i < grown.len() - 1 {
                            assert(old_related[i] == x);
                        }
                    }
                }
                grown.unique_seq_to_set();
                vstd::set_lib::lemma_len_subset(grown.to_set(), p.nodes.dom());
                depth_of = depth_of.insert(id, depth as int);
            }
            related.push(id);
            proof {
                assert forall|u: u128| #[trigger] depth_of.contains_key(u) <==> related@.contains(u) by {
                    if u == id {
                        assert(related@[related@.len() - 1] == id);
                    }
                    if related@.contains(u) && u != id {
                        let i = choose|i: int| 0 <= i < related@.len() && related@[i] == u;
                        assert(old_related[i] == u);
                    }
                    if old_related.contains(u) {
                        let i = choose|i: int| 0 <= i < old_related.len() && old_related[i] == u;
                        assert(related@[i] == u);
                    }
                }
            }
            let ghost q0 = queue@;
            if depth < max_depth {
                let out = graph_out_edges(&self.graph, node_idx);
                let mut j: usize = 0;
                while j < out.len()
                    invariant
                        self.wf(),
                        p == self.projection@,
                        nodes == graph_nodes(self.graph),
                        edges == graph_edges(self.graph),
                        nodes.contains_key(node_idx),
                        nodes[node_idx].id == id,
                        depth < max_depth,
                        within_hops(p, seed, id, depth as nat),
                        j <= out@.len(),
                        head > 0,
                        head <= q0.len(),
                        q0[head - 1].1 == depth,
                        queue@.len() == q0.len() + j,
                        forall|a: int| 0 <= a < q0.len() ==> #[trigger] queue@[a] == q0[a],
                        forall|a: int|
                            0 <= a < j ==> #[trigger] queue@[q0.len() + a] == (out@[a].1, (depth + 1) as usize),
                        forall|k: int|
                            0 <= k < out@.len() ==> {
                                let e = (#[trigger] out@[k]).0;
                                edges.contains_key(e) && edges[e].0 == node_idx && edges[e].1
                                    == out@[k].1
                            },
                        forall|k: int|
                            0 <= k < queue@.len() ==> {
                                &&& nodes.contains_key((#[trigger] queue@[k]).0)
                                &&& queue@[k].1 <= max_depth
                                &&& within_hops(p, seed, nodes[queue@[k].0].id, queue@[k].1 as nat)
                            },
                        forall|a: int, b: int|
                            0 <= a < b < queue@.len() ==> (#[trigger] queue@[a]).1 <= (
                            #[trigger] queue@[b]).1,
                        forall|a: int|
                            0 <= a < queue@.len() ==> (#[trigger] queue@[a]).1 <= depth + 1,
                    decreases out@.len() - j,
                {
                    let target = out[j].1;
                    proof {
                        let e = out@[j as int].0;
                        assert(edges.contains_key(e));
                        self.lemma_slot_is_edge(e);
                        lemma_within_hops_step(p, seed, id, nodes[target].id, depth as nat);
                    }
                    queue.push((target, depth + 1));
                    j = j + 1;
                }
                proof {
                    assert forall|e: usize|
                        #[trigger] edges.contains_key(e) && edges[e].0 == node_idx implies exists|q: int|
                        0 <= q < queue@.len() && (#[trigger] queue@[q]).0 == edges[e].1 && queue@[q].1
                            == depth + 1 by {
                        let a = choose|a: int| 0 <= a < out@.len() && (#[trigger] out@[a]).0 == e;
                        assert(queue@[q0.len() + a] == (out@[a].1, (depth + 1) as usize));
                    }
                }
            }
            proof {
                assert forall|a: int| 0 <= a < q0.len() implies #[trigger] queue@[a] == q0[a] by {}
                assert forall|u: u128, e: usize|
                    #[trigger] depth_of.contains_key(u) && depth_of[u] < max_depth
                        && #[trigger] edges.contains_key(e) && edges[e].0 == idx[u] implies exists|q: int|
                        0 <= q < queue@.len() && (#[trigger] queue@[q]).0 == edges[e].1 && queue@[q].1
                            == depth_of[u] + 1 by {
                    if u != id {
                        let q = choose|q: int|
                            0 <= q < q0.len() && (#[trigger] q0[q]).0 == edges[e].1 && q0[q].1
                                == depth_of[u] + 1;
                        assert(queue@[q] == q0[q]);
                    } else {
                        assert(idx[id] == node_idx);
                    }
                }
                assert forall|q: int| 0 <= q < head implies {
                    &&& depth_of.contains_key(nodes[(#[trigger] queue@[q]).0].id)
                    &&& depth_of[nodes[queue@[q].0].id] <= queue@[q].1
                } by {
                    assert(queue@[q] == q0[q]);
                }
            }
        }
        proof {
            assert forall|v: u128| #[trigger] within_hops(p, seed, v, max_depth as nat) implies related@.contains(
                v,
            ) by {
                self.lemma_traversal_complete(queue@, depth_of, start, seed, max_depth, v, max_depth as nat);
            }
            if related@.len() > 0 {
                assert(related@[0] == seed);
            }
        }
        related
    }

    /// The entity with this id, if the graph holds it.
    pub fn get_entity(&self, uuid: &u128) -> (r: Option<&Entity>)
        requires
            self.wf(),
        ensures
            match r {
                Some(e) => self.projection().nodes.contains_key(*uuid) && e@
                    == self.projection().nodes[*uuid],
                None => !self.projection().nodes.contains_key(*uuid),
            },
    {
        match self.uuid_index_map.get(uuid) {
            Some(a) => graph_node_weight(&self.graph, *a),
            None => None,
        }
    }
}

/// Replay equivalence for stores: if a store holds the projection that its
/// log replays to (as a new store does), then after it ingests a batch of
/// events with no direct entities it still does, so `GraphDb::replay` of its
/// log rebuilds exactly the projection it holds.
pub proof fn lemma_store_matches_replay(before: &GraphDb, after: &GraphDb, facts: Seq<Fact>)
    requires
        before.projection() == replay(before.log()),
        after.projection() == apply_facts(before.projection(), facts),
        after.log() == before.log() + facts,
    ensures
        after.projection() == replay(after.log()),
{
    lemma_replay_equivalence(before.log(), facts);
}

} // verus!
