use vstd::prelude::*;
use crate::entity::Entity;
use crate::properties::Properties;
use crate::time::Timestamp;

verus! {

/// One mutation event: the unit of the append-only log.
#[derive(Clone, Debug)]
pub enum Fact {
    EntityCreated { entity_id: u128, timestamp: Timestamp, properties: Properties },
    EntityUpdated { entity_id: u128, timestamp: Timestamp, updated_properties: Properties },
    EntityDeleted { entity_id: u128, timestamp: Timestamp },
    RelationshipAdded {
        source_id: u128,
        target_id: u128,
        relationship_type: String,
        timestamp: Timestamp,
        valid_from: i64,
        valid_to: Option<i64>,
    },
    RelationshipInvalidated { source_id: u128, target_id: u128, timestamp: Timestamp },
}

impl Fact {
    /// When the event happened.
    pub open spec fn time(self) -> Timestamp {
        match self {
            Fact::EntityCreated { timestamp, .. } => timestamp,
            Fact::EntityUpdated { timestamp, .. } => timestamp,
            Fact::EntityDeleted { timestamp, .. } => timestamp,
            Fact::RelationshipAdded { timestamp, .. } => timestamp,
            Fact::RelationshipInvalidated { timestamp, .. } => timestamp,
        }
    }

    /// When the event happened.
    pub fn timestamp(&self) -> (r: Timestamp)
        ensures
            r == self.time(),
    {
        match self {
            Fact::EntityCreated { timestamp, .. } => *timestamp,
            Fact::EntityUpdated { timestamp, .. } => *timestamp,
            Fact::EntityDeleted { timestamp, .. } => *timestamp,
            Fact::RelationshipAdded { timestamp, .. } => *timestamp,
            Fact::RelationshipInvalidated { timestamp, .. } => *timestamp,
        }
    }

    /// Whether the event concerns an entity of `ids`: the entity itself for
    /// an entity event, either endpoint for a relationship event.
    pub fn involves_any(&self, entity_ids: &[u128]) -> (r: bool)
        ensures
            r == fact_involves(*self, entity_ids@),
    {
        match self {
            Fact::EntityCreated { entity_id, .. } => contains_id(entity_ids, *entity_id),
            Fact::EntityUpdated { entity_id, .. } => contains_id(entity_ids, *entity_id),
            Fact::EntityDeleted { entity_id, .. } => contains_id(entity_ids, *entity_id),
            Fact::RelationshipAdded { source_id, target_id, .. } => contains_id(
                entity_ids,
                *source_id,
            ) || contains_id(entity_ids, *target_id),
            Fact::RelationshipInvalidated { source_id, target_id, .. } => contains_id(
                entity_ids,
                *source_id,
            ) || contains_id(entity_ids, *target_id),
        }
    }

    /// Whether two events are equal field by field, property maps and texts
    /// compared by content.
    pub fn same_as(&self, other: &Fact) -> (r: bool)
        ensures
            r == same_fact(*self, *other),
    {
        match (self, other) {
            (
                Fact::EntityCreated { entity_id: a, timestamp: t, properties: p },
                Fact::EntityCreated { entity_id: b, timestamp: u, properties: q },
            ) => *a == *b && *t == *u && p.same_as(q),
            (
                Fact::EntityUpdated { entity_id: a, timestamp: t, updated_properties: p },
                Fact::EntityUpdated { entity_id: b, timestamp: u, updated_properties: q },
            ) => *a == *b && *t == *u && p.same_as(q),
            (
                Fact::EntityDeleted { entity_id: a, timestamp: t },
                Fact::EntityDeleted { entity_id: b, timestamp: u },
            ) => *a == *b && *t == *u,
            (
                Fact::RelationshipAdded {
                    source_id: s1,
                    target_id: t1,
                    relationship_type: k1,
                    timestamp: w1,
                    valid_from: f1,
                    valid_to: e1,
                },
                Fact::RelationshipAdded {
                    source_id: s2,
                    target_id: t2,
                    relationship_type: k2,
                    timestamp: w2,
                    valid_from: f2,
                    valid_to: e2,
                },
            ) => *s1 == *s2 && *t1 == *t2 && *k1 == *k2 && *w1 == *w2 && *f1 == *f2 && *e1
                == *e2,
            (
                Fact::RelationshipInvalidated { source_id: s1, target_id: t1, timestamp: w1 },
                Fact::RelationshipInvalidated { source_id: s2, target_id: t2, timestamp: w2 },
            ) => *s1 == *s2 && *t1 == *t2 && *w1 == *w2,
            _ => false,
        }
    }

    /// A copy equal to this event field by field.
    pub fn duplicate(&self) -> (r: Fact)
        ensures
            same_fact(r, *self),
    {
        match self {
            Fact::EntityCreated { entity_id, timestamp, properties } => Fact::EntityCreated {
                entity_id: *entity_id,
                timestamp: *timestamp,
                properties: properties.duplicate(),
            },
            Fact::EntityUpdated { entity_id, timestamp, updated_properties } => {
                Fact::EntityUpdated {
                    entity_id: *entity_id,
                    timestamp: *timestamp,
                    updated_properties: updated_properties.duplicate(),
                }
            },
            Fact::EntityDeleted { entity_id, timestamp } => Fact::EntityDeleted {
                entity_id: *entity_id,
                timestamp: *timestamp,
            },
            Fact::RelationshipAdded {
                source_id,
                target_id,
                relationship_type,
                timestamp,
                valid_from,
                valid_to,
            } => Fact::RelationshipAdded {
                source_id: *source_id,
                target_id: *target_id,
                relationship_type: relationship_type.clone(),
                timestamp: *timestamp,
                valid_from: *valid_from,
                valid_to: *valid_to,
            },
            Fact::RelationshipInvalidated { source_id, target_id, timestamp } => {
                Fact::RelationshipInvalidated {
                    source_id: *source_id,
                    target_id: *target_id,
                    timestamp: *timestamp,
                }
            },
        }
    }
}

/// Whether an event concerns one of `ids`.
pub open spec fn fact_involves(f: Fact, ids: Seq<u128>) -> bool {
    match f {
        Fact::EntityCreated { entity_id, .. } => ids.contains(entity_id),
        Fact::EntityUpdated { entity_id, .. } => ids.contains(entity_id),
        Fact::EntityDeleted { entity_id, .. } => ids.contains(entity_id),
        Fact::RelationshipAdded { source_id, target_id, .. } => ids.contains(source_id)
            || ids.contains(target_id),
        Fact::RelationshipInvalidated { source_id, target_id, .. } => ids.contains(source_id)
            || ids.contains(target_id),
    }
}

/// Structural equality of two events: same variant, same ids, times and
/// years, texts with the same characters, property maps with the same
/// entries.
pub open spec fn same_fact(a: Fact, b: Fact) -> bool {
    match (a, b) {
        (
            Fact::EntityCreated { entity_id: x, timestamp: t, properties: p },
            Fact::EntityCreated { entity_id: y, timestamp: u, properties: q },
        ) => x == y && t == u && p@ == q@,
        (
            Fact::EntityUpdated { entity_id: x, timestamp: t, updated_properties: p },
            Fact::EntityUpdated { entity_id: y, timestamp: u, updated_properties: q },
        ) => x == y && t == u && p@ == q@,
        (
            Fact::EntityDeleted { entity_id: x, timestamp: t },
            Fact::EntityDeleted { entity_id: y, timestamp: u },
        ) => x == y && t == u,
        (
            Fact::RelationshipAdded {
                source_id: s1,
                target_id: t1,
                relationship_type: k1,
                timestamp: w1,
                valid_from: f1,
                valid_to: e1,
            },
            Fact::RelationshipAdded {
                source_id: s2,
                target_id: t2,
                relationship_type: k2,
                timestamp: w2,
                valid_from: f2,
                valid_to: e2,
            },
        ) => s1 == s2 && t1 == t2 && k1@ == k2@ && w1 == w2 && f1 == f2 && e1 == e2,
        (
            Fact::RelationshipInvalidated { source_id: s1, target_id: t1, timestamp: w1 },
            Fact::RelationshipInvalidated { source_id: s2, target_id: t2, timestamp: w2 },
        ) => s1 == s2 && t1 == t2 && w1 == w2,
        _ => false,
    }
}

/// Two sequences of events that agree position by position.
pub open spec fn same_facts(a: Seq<Fact>, b: Seq<Fact>) -> bool {
    &&& a.len() == b.len()
    &&& forall|i: int| 0 <= i < a.len() ==> same_fact(#[trigger] a[i], b[i])
}

/// Whether `id` is one of `ids`.
pub fn contains_id(ids: &[u128], id: u128) -> (r: bool)
    ensures
        r == ids@.contains(id),
{
    let mut i: usize = 0;
    while i < ids.len()
        invariant
            i <= ids@.len(),
            forall|j: int| 0 <= j < i ==> ids@[j] != id,
        decreases ids@.len() - i,
    {
        if ids[i] == id {
            return true;
        }
        i = i + 1;
    }
    false
}

/// A batch handed to the store: entities put straight into the graph, and
/// events applied and logged in order.
pub struct FactStore {
    pub entities: Vec<Entity>,
    pub relationships: Vec<Fact>,
}

} // verus!
