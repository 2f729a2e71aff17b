use h3imd3ll::entity::{Entity, EntityType};
use h3imd3ll::fact::{Fact, FactStore};
use h3imd3ll::graph::GraphDb;
use h3imd3ll::properties::Properties;
use h3imd3ll::relationship::RelationshipType;
use h3imd3ll::time::Timestamp;
use uuid::Uuid;

fn props(pairs: &[(&str, &str)]) -> Properties {
    let mut p = Properties::new();
    for (k, v) in pairs {
        p.insert(k.to_string(), v.to_string());
    }
    p
}

fn created(id: u128, secs: i64, name: &str, kind: &str) -> Fact {
    Fact::EntityCreated {
        entity_id: id,
        timestamp: Timestamp::new(secs, 0),
        properties: props(&[("name", name), ("type", kind)]),
    }
}

fn batch(facts: Vec<Fact>) -> FactStore {
    FactStore { entities: vec![], relationships: facts }
}

#[test]
fn test_graph_db_basic_flow() {
    let mut db = GraphDb::new();
    let now = chrono::Local::now();

    let e1 = Entity {
        id: Uuid::new_v4().as_u128(),
        name: "John Doe".into(),
        entity_type: EntityType::Person,
        properties: Properties::new(),
    };

    let e2 = Entity {
        id: Uuid::new_v4().as_u128(),
        name: "Widgets Inc".into(),
        entity_type: EntityType::Company,
        properties: Properties::new(),
    };

    let relationship = Fact::RelationshipAdded {
        source_id: e1.id,
        target_id: e2.id,
        relationship_type: RelationshipType::WorksAt.to_string(),
        timestamp: Timestamp::new(now.timestamp(), now.timestamp_subsec_nanos()),
        valid_from: 2021,
        valid_to: None,
    };

    let store = FactStore {
        entities: vec![e1.clone(), e2.clone()],
        relationships: vec![relationship],
    };

    db.add_fact(store);

    let outgoing = db.get_outgoing_neighbours(&e1.id);
    let incoming = db.get_incoming_neighbours(&e2.id);

    assert_eq!(outgoing.len(), 1);
    assert_eq!(incoming.len(), 1);
    assert_eq!(outgoing[0].name, "Widgets Inc");
    assert_eq!(incoming[0].name, "John Doe");
}

#[test]
fn direct_entities_are_not_logged() {
    let mut db = GraphDb::new();
    let e = Entity { id: 7, name: "Solo".into(), entity_type: EntityType::Place, properties: Properties::new() };
    db.add_fact(FactStore { entities: vec![e], relationships: vec![] });
    assert!(db.get_entity(&7).is_some());
    assert_eq!(db.event_log().len(), 0);
}

#[test]
fn creation_twice_keeps_first_entity() {
    let mut db = GraphDb::new();
    db.add_fact(batch(vec![created(1, 10, "Alice", "Person")]));
    db.add_fact(batch(vec![created(1, 10, "Alice", "Person")]));
    assert_eq!(db.entities().len(), 1);
    let e = db.get_entity(&1).unwrap();
    assert_eq!(e.name, "Alice");
    assert_eq!(e.entity_type, EntityType::Person);
    assert_eq!(db.event_log().len(), 2);

    let mut other = GraphDb::new();
    other.add_fact(batch(vec![created(1, 10, "Alice", "Person"), created(1, 11, "Bob", "Company")]));
    let e = other.get_entity(&1).unwrap();
    assert_eq!(e.name, "Alice");
    assert_eq!(e.entity_type, EntityType::Person);
}

#[test]
fn update_merges_properties_and_keeps_kind() {
    let mut db = GraphDb::new();
    db.add_fact(batch(vec![
        created(1, 10, "Alice", "Person"),
        Fact::EntityUpdated {
            entity_id: 1,
            timestamp: Timestamp::new(11, 0),
            updated_properties: props(&[("type", "Company"), ("city", "Oslo")]),
        },
    ]));
    let e = db.get_entity(&1).unwrap();
    assert_eq!(e.entity_type, EntityType::Person);
    assert_eq!(e.properties.get("type").unwrap(), "Company");
    assert_eq!(e.properties.get("city").unwrap(), "Oslo");
    assert_eq!(e.properties.get("name").unwrap(), "Alice");
    assert_eq!(e.properties.len(), 3);
}

#[test]
fn update_of_missing_entity_changes_nothing() {
    let mut db = GraphDb::new();
    db.add_fact(batch(vec![Fact::EntityUpdated {
        entity_id: 9,
        timestamp: Timestamp::new(1, 0),
        updated_properties: props(&[("a", "b")]),
    }]));
    assert!(db.get_entity(&9).is_none());
    assert_eq!(db.entities().len(), 0);
    assert_eq!(db.event_log().len(), 1);
}

#[test]
fn unknown_relationship_kind_is_reported_and_skipped() {
    let mut db = GraphDb::new();
    let rejected = db.add_fact(batch(vec![
        created(1, 1, "Alice", "Person"),
        created(2, 2, "Acme", "Company"),
        Fact::RelationshipAdded {
            source_id: 1,
            target_id: 2,
            relationship_type: "Owns".to_string(),
            timestamp: Timestamp::new(3, 0),
            valid_from: 2020,
            valid_to: None,
        },
        Fact::RelationshipAdded {
            source_id: 1,
            target_id: 2,
            relationship_type: "LocatedAt".to_string(),
            timestamp: Timestamp::new(4, 0),
            valid_from: 2020,
            valid_to: Some(2024),
        },
    ]));
    assert_eq!(rejected, vec![2]);
    assert_eq!(db.event_log().len(), 4);
    assert_eq!(db.get_outgoing_neighbours(&1).len(), 1);
}

#[test]
fn relationship_needs_both_endpoints() {
    let mut db = GraphDb::new();
    let rejected = db.add_fact(batch(vec![
        created(1, 1, "Alice", "Person"),
        Fact::RelationshipAdded {
            source_id: 1,
            target_id: 2,
            relationship_type: "WorksAt".to_string(),
            timestamp: Timestamp::new(3, 0),
            valid_from: 2020,
            valid_to: None,
        },
    ]));
    assert!(rejected.is_empty());
    assert_eq!(db.get_outgoing_neighbours(&1).len(), 0);
}

#[test]
fn parallel_edges_are_kept_and_invalidated_together() {
    let mut db = GraphDb::new();
    let rel = |kind: &str, secs: i64| Fact::RelationshipAdded {
        source_id: 1,
        target_id: 2,
        relationship_type: kind.to_string(),
        timestamp: Timestamp::new(secs, 0),
        valid_from: 2000,
        valid_to: None,
    };
    db.add_fact(batch(vec![
        created(1, 1, "Alice", "Person"),
        created(2, 2, "Acme", "Company"),
        rel("WorksAt", 3),
        rel("LocatedAt", 4),
        Fact::RelationshipAdded {
            source_id: 2,
            target_id: 1,
            relationship_type: "WorksAt".to_string(),
            timestamp: Timestamp::new(5, 0),
            valid_from: 2000,
            valid_to: None,
        },
    ]));
    assert_eq!(db.get_outgoing_neighbours(&1).len(), 2);
    db.add_fact(batch(vec![Fact::RelationshipInvalidated {
        source_id: 1,
        target_id: 2,
        timestamp: Timestamp::new(6, 0),
    }]));
    assert_eq!(db.get_outgoing_neighbours(&1).len(), 0);
    assert_eq!(db.get_outgoing_neighbours(&2).len(), 1);
    assert_eq!(db.get_incoming_neighbours(&1).len(), 1);
}

#[test]
fn deleting_removes_incident_edges_only_from_projection() {
    let mut db = GraphDb::new();
    db.add_fact(batch(vec![
        created(1, 1, "Alice", "Person"),
        created(2, 2, "Acme", "Company"),
        created(3, 3, "Oslo", "Place"),
        Fact::RelationshipAdded {
            source_id: 2,
            target_id: 3,
            relationship_type: "LocatedAt".to_string(),
            timestamp: Timestamp::new(4, 0),
            valid_from: 2000,
            valid_to: None,
        },
        Fact::RelationshipAdded {
            source_id: 1,
            target_id: 2,
            relationship_type: "WorksAt".to_string(),
            timestamp: Timestamp::new(5, 0),
            valid_from: 2000,
            valid_to: None,
        },
        Fact::EntityDeleted { entity_id: 2, timestamp: Timestamp::new(6, 0) },
    ]));
    assert!(db.get_entity(&2).is_none());
    assert_eq!(db.get_incoming_neighbours(&3).len(), 0);
    assert_eq!(db.get_outgoing_neighbours(&1).len(), 0);
    assert_eq!(db.event_log().len(), 6);
    assert_eq!(db.entities().len(), 2);
}

#[test]
fn replay_rebuilds_the_live_projection() {
    let mut db = GraphDb::new();
    db.add_fact(batch(vec![
        created(1, 1, "Alice", "Person"),
        created(2, 2, "Acme", "Company"),
        created(3, 3, "Bob", "Person"),
    ]));
    db.add_fact(batch(vec![
        Fact::RelationshipAdded {
            source_id: 1,
            target_id: 2,
            relationship_type: "WorksAt".to_string(),
            timestamp: Timestamp::new(4, 0),
            valid_from: 2001,
            valid_to: None,
        },
        Fact::EntityUpdated {
            entity_id: 3,
            timestamp: Timestamp::new(5, 0),
            updated_properties: props(&[("phone", "123")]),
        },
        Fact::EntityDeleted { entity_id: 3, timestamp: Timestamp::new(6, 0) },
    ]));
    let log: Vec<Fact> = db.event_log().iter().map(|f| f.duplicate()).collect();
    let again = GraphDb::replay(log);
    assert_eq!(again.event_log().len(), db.event_log().len());
    for (a, b) in again.event_log().iter().zip(db.event_log().iter()) {
        assert!(a.same_as(b));
    }
    let mut live: Vec<(u128, String)> = db.entities().iter().map(|e| (e.id, e.name.clone())).collect();
    let mut replayed: Vec<(u128, String)> =
        again.entities().iter().map(|e| (e.id, e.name.clone())).collect();
    live.sort();
    replayed.sort();
    assert_eq!(live, replayed);
    for id in [1u128, 2, 3] {
        let a: Vec<u128> = db.get_outgoing_neighbours(&id).iter().map(|e| e.id).collect();
        let b: Vec<u128> = again.get_outgoing_neighbours(&id).iter().map(|e| e.id).collect();
        assert_eq!(a, b);
        match (db.get_entity(&id), again.get_entity(&id)) {
            (Some(x), Some(y)) => assert!(x.properties.same_as(&y.properties)),
            (None, None) => {}
            _ => panic!("entity {} differs after replay", id),
        }
    }
}
