use h3imd3ll::case::CaseBuilder;
use h3imd3ll::entity::EntityType;
use h3imd3ll::fact::{Fact, FactStore};
use h3imd3ll::graph::GraphDb;
use h3imd3ll::properties::Properties;
use h3imd3ll::search::{SearchQuery, search_entities};
use h3imd3ll::time::Timestamp;

const ALICE: u128 = 0xA11CE;
const ACME: u128 = 0xAC3E;

fn props(pairs: &[(&str, &str)]) -> Properties {
    let mut p = Properties::new();
    for (k, v) in pairs {
        p.insert(k.to_string(), v.to_string());
    }
    p
}

fn created(id: u128, secs: i64, name: &str, kind: &str) -> Fact {
    Fact::EntityCreated {
        entity_id: id,
        timestamp: Timestamp::new(secs, 0),
        properties: props(&[("name", name), ("type", kind)]),
    }
}

fn batch(facts: Vec<Fact>) -> FactStore {
    FactStore { entities: vec![], relationships: facts }
}

fn alice_works_at_acme() -> GraphDb {
    let mut db = GraphDb::new();
    db.add_fact(batch(vec![created(ALICE, 100, "Alice", "Person"), created(ACME, 200, "Acme", "Company")]));
    db.add_fact(batch(vec![Fact::RelationshipAdded {
        source_id: ALICE,
        target_id: ACME,
        relationship_type: "WorksAt".to_string(),
        timestamp: Timestamp::new(300, 0),
        valid_from: 2025,
        valid_to: None,
    }]));
    db
}

fn kinds(facts: &[Fact]) -> Vec<&'static str> {
    facts
        .iter()
        .map(|f| match f {
            Fact::EntityCreated { .. } => "created",
            Fact::EntityUpdated { .. } => "updated",
            Fact::EntityDeleted { .. } => "deleted",
            Fact::RelationshipAdded { .. } => "added",
            Fact::RelationshipInvalidated { .. } => "invalidated",
        })
        .collect()
}

#[test]
fn case_around_alice_holds_both_and_their_facts() {
    let db = alice_works_at_acme();
    let case = CaseBuilder::new(&db, ALICE).with_max_depth(1).build("Case around 'Alice'", "demo");
    assert_eq!(case.related_entity_ids, vec![ALICE, ACME]);
    assert_eq!(case.facts.len(), 3);
    assert_eq!(kinds(&case.facts), vec!["created", "created", "added"]);
    let secs: Vec<i64> = case.facts.iter().map(|f| f.timestamp().secs).collect();
    assert_eq!(secs, vec![100, 200, 300]);
    assert_eq!(case.name, "Case around 'Alice'");
    assert_eq!(case.description, "demo");
    assert!(case.involves_entity(&ACME));
    assert!(!case.involves_entity(&0));
}

#[test]
fn deleted_company_is_gone() {
    let mut db = alice_works_at_acme();
    db.add_fact(batch(vec![Fact::EntityDeleted { entity_id: ACME, timestamp: Timestamp::new(400, 0) }]));
    let found = search_entities(&db, SearchQuery { entity_type: Some(EntityType::Company), name_contains: None });
    assert!(found.is_empty());
    assert!(db.get_outgoing_neighbours(&ALICE).is_empty());
}

#[test]
fn invalidation_keeps_entities() {
    let mut db = alice_works_at_acme();
    db.add_fact(batch(vec![Fact::RelationshipInvalidated {
        source_id: ALICE,
        target_id: ACME,
        timestamp: Timestamp::new(350, 0),
    }]));
    assert!(db.get_outgoing_neighbours(&ALICE).is_empty());
    assert_eq!(db.get_entity(&ALICE).unwrap().name, "Alice");
    assert_eq!(db.get_entity(&ACME).unwrap().name, "Acme");
}

#[test]
fn replayed_log_builds_same_case() {
    let db = alice_works_at_acme();
    let before = CaseBuilder::new(&db, ALICE).with_max_depth(1).build("A", "first");
    let log: Vec<Fact> = db.event_log().iter().map(|f| f.duplicate()).collect();
    let reloaded = GraphDb::replay(log);
    let after = CaseBuilder::new(&reloaded, ALICE).with_max_depth(1).build("A", "second");
    assert_eq!(before.related_entity_ids, after.related_entity_ids);
    assert_eq!(before.facts.len(), after.facts.len());
    for (a, b) in before.facts.iter().zip(after.facts.iter()) {
        assert!(a.same_as(b));
    }
}

#[test]
fn case_ids_are_random() {
    let db = alice_works_at_acme();
    let a = CaseBuilder::new(&db, ALICE).build("A", "");
    let b = CaseBuilder::new(&db, ALICE).build("B", "");
    assert_ne!(a.id, b.id);
}

#[test]
fn breadth_first_search_respects_depth() {
    let mut db = GraphDb::new();
    let mut facts = vec![];
    for (i, name) in ["a", "b", "c", "d"].iter().enumerate() {
        facts.push(created(i as u128 + 1, i as i64, name, "Person"));
    }
    for (s, t) in [(1u128, 2u128), (2, 3), (3, 4), (3, 1)] {
        facts.push(Fact::RelationshipAdded {
            source_id: s,
            target_id: t,
            relationship_type: "WorksAt".to_string(),
            timestamp: Timestamp::new(10, 0),
            valid_from: 1,
            valid_to: None,
        });
    }
    db.add_fact(batch(facts));
    let ids = |d: usize| CaseBuilder::new(&db, 1).with_max_depth(d).build("", "").related_entity_ids;
    assert_eq!(ids(0), vec![1]);
    assert_eq!(ids(1), vec![1, 2]);
    assert_eq!(ids(2), vec![1, 2, 3]);
    assert_eq!(ids(3), vec![1, 2, 3, 4]);
    assert_eq!(ids(usize::MAX), vec![1, 2, 3, 4]);
    assert_eq!(CaseBuilder::new(&db, 1).build("", "").related_entity_ids, vec![1, 2, 3]);
    // incoming edges are not followed
    assert_eq!(CaseBuilder::new(&db, 4).with_max_depth(5).build("", "").related_entity_ids, vec![4]);
    assert!(CaseBuilder::new(&db, 99).build("", "").related_entity_ids.is_empty());
}

#[test]
fn case_time_window_is_inclusive() {
    let db = alice_works_at_acme();
    let build = |from: Option<i64>, to: Option<i64>| {
        CaseBuilder::new(&db, ALICE)
            .with_max_depth(1)
            .with_time_range(from.map(|s| Timestamp::new(s, 0)), to.map(|s| Timestamp::new(s, 0)))
            .build("", "")
    };
    let secs = |c: h3imd3ll::case::Case| c.facts.iter().map(|f| f.timestamp().secs).collect::<Vec<i64>>();
    assert_eq!(secs(build(Some(200), Some(300))), vec![200, 300]);
    assert_eq!(secs(build(Some(201), Some(299))), Vec::<i64>::new());
    assert_eq!(secs(build(None, Some(200))), vec![100, 200]);
    assert_eq!(secs(build(Some(100), None)), vec![100, 200, 300]);
    let case = build(None, None);
    let within = case.filter_by_time(Some(Timestamp::new(100, 0)), Some(Timestamp::new(100, 0)));
    assert_eq!(within.len(), 1);
    let none = case.filter_by_time(Some(Timestamp::new(100, 1)), Some(Timestamp::new(199, 999)));
    assert!(none.is_empty());
}

#[test]
fn case_facts_are_sorted_and_deduplicated() {
    let mut db = GraphDb::new();
    db.add_fact(batch(vec![created(ALICE, 50, "Alice", "Person")]));
    db.add_fact(batch(vec![
        Fact::EntityUpdated { entity_id: ALICE, timestamp: Timestamp::new(30, 0), updated_properties: props(&[("x", "1")]) },
        Fact::EntityUpdated { entity_id: ALICE, timestamp: Timestamp::new(30, 0), updated_properties: props(&[("x", "1")]) },
        Fact::EntityUpdated { entity_id: ALICE, timestamp: Timestamp::new(30, 0), updated_properties: props(&[("x", "2")]) },
        Fact::EntityUpdated { entity_id: ALICE, timestamp: Timestamp::new(31, 0), updated_properties: props(&[("x", "1")]) },
    ]));
    let case = CaseBuilder::new(&db, ALICE).build("", "");
    assert_eq!(kinds(&case.facts), vec!["updated", "updated", "updated", "created"]);
    let secs: Vec<i64> = case.facts.iter().map(|f| f.timestamp().secs).collect();
    assert_eq!(secs, vec![30, 30, 31, 50]);
    match &case.facts[1] {
        Fact::EntityUpdated { updated_properties, .. } => assert_eq!(updated_properties.get("x").unwrap(), "2"),
        _ => panic!("expected an update"),
    }
}

#[test]
fn search_filters_by_kind_and_name() {
    let mut db = alice_works_at_acme();
    db.add_fact(batch(vec![created(3, 5, "Alicia", "Person"), created(4, 6, "alice", "Email")]));
    let names = |q: SearchQuery| {
        let mut v: Vec<String> = search_entities(&db, q).iter().map(|e| e.name.clone()).collect();
        v.sort();
        v
    };
    assert_eq!(names(SearchQuery { entity_type: None, name_contains: Some("Ali".to_string()) }), vec!["Alice", "Alicia"]);
    assert_eq!(names(SearchQuery { entity_type: Some(EntityType::Person), name_contains: Some("lic".to_string()) }), vec!["Alice", "Alicia"]);
    assert_eq!(names(SearchQuery { entity_type: Some(EntityType::Email), name_contains: None }), vec!["alice"]);
    assert!(names(SearchQuery { entity_type: Some(EntityType::Company), name_contains: Some("Ali".to_string()) }).is_empty());
    assert_eq!(names(SearchQuery { entity_type: None, name_contains: None }).len(), 4);
    assert!(names(SearchQuery { entity_type: None, name_contains: Some("lice2".to_string()) }).is_empty());
}
