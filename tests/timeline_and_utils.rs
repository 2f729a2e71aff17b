use h3imd3ll::case::Case;
use h3imd3ll::entity::EntityType;
use h3imd3ll::fact::{Fact, FactStore};
use h3imd3ll::graph::GraphDb;
use h3imd3ll::properties::Properties;
use h3imd3ll::relationship::RelationshipType;
use h3imd3ll::time::Timestamp;
use h3imd3ll::timeline::{TimelineQuery, generate_timeline};
use h3imd3ll::utils::{deduplicate_facts, sort_facts_by_time};

fn deleted(id: u128, secs: i64, nanos: u32) -> Fact {
    Fact::EntityDeleted { entity_id: id, timestamp: Timestamp::new(secs, nanos) }
}

fn ids(facts: &[Fact]) -> Vec<u128> {
    facts
        .iter()
        .map(|f| match f {
            Fact::EntityDeleted { entity_id, .. } => *entity_id,
            _ => 0,
        })
        .collect()
}

#[test]
fn sort_is_stable_and_ascending() {
    let mut facts = vec![deleted(1, 5, 0), deleted(2, 3, 0), deleted(3, 5, 0), deleted(4, 3, 1), deleted(5, -1, 0)];
    sort_facts_by_time(&mut facts);
    assert_eq!(ids(&facts), vec![5, 2, 4, 1, 3]);
    let mut empty: Vec<Fact> = vec![];
    sort_facts_by_time(&mut empty);
    assert!(empty.is_empty());
}

#[test]
fn dedup_keeps_first_occurrences_in_order() {
    let facts = vec![deleted(1, 1, 0), deleted(2, 1, 0), deleted(1, 1, 0), deleted(3, 0, 0), deleted(2, 1, 0), deleted(1, 2, 0)];
    let out = deduplicate_facts(facts);
    assert_eq!(ids(&out), vec![1, 2, 3, 1]);
    assert_eq!(out[3].timestamp().secs, 2);
    assert!(deduplicate_facts(vec![]).is_empty());
}

#[test]
fn dedup_compares_property_maps_by_content() {
    let mut a = Properties::new();
    a.insert("k".to_string(), "v".to_string());
    a.insert("n".to_string(), "m".to_string());
    let mut b = Properties::new();
    b.insert("n".to_string(), "m".to_string());
    b.insert("k".to_string(), "v".to_string());
    let f = |p: Properties| Fact::EntityCreated { entity_id: 1, timestamp: Timestamp::new(0, 0), properties: p };
    let out = deduplicate_facts(vec![f(a.clone()), f(b), f(Properties::new())]);
    assert_eq!(out.len(), 2);
    assert!(out[0].same_as(&f(a)));
}

#[test]
fn timeline_filters_by_entity_and_window() {
    let mut db = GraphDb::new();
    let mut p = Properties::new();
    p.insert("name".to_string(), "Alice".to_string());
    let rel = |s: u128, t: u128, secs: i64| Fact::RelationshipAdded {
        source_id: s,
        target_id: t,
        relationship_type: "WorksAt".to_string(),
        timestamp: Timestamp::new(secs, 0),
        valid_from: 1990,
        valid_to: None,
    };
    db.add_fact(FactStore {
        entities: vec![],
        relationships: vec![
            Fact::EntityCreated { entity_id: 1, timestamp: Timestamp::new(40, 0), properties: p.clone() },
            Fact::EntityCreated { entity_id: 2, timestamp: Timestamp::new(10, 0), properties: p },
            rel(2, 1, 20),
            rel(2, 3, 30),
            Fact::RelationshipInvalidated { source_id: 1, target_id: 2, timestamp: Timestamp::new(15, 0) },
        ],
    });
    let secs = |q: TimelineQuery| generate_timeline(&db, &q).facts.iter().map(|f| f.timestamp().secs).collect::<Vec<i64>>();
    assert_eq!(secs(TimelineQuery { entity_id: None, from: None, to: None }), vec![10, 15, 20, 30, 40]);
    assert_eq!(secs(TimelineQuery { entity_id: Some(1), from: None, to: None }), vec![15, 20, 40]);
    assert_eq!(secs(TimelineQuery { entity_id: Some(3), from: None, to: None }), vec![30]);
    let t = |s: i64| Some(Timestamp::new(s, 0));
    assert_eq!(secs(TimelineQuery { entity_id: None, from: t(15), to: t(30) }), vec![15, 20, 30]);
    assert_eq!(secs(TimelineQuery { entity_id: None, from: t(16), to: t(29) }), vec![20]);
    assert_eq!(secs(TimelineQuery { entity_id: Some(1), from: t(40), to: t(40) }), vec![40]);
    assert!(secs(TimelineQuery { entity_id: Some(9), from: None, to: None }).is_empty());
}

#[test]
fn timestamps_compare_by_seconds_then_nanos() {
    let a = Timestamp::new(1, 999_999_999);
    let b = Timestamp::new(2, 0);
    assert!(a.at_or_before(&b));
    assert!(!b.at_or_before(&a));
    assert!(a.at_or_before(&a));
    assert!(Timestamp::new(-5, 3).at_or_before(&Timestamp::new(-5, 4)));
    let case = Case::new("n", "d", vec![1], vec![]);
    assert!(case.created_at.secs > 1_600_000_000);
    assert_eq!(case.related_entity_ids, vec![1]);
}

#[test]
fn kinds_parse_and_print() {
    for (name, kind) in [
        ("Person", EntityType::Person),
        ("PhoneNumber", EntityType::PhoneNumber),
        ("Email", EntityType::Email),
        ("Company", EntityType::Company),
        ("Place", EntityType::Place),
        ("Action", EntityType::Action),
        ("Event", EntityType::Event),
    ] {
        assert_eq!(EntityType::from_str(name), Ok(kind));
        assert_eq!(kind.to_string(), name);
    }
    assert_eq!(EntityType::from_str("Unknown"), Err(()));
    assert_eq!(EntityType::from_str("person"), Err(()));
    assert_eq!(EntityType::Unknown.to_string(), "Unknown");
    assert_eq!(RelationshipType::from_str("WorksAt"), Ok(RelationshipType::WorksAt));
    assert_eq!(RelationshipType::from_str("LocatedAt"), Ok(RelationshipType::LocatedAt));
    assert_eq!(RelationshipType::from_str("Located At"), Err(()));
    assert_eq!(RelationshipType::LocatedAt.to_string(), "LocatedAt");
}

#[test]
fn kind_comes_from_type_property() {
    let mut p = Properties::new();
    assert_eq!(EntityType::from_properties(&p), EntityType::Unknown);
    p.insert("type".to_string(), "Place".to_string());
    assert_eq!(EntityType::from_properties(&p), EntityType::Place);
    p.insert("type".to_string(), "Planet".to_string());
    assert_eq!(EntityType::from_properties(&p), EntityType::Unknown);
    assert_eq!(p.len(), 1);
}

#[test]
fn involves_any_checks_entity_or_endpoints() {
    let f = Fact::RelationshipInvalidated { source_id: 1, target_id: 2, timestamp: Timestamp::new(0, 0) };
    assert!(f.involves_any(&[2]));
    assert!(f.involves_any(&[5, 1]));
    assert!(!f.involves_any(&[3]));
    assert!(!f.involves_any(&[]));
    let g = deleted(4, 0, 0);
    assert!(g.involves_any(&[4]));
    assert!(!g.involves_any(&[1, 2]));
}

#[test]
fn property_merge_prefers_new_values() {
    let mut a = Properties::new();
    a.insert("x".to_string(), "1".to_string());
    a.insert("y".to_string(), "2".to_string());
    let mut b = Properties::new();
    b.insert("y".to_string(), "3".to_string());
    b.insert("z".to_string(), "4".to_string());
    a.merge(&b);
    assert_eq!(a.get("x").unwrap(), "1");
    assert_eq!(a.get("y").unwrap(), "3");
    assert_eq!(a.get("z").unwrap(), "4");
    assert!(a.get("w").is_none());
    assert_eq!(a.len(), 3);
    assert!(!a.same_as(&b));
    assert!(a.duplicate().same_as(&a));
}
