use vstd::prelude::*;
use crate::text::text_eq;

verus! {

broadcast use vstd::string::group_string_axioms;

/// The closed set of kinds an edge can be.
#[derive(Clone, Copy, Debug, PartialEq, Eq, Hash, Structural)]
pub enum RelationshipType {
    WorksAt,
    LocatedAt,
}

/// The kind that a name spells, if it spells one.
pub open spec fn parse_relationship_type(s: Seq<char>) -> Option<RelationshipType> {
    if s == "WorksAt"@ {
        Some(RelationshipType::WorksAt)
    } else if s == "LocatedAt"@ {
        Some(RelationshipType::LocatedAt)
    } else {
        None
    }
}

/// The name of a kind.
pub open spec fn relationship_type_name(t: RelationshipType) -> Seq<char> {
    match t {
        RelationshipType::WorksAt => "WorksAt"@,
        RelationshipType::LocatedAt => "LocatedAt"@,
    }
}

impl RelationshipType {
    /// Parses a kind from its name.
    pub fn from_str(s: &str) -> (r: Result<RelationshipType, ()>)
        ensures
            match parse_relationship_type(s@) {
                Some(t) => r == Ok::<RelationshipType, ()>(t),
                None => r is Err,
            },
    {
        if text_eq(s, "WorksAt") {
            Ok(RelationshipType::WorksAt)
        } else if text_eq(s, "LocatedAt") {
            Ok(RelationshipType::LocatedAt)
        } else {
            Err(())
        }
    }

    /// The name of the kind.
    pub fn to_string(&self) -> (r: String)
        ensures
            r@ == relationship_type_name(*self),
    {
        match self {
            RelationshipType::WorksAt => "WorksAt".to_string(),
            RelationshipType::LocatedAt => "LocatedAt".to_string(),
        }
    }
}

/// A directed edge between two entities, valid from a year and, where
/// `valid_to` is given, up to a year.
#[derive(Clone, Copy, Debug, PartialEq, Eq, Structural)]
pub struct Relationship {
    pub source_id: u128,
    pub target_id: u128,
    pub relationship_type: RelationshipType,
    pub valid_from: i64,
    pub valid_to: Option<i64>,
}

} // verus!
