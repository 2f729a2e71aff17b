use vstd::prelude::*;
use crate::properties::Properties;
use crate::text::text_eq;

verus! {

broadcast use vstd::string::group_string_axioms;

/// The closed set of kinds an entity can be.
#[derive(Clone, Copy, Debug, PartialEq, Eq, Hash, Structural)]
pub enum EntityType {
    Person,
    PhoneNumber,
    Email,
    Company,
    Place,
    Action,
    Event,
    Unknown,
}

/// The kind that a name spells, if it spells one. `Unknown` has no name here:
/// it stands for what no name gave.
pub open spec fn parse_entity_type(s: Seq<char>) -> Option<EntityType> {
    if s == "Person"@ {
        Some(EntityType::Person)
    } else if s == "PhoneNumber"@ {
        Some(EntityType::PhoneNumber)
    } else if s == "Email"@ {
        Some(EntityType::Email)
    } else if s == "Company"@ {
        Some(EntityType::Company)
    } else if s == "Place"@ {
        Some(EntityType::Place)
    } else if s == "Action"@ {
        Some(EntityType::Action)
    } else if s == "Event"@ {
        Some(EntityType::Event)
    } else {
        None
    }
}

/// The display name of a kind.
pub open spec fn entity_type_name(t: EntityType) -> Seq<char> {
    match t {
        EntityType::Person => "Person"@,
        EntityType::PhoneNumber => "PhoneNumber"@,
        EntityType::Email => "Email"@,
        EntityType::Company => "Company"@,
        EntityType::Place => "Place"@,
        EntityType::Action => "Action"@,
        EntityType::Event => "Event"@,
        EntityType::Unknown => "Unknown"@,
    }
}

/// The kind that a property map declares under its `"type"` key; `Unknown`
/// where the key is missing or names no kind.
pub open spec fn type_of_properties(props: Map<Seq<char>, Seq<char>>) -> EntityType {
    if props.contains_key("type"@) {
        match parse_entity_type(props["type"@]) {
            Some(t) => t,
            None => EntityType::Unknown,
        }
    } else {
        EntityType::Unknown
    }
}

impl EntityType {
    /// The kind declared by the `"type"` property.
    pub fn from_properties(props: &Properties) -> (r: EntityType)
        ensures
            r == type_of_properties(props@),
    {
        match props.get("type") {
            Some(v) => match EntityType::from_str(v.as_str()) {
                Ok(t) => t,
                Err(_) => EntityType::Unknown,
            },
            None => EntityType::Unknown,
        }
    }

    /// Parses a kind from its name.
    pub fn from_str(s: &str) -> (r: Result<EntityType, ()>)
        ensures
            match parse_entity_type(s@) {
                Some(t) => r == Ok::<EntityType, ()>(t),
                None => r is Err,
            },
    {
        if text_eq(s, "Person") {
            Ok(EntityType::Person)
        } else if text_eq(s, "PhoneNumber") {
            Ok(EntityType::PhoneNumber)
        } else if text_eq(s, "Email") {
            Ok(EntityType::Email)
        } else if text_eq(s, "Company") {
            Ok(EntityType::Company)
        } else if text_eq(s, "Place") {
            Ok(EntityType::Place)
        } else if text_eq(s, "Action") {
            Ok(EntityType::Action)
        } else if text_eq(s, "Event") {
            Ok(EntityType::Event)
        } else {
            Err(())
        }
    }

    /// The name of the kind.
    pub fn to_string(&self) -> (r: String)
        ensures
            r@ == entity_type_name(*self),
    {
        match self {
            EntityType::Person => "Person".to_string(),
            EntityType::PhoneNumber => "PhoneNumber".to_string(),
            EntityType::Email => "Email".to_string(),
            EntityType::Company => "Company".to_string(),
            EntityType::Place => "Place".to_string(),
            EntityType::Action => "Action".to_string(),
            EntityType::Event => "Event".to_string(),
            EntityType::Unknown => "Unknown".to_string(),
        }
    }
}

/// What an entity is, over mathematical values.
pub struct EntityView {
    pub id: u128,
    pub name: Seq<char>,
    pub entity_type: EntityType,
    pub properties: Map<Seq<char>, Seq<char>>,
}

/// A node of the graph. `entity_type` is fixed when the entity is created.
#[derive(Clone, Debug)]
pub struct Entity {
    pub id: u128,
    pub name: String,
    pub entity_type: EntityType,
    pub properties: Properties,
}

impl View for Entity {
    type V = EntityView;

    open spec fn view(&self) -> EntityView {
        EntityView {
            id: self.id,
            name: self.name@,
            entity_type: self.entity_type,
            properties: self.properties@,
        }
    }
}

/// The entity that creating `id` from a property map yields: its name is the
/// `"name"` property (empty where missing), its kind the `"type"` property.
pub open spec fn created_entity(id: u128, props: Map<Seq<char>, Seq<char>>) -> EntityView {
    EntityView {
        id,
        name: if props.contains_key("name"@) {
            props["name"@]
        } else {
            Seq::empty()
        },
        entity_type: type_of_properties(props),
        properties: props,
    }
}

impl Entity {
    /// The entity that a creation event for `id` with `props` describes.
    pub fn from_created(id: u128, props: &Properties) -> (r: Entity)
        ensures
            r@ == created_entity(id, props@),
    {
        let name = match props.get("name") {
            Some(v) => v.clone(),
            None => String::new(),
        };
        Entity {
            id,
            name,
            entity_type: EntityType::from_properties(props),
            properties: props.duplicate(),
        }
    }
}

} // verus!
