//! Entity search by kind and by name.
use vstd::prelude::*;
use crate::entity::{Entity, EntityType, EntityView};
use crate::graph::GraphDb;
use crate::text::{is_substring, str_contains, text_eq};

verus! {

/// Filters for a search; each one given must hold.
#[derive(Clone, Debug)]
pub struct SearchQuery {
    pub entity_type: Option<EntityType>,
    pub name_contains: Option<String>,
}

/// Whether an entity passes the query: its kind is the one asked for, and its
/// name contains the text asked for (case-sensitively), where given.
pub open spec fn search_matches(e: EntityView, q: SearchQuery) -> bool {
    &&& (q.entity_type matches Some(t) ==> e.entity_type == t)
    &&& (q.name_contains matches Some(s) ==> is_substring(s@, e.name))
}

/// Every entity of the graph that passes the query, once each.
pub fn search_entities<'a>(db: &'a GraphDb, query: SearchQuery) -> (r: Vec<&'a Entity>)
    requires
        db.wf(),
    ensures
        forall|i: int|
            0 <= i < r@.len() ==> {
                &&& db.projection().nodes.contains_key((#[trigger] r@[i]).id)
                &&& r@[i]@ == db.projection().nodes[r@[i].id]
                &&& search_matches(r@[i]@, query)
            },
        forall|id: u128|
            #[trigger] db.projection().nodes.contains_key(id) && search_matches(
                db.projection().nodes[id],
                query,
            ) ==> exists|i: int| 0 <= i < r@.len() && (#[trigger] r@[i]).id == id,
        forall|i: int, j: int| 0 <= i < j < r@.len() ==> (#[trigger] r@[i]).id != (#[trigger] r@[j]).id,
{
    let all = db.entities();
    let mut out: Vec<&'a Entity> = Vec::new();
    let ghost mut picked: Seq<int> = Seq::empty();
    let mut i: usize = 0;
    while i < all.len()
        invariant
            i <= all@.len(),
            forall|k: int|
                0 <= k < all@.len() ==> db.projection().nodes.contains_key((#[trigger] all@[k]).id)
                    && all@[k]@ == db.projection().nodes[all@[k].id],
            out@.len() == picked.len(),
            forall|k: int| 0 <= k < picked.len() ==> 0 <= #[trigger] picked[k] < i && out@[k] == all@[picked[k]],
            forall|a: int, b: int| 0 <= a < b < picked.len() ==> #[trigger] picked[a] < #[trigger] picked[b],
            forall|k: int| 0 <= k < out@.len() ==> search_matches((#[trigger] out@[k])@, query),
            forall|j: int|
                0 <= j < i && search_matches((#[trigger] all@[j])@, query) ==> picked.contains(j),
        decreases all@.len() - i,
    {
        let e = all[i];
        let type_ok = match query.entity_type {
            Some(t) => e.entity_type == t,
            None => true,
        };
        let name_ok = match &query.name_contains {
            Some(s) => str_contains(e.name.as_str(), s.as_str()),
            None => true,
        };
        let ghost before = picked;
        if type_ok && name_ok {
            out.push(e);
            proof {
                picked = picked.push(i as int);
            }
        }
        proof {
            assert forall|j: int| 0 <= j < i + 1 && search_matches((#[trigger] all@[j])@, query) implies picked.contains(j) by {
                if j < i {
                    let k = choose|k: int| 0 <= k < before.len() && before[k] == j;
                    assert(picked[k] == j);
                } else {
                    assert(picked[picked.len() - 1] == j);
                }
            }
        }
        i = i + 1;
    }
    proof {
        assert forall|k: int| 0 <= k < out@.len() implies db.projection().nodes.contains_key(
            (#[trigger] out@[k]).id,
        ) && out@[k]@ == db.projection().nodes[out@[k].id] by {
            assert(out@[k] == all@[picked[k]]);
        }
        assert forall|id: u128|
            #[trigger] db.projection().nodes.contains_key(id) && search_matches(
                db.projection().nodes[id],
                query,
            ) implies exists|k: int| 0 <= k < out@.len() && (#[trigger] out@[k]).id == id by {
            let j = choose|j: int| 0 <= j < all@.len() && (#[trigger] all@[j]).id == id;
            assert(picked.contains(j));
            let k = choose|k: int| 0 <= k < picked.len() && picked[k] == j;
            assert(out@[k].id == id);
        }
        assert forall|a: int, b: int| 0 <= a < b < out@.len() implies (#[trigger] out@[a]).id
            != (#[trigger] out@[b]).id by {
            assert(picked[a] < picked[b]);
        }
    }
    out
}

/// An entity of the graph with exactly this name, if there is one; the first
/// in node order where several share it.
pub fn find_entity_by_name<'a>(db: &'a GraphDb, name: &str) -> (r: Option<&'a Entity>)
    requires
        db.wf(),
    ensures
        match r {
            Some(e) => db.projection().nodes.contains_key(e.id) && e@ == db.projection().nodes[e.id]
                && e.name@ == name@,
            None => forall|id: u128|
                #[trigger] db.projection().nodes.contains_key(id) ==> db.projection().nodes[id].name
                    != name@,
        },
{
    let all = db.entities();
    let mut i: usize = 0;
    while i < all.len()
        invariant
            i <= all@.len(),
            forall|k: int|
                0 <= k < all@.len() ==> db.projection().nodes.contains_key((#[trigger] all@[k]).id)
                    && all@[k]@ == db.projection().nodes[all@[k].id],
            forall|k: int| 0 <= k < i ==> (#[trigger] all@[k]).name@ != name@,
        decreases all@.len() - i,
    {
        if text_eq(all[i].name.as_str(), name) {
            return Some(all[i]);
        }
        i = i + 1;
    }
    proof {
        assert forall|id: u128| #[trigger] db.projection().nodes.contains_key(id) implies db.projection().nodes[id].name
            != name@ by {
            let k = choose|k: int| 0 <= k < all@.len() && (#[trigger] all@[k]).id == id;
            assert(all@[k].name@ != name@);
        }
    }
    None
}

} // verus!
