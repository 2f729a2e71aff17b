//! The time-ordered history of the log, optionally around one entity.
use vstd::prelude::*;
use crate::case::case_keeps;
use crate::fact::{Fact, fact_involves, same_fact, same_facts};
use crate::graph::GraphDb;
use crate::time::{Timestamp, in_window, within};
use crate::utils::{lemma_sort_respects_same, sort_by_time, sort_facts_by_time};

verus! {

/// Which events a timeline shows: those concerning `entity_id` (all, where
/// it is not given) whose time lies in `[from, to]`.
#[derive(Clone, Copy, Debug)]
pub struct TimelineQuery {
    pub entity_id: Option<u128>,
    pub from: Option<Timestamp>,
    pub to: Option<Timestamp>,
}

/// The events a timeline shows, oldest first.
#[derive(Debug)]
pub struct TimelineResult {
    pub facts: Vec<Fact>,
}

/// Whether a timeline shows event `f`.
pub open spec fn timeline_keeps(f: Fact, q: TimelineQuery) -> bool {
    &&& (q.entity_id matches Some(id) ==> fact_involves(f, seq![id]))
    &&& in_window(f.time(), q.from, q.to)
}

/// The events of `log` that a timeline shows, in log order.
pub open spec fn select_for_timeline(log: Seq<Fact>, q: TimelineQuery) -> Seq<Fact>
    decreases log.len(),
{
    if log.len() == 0 {
        log
    } else if timeline_keeps(log.last(), q) {
        select_for_timeline(log.drop_last(), q).push(log.last())
    } else {
        select_for_timeline(log.drop_last(), q)
    }
}

/// A timeline around one entity keeps exactly the events that a case whose
/// only entity is that one keeps, for the same window.
pub proof fn lemma_timeline_agrees_with_case(
    f: Fact,
    id: u128,
    from: Option<Timestamp>,
    to: Option<Timestamp>,
)
    ensures
        timeline_keeps(f, TimelineQuery { entity_id: Some(id), from, to }) == case_keeps(
            f,
            seq![id],
            from,
            to,
        ),
{
}

/// The logged events that the query selects, sorted by time (stably).
pub fn generate_timeline(db: &GraphDb, query: &TimelineQuery) -> (r: TimelineResult)
    requires
        db.wf(),
    ensures
        same_facts(r.facts@, sort_by_time(select_for_timeline(db.log(), *query))),
{
    let log = db.event_log();
    let mut relevant: Vec<Fact> = Vec::new();
    let mut i: usize = 0;
    while i < log.len()
        invariant
            i <= log@.len(),
            same_facts(relevant@, select_for_timeline(log@.take(i as int), *query)),
        decreases log@.len() - i,
    {
        let fact = &log[i];
        proof {
            assert(log@.take(i + 1).drop_last() =~= log@.take(i as int));
            assert(log@.take(i + 1).last() == *fact);
        }
        let involved = match fact {
            Fact::EntityCreated { entity_id, .. }
            | Fact::EntityUpdated { entity_id, .. }
            | Fact::EntityDeleted { entity_id, .. } => match query.entity_id {
                Some(id) => id == *entity_id,
                None => true,
            },
            Fact::RelationshipAdded { source_id, target_id, .. }
            | Fact::RelationshipInvalidated { source_id, target_id, .. } => match query.entity_id {
                Some(id) => id == *source_id || id == *target_id,
                None => true,
            },
        };
        proof {
            if let Some(id) = query.entity_id {
                assert(seq![id][0] == id);
                assert(seq![id].contains(id));
                assert(forall|x: u128| seq![id].contains(x) ==> x == id);
            }
        }
        if involved && within(&fact.timestamp(), &query.from, &query.to) {
            let ghost before = relevant@;
            relevant.push(fact.duplicate());
            proof {
                assert forall|k: int| 0 <= k < relevant@.len() implies same_fact(
                    #[trigger] relevant@[k],
                    select_for_timeline(log@.take(i + 1), *query)[k],
                ) by {
                    if k < before.len() {
                        assert(relevant@[k] == before[k]);
                    }
                }
            }
        }
        i = i + 1;
    }
    proof {
        assert(log@.take(i as int) =~= log@);
    }
    let ghost picked = relevant@;
    sort_facts_by_time(&mut relevant);
    proof {
        lemma_sort_respects_same(picked, select_for_timeline(log@, *query));
    }
    TimelineResult { facts: relevant }
}

} // verus!
