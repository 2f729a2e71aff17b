//! Investigation cases: the entities reached from a seed and the events that
//! concern them.
use vstd::prelude::*;
use crate::fact::{Fact, fact_involves, same_fact, same_facts};
use crate::graph::GraphDb;
use crate::projection::within_hops;
use crate::time::{Timestamp, in_window, within};
use crate::utils::{
    deduplicate, deduplicate_facts, lemma_deduplicate_respects_same, lemma_sort_respects_same,
    sort_by_time, sort_facts_by_time,
};

verus! {

broadcast use vstd::string::group_string_axioms;

/// Whether a case keeps event `f`: its time lies in `[from, to]` and it
/// concerns one of `ids`.
pub open spec fn case_keeps(
    f: Fact,
    ids: Seq<u128>,
    from: Option<Timestamp>,
    to: Option<Timestamp>,
) -> bool {
    in_window(f.time(), from, to) && fact_involves(f, ids)
}

/// The events of `log` that a case keeps, in log order.
pub open spec fn select_for_case(
    log: Seq<Fact>,
    ids: Seq<u128>,
    from: Option<Timestamp>,
    to: Option<Timestamp>,
) -> Seq<Fact>
    decreases log.len(),
{
    if log.len() == 0 {
        log
    } else if case_keeps(log.last(), ids, from, to) {
        select_for_case(log.drop_last(), ids, from, to).push(log.last())
    } else {
        select_for_case(log.drop_last(), ids, from, to)
    }
}

/// The events of `facts` whose time lies in `[from, to]`, in order.
pub open spec fn select_in_window(
    facts: Seq<Fact>,
    from: Option<Timestamp>,
    to: Option<Timestamp>,
) -> Seq<Fact>
    decreases facts.len(),
{
    if facts.len() == 0 {
        facts
    } else if in_window(facts.last().time(), from, to) {
        select_in_window(facts.drop_last(), from, to).push(facts.last())
    } else {
        select_in_window(facts.drop_last(), from, to)
    }
}

/// Relies on uuid's `Uuid::new_v4`, read as its 128-bit value: a random id,
/// of which nothing is promised.
#[verifier::external_body]
fn new_case_id() -> (r: u128) {
    uuid::Uuid::new_v4().as_u128()
}

/// A bundle of entities and the events that concern them, made at one time.
#[derive(Debug)]
pub struct Case {
    pub id: u128,
    pub name: String,
    pub description: String,
    pub created_at: Timestamp,
    pub related_entity_ids: Vec<u128>,
    pub facts: Vec<Fact>,
}

impl Case {
    /// A case with a fresh random id, stamped with the time now.
    pub fn new(name: &str, description: &str, related_entity_ids: Vec<u128>, facts: Vec<Fact>) -> (r:
        Case)
        ensures
            r.name@ == name@,
            r.description@ == description@,
            r.related_entity_ids@ == related_entity_ids@,
            r.facts@ == facts@,
    {
        Case {
            id: new_case_id(),
            name: name.to_string(),
            description: description.to_string(),
            created_at: Timestamp::now(),
            related_entity_ids,
            facts,
        }
    }

    /// The case's events whose time lies in `[from, to]` (a missing bound
    /// leaves that side open), in order.
    pub fn filter_by_time(&self, from: Option<Timestamp>, to: Option<Timestamp>) -> (r: Vec<Fact>)
        ensures
            same_facts(r@, select_in_window(self.facts@, from, to)),
    {
        let mut out: Vec<Fact> = Vec::new();
        let mut i: usize = 0;
        while i < self.facts.len()
            invariant
                i <= self.facts@.len(),
                same_facts(out@, select_in_window(self.facts@.take(i as int), from, to)),
            decreases self.facts@.len() - i,
        {
            let f = &self.facts[i];
            proof {
                assert(self.facts@.take(i + 1).drop_last() =~= self.facts@.take(i as int));
                assert(self.facts@.take(i + 1).last() == *f);
            }
            if within(&f.timestamp(), &from, &to) {
                let ghost before = out@;
                out.push(f.duplicate());
                proof {
                    assert forall|k: int| 0 <= k < out@.len() implies same_fact(
                        #[trigger] out@[k],
                        select_in_window(self.facts@.take(i + 1), from, to)[k],
                    ) by {
                        if k < before.len() {
                            assert(out@[k] == before[k]);
                        }
                    }
                }
            }
            i = i + 1;
        }
        proof {
            assert(self.facts@.take(i as int) =~= self.facts@);
        }
        out
    }

    /// Whether the entity is among the case's related entities.
    pub fn involves_entity(&self, entity_id: &u128) -> (r: bool)
        ensures
            r == self.related_entity_ids@.contains(*entity_id),
    {
        crate::fact::contains_id(self.related_entity_ids.as_slice(), *entity_id)
    }
}

/// Settings for building a case around a seed entity: how deep to traverse
/// (2 unless set) and which time window the events must lie in (open unless
/// set).
pub struct CaseBuilder<'a> {
    db: &'a GraphDb,
    seed_entity_id: u128,
    max_depth: usize,
    from: Option<Timestamp>,
    to: Option<Timestamp>,
}

impl<'a> CaseBuilder<'a> {
    pub closed spec fn store(&self) -> &'a GraphDb {
        self.db
    }

    pub closed spec fn seed(&self) -> u128 {
        self.seed_entity_id
    }

    pub closed spec fn depth(&self) -> usize {
        self.max_depth
    }

    pub closed spec fn window(&self) -> (Option<Timestamp>, Option<Timestamp>) {
        (self.from, self.to)
    }

    /// A builder around `seed_entity_id` with depth 2 and no time bounds.
    pub fn new(db: &'a GraphDb, seed_entity_id: u128) -> (r: CaseBuilder<'a>)
        ensures
            r.store() == db,
            r.seed() == seed_entity_id,
            r.depth() == 2,
            r.window() == (None::<Timestamp>, None::<Timestamp>),
    {
        CaseBuilder { db, seed_entity_id, max_depth: 2, from: None, to: None }
    }

    /// The same builder with another traversal depth.
    pub fn with_max_depth(self, depth: usize) -> (r: CaseBuilder<'a>)
        ensures
            r.store() == self.store(),
            r.seed() == self.seed(),
            r.depth() == depth,
            r.window() == self.window(),
    {
        let mut b = self;
        b.max_depth = depth;
        b
    }

    /// The same builder with another time window.
    pub fn with_time_range(self, from: Option<Timestamp>, to: Option<Timestamp>) -> (r: CaseBuilder<
        'a,
    >)
        ensures
            r.store() == self.store(),
            r.seed() == self.seed(),
            r.depth() == self.depth(),
            r.window() == (from, to),
    {
        let mut b = self;
        b.from = from;
        b.to = to;
        b
    }

    /// Builds the case: the entities reached from the seed by breadth-first
    /// search within the depth, then the logged events in the window that
    /// concern one of them, sorted by time (stably) with structural
    /// duplicates removed.
    pub fn build(self, name: &str, description: &str) -> (r: Case)
        requires
            self.store().wf(),
        ensures
            r.name@ == name@,
            r.description@ == description@,
            r.related_entity_ids@.no_duplicates(),
            forall|i: int|
                0 <= i < r.related_entity_ids@.len() ==> self.store().projection().nodes.contains_key(
                    #[trigger] r.related_entity_ids@[i],
                ) && within_hops(
                    self.store().projection(),
                    self.seed(),
                    r.related_entity_ids@[i],
                    self.depth() as nat,
                ),
            self.store().projection().nodes.contains_key(self.seed()) ==> forall|v: u128|
                #[trigger] within_hops(self.store().projection(), self.seed(), v, self.depth() as nat)
                    ==> r.related_entity_ids@.contains(v),
            r.related_entity_ids@.len() > 0 <==> self.store().projection().nodes.contains_key(
                self.seed(),
            ),
            r.related_entity_ids@.len() > 0 ==> r.related_entity_ids@[0] == self.seed(),
            same_facts(
                r.facts@,
                deduplicate(
                    sort_by_time(
                        select_for_case(
                            self.store().log(),
                            r.related_entity_ids@,
                            self.window().0,
                            self.window().1,
                        ),
                    ),
                ),
            ),
    {
        let related = self.db.collect_related_entities(self.seed_entity_id, self.max_depth);
        let log = self.db.event_log();
        let ghost want = select_for_case(log@, related@, self.from, self.to);
        let mut relevant: Vec<Fact> = Vec::new();
        let mut i: usize = 0;
        while i < log.len()
            invariant
                i <= log@.len(),
                same_facts(relevant@, select_for_case(log@.take(i as int), related@, self.from, self.to)),
            decreases log@.len() - i,
        {
            let f = &log[i];
            proof {
                assert(log@.take(i + 1).drop_last() =~= log@.take(i as int));
                assert(log@.take(i + 1).last() == *f);
            }
            if within(&f.timestamp(), &self.from, &self.to) && f.involves_any(related.as_slice()) {
                let ghost before = relevant@;
                relevant.push(f.duplicate());
                proof {
                    assert forall|k: int| 0 <= k < relevant@.len() implies same_fact(
                        #[trigger] relevant@[k],
                        select_for_case(log@.take(i + 1), related@, self.from, self.to)[k],
                    ) by {
                        if k < before.len() {
                            assert(relevant@[k] == before[k]);
                        }
                    }
                }
            }
            i = i + 1;
        }
        proof {
            assert(log@.take(i as int) =~= log@);
        }
        let ghost picked = relevant@;
        sort_facts_by_time(&mut relevant);
        proof {
            lemma_sort_respects_same(picked, want);
        }
        let ghost sorted = relevant@;
        let facts = deduplicate_facts(relevant);
        proof {
            lemma_deduplicate_respects_same(sorted, sort_by_time(want));
        }
        Case::new(name, description, related, facts)
    }
}

} // verus!
