use vstd::prelude::*;

verus! {

/// An instant in UTC: whole seconds since the Unix epoch and the nanoseconds
/// past that second (up to two seconds' worth, where a leap second is shown).
#[derive(Clone, Copy, Debug, PartialEq, Eq, Hash, Structural)]
pub struct Timestamp {
    pub secs: i64,
    pub nanos: u32,
}

impl Timestamp {
    /// The position of the instant on a single integer line. It orders
    /// timestamps as the pair `(secs, nanos)` is ordered.
    pub open spec fn instant(self) -> int {
        self.secs as int * 0x1_0000_0000 + self.nanos as int
    }

    pub fn new(secs: i64, nanos: u32) -> (r: Timestamp)
        ensures
            r.secs == secs,
            r.nanos == nanos,
    {
        Timestamp { secs, nanos }
    }

    /// Whether `self` is not later than `other`.
    pub fn at_or_before(&self, other: &Timestamp) -> (r: bool)
        ensures
            r == (self.instant() <= other.instant()),
    {
        self.secs < other.secs || (self.secs == other.secs && self.nanos <= other.nanos)
    }

    /// Relies on chrono's `Local::now`, read back as seconds and sub-second
    /// nanoseconds since the epoch; nothing is known of the value it reads.
    #[verifier::external_body]
    pub(crate) fn now() -> (r: Timestamp) {
        let t = chrono::Local::now();
        Timestamp { secs: t.timestamp(), nanos: t.timestamp_subsec_nanos() }
    }
}

/// Whether `t` lies in the inclusive window `[from, to]`, a missing bound
/// leaving that side open.
pub open spec fn in_window(t: Timestamp, from: Option<Timestamp>, to: Option<Timestamp>) -> bool {
    &&& (from matches Some(f) ==> f.instant() <= t.instant())
    &&& (to matches Some(u) ==> t.instant() <= u.instant())
}

/// Executable form of `in_window`.
pub fn within(t: &Timestamp, from: &Option<Timestamp>, to: &Option<Timestamp>) -> (r: bool)
    ensures
        r == in_window(*t, *from, *to),
{
    let after_from = match from {
        Some(f) => f.at_or_before(t),
        None => true,
    };
    let before_to = match to {
        Some(u) => t.at_or_before(u),
        None => true,
    };
    after_from && before_to
}

/// The window's bounds are inclusive: a time equal to either bound is inside,
/// a time strictly before `from` or strictly after `to` is outside.
pub proof fn lemma_window_inclusive(t: Timestamp, from: Timestamp, to: Timestamp)
    ensures
        from.instant() <= t.instant() <= to.instant() ==> in_window(t, Some(from), Some(to)),
        in_window(from, Some(from), Some(to)) == (from.instant() <= to.instant()),
        in_window(to, Some(from), Some(to)) == (from.instant() <= to.instant()),
        t.instant() < from.instant() ==> !in_window(t, Some(from), Some(to)),
        to.instant() < t.instant() ==> !in_window(t, Some(from), Some(to)),
        in_window(t, None, None),
{
}

} // verus!
