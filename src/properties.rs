use vstd::prelude::*;
use crate::text::text_eq;

verus! {

/// The map that a list of key/value entries stands for: a later entry for a
/// key overrides an earlier one.
pub open spec fn entries_map(s: Seq<(String, String)>) -> Map<Seq<char>, Seq<char>>
    decreases s.len(),
{
    if s.len() == 0 {
        Map::empty()
    } else {
        entries_map(s.drop_last()).insert(s.last().0@, s.last().1@)
    }
}

/// A string-to-string property map, kept as a list of entries with at most
/// one entry per key when it is only changed through `insert`.
#[derive(Clone, Debug)]
pub struct Properties {
    pub entries: Vec<(String, String)>,
}

impl View for Properties {
    type V = Map<Seq<char>, Seq<char>>;

    open spec fn view(&self) -> Map<Seq<char>, Seq<char>> {
        entries_map(self.entries@)
    }
}

/// A key is in the map exactly when some entry carries it.
pub proof fn lemma_entries_domain(s: Seq<(String, String)>, k: Seq<char>)
    ensures
        entries_map(s).contains_key(k) <==> exists|i: int| 0 <= i < s.len() && #[trigger] s[i].0@ == k,
    decreases s.len(),
{
    if s.len() > 0 {
        lemma_entries_domain(s.drop_last(), k);
        if entries_map(s.drop_last()).contains_key(k) {
            let i = choose|i: int| 0 <= i < s.drop_last().len() && #[trigger] s.drop_last()[i].0@ == k;
            assert(s[i].0@ == k);
        }
        if exists|i: int| 0 <= i < s.len() && #[trigger] s[i].0@ == k {
            let i = choose|i: int| 0 <= i < s.len() && #[trigger] s[i].0@ == k;
            if i < s.len() - 1 {
                assert(s.drop_last()[i].0@ == k);
            }
        }
    }
}

/// Entries after position `n` that do not carry `k` leave its value as the
/// first `n` entries give it.
proof fn lemma_entries_suffix_free(s: Seq<(String, String)>, n: int, k: Seq<char>)
    requires
        0 <= n <= s.len(),
        forall|j: int| n <= j < s.len() ==> #[trigger] s[j].0@ != k,
    ensures
        entries_map(s).contains_key(k) == entries_map(s.take(n)).contains_key(k),
        entries_map(s).contains_key(k) ==> entries_map(s)[k] == entries_map(s.take(n))[k],
    decreases s.len(),
{
    if s.len() > n {
        assert(s.drop_last().take(n) =~= s.take(n));
        lemma_entries_suffix_free(s.drop_last(), n, k);
    } else {
        assert(s.take(n) =~= s);
    }
}

/// Replacing every entry for `k` by `(k, v)` sets `k` to `v` in the map.
proof fn lemma_entries_replace(
    s: Seq<(String, String)>,
    t: Seq<(String, String)>,
    k: Seq<char>,
    v: Seq<char>,
)
    requires
        s.len() == t.len(),
        forall|j: int|
            0 <= j < s.len() ==> if (#[trigger] s[j]).0@ == k {
                t[j].0@ == k && t[j].1@ == v
            } else {
                t[j] == s[j]
            },
        exists|j: int| 0 <= j < s.len() && #[trigger] s[j].0@ == k,
    ensures
        entries_map(t) == entries_map(s).insert(k, v),
    decreases s.len(),
{
    let n = s.len() - 1;
    assert(s[n] == s.last());
    assert(t[n] == t.last());
    if s.last().0@ == k {
        if exists|j: int| 0 <= j < n && #[trigger] s.drop_last()[j].0@ == k {
            lemma_entries_replace(s.drop_last(), t.drop_last(), k, v);
        } else {
            assert forall|j: int| 0 <= j < n implies #[trigger] t.drop_last()[j] == s.drop_last()[j] by {
                assert(s[j] == s.drop_last()[j]);
                assert(t[j] == t.drop_last()[j]);
            }
            assert(t.drop_last() =~= s.drop_last());
        }
        assert(entries_map(t) =~= entries_map(s).insert(k, v));
    } else {
        assert(exists|j: int| 0 <= j < n && #[trigger] s.drop_last()[j].0@ == k) by {
            let j = choose|j: int| 0 <= j < s.len() && #[trigger] s[j].0@ == k;
            assert(s.drop_last()[j].0@ == k);
        }
        assert forall|j: int| 0 <= j < n implies if (#[trigger] s.drop_last()[j]).0@ == k {
            t.drop_last()[j].0@ == k && t.drop_last()[j].1@ == v
        } else {
            t.drop_last()[j] == s.drop_last()[j]
        } by {
            assert(s[j] == s.drop_last()[j]);
            assert(t[j] == t.drop_last()[j]);
        }
        lemma_entries_replace(s.drop_last(), t.drop_last(), k, v);
        assert(entries_map(t) =~= entries_map(s).insert(k, v));
    }
}

/// Two entry lists with equal keys and values position by position stand for
/// the same map.
proof fn lemma_entries_same_views(s: Seq<(String, String)>, t: Seq<(String, String)>)
    requires
        s.len() == t.len(),
        forall|j: int| 0 <= j < s.len() ==> (#[trigger] s[j]).0@ == t[j].0@ && s[j].1@ == t[j].1@,
    ensures
        entries_map(s) == entries_map(t),
    decreases s.len(),
{
    if s.len() > 0 {
        assert forall|j: int| 0 <= j < s.len() - 1 implies (#[trigger] s.drop_last()[j]).0@
            == t.drop_last()[j].0@ && s.drop_last()[j].1@ == t.drop_last()[j].1@ by {
            assert(s[j] == s.drop_last()[j]);
            assert(t[j] == t.drop_last()[j]);
        }
        lemma_entries_same_views(s.drop_last(), t.drop_last());
        assert(s[s.len() - 1] == s.last());
        assert(t[t.len() - 1] == t.last());
    }
}

impl Properties {
    pub fn new() -> (r: Properties)
        ensures
            r@ == Map::<Seq<char>, Seq<char>>::empty(),
    {
        Properties { entries: Vec::new() }
    }

    pub fn len(&self) -> (r: usize)
        ensures
            r == self.entries@.len(),
    {
        self.entries.len()
    }

    /// The value stored for `key`, if any.
    pub fn get(&self, key: &str) -> (r: Option<&String>)
        ensures
            match r {
                Some(v) => self@.contains_key(key@) && self@[key@] == v@,
                None => !self@.contains_key(key@),
            },
    {
        let s = Ghost(self.entries@);
        let mut i: usize = self.entries.len();
        while i > 0
            invariant
                s@ == self.entries@,
                i <= s@.len(),
                forall|j: int| i <= j < s@.len() ==> #[trigger] s@[j].0@ != key@,
            decreases i,
        {
            let e = &self.entries[i - 1];
            if text_eq(e.0.as_str(), key) {
                proof {
                    lemma_entries_suffix_free(s@, i as int, key@);
                    assert(s@.take(i as int).drop_last() =~= s@.take(i - 1));
                    assert(s@.take(i as int).last() == s@[i - 1]);
                }
                return Some(&e.1);
            }
            i = i - 1;
        }
        proof {
            lemma_entries_domain(s@, key@);
        }
        None
    }

    /// Sets `key` to `value`, replacing the value it had.
    pub fn insert(&mut self, key: String, value: String)
        ensures
            final(self)@ == old(self)@.insert(key@, value@),
    {
        let ghost s = self.entries@;
        let mut found = false;
        let mut i: usize = 0;
        let n = self.entries.len();
        while i < n
            invariant
                n == s.len(),
                self.entries@.len() == n,
                i <= n,
                found <==> exists|j: int| 0 <= j < i && #[trigger] s[j].0@ == key@,
                forall|j: int|
                    0 <= j < i ==> if (#[trigger] s[j]).0@ == key@ {
                        self.entries@[j].0@ == key@ && self.entries@[j].1@ == value@
                    } else {
                        self.entries@[j] == s[j]
                    },
                forall|j: int| i <= j < n ==> #[trigger] self.entries@[j] == s[j],
            decreases n - i,
        {
            if text_eq(self.entries[i].0.as_str(), key.as_str()) {
                let k = self.entries[i].0.clone();
                self.entries.set(i, (k, value.clone()));
                found = true;
            }
            i = i + 1;
        }
        if found {
            proof {
                lemma_entries_replace(s, self.entries@, key@, value@);
            }
        } else {
            proof {
                assert(self.entries@ =~= s);
            }
            self.entries.push((key, value));
            proof {
                assert(self.entries@.drop_last() =~= s);
            }
        }
    }

    /// Sets every key of `other` to its value there, keeping the other keys.
    pub fn merge(&mut self, other: &Properties)
        ensures
            final(self)@ == old(self)@.union_prefer_right(other@),
    {
        let ghost start = self@;
        let mut i: usize = 0;
        while i < other.entries.len()
            invariant
                i <= other.entries@.len(),
                self@ == start.union_prefer_right(entries_map(other.entries@.take(i as int))),
            decreases other.entries@.len() - i,
        {
            let e = &other.entries[i];
            let ghost before = self@;
            self.insert(e.0.clone(), e.1.clone());
            proof {
                let s = other.entries@;
                assert(s.take(i + 1).drop_last() =~= s.take(i as int));
                assert(s.take(i + 1).last() == s[i as int]);
                assert(self@ =~= start.union_prefer_right(entries_map(s.take(i + 1))));
            }
            i = i + 1;
        }
        proof {
            assert(other.entries@.take(i as int) =~= other.entries@);
        }
    }

    /// A copy holding the same entries.
    pub fn duplicate(&self) -> (r: Properties)
        ensures
            r@ == self@,
            r.entries@.len() == self.entries@.len(),
    {
        let mut out: Vec<(String, String)> = Vec::new();
        let mut i: usize = 0;
        while i < self.entries.len()
            invariant
                i <= self.entries@.len(),
                out@.len() == i,
                forall|j: int| 0 <= j < i ==> (#[trigger] out@[j]).0@ == self.entries@[j].0@
                    && out@[j].1@ == self.entries@[j].1@,
            decreases self.entries@.len() - i,
        {
            let e = &self.entries[i];
            out.push((e.0.clone(), e.1.clone()));
            i = i + 1;
        }
        proof {
            lemma_entries_same_views(out@, self.entries@);
        }
        Properties { entries: out }
    }

    /// Whether both hold the same keys with the same values.
    pub fn same_as(&self, other: &Properties) -> (r: bool)
        ensures
            r == (self@ == other@),
    {
        let mut i: usize = 0;
        while i < self.entries.len()
            invariant
                i <= self.entries@.len(),
                forall|j: int| 0 <= j < i ==> {
                    let k = (#[trigger] self.entries@[j]).0@;
                    self@.contains_key(k) && other@.contains_key(k) && other@[k] == self@[k]
                },
            decreases self.entries@.len() - i,
        {
            let k = self.entries[i].0.as_str();
            proof {
                lemma_entries_domain(self.entries@, k@);
            }
            match (self.get(k), other.get(k)) {
                (Some(a), Some(b)) => {
                    if !text_eq(a.as_str(), b.as_str()) {
                        return false;
                    }
                },
                _ => {
                    return false;
                },
            }
            i = i + 1;
        }
        let mut i: usize = 0;
        while i < other.entries.len()
            invariant
                i <= other.entries@.len(),
                forall|j: int| 0 <= j < self.entries@.len() ==> {
                    let k = (#[trigger] self.entries@[j]).0@;
                    self@.contains_key(k) && other@.contains_key(k) && other@[k] == self@[k]
                },
                forall|j: int| 0 <= j < i ==> self@.contains_key((#[trigger] other.entries@[j]).0@),
            decreases other.entries@.len() - i,
        {
            let k = other.entries[i].0.as_str();
            proof {
                lemma_entries_domain(other.entries@, k@);
            }
            if self.get(k).is_none() {
                return false;
            }
            i = i + 1;
        }
        proof {
            assert forall|k: Seq<char>| #[trigger] self@.contains_key(k) implies other@.contains_key(k)
                && other@[k] == self@[k] by {
                lemma_entries_domain(self.entries@, k);
                let j = choose|j: int| 0 <= j < self.entries@.len() && #[trigger] self.entries@[j].0@ == k;
                assert(self.entries@[j].0@ == k);
            }
            assert forall|k: Seq<char>| #[trigger] other@.contains_key(k) implies self@.contains_key(k) by {
                lemma_entries_domain(other.entries@, k);
                let j = choose|j: int| 0 <= j < other.entries@.len() && #[trigger] other.entries@[j].0@ == k;
                assert(other.entries@[j].0@ == k);
            }
            assert(self@ =~= other@);
        }
        true
    }
}

} // verus!
