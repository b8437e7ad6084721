//! The raw metric mapping: every parsed `name value` line lands here,
//! recognized or not, so that no sample is dropped silently. Keys are
//! unique; inserting an existing key replaces its value (the last
//! occurrence in a payload wins).

use vstd::prelude::*;
use crate::value::MetricValue;
use crate::text::str_eq;

verus! {

/// The map denoted by an association list, later entries overriding
/// earlier ones.
pub open spec fn entries_map(s: Seq<(String, MetricValue)>) -> Map<Seq<char>, MetricValue>
    decreases s.len(),
{
    if s.len() == 0 {
        Map::empty()
    } else {
        entries_map(s.drop_last()).insert(s.last().0@, s.last().1)
    }
}

/// A key is in the map exactly when some entry holds it, and then the
/// map carries the value of the last such entry.
proof fn lemma_entries_map_contains(s: Seq<(String, MetricValue)>, k: Seq<char>)
    ensures
        entries_map(s).contains_key(k) <==> exists|i: int| 0 <= i < s.len() && s[i].0@ == k,
    decreases s.len(),
{
    if s.len() > 0 {
        lemma_entries_map_contains(s.drop_last(), k);
        if entries_map(s).contains_key(k) {
            if s.last().0@ == k {
                assert(s[s.len() - 1].0@ == k);
            } else {
                let i = choose|i: int| 0 <= i < s.drop_last().len() && s.drop_last()[i].0@ == k;
                assert(s[i].0@ == k);
            }
        }
        if exists|i: int| 0 <= i < s.len() && s[i].0@ == k {
            let i = choose|i: int| 0 <= i < s.len() && s[i].0@ == k;
            if i < s.len() - 1 {
                assert(s.drop_last()[i].0@ == k);
            }
        }
    }
}

/// With unique keys, the entry holding a key determines its mapped value.
proof fn lemma_entries_map_value(s: Seq<(String, MetricValue)>, i: int)
    requires
        0 <= i < s.len(),
        forall|a: int, b: int| 0 <= a < b < s.len() ==> s[a].0@ != s[b].0@,
    ensures
        entries_map(s).contains_key(s[i].0@),
        entries_map(s)[s[i].0@] == s[i].1,
    decreases s.len(),
{
    lemma_entries_map_contains(s, s[i].0@);
    if i < s.len() - 1 {
        assert(s.last().0@ != s[i].0@);
        assert(s.drop_last()[i] == s[i]);
        lemma_entries_map_value(s.drop_last(), i);
    }
}

/// Replacing the value at an entry is inserting over its key.
proof fn lemma_entries_map_update(s: Seq<(String, MetricValue)>, i: int, p: (String, MetricValue))
    requires
        0 <= i < s.len(),
        forall|a: int, b: int| 0 <= a < b < s.len() ==> s[a].0@ != s[b].0@,
        p.0@ == s[i].0@,
    ensures
        entries_map(s.update(i, p)) == entries_map(s).insert(p.0@, p.1),
    decreases s.len(),
{
    let t = s.update(i, p);
    if i == s.len() - 1 {
        assert(t.drop_last() =~= s.drop_last());
        assert(t.last() == p);
        assert(entries_map(t) == entries_map(s.drop_last()).insert(p.0@, p.1));
        assert(entries_map(s) == entries_map(s.drop_last()).insert(s[i].0@, s[i].1));
        assert(entries_map(s).insert(p.0@, p.1)
            =~= entries_map(s.drop_last()).insert(p.0@, p.1));
    } else {
        assert(t.drop_last() =~= s.drop_last().update(i, p));
        assert(t.last() == s.last());
        lemma_entries_map_update(s.drop_last(), i, p);
        assert(entries_map(t)
            == entries_map(s.drop_last()).insert(p.0@, p.1).insert(s.last().0@, s.last().1));
        assert(s.last().0@ != p.0@) by {
            assert(s[i].0@ != s[s.len() - 1].0@);
        }
        assert(entries_map(s.drop_last()).insert(p.0@, p.1).insert(s.last().0@, s.last().1)
            =~= entries_map(s.drop_last()).insert(s.last().0@, s.last().1).insert(p.0@, p.1));
    }
}

/// The raw name-to-value mapping parsed from a metrics payload.
#[derive(Debug, Clone)]
pub struct RawMetrics {
    entries: Vec<(String, MetricValue)>,
}

impl View for RawMetrics {
    type V = Map<Seq<char>, MetricValue>;

    closed spec fn view(&self) -> Map<Seq<char>, MetricValue> {
        entries_map(self.entries@)
    }
}

impl RawMetrics {
    /// Keys are unique.
    pub closed spec fn wf(&self) -> bool {
        forall|a: int, b: int| 0 <= a < b < self.entries@.len()
            ==> self.entries@[a].0@ != self.entries@[b].0@
    }

    /// An empty mapping.
    pub fn new() -> (r: Self)
        ensures
            r.wf(),
            r@ == Map::<Seq<char>, MetricValue>::empty(),
    {
        RawMetrics { entries: Vec::new() }
    }

    /// The number of distinct metric names held.
    pub fn len(&self) -> (r: usize)
        requires
            self.wf(),
        ensures
            r == self@.dom().len(),
    {
        proof {
            lemma_entries_map_len(self.entries@);
        }
        self.entries.len()
    }

    /// Insert a name-value pair, replacing any value the name already has.
    pub fn insert(&mut self, name: String, value: MetricValue)
        requires
            old(self).wf(),
        ensures
            final(self).wf(),
            final(self)@ == old(self)@.insert(name@, value),
    {
        let n = self.entries.len();
        let mut k: usize = 0;
        while k < n
            invariant
                0 <= k <= n,
                n == self.entries@.len(),
                self == old(self),
                old(self).wf(),
                forall|i: int| 0 <= i < k ==> self.entries@[i].0@ != name@,
            decreases n - k,
        {
            if str_eq(self.entries[k].0.as_str(), name.as_str()) {
                proof {
                    lemma_entries_map_update(self.entries@, k as int, (name, value));
                }
                let p = &mut self.entries[k];
                // hold the pair together so the update lemma applies
                *p = (name, value);
                proof {
                    let es = self.entries@;
                    let old_es = old(self).entries@;
                    assert(es =~= old_es.update(k as int, (name, value)));
                    assert forall|a: int, b: int| 0 <= a < b < es.len()
                        implies es[a].0@ != es[b].0@ by {
                        if a != k as int && b != k as int {
                            assert(es[a] == old_es[a] && es[b] == old_es[b]);
                        } else if a == k as int {
                            assert(es[a].0@ == old_es[a].0@ && es[b] == old_es[b]);
                        } else {
                            assert(es[b].0@ == old_es[b].0@ && es[a] == old_es[a]);
                        }
                    };
                }
                return;
            }
            k = k + 1;
        }
        proof {
            lemma_entries_map_contains(self.entries@, name@);
        }
        self.entries.push((name, value));
        proof {
            assert(final(self).entries@.drop_last() =~= old(self).entries@);
            assert(final(self).wf()) by {
                assert(forall|i: int| 0 <= i < old(self).entries@.len()
                    ==> old(self).entries@[i].0@ != name@);
            }
        }
    }

    /// Look a metric name up.
    pub fn get(&self, name: &str) -> (r: Option<MetricValue>)
        requires
            self.wf(),
        ensures
            r == if self@.contains_key(name@) {
                Some(self@[name@])
            } else {
                None::<MetricValue>
            },
    {
        let n = self.entries.len();
        let mut k: usize = 0;
        while k < n
            invariant
                0 <= k <= n,
                n == self.entries@.len(),
                self.wf(),
                forall|i: int| 0 <= i < k ==> self.entries@[i].0@ != name@,
            decreases n - k,
        {
            if str_eq(self.entries[k].0.as_str(), name) {
                proof {
                    lemma_entries_map_value(self.entries@, k as int);
                }
                return Some(self.entries[k].1);
            }
            k = k + 1;
        }
        proof {
            lemma_entries_map_contains(self.entries@, name@);
        }
        None
    }

    /// Whether any metric name starts with the given prefix.
    pub fn any_key_starts_with(&self, prefix: &str) -> (r: bool)
        requires
            self.wf(),
        ensures
            r == exists|k: Seq<char>| self@.contains_key(k) && k.len() >= prefix@.len()
                && k.take(prefix@.len() as int) == prefix@,
    {
        let n = self.entries.len();
        let mut k: usize = 0;
        while k < n
            invariant
                0 <= k <= n,
                n == self.entries@.len(),
                self.wf(),
                forall|i: int| 0 <= i < k ==> !(self.entries@[i].0@.len() >= prefix@.len()
                    && self.entries@[i].0@.take(prefix@.len() as int) == prefix@),
            decreases n - k,
        {
            if str_starts_with(self.entries[k].0.as_str(), prefix) {
                proof {
                    lemma_entries_map_value(self.entries@, k as int);
                    let key = self.entries@[k as int].0@;
                    assert(self@.contains_key(key) && key.len() >= prefix@.len()
                        && key.take(prefix@.len() as int) == prefix@);
                }
                return true;
            }
            k = k + 1;
        }
        proof {
            assert forall|key: Seq<char>| self@.contains_key(key) implies
                !(key.len() >= prefix@.len() && key.take(prefix@.len() as int) == prefix@) by {
                lemma_entries_map_contains(self.entries@, key);
                let i = choose|i: int| 0 <= i < self.entries@.len()
                    && self.entries@[i].0@ == key;
                assert(!(self.entries@[i].0@.len() >= prefix@.len()
                    && self.entries@[i].0@.take(prefix@.len() as int) == prefix@));
            }
        }
        false
    }

    /// The held entries, for read-only traversal.
    pub fn entries(&self) -> (r: &Vec<(String, MetricValue)>)
        ensures
            entries_map(r@) == self@,
    {
        &self.entries
    }
}

/// With unique keys, the map's domain is as large as the entry list.
proof fn lemma_entries_map_len(s: Seq<(String, MetricValue)>)
    requires
        forall|a: int, b: int| 0 <= a < b < s.len() ==> s[a].0@ != s[b].0@,
    ensures
        entries_map(s).dom().len() == s.len(),
        entries_map(s).dom().finite(),
    decreases s.len(),
{
    if s.len() > 0 {
        lemma_entries_map_len(s.drop_last());
        lemma_entries_map_contains(s.drop_last(), s.last().0@);
        assert(!entries_map(s.drop_last()).contains_key(s.last().0@)) by {
            if entries_map(s.drop_last()).contains_key(s.last().0@) {
                let i = choose|i: int| 0 <= i < s.drop_last().len()
                    && s.drop_last()[i].0@ == s.last().0@;
                assert(s[i].0@ == s[s.len() - 1].0@);
            }
        }
        assert(entries_map(s).dom() =~= entries_map(s.drop_last()).dom().insert(s.last().0@));
        vstd::set::axiom_set_insert_len(entries_map(s.drop_last()).dom(), s.last().0@);
    }
}

/// Whether `a` starts with `b`.
pub fn str_starts_with(a: &str, b: &str) -> (r: bool)
    ensures
        r == (a@.len() >= b@.len() && a@.take(b@.len() as int) == b@),
{
    let av = crate::text::chars_of(a);
    let bv = crate::text::chars_of(b);
    if av.len() < bv.len() {
        return false;
    }
    let mut k: usize = 0;
    while k < bv.len()
        invariant
            0 <= k <= bv@.len() <= av@.len(),
            av@ == a@,
            bv@ == b@,
            forall|i: int| 0 <= i < k ==> av@[i] == bv@[i],
        decreases bv@.len() - k,
    {
        if av[k] != bv[k] {
            proof {
                assert(a@.take(b@.len() as int)[k as int] != b@[k as int]);
            }
            return false;
        }
        k = k + 1;
    }
    proof {
        assert(a@.take(b@.len() as int) =~= b@);
    }
    true
}

} // verus!
