//! A map keyed by text, kept in key order, as an ordered map of strings
//! iterates: each key once, keys compared character by character.

use crate::text::{str_chars, str_eq};
use vstd::prelude::*;

verus! {

/// `a` sorts before `b`: the first differing character is smaller, or `a`
/// is a proper prefix of `b` (the order of `str`, since UTF-8 preserves the
/// order of code points).
pub open spec fn str_less(a: Seq<char>, b: Seq<char>) -> bool
    decreases a.len(),
{
    if a.len() == 0 {
        b.len() > 0
    } else if b.len() == 0 {
        false
    } else if a[0] != b[0] {
        a[0] < b[0]
    } else {
        str_less(a.drop_first(), b.drop_first())
    }
}

pub proof fn lemma_str_less_irreflexive(a: Seq<char>)
    ensures
        !str_less(a, a),
    decreases a.len(),
{
    if a.len() > 0 {
        lemma_str_less_irreflexive(a.drop_first());
    }
}

pub proof fn lemma_str_less_transitive(a: Seq<char>, b: Seq<char>, c: Seq<char>)
    requires
        str_less(a, b),
        str_less(b, c),
    ensures
        str_less(a, c),
    decreases a.len(),
{
    if a.len() > 0 && b.len() > 0 && c.len() > 0 && a[0] == b[0] && b[0] == c[0] {
        lemma_str_less_transitive(a.drop_first(), b.drop_first(), c.drop_first());
    }
}

pub proof fn lemma_str_less_total(a: Seq<char>, b: Seq<char>)
    ensures
        a == b || str_less(a, b) || str_less(b, a),
    decreases a.len(),
{
    if a.len() > 0 && b.len() > 0 {
        if a[0] == b[0] {
            lemma_str_less_total(a.drop_first(), b.drop_first());
            if a.drop_first() == b.drop_first() {
                assert(a =~= seq![a[0]] + a.drop_first());
                assert(b =~= seq![b[0]] + b.drop_first());
            }
        }
    } else if a.len() == 0 && b.len() == 0 {
        assert(a =~= b);
    }
}

/// Character-wise comparison of two texts.
pub fn str_less_than(a: &str, b: &str) -> (r: bool)
    ensures
        r == str_less(a@, b@),
{
    let x = str_chars(a);
    let y = str_chars(b);
    let mut i: usize = 0;
    proof {
        assert(x@.skip(0) =~= x@);
        assert(y@.skip(0) =~= y@);
    }
    while i < x.len() && i < y.len()
        invariant
            i <= x@.len(),
            i <= y@.len(),
            x@.take(i as int) == y@.take(i as int),
            str_less(a@, b@) == str_less(x@.skip(i as int), y@.skip(i as int)),
            x@ == a@,
            y@ == b@,
        decreases x.len() - i,
    {
        if x[i] != y[i] {
            return x[i] < y[i];
        }
        proof {
            assert(x@.skip(i as int).drop_first() =~= x@.skip(i + 1));
            assert(y@.skip(i as int).drop_first() =~= y@.skip(i + 1));
            assert(x@.take(i + 1) =~= x@.take(i as int).push(x@[i as int]));
            assert(y@.take(i + 1) =~= y@.take(i as int).push(y@[i as int]));
        }
        i = i + 1;
    }
    i == x.len() && i < y.len()
}

/// The keys are in strictly increasing order (so each occurs once).
pub open spec fn sorted_keys<V>(s: Seq<(Seq<char>, V)>) -> bool {
    forall|i: int, j: int| 0 <= i < j < s.len() ==> str_less(#[trigger] s[i].0, #[trigger] s[j].0)
}

/// Position of key `k`, searching from `i`.
pub open spec fn key_position_from<V>(s: Seq<(Seq<char>, V)>, k: Seq<char>, i: nat) -> Option<nat>
    decreases s.len() - i,
{
    if i >= s.len() {
        None
    } else if s[i as int].0 == k {
        Some(i)
    } else {
        key_position_from(s, k, i + 1)
    }
}

/// The value stored under `k`.
pub open spec fn value_of<V>(s: Seq<(Seq<char>, V)>, k: Seq<char>) -> Option<V> {
    match key_position_from(s, k, 0) {
        Some(i) => Some(s[i as int].1),
        None => None,
    }
}

pub proof fn lemma_key_position_from<V>(s: Seq<(Seq<char>, V)>, k: Seq<char>, i: nat)
    ensures
        key_position_from(s, k, i) matches Some(p) ==> i <= p < s.len() && s[p as int].0 == k && forall|j: int|
            i <= j < p ==> s[j].0 != k,
        key_position_from(s, k, i) is None ==> forall|j: int| i <= j < s.len() ==> s[j].0 != k,
    decreases s.len() - i,
{
    if i < s.len() && s[i as int].0 != k {
        lemma_key_position_from(s, k, i + 1);
    }
}

#[derive(Debug, Clone)]
pub struct StrMap<V> {
    entries: Vec<(String, V)>,
}

pub open spec fn entry_view<V>() -> spec_fn((String, V)) -> (Seq<char>, V) {
    |e: (String, V)| (e.0@, e.1)
}

impl<V> StrMap<V> {
    /// The entries, in key order.
    pub closed spec fn spec_entries(&self) -> Seq<(Seq<char>, V)> {
        self.entries@.map_values(entry_view())
    }

    pub open spec fn wf(&self) -> bool {
        sorted_keys(self.spec_entries())
    }

    pub open spec fn get_spec(&self, k: Seq<char>) -> Option<V> {
        value_of(self.spec_entries(), k)
    }

    pub fn new() -> (m: StrMap<V>)
        ensures
            m.wf(),
            m.spec_entries() == Seq::<(Seq<char>, V)>::empty(),
    {
        let m = StrMap { entries: Vec::new() };
        proof {
            assert(m.spec_entries() =~= Seq::<(Seq<char>, V)>::empty());
        }
        m
    }

    pub fn len(&self) -> (r: usize)
        ensures
            r == self.spec_entries().len(),
    {
        self.entries.len()
    }

    /// The entries, in key order.
    pub fn entries(&self) -> (r: &[(String, V)])
        ensures
            r@.map_values(entry_view()) == self.spec_entries(),
    {
        self.entries.as_slice()
    }

    /// The value stored under `k`, if any.
    pub fn get(&self, k: &str) -> (r: Option<&V>)
        ensures
            match (r, self.get_spec(k@)) {
                (Some(a), Some(b)) => *a == b,
                (None, None) => true,
                _ => false,
            },
    {
        let ghost s = self.spec_entries();
        let mut i: usize = 0;
        while i < self.entries.len()
            invariant
                i <= self.entries@.len(),
                s == self.spec_entries(),
                s == self.entries@.map_values(entry_view()),
                key_position_from(s, k@, 0) == key_position_from(s, k@, i as nat),
            decreases self.entries.len() - i,
        {
            if str_eq(self.entries[i].0.as_str(), k) {
                return Some(&self.entries[i].1);
            }
            i = i + 1;
        }
        None
    }

    /// Bind `k` to `v`, replacing what `k` held: afterwards `k` holds `v`,
    /// every other key holds what it held, and the keys stay in order.
    pub fn insert(&mut self, k: String, v: V)
        requires
            old(self).wf(),
        ensures
            final(self).wf(),
            final(self).get_spec(k@) == Some(v),
            forall|k2: Seq<char>| k2 != k@ ==> final(self).get_spec(k2) == old(self).get_spec(k2),
            final(self).spec_entries().len() == old(self).spec_entries().len() + if old(self).get_spec(k@) is Some {
                0int
            } else {
                1int
            },
    {
        let ghost s = self.spec_entries();
        let ghost kv = k@;
        let mut i: usize = 0;
        while i < self.entries.len() && str_less_than(self.entries[i].0.as_str(), k.as_str())
            invariant
                i <= self.entries@.len(),
                s == self.spec_entries(),
                s == self.entries@.map_values(entry_view()),
                sorted_keys(s),
                kv == k@,
                forall|j: int| 0 <= j < i ==> str_less(#[trigger] s[j].0, kv),
            decreases self.entries.len() - i,
        {
            i = i + 1;
        }
        proof {
            lemma_key_position_from(s, kv, 0);
            assert forall|j: int| 0 <= j < i implies s[j].0 != kv by {
                lemma_str_less_irreflexive(kv);
            }
            if i < s.len() {
                lemma_str_less_total(s[i as int].0, kv);
            }
        }
        if i < self.entries.len() && str_eq(self.entries[i].0.as_str(), k.as_str()) {
            self.entries.set(i, (k, v));
            proof {
                let t = self.spec_entries();
                assert(t =~= s.update(i as int, (kv, v)));
                assert(sorted_keys(t)) by {
                    assert forall|a: int, b: int| 0 <= a < b < t.len() implies str_less(
                        #[trigger] t[a].0,
                        #[trigger] t[b].0,
                    ) by {
                        assert(t[a].0 == s[a].0 && t[b].0 == s[b].0);
                    }
                }
                lemma_sorted_position(s, kv, i as int);
                lemma_sorted_position(t, kv, i as int);
                assert forall|k2: Seq<char>| k2 != kv implies value_of(t, k2) == value_of(s, k2) by {
                    lemma_key_position_from(s, k2, 0);
                    lemma_key_position_from(t, k2, 0);
                    match key_position_from(s, k2, 0) {
                        Some(p) => {
                            lemma_sorted_position(t, k2, p as int);
                        },
                        None => {
                            match key_position_from(t, k2, 0) {
                                Some(q) => {
                                    assert(t[q as int].0 == s[q as int].0);
                                },
                                None => {},
                            }
                        },
                    }
                }
            }
        } else {
            let ghost pair = (k, v);
            self.entries.insert(i, (k, v));
            proof {
                let t = self.spec_entries();
                assert(t =~= s.insert(i as int, (kv, v)));
                assert(sorted_keys(t)) by {
                    assert forall|a: int, b: int| 0 <= a < b < t.len() implies str_less(
                        #[trigger] t[a].0,
                        #[trigger] t[b].0,
                    ) by {
                        if b < i {
                            assert(t[a] == s[a] && t[b] == s[b]);
                        } else if b == i {
                            assert(t[a] == s[a]);
                        } else if a == i {
                            assert(t[b] == s[b - 1]);
                            assert(str_less(kv, s[i as int].0));
                            if b - 1 > i {
                                lemma_str_less_transitive(kv, s[i as int].0, s[b - 1].0);
                            }
                        } else if a < i {
                            assert(t[a] == s[a] && t[b] == s[b - 1]);
                        } else {
                            assert(t[a] == s[a - 1] && t[b] == s[b - 1]);
                        }
                    }
                }
                lemma_sorted_position(t, kv, i as int);
                assert forall|k2: Seq<char>| k2 != kv implies value_of(t, k2) == value_of(s, k2) by {
                    lemma_key_position_from(s, k2, 0);
                    lemma_key_position_from(t, k2, 0);
                    match key_position_from(s, k2, 0) {
                        Some(p) => {
                            if p < i {
                                assert(t[p as int] == s[p as int]);
                                lemma_sorted_position(t, k2, p as int);
                            } else {
                                assert(t[p + 1 as int] == s[p as int]);
                                lemma_sorted_position(t, k2, p + 1 as int);
                            }
                        },
                        None => {
                            match key_position_from(t, k2, 0) {
                                Some(q) => {
                                    if q < i {
                                        assert(t[q as int] == s[q as int]);
                                    } else if q > i {
                                        assert(t[q as int] == s[q - 1]);
                                    }
                                },
                                None => {},
                            }
                        },
                    }
                }
            }
        }
    }
}

/// In a sorted sequence, the entry at `p` is the one found by its key.
pub proof fn lemma_sorted_position<V>(s: Seq<(Seq<char>, V)>, k: Seq<char>, p: int)
    requires
        sorted_keys(s),
        0 <= p < s.len(),
        s[p].0 == k,
    ensures
        key_position_from(s, k, 0) == Some(p as nat),
{
    lemma_key_position_from(s, k, 0);
    match key_position_from(s, k, 0) {
        Some(q) => {
            if (q as int) < p {
                lemma_str_less_irreflexive(k);
            }
        },
        None => {},
    }
}

} // verus!
