//! The field map: the ordered set of named values extracted from one
//! successfully matched line.  Entries are kept strictly sorted by key, so
//! keys are unique and iteration order is deterministic; inserting an
//! existing key replaces its value (last write wins).

use vstd::prelude::*;
use crate::text::{lex_lt, lemma_lex_trans, lemma_lex_trichotomy, str_cmp};

verus! {

/// Entries sorted strictly ascending by key: every key is smaller than the
/// next one.
pub open spec fn sorted_entries(s: Seq<(Seq<char>, Seq<char>)>) -> bool {
    forall|i: int| 0 <= i < s.len() - 1 ==> lex_lt(#[trigger] s[i].0, s[i + 1].0)
}

/// Where an insertion of `k` lands in a sorted entry sequence: before the
/// first entry whose key is not smaller than `k`, replacing it when the
/// keys are equal.
pub open spec fn spec_insert(
    s: Seq<(Seq<char>, Seq<char>)>,
    k: Seq<char>,
    v: Seq<char>,
) -> Seq<(Seq<char>, Seq<char>)>
    decreases s.len(),
{
    if s.len() == 0 {
        seq![(k, v)]
    } else if lex_lt(k, s[0].0) {
        seq![(k, v)] + s
    } else if k == s[0].0 {
        seq![(k, v)] + s.skip(1)
    } else {
        seq![s[0]] + spec_insert(s.skip(1), k, v)
    }
}

/// The value bound to `k`, scanning front to back.
pub open spec fn spec_lookup(s: Seq<(Seq<char>, Seq<char>)>, k: Seq<char>) -> Option<Seq<char>>
    decreases s.len(),
{
    if s.len() == 0 {
        None
    } else if s[0].0 == k {
        Some(s[0].1)
    } else {
        spec_lookup(s.skip(1), k)
    }
}

/// Sorted order survives an insertion.
pub proof fn lemma_insert_sorted(s: Seq<(Seq<char>, Seq<char>)>, k: Seq<char>, v: Seq<char>)
    requires
        sorted_entries(s),
    ensures
        sorted_entries(spec_insert(s, k, v)),
    decreases s.len(),
{
    let r = spec_insert(s, k, v);
    if s.len() == 0 {
    } else if lex_lt(k, s[0].0) {
        assert(forall|i: int| 0 <= i < s.len() ==> #[trigger] r[i + 1] == s[i]);
    } else if k == s[0].0 {
        assert(forall|i: int| 0 <= i < s.len() - 1 ==> #[trigger] r[i + 1] == s[i + 1]);
        if s.len() > 1 {
            assert(lex_lt(s[0].0, s[1].0));
        }
    } else {
        lemma_lex_trichotomy(k, s[0].0);
        assert(sorted_entries(s.skip(1))) by {
            assert(forall|i: int|
                0 <= i < s.skip(1).len() - 1 ==> #[trigger] s.skip(1)[i] == s[i + 1] && s.skip(1)[i + 1]
                    == s[i + 2]);
        }
        lemma_insert_sorted(s.skip(1), k, v);
        let inner = spec_insert(s.skip(1), k, v);
        // The head of the inner insertion is either (k, v) or the old second
        // entry; the old head is smaller than both.
        assert(inner.len() > 0);
        if s.len() > 1 {
            assert(s.skip(1)[0] == s[1]);
        }
        assert(lex_lt(s[0].0, inner[0].0));
        assert(forall|i: int| 0 <= i < inner.len() ==> #[trigger] r[i + 1] == inner[i]);
        assert(forall|i: int| 0 <= i < r.len() - 1 ==> lex_lt(#[trigger] r[i].0, r[i + 1].0)) by {
            assert(forall|i: int|
                1 <= i < r.len() - 1 ==> #[trigger] r[i] == inner[i - 1] && r[i + 1] == inner[i]);
        }
    }
}

/// Inserting binds `k` to `v` and leaves every other key unchanged.
pub proof fn lemma_insert_lookup(
    s: Seq<(Seq<char>, Seq<char>)>,
    k: Seq<char>,
    v: Seq<char>,
    q: Seq<char>,
)
    ensures
        spec_lookup(spec_insert(s, k, v), q) == if q == k {
            Some(v)
        } else {
            spec_lookup(s, q)
        },
    decreases s.len(),
{
    reveal_with_fuel(spec_lookup, 3);
    let r = spec_insert(s, k, v);
    if s.len() == 0 {
        assert(r[0] == (k, v));
        assert(r.skip(1) =~= Seq::<(Seq<char>, Seq<char>)>::empty());
    } else if lex_lt(k, s[0].0) {
        lemma_lex_trichotomy(k, s[0].0);
        assert(r[0] == (k, v));
        assert(r.skip(1) =~= s);
    } else if k == s[0].0 {
        assert(r[0] == (k, v));
        assert(r.skip(1) =~= s.skip(1));
    } else {
        lemma_lex_trichotomy(k, s[0].0);
        assert(r[0] == s[0]);
        assert(r.skip(1) =~= spec_insert(s.skip(1), k, v));
        lemma_insert_lookup(s.skip(1), k, v, q);
    }
}

/// An ordered collection of (name, value) pairs with unique keys, ordered
/// by name ascending.
#[derive(Debug)]
pub struct FieldMap {
    entries: Vec<(String, String)>,
}

impl FieldMap {
    /// The (key, value) views in storage order: the map's one model.
    pub closed spec fn view_seq(self) -> Seq<(Seq<char>, Seq<char>)> {
        self.entries@.map_values(|e: (String, String)| (e.0@, e.1@))
    }

    /// Keys strictly ascending, hence unique.
    pub open spec fn wf(self) -> bool {
        sorted_entries(self.view_seq())
    }

    pub fn new() -> (r: FieldMap)
        ensures
            r.wf(),
            r.view_seq() =~= Seq::<(Seq<char>, Seq<char>)>::empty(),
    {
        FieldMap { entries: Vec::new() }
    }

    pub fn len(&self) -> (r: usize)
        ensures
            r == self.view_seq().len(),
    {
        self.entries.len()
    }

    /// The key of the entry at one position.
    pub fn key_at(&self, i: usize) -> (r: &String)
        requires
            i < self.view_seq().len(),
        ensures
            r@ == self.view_seq()[i as int].0,
    {
        &self.entries[i].0
    }

    /// The value of the entry at one position.
    pub fn value_at(&self, i: usize) -> (r: &String)
        requires
            i < self.view_seq().len(),
        ensures
            r@ == self.view_seq()[i as int].1,
    {
        &self.entries[i].1
    }

    /// Binds `k` to `v`, replacing any earlier binding of `k` and keeping
    /// the entries sorted.
    pub fn insert(&mut self, k: String, v: String)
        requires
            old(self).wf(),
        ensures
            final(self).wf(),
            final(self).view_seq() == spec_insert(old(self).view_seq(), k@, v@),
    {
        let ghost s0 = self.view_seq();
        let mut idx: usize = 0;
        while idx < self.entries.len() && str_cmp(self.entries[idx].0.as_str(), k.as_str()) == 0
            invariant
                idx <= self.entries.len(),
                self == old(self),
                s0 == self.view_seq(),
                s0.len() == self.entries.len(),
                forall|j: int| 0 <= j < idx ==> lex_lt(#[trigger] s0[j].0, k@),
            decreases self.entries.len() - idx,
        {
            proof {
                assert(s0[idx as int].0 == self.entries@[idx as int].0@);
            }
            idx = idx + 1;
        }
        proof {
            if idx < self.entries.len() {
                assert(s0[idx as int].0 == self.entries@[idx as int].0@);
            }
            lemma_spec_insert_at(s0, k@, v@, idx as int);
            lemma_insert_sorted(s0, k@, v@);
        }
        if idx < self.entries.len() && str_cmp(self.entries[idx].0.as_str(), k.as_str()) == 1 {
            self.entries.remove(idx);
            self.entries.insert(idx, (k, v));
            proof {
                assert(final(self).view_seq() =~= s0.subrange(0, idx as int) + seq![(k@, v@)]
                    + s0.skip(idx as int + 1));
            }
        } else {
            self.entries.insert(idx, (k, v));
            proof {
                if idx < s0.len() {
                    lemma_lex_trichotomy(s0[idx as int].0, k@);
                }
                assert(final(self).view_seq() =~= s0.subrange(0, idx as int) + seq![(k@, v@)]
                    + s0.skip(idx as int));
            }
        }
    }

    /// Looks a key up.
    pub fn get<'a>(&'a self, k: &str) -> (r: Option<&'a String>)
        ensures
            match r {
                Some(v) => spec_lookup(self.view_seq(), k@) == Some(v@),
                None => spec_lookup(self.view_seq(), k@) is None,
            },
    {
        let ghost s = self.view_seq();
        let mut i: usize = 0;
        proof {
            assert(s.skip(0) =~= s);
        }
        while i < self.entries.len()
            invariant
                i <= self.entries.len(),
                s == self.view_seq(),
                s.len() == self.entries.len(),
                spec_lookup(s, k@) == spec_lookup(s.skip(i as int), k@),
            decreases self.entries.len() - i,
        {
            proof {
                assert(s.skip(i as int)[0] == s[i as int]);
                assert(s.skip(i as int).skip(1) =~= s.skip(i as int + 1));
            }
            if str_cmp(self.entries[i].0.as_str(), k) == 1 {
                return Some(&self.entries[i].1);
            }
            i = i + 1;
        }
        proof {
            assert(s.skip(i as int).len() == 0);
        }
        None
    }

    /// A fresh copy of all keys, in ascending order.
    pub fn keys(&self) -> (r: Vec<String>)
        ensures
            r@.len() == self.view_seq().len(),
            forall|i: int| 0 <= i < r@.len() ==> r@[i]@ == self.view_seq()[i].0,
    {
        let mut out: Vec<String> = Vec::new();
        let mut i: usize = 0;
        while i < self.entries.len()
            invariant
                i <= self.entries.len(),
                out@.len() == i,
                forall|j: int| 0 <= j < i ==> out@[j]@ == self.view_seq()[j].0,
            decreases self.entries.len() - i,
        {
            out.push(self.entries[i].0.clone());
            i = i + 1;
        }
        out
    }

    /// Builds a map from capture pairs, front to back, later pairs
    /// overwriting earlier ones with the same name.
    pub fn from_pairs(pairs: &Vec<(String, String)>) -> (r: FieldMap)
        ensures
            r.wf(),
            r.view_seq() == spec_from_pairs(pair_views(pairs@)),
    {
        let ghost ps = pair_views(pairs@);
        let mut m = FieldMap::new();
        let mut i: usize = 0;
        proof {
            assert(ps.take(0) =~= Seq::<(Seq<char>, Seq<char>)>::empty());
        }
        while i < pairs.len()
            invariant
                i <= pairs.len(),
                ps == pairs@.map_values(|e: (String, String)| (e.0@, e.1@)),
                m.wf(),
                m.view_seq() == spec_from_pairs(ps.take(i as int)),
            decreases pairs.len() - i,
        {
            let k = pairs[i].0.clone();
            let v = pairs[i].1.clone();
            m.insert(k, v);
            proof {
                assert(ps.take(i as int + 1).drop_last() =~= ps.take(i as int));
                assert(ps.take(i as int + 1).last() == ps[i as int]);
            }
            i = i + 1;
        }
        proof {
            assert(ps.take(ps.len() as int) =~= ps);
        }
        m
    }
}

/// The views of a sequence of owned pairs.
pub open spec fn pair_views(ps: Seq<(String, String)>) -> Seq<(Seq<char>, Seq<char>)> {
    ps.map_values(|e: (String, String)| (e.0@, e.1@))
}

/// The map that results from inserting a pair sequence front to back into
/// an empty map.
pub open spec fn spec_from_pairs(ps: Seq<(Seq<char>, Seq<char>)>) -> Seq<(Seq<char>, Seq<char>)>
    decreases ps.len(),
{
    if ps.len() == 0 {
        Seq::empty()
    } else {
        spec_insert(spec_from_pairs(ps.drop_last()), ps.last().0, ps.last().1)
    }
}

/// In a sorted entry sequence every earlier key is smaller than every
/// later one, not only than its neighbour.
pub proof fn lemma_sorted_chain(s: Seq<(Seq<char>, Seq<char>)>, i: int, j: int)
    requires
        sorted_entries(s),
        0 <= i < j < s.len(),
    ensures
        lex_lt(s[i].0, s[j].0),
    decreases j - i,
{
    if j == i + 1 {
    } else {
        lemma_sorted_chain(s, i, j - 1);
        assert(lex_lt(s[j - 1].0, s[j].0));
        lemma_lex_trans(s[i].0, s[j - 1].0, s[j].0);
    }
}

/// Inserting a key larger than every present key appends at the end.
proof fn lemma_insert_at_end(s: Seq<(Seq<char>, Seq<char>)>, k: Seq<char>, v: Seq<char>)
    requires
        forall|i: int| 0 <= i < s.len() ==> lex_lt(#[trigger] s[i].0, k),
    ensures
        spec_insert(s, k, v) == s.push((k, v)),
    decreases s.len(),
{
    if s.len() == 0 {
        assert(spec_insert(s, k, v) =~= s.push((k, v)));
    } else {
        lemma_lex_trichotomy(k, s[0].0);
        let t = s.skip(1);
        assert(forall|i: int| 0 <= i < t.len() ==> #[trigger] t[i] == s[i + 1]);
        lemma_insert_at_end(t, k, v);
        assert(spec_insert(s, k, v) == seq![s[0]] + t.push((k, v)));
        assert(seq![s[0]] + t.push((k, v)) =~= s.push((k, v)));
    }
}

/// Inserting already-sorted unique pairs front to back reproduces them:
/// building a map from its own entries changes nothing.
pub proof fn lemma_from_pairs_sorted(s: Seq<(Seq<char>, Seq<char>)>)
    requires
        sorted_entries(s),
    ensures
        spec_from_pairs(s) == s,
    decreases s.len(),
{
    if s.len() > 0 {
        let d = s.drop_last();
        assert(sorted_entries(d)) by {
            assert(forall|i: int| 0 <= i < d.len() ==> #[trigger] d[i] == s[i]);
        }
        lemma_from_pairs_sorted(d);
        assert forall|i: int| 0 <= i < d.len() implies lex_lt(#[trigger] d[i].0, s.last().0) by {
            lemma_sorted_chain(s, i, s.len() - 1);
        }
        lemma_insert_at_end(d, s.last().0, s.last().1);
        assert(d.push(s.last()) =~= s);
    }
}

/// Where an insertion lands, characterized by the first position whose key
/// is not smaller than `k`.
proof fn lemma_spec_insert_at(s: Seq<(Seq<char>, Seq<char>)>, k: Seq<char>, v: Seq<char>, idx: int)
    requires
        0 <= idx <= s.len(),
        forall|j: int| 0 <= j < idx ==> lex_lt(#[trigger] s[j].0, k),
        idx < s.len() ==> !lex_lt(s[idx].0, k),
    ensures
        idx < s.len() && s[idx].0 == k ==> spec_insert(s, k, v) == s.subrange(0, idx) + seq![
            (k, v),
        ] + s.skip(idx + 1),
        !(idx < s.len() && s[idx].0 == k) ==> spec_insert(s, k, v) == s.subrange(0, idx) + seq![
            (k, v),
        ] + s.skip(idx),
    decreases idx,
{
    if idx == 0 {
        if s.len() == 0 {
            assert(spec_insert(s, k, v) =~= s.subrange(0, 0) + seq![(k, v)] + s.skip(0));
        } else if s[0].0 == k {
            assert(spec_insert(s, k, v) =~= s.subrange(0, 0) + seq![(k, v)] + s.skip(1));
        } else {
            lemma_lex_trichotomy(k, s[0].0);
            assert(lex_lt(k, s[0].0));
            assert(spec_insert(s, k, v) =~= s.subrange(0, 0) + seq![(k, v)] + s.skip(0));
        }
    } else {
        lemma_lex_trichotomy(k, s[0].0);
        assert(lex_lt(s[0].0, k));
        let t = s.skip(1);
        assert(forall|j: int| 0 <= j < idx - 1 ==> #[trigger] t[j] == s[j + 1]);
        lemma_spec_insert_at(t, k, v, idx - 1);
        assert(spec_insert(s, k, v) == seq![s[0]] + spec_insert(t, k, v));
        if idx < s.len() && s[idx].0 == k {
            assert(t[idx - 1] == s[idx]);
            assert(spec_insert(t, k, v) == t.subrange(0, idx - 1) + seq![(k, v)] + t.skip(idx));
            assert(seq![s[0]] + (t.subrange(0, idx - 1) + seq![(k, v)] + t.skip(idx)) =~= s.subrange(
                0,
                idx,
            ) + seq![(k, v)] + s.skip(idx + 1));
        } else {
            assert(spec_insert(t, k, v) == t.subrange(0, idx - 1) + seq![(k, v)] + t.skip(idx - 1));
            assert(seq![s[0]] + (t.subrange(0, idx - 1) + seq![(k, v)] + t.skip(idx - 1)) =~= s
                .subrange(0, idx) + seq![(k, v)] + s.skip(idx));
        }
    }
}

} // verus!
