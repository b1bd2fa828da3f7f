//! The keys currently lit on the on-screen keyboard, each with the
//! animation step at which it goes dark.

use vstd::prelude::*;

use crate::text::str_eq;

verus! {

/// The map that a list of (label, expiry) pairs denotes: a later pair for
/// the same label overrides an earlier one.
pub open spec fn entries_map(s: Seq<(Seq<char>, u64)>) -> Map<Seq<char>, u64>
    decreases s.len(),
{
    if s.len() == 0 {
        Map::empty()
    } else {
        entries_map(s.drop_last()).insert(s.last().0, s.last().1)
    }
}

/// The entries with each label taken by its characters.
pub open spec fn pairs_of(v: Seq<(&'static str, u64)>) -> Seq<(Seq<char>, u64)> {
    v.map_values(|e: (&'static str, u64)| (e.0@, e.1))
}

/// No label occurs twice.
pub open spec fn distinct_labels(s: Seq<(Seq<char>, u64)>) -> bool {
    forall|i: int, j: int| 0 <= i < s.len() && 0 <= j < s.len() && i != j ==> s[i].0 != s[j].0
}

/// Lit keyboard labels and when each expires. A vector of pairs holding
/// each label once (its invariant) stands for a map keyed by label: over
/// string keys a hash map's contract gives too little to prove with.
#[derive(Debug)]
pub struct KeyTracker {
    entries: Vec<(&'static str, u64)>,
}

impl KeyTracker {
    /// The entries with each label taken by its characters.
    pub closed spec fn pairs(&self) -> Seq<(Seq<char>, u64)> {
        pairs_of(self.entries@)
    }

    /// The tracker's internal invariant: one entry per label.
    pub closed spec fn wf(&self) -> bool {
        distinct_labels(self.pairs())
    }
}

impl View for KeyTracker {
    type V = Map<Seq<char>, u64>;

    closed spec fn view(&self) -> Map<Seq<char>, u64> {
        entries_map(self.pairs())
    }
}

proof fn lemma_take_step(s: Seq<(Seq<char>, u64)>, i: int)
    requires
        0 <= i < s.len(),
    ensures
        entries_map(s.take(i + 1)) == entries_map(s.take(i)).insert(s[i].0, s[i].1),
{
    assert(s.take(i + 1).drop_last() =~= s.take(i));
}

proof fn lemma_dom(s: Seq<(Seq<char>, u64)>, k: Seq<char>)
    ensures
        entries_map(s).contains_key(k) <==> exists|j: int| 0 <= j < s.len() && s[j].0 == k,
    decreases s.len(),
{
    if s.len() > 0 {
        lemma_dom(s.drop_last(), k);
        if exists|j: int| 0 <= j < s.drop_last().len() && s.drop_last()[j].0 == k {
            let j = choose|j: int| 0 <= j < s.drop_last().len() && s.drop_last()[j].0 == k;
            assert(s[j].0 == k);
        }
        if exists|j: int| 0 <= j < s.len() && s[j].0 == k {
            let j = choose|j: int| 0 <= j < s.len() && s[j].0 == k;
            if j < s.len() - 1 {
                assert(s.drop_last()[j].0 == k);
            }
        }
    }
}

proof fn lemma_full_take(s: Seq<(Seq<char>, u64)>)
    ensures
        s.take(s.len() as int) == s,
{
    assert(s.take(s.len() as int) =~= s);
}

impl KeyTracker {
    /// No lit keys.
    pub fn new() -> (t: KeyTracker)
        ensures
            t.wf(),
            t@ == Map::<Seq<char>, u64>::empty(),
    {
        let t = KeyTracker { entries: Vec::new() };
        assert(t.pairs() =~= Seq::<(Seq<char>, u64)>::empty());
        t
    }

    /// Whether `label` is lit.
    pub fn contains(&self, label: &str) -> (lit: bool)
        ensures
            lit == self@.contains_key(label@),
    {
        let ghost s = self.pairs();
        proof {
            lemma_dom(s, label@);
        }
        let mut i: usize = 0;
        while i < self.entries.len()
            invariant
                i <= self.entries@.len(),
                s == self.pairs(),
                s.len() == self.entries@.len(),
                forall|j: int| 0 <= j < i ==> s[j].0 != label@,
            decreases self.entries.len() - i,
        {
            assert(s[i as int] == (self.entries@[i as int].0@, self.entries@[i as int].1));
            if str_eq(self.entries[i].0, label) {
                assert(s[i as int].0 == label@);
                proof {
                    lemma_dom(s, label@);
                }
                return true;
            }
            i += 1;
        }
        false
    }

    /// The entries whose label is not `label`, in order.
    fn without(&self, label: &str) -> (out: Vec<(&'static str, u64)>)
        ensures
            entries_map(pairs_of(out@)) == self@.remove(
                label@,
            ),
            self.wf() ==> distinct_labels(pairs_of(out@)),
            forall|j: int|
                0 <= j < out@.len() ==> #[trigger] pairs_of(out@)[j].0
                    != label@,
    {
        let ghost s = self.pairs();
        let mut out: Vec<(&'static str, u64)> = Vec::new();
        let mut i: usize = 0;
        assert(entries_map(s.take(0)) =~= Map::<Seq<char>, u64>::empty());
        while i < self.entries.len()
            invariant
                i <= self.entries@.len(),
                s == self.pairs(),
                s.len() == self.entries@.len(),
                entries_map(pairs_of(out@)) == entries_map(
                    s.take(i as int),
                ).remove(label@),
                forall|j: int|
                    0 <= j < out@.len() ==> #[trigger] pairs_of(out@)[j].0
                        != label@,
                forall|j: int|
                    #![trigger pairs_of(out@)[j]]
                    0 <= j < out@.len() ==> exists|m: int|
                        0 <= m < i && pairs_of(out@)[j] == #[trigger] s[m],
                self.wf() ==> distinct_labels(pairs_of(out@)),
            decreases self.entries.len() - i,
        {
            let ghost before = pairs_of(out@);
            let e = self.entries[i];
            proof {
                lemma_take_step(s, i as int);
            }
            if !str_eq(e.0, label) {
                out.push(e);
                let ghost after = pairs_of(out@);
                assert(after =~= before.push(s[i as int]));
                assert(after.drop_last() =~= before);
                assert(entries_map(after) =~= entries_map(s.take(i + 1)).remove(label@));
                assert forall|j: int| #![trigger after[j]] 0 <= j < after.len() implies exists|m: int|
                    0 <= m < i + 1 && after[j] == #[trigger] s[m] by {
                    if j < before.len() {
                        let m = choose|m: int| 0 <= m < i && before[j] == s[m];
                        assert(after[j] == s[m]);
                    } else {
                        assert(after[j] == s[i as int]);
                    }
                }
                proof {
                    if self.wf() {
                        assert forall|a: int, b: int|
                            0 <= a < after.len() && 0 <= b < after.len() && a != b implies after[a].0
                            != after[b].0 by {
                            if a < before.len() && b < before.len() {
                            } else if a < before.len() {
                                let m = choose|m: int| 0 <= m < i && before[a] == s[m];
                                assert(after[a] == s[m]);
                                assert(after[b] == s[i as int]);
                            } else {
                                let m = choose|m: int| 0 <= m < i && before[b] == s[m];
                                assert(after[b] == s[m]);
                                assert(after[a] == s[i as int]);
                            }
                        }
                    }
                }
            } else {
                assert(entries_map(before) =~= entries_map(s.take(i + 1)).remove(label@));
            }
            i += 1;
        }
        proof {
            lemma_full_take(s);
        }
        out
    }

    /// Lights `label` until step `expires_at`.
    pub fn set(&mut self, label: &'static str, expires_at: u64)
        requires
            old(self).wf(),
        ensures
            final(self).wf(),
            final(self)@ == old(self)@.insert(label@, expires_at),
    {
        let mut out = self.without(label);
        let ghost before = pairs_of(out@);
        out.push((label, expires_at));
        let ghost after = pairs_of(out@);
        assert(after =~= before.push((label@, expires_at)));
        assert(after.drop_last() =~= before);
        assert(entries_map(after) =~= old(self)@.insert(label@, expires_at));
        assert(distinct_labels(after)) by {
            assert forall|a: int, b: int|
                0 <= a < after.len() && 0 <= b < after.len() && a != b implies after[a].0
                != after[b].0 by {
                if a < before.len() && b < before.len() {
                    assert(after[a] == before[a]);
                    assert(after[b] == before[b]);
                } else if a < before.len() {
                    assert(after[a] == before[a]);
                } else {
                    assert(after[b] == before[b]);
                }
            }
        }
        self.entries = out;
        assert(self.pairs() =~= after);
    }

    /// Darkens `label`.
    pub fn remove(&mut self, label: &str)
        requires
            old(self).wf(),
        ensures
            final(self).wf(),
            final(self)@ == old(self)@.remove(label@),
    {
        let out = self.without(label);
        self.entries = out;
        assert(self.pairs() =~= pairs_of(out@));
    }

    /// Keeps only the labels that expire after step `now`.
    pub fn retain_after(&mut self, now: u64)
        requires
            old(self).wf(),
        ensures
            final(self).wf(),
            final(self)@ == old(self)@.restrict(old(self)@.dom().filter(|k: Seq<char>| old(self)@[k] > now)),
    {
        let ghost s = self.pairs();
        let ghost m = self@;
        let mut out: Vec<(&'static str, u64)> = Vec::new();
        let mut i: usize = 0;
        assert(entries_map(s.take(0)) =~= Map::<Seq<char>, u64>::empty());
        assert(entries_map(pairs_of(out@)) =~= Map::<
            Seq<char>,
            u64,
        >::empty());
        while i < self.entries.len()
            invariant
                i <= self.entries@.len(),
                s == self.pairs(),
                m == entries_map(s),
                distinct_labels(s),
                s.len() == self.entries@.len(),
                entries_map(pairs_of(out@)) == entries_map(
                    s.take(i as int),
                ).restrict(entries_map(s.take(i as int)).dom().filter(|k: Seq<char>| entries_map(s.take(i as int))[k] > now)),
                forall|j: int|
                    #![trigger pairs_of(out@)[j]]
                    0 <= j < out@.len() ==> exists|q: int|
                        0 <= q < i && pairs_of(out@)[j] == #[trigger] s[q],
                distinct_labels(pairs_of(out@)),
            decreases self.entries.len() - i,
        {
            let ghost before = pairs_of(out@);
            let ghost prev = entries_map(s.take(i as int));
            let ghost next = entries_map(s.take(i + 1));
            let e = self.entries[i];
            proof {
                lemma_take_step(s, i as int);
                lemma_dom(s.take(i as int), s[i as int].0);
                if prev.contains_key(s[i as int].0) {
                    let j = choose|j: int| 0 <= j < i && s.take(i as int)[j].0 == s[i as int].0;
                    assert(s[j].0 == s[i as int].0);
                }
                assert(!prev.contains_key(s[i as int].0));
            }
            if e.1 > now {
                out.push(e);
                let ghost after = pairs_of(out@);
                assert(after =~= before.push(s[i as int]));
                assert(after.drop_last() =~= before);
                assert(entries_map(after) =~= next.restrict(next.dom().filter(|k: Seq<char>| next[k] > now)));
                assert forall|j: int| #![trigger after[j]] 0 <= j < after.len() implies exists|q: int|
                    0 <= q < i + 1 && after[j] == #[trigger] s[q] by {
                    if j < before.len() {
                        let q = choose|q: int| 0 <= q < i && before[j] == s[q];
                        assert(after[j] == s[q]);
                    } else {
                        assert(after[j] == s[i as int]);
                    }
                }
                assert forall|a: int, b: int|
                    0 <= a < after.len() && 0 <= b < after.len() && a != b implies after[a].0
                    != after[b].0 by {
                    if a < before.len() && b < before.len() {
                    } else if a < before.len() {
                        let q = choose|q: int| 0 <= q < i && before[a] == s[q];
                        assert(after[a] == s[q]);
                        assert(after[b] == s[i as int]);
                    } else {
                        let q = choose|q: int| 0 <= q < i && before[b] == s[q];
                        assert(after[b] == s[q]);
                        assert(after[a] == s[i as int]);
                    }
                }
            } else {
                assert(entries_map(before) =~= next.restrict(next.dom().filter(|k: Seq<char>| next[k] > now)));
            }
            i += 1;
        }
        proof {
            lemma_full_take(s);
        }
        self.entries = out;
        assert(self.pairs() =~= pairs_of(out@));
    }
}

} // verus!
