use vstd::prelude::*;

use crate::hash::FieldElement;

verus! {

/// Whether the keys of a sequence of entries strictly increase.
pub open spec fn sorted_keys(s: Seq<(u64, FieldElement)>) -> bool {
    forall|i: int, j: int| 0 <= i < j < s.len() ==> (#[trigger] s[i]).0 < (#[trigger] s[j]).0
}

/// The map that a sequence of entries with distinct keys stands for.
pub open spec fn entries_map(s: Seq<(u64, FieldElement)>) -> Map<u64, FieldElement> {
    Map::new(
        |k: u64| exists|i: int| 0 <= i < s.len() && (#[trigger] s[i]).0 == k,
        |k: u64| s[choose|i: int| 0 <= i < s.len() && (#[trigger] s[i]).0 == k].1,
    )
}

/// The leaves that a batch has written, by index, with their latest hash,
/// held in ascending order of index.
pub struct UpdatedHashes {
    pub entries: Vec<(u64, FieldElement)>,
}

impl View for UpdatedHashes {
    type V = Map<u64, FieldElement>;

    open spec fn view(&self) -> Map<u64, FieldElement> {
        entries_map(self.entries@)
    }
}

proof fn lemma_entry_in_map(s: Seq<(u64, FieldElement)>, i: int)
    requires
        sorted_keys(s),
        0 <= i < s.len(),
    ensures
        entries_map(s).contains_key(s[i].0),
        entries_map(s)[s[i].0] == s[i].1,
{
    let k = s[i].0;
    assert(exists|j: int| 0 <= j < s.len() && (#[trigger] s[j]).0 == k);
    let j = choose|j: int| 0 <= j < s.len() && (#[trigger] s[j]).0 == k;
    if j < i {
        assert(s[j].0 < s[i].0);
    } else if i < j {
        assert(s[i].0 < s[j].0);
    }
}

/// Two sorted sequences of entries that stand for the same map are equal.
proof fn lemma_sorted_unique(a: Seq<(u64, FieldElement)>, b: Seq<(u64, FieldElement)>)
    requires
        sorted_keys(a),
        sorted_keys(b),
        entries_map(a) == entries_map(b),
    ensures
        a == b,
    decreases a.len() + b.len(),
{
    if a.len() == 0 {
        if b.len() > 0 {
            lemma_entry_in_map(b, 0);
        }
        assert(b =~= a);
    } else if b.len() == 0 {
        lemma_entry_in_map(a, 0);
    } else {
        let la = a.last();
        let lb = b.last();
        lemma_entry_in_map(a, a.len() - 1);
        lemma_entry_in_map(b, b.len() - 1);
        let ia = choose|j: int| 0 <= j < b.len() && (#[trigger] b[j]).0 == la.0;
        let ib = choose|j: int| 0 <= j < a.len() && (#[trigger] a[j]).0 == lb.0;
        assert(la.0 <= lb.0) by {
            if ia < b.len() - 1 {
                assert(b[ia].0 < b[b.len() - 1].0);
            }
        }
        assert(lb.0 <= la.0) by {
            if ib < a.len() - 1 {
                assert(a[ib].0 < a[a.len() - 1].0);
            }
        }
        assert(la == lb);
        let a2 = a.drop_last();
        let b2 = b.drop_last();
        lemma_drop_last_map(a);
        lemma_drop_last_map(b);
        lemma_sorted_unique(a2, b2);
        assert(a =~= a2.push(la));
        assert(b =~= b2.push(lb));
    }
}

proof fn lemma_drop_last_map(s: Seq<(u64, FieldElement)>)
    requires
        sorted_keys(s),
        s.len() > 0,
    ensures
        sorted_keys(s.drop_last()),
        entries_map(s.drop_last()) == entries_map(s).remove(s.last().0),
{
    let d = s.drop_last();
    assert forall|i: int| 0 <= i < d.len() implies entries_map(d).contains_key(d[i].0) && entries_map(d)[d[i].0]
        == entries_map(s)[d[i].0] by {
        lemma_entry_in_map(d, i);
        lemma_entry_in_map(s, i);
    }
    assert forall|k: u64| entries_map(d).contains_key(k) <==> entries_map(s).remove(s.last().0).contains_key(k) by {
        if entries_map(d).contains_key(k) {
            let i = choose|i: int| 0 <= i < d.len() && (#[trigger] d[i]).0 == k;
            assert(s[i].0 < s[s.len() - 1].0);
        }
        if entries_map(s).remove(s.last().0).contains_key(k) {
            let i = choose|i: int| 0 <= i < s.len() && (#[trigger] s[i]).0 == k;
            assert(d[i].0 == k);
        }
    }
    assert(entries_map(d) =~= entries_map(s).remove(s.last().0));
}

/// Two sets of written leaves that hold the same map list their entries
/// alike: the listing depends on the contents alone, never on the order in
/// which the leaves were written.
pub proof fn lemma_updates_listing_determined(a: UpdatedHashes, b: UpdatedHashes)
    requires
        a.wf(),
        b.wf(),
        a@ == b@,
    ensures
        a.entries@ == b.entries@,
{
    lemma_sorted_unique(a.entries@, b.entries@);
}

impl UpdatedHashes {
    pub open spec fn wf(&self) -> bool {
        sorted_keys(self.entries@)
    }

    /// No leaf written yet.
    pub fn new() -> (r: UpdatedHashes)
        ensures
            r.wf(),
            r@ == Map::<u64, FieldElement>::empty(),
    {
        let r = UpdatedHashes { entries: Vec::new() };
        assert(r@ =~= Map::<u64, FieldElement>::empty());
        r
    }

    /// The number of leaves written.
    pub fn len(&self) -> (r: usize)
        requires
            self.wf(),
        ensures
            r == self@.dom().len(),
    {
        proof {
            lemma_map_len(self.entries@);
        }
        self.entries.len()
    }

    /// The place of the first entry whose index is not below `k`.
    fn position(&self, k: u64) -> (r: usize)
        requires
            self.wf(),
        ensures
            r <= self.entries@.len(),
            forall|i: int| 0 <= i < r ==> (#[trigger] self.entries@[i]).0 < k,
            r < self.entries@.len() ==> self.entries@[r as int].0 >= k,
    {
        let mut i: usize = 0;
        while i < self.entries.len()
            invariant
                i <= self.entries@.len(),
                forall|j: int| 0 <= j < i ==> (#[trigger] self.entries@[j]).0 < k,
            decreases self.entries@.len() - i,
        {
            if self.entries[i].0 >= k {
                return i;
            }
            i = i + 1;
        }
        i
    }

    /// The latest hash written at `k`, if any.
    pub fn get(&self, k: u64) -> (r: Option<FieldElement>)
        requires
            self.wf(),
        ensures
            r == (if self@.contains_key(k) {
                Some(self@[k])
            } else {
                None
            }),
    {
        let p = self.position(k);
        if p < self.entries.len() && self.entries[p].0 == k {
            proof {
                lemma_entry_in_map(self.entries@, p as int);
            }
            Some(self.entries[p].1)
        } else {
            proof {
                if self@.contains_key(k) {
                    let i = choose|i: int| 0 <= i < self.entries@.len() && (#[trigger] self.entries@[i]).0 == k;
                    if i > p {
                        assert(self.entries@[p as int].0 < self.entries@[i].0);
                    }
                }
            }
            None
        }
    }

    /// Records that the leaf at `k` now holds `v`.
    pub fn insert(&mut self, k: u64, v: FieldElement)
        requires
            old(self).wf(),
        ensures
            final(self).wf(),
            final(self)@ == old(self)@.insert(k, v),
    {
        let ghost s = self.entries@;
        let p = self.position(k);
        if p < self.entries.len() && self.entries[p].0 == k {
            self.entries.set(p, (k, v));
            let ghost t = self.entries@;
            assert forall|kk: u64| #[trigger] entries_map(t).contains_key(kk) <==> entries_map(s).insert(k, v).contains_key(kk) by {
                if entries_map(s).contains_key(kk) {
                    let i = choose|i: int| 0 <= i < s.len() && (#[trigger] s[i]).0 == kk;
                    assert(t[i].0 == kk);
                }
                if entries_map(t).contains_key(kk) {
                    let i = choose|i: int| 0 <= i < t.len() && (#[trigger] t[i]).0 == kk;
                    assert(s[i].0 == kk);
                }
            }
            assert forall|i: int| 0 <= i < t.len() implies entries_map(t)[t[i].0] == entries_map(s).insert(k, v)[t[i].0] by {
                lemma_entry_in_map(t, i);
                lemma_entry_in_map(s, i);
            }
            assert forall|kk: u64| #[trigger] entries_map(t).contains_key(kk) implies entries_map(t)[kk] == entries_map(s).insert(k, v)[kk] by {
                let i = choose|i: int| 0 <= i < t.len() && (#[trigger] t[i]).0 == kk;
                lemma_entry_in_map(t, i);
                lemma_entry_in_map(s, i);
            }
            assert(entries_map(t) =~= entries_map(s).insert(k, v));
        } else {
            self.entries.insert(p, (k, v));
            let ghost t = self.entries@;
            assert(sorted_keys(t)) by {
                assert forall|i: int, j: int| 0 <= i < j < t.len() implies (#[trigger] t[i]).0 < (#[trigger] t[j]).0 by {
                    if i < p && j > p {
                        assert(t[j] == s[j - 1]);
                        if j - 1 > i {
                            assert(s[i].0 < s[j - 1].0);
                        }
                    } else if i > p {
                        assert(s[i - 1].0 < s[j - 1].0);
                    } else if j < p {
                        assert(s[i].0 < s[j].0);
                    } else if i == p {
                        assert(t[j] == s[j - 1]);
                        assert(s[p as int].0 >= k);
                        if j - 1 > p {
                            assert(s[p as int].0 < s[j - 1].0);
                        }
                    }
                }
            }
            assert forall|kk: u64| #[trigger] entries_map(t).contains_key(kk) <==> entries_map(s).insert(k, v).contains_key(kk) by {
                if entries_map(s).contains_key(kk) {
                    let i = choose|i: int| 0 <= i < s.len() && (#[trigger] s[i]).0 == kk;
                    if i < p {
                        assert(t[i].0 == kk);
                    } else {
                        assert(t[i + 1].0 == kk);
                    }
                }
                if kk == k {
                    assert(t[p as int].0 == kk);
                }
                if entries_map(t).contains_key(kk) {
                    let i = choose|i: int| 0 <= i < t.len() && (#[trigger] t[i]).0 == kk;
                    if i < p {
                        assert(s[i].0 == kk);
                    } else if i > p {
                        assert(s[i - 1].0 == kk);
                    }
                }
            }
            assert forall|kk: u64| #[trigger] entries_map(t).contains_key(kk) implies entries_map(t)[kk] == entries_map(s).insert(k, v)[kk] by {
                let i = choose|i: int| 0 <= i < t.len() && (#[trigger] t[i]).0 == kk;
                lemma_entry_in_map(t, i);
                if i < p {
                    lemma_entry_in_map(s, i);
                } else if i > p {
                    lemma_entry_in_map(s, i - 1);
                }
            }
            assert(entries_map(t) =~= entries_map(s).insert(k, v));
        }
    }

    /// Forgets the leaf at `k`.
    pub fn remove(&mut self, k: u64)
        requires
            old(self).wf(),
        ensures
            final(self).wf(),
            final(self)@ == old(self)@.remove(k),
    {
        let ghost s = self.entries@;
        let p = self.position(k);
        if p < self.entries.len() && self.entries[p].0 == k {
            self.entries.remove(p);
            let ghost t = self.entries@;
            assert(sorted_keys(t)) by {
                assert forall|i: int, j: int| 0 <= i < j < t.len() implies (#[trigger] t[i]).0 < (#[trigger] t[j]).0 by {
                    if i < p && j >= p {
                        assert(s[i].0 < s[j + 1].0);
                    } else if i >= p {
                        assert(s[i + 1].0 < s[j + 1].0);
                    } else {
                        assert(s[i].0 < s[j].0);
                    }
                }
            }
            assert forall|kk: u64| #[trigger] entries_map(t).contains_key(kk) <==> entries_map(s).remove(k).contains_key(kk) by {
                if entries_map(s).remove(k).contains_key(kk) {
                    let i = choose|i: int| 0 <= i < s.len() && (#[trigger] s[i]).0 == kk;
                    if i < p {
                        assert(t[i].0 == kk);
                    } else {
                        assert(t[i - 1].0 == kk);
                    }
                }
                if entries_map(t).contains_key(kk) {
                    let i = choose|i: int| 0 <= i < t.len() && (#[trigger] t[i]).0 == kk;
                    if i < p {
                        assert(s[i].0 == kk);
                        assert(s[i].0 < s[p as int].0);
                    } else {
                        assert(s[i + 1].0 == kk);
                        assert(s[p as int].0 < s[i + 1].0);
                    }
                }
            }
            assert forall|kk: u64| #[trigger] entries_map(t).contains_key(kk) implies entries_map(t)[kk] == entries_map(s).remove(k)[kk] by {
                let i = choose|i: int| 0 <= i < t.len() && (#[trigger] t[i]).0 == kk;
                lemma_entry_in_map(t, i);
                if i < p {
                    lemma_entry_in_map(s, i);
                } else {
                    lemma_entry_in_map(s, i + 1);
                }
            }
            assert(entries_map(t) =~= entries_map(s).remove(k));
        } else {
            proof {
                if entries_map(s).contains_key(k) {
                    let i = choose|i: int| 0 <= i < s.len() && (#[trigger] s[i]).0 == k;
                    if i > p {
                        assert(s[p as int].0 < s[i].0);
                    }
                }
                assert(entries_map(s) =~= entries_map(s).remove(k));
            }
        }
    }

    /// Forgets every leaf.
    pub fn clear(&mut self)
        ensures
            final(self).wf(),
            final(self)@ == Map::<u64, FieldElement>::empty(),
    {
        self.entries.clear();
        assert(self@ =~= Map::<u64, FieldElement>::empty());
    }
}

proof fn lemma_map_len(s: Seq<(u64, FieldElement)>)
    requires
        sorted_keys(s),
    ensures
        entries_map(s).dom().finite(),
        entries_map(s).dom().len() == s.len(),
    decreases s.len(),
{
    if s.len() == 0 {
        assert(entries_map(s).dom() =~= Set::<u64>::empty());
    } else {
        lemma_drop_last_map(s);
        lemma_map_len(s.drop_last());
        lemma_entry_in_map(s, s.len() - 1);
        assert(entries_map(s).dom() =~= entries_map(s.drop_last()).dom().insert(s.last().0));
    }
}

} // verus!
