use vstd::prelude::*;

use crate::hash::FieldElement;
use crate::tree::SuperficialTree;

verus! {

/// Which of the two state trees a write goes to.
#[derive(Clone, Copy, Debug, PartialEq, Eq, Structural)]
pub enum TreeKind {
    Spot,
    Perpetual,
}

/// One write to a leaf: the tree, the index and the new hash.
#[derive(Clone, Copy, Debug, PartialEq, Eq, Structural)]
pub struct LeafWrite {
    pub kind: TreeKind,
    pub index: u64,
    pub hash: FieldElement,
}

/// What a write replaced: the leaf's former hash, and the former entry of
/// the batch's record of written leaves.
#[derive(Clone, Copy, Debug, PartialEq, Eq, Structural)]
pub struct JournalEntry {
    pub kind: TreeKind,
    pub index: u64,
    pub prev_leaf: FieldElement,
    pub prev_update: Option<FieldElement>,
}

/// The journal of one transaction: its writes, undone in reverse on
/// failure, and the order ids it blocked, freed on failure.
pub struct RollbackInfo {
    pub entries: Vec<JournalEntry>,
    /// The order ids that the transaction marked busy.
    pub blocked: Vec<u64>,
}

/// The state that a transaction may change: both trees' leaves, and the
/// leaves written in this batch with their latest hashes.
pub struct StateView {
    pub spot: Map<u64, FieldElement>,
    pub spot_updates: Map<u64, FieldElement>,
    pub perp: Map<u64, FieldElement>,
    pub perp_updates: Map<u64, FieldElement>,
}

pub open spec fn leaves_map(t: SuperficialTree) -> Map<u64, FieldElement> {
    Map::new(|i: u64| true, |i: u64| t.leaf(i as int))
}

/// The state after one write.
pub open spec fn apply_write(v: StateView, w: LeafWrite) -> StateView {
    match w.kind {
        TreeKind::Spot => StateView {
            spot: v.spot.insert(w.index, w.hash),
            spot_updates: v.spot_updates.insert(w.index, w.hash),
            ..v
        },
        TreeKind::Perpetual => StateView {
            perp: v.perp.insert(w.index, w.hash),
            perp_updates: v.perp_updates.insert(w.index, w.hash),
            ..v
        },
    }
}

/// The state after a sequence of writes, in order.
pub open spec fn apply_writes(v: StateView, ws: Seq<LeafWrite>) -> StateView
    decreases ws.len(),
{
    if ws.len() == 0 {
        v
    } else {
        apply_write(apply_writes(v, ws.drop_last()), ws.last())
    }
}

/// The journal entry that a write records in state `v`.
pub open spec fn entry_for(v: StateView, w: LeafWrite) -> JournalEntry {
    match w.kind {
        TreeKind::Spot => JournalEntry {
            kind: w.kind,
            index: w.index,
            prev_leaf: v.spot[w.index],
            prev_update: if v.spot_updates.contains_key(w.index) {
                Some(v.spot_updates[w.index])
            } else {
                None
            },
        },
        TreeKind::Perpetual => JournalEntry {
            kind: w.kind,
            index: w.index,
            prev_leaf: v.perp[w.index],
            prev_update: if v.perp_updates.contains_key(w.index) {
                Some(v.perp_updates[w.index])
            } else {
                None
            },
        },
    }
}

/// The journal that a sequence of writes from state `v` records.
pub open spec fn journal_of(v: StateView, ws: Seq<LeafWrite>) -> Seq<JournalEntry>
    decreases ws.len(),
{
    if ws.len() == 0 {
        Seq::empty()
    } else {
        journal_of(v, ws.drop_last()).push(entry_for(apply_writes(v, ws.drop_last()), ws.last()))
    }
}

pub open spec fn restore_update(m: Map<u64, FieldElement>, index: u64, prev: Option<FieldElement>) -> Map<
    u64,
    FieldElement,
> {
    match prev {
        Some(h) => m.insert(index, h),
        None => m.remove(index),
    }
}

/// The state after undoing one journal entry.
pub open spec fn undo_entry(v: StateView, e: JournalEntry) -> StateView {
    match e.kind {
        TreeKind::Spot => StateView {
            spot: v.spot.insert(e.index, e.prev_leaf),
            spot_updates: restore_update(v.spot_updates, e.index, e.prev_update),
            ..v
        },
        TreeKind::Perpetual => StateView {
            perp: v.perp.insert(e.index, e.prev_leaf),
            perp_updates: restore_update(v.perp_updates, e.index, e.prev_update),
            ..v
        },
    }
}

/// The state after undoing a journal, last entry first.
pub open spec fn undo_all(v: StateView, es: Seq<JournalEntry>) -> StateView
    decreases es.len(),
{
    if es.len() == 0 {
        v
    } else {
        undo_all(undo_entry(v, es.last()), es.drop_last())
    }
}

/// Whether the leaf maps of a view are total, as a tree's are.
pub open spec fn total_view(v: StateView) -> bool {
    &&& forall|i: u64| #[trigger] v.spot.contains_key(i)
    &&& forall|i: u64| #[trigger] v.perp.contains_key(i)
}

proof fn lemma_undo_write(v: StateView, w: LeafWrite)
    requires
        total_view(v),
    ensures
        undo_entry(apply_write(v, w), entry_for(v, w)) == v,
        total_view(apply_write(v, w)),
{
    let a = apply_write(v, w);
    let b = undo_entry(a, entry_for(v, w));
    match w.kind {
        TreeKind::Spot => {
            assert(b.spot =~= v.spot);
            assert(b.spot_updates =~= v.spot_updates);
        },
        TreeKind::Perpetual => {
            assert(b.perp =~= v.perp);
            assert(b.perp_updates =~= v.perp_updates);
        },
    }
}

proof fn lemma_apply_writes_total(v: StateView, ws: Seq<LeafWrite>)
    requires
        total_view(v),
    ensures
        total_view(apply_writes(v, ws)),
    decreases ws.len(),
{
    if ws.len() > 0 {
        lemma_apply_writes_total(v, ws.drop_last());
        lemma_undo_write(apply_writes(v, ws.drop_last()), ws.last());
    }
}

/// Undoing the journal that any sequence of writes recorded gives back,
/// exactly, the state before the first write: both trees' leaves and both
/// records of written leaves.
pub proof fn lemma_rollback_isolation(s: StateView, ws: Seq<LeafWrite>)
    requires
        total_view(s),
    ensures
        undo_all(apply_writes(s, ws), journal_of(s, ws)) == s,
    decreases ws.len(),
{
    if ws.len() > 0 {
        let prev = apply_writes(s, ws.drop_last());
        lemma_apply_writes_total(s, ws.drop_last());
        lemma_undo_write(prev, ws.last());
        lemma_rollback_isolation(s, ws.drop_last());
        assert(journal_of(s, ws).drop_last() =~= journal_of(s, ws.drop_last()));
    }
}

} // verus!
