use vstd::prelude::*;

use crate::funding::{FundingState, FundingUpdateMessage, SwapFundingInfo};
use crate::hash::{zero_spec, FieldElement};
use crate::markets::USDC;
use crate::oracle::{OracleUpdate, OracleUpdateError, PriceState};
use crate::tree::{SuperficialTree, MAX_DEPTH};
use crate::journal::{
    apply_write, apply_writes, entry_for, journal_of, lemma_rollback_isolation, leaves_map,
    total_view, undo_all, undo_entry, JournalEntry, LeafWrite, RollbackInfo, StateView, TreeKind,
};
use crate::updates::UpdatedHashes;

verus! {

/// Number of transactions, deposits and withdrawals aside, after which a
/// batch is finalized.
pub const TRANSACTIONS_PER_BATCH: u16 = 50;

/// A note: an amount of a token owned by an address, at a leaf of the spot
/// tree. Its hash is the commitment that the leaf holds while it is live.
#[derive(Clone, Copy, Debug, PartialEq, Eq, Structural)]
pub struct Note {
    pub index: u64,
    pub address_x: FieldElement,
    pub token: u64,
    pub amount: u64,
    pub blinding: FieldElement,
    pub hash: FieldElement,
}

/// Why a transaction was refused.
#[derive(Clone, Copy, Debug, PartialEq, Eq, Structural)]
pub enum TransactionError {
    /// A note of another token than the transaction's.
    InvalidToken,
    /// A note whose hash is not the leaf at its index.
    NoteDoesNotExist,
    /// The same leaf named twice among the input notes.
    DuplicateNote,
    /// A leaf that should be empty is not.
    LeafOccupied,
    /// An index past the end of its tree.
    IndexOutOfRange,
    /// Output notes whose address or blinding differ from their inputs'.
    AddressBlindingMismatch,
    /// Amounts that do not add up.
    AmountMismatch,
    /// A position whose hash is not the leaf at its index.
    PositionDoesNotExist,
    /// A margin that would drop below zero or overflow.
    InvalidMarginChange,
    /// An order that another worker is filling at the moment.
    DuplicateOrderID,
    /// A signature that did not check out.
    InvalidSignature,
}

/// The engine's state: the two trees and the leaves written in this batch,
/// the batch's counters and transcript, the index prices, the funding state,
/// and the orders that workers are filling at the moment.
pub struct TransactionBatch {
    pub state_tree: SuperficialTree,
    pub updated_note_hashes: UpdatedHashes,
    pub perpetual_state_tree: SuperficialTree,
    pub perpetual_updated_position_hashes: UpdatedHashes,
    pub n_deposits: u32,
    pub n_withdrawals: u32,
    pub running_tx_count: u16,
    pub prices: PriceState,
    pub funding: FundingState,
    pub transactions: Vec<TransactionRecord>,
    pub blocked_order_ids: std::collections::HashSet<u64>,
}

impl TransactionBatch {
    pub open spec fn wf(&self) -> bool {
        &&& self.state_tree.wf()
        &&& self.perpetual_state_tree.wf()
        &&& self.updated_note_hashes.wf()
        &&& self.perpetual_updated_position_hashes.wf()
        &&& self.prices.wf()
        &&& self.funding.wf()
    }

    /// The state that transactions change.
    pub open spec fn core_view(&self) -> StateView {
        StateView {
            spot: leaves_map(self.state_tree),
            spot_updates: self.updated_note_hashes@,
            perp: leaves_map(self.perpetual_state_tree),
            perp_updates: self.perpetual_updated_position_hashes@,
        }
    }

    /// The number of leaves of a tree.
    pub open spec fn capacity_of(&self, kind: TreeKind) -> nat {
        match kind {
            TreeKind::Spot => self.state_tree.capacity(),
            TreeKind::Perpetual => self.perpetual_state_tree.capacity(),
        }
    }

    /// An empty batch over two empty trees of the given depths.
    pub fn new(spot_tree_depth: u32, perp_tree_depth: u32) -> (r: TransactionBatch)
        requires
            spot_tree_depth <= MAX_DEPTH,
            perp_tree_depth <= MAX_DEPTH,
        ensures
            r.wf(),
            r.state_tree.depth == spot_tree_depth,
            r.perpetual_state_tree.depth == perp_tree_depth,
            forall|i: u64| #[trigger] r.core_view().spot[i] == zero_spec() && r.core_view().perp[i] == zero_spec(),
            r.core_view().spot_updates == Map::<u64, FieldElement>::empty(),
            r.core_view().perp_updates == Map::<u64, FieldElement>::empty(),
            r.n_deposits == 0,
            r.n_withdrawals == 0,
            r.running_tx_count == 0,
            r.blocked_order_ids@ == Set::<u64>::empty(),
            r.transactions@.len() == 0,
            r.prices.latest_index_price@ == seq![0u64, 0u64],
            r.prices.min_index_price@ == seq![0u64, 0u64],
            r.prices.max_index_price@ == seq![0u64, 0u64],
            forall|j: int| 0 <= j < 2 ==> r.prices.min_index_update@[j] is None && r.prices.max_index_update@[j] is None,
            r.prices.running_index_price_count == 0,
            r.funding.view() == (crate::funding::FundingView { sums: seq![0i64, 0i64], count: 0, rates: Seq::empty(), prices: Seq::empty(), idx: 0 }),
            r.funding.min_funding_idxs@ == seq![0u32, 0u32],
    {
        TransactionBatch {
            state_tree: SuperficialTree::new(spot_tree_depth),
            updated_note_hashes: UpdatedHashes::new(),
            perpetual_state_tree: SuperficialTree::new(perp_tree_depth),
            perpetual_updated_position_hashes: UpdatedHashes::new(),
            n_deposits: 0,
            n_withdrawals: 0,
            running_tx_count: 0,
            prices: PriceState::new(0, 0),
            funding: FundingState::new(),
            transactions: Vec::new(),
            blocked_order_ids: std::collections::HashSet::new(),
        }
    }

    /// The leaf at an index of a tree.
    pub fn leaf(&self, kind: TreeKind, index: u64) -> (r: FieldElement)
        ensures
            r == match kind {
                TreeKind::Spot => self.core_view().spot[index],
                TreeKind::Perpetual => self.core_view().perp[index],
            },
    {
        match kind {
            TreeKind::Spot => self.state_tree.get_leaf_by_index(index),
            TreeKind::Perpetual => self.perpetual_state_tree.get_leaf_by_index(index),
        }
    }

    /// Whether an index lies inside a tree.
    pub fn in_range(&self, kind: TreeKind, index: u64) -> (r: bool)
        requires
            self.wf(),
        ensures
            r == (index < self.capacity_of(kind)),
    {
        let depth = match kind {
            TreeKind::Spot => self.state_tree.depth,
            TreeKind::Perpetual => self.perpetual_state_tree.depth,
        };
        proof {
            crate::tree::lemma_shift_is_pow2(depth);
        }
        index < (1u64 << depth)
    }

    /// Writes a leaf, records it among the batch's written leaves, and
    /// journals what it replaced.
    pub fn write_leaf(&mut self, journal: &mut RollbackInfo, w: LeafWrite)
        requires
            old(self).wf(),
            w.index < old(self).capacity_of(w.kind),
        ensures
            final(self).wf(),
            final(self).core_view() == apply_write(old(self).core_view(), w),
            final(journal).blocked@ == old(journal).blocked@,
            final(journal).entries@ == old(journal).entries@.push(entry_for(old(self).core_view(), w)),
            final(self).state_tree.depth == old(self).state_tree.depth,
            final(self).perpetual_state_tree.depth == old(self).perpetual_state_tree.depth,
            final(self).n_deposits == old(self).n_deposits,
            final(self).n_withdrawals == old(self).n_withdrawals,
            final(self).running_tx_count == old(self).running_tx_count,
            final(self).prices == old(self).prices,
            final(self).funding == old(self).funding,
            final(self).blocked_order_ids@ == old(self).blocked_order_ids@,
            final(self).transactions@ == old(self).transactions@,
    {
        let ghost v = self.core_view();
        match w.kind {
            TreeKind::Spot => {
                let prev_leaf = self.state_tree.get_leaf_by_index(w.index);
                let prev_update = self.updated_note_hashes.get(w.index);
                journal.entries.push(JournalEntry { kind: w.kind, index: w.index, prev_leaf, prev_update });
                self.state_tree.update_leaf_node(&w.hash, w.index);
                self.updated_note_hashes.insert(w.index, w.hash);
                assert(self.core_view().spot =~= v.spot.insert(w.index, w.hash));
            },
            TreeKind::Perpetual => {
                let prev_leaf = self.perpetual_state_tree.get_leaf_by_index(w.index);
                let prev_update = self.perpetual_updated_position_hashes.get(w.index);
                journal.entries.push(JournalEntry { kind: w.kind, index: w.index, prev_leaf, prev_update });
                self.perpetual_state_tree.update_leaf_node(&w.hash, w.index);
                self.perpetual_updated_position_hashes.insert(w.index, w.hash);
                assert(self.core_view().perp =~= v.perp.insert(w.index, w.hash));
            },
        }
    }

    /// Undoes a transaction's journal, last write first.
    pub fn rollback_transaction(&mut self, journal: RollbackInfo)
        requires
            old(self).wf(),
            forall|i: int| 0 <= i < journal.entries@.len() ==> (#[trigger] journal.entries@[i]).index
                < old(self).capacity_of(journal.entries@[i].kind),
        ensures
            final(self).wf(),
            final(self).core_view() == undo_all(old(self).core_view(), journal.entries@),
            final(self).state_tree.depth == old(self).state_tree.depth,
            final(self).perpetual_state_tree.depth == old(self).perpetual_state_tree.depth,
            final(self).n_deposits == old(self).n_deposits,
            final(self).n_withdrawals == old(self).n_withdrawals,
            final(self).running_tx_count == old(self).running_tx_count,
            final(self).prices == old(self).prices,
            final(self).funding == old(self).funding,
            forall|x: u64| #[trigger] final(self).blocked_order_ids@.contains(x) <==> (old(self).blocked_order_ids@.contains(x)
                && !journal.blocked@.contains(x)),
            final(self).transactions@ == old(self).transactions@,
    {
        let RollbackInfo { entries, blocked } = journal;
        let mut entries = entries;
        let ghost es = entries@;
        let ghost v0 = self.core_view();
        let ghost spot_cap = self.state_tree.capacity();
        let ghost perp_cap = self.perpetual_state_tree.capacity();
        while entries.len() > 0
            invariant
                self.wf(),
                self.state_tree.depth == old(self).state_tree.depth,
                self.perpetual_state_tree.depth == old(self).perpetual_state_tree.depth,
                self.n_deposits == old(self).n_deposits,
                self.n_withdrawals == old(self).n_withdrawals,
                self.running_tx_count == old(self).running_tx_count,
                self.prices == old(self).prices,
                self.funding == old(self).funding,
                self.blocked_order_ids@ == old(self).blocked_order_ids@,
                self.transactions@ == old(self).transactions@,
                v0 == old(self).core_view(),
                es == journal.entries@,
                entries@.len() <= es.len(),
                entries@ == es.subrange(0, entries@.len() as int),
                forall|i: int| 0 <= i < es.len() ==> (#[trigger] es[i]).index < old(self).capacity_of(es[i].kind),
                undo_all(v0, es) == undo_all(self.core_view(), entries@),
            decreases entries@.len(),
        {
            let ghost before = entries@;
            let e = entries.pop().unwrap();
            assert(entries@ == before.drop_last());
            assert(e == es[entries@.len() as int]);
            let ghost v = self.core_view();
            match e.kind {
                TreeKind::Spot => {
                    self.state_tree.update_leaf_node(&e.prev_leaf, e.index);
                    match e.prev_update {
                        Some(h) => self.updated_note_hashes.insert(e.index, h),
                        None => self.updated_note_hashes.remove(e.index),
                    }
                    assert(self.core_view().spot =~= v.spot.insert(e.index, e.prev_leaf));
                },
                TreeKind::Perpetual => {
                    self.perpetual_state_tree.update_leaf_node(&e.prev_leaf, e.index);
                    match e.prev_update {
                        Some(h) => self.perpetual_updated_position_hashes.insert(e.index, h),
                        None => self.perpetual_updated_position_hashes.remove(e.index),
                    }
                    assert(self.core_view().perp =~= v.perp.insert(e.index, e.prev_leaf));
                },
            }
            assert(self.core_view() == undo_entry(v, e));
        }
        assert(entries@.len() == 0);
        let mut k: usize = 0;
        while k < blocked.len()
            invariant
                self.wf(),
                self.state_tree.depth == old(self).state_tree.depth,
                self.perpetual_state_tree.depth == old(self).perpetual_state_tree.depth,
                self.n_deposits == old(self).n_deposits,
                self.n_withdrawals == old(self).n_withdrawals,
                self.running_tx_count == old(self).running_tx_count,
                self.prices == old(self).prices,
                self.funding == old(self).funding,
                self.transactions@ == old(self).transactions@,
                self.core_view() == undo_all(old(self).core_view(), journal.entries@),
                blocked@ == journal.blocked@,
                k <= blocked@.len(),
                forall|x: u64| #[trigger] self.blocked_order_ids@.contains(x) <==> (old(self).blocked_order_ids@.contains(x)
                    && !blocked@.take(k as int).contains(x)),
            decreases blocked@.len() - k,
        {
            self.unblock_order_id(blocked[k]);
            proof {
                assert forall|x: u64| #[trigger] blocked@.take(k + 1).contains(x) <==> (blocked@.take(k as int).contains(x) || x == blocked@[k as int]) by {
                    if blocked@.take(k + 1).contains(x) {
                        let q = choose|q: int| 0 <= q < k + 1 && #[trigger] blocked@.take(k + 1)[q] == x;
                        if q < k {
                            assert(blocked@.take(k as int)[q] == x);
                        }
                    }
                    if blocked@.take(k as int).contains(x) {
                        let q = choose|q: int| 0 <= q < k && #[trigger] blocked@.take(k as int)[q] == x;
                        assert(blocked@.take(k + 1)[q] == x);
                    }
                    if x == blocked@[k as int] {
                        assert(blocked@.take(k + 1)[k as int] == x);
                    }
                }
            }
            k = k + 1;
        }
        assert(blocked@.take(k as int) =~= blocked@);
    }
}

/// A write that goes through only where its leaf is inside the tree and
/// holds `expected`; otherwise the transaction fails with `error`.
#[derive(Clone, Copy, Debug, PartialEq, Eq, Structural)]
pub struct GuardedWrite {
    pub write: LeafWrite,
    pub expected: FieldElement,
    pub error: TransactionError,
}

pub open spec fn leaf_in(v: StateView, kind: TreeKind, index: u64) -> FieldElement {
    match kind {
        TreeKind::Spot => v.spot[index],
        TreeKind::Perpetual => v.perp[index],
    }
}

pub open spec fn writes_of(gs: Seq<GuardedWrite>) -> Seq<LeafWrite> {
    Seq::new(gs.len(), |i: int| gs[i].write)
}

/// The first guard among `gs` that fails when they are applied in order
/// from `v`, with tree sizes `caps`.
pub open spec fn guarded_error(v: StateView, gs: Seq<GuardedWrite>, spot_cap: nat, perp_cap: nat) -> Option<
    TransactionError,
>
    decreases gs.len(),
{
    if gs.len() == 0 {
        None
    } else {
        match guarded_error(v, gs.drop_last(), spot_cap, perp_cap) {
            Some(e) => Some(e),
            None => {
                let g = gs.last();
                let cap = match g.write.kind {
                    TreeKind::Spot => spot_cap,
                    TreeKind::Perpetual => perp_cap,
                };
                if g.write.index >= cap {
                    Some(TransactionError::IndexOutOfRange)
                } else if leaf_in(apply_writes(v, writes_of(gs.drop_last())), g.write.kind, g.write.index) != g.expected {
                    Some(g.error)
                } else {
                    None
                }
            },
        }
    }
}

proof fn lemma_state_view_total(b: TransactionBatch)
    ensures
        total_view(b.core_view()),
{
}

proof fn lemma_writes_of_take(gs: Seq<GuardedWrite>, i: int)
    requires
        0 <= i < gs.len(),
    ensures
        writes_of(gs.take(i + 1)).drop_last() == writes_of(gs.take(i)),
        writes_of(gs.take(i + 1)).last() == gs[i].write,
        gs.take(i + 1).drop_last() == gs.take(i),
{
    assert(writes_of(gs.take(i + 1)).drop_last() =~= writes_of(gs.take(i)));
    assert(gs.take(i + 1).drop_last() =~= gs.take(i));
}

/// The record of a transaction that went through: its kind, the writes it
/// made, in order, the notes it spent and created, and the leaves it newly
/// took. Replaying the writes restores its effect.
pub struct TransactionRecord {
    pub kind: TxKind,
    pub writes: Vec<LeafWrite>,
    pub notes_in: Vec<Note>,
    pub notes_out: Vec<Note>,
    pub new_indices: Vec<u64>,
}

/// The kinds of transaction.
#[derive(Clone, Copy, Debug, PartialEq, Eq, Structural)]
pub enum TxKind {
    Deposit,
    Withdrawal,
    Swap,
    PerpetualSwap,
    Liquidation,
    MarginChange,
    NoteSplit,
}

impl TxKind {
    /// The name that the transcript gives this kind.
    pub fn transaction_type(&self) -> (r: &'static str)
        ensures
            r@ == tx_type_name(*self),
    {
        match self {
            TxKind::Deposit => "deposit",
            TxKind::Withdrawal => "withdrawal",
            TxKind::Swap => "swap",
            TxKind::PerpetualSwap => "perpetual_swap",
            TxKind::Liquidation => "liquidation",
            TxKind::MarginChange => "margin_change",
            TxKind::NoteSplit => "note_split",
        }
    }
}

pub open spec fn tx_type_name(k: TxKind) -> Seq<char> {
    match k {
        TxKind::Deposit => "deposit"@,
        TxKind::Withdrawal => "withdrawal"@,
        TxKind::Swap => "swap"@,
        TxKind::PerpetualSwap => "perpetual_swap"@,
        TxKind::Liquidation => "liquidation"@,
        TxKind::MarginChange => "margin_change"@,
        TxKind::NoteSplit => "note_split"@,
    }
}

/// The guarded writes of a deposit: each note lands on an empty leaf.
pub open spec fn deposit_guards(notes: Seq<Note>) -> Seq<GuardedWrite> {
    Seq::new(
        notes.len(),
        |i: int| GuardedWrite {
            write: LeafWrite { kind: TreeKind::Spot, index: notes[i].index, hash: notes[i].hash },
            expected: zero_spec(),
            error: TransactionError::LeafOccupied,
        },
    )
}

/// The guarded writes of a withdrawal: each input note is live and is
/// emptied; then the refund note, if any, lands on an empty leaf.
pub open spec fn withdrawal_guards(notes_in: Seq<Note>, refund: Option<Note>) -> Seq<GuardedWrite> {
    let spend = Seq::new(
        notes_in.len(),
        |i: int| GuardedWrite {
            write: LeafWrite { kind: TreeKind::Spot, index: notes_in[i].index, hash: zero_spec() },
            expected: notes_in[i].hash,
            error: TransactionError::NoteDoesNotExist,
        },
    );
    match refund {
        Some(n) => spend.push(
            GuardedWrite {
                write: LeafWrite { kind: TreeKind::Spot, index: n.index, hash: n.hash },
                expected: zero_spec(),
                error: TransactionError::LeafOccupied,
            },
        ),
        None => spend,
    }
}

/// The sum of the amounts of some notes.
pub open spec fn sum_amounts(notes: Seq<Note>) -> int
    decreases notes.len(),
{
    if notes.len() == 0 {
        0
    } else {
        sum_amounts(notes.drop_last()) + notes.last().amount
    }
}

/// Whether every note is of `token`.
pub open spec fn all_of_token(notes: Seq<Note>, token: u64) -> bool {
    forall|i: int| 0 <= i < notes.len() ==> (#[trigger] notes[i]).token == token
}

/// Whether `new` is the transcript `old` with one more record, of `kind`,
/// with the writes `ws`, the notes spent `ins` and created `outs`, and the
/// newly taken leaves `idxs`.
pub open spec fn recorded(
    old: Seq<TransactionRecord>,
    new: Seq<TransactionRecord>,
    kind: TxKind,
    ws: Seq<LeafWrite>,
    ins: Seq<Note>,
    outs: Seq<Note>,
    idxs: Seq<u64>,
) -> bool {
    &&& new.len() == old.len() + 1
    &&& new.drop_last() == old
    &&& new.last().kind == kind
    &&& new.last().writes@ == ws
    &&& new.last().notes_in@ == ins
    &&& new.last().notes_out@ == outs
    &&& new.last().new_indices@ == idxs
}

/// The notes of an optional note.
pub open spec fn opt_notes(n: Option<Note>) -> Seq<Note> {
    match n {
        Some(x) => seq![x],
        None => Seq::empty(),
    }
}

fn copy_notes(v: &Vec<Note>) -> (r: Vec<Note>)
    ensures
        r@ == v@,
{
    let mut r: Vec<Note> = Vec::new();
    let mut i: usize = 0;
    while i < v.len()
        invariant
            i <= v@.len(),
            r@ =~= v@.take(i as int),
        decreases v@.len() - i,
    {
        r.push(v[i]);
        i = i + 1;
    }
    assert(v@.take(i as int) =~= v@);
    r
}

fn notes_of_option(n: Option<Note>) -> (r: Vec<Note>)
    ensures
        r@ == opt_notes(n),
{
    let mut r: Vec<Note> = Vec::new();
    if let Some(x) = n {
        r.push(x);
    }
    assert(r@ =~= opt_notes(n));
    r
}

fn writes_vec(gs: &Vec<GuardedWrite>) -> (r: Vec<LeafWrite>)
    ensures
        r@ == writes_of(gs@),
{
    let mut r: Vec<LeafWrite> = Vec::new();
    let mut i: usize = 0;
    while i < gs.len()
        invariant
            i <= gs@.len(),
            r@ =~= writes_of(gs@.take(i as int)),
        decreases gs@.len() - i,
    {
        r.push(gs[i].write);
        i = i + 1;
    }
    assert(gs@.take(i as int) =~= gs@);
    r
}

impl TransactionBatch {
    /// Appends a record to the transcript.
    fn record(&mut self, kind: TxKind, writes: Vec<LeafWrite>, notes_in: Vec<Note>, notes_out: Vec<Note>, new_indices: Vec<u64>)
        ensures
            recorded(old(self).transactions@, final(self).transactions@, kind, writes@, notes_in@, notes_out@, new_indices@),
            final(self).core_view() == old(self).core_view(),
            final(self).wf() == old(self).wf(),
            final(self).state_tree == old(self).state_tree,
            final(self).perpetual_state_tree == old(self).perpetual_state_tree,
            final(self).n_deposits == old(self).n_deposits,
            final(self).n_withdrawals == old(self).n_withdrawals,
            final(self).running_tx_count == old(self).running_tx_count,
            final(self).prices == old(self).prices,
            final(self).funding == old(self).funding,
            final(self).blocked_order_ids@ == old(self).blocked_order_ids@,
    {
        self.transactions.push(TransactionRecord { kind, writes, notes_in, notes_out, new_indices });
        assert(self.transactions@.drop_last() =~= old(self).transactions@);
    }

    /// Applies guarded writes and, where they go through, records them.
    fn apply_and_record(
        &mut self,
        kind: TxKind,
        gs: &Vec<GuardedWrite>,
        notes_in: Vec<Note>,
        notes_out: Vec<Note>,
        new_indices: Vec<u64>,
    ) -> (r: Result<(), TransactionError>)
        requires
            old(self).wf(),
        ensures
            final(self).wf(),
            final(self).state_tree.depth == old(self).state_tree.depth,
            final(self).perpetual_state_tree.depth == old(self).perpetual_state_tree.depth,
            final(self).n_deposits == old(self).n_deposits,
            final(self).n_withdrawals == old(self).n_withdrawals,
            final(self).running_tx_count == old(self).running_tx_count,
            final(self).prices == old(self).prices,
            final(self).funding == old(self).funding,
            final(self).blocked_order_ids@ == old(self).blocked_order_ids@,
            r == (match guarded_error(old(self).core_view(), gs@, old(self).capacity_of(TreeKind::Spot), old(self).capacity_of(TreeKind::Perpetual)) {
                None => Ok::<(), TransactionError>(()),
                Some(e) => Err(e),
            }),
            r is Ok ==> final(self).core_view() == apply_writes(old(self).core_view(), writes_of(gs@)),
            r is Ok ==> recorded(old(self).transactions@, final(self).transactions@, kind, writes_of(gs@), notes_in@, notes_out@, new_indices@),
            r is Err ==> final(self).core_view() == old(self).core_view(),
            r is Err ==> final(self).transactions@ == old(self).transactions@,
    {
        let r = self.apply_guarded(gs);
        if r.is_ok() {
            let ws = writes_vec(gs);
            self.record(kind, ws, notes_in, notes_out, new_indices);
        }
        r
    }
}

impl TransactionBatch {
    /// Applies guarded writes in order, as one transaction: if a guard
    /// fails, every write already made is undone and the state is exactly
    /// what it was.
    pub fn apply_guarded(&mut self, gs: &Vec<GuardedWrite>) -> (r: Result<(), TransactionError>)
        requires
            old(self).wf(),
        ensures
            final(self).wf(),
            final(self).state_tree.depth == old(self).state_tree.depth,
            final(self).perpetual_state_tree.depth == old(self).perpetual_state_tree.depth,
            final(self).n_deposits == old(self).n_deposits,
            final(self).n_withdrawals == old(self).n_withdrawals,
            final(self).running_tx_count == old(self).running_tx_count,
            final(self).prices == old(self).prices,
            final(self).funding == old(self).funding,
            final(self).blocked_order_ids@ == old(self).blocked_order_ids@,
            r == (match guarded_error(old(self).core_view(), gs@, old(self).capacity_of(TreeKind::Spot), old(self).capacity_of(TreeKind::Perpetual)) {
                None => Ok::<(), TransactionError>(()),
                Some(e) => Err(e),
            }),
            r is Ok ==> final(self).core_view() == apply_writes(old(self).core_view(), writes_of(gs@)),
            r is Err ==> final(self).core_view() == old(self).core_view(),
            final(self).transactions@ == old(self).transactions@,
    {
        let ghost v0 = self.core_view();
        let ghost sc = self.capacity_of(TreeKind::Spot);
        let ghost pc = self.capacity_of(TreeKind::Perpetual);
        proof {
            lemma_state_view_total(*self);
            assert(writes_of(gs@.take(0)) =~= Seq::<LeafWrite>::empty());
            assert(gs@.take(0) =~= Seq::<GuardedWrite>::empty());
        }
        let mut journal = RollbackInfo { entries: Vec::new(), blocked: Vec::new() };
        let mut i: usize = 0;
        while i < gs.len()
            invariant
                self.wf(),
                i <= gs@.len(),
                v0 == old(self).core_view(),
                sc == old(self).capacity_of(TreeKind::Spot),
                pc == old(self).capacity_of(TreeKind::Perpetual),
                total_view(v0),
                self.state_tree.depth == old(self).state_tree.depth,
                self.perpetual_state_tree.depth == old(self).perpetual_state_tree.depth,
                self.n_deposits == old(self).n_deposits,
                self.n_withdrawals == old(self).n_withdrawals,
                self.running_tx_count == old(self).running_tx_count,
                self.prices == old(self).prices,
                self.funding == old(self).funding,
                self.blocked_order_ids@ == old(self).blocked_order_ids@,
                self.transactions@ == old(self).transactions@,
                guarded_error(v0, gs@.take(i as int), sc, pc) is None,
                self.core_view() == apply_writes(v0, writes_of(gs@.take(i as int))),
                journal.blocked@ == Seq::<u64>::empty(),
                journal.entries@ == journal_of(v0, writes_of(gs@.take(i as int))),
                forall|j: int| 0 <= j < journal.entries@.len() ==> (#[trigger] journal.entries@[j]).index
                    < self.capacity_of(journal.entries@[j].kind),
            decreases gs@.len() - i,
        {
            let g = gs[i];
            proof {
                lemma_writes_of_take(gs@, i as int);
            }
            let ok_index = self.in_range(g.write.kind, g.write.index);
            let failure = if !ok_index {
                Some(TransactionError::IndexOutOfRange)
            } else if self.leaf(g.write.kind, g.write.index) != g.expected {
                Some(g.error)
            } else {
                None
            };
            if let Some(e) = failure {
                proof {
                    assert(guarded_error(v0, gs@.take(i as int + 1), sc, pc) == Some(e));
                    assert(gs@.take(gs@.len() as int) =~= gs@);
                    lemma_guarded_error_prefix(v0, gs@, i as int + 1, gs@.len() as int, sc, pc);
                    lemma_rollback_isolation(v0, writes_of(gs@.take(i as int)));
                }
                self.rollback_transaction(journal);
                assert(self.blocked_order_ids@ =~= old(self).blocked_order_ids@);
                return Err(e);
            }
            self.write_leaf(&mut journal, g.write);
            i = i + 1;
        }
        proof {
            assert(gs@.take(i as int) =~= gs@);
        }
        Ok(())
    }

    /// Adds deposited notes, each on an empty leaf of the spot tree. On
    /// failure nothing changes.
    pub fn execute_deposit(&mut self, notes: &Vec<Note>) -> (r: Result<(), TransactionError>)
        requires
            old(self).wf(),
        ensures
            final(self).wf(),
            r == (match guarded_error(old(self).core_view(), deposit_guards(notes@), old(self).capacity_of(TreeKind::Spot), old(self).capacity_of(TreeKind::Perpetual)) {
                None => Ok::<(), TransactionError>(()),
                Some(e) => Err(e),
            }),
            r is Ok ==> final(self).core_view() == apply_writes(old(self).core_view(), writes_of(deposit_guards(notes@))),
            r is Ok ==> recorded(old(self).transactions@, final(self).transactions@, TxKind::Deposit, writes_of(deposit_guards(notes@)), Seq::empty(), notes@, Seq::empty()),
            r is Err ==> final(self).core_view() == old(self).core_view(),
            r is Err ==> final(self).transactions@ == old(self).transactions@,
            final(self).state_tree.depth == old(self).state_tree.depth,
            final(self).perpetual_state_tree.depth == old(self).perpetual_state_tree.depth,
            final(self).n_deposits == old(self).n_deposits,
            final(self).n_withdrawals == old(self).n_withdrawals,
            final(self).running_tx_count == old(self).running_tx_count,
            final(self).prices == old(self).prices,
            final(self).funding == old(self).funding,
            final(self).blocked_order_ids@ == old(self).blocked_order_ids@,
    {
        let mut gs: Vec<GuardedWrite> = Vec::new();
        let mut i: usize = 0;
        while i < notes.len()
            invariant
                i <= notes@.len(),
                gs@ =~= deposit_guards(notes@.take(i as int)),
            decreases notes@.len() - i,
        {
            let n = notes[i];
            gs.push(GuardedWrite {
                write: LeafWrite { kind: TreeKind::Spot, index: n.index, hash: n.hash },
                expected: FieldElement::zero(),
                error: TransactionError::LeafOccupied,
            });
            i = i + 1;
            assert(gs@ =~= deposit_guards(notes@.take(i as int)));
        }
        assert(notes@.take(i as int) =~= notes@);
        self.apply_and_record(TxKind::Deposit, &gs, Vec::new(), copy_notes(notes), Vec::new())
    }

    /// Spends live notes of one token and creates at most one refund note;
    /// the inputs must sum to the amount withdrawn plus the refund. On
    /// failure nothing changes.
    pub fn execute_withdrawal(&mut self, token: u64, amount: u64, notes_in: &Vec<Note>, refund_note: Option<Note>) -> (r: Result<(), TransactionError>)
        requires
            old(self).wf(),
        ensures
            final(self).wf(),
            !all_of_token(notes_in@, token) || (refund_note is Some && refund_note->0.token != token) ==> r == Err::<(), TransactionError>(TransactionError::InvalidToken),
            all_of_token(notes_in@, token) && !(refund_note is Some && refund_note->0.token != token) ==> {
                if sum_amounts(notes_in@) != amount + (if refund_note is Some { refund_note->0.amount as int } else { 0 }) {
                    r == Err::<(), TransactionError>(TransactionError::AmountMismatch)
                } else {
                    r == (match guarded_error(old(self).core_view(), withdrawal_guards(notes_in@, refund_note), old(self).capacity_of(TreeKind::Spot), old(self).capacity_of(TreeKind::Perpetual)) {
                        None => Ok::<(), TransactionError>(()),
                        Some(e) => Err(e),
                    })
                }
            },
            r is Ok ==> final(self).core_view() == apply_writes(old(self).core_view(), writes_of(withdrawal_guards(notes_in@, refund_note))),
            r is Ok ==> recorded(old(self).transactions@, final(self).transactions@, TxKind::Withdrawal, writes_of(withdrawal_guards(notes_in@, refund_note)), notes_in@, opt_notes(refund_note), Seq::empty()),
            r is Err ==> final(self).core_view() == old(self).core_view(),
            r is Err ==> final(self).transactions@ == old(self).transactions@,
            final(self).state_tree.depth == old(self).state_tree.depth,
            final(self).perpetual_state_tree.depth == old(self).perpetual_state_tree.depth,
            final(self).n_deposits == old(self).n_deposits,
            final(self).n_withdrawals == old(self).n_withdrawals,
            final(self).running_tx_count == old(self).running_tx_count,
            final(self).prices == old(self).prices,
            final(self).funding == old(self).funding,
            final(self).blocked_order_ids@ == old(self).blocked_order_ids@,
    {
        let mut gs: Vec<GuardedWrite> = Vec::new();
        let mut sum: u128 = 0;
        let mut i: usize = 0;
        while i < notes_in.len()
            invariant
                *self == *old(self),
                self.wf(),
                i <= notes_in@.len(),
                all_of_token(notes_in@.take(i as int), token),
                sum == sum_amounts(notes_in@.take(i as int)),
                sum <= i * 0xffff_ffff_ffff_ffff,
                gs@ =~= withdrawal_guards(notes_in@.take(i as int), None),
            decreases notes_in@.len() - i,
        {
            let n = notes_in[i];
            proof {
                assert(notes_in@.take(i + 1).drop_last() =~= notes_in@.take(i as int));
            }
            if n.token != token {
                proof {
                    assert(notes_in@[i as int].token != token);
                }
                return Err(TransactionError::InvalidToken);
            }
            assert(sum + n.amount <= (i + 1) * 0xffff_ffff_ffff_ffff) by (nonlinear_arith)
                requires
                    sum <= i * 0xffff_ffff_ffff_ffff,
                    n.amount <= 0xffff_ffff_ffff_ffff,
            ;
            assert(i + 1 <= 0xffff_ffff_ffff_ffff);
            assert((i + 1) * 0xffff_ffff_ffff_ffff <= 0xffff_ffff_ffff_ffff * 0xffff_ffff_ffff_ffff) by (nonlinear_arith)
                requires
                    i + 1 <= 0xffff_ffff_ffff_ffff,
            ;
            sum = sum + n.amount as u128;
            gs.push(GuardedWrite {
                write: LeafWrite { kind: TreeKind::Spot, index: n.index, hash: FieldElement::zero() },
                expected: n.hash,
                error: TransactionError::NoteDoesNotExist,
            });
            i = i + 1;
            assert(gs@ =~= withdrawal_guards(notes_in@.take(i as int), None));
        }
        assert(notes_in@.take(i as int) =~= notes_in@);
        let refund_amount: u64 = match refund_note {
            Some(n) => {
                if n.token != token {
                    return Err(TransactionError::InvalidToken);
                }
                gs.push(GuardedWrite {
                    write: LeafWrite { kind: TreeKind::Spot, index: n.index, hash: n.hash },
                    expected: FieldElement::zero(),
                    error: TransactionError::LeafOccupied,
                });
                n.amount
            },
            None => 0,
        };
        assert(gs@ =~= withdrawal_guards(notes_in@, refund_note));
        if sum != amount as u128 + refund_amount as u128 {
            return Err(TransactionError::AmountMismatch);
        }
        self.apply_and_record(TxKind::Withdrawal, &gs, copy_notes(notes_in), notes_of_option(refund_note), Vec::new())
    }
}

proof fn lemma_guarded_error_prefix(v: StateView, gs: Seq<GuardedWrite>, k: int, n: int, sc: nat, pc: nat)
    requires
        0 <= k <= n <= gs.len(),
        guarded_error(v, gs.take(k), sc, pc) is Some,
    ensures
        guarded_error(v, gs.take(n), sc, pc) == guarded_error(v, gs.take(k), sc, pc),
    decreases n - k,
{
    if n > k {
        lemma_guarded_error_prefix(v, gs, k, n - 1, sc, pc);
        assert(gs.take(n).drop_last() =~= gs.take(n - 1));
    }
}

/// The first reason, if any, why input notes of `token` cannot be spent in
/// state `v`, checking them in order.
pub open spec fn input_error(v: StateView, ins: Seq<Note>, token: u64, cap: nat) -> Option<TransactionError>
    decreases ins.len(),
{
    if ins.len() == 0 {
        None
    } else {
        match input_error(v, ins.drop_last(), token, cap) {
            Some(e) => Some(e),
            None => {
                let n = ins.last();
                if n.token != token {
                    Some(TransactionError::InvalidToken)
                } else if n.index >= cap {
                    Some(TransactionError::IndexOutOfRange)
                } else if v.spot[n.index] != n.hash {
                    Some(TransactionError::NoteDoesNotExist)
                } else {
                    None
                }
            },
        }
    }
}

/// Whether two notes name the same leaf.
pub open spec fn has_duplicate_index(ins: Seq<Note>) -> bool {
    exists|i: int, j: int| 0 <= i < j < ins.len() && (#[trigger] ins[i]).index == (#[trigger] ins[j]).index
}

/// Why a split of `ins` into the two notes `outs` is refused, if it is: the
/// inputs must be live notes of one token on distinct leaves; the outputs of
/// that token, the first with the first input's address and blinding, the
/// second with the last input's; and the amounts must add up.
pub open spec fn split_error(v: StateView, ins: Seq<Note>, outs: Seq<Note>, cap: nat) -> Option<TransactionError> {
    let token = ins[0].token;
    match input_error(v, ins, token, cap) {
        Some(e) => Some(e),
        None => if has_duplicate_index(ins) {
            Some(TransactionError::DuplicateNote)
        } else if outs[0].token != token || outs[1].token != token {
            Some(TransactionError::InvalidToken)
        } else if outs[0].blinding != ins[0].blinding || outs[0].address_x != ins[0].address_x || outs[1].blinding
            != ins.last().blinding || outs[1].address_x != ins.last().address_x {
            Some(TransactionError::AddressBlindingMismatch)
        } else if sum_amounts(ins) != outs[0].amount + outs[1].amount {
            Some(TransactionError::AmountMismatch)
        } else {
            None
        },
    }
}

/// The writes of a split with at least two inputs: the outputs take the
/// first two inputs' leaves, and every further input's leaf is emptied.
pub open spec fn split_writes(ins: Seq<Note>, outs: Seq<Note>) -> Seq<LeafWrite> {
    seq![
        LeafWrite { kind: TreeKind::Spot, index: ins[0].index, hash: outs[0].hash },
        LeafWrite { kind: TreeKind::Spot, index: ins[1].index, hash: outs[1].hash },
    ] + Seq::new(
        (ins.len() - 2) as nat,
        |k: int| LeafWrite { kind: TreeKind::Spot, index: ins[k + 2].index, hash: zero_spec() },
    )
}

/// Whether `z` is the smallest index whose leaf is empty.
pub open spec fn is_first_zero(m: Map<u64, FieldElement>, z: u64) -> bool {
    &&& m[z] == zero_spec()
    &&& forall|i: u64| i < z ==> #[trigger] m[i] != zero_spec()
}

proof fn lemma_last_write(v: StateView, ws: Seq<LeafWrite>, p: int)
    requires
        0 <= p < ws.len(),
        ws[p].kind == TreeKind::Spot,
        forall|q: int| p < q < ws.len() ==> (#[trigger] ws[q]).index != ws[p].index,
    ensures
        apply_writes(v, ws).spot[ws[p].index] == ws[p].hash,
    decreases ws.len(),
{
    if p < ws.len() - 1 {
        lemma_last_write(v, ws.drop_last(), p);
    }
}

proof fn lemma_sum_amounts_take(ns: Seq<Note>, i: int)
    requires
        0 <= i < ns.len(),
    ensures
        sum_amounts(ns.take(i + 1)) == sum_amounts(ns.take(i)) + ns[i].amount,
{
    assert(ns.take(i + 1).drop_last() =~= ns.take(i));
}

/// A split that goes through keeps the amount: its inputs sum to what its
/// two outputs sum to. Where it has more inputs than outputs, the leaves of
/// the surplus inputs end empty.
pub proof fn lemma_split_conservation(v: StateView, ins: Seq<Note>, outs: Seq<Note>, cap: nat)
    requires
        ins.len() >= 1,
        outs.len() == 2,
        split_error(v, ins, outs, cap) is None,
    ensures
        sum_amounts(ins) == sum_amounts(outs),
        ins.len() > 2 ==> forall|k: int| 2 <= k < ins.len() ==> apply_writes(v, split_writes(ins, outs)).spot[(
        #[trigger] ins[k]).index] == zero_spec(),
{
    let o1 = outs.drop_last();
    assert(o1.drop_last() =~= Seq::<Note>::empty());
    assert(sum_amounts(o1) == sum_amounts(o1.drop_last()) + o1.last().amount);
    assert(sum_amounts(outs) == sum_amounts(o1) + outs.last().amount);
    assert(sum_amounts(outs) == outs[0].amount + outs[1].amount);
    if ins.len() > 2 {
        let ws = split_writes(ins, outs);
        assert forall|k: int| 2 <= k < ins.len() implies apply_writes(v, ws).spot[(#[trigger] ins[k]).index]
            == zero_spec() by {
            assert(ws[k] == LeafWrite { kind: TreeKind::Spot, index: ins[k].index, hash: zero_spec() });
            assert forall|q: int| k < q < ws.len() implies (#[trigger] ws[q]).index != ws[k].index by {
                assert(ws[q].index == ins[q].index);
                assert(!(ins[k].index == ins[q].index));
            }
            lemma_last_write(v, ws, k);
        }
    }
}

impl TransactionBatch {
    /// Applies writes in order, each inside its tree.
    pub fn apply_leaf_writes(&mut self, ws: &Vec<LeafWrite>)
        requires
            old(self).wf(),
            forall|i: int| 0 <= i < ws@.len() ==> (#[trigger] ws@[i]).index < old(self).capacity_of(ws@[i].kind),
        ensures
            final(self).wf(),
            final(self).core_view() == apply_writes(old(self).core_view(), ws@),
            final(self).state_tree.depth == old(self).state_tree.depth,
            final(self).perpetual_state_tree.depth == old(self).perpetual_state_tree.depth,
            final(self).n_deposits == old(self).n_deposits,
            final(self).n_withdrawals == old(self).n_withdrawals,
            final(self).running_tx_count == old(self).running_tx_count,
            final(self).prices == old(self).prices,
            final(self).funding == old(self).funding,
            final(self).blocked_order_ids@ == old(self).blocked_order_ids@,
            final(self).transactions@ == old(self).transactions@,
    {
        let mut journal = RollbackInfo { entries: Vec::new(), blocked: Vec::new() };
        let mut i: usize = 0;
        proof {
            assert(ws@.take(0) =~= Seq::<LeafWrite>::empty());
        }
        while i < ws.len()
            invariant
                self.wf(),
                i <= ws@.len(),
                self.state_tree.depth == old(self).state_tree.depth,
                self.perpetual_state_tree.depth == old(self).perpetual_state_tree.depth,
                self.n_deposits == old(self).n_deposits,
                self.n_withdrawals == old(self).n_withdrawals,
                self.running_tx_count == old(self).running_tx_count,
                self.prices == old(self).prices,
                self.funding == old(self).funding,
                self.blocked_order_ids@ == old(self).blocked_order_ids@,
                self.transactions@ == old(self).transactions@,
                forall|j: int| 0 <= j < ws@.len() ==> (#[trigger] ws@[j]).index < old(self).capacity_of(ws@[j].kind),
                self.core_view() == apply_writes(old(self).core_view(), ws@.take(i as int)),
            decreases ws@.len() - i,
        {
            self.write_leaf(&mut journal, ws[i]);
            i = i + 1;
            assert(ws@.take(i as int).drop_last() =~= ws@.take(i - 1));
        }
        assert(ws@.take(i as int) =~= ws@);
    }

    /// Splits notes of one token into two: the outputs take the leaves of the
    /// first inputs, the leaves of further inputs are emptied, and with a
    /// single input the second output goes to the first empty leaf. Returns
    /// the leaves that the outputs took.
    #[verifier::rlimit(40)]
    pub fn split_notes(&mut self, notes_in: Vec<Note>, notes_out: Vec<Note>) -> (r: Result<Vec<u64>, TransactionError>)
        requires
            old(self).wf(),
            notes_in@.len() >= 1,
            notes_out@.len() == 2,
        ensures
            final(self).wf(),
            final(self).state_tree.depth == old(self).state_tree.depth,
            final(self).perpetual_state_tree.depth == old(self).perpetual_state_tree.depth,
            final(self).n_deposits == old(self).n_deposits,
            final(self).n_withdrawals == old(self).n_withdrawals,
            final(self).running_tx_count == old(self).running_tx_count,
            final(self).prices == old(self).prices,
            final(self).funding == old(self).funding,
            final(self).blocked_order_ids@ == old(self).blocked_order_ids@,
            r is Err ==> final(self).core_view() == old(self).core_view(),
            r is Err ==> final(self).transactions@ == old(self).transactions@,
            r is Ok && notes_in@.len() >= 2 ==> recorded(old(self).transactions@, final(self).transactions@, TxKind::NoteSplit, split_writes(notes_in@, notes_out@), notes_in@, notes_out@, r->Ok_0@),
            r is Ok && notes_in@.len() == 1 ==> recorded(old(self).transactions@, final(self).transactions@, TxKind::NoteSplit, seq![
                LeafWrite { kind: TreeKind::Spot, index: notes_in@[0].index, hash: notes_out@[0].hash },
                LeafWrite { kind: TreeKind::Spot, index: r->Ok_0@[1], hash: notes_out@[1].hash },
            ], notes_in@, notes_out@, r->Ok_0@),
            ({
                let v = old(self).core_view();
                let cap = old(self).capacity_of(TreeKind::Spot);
                let ins = notes_in@;
                let outs = notes_out@;
                match split_error(v, ins, outs, cap) {
                    Some(e) => r == Err::<Vec<u64>, TransactionError>(e),
                    None => if ins.len() >= 2 {
                        &&& r is Ok
                        &&& r->Ok_0@ == seq![ins[0].index, ins[1].index]
                        &&& final(self).core_view() == apply_writes(v, split_writes(ins, outs))
                    } else {
                        let w0 = LeafWrite { kind: TreeKind::Spot, index: ins[0].index, hash: outs[0].hash };
                        let v1 = apply_write(v, w0);
                        ||| (r is Ok && r->Ok_0@.len() == 2 && r->Ok_0@[0] == ins[0].index && is_first_zero(v1.spot, r->Ok_0@[1])
                            && r->Ok_0@[1] < cap && final(self).core_view() == apply_write(
                            v1,
                            LeafWrite { kind: TreeKind::Spot, index: r->Ok_0@[1], hash: outs[1].hash },
                        ))
                        ||| (r == Err::<Vec<u64>, TransactionError>(TransactionError::IndexOutOfRange) && is_first_zero(v1.spot, cap as u64))
                    },
                }
            }),
    {
        let ghost v = self.core_view();
        let ghost cap = self.capacity_of(TreeKind::Spot);
        let ghost ins = notes_in@;
        let token = notes_in[0].token;
        let mut sum_in: u128 = 0;
        let mut i: usize = 0;
        while i < notes_in.len()
            invariant
                *self == *old(self),
                self.wf(),
                v == self.core_view(),
                cap == self.capacity_of(TreeKind::Spot),
                ins == notes_in@,
                token == ins[0].token,
                i <= ins.len(),
                input_error(v, ins.take(i as int), token, cap) is None,
                sum_in == sum_amounts(ins.take(i as int)),
                sum_in <= i * 0xffff_ffff_ffff_ffff,
            decreases ins.len() - i,
        {
            let n = notes_in[i];
            proof {
                assert(ins.take(i + 1).drop_last() =~= ins.take(i as int));
                lemma_sum_amounts_take(ins, i as int);
            }
            if n.token != token {
                proof {
                    lemma_input_error_prefix(v, ins, i + 1, ins.len() as int, token, cap);
                    assert(ins.take(ins.len() as int) =~= ins);
                }
                return Err(TransactionError::InvalidToken);
            }
            if !self.in_range(TreeKind::Spot, n.index) {
                proof {
                    lemma_input_error_prefix(v, ins, i + 1, ins.len() as int, token, cap);
                    assert(ins.take(ins.len() as int) =~= ins);
                }
                return Err(TransactionError::IndexOutOfRange);
            }
            if self.state_tree.get_leaf_by_index(n.index) != n.hash {
                proof {
                    lemma_input_error_prefix(v, ins, i + 1, ins.len() as int, token, cap);
                    assert(ins.take(ins.len() as int) =~= ins);
                }
                return Err(TransactionError::NoteDoesNotExist);
            }
            assert(sum_in + n.amount <= (i + 1) * 0xffff_ffff_ffff_ffff) by (nonlinear_arith)
                requires
                    sum_in <= i * 0xffff_ffff_ffff_ffff,
                    n.amount <= 0xffff_ffff_ffff_ffff,
            ;
            assert(i + 1 <= 0xffff_ffff_ffff_ffff);
            assert((i + 1) * 0xffff_ffff_ffff_ffff <= 0xffff_ffff_ffff_ffff * 0xffff_ffff_ffff_ffff) by (nonlinear_arith)
                requires
                    i + 1 <= 0xffff_ffff_ffff_ffff,
            ;
            sum_in = sum_in + n.amount as u128;
            i = i + 1;
        }
        assert(ins.take(i as int) =~= ins);
        let mut a: usize = 0;
        while a < notes_in.len()
            invariant
                *self == *old(self),
                v == old(self).core_view(),
                cap == old(self).capacity_of(TreeKind::Spot),
                token == ins[0].token,
                self.wf(),
                input_error(v, ins, token, cap) is None,
                ins == notes_in@,
                a <= ins.len(),
                forall|x: int, y: int| 0 <= x < y < ins.len() && x < a ==> (#[trigger] ins[x]).index != (#[trigger] ins[y]).index,
            decreases ins.len() - a,
        {
            let mut b: usize = a + 1;
            while b < notes_in.len()
                invariant
                    *self == *old(self),
                v == old(self).core_view(),
                cap == old(self).capacity_of(TreeKind::Spot),
                token == ins[0].token,
                self.wf(),
                input_error(v, ins, token, cap) is None,
                    ins == notes_in@,
                    a < ins.len(),
                    a + 1 <= b <= ins.len(),
                    forall|x: int, y: int| 0 <= x < y < ins.len() && x < a ==> (#[trigger] ins[x]).index != (#[trigger] ins[y]).index,
                    forall|y: int| a < y < b ==> ins[a as int].index != (#[trigger] ins[y]).index,
                decreases ins.len() - b,
            {
                if notes_in[a].index == notes_in[b].index {
                    assert(ins[a as int].index == ins[b as int].index);
                    assert(has_duplicate_index(ins));
                    return Err(TransactionError::DuplicateNote);
                }
                b = b + 1;
            }
            a = a + 1;
        }
        let out1 = notes_out[0];
        let out2 = notes_out[1];
        if out1.token != token || out2.token != token {
            return Err(TransactionError::InvalidToken);
        }
        let in1 = notes_in[0];
        let in2 = notes_in[notes_in.len() - 1];
        if out1.blinding != in1.blinding || out1.address_x != in1.address_x || out2.blinding != in2.blinding
            || out2.address_x != in2.address_x {
            return Err(TransactionError::AddressBlindingMismatch);
        }
        if sum_in != out1.amount as u128 + out2.amount as u128 {
            return Err(TransactionError::AmountMismatch);
        }
        let mut new_idxs: Vec<u64> = Vec::new();
        if notes_in.len() >= 2 {
            let mut ws: Vec<LeafWrite> = Vec::new();
            ws.push(LeafWrite { kind: TreeKind::Spot, index: notes_in[0].index, hash: out1.hash });
            ws.push(LeafWrite { kind: TreeKind::Spot, index: notes_in[1].index, hash: out2.hash });
            new_idxs.push(notes_in[0].index);
            new_idxs.push(notes_in[1].index);
            let mut k: usize = 2;
            while k < notes_in.len()
                invariant
                    ins == notes_in@,
                    2 <= k <= ins.len(),
                    ws@ =~= split_writes(ins.take(k as int), notes_out@),
                decreases ins.len() - k,
            {
                ws.push(LeafWrite { kind: TreeKind::Spot, index: notes_in[k].index, hash: FieldElement::zero() });
                k = k + 1;
                assert(ws@ =~= split_writes(ins.take(k as int), notes_out@));
            }
            assert(ins.take(k as int) =~= ins);
            proof {
                assert forall|j: int| 0 <= j < ws@.len() implies (#[trigger] ws@[j]).index < self.capacity_of(ws@[j].kind) by {
                    lemma_input_ok(v, ins, token, cap, j);
                }
            }
            self.apply_leaf_writes(&ws);
            assert(new_idxs@ =~= seq![ins[0].index, ins[1].index]);
            let recorded_idxs = vec![new_idxs[0], new_idxs[1]];
            assert(recorded_idxs@ =~= new_idxs@);
            self.record(TxKind::NoteSplit, ws, notes_in, notes_out, recorded_idxs);
            Ok(new_idxs)
        } else {
            let mut journal = RollbackInfo { entries: Vec::new(), blocked: Vec::new() };
            proof {
                lemma_input_ok(v, ins, token, cap, 0);
            }
            let w0 = LeafWrite { kind: TreeKind::Spot, index: notes_in[0].index, hash: out1.hash };
            self.write_leaf(&mut journal, w0);
            let z = self.state_tree.first_zero_idx();
            proof {
                assert forall|q: u64| q < z implies #[trigger] self.core_view().spot[q] != zero_spec() by {
                    assert(self.state_tree.leaf(q as int) != zero_spec());
                }
            }
            if !self.in_range(TreeKind::Spot, z) {
                proof {
                    assert(z as nat <= cap);
                    lemma_state_view_total(*old(self));
                    let ws0 = seq![w0];
                    assert(ws0.drop_last() =~= Seq::<LeafWrite>::empty());
                    assert(apply_writes(v, ws0.drop_last()) == v);
                    assert(journal_of(v, ws0.drop_last()) =~= Seq::<JournalEntry>::empty());
                    assert(journal.entries@ =~= journal_of(v, ws0));
                    assert(self.core_view() == apply_writes(v, ws0));
                    lemma_rollback_isolation(v, ws0);
                }
                assert(journal.blocked@ == Seq::<u64>::empty());
                self.rollback_transaction(journal);
                assert(self.blocked_order_ids@ =~= old(self).blocked_order_ids@);
                return Err(TransactionError::IndexOutOfRange);
            }
            let w1 = LeafWrite { kind: TreeKind::Spot, index: z, hash: out2.hash };
            self.write_leaf(&mut journal, w1);
            let mut ws: Vec<LeafWrite> = Vec::new();
            ws.push(w0);
            ws.push(w1);
            assert(ws@ =~= seq![w0, w1]);
            new_idxs.push(notes_in[0].index);
            new_idxs.push(z);
            let recorded_idxs = vec![notes_in[0].index, z];
            assert(recorded_idxs@ =~= new_idxs@);
            self.record(TxKind::NoteSplit, ws, notes_in, notes_out, recorded_idxs);
            Ok(new_idxs)
        }
    }
}

proof fn lemma_input_error_prefix(v: StateView, ins: Seq<Note>, k: int, n: int, token: u64, cap: nat)
    requires
        0 <= k <= n <= ins.len(),
        input_error(v, ins.take(k), token, cap) is Some,
    ensures
        input_error(v, ins.take(n), token, cap) == input_error(v, ins.take(k), token, cap),
    decreases n - k,
{
    if n > k {
        lemma_input_error_prefix(v, ins, k, n - 1, token, cap);
        assert(ins.take(n).drop_last() =~= ins.take(n - 1));
    }
}

proof fn lemma_input_ok(v: StateView, ins: Seq<Note>, token: u64, cap: nat, t: int)
    requires
        0 <= t < ins.len(),
        input_error(v, ins, token, cap) is None,
    ensures
        ins[t].index < cap,
        ins[t].token == token,
        v.spot[ins[t].index] == ins[t].hash,
    decreases ins.len(),
{
    if t < ins.len() - 1 {
        lemma_input_ok(v, ins.drop_last(), token, cap, t);
    }
}

/// The number of entries whose hash is empty (`zero` true) or not.
pub open spec fn count_hashes(es: Seq<(u64, FieldElement)>, zero: bool) -> nat
    decreases es.len(),
{
    if es.len() == 0 {
        0
    } else {
        count_hashes(es.drop_last(), zero) + if (es.last().1 == zero_spec()) == zero {
            1nat
        } else {
            0nat
        }
    }
}

/// What a finalized batch hands to the prover: the written leaves of each
/// tree in ascending order of index, with their counts, and the batch's
/// deposit and withdrawal counts.
pub struct BatchOutput {
    pub note_updates: Vec<(u64, FieldElement)>,
    pub position_updates: Vec<(u64, FieldElement)>,
    pub num_output_notes: u32,
    pub num_zero_notes: u32,
    pub num_output_positions: u32,
    pub num_empty_positions: u32,
    pub n_deposits: u32,
    pub n_withdrawals: u32,
}

/// The abstract content of a batch output.
pub struct BatchOutputView {
    pub note_updates: Seq<(u64, FieldElement)>,
    pub position_updates: Seq<(u64, FieldElement)>,
    pub counts: (nat, nat, nat, nat),
    pub n_deposits: u32,
    pub n_withdrawals: u32,
}

impl BatchOutput {
    pub open spec fn view(&self) -> BatchOutputView {
        BatchOutputView {
            note_updates: self.note_updates@,
            position_updates: self.position_updates@,
            counts: (
                self.num_output_notes as nat,
                self.num_zero_notes as nat,
                self.num_output_positions as nat,
                self.num_empty_positions as nat,
            ),
            n_deposits: self.n_deposits,
            n_withdrawals: self.n_withdrawals,
        }
    }
}

/// The output that finalizing a batch in this state gives.
pub open spec fn finalize_output(b: TransactionBatch) -> BatchOutputView {
    let notes = b.updated_note_hashes.entries@;
    let positions = b.perpetual_updated_position_hashes.entries@;
    BatchOutputView {
        note_updates: notes,
        position_updates: positions,
        counts: (
            count_hashes(notes, false),
            count_hashes(notes, true),
            count_hashes(positions, false),
            count_hashes(positions, true),
        ),
        n_deposits: b.n_deposits,
        n_withdrawals: b.n_withdrawals,
    }
}

/// Two batches whose trees, written leaves and counters agree give the same
/// output, whatever order their transactions ran in: the output depends on
/// the state alone.
pub proof fn lemma_finalize_determinism(a: TransactionBatch, b: TransactionBatch)
    requires
        a.wf(),
        b.wf(),
        a.core_view() == b.core_view(),
        a.n_deposits == b.n_deposits,
        a.n_withdrawals == b.n_withdrawals,
    ensures
        finalize_output(a) == finalize_output(b),
{
    crate::updates::lemma_updates_listing_determined(a.updated_note_hashes, b.updated_note_hashes);
    crate::updates::lemma_updates_listing_determined(
        a.perpetual_updated_position_hashes,
        b.perpetual_updated_position_hashes,
    );
}

/// All the writes of some records, in order.
pub open spec fn record_writes(rs: Seq<TransactionRecord>) -> Seq<LeafWrite>
    decreases rs.len(),
{
    if rs.len() == 0 {
        Seq::empty()
    } else {
        record_writes(rs.drop_last()) + rs.last().writes@
    }
}

/// The number of records of the given kinds.
pub open spec fn count_kind(rs: Seq<TransactionRecord>, k1: TxKind, k2: TxKind, k3: TxKind) -> nat
    decreases rs.len(),
{
    if rs.len() == 0 {
        0
    } else {
        count_kind(rs.drop_last(), k1, k2, k3) + if rs.last().kind == k1 || rs.last().kind == k2 || rs.last().kind
            == k3 {
            1nat
        } else {
            0nat
        }
    }
}

pub open spec fn add_sat_u32(a: u32, n: nat) -> u32 {
    if a + n > u32::MAX {
        u32::MAX
    } else {
        (a + n) as u32
    }
}

pub open spec fn add_sat_u16(a: u16, n: nat) -> u16 {
    if a + n > u16::MAX {
        u16::MAX
    } else {
        (a + n) as u16
    }
}

/// Why a persisted transcript could not be replayed.
#[derive(Clone, Copy, Debug, PartialEq, Eq, Structural)]
pub enum RestoreError {
    /// A write outside its tree.
    IndexOutOfRange,
}

/// A perpetual position, as the margin logic reads it.
#[derive(Clone, Copy, Debug, PartialEq, Eq, Structural)]
pub struct PerpPosition {
    pub index: u32,
    pub synthetic_token: u64,
    pub collateral_token: u64,
    pub margin: u64,
    pub hash: FieldElement,
}

/// A request to move collateral into (`margin_change` above zero) or out of
/// a position. Adding spends `notes_in`, with an optional refund note;
/// removing creates `return_note` on the first empty leaf.
/// `new_position_hash` is the position's commitment after the change, and
/// `signature_valid` the outcome of checking the owner's signature over the
/// request.
pub struct ChangeMarginMessage {
    pub position: PerpPosition,
    pub signature_valid: bool,
    pub margin_change: i64,
    pub new_position_hash: FieldElement,
    pub notes_in: Vec<Note>,
    pub refund_note: Option<Note>,
    pub return_note: Option<Note>,
}

/// The margin after a change, where it stays within `u64`.
pub open spec fn new_margin(margin: u64, change: i64) -> Option<u64> {
    let m = margin + change;
    if 0 <= m <= u64::MAX {
        Some(m as u64)
    } else {
        None
    }
}

/// The guarded writes of adding margin: the input notes are live and are
/// emptied, the refund note, if any, then lands on an empty leaf (one of the
/// inputs' leaves or another), and the position takes its new hash.
pub open spec fn add_margin_guards(m: ChangeMarginMessage) -> Seq<GuardedWrite> {
    let ins = m.notes_in@;
    let spend = Seq::new(
        ins.len(),
        |i: int| GuardedWrite {
            write: LeafWrite { kind: TreeKind::Spot, index: ins[i].index, hash: zero_spec() },
            expected: ins[i].hash,
            error: TransactionError::NoteDoesNotExist,
        },
    );
    let with_refund = match m.refund_note {
        Some(n) => spend.push(
            GuardedWrite {
                write: LeafWrite { kind: TreeKind::Spot, index: n.index, hash: n.hash },
                expected: zero_spec(),
                error: TransactionError::LeafOccupied,
            },
        ),
        None => spend,
    };
    with_refund.push(position_guard(m))
}

pub open spec fn position_guard(m: ChangeMarginMessage) -> GuardedWrite {
    GuardedWrite {
        write: LeafWrite { kind: TreeKind::Perpetual, index: m.position.index as u64, hash: m.new_position_hash },
        expected: m.position.hash,
        error: TransactionError::PositionDoesNotExist,
    }
}

/// The guarded writes of removing margin: the position takes its new hash,
/// and the return note lands on an empty leaf.
pub open spec fn remove_margin_guards(m: ChangeMarginMessage) -> Seq<GuardedWrite> {
    seq![
        position_guard(m),
        GuardedWrite {
            write: LeafWrite { kind: TreeKind::Spot, index: m.return_note->0.index, hash: m.return_note->0.hash },
            expected: zero_spec(),
            error: TransactionError::LeafOccupied,
        },
    ]
}

/// Why a margin change is refused before any write, if it is.
pub open spec fn margin_precheck(m: ChangeMarginMessage) -> Option<TransactionError> {
    if !m.signature_valid {
        Some(TransactionError::InvalidSignature)
    } else if new_margin(m.position.margin, m.margin_change) is None {
        Some(TransactionError::InvalidMarginChange)
    } else if m.margin_change >= 0 {
        if !all_of_token(m.notes_in@, USDC) || m.notes_in@.len() == 0 {
            Some(TransactionError::InvalidToken)
        } else if m.refund_note is Some && m.refund_note->0.token != USDC {
            Some(TransactionError::InvalidToken)
        } else if sum_amounts(m.notes_in@) < m.margin_change + (if m.refund_note is Some { m.refund_note->0.amount as int } else { 0 }) {
            Some(TransactionError::AmountMismatch)
        } else {
            None
        }
    } else {
        if m.return_note is None || m.return_note->0.token != m.position.collateral_token {
            Some(TransactionError::InvalidToken)
        } else if m.return_note->0.amount != -m.margin_change {
            Some(TransactionError::AmountMismatch)
        } else {
            None
        }
    }
}

impl TransactionBatch {
    /// Counts a transaction once its worker reports that it went through; a
    /// transaction that failed is never counted, so its failure leaves the
    /// counters as they were. Deposits and withdrawals have counters of their
    /// own; any other transaction counts towards the batch, and the result
    /// says whether the batch is then due to be finalized.
    pub fn count_transaction(&mut self, kind: TxKind) -> (finalize_due: bool)
        requires
            old(self).wf(),
        ensures
            final(self).wf(),
            final(self).funding == old(self).funding,
            final(self).prices == old(self).prices,
            final(self).core_view() == old(self).core_view(),
            final(self).transactions@ == old(self).transactions@,
            final(self).blocked_order_ids@ == old(self).blocked_order_ids@,
            final(self).state_tree == old(self).state_tree,
            final(self).perpetual_state_tree == old(self).perpetual_state_tree,
            kind == TxKind::Deposit ==> final(self).n_deposits == add_sat_u32(old(self).n_deposits, 1)
                && final(self).n_withdrawals == old(self).n_withdrawals && final(self).running_tx_count
                == old(self).running_tx_count && !finalize_due,
            kind == TxKind::Withdrawal ==> final(self).n_withdrawals == add_sat_u32(old(self).n_withdrawals, 1)
                && final(self).n_deposits == old(self).n_deposits && final(self).running_tx_count
                == old(self).running_tx_count && !finalize_due,
            kind != TxKind::Deposit && kind != TxKind::Withdrawal ==> final(self).running_tx_count == add_sat_u16(
                old(self).running_tx_count,
                1,
            ) && final(self).n_deposits == old(self).n_deposits && final(self).n_withdrawals
                == old(self).n_withdrawals && finalize_due == (final(self).running_tx_count >= TRANSACTIONS_PER_BATCH),
    {
        match kind {
            TxKind::Deposit => {
                self.n_deposits = self.n_deposits.saturating_add(1);
                false
            },
            TxKind::Withdrawal => {
                self.n_withdrawals = self.n_withdrawals.saturating_add(1);
                false
            },
            _ => {
                self.running_tx_count = self.running_tx_count.saturating_add(1);
                self.running_tx_count >= TRANSACTIONS_PER_BATCH
            },
        }
    }

    /// The number of written leaves of each kind: notes with a hash, emptied
    /// notes, positions with a hash, emptied positions.
    pub fn get_final_updated_counts(&self) -> (r: (u32, u32, u32, u32))
        requires
            self.wf(),
            self.updated_note_hashes.entries@.len() <= u32::MAX,
            self.perpetual_updated_position_hashes.entries@.len() <= u32::MAX,
        ensures
            r.0 == count_hashes(self.updated_note_hashes.entries@, false),
            r.1 == count_hashes(self.updated_note_hashes.entries@, true),
            r.2 == count_hashes(self.perpetual_updated_position_hashes.entries@, false),
            r.3 == count_hashes(self.perpetual_updated_position_hashes.entries@, true),
    {
        let (a, b) = count_split(&self.updated_note_hashes.entries);
        let (c, d) = count_split(&self.perpetual_updated_position_hashes.entries);
        (a, b, c, d)
    }

    /// Ends a batch: clears the written leaves, this batch's price extremes
    /// and least funding indices, the counters and the transcript. The trees,
    /// the latest prices and the funding history stay.
    pub fn reset_batch(&mut self)
        requires
            old(self).wf(),
        ensures
            final(self).wf(),
            leaves_map(final(self).state_tree) == leaves_map(old(self).state_tree),
            leaves_map(final(self).perpetual_state_tree) == leaves_map(old(self).perpetual_state_tree),
            final(self).state_tree.depth == old(self).state_tree.depth,
            final(self).perpetual_state_tree.depth == old(self).perpetual_state_tree.depth,
            final(self).core_view().spot_updates == Map::<u64, FieldElement>::empty(),
            final(self).core_view().perp_updates == Map::<u64, FieldElement>::empty(),
            final(self).n_deposits == 0,
            final(self).n_withdrawals == 0,
            final(self).running_tx_count == 0,
            final(self).transactions@.len() == 0,
            final(self).prices.latest_index_price@ == old(self).prices.latest_index_price@,
            final(self).prices.min_index_price@ == seq![0u64, 0u64],
            final(self).prices.max_index_price@ == seq![0u64, 0u64],
            forall|j: int| 0 <= j < 2 ==> final(self).prices.min_index_update@[j] is None && final(self).prices.max_index_update@[j] is None,
            final(self).blocked_order_ids@ == old(self).blocked_order_ids@,
            final(self).funding.view() == old(self).funding.view(),
            final(self).funding.min_funding_idxs@ == seq![old(self).funding.current_funding_idx, old(self).funding.current_funding_idx],
    {
        self.updated_note_hashes.clear();
        self.perpetual_updated_position_hashes.clear();
        self.prices.reset_extremes();
        self.funding.reset_min_funding_idxs();
        self.running_tx_count = 0;
        self.n_deposits = 0;
        self.n_withdrawals = 0;
        self.transactions.clear();
    }

    /// What finalizing the batch in its present state hands to the prover,
    /// in an order fixed by the state alone (see `finalize_output`). The
    /// batch itself is left as it is, so that it can stay open where writing
    /// the output fails.
    pub fn batch_output(&self) -> (r: BatchOutput)
        requires
            self.wf(),
            self.updated_note_hashes.entries@.len() <= u32::MAX,
            self.perpetual_updated_position_hashes.entries@.len() <= u32::MAX,
        ensures
            r.view() == finalize_output(*self),
    {
        let (a, b, c, d) = self.get_final_updated_counts();
        BatchOutput {
            note_updates: copy_entries(&self.updated_note_hashes.entries),
            position_updates: copy_entries(&self.perpetual_updated_position_hashes.entries),
            num_output_notes: a,
            num_zero_notes: b,
            num_output_positions: c,
            num_empty_positions: d,
            n_deposits: self.n_deposits,
            n_withdrawals: self.n_withdrawals,
        }
    }

    /// Finalizes the batch: hands back its output (see `batch_output`) and
    /// starts a new batch over the same trees (see `reset_batch`).
    pub fn finalize_batch(&mut self) -> (r: BatchOutput)
        requires
            old(self).wf(),
            old(self).updated_note_hashes.entries@.len() <= u32::MAX,
            old(self).perpetual_updated_position_hashes.entries@.len() <= u32::MAX,
        ensures
            r.view() == finalize_output(*old(self)),
            final(self).wf(),
            leaves_map(final(self).state_tree) == leaves_map(old(self).state_tree),
            leaves_map(final(self).perpetual_state_tree) == leaves_map(old(self).perpetual_state_tree),
            final(self).state_tree.depth == old(self).state_tree.depth,
            final(self).perpetual_state_tree.depth == old(self).perpetual_state_tree.depth,
            final(self).core_view().spot_updates == Map::<u64, FieldElement>::empty(),
            final(self).core_view().perp_updates == Map::<u64, FieldElement>::empty(),
            final(self).n_deposits == 0,
            final(self).n_withdrawals == 0,
            final(self).running_tx_count == 0,
            final(self).transactions@.len() == 0,
            final(self).prices.latest_index_price@ == old(self).prices.latest_index_price@,
            final(self).prices.min_index_price@ == seq![0u64, 0u64],
            final(self).prices.max_index_price@ == seq![0u64, 0u64],
            forall|j: int| 0 <= j < 2 ==> final(self).prices.min_index_update@[j] is None && final(self).prices.max_index_update@[j] is None,
            final(self).funding.view() == old(self).funding.view(),
            final(self).funding.min_funding_idxs@ == seq![old(self).funding.current_funding_idx, old(self).funding.current_funding_idx],
            final(self).blocked_order_ids@ == old(self).blocked_order_ids@,
    {
        let out = self.batch_output();
        self.reset_batch();
        out
    }

    /// Replays a persisted transcript on cold start: every record's writes
    /// are made again, without the checks they passed the first time, and
    /// the counters are rebuilt. Refused, with nothing changed, where a write
    /// lies outside its tree.
    pub fn restore_state(&mut self, transactions: Vec<TransactionRecord>) -> (r: Result<(), RestoreError>)
        requires
            old(self).wf(),
        ensures
            final(self).wf(),
            r is Ok <==> (forall|i: int| 0 <= i < record_writes(transactions@).len() ==> (#[trigger] record_writes(transactions@)[i]).index < old(self).capacity_of(record_writes(transactions@)[i].kind)),
            r is Err ==> final(self).core_view() == old(self).core_view() && final(self).n_deposits == old(self).n_deposits
                && final(self).n_withdrawals == old(self).n_withdrawals && final(self).running_tx_count == old(self).running_tx_count,
            r is Ok ==> final(self).core_view() == apply_writes(old(self).core_view(), record_writes(transactions@)),
            r is Ok ==> final(self).n_deposits == add_sat_u32(old(self).n_deposits, count_kind(transactions@, TxKind::Deposit, TxKind::Deposit, TxKind::Deposit)),
            r is Ok ==> final(self).n_withdrawals == add_sat_u32(old(self).n_withdrawals, count_kind(transactions@, TxKind::Withdrawal, TxKind::Withdrawal, TxKind::Withdrawal)),
            r is Ok ==> final(self).running_tx_count == add_sat_u16(old(self).running_tx_count, count_kind(transactions@, TxKind::Swap, TxKind::PerpetualSwap, TxKind::Liquidation)),
    {
        let mut all: Vec<LeafWrite> = Vec::new();
        let mut i: usize = 0;
        proof {
            assert(transactions@.take(0) =~= Seq::<TransactionRecord>::empty());
        }
        while i < transactions.len()
            invariant
                i <= transactions@.len(),
                all@ == record_writes(transactions@.take(i as int)),
            decreases transactions@.len() - i,
        {
            let ghost before = all@;
            let mut k: usize = 0;
            while k < transactions[i].writes.len()
                invariant
                    i < transactions@.len(),
                    k <= transactions@[i as int].writes@.len(),
                    all@ == before + transactions@[i as int].writes@.take(k as int),
                decreases transactions@[i as int].writes@.len() - k,
            {
                all.push(transactions[i].writes[k]);
                k = k + 1;
                assert(all@ =~= before + transactions@[i as int].writes@.take(k as int));
            }
            proof {
                assert(transactions@[i as int].writes@.take(k as int) =~= transactions@[i as int].writes@);
                assert(transactions@.take(i + 1).drop_last() =~= transactions@.take(i as int));
            }
            i = i + 1;
        }
        assert(transactions@.take(i as int) =~= transactions@);
        let mut j: usize = 0;
        while j < all.len()
            invariant
                *self == *old(self),
                self.wf(),
                all@ == record_writes(transactions@),
                j <= all@.len(),
                forall|q: int| 0 <= q < j ==> (#[trigger] all@[q]).index < self.capacity_of(all@[q].kind),
            decreases all@.len() - j,
        {
            if !self.in_range(all[j].kind, all[j].index) {
                return Err(RestoreError::IndexOutOfRange);
            }
            j = j + 1;
        }
        self.apply_leaf_writes(&all);
        let mut t: usize = 0;
        proof {
            assert(transactions@.take(0) =~= Seq::<TransactionRecord>::empty());
        }
        while t < transactions.len()
            invariant
                t <= transactions@.len(),
                self.wf(),
                self.core_view() == apply_writes(old(self).core_view(), record_writes(transactions@)),
                self.n_deposits == add_sat_u32(old(self).n_deposits, count_kind(transactions@.take(t as int), TxKind::Deposit, TxKind::Deposit, TxKind::Deposit)),
                self.n_withdrawals == add_sat_u32(old(self).n_withdrawals, count_kind(transactions@.take(t as int), TxKind::Withdrawal, TxKind::Withdrawal, TxKind::Withdrawal)),
                self.running_tx_count == add_sat_u16(old(self).running_tx_count, count_kind(transactions@.take(t as int), TxKind::Swap, TxKind::PerpetualSwap, TxKind::Liquidation)),
            decreases transactions@.len() - t,
        {
            proof {
                assert(transactions@.take(t + 1).drop_last() =~= transactions@.take(t as int));
            }
            match transactions[t].kind {
                TxKind::Deposit => {
                    self.n_deposits = self.n_deposits.saturating_add(1);
                },
                TxKind::Withdrawal => {
                    self.n_withdrawals = self.n_withdrawals.saturating_add(1);
                },
                TxKind::Swap | TxKind::PerpetualSwap | TxKind::Liquidation => {
                    self.running_tx_count = self.running_tx_count.saturating_add(1);
                },
                _ => {},
            }
            t = t + 1;
        }
        assert(transactions@.take(t as int) =~= transactions@);
        self.transactions = transactions;
        Ok(())
    }

    /// Takes in oracle updates; see `PriceState::update_index_prices`. An
    /// update without observations, or none with a valid signature where
    /// one is needed, is rejected with `NoValidObservations`.
    pub fn update_index_prices(&mut self, oracle_updates: Vec<OracleUpdate>) -> (r: Result<Vec<u64>, OracleUpdateError>)
        requires
            old(self).wf(),
        ensures
            final(self).wf(),
            final(self).core_view() == old(self).core_view(),
            final(self).funding == old(self).funding,
            final(self).transactions@ == old(self).transactions@,
            final(self).blocked_order_ids@ == old(self).blocked_order_ids@,
            final(self).n_deposits == old(self).n_deposits,
            final(self).n_withdrawals == old(self).n_withdrawals,
            final(self).running_tx_count == old(self).running_tx_count,
            final(self).prices.view() == crate::oracle::prices_after(old(self).prices.view(), oracle_updates@).0,
            r is Err <==> crate::oracle::prices_after(old(self).prices.view(), oracle_updates@).1 is Some,
            r is Err ==> r == Err::<Vec<u64>, OracleUpdateError>(crate::oracle::prices_after(old(self).prices.view(), oracle_updates@).1->0),
            r is Ok ==> r->Ok_0@ == final(self).prices.latest_index_price@,
            r is Ok ==> final(self).prices.running_index_price_count == (old(self).prices.running_index_price_count + 1) % crate::oracle::PRICE_PERSIST_INTERVAL as int,
            r is Err ==> final(self).prices.running_index_price_count == old(self).prices.running_index_price_count,
            forall|j: int| 0 <= j < 2 && old(self).prices.min_index_price@[j] != 0 ==> #[trigger] final(self).prices.min_index_price@[j] <= old(self).prices.min_index_price@[j],
            forall|j: int| 0 <= j < 2 ==> #[trigger] final(self).prices.max_index_price@[j] >= old(self).prices.max_index_price@[j],
    {
        self.prices.update_index_prices(oracle_updates)
    }

    /// The latest index price of a token with a perpetual market.
    pub fn get_index_price(&self, token: u64) -> (r: u64)
        requires
            self.wf(),
            crate::oracle::token_slot(token) is Some,
        ensures
            r == self.prices.latest_index_price@[crate::oracle::token_slot(token)->0],
    {
        self.prices.get_index_price(token)
    }

    /// Takes one per-minute funding tick against the latest index prices;
    /// see `FundingState::per_minute_funding_updates`. Returns whether a new
    /// funding rate was made (and the funding data is due to be persisted).
    pub fn per_minute_funding_updates(&mut self, funding_update: FundingUpdateMessage) -> (r: bool)
        requires
            old(self).wf(),
            old(self).funding.current_funding_idx < u32::MAX,
        ensures
            final(self).wf(),
            final(self).core_view() == old(self).core_view(),
            final(self).funding.view() == crate::funding::funding_step(
                old(self).funding.view(),
                funding_update.impact_prices@,
                old(self).prices.latest_index_price@,
            ),
            r == (old(self).funding.current_funding_count + 1 == crate::funding::FUNDING_TICKS_PER_RATE),
            final(self).funding.min_funding_idxs@ == old(self).funding.min_funding_idxs@,
            final(self).prices == old(self).prices,
            final(self).transactions@ == old(self).transactions@,
            final(self).blocked_order_ids@ == old(self).blocked_order_ids@,
            final(self).n_deposits == old(self).n_deposits,
            final(self).n_withdrawals == old(self).n_withdrawals,
            final(self).running_tx_count == old(self).running_tx_count,
    {
        self.funding.per_minute_funding_updates(&funding_update, &self.prices.latest_index_price)
    }

    /// Moves collateral into or out of a position. Adding spends live USDC
    /// notes worth at least the change plus the refund; removing creates the
    /// return note on the first empty leaf. The position's leaf must hold its
    /// hash, and takes the new one. Returns the leaf of the return note, if
    /// any. On failure nothing changes.
    pub fn change_position_margin(&mut self, margin_change: ChangeMarginMessage) -> (r: Result<Vec<u64>, TransactionError>)
        requires
            old(self).wf(),
        ensures
            final(self).wf(),
            final(self).state_tree.depth == old(self).state_tree.depth,
            final(self).perpetual_state_tree.depth == old(self).perpetual_state_tree.depth,
            final(self).n_deposits == old(self).n_deposits,
            final(self).n_withdrawals == old(self).n_withdrawals,
            final(self).running_tx_count == old(self).running_tx_count,
            final(self).prices == old(self).prices,
            final(self).funding == old(self).funding,
            final(self).blocked_order_ids@ == old(self).blocked_order_ids@,
            r is Err ==> final(self).core_view() == old(self).core_view(),
            r is Err ==> final(self).transactions@ == old(self).transactions@,
            r is Ok && margin_change.margin_change >= 0 ==> recorded(old(self).transactions@, final(self).transactions@, TxKind::MarginChange, writes_of(add_margin_guards(margin_change)), margin_change.notes_in@, opt_notes(margin_change.refund_note), Seq::empty()),
            r is Ok && margin_change.margin_change < 0 ==> recorded(old(self).transactions@, final(self).transactions@, TxKind::MarginChange, writes_of(remove_margin_guards(margin_change)), Seq::empty(), opt_notes(margin_change.return_note), seq![margin_change.return_note->0.index]),
            margin_precheck(margin_change) is Some ==> r == Err::<Vec<u64>, TransactionError>(margin_precheck(margin_change)->0),
            margin_precheck(margin_change) is None && margin_change.margin_change >= 0 ==> {
                let e = guarded_error(old(self).core_view(), add_margin_guards(margin_change), old(self).capacity_of(TreeKind::Spot), old(self).capacity_of(TreeKind::Perpetual));
                &&& e is Some ==> r == Err::<Vec<u64>, TransactionError>(e->0)
                &&& e is None ==> r is Ok && r->Ok_0@.len() == 0 && final(self).core_view() == apply_writes(old(self).core_view(), writes_of(add_margin_guards(margin_change)))
            },
            margin_precheck(margin_change) is None && margin_change.margin_change < 0 ==> {
                let e = guarded_error(old(self).core_view(), remove_margin_guards(margin_change), old(self).capacity_of(TreeKind::Spot), old(self).capacity_of(TreeKind::Perpetual));
                let z = margin_change.return_note->0.index;
                &&& !is_first_zero(old(self).core_view().spot, z) ==> r == Err::<Vec<u64>, TransactionError>(TransactionError::LeafOccupied)
                &&& is_first_zero(old(self).core_view().spot, z) && e is Some ==> r == Err::<Vec<u64>, TransactionError>(e->0)
                &&& is_first_zero(old(self).core_view().spot, z) && e is None ==> r is Ok && r->Ok_0@ == seq![z] && final(self).core_view() == apply_writes(old(self).core_view(), writes_of(remove_margin_guards(margin_change)))
            },
    {
        let m = &margin_change;
        if !m.signature_valid {
            return Err(TransactionError::InvalidSignature);
        }
        let pos = m.position;
        let delta = m.margin_change;
        let margin_ok = if delta >= 0 {
            (delta as u64) <= u64::MAX - pos.margin
        } else {
            (-(delta as i128)) as u64 <= pos.margin
        };
        if !margin_ok {
            return Err(TransactionError::InvalidMarginChange);
        }
        if delta >= 0 {
            if m.notes_in.len() == 0 {
                return Err(TransactionError::InvalidToken);
            }
            let mut sum: u128 = 0;
            let mut i: usize = 0;
            while i < m.notes_in.len()
                invariant
                    *self == *old(self),
                    self.wf(),
                    m == &margin_change,
                    margin_change.signature_valid,
                    delta == margin_change.margin_change,
                    delta >= 0,
                    new_margin(margin_change.position.margin, delta) is Some,
                    m.notes_in@.len() > 0,
                    i <= m.notes_in@.len(),
                    all_of_token(m.notes_in@.take(i as int), USDC),
                    sum == sum_amounts(m.notes_in@.take(i as int)),
                    sum <= i * 0xffff_ffff_ffff_ffff,
                decreases m.notes_in@.len() - i,
            {
                let n = m.notes_in[i];
                proof {
                    assert(m.notes_in@.take(i + 1).drop_last() =~= m.notes_in@.take(i as int));
                }
                if n.token != USDC {
                    proof {
                        assert(m.notes_in@[i as int].token != USDC);
                    }
                    return Err(TransactionError::InvalidToken);
                }
                assert(sum + n.amount <= (i + 1) * 0xffff_ffff_ffff_ffff) by (nonlinear_arith)
                    requires
                        sum <= i * 0xffff_ffff_ffff_ffff,
                        n.amount <= 0xffff_ffff_ffff_ffff,
                ;
                assert(i + 1 <= 0xffff_ffff_ffff_ffff);
                assert((i + 1) * 0xffff_ffff_ffff_ffff <= 0xffff_ffff_ffff_ffff * 0xffff_ffff_ffff_ffff) by (nonlinear_arith)
                    requires
                        i + 1 <= 0xffff_ffff_ffff_ffff,
                ;
                sum = sum + n.amount as u128;
                i = i + 1;
            }
            assert(m.notes_in@.take(i as int) =~= m.notes_in@);
            let refund_amount: u64 = match m.refund_note {
                Some(n) => {
                    if n.token != USDC {
                        return Err(TransactionError::InvalidToken);
                    }
                    n.amount
                },
                None => 0,
            };
            if sum < delta as u128 + refund_amount as u128 {
                return Err(TransactionError::AmountMismatch);
            }
            let mut gs: Vec<GuardedWrite> = Vec::new();
            let mut k: usize = 0;
            while k < m.notes_in.len()
                invariant
                    m == &margin_change,
                    k <= m.notes_in@.len(),
                    gs@ =~= Seq::new(
                        k as nat,
                        |i: int| GuardedWrite {
                            write: LeafWrite { kind: TreeKind::Spot, index: m.notes_in@[i].index, hash: zero_spec() },
                            expected: m.notes_in@[i].hash,
                            error: TransactionError::NoteDoesNotExist,
                        },
                    ),
                decreases m.notes_in@.len() - k,
            {
                let n = m.notes_in[k];
                gs.push(GuardedWrite {
                    write: LeafWrite { kind: TreeKind::Spot, index: n.index, hash: FieldElement::zero() },
                    expected: n.hash,
                    error: TransactionError::NoteDoesNotExist,
                });
                k = k + 1;
            }
            if let Some(rn) = m.refund_note {
                gs.push(GuardedWrite {
                    write: LeafWrite { kind: TreeKind::Spot, index: rn.index, hash: rn.hash },
                    expected: FieldElement::zero(),
                    error: TransactionError::LeafOccupied,
                });
            }
            gs.push(GuardedWrite {
                write: LeafWrite { kind: TreeKind::Perpetual, index: pos.index as u64, hash: m.new_position_hash },
                expected: pos.hash,
                error: TransactionError::PositionDoesNotExist,
            });
            assert(gs@ =~= add_margin_guards(margin_change));
            match self.apply_and_record(TxKind::MarginChange, &gs, copy_notes(&m.notes_in), notes_of_option(m.refund_note), Vec::new()) {
                Ok(()) => Ok(Vec::new()),
                Err(e) => Err(e),
            }
        } else {
            let rn = match m.return_note {
                Some(n) => n,
                None => {
                    return Err(TransactionError::InvalidToken);
                },
            };
            if rn.token != pos.collateral_token {
                return Err(TransactionError::InvalidToken);
            }
            if rn.amount as i128 != -(delta as i128) {
                return Err(TransactionError::AmountMismatch);
            }
            let z = self.state_tree.first_zero_idx();
            proof {
                assert forall|q: u64| q < z implies #[trigger] self.core_view().spot[q] != zero_spec() by {
                    assert(self.state_tree.leaf(q as int) != zero_spec());
                }
                assert(is_first_zero(self.core_view().spot, z));
            }
            if rn.index != z {
                proof {
                    if is_first_zero(self.core_view().spot, rn.index) {
                        if rn.index < z {
                            assert(self.core_view().spot[rn.index] != zero_spec());
                        } else {
                            assert(self.core_view().spot[z] == zero_spec());
                        }
                    }
                }
                return Err(TransactionError::LeafOccupied);
            }
            let mut gs: Vec<GuardedWrite> = Vec::new();
            gs.push(GuardedWrite {
                write: LeafWrite { kind: TreeKind::Perpetual, index: pos.index as u64, hash: m.new_position_hash },
                expected: pos.hash,
                error: TransactionError::PositionDoesNotExist,
            });
            gs.push(GuardedWrite {
                write: LeafWrite { kind: TreeKind::Spot, index: rn.index, hash: rn.hash },
                expected: FieldElement::zero(),
                error: TransactionError::LeafOccupied,
            });
            assert(gs@ =~= remove_margin_guards(margin_change));
            let returned = vec![z];
            assert(returned@ =~= seq![margin_change.return_note->0.index]);
            match self.apply_and_record(TxKind::MarginChange, &gs, Vec::new(), notes_of_option(m.return_note), returned) {
                Ok(()) => {
                    let mut idxs: Vec<u64> = Vec::new();
                    idxs.push(z);
                    assert(idxs@ =~= seq![z]);
                    Ok(idxs)
                },
                Err(e) => Err(e),
            }
        }
    }
}

impl TransactionBatch {
    /// What a perpetual swap of `synthetic_token` needs from the engine when
    /// it is handed to a worker: the latest index price and the funding
    /// window of its positions. The earliest funding index touched in this
    /// batch is updated. The swap is counted only once it went through (see
    /// `count_transaction`). `None`, with nothing changed, for a token
    /// without a perpetual market.
    pub fn execute_perpetual_transaction(&mut self, synthetic_token: u64, last_funding_idx_a: Option<u32>, last_funding_idx_b: Option<u32>) -> (r: Option<(u64, SwapFundingInfo)>)
        requires
            old(self).wf(),
        ensures
            final(self).wf(),
            final(self).core_view() == old(self).core_view(),
            final(self).funding.view() == old(self).funding.view(),
            final(self).prices == old(self).prices,
            final(self).transactions@ == old(self).transactions@,
            final(self).blocked_order_ids@ == old(self).blocked_order_ids@,
            final(self).n_deposits == old(self).n_deposits,
            final(self).n_withdrawals == old(self).n_withdrawals,
            final(self).running_tx_count == old(self).running_tx_count,
            crate::oracle::token_slot(synthetic_token) is None ==> r is None && final(self).funding == old(self).funding,
            crate::oracle::token_slot(synthetic_token) is Some ==> {
                let j = crate::oracle::token_slot(synthetic_token)->0;
                &&& r is Some
                &&& (r->0).0 == old(self).prices.latest_index_price@[j]
                &&& (r->0).1.min_swap_funding_idx == crate::funding::min_funding_start(old(self).funding.current_funding_idx, last_funding_idx_a, last_funding_idx_b)
                &&& (r->0).1.current_funding_idx == old(self).funding.current_funding_idx
                &&& (r->0).1.swap_funding_rates@ == crate::funding::window_rates(old(self).funding.funding_rates@, j, (r->0).1.min_swap_funding_idx)
                &&& (r->0).1.swap_funding_prices@ == crate::funding::window_prices(old(self).funding.funding_prices@, j, (r->0).1.min_swap_funding_idx)
                &&& final(self).funding.min_funding_idxs@[j] == if (r->0).1.min_swap_funding_idx < old(self).funding.min_funding_idxs@[j] {
                    (r->0).1.min_swap_funding_idx
                } else {
                    old(self).funding.min_funding_idxs@[j]
                }
            },
    {
        let j = match crate::oracle::slot_of(synthetic_token) {
            Some(j) => j,
            None => {
                return None;
            },
        };
        let price = self.prices.latest_index_price[j];
        let info = self.funding.swap_funding_info(j, last_funding_idx_a, last_funding_idx_b);
        self.funding.note_funding_idx(j, info.min_swap_funding_idx);
        Some((price, info))
    }
}

impl TransactionBatch {
    /// What a liquidation of a position on `synthetic_token` needs from the
    /// engine when it is handed to a worker: the latest index price and the
    /// funding window of the liquidated position. The earliest funding index
    /// touched in this batch is updated. The liquidation is counted only once
    /// it went through (see `count_transaction`). `None`, with nothing
    /// changed, for a token without a perpetual market.
    pub fn execute_liquidation_transaction(&mut self, synthetic_token: u64, last_funding_idx: u32) -> (r: Option<(u64, SwapFundingInfo)>)
        requires
            old(self).wf(),
        ensures
            final(self).wf(),
            final(self).core_view() == old(self).core_view(),
            final(self).funding.view() == old(self).funding.view(),
            final(self).prices == old(self).prices,
            final(self).transactions@ == old(self).transactions@,
            final(self).blocked_order_ids@ == old(self).blocked_order_ids@,
            final(self).n_deposits == old(self).n_deposits,
            final(self).n_withdrawals == old(self).n_withdrawals,
            final(self).running_tx_count == old(self).running_tx_count,
            crate::oracle::token_slot(synthetic_token) is None ==> r is None && final(self).funding == old(self).funding,
            crate::oracle::token_slot(synthetic_token) is Some ==> {
                let j = crate::oracle::token_slot(synthetic_token)->0;
                &&& r is Some
                &&& (r->0).0 == old(self).prices.latest_index_price@[j]
                &&& (r->0).1.min_swap_funding_idx == crate::funding::min_funding_start(old(self).funding.current_funding_idx, Some(last_funding_idx), None)
                &&& (r->0).1.current_funding_idx == old(self).funding.current_funding_idx
                &&& (r->0).1.swap_funding_rates@ == crate::funding::window_rates(old(self).funding.funding_rates@, j, (r->0).1.min_swap_funding_idx)
                &&& (r->0).1.swap_funding_prices@ == crate::funding::window_prices(old(self).funding.funding_prices@, j, (r->0).1.min_swap_funding_idx)
                &&& final(self).funding.min_funding_idxs@[j] == if (r->0).1.min_swap_funding_idx < old(self).funding.min_funding_idxs@[j] {
                    (r->0).1.min_swap_funding_idx
                } else {
                    old(self).funding.min_funding_idxs@[j]
                }
            },
    {
        let j = match crate::oracle::slot_of(synthetic_token) {
            Some(j) => j,
            None => {
                return None;
            },
        };
        let price = self.prices.latest_index_price[j];
        let info = self.funding.swap_funding_info(j, Some(last_funding_idx), None);
        self.funding.note_funding_idx(j, info.min_swap_funding_idx);
        Some((price, info))
    }
}

impl TransactionBatch {
    /// Marks an order busy while a worker fills it. A second fill of a busy
    /// order fails at once, so that two workers never race on its partial
    /// fill.
    pub fn block_order_id(&mut self, order_id: u64) -> (r: Result<(), TransactionError>)
        ensures
            r is Ok <==> !old(self).blocked_order_ids@.contains(order_id),
            r is Err ==> r == Err::<(), TransactionError>(TransactionError::DuplicateOrderID),
            final(self).blocked_order_ids@ == old(self).blocked_order_ids@.insert(order_id),
            final(self).core_view() == old(self).core_view(),
            final(self).wf() == old(self).wf(),
            final(self).state_tree == old(self).state_tree,
            final(self).perpetual_state_tree == old(self).perpetual_state_tree,
            final(self).n_deposits == old(self).n_deposits,
            final(self).n_withdrawals == old(self).n_withdrawals,
            final(self).running_tx_count == old(self).running_tx_count,
            final(self).prices == old(self).prices,
            final(self).funding == old(self).funding,
            final(self).transactions@ == old(self).transactions@,
    {
        broadcast use vstd::std_specs::hash::group_hash_axioms;
        if self.blocked_order_ids.insert(order_id) {
            Ok(())
        } else {
            Err(TransactionError::DuplicateOrderID)
        }
    }

    /// Frees an order once its fill is done or undone.
    pub fn unblock_order_id(&mut self, order_id: u64)
        ensures
            final(self).blocked_order_ids@ == old(self).blocked_order_ids@.remove(order_id),
            final(self).core_view() == old(self).core_view(),
            final(self).wf() == old(self).wf(),
            final(self).state_tree == old(self).state_tree,
            final(self).perpetual_state_tree == old(self).perpetual_state_tree,
            final(self).n_deposits == old(self).n_deposits,
            final(self).n_withdrawals == old(self).n_withdrawals,
            final(self).running_tx_count == old(self).running_tx_count,
            final(self).prices == old(self).prices,
            final(self).funding == old(self).funding,
            final(self).transactions@ == old(self).transactions@,
    {
        broadcast use vstd::std_specs::hash::group_hash_axioms;
        self.blocked_order_ids.remove(&order_id);
    }

    /// Marks an order busy for a transaction, noting it in the
    /// transaction's journal so that a rollback frees it again.
    pub fn block_order_id_journaled(&mut self, journal: &mut RollbackInfo, order_id: u64) -> (r: Result<(), TransactionError>)
        ensures
            r is Ok <==> !old(self).blocked_order_ids@.contains(order_id),
            r is Err ==> r == Err::<(), TransactionError>(TransactionError::DuplicateOrderID),
            final(self).blocked_order_ids@ == old(self).blocked_order_ids@.insert(order_id),
            r is Ok ==> final(journal).blocked@ == old(journal).blocked@.push(order_id),
            r is Err ==> final(journal).blocked@ == old(journal).blocked@,
            final(journal).entries@ == old(journal).entries@,
            final(self).core_view() == old(self).core_view(),
            final(self).wf() == old(self).wf(),
            final(self).state_tree == old(self).state_tree,
            final(self).perpetual_state_tree == old(self).perpetual_state_tree,
            final(self).n_deposits == old(self).n_deposits,
            final(self).n_withdrawals == old(self).n_withdrawals,
            final(self).running_tx_count == old(self).running_tx_count,
            final(self).prices == old(self).prices,
            final(self).funding == old(self).funding,
            final(self).transactions@ == old(self).transactions@,
    {
        let r = self.block_order_id(order_id);
        if r.is_ok() {
            journal.blocked.push(order_id);
        }
        r
    }
}

fn copy_entries(es: &Vec<(u64, FieldElement)>) -> (r: Vec<(u64, FieldElement)>)
    ensures
        r@ == es@,
{
    let mut r: Vec<(u64, FieldElement)> = Vec::new();
    let mut i: usize = 0;
    while i < es.len()
        invariant
            i <= es@.len(),
            r@ =~= es@.take(i as int),
        decreases es@.len() - i,
    {
        r.push(es[i]);
        i = i + 1;
    }
    assert(es@.take(i as int) =~= es@);
    r
}

fn count_split(es: &Vec<(u64, FieldElement)>) -> (r: (u32, u32))
    requires
        es@.len() <= u32::MAX,
    ensures
        r.0 == count_hashes(es@, false),
        r.1 == count_hashes(es@, true),
{
    let mut nonzero: u32 = 0;
    let mut zero: u32 = 0;
    let mut i: usize = 0;
    while i < es.len()
        invariant
            es@.len() <= u32::MAX,
            i <= es@.len(),
            nonzero == count_hashes(es@.take(i as int), false),
            zero == count_hashes(es@.take(i as int), true),
            nonzero + zero == i,
        decreases es@.len() - i,
    {
        proof {
            assert(es@.take(i + 1).drop_last() =~= es@.take(i as int));
        }
        if es[i].1.is_zero() {
            zero = zero + 1;
        } else {
            nonzero = nonzero + 1;
        }
        i = i + 1;
    }
    assert(es@.take(i as int) =~= es@);
    (nonzero, zero)
}

} // verus!
