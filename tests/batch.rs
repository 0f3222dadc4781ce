use invisible_backend::batch::{
    ChangeMarginMessage, Note, PerpPosition, RestoreError, TransactionBatch, TransactionError,
    TransactionRecord, TxKind, TRANSACTIONS_PER_BATCH,
};
use invisible_backend::journal::{LeafWrite, RollbackInfo, TreeKind};
use invisible_backend::hash::FieldElement;
use invisible_backend::markets::{BTC, USDC};

fn h(v: u64) -> FieldElement {
    FieldElement { w0: v, w1: 7, w2: 0, w3: 1 }
}

fn note(index: u64, token: u64, amount: u64, hash: u64, addr: u64, blinding: u64) -> Note {
    Note {
        index,
        address_x: FieldElement::from_u64(addr),
        token,
        amount,
        blinding: FieldElement::from_u64(blinding),
        hash: h(hash),
    }
}

fn record(kind: TxKind, writes: Vec<LeafWrite>) -> TransactionRecord {
    TransactionRecord { kind, writes, notes_in: vec![], notes_out: vec![], new_indices: vec![] }
}

fn spot_leaf(b: &TransactionBatch, i: u64) -> FieldElement {
    b.leaf(TreeKind::Spot, i)
}

#[test]
fn deposit_into_empty_tree() {
    let mut b = TransactionBatch::new(16, 16);
    let n = note(7, USDC, 1000, 99, 1, 2);
    assert_eq!(b.execute_deposit(&vec![n]), Ok(()));
    assert!(b.count_transaction(TxKind::Deposit) == false);
    assert_eq!(b.transactions.len(), 1);
    assert_eq!(b.transactions[0].kind.transaction_type(), "deposit");
    assert_eq!(spot_leaf(&b, 7), n.hash);
    assert_eq!(spot_leaf(&b, 6), FieldElement::zero());
    assert_eq!(b.updated_note_hashes.entries, vec![(7, n.hash)]);
    assert_eq!(b.n_deposits, 1);
    assert_eq!(b.running_tx_count, 0);
    assert_eq!(TxKind::Deposit.transaction_type(), "deposit");
}

#[test]
fn failed_deposit_changes_nothing() {
    let mut b = TransactionBatch::new(8, 8);
    b.execute_deposit(&vec![note(3, USDC, 5, 1, 1, 1)]).unwrap();
    let before_entries = b.updated_note_hashes.entries.clone();
    // the second note lands on the leaf the first one took
    let r = b.execute_deposit(&vec![note(4, USDC, 5, 2, 1, 1), note(4, USDC, 5, 3, 1, 1)]);
    assert_eq!(r, Err(TransactionError::LeafOccupied));
    assert_eq!(spot_leaf(&b, 4), FieldElement::zero());
    assert_eq!(spot_leaf(&b, 3), h(1));
    assert_eq!(b.updated_note_hashes.entries, before_entries);
    // an index past the tree
    let r = b.execute_deposit(&vec![note(1, USDC, 5, 2, 1, 1), note(256, USDC, 5, 3, 1, 1)]);
    assert_eq!(r, Err(TransactionError::IndexOutOfRange));
    assert_eq!(spot_leaf(&b, 1), FieldElement::zero());
    assert_eq!(b.updated_note_hashes.entries, before_entries);
}

#[test]
fn withdrawal_spends_and_refunds() {
    let mut b = TransactionBatch::new(8, 8);
    let a = note(0, USDC, 600, 10, 1, 1);
    let c = note(1, USDC, 400, 11, 1, 1);
    b.execute_deposit(&vec![a, c]).unwrap();
    let refund = note(0, USDC, 250, 12, 1, 3);
    assert_eq!(b.execute_withdrawal(USDC, 750, &vec![a, c], Some(refund)), Ok(()));
    assert_eq!(spot_leaf(&b, 0), h(12));
    assert_eq!(spot_leaf(&b, 1), FieldElement::zero());
    // the notes are gone now
    assert_eq!(b.execute_withdrawal(USDC, 600, &vec![a], None), Err(TransactionError::NoteDoesNotExist));
    assert_eq!(
        b.execute_withdrawal(USDC, 1, &vec![refund], None),
        Err(TransactionError::AmountMismatch)
    );
    assert_eq!(
        b.execute_withdrawal(BTC, 250, &vec![refund], None),
        Err(TransactionError::InvalidToken)
    );
}

#[test]
fn note_split_one_input() {
    let mut b = TransactionBatch::new(16, 16);
    b.execute_deposit(&vec![note(5, USDC, 1000, 50, 8, 9)]).unwrap();
    let input = note(5, USDC, 1000, 50, 8, 9);
    let out1 = note(5, USDC, 300, 51, 8, 9);
    let out2 = note(0, USDC, 700, 52, 8, 9);
    let r = b.split_notes(vec![input], vec![out1, out2]).unwrap();
    assert_eq!(r, vec![5, 0]);
    assert_eq!(spot_leaf(&b, 5), h(51));
    assert_eq!(spot_leaf(&b, 0), h(52));
}

#[test]
fn note_split_surplus_inputs_are_emptied() {
    let mut b = TransactionBatch::new(16, 16);
    let ins = vec![
        note(2, USDC, 100, 20, 1, 5),
        note(3, USDC, 200, 21, 1, 5),
        note(9, USDC, 300, 22, 2, 6),
    ];
    b.execute_deposit(&ins).unwrap();
    let out1 = note(2, USDC, 450, 30, 1, 5);
    let out2 = note(3, USDC, 150, 31, 2, 6);
    let r = b.split_notes(ins.clone(), vec![out1, out2]).unwrap();
    assert_eq!(r, vec![2, 3]);
    assert_eq!(spot_leaf(&b, 2), h(30));
    assert_eq!(spot_leaf(&b, 3), h(31));
    assert_eq!(spot_leaf(&b, 9), FieldElement::zero());
    assert_eq!(b.updated_note_hashes.get(9), Some(FieldElement::zero()));
}

#[test]
fn note_split_refusals() {
    let mut b = TransactionBatch::new(16, 16);
    let input = note(4, USDC, 1000, 40, 8, 9);
    b.execute_deposit(&vec![input]).unwrap();
    let ok1 = note(4, USDC, 300, 41, 8, 9);
    let ok2 = note(0, USDC, 700, 42, 8, 9);
    let more = note(0, USDC, 701, 42, 8, 9);
    assert_eq!(b.split_notes(vec![input], vec![ok1, more]), Err(TransactionError::AmountMismatch));
    let other_blinding = note(0, USDC, 700, 42, 8, 10);
    assert_eq!(
        b.split_notes(vec![input], vec![ok1, other_blinding]),
        Err(TransactionError::AddressBlindingMismatch)
    );
    let btc = note(0, BTC, 700, 42, 8, 9);
    assert_eq!(b.split_notes(vec![input], vec![ok1, btc]), Err(TransactionError::InvalidToken));
    let missing = note(4, USDC, 1000, 77, 8, 9);
    assert_eq!(b.split_notes(vec![missing], vec![ok1, ok2]), Err(TransactionError::NoteDoesNotExist));
    assert_eq!(
        b.split_notes(vec![input, input], vec![ok1, note(0, USDC, 1700, 42, 8, 9)]),
        Err(TransactionError::DuplicateNote)
    );
    assert_eq!(spot_leaf(&b, 4), h(40));
}

#[test]
fn rollback_restores_the_journal() {
    let mut b = TransactionBatch::new(8, 8);
    b.execute_deposit(&vec![note(1, USDC, 1, 5, 1, 1)]).unwrap();
    let mut j = RollbackInfo { entries: vec![], blocked: vec![] };
    b.write_leaf(&mut j, LeafWrite { kind: TreeKind::Spot, index: 1, hash: h(6) });
    b.write_leaf(&mut j, LeafWrite { kind: TreeKind::Spot, index: 2, hash: h(7) });
    b.write_leaf(&mut j, LeafWrite { kind: TreeKind::Perpetual, index: 3, hash: h(8) });
    b.write_leaf(&mut j, LeafWrite { kind: TreeKind::Spot, index: 1, hash: h(9) });
    assert_eq!(spot_leaf(&b, 1), h(9));
    b.rollback_transaction(j);
    assert_eq!(spot_leaf(&b, 1), h(5));
    assert_eq!(spot_leaf(&b, 2), FieldElement::zero());
    assert_eq!(b.leaf(TreeKind::Perpetual, 3), FieldElement::zero());
    assert_eq!(b.updated_note_hashes.entries, vec![(1, h(5))]);
    assert!(b.perpetual_updated_position_hashes.entries.is_empty());
}

#[test]
fn finalize_after_a_full_batch() {
    let mut b = TransactionBatch::new(8, 8);
    b.execute_deposit(&vec![note(6, USDC, 1, 5, 1, 1), note(2, USDC, 1, 6, 1, 1)]).unwrap();
    b.execute_withdrawal(USDC, 1, &vec![note(2, USDC, 1, 6, 1, 1)], None).unwrap();
    b.count_transaction(TxKind::Deposit);
    b.count_transaction(TxKind::Withdrawal);
    let mut due = 0;
    for i in 0..TRANSACTIONS_PER_BATCH {
        if b.count_transaction(TxKind::Swap) {
            due += 1;
            assert_eq!(i + 1, TRANSACTIONS_PER_BATCH);
        }
    }
    assert_eq!(due, 1);
    let out = b.finalize_batch();
    assert_eq!(out.note_updates, vec![(2, FieldElement::zero()), (6, h(5))]);
    assert_eq!((out.num_output_notes, out.num_zero_notes), (1, 1));
    assert_eq!((out.num_output_positions, out.num_empty_positions), (0, 0));
    assert_eq!((out.n_deposits, out.n_withdrawals), (1, 1));
    assert_eq!(b.running_tx_count, 0);
    assert_eq!(b.n_deposits, 0);
    assert!(b.updated_note_hashes.entries.is_empty());
    assert_eq!(spot_leaf(&b, 6), h(5));
}

#[test]
fn restore_replays_records() {
    let mut b = TransactionBatch::new(8, 8);
    let records = vec![
        record(TxKind::Deposit, vec![LeafWrite { kind: TreeKind::Spot, index: 4, hash: h(1) }]),
        record(
            TxKind::PerpetualSwap,
            vec![
                LeafWrite { kind: TreeKind::Spot, index: 4, hash: FieldElement::zero() },
                LeafWrite { kind: TreeKind::Perpetual, index: 0, hash: h(2) },
            ],
        ),
        record(TxKind::NoteSplit, vec![]),
    ];
    assert_eq!(b.restore_state(records), Ok(()));
    assert_eq!(spot_leaf(&b, 4), FieldElement::zero());
    assert_eq!(b.leaf(TreeKind::Perpetual, 0), h(2));
    assert_eq!((b.n_deposits, b.n_withdrawals, b.running_tx_count), (1, 0, 1));
    let bad = vec![record(TxKind::Swap, vec![LeafWrite { kind: TreeKind::Spot, index: 300, hash: h(1) }])];
    assert_eq!(b.restore_state(bad), Err(RestoreError::IndexOutOfRange));
    assert_eq!(b.running_tx_count, 1);
}

fn position(margin: u64, hash: u64) -> PerpPosition {
    PerpPosition { index: 3, synthetic_token: BTC, collateral_token: USDC, margin, hash: h(hash) }
}

#[test]
fn margin_added_and_removed() {
    let mut b = TransactionBatch::new(8, 8);
    let mut j = RollbackInfo { entries: vec![], blocked: vec![] };
    b.write_leaf(&mut j, LeafWrite { kind: TreeKind::Perpetual, index: 3, hash: h(70) });
    let n1 = note(0, USDC, 500, 1, 1, 1);
    let n2 = note(1, USDC, 700, 2, 1, 1);
    b.execute_deposit(&vec![n1, n2]).unwrap();
    let refund = note(0, USDC, 200, 3, 1, 1);
    let add = ChangeMarginMessage {
        signature_valid: true,
        position: position(1000, 70),
        margin_change: 1000,
        new_position_hash: h(71),
        notes_in: vec![n1, n2],
        refund_note: Some(refund),
        return_note: None,
    };
    assert_eq!(b.change_position_margin(add), Ok(vec![]));
    assert_eq!(spot_leaf(&b, 0), h(3));
    assert_eq!(spot_leaf(&b, 1), FieldElement::zero());
    assert_eq!(b.leaf(TreeKind::Perpetual, 3), h(71));

    let ret = note(1, USDC, 400, 4, 2, 2);
    let remove = ChangeMarginMessage {
        signature_valid: true,
        position: position(2000, 71),
        margin_change: -400,
        new_position_hash: h(72),
        notes_in: vec![],
        refund_note: None,
        return_note: Some(ret),
    };
    assert_eq!(b.change_position_margin(remove), Ok(vec![1]));
    assert_eq!(spot_leaf(&b, 1), h(4));
    assert_eq!(b.leaf(TreeKind::Perpetual, 3), h(72));

    let too_much = ChangeMarginMessage {
        signature_valid: true,
        position: position(2000, 72),
        margin_change: -2001,
        new_position_hash: h(73),
        notes_in: vec![],
        refund_note: None,
        return_note: Some(note(2, USDC, 2001, 5, 2, 2)),
    };
    assert_eq!(b.change_position_margin(too_much), Err(TransactionError::InvalidMarginChange));
    let stale = ChangeMarginMessage {
        signature_valid: true,
        position: position(2000, 70),
        margin_change: -1,
        new_position_hash: h(73),
        notes_in: vec![],
        refund_note: None,
        return_note: Some(note(2, USDC, 1, 5, 2, 2)),
    };
    assert_eq!(b.change_position_margin(stale), Err(TransactionError::PositionDoesNotExist));
    assert_eq!(spot_leaf(&b, 2), FieldElement::zero());
}

#[test]
fn executors_record_their_writes() {
    let mut b = TransactionBatch::new(8, 8);
    let n = note(2, USDC, 10, 4, 1, 1);
    b.execute_deposit(&vec![n]).unwrap();
    assert_eq!(b.transactions.len(), 1);
    assert_eq!(b.transactions[0].kind, TxKind::Deposit);
    assert_eq!(b.transactions[0].writes, vec![LeafWrite { kind: TreeKind::Spot, index: 2, hash: h(4) }]);
    // a refused transaction leaves no record
    assert!(b.execute_deposit(&vec![n]).is_err());
    assert_eq!(b.transactions.len(), 1);
    let out1 = note(2, USDC, 4, 5, 1, 1);
    let out2 = note(0, USDC, 6, 6, 1, 1);
    b.split_notes(vec![n], vec![out1, out2]).unwrap();
    assert_eq!(b.transactions[1].kind, TxKind::NoteSplit);
    assert_eq!(
        b.transactions[1].writes,
        vec![
            LeafWrite { kind: TreeKind::Spot, index: 2, hash: h(5) },
            LeafWrite { kind: TreeKind::Spot, index: 0, hash: h(6) },
        ]
    );
    // replaying the transcript on a fresh batch gives the same leaves
    let records: Vec<TransactionRecord> = b
        .transactions
        .iter()
        .map(|r| TransactionRecord {
            kind: r.kind,
            writes: r.writes.clone(),
            notes_in: r.notes_in.clone(),
            notes_out: r.notes_out.clone(),
            new_indices: r.new_indices.clone(),
        })
        .collect();
    let mut fresh = TransactionBatch::new(8, 8);
    fresh.restore_state(records).unwrap();
    for i in 0..4 {
        assert_eq!(spot_leaf(&fresh, i), spot_leaf(&b, i));
    }
    assert_eq!(fresh.updated_note_hashes.entries, b.updated_note_hashes.entries);
    assert_eq!(fresh.n_deposits, 1);
}

#[test]
fn perpetual_dispatch_captures_funding() {
    let mut b = TransactionBatch::new(8, 8);
    b.funding.funding_rates = vec![(1, 10), (2, 20), (3, 30)];
    b.funding.funding_prices = vec![(100, 1000), (200, 2000), (300, 3000)];
    b.funding.current_funding_idx = 3;
    b.funding.min_funding_idxs = vec![3, 3];
    let (price, info) = b.execute_perpetual_transaction(BTC, Some(1), None).unwrap();
    assert_eq!(price, 0);
    assert_eq!(info.min_swap_funding_idx, 1);
    assert_eq!(info.current_funding_idx, 3);
    assert_eq!(info.swap_funding_rates, vec![2, 3]);
    assert_eq!(info.swap_funding_prices, vec![200, 300]);
    assert_eq!(b.funding.min_funding_idxs, vec![1, 3]);
    // counted only once it went through
    assert_eq!(b.running_tx_count, 0);
    let (_, info) = b.execute_liquidation_transaction(invisible_backend::markets::ETH, 0).unwrap();
    assert_eq!(info.swap_funding_rates, vec![10, 20, 30]);
    assert_eq!(b.funding.min_funding_idxs, vec![1, 0]);
    assert!(b.execute_perpetual_transaction(USDC, None, None).is_none());
    assert_eq!(b.running_tx_count, 0);
}

#[test]
fn busy_orders_fail_fast() {
    let mut b = TransactionBatch::new(4, 4);
    assert_eq!(b.block_order_id(42), Ok(()));
    assert_eq!(b.block_order_id(42), Err(TransactionError::DuplicateOrderID));
    assert_eq!(b.block_order_id(43), Ok(()));
    b.unblock_order_id(42);
    assert_eq!(b.block_order_id(42), Ok(()));
}

#[test]
fn finalize_output_ignores_transaction_order() {
    let n1 = note(3, USDC, 1, 31, 1, 1);
    let n2 = note(1, USDC, 1, 32, 1, 1);
    let n3 = note(6, USDC, 1, 33, 1, 1);
    let mut a = TransactionBatch::new(8, 8);
    a.execute_deposit(&vec![n1]).unwrap();
    a.execute_deposit(&vec![n2, n3]).unwrap();
    a.execute_withdrawal(USDC, 1, &vec![n2], None).unwrap();
    let mut b = TransactionBatch::new(8, 8);
    b.execute_deposit(&vec![n3, n2]).unwrap();
    b.execute_withdrawal(USDC, 1, &vec![n2], None).unwrap();
    b.execute_deposit(&vec![n1]).unwrap();
    let (oa, ob) = (a.finalize_batch(), b.finalize_batch());
    assert_eq!(oa.note_updates, ob.note_updates);
    assert_eq!(
        oa.note_updates,
        vec![(1, FieldElement::zero()), (3, h(31)), (6, h(33))]
    );
    assert_eq!(
        (oa.num_output_notes, oa.num_zero_notes),
        (ob.num_output_notes, ob.num_zero_notes)
    );
}

#[test]
fn final_updated_counts() {
    let mut b = TransactionBatch::new(8, 8);
    let mut j = RollbackInfo { entries: vec![], blocked: vec![] };
    b.write_leaf(&mut j, LeafWrite { kind: TreeKind::Perpetual, index: 0, hash: h(1) });
    b.write_leaf(&mut j, LeafWrite { kind: TreeKind::Perpetual, index: 1, hash: FieldElement::zero() });
    b.write_leaf(&mut j, LeafWrite { kind: TreeKind::Spot, index: 5, hash: h(2) });
    assert_eq!(b.get_final_updated_counts(), (1, 0, 1, 1));
}

#[test]
fn margin_refund_lands_on_its_own_leaf() {
    let mut b = TransactionBatch::new(8, 8);
    let mut j = RollbackInfo { entries: vec![], blocked: vec![] };
    b.write_leaf(&mut j, LeafWrite { kind: TreeKind::Perpetual, index: 3, hash: h(70) });
    let n1 = note(0, USDC, 500, 1, 1, 1);
    b.execute_deposit(&vec![n1]).unwrap();
    let refund = note(5, USDC, 100, 3, 1, 1);
    let add = ChangeMarginMessage {
        signature_valid: true,
        position: position(1000, 70),
        margin_change: 400,
        new_position_hash: h(71),
        notes_in: vec![n1],
        refund_note: Some(refund),
        return_note: None,
    };
    assert_eq!(b.change_position_margin(add), Ok(vec![]));
    assert_eq!(spot_leaf(&b, 0), FieldElement::zero());
    assert_eq!(spot_leaf(&b, 5), h(3));
    let last = b.transactions.last().unwrap();
    assert_eq!(last.kind, TxKind::MarginChange);
    assert_eq!(last.notes_in, vec![n1]);
    assert_eq!(last.notes_out, vec![refund]);
}

#[test]
fn margin_change_needs_a_valid_signature() {
    let mut b = TransactionBatch::new(8, 8);
    let unsigned = ChangeMarginMessage {
        signature_valid: false,
        position: position(1000, 70),
        margin_change: -1,
        new_position_hash: h(71),
        notes_in: vec![],
        refund_note: None,
        return_note: Some(note(0, USDC, 1, 5, 2, 2)),
    };
    assert_eq!(b.change_position_margin(unsigned), Err(TransactionError::InvalidSignature));
    assert!(b.transactions.is_empty());
}

#[test]
fn failed_swap_is_not_counted_and_frees_its_orders() {
    let mut b = TransactionBatch::new(8, 8);
    b.block_order_id(7).unwrap();
    let mut j = RollbackInfo { entries: vec![], blocked: vec![] };
    assert_eq!(b.block_order_id_journaled(&mut j, 9), Ok(()));
    assert_eq!(b.block_order_id_journaled(&mut j, 7), Err(TransactionError::DuplicateOrderID));
    b.write_leaf(&mut j, LeafWrite { kind: TreeKind::Spot, index: 2, hash: h(1) });
    // the worker reports failure: undo it, and count nothing
    b.rollback_transaction(j);
    assert_eq!(spot_leaf(&b, 2), FieldElement::zero());
    assert_eq!(b.running_tx_count, 0);
    assert_eq!(b.block_order_id(9), Ok(()));
    assert_eq!(b.block_order_id(7), Err(TransactionError::DuplicateOrderID));
}

#[test]
fn split_record_holds_the_notes() {
    let mut b = TransactionBatch::new(8, 8);
    let input = note(4, USDC, 10, 4, 1, 1);
    b.execute_deposit(&vec![input]).unwrap();
    let out1 = note(4, USDC, 4, 5, 1, 1);
    let out2 = note(0, USDC, 6, 6, 1, 1);
    let idxs = b.split_notes(vec![input], vec![out1, out2]).unwrap();
    let last = b.transactions.last().unwrap();
    assert_eq!(last.kind, TxKind::NoteSplit);
    assert_eq!(last.notes_in, vec![input]);
    assert_eq!(last.notes_out, vec![out1, out2]);
    assert_eq!(last.new_indices, idxs);
    assert_eq!(b.transactions[0].notes_out, vec![input]);
}
