use zaino::commitment::{
    empty_tx_out_set_commitment, tx_out_set_commitment_after_block,
    tx_out_set_commitment_after_delete_block, CommitmentError, TxOutSetCommitment, TxOutSetEntry,
};
use zaino::metadata::FinalisedTxOutSetInfoAccumulator;
use zaino::txout_set::PreviousTransaction;
use zaino::txout_set_info::{
    calculate_tx_out_set_info_after_block, calculate_tx_out_set_info_after_delete_block,
    commitment_entries, created_entries, TxOutSetInfo, TxOutSetInfoError,
};
use zaino::types::{
    Outpoint, TransparentCompactTx, TxLocation, TxOutCompact, SCRIPT_TYPE_NON_STANDARD,
    SCRIPT_TYPE_P2PKH,
};

const TX_A: [u8; 32] = [1; 32];
const TX_B: [u8; 32] = [2; 32];

fn out(value: u64, script_type: u8) -> TxOutCompact {
    TxOutCompact { value, script_hash: [7; 20], script_type }
}

fn tx(outputs: Vec<TxOutCompact>) -> Option<TransparentCompactTx> {
    Some(TransparentCompactTx { inputs: vec![], outputs })
}

#[test]
fn created_entries_skip_unspendable_outputs() {
    let txids = vec![TX_A, TX_B];
    let transparent = vec![
        tx(vec![out(10, SCRIPT_TYPE_P2PKH), out(0, SCRIPT_TYPE_NON_STANDARD), out(20, SCRIPT_TYPE_P2PKH)]),
        None,
    ];
    let created = created_entries(&txids, &transparent);
    assert_eq!(created.len(), 2);
    assert_eq!(created[0].0.prev_txid, TX_A);
    assert_eq!(created[0].0.prev_index, 0);
    assert_eq!(created[1].0.prev_index, 2);
    assert_eq!(created[1].1.value, 20);
    let entries = commitment_entries(&created, &[[5; 32], [6; 32]]);
    assert_eq!(entries[1].digest, [6; 32]);
    assert_eq!(entries[1].value, 20);
}

#[test]
fn commitment_after_block_adds_created_and_removes_spent() {
    let c = empty_tx_out_set_commitment();
    let created = [TxOutSetEntry { digest: [3; 32], value: 10 }, TxOutSetEntry { digest: [5; 32], value: 4 }];
    let spent = [TxOutSetEntry { digest: [5; 32], value: 4 }];
    let after = tx_out_set_commitment_after_block(c, &created, &spent, 9).unwrap();
    assert_eq!(after.hash_serialized, [3; 32]);
    assert_eq!(after.total_zatoshis, 10);
    assert_eq!(after.bytes_serialized, 9);
    let back = tx_out_set_commitment_after_delete_block(after, &created, &spent, 9).unwrap();
    assert_eq!(back.hash_serialized, [0; 32]);
    assert_eq!(back.total_zatoshis, 0);
    assert_eq!(back.bytes_serialized, 0);
}

#[test]
fn commitment_after_block_reports_underflow() {
    let c = TxOutSetCommitment { hash_serialized: [0; 32], total_zatoshis: 1, bytes_serialized: 100 };
    let spent = [TxOutSetEntry { digest: [5; 32], value: 4 }];
    assert!(matches!(
        tx_out_set_commitment_after_block(c, &[], &spent, 9),
        Err(CommitmentError::TotalZatoshisUnderflow)
    ));
}

#[test]
fn deleting_a_block_restores_counts_and_commitment() {
    // A creates two outputs; B spends A:0 in the same block and creates one output.
    let spender = TxLocation::new(0, 1);
    let txids = vec![TX_A, TX_B];
    let transparent = vec![
        tx(vec![out(10, SCRIPT_TYPE_P2PKH), out(20, SCRIPT_TYPE_P2PKH)]),
        tx(vec![out(5, SCRIPT_TYPE_P2PKH)]),
    ];
    let spent_map = vec![(Outpoint::new(TX_A, 0), spender)];
    let previous: Vec<PreviousTransaction> = vec![];
    let prior = vec![Ok(out(10, SCRIPT_TYPE_P2PKH))];
    let created_digests = [[1; 32], [2; 32], [4; 32]];
    let spent_digests = [[1; 32]];
    let after = calculate_tx_out_set_info_after_block(
        None, None, 0, &txids, &transparent, &spent_map, &[None], &previous, &prior,
        &created_digests, &spent_digests, 50,
    )
    .unwrap();
    assert_eq!(after.accumulator, FinalisedTxOutSetInfoAccumulator::new(2, 2));
    assert_eq!(after.commitment.total_zatoshis, 25);
    assert_eq!(after.commitment.bytes_serialized, 100);
    assert_eq!(after.commitment.hash_serialized, [6; 32]);
    let back = calculate_tx_out_set_info_after_delete_block(
        Some(after), &txids, &transparent, &spent_map, &[Some(spender)], &previous, &prior,
        &created_digests, &spent_digests, 50,
    )
    .unwrap();
    assert_eq!(back.accumulator, FinalisedTxOutSetInfoAccumulator::new(0, 0));
    assert_eq!(back.commitment.total_zatoshis, 0);
    assert_eq!(back.commitment.bytes_serialized, 0);
    assert_eq!(back.commitment.hash_serialized, [0; 32]);
}

#[test]
fn missing_information_outside_genesis_is_an_error() {
    let r = calculate_tx_out_set_info_after_block(
        None, Some(3), 4, &[], &[], &[], &[], &[], &[], &[], &[], 50,
    );
    assert!(matches!(r, Err(TxOutSetInfoError::Counts(_))));
    let stored = TxOutSetInfo {
        accumulator: FinalisedTxOutSetInfoAccumulator::new(0, 0),
        commitment: empty_tx_out_set_commitment(),
    };
    let r = calculate_tx_out_set_info_after_block(
        Some(stored), Some(3), 4, &[], &[], &[], &[], &[], &[], &[], &[], 50,
    );
    assert!(r.is_ok());
}
