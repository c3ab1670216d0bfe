use zaino::metadata::FinalisedTxOutSetInfoAccumulator;
use zaino::txout_set::{
    calculate_tx_out_set_info_accumulator_after_block,
    calculate_tx_out_set_info_accumulator_after_delete_block, resolve_spent_outpoints_for_set_info,
    PreviousTransaction, ResolveError, TxOutSetError,
};
use zaino::tx_list::PreviousOutputError;
use zaino::types::{
    Outpoint, TransparentCompactTx, TxLocation, TxOutCompact, SCRIPT_TYPE_NON_STANDARD,
    SCRIPT_TYPE_P2PKH,
};

fn out(value: u64, script_type: u8) -> TxOutCompact {
    TxOutCompact {
        value,
        script_hash: [7; 20],
        script_type,
    }
}

fn tx(outputs: Vec<TxOutCompact>) -> Option<TransparentCompactTx> {
    Some(TransparentCompactTx {
        inputs: vec![],
        outputs,
    })
}

const TX_A: [u8; 32] = [1; 32];
const TX_B: [u8; 32] = [2; 32];
const TX_P: [u8; 32] = [9; 32];

struct Block {
    txids: Vec<[u8; 32]>,
    transparent: Vec<Option<TransparentCompactTx>>,
    spent: Vec<(Outpoint, TxLocation)>,
    previous: Vec<PreviousTransaction>,
}

/// A block of two transactions: A creates two spendable outputs and one non-standard output;
/// B creates one spendable output and spends A:0 (same block) and P:1 (earlier block). P has
/// two outputs, of which output 0 was spent before the block.
fn sample_block() -> Block {
    let spender = TxLocation::new(100, 1);
    Block {
        txids: vec![TX_A, TX_B],
        transparent: vec![
            tx(vec![
                out(10, SCRIPT_TYPE_P2PKH),
                out(20, SCRIPT_TYPE_P2PKH),
                out(0, SCRIPT_TYPE_NON_STANDARD),
            ]),
            tx(vec![out(5, SCRIPT_TYPE_P2PKH)]),
        ],
        spent: vec![
            (Outpoint::new(TX_A, 0), spender),
            (Outpoint::new(TX_P, 1), spender),
        ],
        previous: vec![PreviousTransaction {
            txid: TX_P,
            location: Some(TxLocation::new(50, 0)),
            transparent: tx(vec![out(1, SCRIPT_TYPE_P2PKH), out(2, SCRIPT_TYPE_P2PKH)]),
            output_spenders: vec![Some(TxLocation::new(60, 0)), None],
        }],
    }
}

fn apply(b: &Block, start: FinalisedTxOutSetInfoAccumulator) -> Result<FinalisedTxOutSetInfoAccumulator, TxOutSetError> {
    calculate_tx_out_set_info_accumulator_after_block(
        Some(start),
        Some(99),
        100,
        &b.txids,
        &b.transparent,
        &b.spent,
        &vec![None; b.spent.len()],
        &b.previous,
    )
}

fn recorded_spenders(b: &Block) -> Vec<Option<TxLocation>> {
    b.spent.iter().map(|(_, l)| Some(*l)).collect()
}

#[test]
fn applying_a_block_counts_entering_and_leaving_transactions() {
    let b = sample_block();
    let after = apply(&b, FinalisedTxOutSetInfoAccumulator::new(10, 20)).unwrap();
    // A and B enter the set, P leaves it (its only other output was already spent).
    assert_eq!(after, FinalisedTxOutSetInfoAccumulator::new(11, 21));
}

#[test]
fn deleting_a_block_undoes_applying_it() {
    let b = sample_block();
    let start = FinalisedTxOutSetInfoAccumulator::new(10, 20);
    let after = apply(&b, start).unwrap();
    let back = calculate_tx_out_set_info_accumulator_after_delete_block(
        Some(after),
        &b.txids,
        &b.transparent,
        &b.spent,
        &recorded_spenders(&b),
        &b.previous,
    )
    .unwrap();
    assert_eq!(back, start);
}

#[test]
fn previous_transaction_with_unspent_output_stays() {
    let mut b = sample_block();
    b.previous[0].output_spenders = vec![None, None];
    let after = apply(&b, FinalisedTxOutSetInfoAccumulator::new(10, 20)).unwrap();
    assert_eq!(after, FinalisedTxOutSetInfoAccumulator::new(12, 21));
}

#[test]
fn genesis_on_empty_database_starts_from_zero() {
    let txids = vec![TX_A];
    let transparent = vec![tx(vec![out(50, SCRIPT_TYPE_P2PKH)])];
    let r = calculate_tx_out_set_info_accumulator_after_block(
        None,
        None,
        0,
        &txids,
        &transparent,
        &[],
        &[],
        &[],
    );
    assert_eq!(r.unwrap(), FinalisedTxOutSetInfoAccumulator::new(1, 1));
}

#[test]
fn missing_accumulator_outside_genesis_is_an_error() {
    let txids = vec![TX_A];
    let transparent = vec![None];
    let r = calculate_tx_out_set_info_accumulator_after_block(
        None, Some(5), 6, &txids, &transparent, &[], &[], &[],
    );
    assert!(matches!(r, Err(TxOutSetError::AccumulatorMissing)));
    let r = calculate_tx_out_set_info_accumulator_after_block(
        None, None, 1, &txids, &transparent, &[], &[], &[],
    );
    assert!(matches!(r, Err(TxOutSetError::AccumulatorMissing)));
    let r = calculate_tx_out_set_info_accumulator_after_delete_block(
        None, &txids, &transparent, &[], &[], &[],
    );
    assert!(matches!(r, Err(TxOutSetError::AccumulatorMissing)));
}

#[test]
fn mismatched_block_arrays_are_rejected() {
    let r = calculate_tx_out_set_info_accumulator_after_block(
        Some(FinalisedTxOutSetInfoAccumulator::empty()),
        None,
        0,
        &[TX_A],
        &[],
        &[],
        &[],
        &[],
    );
    assert!(matches!(r, Err(TxOutSetError::TxidCountMismatch)));
}

#[test]
fn duplicate_transaction_hash_is_rejected() {
    let r = calculate_tx_out_set_info_accumulator_after_block(
        Some(FinalisedTxOutSetInfoAccumulator::empty()),
        None,
        0,
        &[TX_A, TX_A],
        &[None, None],
        &[],
        &[],
        &[],
    );
    assert!(matches!(r, Err(TxOutSetError::DuplicateTransactionHash)));
}

#[test]
fn duplicate_spend_is_rejected() {
    let mut b = sample_block();
    b.spent.push(b.spent[1]);
    let r = apply(&b, FinalisedTxOutSetInfoAccumulator::new(10, 20));
    assert!(matches!(r, Err(TxOutSetError::DuplicateSpend)));
}

#[test]
fn already_spent_outpoint_is_rejected() {
    let b = sample_block();
    let r = calculate_tx_out_set_info_accumulator_after_block(
        Some(FinalisedTxOutSetInfoAccumulator::new(10, 20)),
        Some(99),
        100,
        &b.txids,
        &b.transparent,
        &b.spent,
        &[None, Some(TxLocation::new(70, 3))],
        &b.previous,
    );
    assert!(matches!(r, Err(TxOutSetError::AlreadySpent)));
}

#[test]
fn same_block_spend_is_not_checked_against_spent_index() {
    let b = sample_block();
    let r = calculate_tx_out_set_info_accumulator_after_block(
        Some(FinalisedTxOutSetInfoAccumulator::new(10, 20)),
        Some(99),
        100,
        &b.txids,
        &b.transparent,
        &b.spent,
        &[Some(TxLocation::new(70, 3)), None],
        &b.previous,
    );
    assert_eq!(r.unwrap(), FinalisedTxOutSetInfoAccumulator::new(11, 21));
}

#[test]
fn transaction_output_count_underflow_is_rejected() {
    let b = sample_block();
    // Nothing created is not the case here; use an empty block spending two outputs.
    let r = calculate_tx_out_set_info_accumulator_after_block(
        Some(FinalisedTxOutSetInfoAccumulator::new(10, 1)),
        Some(99),
        100,
        &[],
        &[],
        &b.spent[1..],
        &[None],
        &b.previous,
    );
    assert_eq!(r.unwrap(), FinalisedTxOutSetInfoAccumulator::new(9, 0));
    let r = calculate_tx_out_set_info_accumulator_after_block(
        Some(FinalisedTxOutSetInfoAccumulator::new(10, 0)),
        Some(99),
        100,
        &[],
        &[],
        &b.spent[1..],
        &[None],
        &b.previous,
    );
    assert!(matches!(r, Err(TxOutSetError::TransactionOutputCountOutOfRange)));
}

#[test]
fn same_block_spend_beyond_outputs_is_rejected() {
    let mut b = sample_block();
    b.spent[0].0.prev_index = 3;
    let r = apply(&b, FinalisedTxOutSetInfoAccumulator::new(10, 20));
    assert!(matches!(r, Err(TxOutSetError::SameBlockOutputIndexOutOfRange)));
}

#[test]
fn unknown_previous_transaction_is_rejected() {
    let mut b = sample_block();
    b.previous.clear();
    let r = apply(&b, FinalisedTxOutSetInfoAccumulator::new(10, 20));
    assert!(matches!(r, Err(TxOutSetError::MissingFromTxidIndex)));
    let mut b = sample_block();
    b.previous[0].location = None;
    let r = apply(&b, FinalisedTxOutSetInfoAccumulator::new(10, 20));
    assert!(matches!(r, Err(TxOutSetError::MissingFromTxidIndex)));
    let mut b = sample_block();
    b.previous[0].transparent = None;
    let r = apply(&b, FinalisedTxOutSetInfoAccumulator::new(10, 20));
    assert!(matches!(r, Err(TxOutSetError::MissingTransparentData)));
}

#[test]
fn previous_output_index_beyond_outputs_is_rejected() {
    let mut b = sample_block();
    b.spent[1].0.prev_index = 2;
    let r = apply(&b, FinalisedTxOutSetInfoAccumulator::new(10, 20));
    assert!(matches!(r, Err(TxOutSetError::OutputIndexOutOfRange)));
}

#[test]
fn transaction_count_underflow_is_rejected() {
    let b = sample_block();
    // P leaves the set; with no transactions counted that is an underflow only when nothing
    // entered before. Use an empty block spending P:1.
    let r = calculate_tx_out_set_info_accumulator_after_block(
        Some(FinalisedTxOutSetInfoAccumulator::new(0, 5)),
        Some(99),
        100,
        &[],
        &[],
        &b.spent[1..],
        &[None],
        &b.previous,
    );
    assert!(matches!(r, Err(TxOutSetError::TransactionCountUnderflow)));
}

#[test]
fn deleting_checks_the_spent_index() {
    let b = sample_block();
    let after = FinalisedTxOutSetInfoAccumulator::new(11, 21);
    let r = calculate_tx_out_set_info_accumulator_after_delete_block(
        Some(after),
        &b.txids,
        &b.transparent,
        &b.spent,
        &[Some(TxLocation::new(100, 1)), None],
        &b.previous,
    );
    assert!(matches!(r, Err(TxOutSetError::SpentIndexMissing)));
    let r = calculate_tx_out_set_info_accumulator_after_delete_block(
        Some(after),
        &b.txids,
        &b.transparent,
        &b.spent,
        &[Some(TxLocation::new(100, 2)), None],
        &b.previous,
    );
    assert!(matches!(r, Err(TxOutSetError::SpentByOtherTransaction)));
}

#[test]
fn deleting_can_underflow_the_output_count() {
    let b = sample_block();
    let r = calculate_tx_out_set_info_accumulator_after_delete_block(
        Some(FinalisedTxOutSetInfoAccumulator::new(11, 0)),
        &b.txids,
        &b.transparent,
        &b.spent,
        &recorded_spenders(&b),
        &b.previous,
    );
    assert!(matches!(r, Err(TxOutSetError::TransactionOutputCountOutOfRange)));
}

#[test]
fn resolving_spent_outpoints() {
    let b = sample_block();
    let prior = vec![Err(PreviousOutputError::PreviousTxidNotFound), Ok(out(2, SCRIPT_TYPE_P2PKH))];
    let resolved =
        resolve_spent_outpoints_for_set_info(&b.spent, &b.txids, &b.transparent, &prior).unwrap();
    assert_eq!(resolved.len(), 2);
    // A:0 comes from the block itself, P:1 from the finalised state.
    assert_eq!(resolved[0].1.value, 10);
    assert_eq!(resolved[1].1.value, 2);

    let prior = vec![Ok(out(1, SCRIPT_TYPE_P2PKH)), Err(PreviousOutputError::PreviousOutputNotFound)];
    let r = resolve_spent_outpoints_for_set_info(&b.spent, &b.txids, &b.transparent, &prior);
    assert!(matches!(
        r,
        Err(ResolveError::Previous(PreviousOutputError::PreviousOutputNotFound))
    ));

    let mut b2 = sample_block();
    b2.spent[0].0.prev_index = 9;
    let prior = vec![Ok(out(1, SCRIPT_TYPE_P2PKH)), Ok(out(2, SCRIPT_TYPE_P2PKH))];
    let r = resolve_spent_outpoints_for_set_info(&b2.spent, &b2.txids, &b2.transparent, &prior);
    assert!(matches!(r, Err(ResolveError::SameBlockOutputIndexOutOfRange)));

    let mut b3 = sample_block();
    b3.transparent[0] = None;
    let r = resolve_spent_outpoints_for_set_info(&b3.spent, &b3.txids, &b3.transparent, &prior);
    assert!(matches!(r, Err(ResolveError::SameBlockMissingTransparentData)));
}

#[test]
fn deleting_a_block_whose_outputs_it_spends_itself_restores_an_empty_set() {
    // The block's only transaction creates one output, and a second transaction of the same
    // block spends it; the set starts empty.
    let spender = TxLocation::new(100, 1);
    let b = Block {
        txids: vec![TX_A, TX_B],
        transparent: vec![tx(vec![out(10, SCRIPT_TYPE_P2PKH)]), tx(vec![])],
        spent: vec![(Outpoint::new(TX_A, 0), spender)],
        previous: vec![],
    };
    let start = FinalisedTxOutSetInfoAccumulator::new(0, 0);
    let after = apply(&b, start).unwrap();
    assert_eq!(after, FinalisedTxOutSetInfoAccumulator::new(0, 0));
    let back = calculate_tx_out_set_info_accumulator_after_delete_block(
        Some(after),
        &b.txids,
        &b.transparent,
        &b.spent,
        &recorded_spenders(&b),
        &b.previous,
    );
    assert_eq!(back.unwrap(), start);
}
