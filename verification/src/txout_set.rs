//! Finalised-state txout-set accumulator: how writing or deleting a block changes the number of
//! transactions with unspent transparent outputs and the number of unspent transparent outputs.
use vstd::prelude::*;

use crate::metadata::FinalisedTxOutSetInfoAccumulator;
use crate::tx_list::PreviousOutputError;
use crate::types::{
    hash_eq, is_unspendable, is_unspendable_tx_out, Outpoint, TransparentCompactTx, TxLocation,
    TxOutCompact,
};

verus! {

/// Reasons why the accumulator cannot be moved across a block.
#[derive(Debug)]
pub enum TxOutSetError {
    /// The transaction hash list and the transparent data list differ in length.
    TxidCountMismatch,
    /// The stored accumulator is missing from a database that should hold one.
    AccumulatorMissing,
    /// A transaction has more transparent outputs than fit into `u32`.
    OutputCountTooLarge,
    /// The block holds the same transaction hash twice.
    DuplicateTransactionHash,
    /// The block spends the same outpoint twice.
    DuplicateSpend,
    /// The number of created spendable outputs does not fit into `u64`.
    CreatedOutputCountOverflow,
    /// The unspent output count would leave the `u64` range.
    TransactionOutputCountOutOfRange,
    /// The block spends an outpoint that the finalised state already records as spent.
    AlreadySpent,
    /// The spent index holds no entry for an outpoint spent by the block being deleted.
    SpentIndexMissing,
    /// The spent index names another spender than the block being deleted.
    SpentByOtherTransaction,
    /// A same-block spend names an output index the creating transaction does not have.
    SameBlockOutputIndexOutOfRange,
    /// More same-block spends of one transaction than fit into `u32`.
    SpentCountTooLarge,
    /// The transaction count would exceed `u64::MAX`.
    TransactionCountOverflow,
    /// The transaction count would drop below zero.
    TransactionCountUnderflow,
    /// A spent transaction is not in the txid index.
    MissingFromTxidIndex,
    /// A spent transaction has no transparent data.
    MissingTransparentData,
    /// A spent previous transaction has more outputs than fit into `u32`.
    PreviousOutputCountTooLarge,
    /// A spend names an output index the previous transaction does not have.
    OutputIndexOutOfRange,
}

/// What the finalised state records about a transaction created before the block and spent from
/// by it: its location (if indexed), its transparent data (if stored) and, for each of its
/// outputs, the recorded spender. A missing spender entry means the output is unspent.
#[derive(Clone, Debug)]
pub struct PreviousTransaction {
    pub txid: [u8; 32],
    pub location: Option<TxLocation>,
    pub transparent: Option<TransparentCompactTx>,
    pub output_spenders: Vec<Option<TxLocation>>,
}

// ---------------------------------------------------------------------------------------------
// Mathematical model
// ---------------------------------------------------------------------------------------------

/// The transparent outputs of an optional transaction.
pub open spec fn outputs_of(t: Option<TransparentCompactTx>) -> Seq<TxOutCompact> {
    match t {
        Some(tx) => tx.outputs@,
        None => Seq::empty(),
    }
}

/// Number of spendable outputs in a sequence.
pub open spec fn count_spendable(s: Seq<TxOutCompact>) -> nat
    decreases s.len(),
{
    if s.len() == 0 {
        0
    } else {
        count_spendable(s.drop_last()) + if is_unspendable(s.last()) { 0nat } else { 1nat }
    }
}

/// Whether the block creates a transaction with hash `key`.
pub open spec fn in_block(txids: Seq<[u8; 32]>, key: Seq<u8>) -> bool {
    exists|i: int| 0 <= i < txids.len() && #[trigger] txids[i]@ == key
}

/// The first `n` transactions hold an output count beyond `u32` or a repeated hash.
pub open spec fn block_outputs_error(
    txids: Seq<[u8; 32]>,
    transparent: Seq<Option<TransparentCompactTx>>,
    n: nat,
) -> Option<TxOutSetError>
    decreases n,
{
    if n == 0 {
        None
    } else {
        match block_outputs_error(txids, transparent, (n - 1) as nat) {
            Some(e) => Some(e),
            None => {
                let i = n - 1;
                if outputs_of(transparent[i]).len() > u32::MAX {
                    Some(TxOutSetError::OutputCountTooLarge)
                } else if exists|j: int| 0 <= j < i && #[trigger] txids[j]@ == txids[i]@ {
                    Some(TxOutSetError::DuplicateTransactionHash)
                } else {
                    None
                }
            },
        }
    }
}

/// Two entries of the spent map name the same outpoint.
pub open spec fn has_duplicate_spend(spent: Seq<(Outpoint, TxLocation)>) -> bool {
    exists|j: int, k: int|
        0 <= j < k < spent.len() && #[trigger] spent[j].0.prev_txid@ == #[trigger] spent[k].0.prev_txid@
            && spent[j].0.prev_index == spent[k].0.prev_index
}

/// Total number of spendable outputs created by the first `n` transactions.
pub open spec fn total_spendable(transparent: Seq<Option<TransparentCompactTx>>, n: nat) -> nat
    decreases n,
{
    if n == 0 {
        0
    } else {
        total_spendable(transparent, (n - 1) as nat) + count_spendable(
            outputs_of(transparent[n - 1]),
        )
    }
}

/// Some outpoint spent by the block, created before it, is already recorded as spent.
pub open spec fn has_already_spent(
    txids: Seq<[u8; 32]>,
    spent: Seq<(Outpoint, TxLocation)>,
    spenders: Seq<Option<TxLocation>>,
) -> bool {
    exists|i: int|
        0 <= i < spent.len() && i < spenders.len() && !in_block(txids, spent[i].0.prev_txid@)
            && (#[trigger] spenders[i]) is Some
}

/// The first disagreement, among the first `n` entries, between the spent map of the block being
/// deleted and the spenders recorded in the spent index.
pub open spec fn delete_spender_error(
    spent: Seq<(Outpoint, TxLocation)>,
    spenders: Seq<Option<TxLocation>>,
    n: nat,
) -> Option<TxOutSetError>
    decreases n,
{
    if n == 0 {
        None
    } else {
        match delete_spender_error(spent, spenders, (n - 1) as nat) {
            Some(e) => Some(e),
            None => match spenders[n - 1] {
                None => Some(TxOutSetError::SpentIndexMissing),
                Some(l) => if l != spent[n - 1].1 {
                    Some(TxOutSetError::SpentByOtherTransaction)
                } else {
                    None
                },
            },
        }
    }
}

/// The smaller of two lengths.
pub open spec fn min_len(a: nat, b: nat) -> nat {
    if a <= b {
        a
    } else {
        b
    }
}

/// Number of spent-map entries that spend from the transaction with hash `key`.
pub open spec fn spent_count_for(spent: Seq<(Outpoint, TxLocation)>, key: Seq<u8>) -> nat
    decreases spent.len(),
{
    if spent.len() == 0 {
        0
    } else {
        spent_count_for(spent.drop_last(), key) + if spent.last().0.prev_txid@ == key {
            1nat
        } else {
            0nat
        }
    }
}

/// The block spends an output of transaction `key` whose index is at least `bound`.
pub open spec fn spends_index_at_least(
    spent: Seq<(Outpoint, TxLocation)>,
    key: Seq<u8>,
    bound: nat,
) -> bool {
    exists|j: int|
        0 <= j < spent.len() && (#[trigger] spent[j]).0.prev_txid@ == key && spent[j].0.prev_index
            >= bound
}

/// The block spends output `index` of transaction `key`.
pub open spec fn spends_output(spent: Seq<(Outpoint, TxLocation)>, key: Seq<u8>, index: int) -> bool {
    exists|j: int|
        0 <= j < spent.len() && (#[trigger] spent[j]).0.prev_txid@ == key && spent[j].0.prev_index
            == index
}

/// Block transaction `i` enters the set of transactions with unspent outputs: it keeps at least
/// one spendable output after the same-block spends.
pub open spec fn enters(
    txids: Seq<[u8; 32]>,
    transparent: Seq<Option<TransparentCompactTx>>,
    spent: Seq<(Outpoint, TxLocation)>,
    i: int,
) -> bool {
    count_spendable(outputs_of(transparent[i])) > spent_count_for(spent, txids[i]@)
}

/// Block transaction `i` is inconsistent with the same-block spends.
pub open spec fn created_error(
    txids: Seq<[u8; 32]>,
    transparent: Seq<Option<TransparentCompactTx>>,
    spent: Seq<(Outpoint, TxLocation)>,
    i: int,
) -> Option<TxOutSetError> {
    if spends_index_at_least(spent, txids[i]@, outputs_of(transparent[i]).len()) {
        Some(TxOutSetError::SameBlockOutputIndexOutOfRange)
    } else if spent_count_for(spent, txids[i]@) > u32::MAX {
        Some(TxOutSetError::SpentCountTooLarge)
    } else {
        None
    }
}

/// One counted step on the transaction count: up when applying a block, down when deleting it.
pub open spec fn count_step(acc: u64, counted: bool, up: bool) -> Result<u64, TxOutSetError> {
    if !counted {
        Ok(acc)
    } else if up {
        if acc == u64::MAX {
            Err(TxOutSetError::TransactionCountOverflow)
        } else {
            Ok((acc + 1) as u64)
        }
    } else {
        if acc == 0 {
            Err(TxOutSetError::TransactionCountUnderflow)
        } else {
            Ok((acc - 1) as u64)
        }
    }
}

/// The transaction count after going through the first `n` block transactions, starting at
/// `start`; `applying` is true when the block is written and false when it is deleted.
pub open spec fn created_fold(
    txids: Seq<[u8; 32]>,
    transparent: Seq<Option<TransparentCompactTx>>,
    spent: Seq<(Outpoint, TxLocation)>,
    n: nat,
    start: u64,
    applying: bool,
) -> Result<u64, TxOutSetError>
    decreases n,
{
    if n == 0 {
        Ok(start)
    } else {
        match created_fold(txids, transparent, spent, (n - 1) as nat, start, applying) {
            Err(e) => Err(e),
            Ok(acc) => match created_error(txids, transparent, spent, n - 1) {
                Some(e) => Err(e),
                None => count_step(acc, enters(txids, transparent, spent, n - 1), applying),
            },
        }
    }
}

/// The first `n` block transactions hold no inconsistency with the same-block spends.
pub open spec fn no_created_error(
    txids: Seq<[u8; 32]>,
    transparent: Seq<Option<TransparentCompactTx>>,
    spent: Seq<(Outpoint, TxLocation)>,
    n: nat,
) -> bool {
    forall|i: int| 0 <= i < n ==> (#[trigger] created_error(txids, transparent, spent, i)) is None
}

/// Number of the first `n` block transactions that enter the set.
pub open spec fn enter_count(
    txids: Seq<[u8; 32]>,
    transparent: Seq<Option<TransparentCompactTx>>,
    spent: Seq<(Outpoint, TxLocation)>,
    n: nat,
) -> nat
    decreases n,
{
    if n == 0 {
        0
    } else {
        enter_count(txids, transparent, spent, (n - 1) as nat) + if enters(
            txids,
            transparent,
            spent,
            n - 1,
        ) {
            1nat
        } else {
            0nat
        }
    }
}

/// Spent-map entry `k` is the first one that spends from a transaction created before the block.
pub open spec fn is_first_previous(
    txids: Seq<[u8; 32]>,
    spent: Seq<(Outpoint, TxLocation)>,
    k: int,
) -> bool {
    &&& !in_block(txids, spent[k].0.prev_txid@)
    &&& !exists|j: int| 0 <= j < k && #[trigger] spent[j].0.prev_txid@ == spent[k].0.prev_txid@
}

/// The first record about transaction `key` among the previous-transaction facts.
pub open spec fn find_previous(prev: Seq<PreviousTransaction>, key: Seq<u8>) -> Option<
    PreviousTransaction,
>
    decreases prev.len(),
{
    if prev.len() == 0 {
        None
    } else if prev[0].txid@ == key {
        Some(prev[0])
    } else {
        find_previous(prev.drop_first(), key)
    }
}

/// What is wrong with the facts about previous transaction `key`, if anything.
pub open spec fn previous_error(
    prev: Seq<PreviousTransaction>,
    spent: Seq<(Outpoint, TxLocation)>,
    key: Seq<u8>,
) -> Option<TxOutSetError> {
    match find_previous(prev, key) {
        None => Some(TxOutSetError::MissingFromTxidIndex),
        Some(p) => if p.location is None {
            Some(TxOutSetError::MissingFromTxidIndex)
        } else if p.transparent is None {
            Some(TxOutSetError::MissingTransparentData)
        } else if outputs_of(p.transparent).len() > u32::MAX {
            Some(TxOutSetError::PreviousOutputCountTooLarge)
        } else if spends_index_at_least(spent, key, outputs_of(p.transparent).len()) {
            Some(TxOutSetError::OutputIndexOutOfRange)
        } else {
            None
        },
    }
}

/// Output `o` of a previous transaction has no recorded spender.
pub open spec fn output_unspent(p: PreviousTransaction, o: int) -> bool {
    o >= p.output_spenders@.len() || p.output_spenders@[o] is None
}

/// The previous transaction `key` leaves the set of transactions with unspent outputs: none of
/// its spendable outputs that the block does not spend is still unspent.
pub open spec fn leaves(
    prev: Seq<PreviousTransaction>,
    spent: Seq<(Outpoint, TxLocation)>,
    key: Seq<u8>,
) -> bool {
    let p = find_previous(prev, key)->0;
    let outs = outputs_of(p.transparent);
    !exists|o: int|
        0 <= o < outs.len() && !is_unspendable(#[trigger] outs[o]) && !spends_output(spent, key, o)
            && output_unspent(p, o)
}

/// The transaction count after going through the first `n` spent-map entries, starting at
/// `start`; `applying` is true when the block is written and false when it is deleted.
pub open spec fn previous_fold(
    txids: Seq<[u8; 32]>,
    spent: Seq<(Outpoint, TxLocation)>,
    prev: Seq<PreviousTransaction>,
    n: nat,
    start: u64,
    applying: bool,
) -> Result<u64, TxOutSetError>
    decreases n,
{
    if n == 0 {
        Ok(start)
    } else {
        match previous_fold(txids, spent, prev, (n - 1) as nat, start, applying) {
            Err(e) => Err(e),
            Ok(acc) => {
                let k = n - 1;
                let key = spent[k].0.prev_txid@;
                if !is_first_previous(txids, spent, k) {
                    Ok(acc)
                } else {
                    match previous_error(prev, spent, key) {
                        Some(e) => Err(e),
                        None => count_step(acc, leaves(prev, spent, key), !applying),
                    }
                }
            },
        }
    }
}

/// The facts about the previous transactions spent from by the first `n` spent-map entries are
/// consistent.
pub open spec fn no_previous_error(
    txids: Seq<[u8; 32]>,
    spent: Seq<(Outpoint, TxLocation)>,
    prev: Seq<PreviousTransaction>,
    n: nat,
) -> bool {
    forall|k: int|
        0 <= k < n && #[trigger] is_first_previous(txids, spent, k) ==> previous_error(
            prev,
            spent,
            spent[k].0.prev_txid@,
        ) is None
}

/// Number of previous transactions, among those spent from by the first `n` spent-map entries,
/// that leave the set.
pub open spec fn leave_count(
    txids: Seq<[u8; 32]>,
    spent: Seq<(Outpoint, TxLocation)>,
    prev: Seq<PreviousTransaction>,
    n: nat,
) -> nat
    decreases n,
{
    if n == 0 {
        0
    } else {
        leave_count(txids, spent, prev, (n - 1) as nat) + if is_first_previous(txids, spent, n - 1)
            && leaves(prev, spent, spent[n - 1].0.prev_txid@) {
            1nat
        } else {
            0nat
        }
    }
}

/// The accumulator that applying a block starts from.
pub open spec fn starting_accumulator(
    stored: Option<FinalisedTxOutSetInfoAccumulator>,
    tip_height: Option<u32>,
    block_height: u32,
) -> Result<FinalisedTxOutSetInfoAccumulator, TxOutSetError> {
    match stored {
        Some(a) => Ok(a),
        None => if tip_height is None && block_height == 0 {
            Ok(FinalisedTxOutSetInfoAccumulator { transactions: 0, transaction_outputs: 0 })
        } else {
            Err(TxOutSetError::AccumulatorMissing)
        },
    }
}

/// The accumulator after writing a block, or why it cannot be computed.
pub open spec fn spec_after_block(
    stored: Option<FinalisedTxOutSetInfoAccumulator>,
    tip_height: Option<u32>,
    block_height: u32,
    txids: Seq<[u8; 32]>,
    transparent: Seq<Option<TransparentCompactTx>>,
    spent: Seq<(Outpoint, TxLocation)>,
    spenders: Seq<Option<TxLocation>>,
    prev: Seq<PreviousTransaction>,
) -> Result<FinalisedTxOutSetInfoAccumulator, TxOutSetError> {
    if txids.len() != transparent.len() {
        Err(TxOutSetError::TxidCountMismatch)
    } else {
        match starting_accumulator(stored, tip_height, block_height) {
            Err(e) => Err(e),
            Ok(a) => {
                let created = total_spendable(transparent, transparent.len());
                if let Some(e) = block_outputs_error(txids, transparent, txids.len()) {
                    Err(e)
                } else if has_duplicate_spend(spent) {
                    Err(TxOutSetError::DuplicateSpend)
                } else if created > u64::MAX {
                    Err(TxOutSetError::CreatedOutputCountOverflow)
                } else if a.transaction_outputs + created > u64::MAX || a.transaction_outputs
                    + created < spent.len() {
                    Err(TxOutSetError::TransactionOutputCountOutOfRange)
                } else if has_already_spent(txids, spent, spenders) {
                    Err(TxOutSetError::AlreadySpent)
                } else {
                    match created_fold(
                        txids,
                        transparent,
                        spent,
                        txids.len(),
                        a.transactions,
                        true,
                    ) {
                        Err(e) => Err(e),
                        Ok(x) => match previous_fold(txids, spent, prev, spent.len(), x, true) {
                            Err(e) => Err(e),
                            Ok(y) => Ok(
                                FinalisedTxOutSetInfoAccumulator {
                                    transactions: y,
                                    transaction_outputs: (a.transaction_outputs + created
                                        - spent.len()) as u64,
                                },
                            ),
                        },
                    }
                }
            },
        }
    }
}

/// The accumulator after deleting the tip block, or why it cannot be computed.
pub open spec fn spec_after_delete_block(
    stored: Option<FinalisedTxOutSetInfoAccumulator>,
    txids: Seq<[u8; 32]>,
    transparent: Seq<Option<TransparentCompactTx>>,
    spent: Seq<(Outpoint, TxLocation)>,
    spenders: Seq<Option<TxLocation>>,
    prev: Seq<PreviousTransaction>,
) -> Result<FinalisedTxOutSetInfoAccumulator, TxOutSetError> {
    if txids.len() != transparent.len() {
        Err(TxOutSetError::TxidCountMismatch)
    } else {
        match stored {
            None => Err(TxOutSetError::AccumulatorMissing),
            Some(a) => {
                let created = total_spendable(transparent, transparent.len());
                if let Some(e) = block_outputs_error(txids, transparent, txids.len()) {
                    Err(e)
                } else if has_duplicate_spend(spent) {
                    Err(TxOutSetError::DuplicateSpend)
                } else if created > u64::MAX {
                    Err(TxOutSetError::CreatedOutputCountOverflow)
                } else if a.transaction_outputs + spent.len() > u64::MAX || a.transaction_outputs
                    + spent.len() < created {
                    Err(TxOutSetError::TransactionOutputCountOutOfRange)
                } else if let Some(e) = delete_spender_error(
                    spent,
                    spenders,
                    min_len(spent.len(), spenders.len()),
                ) {
                    Err(e)
                } else {
                    match created_fold(
                        txids,
                        transparent,
                        spent,
                        txids.len(),
                        a.transactions,
                        false,
                    ) {
                        Err(e) => Err(e),
                        Ok(x) => match previous_fold(txids, spent, prev, spent.len(), x, false) {
                            Err(e) => Err(e),
                            Ok(y) => Ok(
                                FinalisedTxOutSetInfoAccumulator {
                                    transactions: y,
                                    transaction_outputs: (a.transaction_outputs + spent.len()
                                        - created) as u64,
                                },
                            ),
                        },
                    }
                }
            },
        }
    }
}


// ---------------------------------------------------------------------------------------------
// Executable pieces
// ---------------------------------------------------------------------------------------------

/// Number of transparent outputs of an optional transaction.
fn output_count(t: &Option<TransparentCompactTx>) -> (r: usize)
    ensures
        r == outputs_of(*t).len(),
{
    match t {
        Some(tx) => tx.outputs.len(),
        None => 0,
    }
}

/// Number of spendable outputs of an optional transaction.
fn spendable_count(t: &Option<TransparentCompactTx>) -> (r: usize)
    ensures
        r == count_spendable(outputs_of(*t)),
        r <= outputs_of(*t).len(),
{
    match t {
        None => 0,
        Some(tx) => {
            let mut count: usize = 0;
            let mut i: usize = 0;
            while i < tx.outputs.len()
                invariant
                    0 <= i <= tx.outputs@.len(),
                    count == count_spendable(tx.outputs@.take(i as int)),
                    count <= i,
                decreases tx.outputs@.len() - i,
            {
                assert(tx.outputs@.take((i + 1) as int).drop_last() =~= tx.outputs@.take(i as int));
                if !is_unspendable_tx_out(&tx.outputs[i]) {
                    count = count + 1;
                }
                i = i + 1;
            }
            assert(tx.outputs@.take(i as int) =~= tx.outputs@);
            count
        },
    }
}

/// Whether the block creates a transaction with hash `key`.
fn in_block_exec(txids: &[[u8; 32]], key: &[u8; 32]) -> (r: bool)
    ensures
        r == in_block(txids@, key@),
{
    let mut i: usize = 0;
    while i < txids.len()
        invariant
            0 <= i <= txids@.len(),
            forall|j: int| 0 <= j < i ==> txids@[j]@ != key@,
        decreases txids@.len() - i,
    {
        if hash_eq(&txids[i], key) {
            return true;
        }
        i = i + 1;
    }
    false
}

/// Scans the spent map for spends from transaction `key`: whether one names an output index at
/// least `bound`, and how many there are.
fn scan_spends_from(spent: &[(Outpoint, TxLocation)], key: &[u8; 32], bound: usize) -> (r: (
    bool,
    usize,
))
    ensures
        r.0 == spends_index_at_least(spent@, key@, bound as nat),
        r.1 == spent_count_for(spent@, key@),
{
    let mut beyond = false;
    let mut count: usize = 0;
    let mut i: usize = 0;
    while i < spent.len()
        invariant
            0 <= i <= spent@.len(),
            count == spent_count_for(spent@.take(i as int), key@),
            count <= i,
            beyond == exists|j: int|
                0 <= j < i && (#[trigger] spent@[j]).0.prev_txid@ == key@ && spent@[j].0.prev_index
                    >= bound,
        decreases spent@.len() - i,
    {
        assert(spent@.take((i + 1) as int).drop_last() =~= spent@.take(i as int));
        if hash_eq(&spent[i].0.prev_txid, key) {
            count = count + 1;
            if spent[i].0.prev_index as usize >= bound {
                beyond = true;
            }
        }
        i = i + 1;
    }
    assert(spent@.take(i as int) =~= spent@);
    (beyond, count)
}

/// Whether the block spends output `index` of transaction `key`.
fn spends_output_exec(spent: &[(Outpoint, TxLocation)], key: &[u8; 32], index: u32) -> (r: bool)
    ensures
        r == spends_output(spent@, key@, index as int),
{
    let mut i: usize = 0;
    while i < spent.len()
        invariant
            0 <= i <= spent@.len(),
            forall|j: int|
                0 <= j < i ==> !((#[trigger] spent@[j]).0.prev_txid@ == key@ && spent@[j].0.prev_index
                    == index),
        decreases spent@.len() - i,
    {
        if spent[i].0.prev_index == index && hash_eq(&spent[i].0.prev_txid, key) {
            return true;
        }
        i = i + 1;
    }
    false
}

/// Checks the block's transactions for output counts beyond `u32` and repeated hashes.
fn check_block_outputs(txids: &[[u8; 32]], transparent: &[Option<TransparentCompactTx>]) -> (r:
    Option<TxOutSetError>)
    requires
        txids@.len() == transparent@.len(),
    ensures
        r == block_outputs_error(txids@, transparent@, txids@.len()),
{
    let mut i: usize = 0;
    while i < txids.len()
        invariant
            0 <= i <= txids@.len(),
            txids@.len() == transparent@.len(),
            block_outputs_error(txids@, transparent@, i as nat) is None,
        decreases txids@.len() - i,
    {
        if output_count(&transparent[i]) > u32::MAX as usize {
            proof {
                lemma_block_outputs_error_persists(
                    txids@,
                    transparent@,
                    (i + 1) as nat,
                    txids@.len(),
                );
            }
            return Some(TxOutSetError::OutputCountTooLarge);
        }
        let mut j: usize = 0;
        while j < i
            invariant
                0 <= j <= i < txids@.len(),
                txids@.len() == transparent@.len(),
                block_outputs_error(txids@, transparent@, i as nat) is None,
                outputs_of(transparent@[i as int]).len() <= u32::MAX,
                forall|k: int| 0 <= k < j ==> txids@[k]@ != txids@[i as int]@,
            decreases i - j,
        {
            if hash_eq(&txids[j], &txids[i]) {
                proof {
                    assert(txids@[j as int]@ == txids@[i as int]@);
                    lemma_block_outputs_error_persists(
                        txids@,
                        transparent@,
                        (i + 1) as nat,
                        txids@.len(),
                    );
                }
                return Some(TxOutSetError::DuplicateTransactionHash);
            }
            j = j + 1;
        }
        i = i + 1;
    }
    None
}

/// Whether two entries of the spent map name the same outpoint.
fn has_duplicate_spend_exec(spent: &[(Outpoint, TxLocation)]) -> (r: bool)
    ensures
        r == has_duplicate_spend(spent@),
{
    let mut k: usize = 0;
    while k < spent.len()
        invariant
            0 <= k <= spent@.len(),
            forall|j: int, l: int|
                0 <= j < l < k ==> !(#[trigger] spent@[j].0.prev_txid@ == #[trigger] spent@[l].0.prev_txid@
                    && spent@[j].0.prev_index == spent@[l].0.prev_index),
        decreases spent@.len() - k,
    {
        let mut j: usize = 0;
        while j < k
            invariant
                0 <= j <= k < spent@.len(),
                forall|m: int|
                    0 <= m < j ==> !(#[trigger] spent@[m].0.prev_txid@ == spent@[k as int].0.prev_txid@
                        && spent@[m].0.prev_index == spent@[k as int].0.prev_index),
            decreases k - j,
        {
            if spent[j].0.prev_index == spent[k].0.prev_index && hash_eq(
                &spent[j].0.prev_txid,
                &spent[k].0.prev_txid,
            ) {
                return true;
            }
            j = j + 1;
        }
        k = k + 1;
    }
    false
}

/// Total number of spendable outputs created by the block, if it fits into `u64`.
fn sum_spendable(transparent: &[Option<TransparentCompactTx>]) -> (r: Option<u64>)
    ensures
        r is Some <==> total_spendable(transparent@, transparent@.len()) <= u64::MAX,
        r matches Some(v) ==> v == total_spendable(transparent@, transparent@.len()),
{
    let mut total: u64 = 0;
    let mut i: usize = 0;
    while i < transparent.len()
        invariant
            0 <= i <= transparent@.len(),
            total == total_spendable(transparent@, i as nat),
        decreases transparent@.len() - i,
    {
        let c = spendable_count(&transparent[i]);
        proof {
            lemma_total_spendable_monotone(transparent@, (i + 1) as nat, transparent@.len());
        }
        if total > u64::MAX - c as u64 {
            return None;
        }
        total = total + c as u64;
        i = i + 1;
    }
    Some(total)
}

/// The running total only grows.
proof fn lemma_total_spendable_monotone(
    transparent: Seq<Option<TransparentCompactTx>>,
    m: nat,
    n: nat,
)
    requires
        m <= n,
    ensures
        total_spendable(transparent, m) <= total_spendable(transparent, n),
    decreases n - m,
{
    if m < n {
        lemma_total_spendable_monotone(transparent, m, (n - 1) as nat);
    }
}


/// Once the checks over a prefix of the block fail, they fail with the same error over any
/// longer prefix.
proof fn lemma_block_outputs_error_persists(
    txids: Seq<[u8; 32]>,
    transparent: Seq<Option<TransparentCompactTx>>,
    m: nat,
    n: nat,
)
    requires
        m <= n,
        block_outputs_error(txids, transparent, m) is Some,
    ensures
        block_outputs_error(txids, transparent, n) == block_outputs_error(txids, transparent, m),
    decreases n - m,
{
    if m < n {
        lemma_block_outputs_error_persists(txids, transparent, m, (n - 1) as nat);
    }
}

/// Once the pass over the block's transactions fails, it fails with the same error.
proof fn lemma_created_fold_err_persists(
    txids: Seq<[u8; 32]>,
    transparent: Seq<Option<TransparentCompactTx>>,
    spent: Seq<(Outpoint, TxLocation)>,
    m: nat,
    n: nat,
    start: u64,
    applying: bool,
)
    requires
        m <= n,
        created_fold(txids, transparent, spent, m, start, applying) is Err,
    ensures
        created_fold(txids, transparent, spent, n, start, applying) == created_fold(
            txids,
            transparent,
            spent,
            m,
            start,
            applying,
        ),
    decreases n - m,
{
    if m < n {
        lemma_created_fold_err_persists(txids, transparent, spent, m, (n - 1) as nat, start, applying);
    }
}

/// Once the pass over the previous transactions fails, it fails with the same error.
proof fn lemma_previous_fold_err_persists(
    txids: Seq<[u8; 32]>,
    spent: Seq<(Outpoint, TxLocation)>,
    prev: Seq<PreviousTransaction>,
    m: nat,
    n: nat,
    start: u64,
    applying: bool,
)
    requires
        m <= n,
        previous_fold(txids, spent, prev, m, start, applying) is Err,
    ensures
        previous_fold(txids, spent, prev, n, start, applying) == previous_fold(
            txids,
            spent,
            prev,
            m,
            start,
            applying,
        ),
    decreases n - m,
{
    if m < n {
        lemma_previous_fold_err_persists(txids, spent, prev, m, (n - 1) as nat, start, applying);
    }
}

/// One counted step on the transaction count.
fn count_step_exec(acc: u64, counted: bool, up: bool) -> (r: Result<u64, TxOutSetError>)
    ensures
        r == count_step(acc, counted, up),
{
    if !counted {
        Ok(acc)
    } else if up {
        match acc.checked_add(1) {
            Some(v) => Ok(v),
            None => Err(TxOutSetError::TransactionCountOverflow),
        }
    } else {
        match acc.checked_sub(1) {
            Some(v) => Ok(v),
            None => Err(TxOutSetError::TransactionCountUnderflow),
        }
    }
}

/// Goes through the block's own transactions: checks same-block spends against the creating
/// transaction and counts each transaction that keeps a spendable output.
fn created_pass(
    txids: &[[u8; 32]],
    transparent: &[Option<TransparentCompactTx>],
    spent: &[(Outpoint, TxLocation)],
    start: u64,
    applying: bool,
) -> (r: Result<u64, TxOutSetError>)
    requires
        txids@.len() == transparent@.len(),
    ensures
        r == created_fold(txids@, transparent@, spent@, txids@.len(), start, applying),
{
    let mut acc = start;
    let mut i: usize = 0;
    while i < txids.len()
        invariant
            0 <= i <= txids@.len(),
            txids@.len() == transparent@.len(),
            created_fold(txids@, transparent@, spent@, i as nat, start, applying) == Ok::<
                u64,
                TxOutSetError,
            >(acc),
        decreases txids@.len() - i,
    {
        let total = output_count(&transparent[i]);
        let (beyond, spent_count) = scan_spends_from(spent, &txids[i], total);
        let ghost n = txids@.len();
        if beyond {
            proof {
                lemma_created_fold_err_persists(txids@, transparent@, spent@, (i + 1) as nat, n, start, applying);
            }
            return Err(TxOutSetError::SameBlockOutputIndexOutOfRange);
        }
        if spent_count > u32::MAX as usize {
            proof {
                lemma_created_fold_err_persists(txids@, transparent@, spent@, (i + 1) as nat, n, start, applying);
            }
            return Err(TxOutSetError::SpentCountTooLarge);
        }
        let spendable = spendable_count(&transparent[i]);
        acc = match count_step_exec(acc, spendable > spent_count, applying) {
            Ok(v) => v,
            Err(e) => {
                proof {
                    lemma_created_fold_err_persists(txids@, transparent@, spent@, (i + 1) as nat, n, start, applying);
                }
                return Err(e);
            },
        };
        i = i + 1;
    }
    Ok(acc)
}

/// Position of the first record about transaction `key`.
fn find_previous_exec(prev: &[PreviousTransaction], key: &[u8; 32]) -> (r: Option<usize>)
    ensures
        match r {
            Some(i) => i < prev@.len() && find_previous(prev@, key@) == Some(prev@[i as int]),
            None => find_previous(prev@, key@) is None,
        },
{
    let mut i: usize = 0;
    assert(prev@.skip(0) =~= prev@);
    while i < prev.len()
        invariant
            0 <= i <= prev@.len(),
            find_previous(prev@, key@) == find_previous(prev@.skip(i as int), key@),
        decreases prev@.len() - i,
    {
        assert(prev@.skip(i as int).drop_first() =~= prev@.skip((i + 1) as int));
        if hash_eq(&prev[i].txid, key) {
            return Some(i);
        }
        i = i + 1;
    }
    None
}

/// Checks the facts about previous transaction `key` and decides whether it leaves the set.
fn previous_check(prev: &[PreviousTransaction], spent: &[(Outpoint, TxLocation)], key: &[u8; 32]) -> (r:
    Result<bool, TxOutSetError>)
    ensures
        match r {
            Err(e) => previous_error(prev@, spent@, key@) == Some(e),
            Ok(b) => previous_error(prev@, spent@, key@) is None && b == leaves(
                prev@,
                spent@,
                key@,
            ),
        },
{
    let idx = match find_previous_exec(prev, key) {
        Some(i) => i,
        None => return Err(TxOutSetError::MissingFromTxidIndex),
    };
    let p = &prev[idx];
    if p.location.is_none() {
        return Err(TxOutSetError::MissingFromTxidIndex);
    }
    let tx = match &p.transparent {
        Some(tx) => tx,
        None => return Err(TxOutSetError::MissingTransparentData),
    };
    if tx.outputs.len() > u32::MAX as usize {
        return Err(TxOutSetError::PreviousOutputCountTooLarge);
    }
    let (beyond, _count) = scan_spends_from(spent, key, tx.outputs.len());
    if beyond {
        return Err(TxOutSetError::OutputIndexOutOfRange);
    }
    // The spendable outputs that this block does not spend; the transaction leaves the set
    // unless one of them is still unspent.
    let ghost outs = tx.outputs@;
    assert(find_previous(prev@, key@) == Some(*p));
    assert(outputs_of(p.transparent) == outs);
    assert(previous_error(prev@, spent@, key@) is None);
    let mut o: usize = 0;
    while o < tx.outputs.len()
        invariant
            0 <= o <= outs.len(),
            outs == tx.outputs@,
            outs.len() <= u32::MAX,
            find_previous(prev@, key@) == Some(*p),
            outputs_of(p.transparent) == outs,
            previous_error(prev@, spent@, key@) is None,
            forall|q: int|
                0 <= q < o ==> !(!is_unspendable(#[trigger] outs[q]) && !spends_output(
                    spent@,
                    key@,
                    q,
                ) && output_unspent(*p, q)),
        decreases outs.len() - o,
    {
        if !is_unspendable_tx_out(&tx.outputs[o]) && !spends_output_exec(spent, key, o as u32) {
            let unspent = if o < p.output_spenders.len() {
                p.output_spenders[o].is_none()
            } else {
                true
            };
            if unspent {
                proof {
                    assert(!is_unspendable(outs[o as int]) && !spends_output(spent@, key@, o as int)
                        && output_unspent(*p, o as int));
                }
                return Ok(false);
            }
        }
        o = o + 1;
    }
    Ok(true)
}

/// Goes through the previous transactions that the block spends from, each once, and counts each
/// that leaves the set.
fn previous_pass(
    txids: &[[u8; 32]],
    spent: &[(Outpoint, TxLocation)],
    prev: &[PreviousTransaction],
    start: u64,
    applying: bool,
) -> (r: Result<u64, TxOutSetError>)
    ensures
        r == previous_fold(txids@, spent@, prev@, spent@.len(), start, applying),
{
    let mut acc = start;
    let mut k: usize = 0;
    while k < spent.len()
        invariant
            0 <= k <= spent@.len(),
            previous_fold(txids@, spent@, prev@, k as nat, start, applying) == Ok::<
                u64,
                TxOutSetError,
            >(acc),
        decreases spent@.len() - k,
    {
        let key = &spent[k].0.prev_txid;
        let mut seen = in_block_exec(txids, key);
        let mut j: usize = 0;
        while j < k && !seen
            invariant
                0 <= j <= k < spent@.len(),
                *key == spent@[k as int].0.prev_txid,
                seen == (in_block(txids@, key@) || exists|m: int|
                    0 <= m < j && #[trigger] spent@[m].0.prev_txid@ == key@),
            decreases k - j,
        {
            if hash_eq(&spent[j].0.prev_txid, key) {
                seen = true;
            }
            j = j + 1;
        }
        proof {
            if !seen {
                assert(j == k);
            }
        }
        let ghost n = spent@.len();
        if !seen {
            let leaving = match previous_check(prev, spent, key) {
                Ok(b) => b,
                Err(e) => {
                    proof {
                        lemma_previous_fold_err_persists(txids@, spent@, prev@, (k + 1) as nat, n, start, applying);
                    }
                    return Err(e);
                },
            };
            acc = match count_step_exec(acc, leaving, !applying) {
                Ok(v) => v,
                Err(e) => {
                    proof {
                        lemma_previous_fold_err_persists(txids@, spent@, prev@, (k + 1) as nat, n, start, applying);
                    }
                    return Err(e);
                },
            };
        }
        k = k + 1;
    }
    Ok(acc)
}


/// Whether an outpoint created before the block is already recorded as spent.
fn check_not_already_spent(
    txids: &[[u8; 32]],
    spent: &[(Outpoint, TxLocation)],
    spenders: &[Option<TxLocation>],
) -> (r: bool)
    ensures
        r == has_already_spent(txids@, spent@, spenders@),
{
    let mut i: usize = 0;
    while i < spent.len() && i < spenders.len()
        invariant
            0 <= i <= spent@.len(),
            forall|j: int|
                0 <= j < i && j < spenders@.len() ==> !(!in_block(txids@, spent@[j].0.prev_txid@)
                    && (#[trigger] spenders@[j]) is Some),
        decreases spent@.len() - i,
    {
        // Same-block spends are not in the finalised spent index yet.
        if !in_block_exec(txids, &spent[i].0.prev_txid) && spenders[i].is_some() {
            return true;
        }
        i = i + 1;
    }
    false
}

/// The first disagreement between the spent map of the block being deleted and the spent index.
fn check_recorded_spenders(spent: &[(Outpoint, TxLocation)], spenders: &[Option<TxLocation>]) -> (r:
    Option<TxOutSetError>)
    ensures
        r == delete_spender_error(spent@, spenders@, min_len(spent@.len(), spenders@.len())),
{
    let ghost n = min_len(spent@.len(), spenders@.len());
    let mut i: usize = 0;
    while i < spent.len() && i < spenders.len()
        invariant
            0 <= i <= n,
            n == min_len(spent@.len(), spenders@.len()),
            delete_spender_error(spent@, spenders@, i as nat) is None,
        decreases spent@.len() - i,
    {
        let found = match &spenders[i] {
            None => Some(TxOutSetError::SpentIndexMissing),
            Some(l) => if *l != spent[i].1 {
                Some(TxOutSetError::SpentByOtherTransaction)
            } else {
                None
            },
        };
        if found.is_some() {
            proof {
                lemma_delete_spender_error_persists(spent@, spenders@, (i + 1) as nat, n);
            }
            return found;
        }
        i = i + 1;
    }
    None
}

/// Once the spender check over a prefix fails, it fails with the same error.
proof fn lemma_delete_spender_error_persists(
    spent: Seq<(Outpoint, TxLocation)>,
    spenders: Seq<Option<TxLocation>>,
    m: nat,
    n: nat,
)
    requires
        m <= n,
        delete_spender_error(spent, spenders, m) is Some,
    ensures
        delete_spender_error(spent, spenders, n) == delete_spender_error(spent, spenders, m),
    decreases n - m,
{
    if m < n {
        lemma_delete_spender_error_persists(spent, spenders, m, (n - 1) as nat);
    }
}

/// Calculates the finalised txout-set accumulator after applying the block currently being
/// written.
///
/// The block is given by its transaction hashes (`txids`), its transparent data in the same
/// order (`transparent`) and the distinct outpoints it spends with the spending location
/// (`spent_map`). What the finalised state holds before the block is given by the stored
/// accumulator (`stored`, `None` when missing), the tip height, the recorded spender of each
/// spent outpoint (`existing_spenders`, in the order of `spent_map`) and the facts about each
/// earlier transaction the block spends from (`previous_transactions`).
///
/// A missing accumulator is only valid for a completely empty database writing genesis.
pub fn calculate_tx_out_set_info_accumulator_after_block(
    stored: Option<FinalisedTxOutSetInfoAccumulator>,
    tip_height: Option<u32>,
    block_height: u32,
    txids: &[[u8; 32]],
    transparent: &[Option<TransparentCompactTx>],
    spent_map: &[(Outpoint, TxLocation)],
    existing_spenders: &[Option<TxLocation>],
    previous_transactions: &[PreviousTransaction],
) -> (r: Result<FinalisedTxOutSetInfoAccumulator, TxOutSetError>)
    requires
        existing_spenders@.len() == spent_map@.len(),
    ensures
        r == spec_after_block(
            stored,
            tip_height,
            block_height,
            txids@,
            transparent@,
            spent_map@,
            existing_spenders@,
            previous_transactions@,
        ),
{
    // The block-local transaction arrays must stay index-aligned.
    if txids.len() != transparent.len() {
        return Err(TxOutSetError::TxidCountMismatch);
    }
    // Only a fresh empty database writing genesis may start from zero.
    let accumulator = match stored {
        Some(a) => a,
        None => {
            if tip_height.is_none() && block_height == 0 {
                FinalisedTxOutSetInfoAccumulator::empty()
            } else {
                return Err(TxOutSetError::AccumulatorMissing);
            }
        },
    };
    if let Some(e) = check_block_outputs(txids, transparent) {
        return Err(e);
    }
    // A single block must not spend the same outpoint twice.
    if has_duplicate_spend_exec(spent_map) {
        return Err(TxOutSetError::DuplicateSpend);
    }
    let created = match sum_spendable(transparent) {
        Some(c) => c,
        None => return Err(TxOutSetError::CreatedOutputCountOverflow),
    };
    let spent_count = spent_map.len() as u64;
    let transaction_outputs = match accumulator.transaction_outputs.checked_add(created) {
        Some(t) => match t.checked_sub(spent_count) {
            Some(t) => t,
            None => return Err(TxOutSetError::TransactionOutputCountOutOfRange),
        },
        None => return Err(TxOutSetError::TransactionOutputCountOutOfRange),
    };
    // Outpoints from earlier blocks must not already be spent in the finalised state.
    if check_not_already_spent(txids, spent_map, existing_spenders) {
        return Err(TxOutSetError::AlreadySpent);
    }
    // Transactions entering the set, then earlier transactions leaving it.
    let entered = match created_pass(txids, transparent, spent_map, accumulator.transactions, true) {
        Ok(x) => x,
        Err(e) => return Err(e),
    };
    let transactions = match previous_pass(txids, spent_map, previous_transactions, entered, true) {
        Ok(y) => y,
        Err(e) => return Err(e),
    };
    Ok(FinalisedTxOutSetInfoAccumulator { transactions, transaction_outputs })
}

/// Calculates the finalised txout-set accumulator after deleting the tip block: the inverse of
/// [`calculate_tx_out_set_info_accumulator_after_block`].
///
/// The finalised state still holds the block being deleted: `existing_spenders` gives the
/// recorded spender of each outpoint of `spent_map`, which must be this block.
pub fn calculate_tx_out_set_info_accumulator_after_delete_block(
    stored: Option<FinalisedTxOutSetInfoAccumulator>,
    txids: &[[u8; 32]],
    transparent: &[Option<TransparentCompactTx>],
    spent_map: &[(Outpoint, TxLocation)],
    existing_spenders: &[Option<TxLocation>],
    previous_transactions: &[PreviousTransaction],
) -> (r: Result<FinalisedTxOutSetInfoAccumulator, TxOutSetError>)
    requires
        existing_spenders@.len() == spent_map@.len(),
    ensures
        r == spec_after_delete_block(
            stored,
            txids@,
            transparent@,
            spent_map@,
            existing_spenders@,
            previous_transactions@,
        ),
{
    if txids.len() != transparent.len() {
        return Err(TxOutSetError::TxidCountMismatch);
    }
    let accumulator = match stored {
        Some(a) => a,
        None => return Err(TxOutSetError::AccumulatorMissing),
    };
    if let Some(e) = check_block_outputs(txids, transparent) {
        return Err(e);
    }
    if has_duplicate_spend_exec(spent_map) {
        return Err(TxOutSetError::DuplicateSpend);
    }
    let created = match sum_spendable(transparent) {
        Some(c) => c,
        None => return Err(TxOutSetError::CreatedOutputCountOverflow),
    };
    let spent_count = spent_map.len() as u64;
    // The spent outputs return to the set before the block's own outputs leave it, so outputs
    // created and spent inside the block never take the count below zero.
    let transaction_outputs = match accumulator.transaction_outputs.checked_add(spent_count) {
        Some(t) => match t.checked_sub(created) {
            Some(t) => t,
            None => return Err(TxOutSetError::TransactionOutputCountOutOfRange),
        },
        None => return Err(TxOutSetError::TransactionOutputCountOutOfRange),
    };
    // Every outpoint spent by this block must be recorded as spent by this block.
    if let Some(e) = check_recorded_spenders(spent_map, existing_spenders) {
        return Err(e);
    }
    let left = match created_pass(txids, transparent, spent_map, accumulator.transactions, false) {
        Ok(x) => x,
        Err(e) => return Err(e),
    };
    let transactions = match previous_pass(txids, spent_map, previous_transactions, left, false) {
        Ok(y) => y,
        Err(e) => return Err(e),
    };
    Ok(FinalisedTxOutSetInfoAccumulator { transactions, transaction_outputs })
}



// ---------------------------------------------------------------------------------------------
// Resolving spent outpoints
// ---------------------------------------------------------------------------------------------

/// Why a spent outpoint cannot be resolved to its previous output.
#[derive(Debug, PartialEq, Eq, Structural)]
pub enum ResolveError {
    /// A same-block spend names a transaction without transparent data.
    SameBlockMissingTransparentData,
    /// A same-block spend names an output index the transaction does not have.
    SameBlockOutputIndexOutOfRange,
    /// The previous output of an earlier block could not be found.
    Previous(PreviousOutputError),
}

/// The last block position whose hash is `key`, among the first `n`.
pub open spec fn last_block_index(txids: Seq<[u8; 32]>, key: Seq<u8>, n: nat) -> Option<int>
    decreases n,
{
    if n == 0 {
        None
    } else if txids[n - 1]@ == key {
        Some(n - 1)
    } else {
        last_block_index(txids, key, (n - 1) as nat)
    }
}

/// The previous output spent by `op`: from the block itself when the block creates the spent
/// transaction, otherwise the output found in the finalised state (`prior`).
pub open spec fn resolve_one(
    txids: Seq<[u8; 32]>,
    transparent: Seq<Option<TransparentCompactTx>>,
    op: Outpoint,
    prior: Result<TxOutCompact, PreviousOutputError>,
) -> Result<TxOutCompact, ResolveError> {
    match last_block_index(txids, op.prev_txid@, txids.len()) {
        Some(b) => match transparent[b] {
            None => Err(ResolveError::SameBlockMissingTransparentData),
            Some(tx) => if op.prev_index < tx.outputs@.len() {
                Ok(tx.outputs@[op.prev_index as int])
            } else {
                Err(ResolveError::SameBlockOutputIndexOutOfRange)
            },
        },
        None => match prior {
            Ok(o) => Ok(o),
            Err(e) => Err(ResolveError::Previous(e)),
        },
    }
}

/// The last block position whose hash is `key`.
fn last_block_index_exec(txids: &[[u8; 32]], key: &[u8; 32]) -> (r: Option<usize>)
    ensures
        match r {
            Some(b) => b < txids@.len() && last_block_index(txids@, key@, txids@.len()) == Some(
                b as int,
            ),
            None => last_block_index(txids@, key@, txids@.len()) is None,
        },
{
    let mut n = txids.len();
    while n > 0
        invariant
            0 <= n <= txids@.len(),
            last_block_index(txids@, key@, txids@.len()) == last_block_index(txids@, key@, n as nat),
        decreases n,
    {
        if hash_eq(&txids[n - 1], key) {
            return Some(n - 1);
        }
        n = n - 1;
    }
    None
}

/// The previous outputs of the first `n` spent outpoints, in spent-map order, or the first
/// outpoint's error.
pub open spec fn spec_resolved(
    txids: Seq<[u8; 32]>,
    transparent: Seq<Option<TransparentCompactTx>>,
    spent: Seq<(Outpoint, TxLocation)>,
    prior: Seq<Result<TxOutCompact, PreviousOutputError>>,
    n: nat,
) -> Result<Seq<(Outpoint, TxOutCompact)>, ResolveError>
    decreases n,
{
    if n == 0 {
        Ok(Seq::empty())
    } else {
        match spec_resolved(txids, transparent, spent, prior, (n - 1) as nat) {
            Err(e) => Err(e),
            Ok(acc) => match resolve_one(txids, transparent, spent[n - 1].0, prior[n - 1]) {
                Err(e) => Err(e),
                Ok(o) => Ok(acc.push((spent[n - 1].0, o))),
            },
        }
    }
}

proof fn lemma_resolved_err_persists(
    txids: Seq<[u8; 32]>,
    transparent: Seq<Option<TransparentCompactTx>>,
    spent: Seq<(Outpoint, TxLocation)>,
    prior: Seq<Result<TxOutCompact, PreviousOutputError>>,
    m: nat,
    n: nat,
)
    requires
        m <= n,
        spec_resolved(txids, transparent, spent, prior, m) is Err,
    ensures
        spec_resolved(txids, transparent, spent, prior, n) == spec_resolved(
            txids,
            transparent,
            spent,
            prior,
            m,
        ),
    decreases n - m,
{
    if m < n {
        lemma_resolved_err_persists(txids, transparent, spent, prior, m, (n - 1) as nat);
    }
}

/// Resolves each spent outpoint to its previous output, in spent-map order.
///
/// Same-block spends are resolved from the block's own transparent data; spends of earlier
/// outputs take the output found in the finalised state for that entry (`prior_outputs`, in
/// spent-map order). The first entry that cannot be resolved fails the whole list.
pub fn resolve_spent_outpoints_for_set_info(
    spent_map: &[(Outpoint, TxLocation)],
    txids: &[[u8; 32]],
    transparent: &[Option<TransparentCompactTx>],
    prior_outputs: &[Result<TxOutCompact, PreviousOutputError>],
) -> (r: Result<Vec<(Outpoint, TxOutCompact)>, ResolveError>)
    requires
        txids@.len() == transparent@.len(),
        prior_outputs@.len() == spent_map@.len(),
    ensures
        match r {
            Ok(v) => spec_resolved(txids@, transparent@, spent_map@, prior_outputs@, spent_map@.len())
                == Ok::<Seq<(Outpoint, TxOutCompact)>, ResolveError>(v@),
            Err(e) => spec_resolved(
                txids@,
                transparent@,
                spent_map@,
                prior_outputs@,
                spent_map@.len(),
            ) == Err::<Seq<(Outpoint, TxOutCompact)>, ResolveError>(e),
        },
{
    let mut resolved: Vec<(Outpoint, TxOutCompact)> = Vec::new();
    let mut i: usize = 0;
    while i < spent_map.len()
        invariant
            0 <= i <= spent_map@.len(),
            txids@.len() == transparent@.len(),
            prior_outputs@.len() == spent_map@.len(),
            spec_resolved(txids@, transparent@, spent_map@, prior_outputs@, i as nat) == Ok::<
                Seq<(Outpoint, TxOutCompact)>,
                ResolveError,
            >(resolved@),
        decreases spent_map@.len() - i,
    {
        let outpoint = spent_map[i].0;
        let prev_out = match last_block_index_exec(txids, &outpoint.prev_txid) {
            Some(block_tx_index) => match &transparent[block_tx_index] {
                None => Err(ResolveError::SameBlockMissingTransparentData),
                Some(tx) => if (outpoint.prev_index as usize) < tx.outputs.len() {
                    Ok(tx.outputs[outpoint.prev_index as usize])
                } else {
                    Err(ResolveError::SameBlockOutputIndexOutOfRange)
                },
            },
            None => match &prior_outputs[i] {
                Ok(o) => Ok(*o),
                Err(e) => Err(ResolveError::Previous(*e)),
            },
        };
        assert(prev_out == resolve_one(txids@, transparent@, spent_map@[i as int].0, prior_outputs@[i as int]));
        match prev_out {
            Ok(o) => resolved.push((outpoint, o)),
            Err(e) => {
                proof {
                    lemma_resolved_err_persists(
                        txids@,
                        transparent@,
                        spent_map@,
                        prior_outputs@,
                        (i + 1) as nat,
                        spent_map@.len(),
                    );
                }
                return Err(e);
            },
        }
        i = i + 1;
    }
    Ok(resolved)
}

// ---------------------------------------------------------------------------------------------
// Laws
// ---------------------------------------------------------------------------------------------

/// A successful pass over the block's transactions while applying the block adds exactly the
/// number of entering transactions, and no transaction is inconsistent.
proof fn lemma_created_fold_applying(
    txids: Seq<[u8; 32]>,
    transparent: Seq<Option<TransparentCompactTx>>,
    spent: Seq<(Outpoint, TxLocation)>,
    n: nat,
    start: u64,
)
    requires
        created_fold(txids, transparent, spent, n, start, true) is Ok,
    ensures
        created_fold(txids, transparent, spent, n, start, true)->Ok_0 == start + enter_count(
            txids,
            transparent,
            spent,
            n,
        ),
        no_created_error(txids, transparent, spent, n),
    decreases n,
{
    if n > 0 {
        lemma_created_fold_applying(txids, transparent, spent, (n - 1) as nat, start);
    }
}

/// Without inconsistent transactions, the pass while deleting the block removes exactly the
/// number of entering transactions, when the count allows it.
proof fn lemma_created_fold_deleting(
    txids: Seq<[u8; 32]>,
    transparent: Seq<Option<TransparentCompactTx>>,
    spent: Seq<(Outpoint, TxLocation)>,
    n: nat,
    start: u64,
)
    requires
        no_created_error(txids, transparent, spent, n),
        start >= enter_count(txids, transparent, spent, n),
    ensures
        created_fold(txids, transparent, spent, n, start, false) == Ok::<u64, TxOutSetError>(
            (start - enter_count(txids, transparent, spent, n)) as u64,
        ),
    decreases n,
{
    if n > 0 {
        assert(created_error(txids, transparent, spent, n - 1) is None);
        lemma_created_fold_deleting(txids, transparent, spent, (n - 1) as nat, start);
    }
}

/// A successful pass over the previous transactions while applying the block removes exactly
/// the number of leaving transactions, and the facts are consistent.
proof fn lemma_previous_fold_applying(
    txids: Seq<[u8; 32]>,
    spent: Seq<(Outpoint, TxLocation)>,
    prev: Seq<PreviousTransaction>,
    n: nat,
    start: u64,
)
    requires
        previous_fold(txids, spent, prev, n, start, true) is Ok,
    ensures
        previous_fold(txids, spent, prev, n, start, true)->Ok_0 + leave_count(txids, spent, prev, n)
            == start,
        no_previous_error(txids, spent, prev, n),
    decreases n,
{
    if n > 0 {
        lemma_previous_fold_applying(txids, spent, prev, (n - 1) as nat, start);
    }
}

/// With consistent facts, the pass while deleting the block adds exactly the number of leaving
/// transactions, when the count allows it.
proof fn lemma_previous_fold_deleting(
    txids: Seq<[u8; 32]>,
    spent: Seq<(Outpoint, TxLocation)>,
    prev: Seq<PreviousTransaction>,
    n: nat,
    start: u64,
)
    requires
        no_previous_error(txids, spent, prev, n),
        start + leave_count(txids, spent, prev, n) <= u64::MAX,
    ensures
        previous_fold(txids, spent, prev, n, start, false) == Ok::<u64, TxOutSetError>(
            (start + leave_count(txids, spent, prev, n)) as u64,
        ),
    decreases n,
{
    if n > 0 {
        if is_first_previous(txids, spent, n - 1) {
            assert(previous_error(prev, spent, spent[n - 1].0.prev_txid@) is None);
        }
        lemma_previous_fold_deleting(txids, spent, prev, (n - 1) as nat, start);
    }
}

/// When the spent index names the block's own location for each of its outpoints, the spender
/// check of the deletion passes.
proof fn lemma_recorded_spenders_agree(
    spent: Seq<(Outpoint, TxLocation)>,
    spenders: Seq<Option<TxLocation>>,
    n: nat,
)
    requires
        n <= spent.len(),
        n <= spenders.len(),
        forall|i: int| 0 <= i < n ==> #[trigger] spenders[i] == Some(spent[i].1),
    ensures
        delete_spender_error(spent, spenders, n) is None,
    decreases n,
{
    if n > 0 {
        lemma_recorded_spenders_agree(spent, spenders, (n - 1) as nat);
        assert(spenders[n - 1] == Some(spent[n - 1].1));
    }
}

/// Deleting a block undoes writing it.
///
/// When writing a block moves the accumulator from the one it starts at to `r`, then deleting
/// the same block from a state that records it (the spent index names the block's own location
/// as the spender of each outpoint it spends, and the earlier transactions it spends from are
/// described by the same facts) moves `r` back to the starting accumulator. This holds whenever
/// the starting transaction count is at least the number of earlier transactions that leave the
/// set, as it is in any state that counted those transactions when they entered.
pub proof fn lemma_delete_block_undoes_block(
    stored: Option<FinalisedTxOutSetInfoAccumulator>,
    tip_height: Option<u32>,
    block_height: u32,
    txids: Seq<[u8; 32]>,
    transparent: Seq<Option<TransparentCompactTx>>,
    spent: Seq<(Outpoint, TxLocation)>,
    spenders_before: Seq<Option<TxLocation>>,
    spenders_after: Seq<Option<TxLocation>>,
    prev: Seq<PreviousTransaction>,
)
    requires
        spec_after_block(
            stored,
            tip_height,
            block_height,
            txids,
            transparent,
            spent,
            spenders_before,
            prev,
        ) is Ok,
        spenders_after.len() == spent.len(),
        forall|i: int| 0 <= i < spent.len() ==> #[trigger] spenders_after[i] == Some(spent[i].1),
        starting_accumulator(stored, tip_height, block_height)->Ok_0.transactions >= leave_count(
            txids,
            spent,
            prev,
            spent.len(),
        ),
    ensures
        spec_after_delete_block(
            Some(
                spec_after_block(
                    stored,
                    tip_height,
                    block_height,
                    txids,
                    transparent,
                    spent,
                    spenders_before,
                    prev,
                )->Ok_0,
            ),
            txids,
            transparent,
            spent,
            spenders_after,
            prev,
        ) == starting_accumulator(stored, tip_height, block_height),
{
    let a = starting_accumulator(stored, tip_height, block_height)->Ok_0;
    let r = spec_after_block(
        stored,
        tip_height,
        block_height,
        txids,
        transparent,
        spent,
        spenders_before,
        prev,
    )->Ok_0;
    let n = txids.len();
    let m = spent.len();
    let created = total_spendable(transparent, transparent.len());
    let x = created_fold(txids, transparent, spent, n, a.transactions, true)->Ok_0;
    lemma_created_fold_applying(txids, transparent, spent, n, a.transactions);
    lemma_previous_fold_applying(txids, spent, prev, m, x);
    let e = enter_count(txids, transparent, spent, n);
    let l = leave_count(txids, spent, prev, m);
    assert(r.transactions + l == a.transactions + e);
    lemma_recorded_spenders_agree(spent, spenders_after, m);
    assert(min_len(spent.len(), spenders_after.len()) == m);
    lemma_created_fold_deleting(txids, transparent, spent, n, r.transactions);
    let x2 = (r.transactions - e) as u64;
    lemma_previous_fold_deleting(txids, spent, prev, m, x2);
}


// ---------------------------------------------------------------------------------------------
// Outputs that can never be spent
// ---------------------------------------------------------------------------------------------

/// `prev2` differs from `prev` only in record `j`, which keeps its hash and location and gains
/// one more output, `x`, after the outputs it had; the outputs it had keep their spent state.
pub open spec fn with_extra_previous_output(
    prev: Seq<PreviousTransaction>,
    prev2: Seq<PreviousTransaction>,
    j: int,
    x: TxOutCompact,
) -> bool {
    &&& 0 <= j < prev.len()
    &&& prev2.len() == prev.len()
    &&& forall|i: int| 0 <= i < prev.len() && i != j ==> #[trigger] prev2[i] == prev[i]
    &&& prev2[j].txid == prev[j].txid
    &&& prev2[j].location == prev[j].location
    &&& prev[j].transparent is Some
    &&& prev2[j].transparent is Some
    &&& outputs_of(prev2[j].transparent) == outputs_of(prev[j].transparent).push(x)
    &&& forall|o: int|
        0 <= o < outputs_of(prev[j].transparent).len() ==> #[trigger] output_unspent(prev2[j], o)
            == output_unspent(prev[j], o)
}

proof fn lemma_find_previous_update(
    prev: Seq<PreviousTransaction>,
    prev2: Seq<PreviousTransaction>,
    j: int,
    key: Seq<u8>,
)
    requires
        0 <= j < prev.len(),
        prev2.len() == prev.len(),
        forall|i: int| 0 <= i < prev.len() && i != j ==> #[trigger] prev2[i] == prev[i],
        prev2[j].txid == prev[j].txid,
    ensures
        find_previous(prev2, key) == find_previous(prev, key) || (find_previous(prev, key)
            == Some(prev[j]) && find_previous(prev2, key) == Some(prev2[j]) && prev[j].txid@ == key),
    decreases prev.len(),
{
    if j == 0 {
        if prev[0].txid@ != key {
            assert(prev2.drop_first() =~= prev.drop_first()) by {
                assert forall|i: int| 0 <= i < prev.len() - 1 implies prev2.drop_first()[i]
                    == prev.drop_first()[i] by {
                    assert(prev2[i + 1] == prev[i + 1]);
                }
            }
        }
    } else {
        assert(prev2[0] == prev[0]);
        if prev[0].txid@ != key {
            assert forall|i: int|
                0 <= i < prev.drop_first().len() && i != j - 1 implies #[trigger] prev2.drop_first()[i]
                == prev.drop_first()[i] by {
                assert(prev2[i + 1] == prev[i + 1]);
            }
            lemma_find_previous_update(prev.drop_first(), prev2.drop_first(), j - 1, key);
        }
    }
}

/// Under the extra output, every previous transaction has the same faults and leaves the set
/// in the same cases.
proof fn lemma_previous_facts_unchanged(
    prev: Seq<PreviousTransaction>,
    prev2: Seq<PreviousTransaction>,
    spent: Seq<(Outpoint, TxLocation)>,
    j: int,
    x: TxOutCompact,
    key: Seq<u8>,
)
    requires
        with_extra_previous_output(prev, prev2, j, x),
        is_unspendable(x),
        outputs_of(prev[j].transparent).len() < u32::MAX,
        !spends_index_at_least(spent, prev[j].txid@, outputs_of(prev[j].transparent).len()),
    ensures
        previous_error(prev2, spent, key) == previous_error(prev, spent, key),
        leaves(prev2, spent, key) == leaves(prev, spent, key),
{
    lemma_find_previous_update(prev, prev2, j, key);
    if find_previous(prev2, key) != find_previous(prev, key) {
        let p = prev[j];
        let p2 = prev2[j];
        let outs = outputs_of(p.transparent);
        let outs2 = outputs_of(p2.transparent);
        let len = outs.len();
        assert(outs2.len() == len + 1);
        assert(!spends_index_at_least(spent, key, len + 1));
        if leaves(prev, spent, key) {
            assert forall|o: int| 0 <= o < outs2.len() implies !(!is_unspendable(#[trigger] outs2[o])
                && !spends_output(spent, key, o) && output_unspent(p2, o)) by {
                if o < len {
                    assert(outs2[o] == outs[o]);
                    assert(output_unspent(p2, o) == output_unspent(p, o));
                } else {
                    assert(outs2[o] == x);
                }
            }
        } else {
            let o = choose|o: int|
                0 <= o < outs.len() && !is_unspendable(#[trigger] outs[o]) && !spends_output(
                    spent,
                    key,
                    o,
                ) && output_unspent(p, o);
            assert(outs2[o] == outs[o]);
            assert(output_unspent(p2, o) == output_unspent(p, o));
        }
    }
}

proof fn lemma_previous_fold_unchanged(
    txids: Seq<[u8; 32]>,
    spent: Seq<(Outpoint, TxLocation)>,
    prev: Seq<PreviousTransaction>,
    prev2: Seq<PreviousTransaction>,
    j: int,
    x: TxOutCompact,
    n: nat,
    start: u64,
    applying: bool,
)
    requires
        with_extra_previous_output(prev, prev2, j, x),
        is_unspendable(x),
        outputs_of(prev[j].transparent).len() < u32::MAX,
        !spends_index_at_least(spent, prev[j].txid@, outputs_of(prev[j].transparent).len()),
    ensures
        previous_fold(txids, spent, prev2, n, start, applying) == previous_fold(
            txids,
            spent,
            prev,
            n,
            start,
            applying,
        ),
    decreases n,
{
    if n > 0 {
        lemma_previous_fold_unchanged(txids, spent, prev, prev2, j, x, (n - 1) as nat, start, applying);
        lemma_previous_facts_unchanged(prev, prev2, spent, j, x, spent[n - 1].0.prev_txid@);
    }
}

/// An output that can never be spent does not keep an earlier transaction in the set.
///
/// Giving one earlier transaction that the block spends from one more output, an output that
/// can never be spent (whatever its recorded spent state), never changes the accumulator after
/// writing the block, nor after deleting it: a transaction leaves the set exactly when none of
/// its spendable outputs stays unspent. The added output must not be one the block spends, and
/// its index must still fit into `u32`.
pub proof fn lemma_unspendable_previous_output_irrelevant(
    stored: Option<FinalisedTxOutSetInfoAccumulator>,
    tip_height: Option<u32>,
    block_height: u32,
    txids: Seq<[u8; 32]>,
    transparent: Seq<Option<TransparentCompactTx>>,
    spent: Seq<(Outpoint, TxLocation)>,
    spenders: Seq<Option<TxLocation>>,
    prev: Seq<PreviousTransaction>,
    prev2: Seq<PreviousTransaction>,
    j: int,
    x: TxOutCompact,
)
    requires
        with_extra_previous_output(prev, prev2, j, x),
        is_unspendable(x),
        outputs_of(prev[j].transparent).len() < u32::MAX,
        !spends_index_at_least(spent, prev[j].txid@, outputs_of(prev[j].transparent).len()),
    ensures
        spec_after_block(stored, tip_height, block_height, txids, transparent, spent, spenders, prev2)
            == spec_after_block(
            stored,
            tip_height,
            block_height,
            txids,
            transparent,
            spent,
            spenders,
            prev,
        ),
        spec_after_delete_block(stored, txids, transparent, spent, spenders, prev2)
            == spec_after_delete_block(stored, txids, transparent, spent, spenders, prev),
{
    match starting_accumulator(stored, tip_height, block_height) {
        Ok(a) => match created_fold(txids, transparent, spent, txids.len(), a.transactions, true) {
            Ok(y) => {
                lemma_previous_fold_unchanged(txids, spent, prev, prev2, j, x, spent.len(), y, true);
            },
            Err(_) => {},
        },
        Err(_) => {},
    }
    match stored {
        Some(a) => match created_fold(txids, transparent, spent, txids.len(), a.transactions, false) {
            Ok(y) => {
                lemma_previous_fold_unchanged(txids, spent, prev, prev2, j, x, spent.len(), y, false);
            },
            Err(_) => {},
        },
        None => {},
    }
}

/// `transparent2` differs from `transparent` only at block transaction `i`, which had no
/// transparent data and now has outputs that can never be spent, at most `u32::MAX` of them.
pub open spec fn with_unspendable_only_transaction(
    transparent: Seq<Option<TransparentCompactTx>>,
    transparent2: Seq<Option<TransparentCompactTx>>,
    i: int,
) -> bool {
    &&& 0 <= i < transparent.len()
    &&& transparent2.len() == transparent.len()
    &&& forall|k: int| 0 <= k < transparent.len() && k != i ==> #[trigger] transparent2[k] == transparent[k]
    &&& transparent[i] is None
    &&& transparent2[i] is Some
    &&& outputs_of(transparent2[i]).len() <= u32::MAX
    &&& forall|o: int|
        0 <= o < outputs_of(transparent2[i]).len() ==> is_unspendable(
            #[trigger] outputs_of(transparent2[i])[o],
        )
}

proof fn lemma_count_spendable_none(s: Seq<TxOutCompact>)
    requires
        forall|o: int| 0 <= o < s.len() ==> is_unspendable(#[trigger] s[o]),
    ensures
        count_spendable(s) == 0,
    decreases s.len(),
{
    if s.len() > 0 {
        assert(is_unspendable(s[s.len() - 1]));
        lemma_count_spendable_none(s.drop_last());
    }
}

proof fn lemma_spent_count_none(spent: Seq<(Outpoint, TxLocation)>, key: Seq<u8>)
    requires
        forall|k: int| 0 <= k < spent.len() ==> (#[trigger] spent[k]).0.prev_txid@ != key,
    ensures
        spent_count_for(spent, key) == 0,
    decreases spent.len(),
{
    if spent.len() > 0 {
        assert(spent[spent.len() - 1] == spent.last());
        lemma_spent_count_none(spent.drop_last(), key);
    }
}

/// Per block transaction, the unspendable-only data counts like absent data.
proof fn lemma_unspendable_only_same_facts(
    txids: Seq<[u8; 32]>,
    transparent: Seq<Option<TransparentCompactTx>>,
    transparent2: Seq<Option<TransparentCompactTx>>,
    spent: Seq<(Outpoint, TxLocation)>,
    i: int,
    k: int,
)
    requires
        with_unspendable_only_transaction(transparent, transparent2, i),
        i < txids.len(),
        forall|m: int| 0 <= m < spent.len() ==> (#[trigger] spent[m]).0.prev_txid@ != txids[i]@,
        0 <= k < transparent.len(),
    ensures
        count_spendable(outputs_of(transparent2[k])) == count_spendable(outputs_of(transparent[k])),
        (outputs_of(transparent2[k]).len() > u32::MAX) == (outputs_of(transparent[k]).len() > u32::MAX),
        created_error(txids, transparent2, spent, k) == created_error(txids, transparent, spent, k),
        enters(txids, transparent2, spent, k) == enters(txids, transparent, spent, k),
{
    if k == i {
        lemma_count_spendable_none(outputs_of(transparent2[i]));
        assert(outputs_of(transparent[i]) =~= Seq::<TxOutCompact>::empty());
        assert(!spends_index_at_least(spent, txids[i]@, outputs_of(transparent2[i]).len()));
        assert(!spends_index_at_least(spent, txids[i]@, 0));
    } else {
        assert(transparent2[k] == transparent[k]);
    }
}

proof fn lemma_unspendable_only_folds(
    txids: Seq<[u8; 32]>,
    transparent: Seq<Option<TransparentCompactTx>>,
    transparent2: Seq<Option<TransparentCompactTx>>,
    spent: Seq<(Outpoint, TxLocation)>,
    i: int,
    n: nat,
    start: u64,
    applying: bool,
)
    requires
        with_unspendable_only_transaction(transparent, transparent2, i),
        i < txids.len(),
        forall|m: int| 0 <= m < spent.len() ==> (#[trigger] spent[m]).0.prev_txid@ != txids[i]@,
        n <= transparent.len(),
    ensures
        total_spendable(transparent2, n) == total_spendable(transparent, n),
        block_outputs_error(txids, transparent2, n) == block_outputs_error(txids, transparent, n),
        created_fold(txids, transparent2, spent, n, start, applying) == created_fold(
            txids,
            transparent,
            spent,
            n,
            start,
            applying,
        ),
    decreases n,
{
    if n > 0 {
        lemma_unspendable_only_folds(txids, transparent, transparent2, spent, i, (n - 1) as nat, start, applying);
        lemma_unspendable_only_same_facts(txids, transparent, transparent2, spent, i, n - 1);
    }
}

/// A transaction whose transparent outputs can all never be spent does not change the
/// transaction count.
///
/// Giving a block transaction that had no transparent data outputs that can never be spent
/// (and that the block does not spend from) changes neither the accumulator after writing the
/// block nor the accumulator after deleting it: a block transaction is counted exactly when it
/// keeps a spendable output after the block's own spends.
pub proof fn lemma_unspendable_only_transaction_not_counted(
    stored: Option<FinalisedTxOutSetInfoAccumulator>,
    tip_height: Option<u32>,
    block_height: u32,
    txids: Seq<[u8; 32]>,
    transparent: Seq<Option<TransparentCompactTx>>,
    transparent2: Seq<Option<TransparentCompactTx>>,
    spent: Seq<(Outpoint, TxLocation)>,
    spenders: Seq<Option<TxLocation>>,
    prev: Seq<PreviousTransaction>,
    i: int,
)
    requires
        txids.len() == transparent.len(),
        with_unspendable_only_transaction(transparent, transparent2, i),
        forall|m: int| 0 <= m < spent.len() ==> (#[trigger] spent[m]).0.prev_txid@ != txids[i]@,
    ensures
        spec_after_block(stored, tip_height, block_height, txids, transparent2, spent, spenders, prev)
            == spec_after_block(
            stored,
            tip_height,
            block_height,
            txids,
            transparent,
            spent,
            spenders,
            prev,
        ),
        spec_after_delete_block(stored, txids, transparent2, spent, spenders, prev)
            == spec_after_delete_block(stored, txids, transparent, spent, spenders, prev),
{
    let n = txids.len();
    match starting_accumulator(stored, tip_height, block_height) {
        Ok(a) => {
            lemma_unspendable_only_folds(txids, transparent, transparent2, spent, i, n, a.transactions, true);
        },
        Err(_) => {
            lemma_unspendable_only_folds(txids, transparent, transparent2, spent, i, n, 0, true);
        },
    }
    match stored {
        Some(a) => {
            lemma_unspendable_only_folds(txids, transparent, transparent2, spent, i, n, a.transactions, false);
        },
        None => {},
    }
}
} // verus!
