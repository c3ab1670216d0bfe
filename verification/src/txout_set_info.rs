//! The full finalised txout-set information across a block: the accumulator counts together
//! with the multiset commitment of the unspent entries (hash, total value, serialized size).
//!
//! Each entry's digest is computed from its outpoint and output outside this module; the
//! functions here take the digests of the created entries and of the spent entries in the
//! order in which the entries are listed.
use vstd::prelude::*;

use crate::commitment::{
    commitment_after_block, commitment_after_delete_block, empty_commitment,
    empty_tx_out_set_commitment, lemma_commitment_delete_undoes_block,
    tx_out_set_commitment_after_block, tx_out_set_commitment_after_delete_block, CommitmentError,
    CommitmentView, TxOutSetCommitment, TxOutSetEntry,
};
use crate::metadata::FinalisedTxOutSetInfoAccumulator;
use crate::tx_list::PreviousOutputError;
use crate::txout_set::{
    calculate_tx_out_set_info_accumulator_after_block,
    calculate_tx_out_set_info_accumulator_after_delete_block, lemma_delete_block_undoes_block,
    leave_count, resolve_spent_outpoints_for_set_info, spec_after_block, spec_after_delete_block,
    spec_resolved, starting_accumulator, PreviousTransaction, ResolveError, TxOutSetError,
};
use crate::types::{
    is_unspendable, is_unspendable_tx_out, Outpoint, TransparentCompactTx, TxLocation,
    TxOutCompact,
};

verus! {

/// The finalised txout-set information: the counts and the commitment.
#[derive(Clone, Copy, Debug)]
pub struct TxOutSetInfo {
    pub accumulator: FinalisedTxOutSetInfoAccumulator,
    pub commitment: TxOutSetCommitment,
}

/// Why the txout-set information cannot be moved across a block.
#[derive(Debug)]
pub enum TxOutSetInfoError {
    /// The counts cannot be moved across the block.
    Counts(TxOutSetError),
    /// A spent outpoint cannot be resolved to its previous output.
    Resolve(ResolveError),
    /// The commitment's value or size total leaves the `u64` range.
    Commitment(CommitmentError),
}

/// The spendable outputs among the first `m` outputs of the transaction `txid`, with their
/// outpoints.
pub open spec fn tx_created(txid: [u8; 32], outs: Seq<TxOutCompact>, m: nat) -> Seq<
    (Outpoint, TxOutCompact),
>
    decreases m,
{
    if m == 0 {
        Seq::empty()
    } else if is_unspendable(outs[m - 1]) {
        tx_created(txid, outs, (m - 1) as nat)
    } else {
        tx_created(txid, outs, (m - 1) as nat).push(
            (Outpoint { prev_txid: txid, prev_index: (m - 1) as u32 }, outs[m - 1]),
        )
    }
}

/// The entries created by the first `n` transactions of a block, in block order.
pub open spec fn spec_created_entries(
    txids: Seq<[u8; 32]>,
    transparent: Seq<Option<TransparentCompactTx>>,
    n: nat,
) -> Seq<(Outpoint, TxOutCompact)>
    decreases n,
{
    if n == 0 {
        Seq::empty()
    } else {
        spec_created_entries(txids, transparent, (n - 1) as nat) + match transparent[n - 1] {
            None => Seq::empty(),
            Some(t) => tx_created(txids[n - 1], t.outputs@, t.outputs@.len()),
        }
    }
}

/// The spendable outputs a block creates, with their outpoints, in block order; outputs that
/// can never be spent are left out.
pub fn created_entries(txids: &[[u8; 32]], transparent: &[Option<TransparentCompactTx>]) -> (r:
    Vec<(Outpoint, TxOutCompact)>)
    requires
        txids@.len() == transparent@.len(),
    ensures
        r@ == spec_created_entries(txids@, transparent@, transparent@.len()),
{
    let mut out: Vec<(Outpoint, TxOutCompact)> = Vec::new();
    let mut i: usize = 0;
    while i < transparent.len()
        invariant
            0 <= i <= transparent@.len(),
            txids@.len() == transparent@.len(),
            out@ == spec_created_entries(txids@, transparent@, i as nat),
        decreases transparent@.len() - i,
    {
        let ghost before = out@;
        match &transparent[i] {
            None => {
                assert(spec_created_entries(txids@, transparent@, (i + 1) as nat) =~= before);
            },
            Some(t) => {
                let txid = txids[i];
                let mut j: usize = 0;
                while j < t.outputs.len()
                    invariant
                        0 <= j <= t.outputs@.len(),
                        out@ == before + tx_created(txid, t.outputs@, j as nat),
                    decreases t.outputs@.len() - j,
                {
                    let o = t.outputs[j];
                    if !is_unspendable_tx_out(&o) {
                        let ghost prev = out@;
                        out.push((Outpoint { prev_txid: txid, prev_index: j as u32 }, o));
                        assert(out@ =~= before + tx_created(txid, t.outputs@, (j + 1) as nat));
                    }
                    j = j + 1;
                }
            },
        }
        i = i + 1;
    }
    out
}

/// Every entry of `tx_created` names transaction `txid` and the position of its output, in
/// increasing order of position, and is a spendable output.
proof fn lemma_tx_created_shape(txid: [u8; 32], outs: Seq<TxOutCompact>, m: nat)
    requires
        m <= outs.len(),
        outs.len() <= u32::MAX + 1,
    ensures
        forall|k: int|
            0 <= k < tx_created(txid, outs, m).len() ==> {
                let e = #[trigger] tx_created(txid, outs, m)[k];
                &&& e.0.prev_txid == txid
                &&& e.0.prev_index < m
                &&& e.1 == outs[e.0.prev_index as int]
                &&& !is_unspendable(e.1)
            },
        forall|k: int, l: int|
            0 <= k < l < tx_created(txid, outs, m).len() ==> (#[trigger] tx_created(txid, outs, m)[k]).0.prev_index
                < (#[trigger] tx_created(txid, outs, m)[l]).0.prev_index,
        forall|j: int|
            0 <= j < m && !is_unspendable(#[trigger] outs[j]) ==> tx_created(txid, outs, m).contains(
                (Outpoint { prev_txid: txid, prev_index: j as u32 }, outs[j]),
            ),
    decreases m,
{
    if m > 0 {
        lemma_tx_created_shape(txid, outs, (m - 1) as nat);
        let prev = tx_created(txid, outs, (m - 1) as nat);
        let cur = tx_created(txid, outs, m);
        if !is_unspendable(outs[m - 1]) {
            let e = (Outpoint { prev_txid: txid, prev_index: (m - 1) as u32 }, outs[m - 1]);
            assert(cur == prev.push(e));
            assert forall|j: int|
                0 <= j < m && !is_unspendable(#[trigger] outs[j]) implies cur.contains(
                (Outpoint { prev_txid: txid, prev_index: j as u32 }, outs[j]),
            ) by {
                if j < m - 1 {
                    let w = choose|k: int| 0 <= k < prev.len() && prev[k] == (Outpoint { prev_txid: txid, prev_index: j as u32 }, outs[j]);
                    assert(cur[w] == prev[w]);
                } else {
                    assert(cur[prev.len() as int] == e);
                }
            }
        } else {
            assert(cur == prev);
        }
    }
}

/// Every created entry names the block transaction that created it and the position of the
/// output among that transaction's outputs, and is a spendable output of it.
///
/// Entry `k` of the created entries of the first `n` transactions is the output at
/// `prev_index` of some transaction `i < n` whose hash is `prev_txid`; that output can be spent.
/// Conversely, every spendable output of those transactions appears with its own outpoint.
pub proof fn lemma_created_entries_name_their_outputs(
    txids: Seq<[u8; 32]>,
    transparent: Seq<Option<TransparentCompactTx>>,
    n: nat,
)
    requires
        n <= txids.len(),
        n <= transparent.len(),
        forall|i: int| 0 <= i < n ==> outputs_len(#[trigger] transparent[i]) <= u32::MAX + 1,
    ensures
        forall|k: int|
            0 <= k < spec_created_entries(txids, transparent, n).len() ==> created_in_block(
                txids,
                transparent,
                n,
                #[trigger] spec_created_entries(txids, transparent, n)[k],
            ),
        forall|i: int, j: int|
            0 <= i < n && transparent[i] is Some && 0 <= j < transparent[i]->0.outputs@.len()
                && !is_unspendable(#[trigger] transparent[i]->0.outputs@[j])
                ==> spec_created_entries(txids, transparent, n).contains(
                (Outpoint { prev_txid: txids[i], prev_index: j as u32 }, transparent[i]->0.outputs@[j]),
            ),
    decreases n,
{
    if n > 0 {
        lemma_created_entries_name_their_outputs(txids, transparent, (n - 1) as nat);
        let prev = spec_created_entries(txids, transparent, (n - 1) as nat);
        let cur = spec_created_entries(txids, transparent, n);
        let i0 = n - 1;
        match transparent[i0] {
            None => {
                assert(cur =~= prev);
                assert forall|k: int| 0 <= k < cur.len() implies created_in_block(txids, transparent, n, #[trigger] cur[k]) by {
                    assert(cur[k] == prev[k]);
                    assert(created_in_block(txids, transparent, (n - 1) as nat, prev[k]));
                    let i = choose|i: int| 0 <= i < n - 1 && #[trigger] created_by(txids, transparent, i, prev[k]);
                    assert(created_by(txids, transparent, i, cur[k]));
                }
            },
            Some(t) => {
                let outs = t.outputs@;
                let tc = tx_created(txids[i0], outs, outs.len());
                lemma_tx_created_shape(txids[i0], outs, outs.len());
                assert(cur == prev + tc);
                assert forall|k: int| 0 <= k < cur.len() implies created_in_block(txids, transparent, n, #[trigger] cur[k]) by {
                    if k < prev.len() {
                        assert(cur[k] == prev[k]);
                        assert(created_in_block(txids, transparent, (n - 1) as nat, prev[k]));
                        let i = choose|i: int| 0 <= i < n - 1 && #[trigger] created_by(txids, transparent, i, prev[k]);
                        assert(created_by(txids, transparent, i, cur[k]));
                    } else {
                        let e = tc[k - prev.len()];
                        assert(cur[k] == e);
                        assert(e.0.prev_txid == txids[i0]);
                        assert(e.0.prev_index < outs.len());
                        assert(created_by(txids, transparent, i0, cur[k]));
                    }
                }
                assert forall|i: int, j: int|
                    0 <= i < n && transparent[i] is Some && 0 <= j < transparent[i]->0.outputs@.len()
                        && !is_unspendable(#[trigger] transparent[i]->0.outputs@[j])
                        implies cur.contains(
                        (Outpoint { prev_txid: txids[i], prev_index: j as u32 }, transparent[i]->0.outputs@[j]),
                    ) by {
                    let x = (Outpoint { prev_txid: txids[i], prev_index: j as u32 }, transparent[i]->0.outputs@[j]);
                    if i < n - 1 {
                        let w = choose|k: int| 0 <= k < prev.len() && prev[k] == x;
                        assert(cur[w] == prev[w]);
                    } else {
                        assert(tc.contains(x));
                        let w = choose|k: int| 0 <= k < tc.len() && tc[k] == x;
                        assert(cur[prev.len() + w] == tc[w]);
                    }
                }
            },
        }
    } else {
        assert(spec_created_entries(txids, transparent, n).len() == 0);
    }
}

/// Entry `e` is output `e.0.prev_index` of block transaction `i`, named by that transaction's
/// hash, and can be spent.
pub open spec fn created_by(
    txids: Seq<[u8; 32]>,
    transparent: Seq<Option<TransparentCompactTx>>,
    i: int,
    e: (Outpoint, TxOutCompact),
) -> bool {
    &&& transparent[i] is Some
    &&& e.0.prev_txid == txids[i]
    &&& e.0.prev_index < transparent[i]->0.outputs@.len()
    &&& e.1 == transparent[i]->0.outputs@[e.0.prev_index as int]
    &&& !is_unspendable(e.1)
}

/// Entry `e` is a spendable output of one of the first `n` block transactions, named by it.
pub open spec fn created_in_block(
    txids: Seq<[u8; 32]>,
    transparent: Seq<Option<TransparentCompactTx>>,
    n: nat,
    e: (Outpoint, TxOutCompact),
) -> bool {
    exists|i: int| 0 <= i < n && #[trigger] created_by(txids, transparent, i, e)
}

/// The number of transparent outputs of an optional transaction.
pub open spec fn outputs_len(t: Option<TransparentCompactTx>) -> nat {
    match t {
        Some(tx) => tx.outputs@.len(),
        None => 0,
    }
}

/// Created outpoints are pairwise distinct when the block's transaction hashes are.
pub proof fn lemma_created_outpoints_distinct(
    txids: Seq<[u8; 32]>,
    transparent: Seq<Option<TransparentCompactTx>>,
    n: nat,
)
    requires
        n <= txids.len(),
        n <= transparent.len(),
        forall|i: int| 0 <= i < n ==> outputs_len(#[trigger] transparent[i]) <= u32::MAX + 1,
        forall|i: int, j: int| 0 <= i < j < n ==> #[trigger] txids[i] != #[trigger] txids[j],
    ensures
        forall|k: int, l: int|
            0 <= k < l < spec_created_entries(txids, transparent, n).len()
                ==> (#[trigger] spec_created_entries(txids, transparent, n)[k]).0
                != (#[trigger] spec_created_entries(txids, transparent, n)[l]).0,
    decreases n,
{
    if n > 0 {
        lemma_created_outpoints_distinct(txids, transparent, (n - 1) as nat);
        lemma_created_entries_name_their_outputs(txids, transparent, (n - 1) as nat);
        let prev = spec_created_entries(txids, transparent, (n - 1) as nat);
        let cur = spec_created_entries(txids, transparent, n);
        let i0 = n - 1;
        match transparent[i0] {
            None => {
                assert(cur =~= prev);
            },
            Some(t) => {
                let outs = t.outputs@;
                let tc = tx_created(txids[i0], outs, outs.len());
                lemma_tx_created_shape(txids[i0], outs, outs.len());
                assert(cur == prev + tc);
                assert forall|k: int, l: int| 0 <= k < l < cur.len() implies (#[trigger] cur[k]).0
                    != (#[trigger] cur[l]).0 by {
                    if l < prev.len() {
                        assert(cur[k] == prev[k] && cur[l] == prev[l]);
                    } else if k >= prev.len() {
                        assert(cur[k] == tc[k - prev.len()] && cur[l] == tc[l - prev.len()]);
                    } else {
                        assert(cur[k] == prev[k] && cur[l] == tc[l - prev.len()]);
                        let e = prev[k];
                        assert(created_in_block(txids, transparent, (n - 1) as nat, e));
                        let i = choose|i: int| 0 <= i < n - 1 && #[trigger] created_by(txids, transparent, i, e);
                        assert(txids[i] != txids[i0]);
                    }
                }
            },
        }
    }
}

/// Commitment entries from listed outputs and their digests, in the same order.
pub open spec fn with_digests(entries: Seq<(Outpoint, TxOutCompact)>, digests: Seq<[u8; 32]>) -> Seq<
    TxOutSetEntry,
> {
    Seq::new(entries.len(), |i: int| TxOutSetEntry { digest: digests[i], value: entries[i].1.value })
}

/// Pairs each listed output with its digest.
pub fn commitment_entries(entries: &[(Outpoint, TxOutCompact)], digests: &[[u8; 32]]) -> (r: Vec<
    TxOutSetEntry,
>)
    requires
        digests@.len() == entries@.len(),
    ensures
        r@ == with_digests(entries@, digests@),
{
    let mut out: Vec<TxOutSetEntry> = Vec::new();
    let mut i: usize = 0;
    while i < entries.len()
        invariant
            0 <= i <= entries@.len(),
            digests@.len() == entries@.len(),
            out@ == with_digests(entries@, digests@).take(i as int),
        decreases entries@.len() - i,
    {
        out.push(TxOutSetEntry { digest: digests[i], value: entries[i].1.value });
        i = i + 1;
        assert(out@ =~= with_digests(entries@, digests@).take(i as int));
    }
    assert(with_digests(entries@, digests@).take(i as int) =~= with_digests(entries@, digests@));
    out
}

/// Resolving the first `n` spent outpoints, when it succeeds, gives `n` entries.
proof fn lemma_resolved_len(
    txids: Seq<[u8; 32]>,
    transparent: Seq<Option<TransparentCompactTx>>,
    spent: Seq<(Outpoint, TxLocation)>,
    prior: Seq<Result<TxOutCompact, PreviousOutputError>>,
    n: nat,
)
    requires
        spec_resolved(txids, transparent, spent, prior, n) is Ok,
    ensures
        spec_resolved(txids, transparent, spent, prior, n)->Ok_0.len() == n,
    decreases n,
{
    if n > 0 {
        lemma_resolved_len(txids, transparent, spent, prior, (n - 1) as nat);
    }
}

/// The stored counts of optional stored information.
pub open spec fn stored_counts(stored: Option<TxOutSetInfo>) -> Option<
    FinalisedTxOutSetInfoAccumulator,
> {
    match stored {
        Some(s) => Some(s.accumulator),
        None => None,
    }
}

/// The commitment of optional stored information: the empty commitment when none is stored.
pub open spec fn stored_commitment(stored: Option<TxOutSetInfo>) -> CommitmentView {
    match stored {
        Some(s) => s.commitment@,
        None => empty_commitment(),
    }
}

/// The information after writing a block, or why it cannot be computed: the counts, then the
/// created entries added to the commitment and the spent entries removed from it.
pub open spec fn spec_info_after_block(
    stored: Option<FinalisedTxOutSetInfoAccumulator>,
    commitment: CommitmentView,
    tip_height: Option<u32>,
    block_height: u32,
    txids: Seq<[u8; 32]>,
    transparent: Seq<Option<TransparentCompactTx>>,
    spent: Seq<(Outpoint, TxLocation)>,
    spenders: Seq<Option<TxLocation>>,
    prev: Seq<PreviousTransaction>,
    prior: Seq<Result<TxOutCompact, PreviousOutputError>>,
    created_digests: Seq<[u8; 32]>,
    spent_digests: Seq<[u8; 32]>,
    entry_len: u64,
) -> Result<(FinalisedTxOutSetInfoAccumulator, CommitmentView), TxOutSetInfoError> {
    match spec_after_block(stored, tip_height, block_height, txids, transparent, spent, spenders, prev) {
        Err(e) => Err(TxOutSetInfoError::Counts(e)),
        Ok(a) => match spec_resolved(txids, transparent, spent, prior, spent.len()) {
            Err(e) => Err(TxOutSetInfoError::Resolve(e)),
            Ok(rs) => match commitment_after_block(
                commitment,
                with_digests(spec_created_entries(txids, transparent, transparent.len()), created_digests),
                with_digests(rs, spent_digests),
                entry_len,
            ) {
                Err(e) => Err(TxOutSetInfoError::Commitment(e)),
                Ok(c) => Ok((a, c)),
            },
        },
    }
}

/// The information after deleting the tip block, or why it cannot be computed: the counts,
/// then the spent entries added back to the commitment and the created entries removed.
pub open spec fn spec_info_after_delete_block(
    stored: Option<FinalisedTxOutSetInfoAccumulator>,
    commitment: CommitmentView,
    txids: Seq<[u8; 32]>,
    transparent: Seq<Option<TransparentCompactTx>>,
    spent: Seq<(Outpoint, TxLocation)>,
    spenders: Seq<Option<TxLocation>>,
    prev: Seq<PreviousTransaction>,
    prior: Seq<Result<TxOutCompact, PreviousOutputError>>,
    created_digests: Seq<[u8; 32]>,
    spent_digests: Seq<[u8; 32]>,
    entry_len: u64,
) -> Result<(FinalisedTxOutSetInfoAccumulator, CommitmentView), TxOutSetInfoError> {
    match spec_after_delete_block(stored, txids, transparent, spent, spenders, prev) {
        Err(e) => Err(TxOutSetInfoError::Counts(e)),
        Ok(a) => match spec_resolved(txids, transparent, spent, prior, spent.len()) {
            Err(e) => Err(TxOutSetInfoError::Resolve(e)),
            Ok(rs) => match commitment_after_delete_block(
                commitment,
                with_digests(spec_created_entries(txids, transparent, transparent.len()), created_digests),
                with_digests(rs, spent_digests),
                entry_len,
            ) {
                Err(e) => Err(TxOutSetInfoError::Commitment(e)),
                Ok(c) => Ok((a, c)),
            },
        },
    }
}

/// Calculates the finalised txout-set information after writing a block: the counts of
/// [`calculate_tx_out_set_info_accumulator_after_block`], then the commitment with the block's
/// created entries added and the entries it spends removed.
///
/// `stored` is the stored information (`None` only for an empty database writing genesis, which
/// starts from the empty commitment). `prior_outputs` gives, in spent-map order, the previous
/// output found in the finalised state for each spent outpoint; `created_digests` gives the
/// digest of each entry of [`created_entries`] and `spent_digests` that of each spent entry, in
/// spent-map order; `entry_len` is the serialized length of one entry.
pub fn calculate_tx_out_set_info_after_block(
    stored: Option<TxOutSetInfo>,
    tip_height: Option<u32>,
    block_height: u32,
    txids: &[[u8; 32]],
    transparent: &[Option<TransparentCompactTx>],
    spent_map: &[(Outpoint, TxLocation)],
    existing_spenders: &[Option<TxLocation>],
    previous_transactions: &[PreviousTransaction],
    prior_outputs: &[Result<TxOutCompact, PreviousOutputError>],
    created_digests: &[[u8; 32]],
    spent_digests: &[[u8; 32]],
    entry_len: u64,
) -> (r: Result<TxOutSetInfo, TxOutSetInfoError>)
    requires
        existing_spenders@.len() == spent_map@.len(),
        prior_outputs@.len() == spent_map@.len(),
        spent_digests@.len() == spent_map@.len(),
        created_digests@.len() == spec_created_entries(txids@, transparent@, transparent@.len()).len(),
    ensures
        ({
            let s = spec_info_after_block(
                stored_counts(stored),
                stored_commitment(stored),
                tip_height,
                block_height,
                txids@,
                transparent@,
                spent_map@,
                existing_spenders@,
                previous_transactions@,
                prior_outputs@,
                created_digests@,
                spent_digests@,
                entry_len,
            );
            match r {
                Ok(info) => s matches Ok((a, c)) && info.accumulator == a && info.commitment@ == c,
                Err(e) => s == Err::<(FinalisedTxOutSetInfoAccumulator, CommitmentView), TxOutSetInfoError>(e),
            }
        }),
{
    let (counts, commitment) = match stored {
        Some(s) => (Some(s.accumulator), s.commitment),
        None => (None, empty_tx_out_set_commitment()),
    };
    let accumulator = match calculate_tx_out_set_info_accumulator_after_block(
        counts,
        tip_height,
        block_height,
        txids,
        transparent,
        spent_map,
        existing_spenders,
        previous_transactions,
    ) {
        Ok(a) => a,
        Err(e) => return Err(TxOutSetInfoError::Counts(e)),
    };
    let created = created_entries(txids, transparent);
    let spent = match resolve_spent_outpoints_for_set_info(spent_map, txids, transparent, prior_outputs) {
        Ok(v) => v,
        Err(e) => return Err(TxOutSetInfoError::Resolve(e)),
    };
    proof {
        lemma_resolved_len(txids@, transparent@, spent_map@, prior_outputs@, spent_map@.len());
    }
    let created_commitment_entries = commitment_entries(created.as_slice(), created_digests);
    let spent_commitment_entries = commitment_entries(spent.as_slice(), spent_digests);
    match tx_out_set_commitment_after_block(
        commitment,
        created_commitment_entries.as_slice(),
        spent_commitment_entries.as_slice(),
        entry_len,
    ) {
        Ok(c) => Ok(TxOutSetInfo { accumulator, commitment: c }),
        Err(e) => Err(TxOutSetInfoError::Commitment(e)),
    }
}

/// Calculates the finalised txout-set information after deleting the tip block: the counts of
/// [`calculate_tx_out_set_info_accumulator_after_delete_block`], then the commitment with the
/// entries the block spent added back and the entries it created removed.
///
/// The arguments are those of [`calculate_tx_out_set_info_after_block`]; the finalised state
/// still holds the block being deleted.
pub fn calculate_tx_out_set_info_after_delete_block(
    stored: Option<TxOutSetInfo>,
    txids: &[[u8; 32]],
    transparent: &[Option<TransparentCompactTx>],
    spent_map: &[(Outpoint, TxLocation)],
    existing_spenders: &[Option<TxLocation>],
    previous_transactions: &[PreviousTransaction],
    prior_outputs: &[Result<TxOutCompact, PreviousOutputError>],
    created_digests: &[[u8; 32]],
    spent_digests: &[[u8; 32]],
    entry_len: u64,
) -> (r: Result<TxOutSetInfo, TxOutSetInfoError>)
    requires
        existing_spenders@.len() == spent_map@.len(),
        prior_outputs@.len() == spent_map@.len(),
        spent_digests@.len() == spent_map@.len(),
        created_digests@.len() == spec_created_entries(txids@, transparent@, transparent@.len()).len(),
    ensures
        ({
            let s = spec_info_after_delete_block(
                stored_counts(stored),
                stored_commitment(stored),
                txids@,
                transparent@,
                spent_map@,
                existing_spenders@,
                previous_transactions@,
                prior_outputs@,
                created_digests@,
                spent_digests@,
                entry_len,
            );
            match r {
                Ok(info) => s matches Ok((a, c)) && info.accumulator == a && info.commitment@ == c,
                Err(e) => s == Err::<(FinalisedTxOutSetInfoAccumulator, CommitmentView), TxOutSetInfoError>(e),
            }
        }),
{
    let (counts, commitment) = match stored {
        Some(s) => (Some(s.accumulator), s.commitment),
        None => (None, empty_tx_out_set_commitment()),
    };
    let accumulator = match calculate_tx_out_set_info_accumulator_after_delete_block(
        counts,
        txids,
        transparent,
        spent_map,
        existing_spenders,
        previous_transactions,
    ) {
        Ok(a) => a,
        Err(e) => return Err(TxOutSetInfoError::Counts(e)),
    };
    let created = created_entries(txids, transparent);
    let spent = match resolve_spent_outpoints_for_set_info(spent_map, txids, transparent, prior_outputs) {
        Ok(v) => v,
        Err(e) => return Err(TxOutSetInfoError::Resolve(e)),
    };
    proof {
        lemma_resolved_len(txids@, transparent@, spent_map@, prior_outputs@, spent_map@.len());
    }
    let created_commitment_entries = commitment_entries(created.as_slice(), created_digests);
    let spent_commitment_entries = commitment_entries(spent.as_slice(), spent_digests);
    match tx_out_set_commitment_after_delete_block(
        commitment,
        created_commitment_entries.as_slice(),
        spent_commitment_entries.as_slice(),
        entry_len,
    ) {
        Ok(c) => Ok(TxOutSetInfo { accumulator, commitment: c }),
        Err(e) => Err(TxOutSetInfoError::Commitment(e)),
    }
}

/// Deleting a block undoes writing it, for the whole txout-set information.
///
/// When writing a block moves the information from its starting counts and commitment to
/// `(a, c)`, deleting the same block from `(a, c)`, in a state that records the block as the
/// spender of each outpoint it spends and describes the earlier transactions and previous
/// outputs by the same facts and the entries by the same digests, gives back the starting counts
/// and commitment exactly. The starting transaction count must cover the earlier transactions
/// that leave the set, as it does in any state that counted them when they entered.
pub proof fn lemma_info_delete_undoes_block(
    stored: Option<FinalisedTxOutSetInfoAccumulator>,
    commitment: CommitmentView,
    tip_height: Option<u32>,
    block_height: u32,
    txids: Seq<[u8; 32]>,
    transparent: Seq<Option<TransparentCompactTx>>,
    spent: Seq<(Outpoint, TxLocation)>,
    spenders_before: Seq<Option<TxLocation>>,
    spenders_after: Seq<Option<TxLocation>>,
    prev: Seq<PreviousTransaction>,
    prior: Seq<Result<TxOutCompact, PreviousOutputError>>,
    created_digests: Seq<[u8; 32]>,
    spent_digests: Seq<[u8; 32]>,
    entry_len: u64,
)
    requires
        commitment.hash.len() == 32,
        spec_info_after_block(
            stored,
            commitment,
            tip_height,
            block_height,
            txids,
            transparent,
            spent,
            spenders_before,
            prev,
            prior,
            created_digests,
            spent_digests,
            entry_len,
        ) is Ok,
        spenders_after.len() == spent.len(),
        forall|i: int| 0 <= i < spent.len() ==> #[trigger] spenders_after[i] == Some(spent[i].1),
        starting_accumulator(stored, tip_height, block_height)->Ok_0.transactions >= leave_count(
            txids,
            spent,
            prev,
            spent.len(),
        ),
    ensures
        ({
            let (a, c) = spec_info_after_block(
                stored,
                commitment,
                tip_height,
                block_height,
                txids,
                transparent,
                spent,
                spenders_before,
                prev,
                prior,
                created_digests,
                spent_digests,
                entry_len,
            )->Ok_0;
            spec_info_after_delete_block(
                Some(a),
                c,
                txids,
                transparent,
                spent,
                spenders_after,
                prev,
                prior,
                created_digests,
                spent_digests,
                entry_len,
            ) == Ok::<(FinalisedTxOutSetInfoAccumulator, CommitmentView), TxOutSetInfoError>(
                (starting_accumulator(stored, tip_height, block_height)->Ok_0, commitment),
            )
        }),
{
    lemma_delete_block_undoes_block(
        stored,
        tip_height,
        block_height,
        txids,
        transparent,
        spent,
        spenders_before,
        spenders_after,
        prev,
    );
    let rs = spec_resolved(txids, transparent, spent, prior, spent.len())->Ok_0;
    let created = with_digests(spec_created_entries(txids, transparent, transparent.len()), created_digests);
    let spent_entries = with_digests(rs, spent_digests);
    lemma_commitment_delete_undoes_block(commitment, created, spent_entries, entry_len);
}

} // verus!
