//! The multiset commitment part of the txout-set information: a XOR of per-entry digests, the
//! total value and the serialized size of the unspent transparent outputs.
use vstd::prelude::*;

verus! {

/// The multiset commitment fields of the txout-set information.
#[derive(Clone, Copy, Debug)]
pub struct TxOutSetCommitment {
    /// XOR of the digests of all entries in the set.
    pub hash_serialized: [u8; 32],
    /// Sum of the values of all entries, in zatoshis.
    pub total_zatoshis: u64,
    /// Sum of the serialized lengths of all entries.
    pub bytes_serialized: u64,
}

/// One unspent output as the commitment sees it: its entry digest and its value.
#[derive(Clone, Copy, Debug)]
pub struct TxOutSetEntry {
    pub digest: [u8; 32],
    pub value: u64,
}

/// Reasons why a commitment update fails.
#[derive(Debug, PartialEq, Eq, Structural)]
pub enum CommitmentError {
    /// `total_zatoshis` would exceed `u64::MAX`.
    TotalZatoshisOverflow,
    /// `bytes_serialized` would exceed `u64::MAX`.
    BytesSerializedOverflow,
    /// `total_zatoshis` would drop below zero.
    TotalZatoshisUnderflow,
    /// `bytes_serialized` would drop below zero.
    BytesSerializedUnderflow,
}

/// Mathematical view of a commitment.
pub struct CommitmentView {
    pub hash: Seq<u8>,
    pub total: u64,
    pub bytes: u64,
}

impl View for TxOutSetCommitment {
    type V = CommitmentView;

    open spec fn view(&self) -> CommitmentView {
        CommitmentView {
            hash: self.hash_serialized@,
            total: self.total_zatoshis,
            bytes: self.bytes_serialized,
        }
    }
}

/// Byte-wise XOR of two 32-byte sequences.
pub open spec fn xor32(a: Seq<u8>, b: Seq<u8>) -> Seq<u8> {
    Seq::new(32, |j: int| a[j] ^ b[j])
}

/// The commitment after one entry, and the error that stopped the update there, if any. The
/// digest is folded in first, then the value, then the entry length.
pub open spec fn entry_step(c: CommitmentView, e: TxOutSetEntry, entry_len: u64, adding: bool) -> (
    CommitmentView,
    Option<CommitmentError>,
) {
    let h = xor32(c.hash, e.digest@);
    if adding {
        if c.total + e.value > u64::MAX {
            (CommitmentView { hash: h, total: c.total, bytes: c.bytes }, Some(CommitmentError::TotalZatoshisOverflow))
        } else if c.bytes + entry_len > u64::MAX {
            (
                CommitmentView { hash: h, total: (c.total + e.value) as u64, bytes: c.bytes },
                Some(CommitmentError::BytesSerializedOverflow),
            )
        } else {
            (
                CommitmentView {
                    hash: h,
                    total: (c.total + e.value) as u64,
                    bytes: (c.bytes + entry_len) as u64,
                },
                None,
            )
        }
    } else {
        if c.total < e.value {
            (CommitmentView { hash: h, total: c.total, bytes: c.bytes }, Some(CommitmentError::TotalZatoshisUnderflow))
        } else if c.bytes < entry_len {
            (
                CommitmentView { hash: h, total: (c.total - e.value) as u64, bytes: c.bytes },
                Some(CommitmentError::BytesSerializedUnderflow),
            )
        } else {
            (
                CommitmentView {
                    hash: h,
                    total: (c.total - e.value) as u64,
                    bytes: (c.bytes - entry_len) as u64,
                },
                None,
            )
        }
    }
}

/// The commitment after the first `n` entries, stopping at the first error.
pub open spec fn delta_fold(
    c: CommitmentView,
    entries: Seq<TxOutSetEntry>,
    n: nat,
    entry_len: u64,
    adding: bool,
) -> (CommitmentView, Option<CommitmentError>)
    decreases n,
{
    if n == 0 {
        (c, None)
    } else {
        let prior = delta_fold(c, entries, (n - 1) as nat, entry_len, adding);
        if prior.1 is Some {
            prior
        } else {
            entry_step(prior.0, entries[n - 1], entry_len, adding)
        }
    }
}

/// Applies a list of UTXO entries to the multiset commitment fields.
///
/// For each entry the digest is XORed into `hash_serialized` (XOR is self-inverse, so the same
/// call site works for both add and remove). `total_zatoshis` and `bytes_serialized` move in the
/// direction selected by `adding`, by the entry's value and by `entry_len`. On an overflow or
/// underflow the update stops at that entry and the error is returned.
pub fn apply_tx_out_set_entries_delta(
    commitment: &mut TxOutSetCommitment,
    entries: &[TxOutSetEntry],
    entry_len: u64,
    adding: bool,
) -> (r: Result<(), CommitmentError>)
    ensures
        final(commitment)@ == delta_fold(old(commitment)@, entries@, entries@.len(), entry_len, adding).0,
        match r {
            Ok(()) => delta_fold(old(commitment)@, entries@, entries@.len(), entry_len, adding).1 is None,
            Err(e) => delta_fold(old(commitment)@, entries@, entries@.len(), entry_len, adding).1
                == Some(e),
        },
{
    let ghost start = commitment@;
    let mut i: usize = 0;
    while i < entries.len()
        invariant
            0 <= i <= entries@.len(),
            start == old(commitment)@,
            delta_fold(start, entries@, i as nat, entry_len, adding) == (
                commitment@,
                None::<CommitmentError>,
            ),
        decreases entries@.len() - i,
    {
        let entry = &entries[i];
        let ghost before = commitment@;
        let mut j: usize = 0;
        while j < 32
            invariant
                0 <= j <= 32,
                commitment.total_zatoshis == before.total,
                commitment.bytes_serialized == before.bytes,
                commitment.hash_serialized@.len() == 32,
                before.hash.len() == 32,
                forall|k: int| 0 <= k < j ==> commitment.hash_serialized@[k] == before.hash[k] ^ entry.digest@[k],
                forall|k: int| j <= k < 32 ==> commitment.hash_serialized@[k] == before.hash[k],
            decreases 32 - j,
        {
            let b = commitment.hash_serialized[j] ^ entry.digest[j];
            commitment.hash_serialized[j] = b;
            j = j + 1;
        }
        assert(commitment.hash_serialized@ =~= xor32(before.hash, entry.digest@));
        let ghost n = entries@.len();
        if adding {
            match commitment.total_zatoshis.checked_add(entry.value) {
                Some(t) => commitment.total_zatoshis = t,
                None => {
                    proof {
                        assert(commitment@ =~= entry_step(before, *entry, entry_len, adding).0);
                        lemma_delta_fold_err_persists(start, entries@, (i + 1) as nat, n, entry_len, adding);
                    }
                    return Err(CommitmentError::TotalZatoshisOverflow);
                },
            }
            match commitment.bytes_serialized.checked_add(entry_len) {
                Some(b) => commitment.bytes_serialized = b,
                None => {
                    proof {
                        assert(commitment@ =~= entry_step(before, *entry, entry_len, adding).0);
                        lemma_delta_fold_err_persists(start, entries@, (i + 1) as nat, n, entry_len, adding);
                    }
                    return Err(CommitmentError::BytesSerializedOverflow);
                },
            }
        } else {
            match commitment.total_zatoshis.checked_sub(entry.value) {
                Some(t) => commitment.total_zatoshis = t,
                None => {
                    proof {
                        assert(commitment@ =~= entry_step(before, *entry, entry_len, adding).0);
                        lemma_delta_fold_err_persists(start, entries@, (i + 1) as nat, n, entry_len, adding);
                    }
                    return Err(CommitmentError::TotalZatoshisUnderflow);
                },
            }
            match commitment.bytes_serialized.checked_sub(entry_len) {
                Some(b) => commitment.bytes_serialized = b,
                None => {
                    proof {
                        assert(commitment@ =~= entry_step(before, *entry, entry_len, adding).0);
                        lemma_delta_fold_err_persists(start, entries@, (i + 1) as nat, n, entry_len, adding);
                    }
                    return Err(CommitmentError::BytesSerializedUnderflow);
                },
            }
        }
        assert(commitment@ =~= entry_step(before, *entry, entry_len, adding).0);
        i = i + 1;
    }
    Ok(())
}

/// Once the update stops at an entry, longer prefixes stop there too.
proof fn lemma_delta_fold_err_persists(
    c: CommitmentView,
    entries: Seq<TxOutSetEntry>,
    m: nat,
    n: nat,
    entry_len: u64,
    adding: bool,
)
    requires
        m <= n,
        delta_fold(c, entries, m, entry_len, adding).1 is Some,
    ensures
        delta_fold(c, entries, n, entry_len, adding) == delta_fold(c, entries, m, entry_len, adding),
    decreases n - m,
{
    if m < n {
        lemma_delta_fold_err_persists(c, entries, m, (n - 1) as nat, entry_len, adding);
    }
}


/// Sum of the values of the first `n` entries.
pub open spec fn value_sum(entries: Seq<TxOutSetEntry>, n: nat) -> nat
    decreases n,
{
    if n == 0 {
        0
    } else {
        value_sum(entries, (n - 1) as nat) + entries[n - 1].value as nat
    }
}

/// `n` times the entry length.
pub open spec fn length_sum(n: nat, entry_len: u64) -> nat
    decreases n,
{
    if n == 0 {
        0
    } else {
        length_sum((n - 1) as nat, entry_len) + entry_len as nat
    }
}

/// The hash after folding in the digests of the first `n` entries.
pub open spec fn digest_fold(h: Seq<u8>, entries: Seq<TxOutSetEntry>, n: nat) -> Seq<u8>
    decreases n,
{
    if n == 0 {
        h
    } else {
        xor32(digest_fold(h, entries, (n - 1) as nat), entries[n - 1].digest@)
    }
}

/// Byte `j` of the XOR of the digests of the first `n` entries.
pub open spec fn digest_xor_at(entries: Seq<TxOutSetEntry>, n: nat, j: int) -> u8
    decreases n,
{
    if n == 0 {
        0
    } else {
        digest_xor_at(entries, (n - 1) as nat, j) ^ entries[n - 1].digest@[j]
    }
}

proof fn lemma_digest_fold_pointwise(h: Seq<u8>, entries: Seq<TxOutSetEntry>, n: nat)
    requires
        h.len() == 32,
    ensures
        digest_fold(h, entries, n).len() == 32,
        forall|j: int| 0 <= j < 32 ==> #[trigger] digest_fold(h, entries, n)[j] == h[j] ^ digest_xor_at(entries, n, j),
    decreases n,
{
    if n == 0 {
        assert forall|j: int| 0 <= j < 32 implies #[trigger] digest_fold(h, entries, n)[j] == h[j] ^ digest_xor_at(entries, n, j) by {
            let a = h[j];
            assert(a ^ 0u8 == a) by (bit_vector);
        }
    } else {
        lemma_digest_fold_pointwise(h, entries, (n - 1) as nat);
        assert forall|j: int| 0 <= j < 32 implies #[trigger] digest_fold(h, entries, n)[j] == h[j] ^ digest_xor_at(entries, n, j) by {
            let a = h[j];
            let b = digest_xor_at(entries, (n - 1) as nat, j);
            let d = entries[n - 1].digest@[j];
            assert((a ^ b) ^ d == a ^ (b ^ d)) by (bit_vector);
        }
    }
}

proof fn lemma_adding_closed_form(c: CommitmentView, entries: Seq<TxOutSetEntry>, n: nat, entry_len: u64)
    requires
        delta_fold(c, entries, n, entry_len, true).1 is None,
    ensures
        delta_fold(c, entries, n, entry_len, true).0 == (CommitmentView {
            hash: digest_fold(c.hash, entries, n),
            total: (c.total + value_sum(entries, n)) as u64,
            bytes: (c.bytes + length_sum(n, entry_len)) as u64,
        }),
        c.total + value_sum(entries, n) <= u64::MAX,
        c.bytes + length_sum(n, entry_len) <= u64::MAX,
    decreases n,
{
    if n > 0 {
        lemma_adding_closed_form(c, entries, (n - 1) as nat, entry_len);
    }
}

proof fn lemma_value_sum_monotone(entries: Seq<TxOutSetEntry>, m: nat, n: nat)
    requires
        m <= n,
    ensures
        value_sum(entries, m) <= value_sum(entries, n),
    decreases n - m,
{
    if m < n {
        lemma_value_sum_monotone(entries, m, (n - 1) as nat);
    }
}

proof fn lemma_length_sum_monotone(m: nat, n: nat, entry_len: u64)
    requires
        m <= n,
    ensures
        length_sum(m, entry_len) <= length_sum(n, entry_len),
    decreases n - m,
{
    if m < n {
        lemma_length_sum_monotone(m, (n - 1) as nat, entry_len);
    }
}

proof fn lemma_removing_closed_form(
    c: CommitmentView,
    entries: Seq<TxOutSetEntry>,
    n: nat,
    entry_len: u64,
    full: nat,
)
    requires
        n <= full,
        c.total >= value_sum(entries, full),
        c.bytes >= length_sum(full, entry_len),
    ensures
        delta_fold(c, entries, n, entry_len, false) == (CommitmentView {
            hash: digest_fold(c.hash, entries, n),
            total: (c.total - value_sum(entries, n)) as u64,
            bytes: (c.bytes - length_sum(n, entry_len)) as u64,
        }, None::<CommitmentError>),
    decreases n,
{
    lemma_value_sum_monotone(entries, n, full);
    lemma_length_sum_monotone(n, full, entry_len);
    if n > 0 {
        lemma_removing_closed_form(c, entries, (n - 1) as nat, entry_len, full);
    }
}

/// Removing entries undoes adding them.
///
/// When adding a list of entries to a commitment succeeds, removing the same entries from the
/// result succeeds and gives back the original commitment: the digests cancel out because XOR is
/// self-inverse, and the value and length totals return to where they started.
pub proof fn lemma_remove_undoes_add(c: TxOutSetCommitment, entries: Seq<TxOutSetEntry>, entry_len: u64)
    requires
        delta_fold(c@, entries, entries.len(), entry_len, true).1 is None,
    ensures
        delta_fold(
            delta_fold(c@, entries, entries.len(), entry_len, true).0,
            entries,
            entries.len(),
            entry_len,
            false,
        ) == (c@, None::<CommitmentError>),
{
    let n = entries.len();
    lemma_adding_closed_form(c@, entries, n, entry_len);
    let added = delta_fold(c@, entries, n, entry_len, true).0;
    lemma_removing_closed_form(added, entries, n, entry_len, n);
    lemma_digest_fold_pointwise(c@.hash, entries, n);
    lemma_digest_fold_pointwise(added.hash, entries, n);
    let back = digest_fold(added.hash, entries, n);
    assert forall|j: int| 0 <= j < 32 implies #[trigger] back[j] == c@.hash[j] by {
        let a = c@.hash[j];
        let d = digest_xor_at(entries, n, j);
        assert((a ^ d) ^ d == a) by (bit_vector);
    }
    assert(back =~= c@.hash);
}


/// A commitment with no entries: zero hash, zero value, zero bytes.
pub open spec fn empty_commitment() -> CommitmentView {
    CommitmentView { hash: Seq::new(32, |j: int| 0u8), total: 0, bytes: 0 }
}

/// The commitment after writing a block: the block's created entries are added, then the
/// entries it spends are removed.
pub open spec fn commitment_after_block(
    c: CommitmentView,
    created: Seq<TxOutSetEntry>,
    spent: Seq<TxOutSetEntry>,
    entry_len: u64,
) -> Result<CommitmentView, CommitmentError> {
    let a = delta_fold(c, created, created.len(), entry_len, true);
    match a.1 {
        Some(e) => Err(e),
        None => {
            let b = delta_fold(a.0, spent, spent.len(), entry_len, false);
            match b.1 {
                Some(e) => Err(e),
                None => Ok(b.0),
            }
        },
    }
}

/// The commitment after deleting a block: the entries it spent are added back, then the
/// entries it created are removed (the steps of writing it, undone in reverse order).
pub open spec fn commitment_after_delete_block(
    c: CommitmentView,
    created: Seq<TxOutSetEntry>,
    spent: Seq<TxOutSetEntry>,
    entry_len: u64,
) -> Result<CommitmentView, CommitmentError> {
    let a = delta_fold(c, spent, spent.len(), entry_len, true);
    match a.1 {
        Some(e) => Err(e),
        None => {
            let b = delta_fold(a.0, created, created.len(), entry_len, false);
            match b.1 {
                Some(e) => Err(e),
                None => Ok(b.0),
            }
        },
    }
}

/// The empty commitment.
pub fn empty_tx_out_set_commitment() -> (r: TxOutSetCommitment)
    ensures
        r@ == empty_commitment(),
{
    let r = TxOutSetCommitment { hash_serialized: [0u8; 32], total_zatoshis: 0, bytes_serialized: 0 };
    assert(r.hash_serialized@ =~= Seq::new(32, |j: int| 0u8));
    r
}

/// Moves a commitment across a written block: adds `created`, then removes `spent`.
pub fn tx_out_set_commitment_after_block(
    c: TxOutSetCommitment,
    created: &[TxOutSetEntry],
    spent: &[TxOutSetEntry],
    entry_len: u64,
) -> (r: Result<TxOutSetCommitment, CommitmentError>)
    ensures
        match r {
            Ok(n) => commitment_after_block(c@, created@, spent@, entry_len) == Ok::<
                CommitmentView,
                CommitmentError,
            >(n@),
            Err(e) => commitment_after_block(c@, created@, spent@, entry_len) == Err::<
                CommitmentView,
                CommitmentError,
            >(e),
        },
{
    let mut n = c;
    match apply_tx_out_set_entries_delta(&mut n, created, entry_len, true) {
        Ok(()) => {},
        Err(e) => return Err(e),
    }
    match apply_tx_out_set_entries_delta(&mut n, spent, entry_len, false) {
        Ok(()) => {},
        Err(e) => return Err(e),
    }
    Ok(n)
}

/// Moves a commitment back across a deleted block: adds back `spent`, then removes `created`.
pub fn tx_out_set_commitment_after_delete_block(
    c: TxOutSetCommitment,
    created: &[TxOutSetEntry],
    spent: &[TxOutSetEntry],
    entry_len: u64,
) -> (r: Result<TxOutSetCommitment, CommitmentError>)
    ensures
        match r {
            Ok(n) => commitment_after_delete_block(c@, created@, spent@, entry_len) == Ok::<
                CommitmentView,
                CommitmentError,
            >(n@),
            Err(e) => commitment_after_delete_block(c@, created@, spent@, entry_len) == Err::<
                CommitmentView,
                CommitmentError,
            >(e),
        },
{
    let mut n = c;
    match apply_tx_out_set_entries_delta(&mut n, spent, entry_len, true) {
        Ok(()) => {},
        Err(e) => return Err(e),
    }
    match apply_tx_out_set_entries_delta(&mut n, created, entry_len, false) {
        Ok(()) => {},
        Err(e) => return Err(e),
    }
    Ok(n)
}

proof fn lemma_removing_succeeded_closed_form(
    c: CommitmentView,
    entries: Seq<TxOutSetEntry>,
    n: nat,
    entry_len: u64,
)
    requires
        delta_fold(c, entries, n, entry_len, false).1 is None,
    ensures
        delta_fold(c, entries, n, entry_len, false).0 == (CommitmentView {
            hash: digest_fold(c.hash, entries, n),
            total: (c.total - value_sum(entries, n)) as u64,
            bytes: (c.bytes - length_sum(n, entry_len)) as u64,
        }),
        c.total >= value_sum(entries, n),
        c.bytes >= length_sum(n, entry_len),
    decreases n,
{
    if n > 0 {
        lemma_removing_succeeded_closed_form(c, entries, (n - 1) as nat, entry_len);
    }
}

proof fn lemma_adding_bounded_closed_form(
    c: CommitmentView,
    entries: Seq<TxOutSetEntry>,
    n: nat,
    entry_len: u64,
    full: nat,
)
    requires
        n <= full,
        c.total + value_sum(entries, full) <= u64::MAX,
        c.bytes + length_sum(full, entry_len) <= u64::MAX,
    ensures
        delta_fold(c, entries, n, entry_len, true) == (CommitmentView {
            hash: digest_fold(c.hash, entries, n),
            total: (c.total + value_sum(entries, n)) as u64,
            bytes: (c.bytes + length_sum(n, entry_len)) as u64,
        }, None::<CommitmentError>),
    decreases n,
{
    lemma_value_sum_monotone(entries, n, full);
    lemma_length_sum_monotone(n, full, entry_len);
    if n > 0 {
        lemma_adding_bounded_closed_form(c, entries, (n - 1) as nat, entry_len, full);
    }
}

/// Folding the same digests twice into a hash gives the hash back.
proof fn lemma_digest_fold_twice(h: Seq<u8>, entries: Seq<TxOutSetEntry>, n: nat)
    requires
        h.len() == 32,
    ensures
        digest_fold(digest_fold(h, entries, n), entries, n) == h,
{
    let once = digest_fold(h, entries, n);
    lemma_digest_fold_pointwise(h, entries, n);
    lemma_digest_fold_pointwise(once, entries, n);
    let back = digest_fold(once, entries, n);
    assert forall|j: int| 0 <= j < 32 implies #[trigger] back[j] == h[j] by {
        let a = h[j];
        let d = digest_xor_at(entries, n, j);
        assert((a ^ d) ^ d == a) by (bit_vector);
    }
    assert(back =~= h);
}

/// Adding entries back undoes removing them.
proof fn lemma_add_undoes_remove(c: CommitmentView, entries: Seq<TxOutSetEntry>, entry_len: u64)
    requires
        c.hash.len() == 32,
        delta_fold(c, entries, entries.len(), entry_len, false).1 is None,
    ensures
        delta_fold(
            delta_fold(c, entries, entries.len(), entry_len, false).0,
            entries,
            entries.len(),
            entry_len,
            true,
        ) == (c, None::<CommitmentError>),
{
    let n = entries.len();
    lemma_removing_succeeded_closed_form(c, entries, n, entry_len);
    let removed = delta_fold(c, entries, n, entry_len, false).0;
    lemma_adding_bounded_closed_form(removed, entries, n, entry_len, n);
    lemma_digest_fold_twice(c.hash, entries, n);
}

/// Removing entries undoes adding them, for any commitment view with a 32-byte hash.
proof fn lemma_remove_undoes_add_view(c: CommitmentView, entries: Seq<TxOutSetEntry>, entry_len: u64)
    requires
        c.hash.len() == 32,
        delta_fold(c, entries, entries.len(), entry_len, true).1 is None,
    ensures
        delta_fold(
            delta_fold(c, entries, entries.len(), entry_len, true).0,
            entries,
            entries.len(),
            entry_len,
            false,
        ) == (c, None::<CommitmentError>),
{
    let n = entries.len();
    lemma_adding_closed_form(c, entries, n, entry_len);
    let added = delta_fold(c, entries, n, entry_len, true).0;
    lemma_removing_closed_form(added, entries, n, entry_len, n);
    lemma_digest_fold_twice(c.hash, entries, n);
}

/// A successful update keeps the hash 32 bytes long.
proof fn lemma_delta_fold_hash_len(
    c: CommitmentView,
    entries: Seq<TxOutSetEntry>,
    n: nat,
    entry_len: u64,
    adding: bool,
)
    requires
        c.hash.len() == 32,
    ensures
        delta_fold(c, entries, n, entry_len, adding).0.hash.len() == 32,
    decreases n,
{
    if n > 0 {
        lemma_delta_fold_hash_len(c, entries, (n - 1) as nat, entry_len, adding);
    }
}

/// Deleting a block undoes writing it, for the commitment.
///
/// When writing a block (adding its created entries, then removing the entries it spends)
/// succeeds, deleting it from the result (adding the spent entries back, then removing the
/// created ones) succeeds and gives back the commitment it started from.
pub proof fn lemma_commitment_delete_undoes_block(
    c: CommitmentView,
    created: Seq<TxOutSetEntry>,
    spent: Seq<TxOutSetEntry>,
    entry_len: u64,
)
    requires
        c.hash.len() == 32,
        commitment_after_block(c, created, spent, entry_len) is Ok,
    ensures
        commitment_after_delete_block(
            commitment_after_block(c, created, spent, entry_len)->Ok_0,
            created,
            spent,
            entry_len,
        ) == Ok::<CommitmentView, CommitmentError>(c),
{
    let a = delta_fold(c, created, created.len(), entry_len, true).0;
    lemma_delta_fold_hash_len(c, created, created.len(), entry_len, true);
    lemma_add_undoes_remove(a, spent, entry_len);
    lemma_remove_undoes_add_view(c, created, entry_len);
}
} // verus!
