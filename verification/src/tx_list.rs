//! Locating one transparent output inside a stored, serialized transparent transaction list
//! without decoding the whole list.
//!
//! Stored layout: a one-byte entry version tag, a CompactSize item length, the item (a one-byte
//! record version, a CompactSize transaction count, then per transaction an option tag: `0` for
//! none, `1` followed by a one-byte transaction version, a CompactSize input count, the inputs,
//! a CompactSize output count and the outputs) and a 32-byte checksum.
use vstd::prelude::*;

use crate::encoding::{le_u16_at, le_u32_at, le_u64_at, read_le_u16, read_le_u32, read_le_u64};
use crate::types::{
    Outpoint, TxLocation, TxOutCompact, SCRIPT_TYPE_NON_STANDARD, SCRIPT_TYPE_P2PKH,
    SCRIPT_TYPE_P2SH,
};

verus! {

/// Largest value a CompactSize may carry.
pub const MAX_COMPACT_SIZE: u64 = 0x0200_0000;

/// Length of the entry version tag.
pub const VERSION_TAG_LEN: usize = 1;

/// Length of the trailing checksum.
pub const CHECKSUM_LEN: usize = 32;

/// Length of a versioned compact input: tag, 32-byte txid, 4-byte index.
pub const TX_IN_COMPACT_VERSIONED_LEN: usize = 37;

/// Length of a versioned compact output: tag, 8-byte value, 20-byte script hash, script type.
pub const TX_OUT_COMPACT_VERSIONED_LEN: usize = 30;

/// Version tag of a compact output.
pub const TX_OUT_COMPACT_VERSION: u8 = 1;

/// The CompactSize at `pos`: its value and its encoded length. Multi-byte forms must be
/// canonical, and the value may not exceed [`MAX_COMPACT_SIZE`].
pub open spec fn compact_size_at(s: Seq<u8>, pos: int) -> Option<(u64, nat)> {
    if pos < 0 || pos >= s.len() {
        None
    } else {
        let flag = s[pos];
        let raw: Option<(u64, nat)> = if flag < 253 {
            Some((flag as u64, 1nat))
        } else if flag == 253 {
            if pos + 3 > s.len() || le_u16_at(s, pos + 1) < 253 {
                None
            } else {
                Some((le_u16_at(s, pos + 1) as u64, 3nat))
            }
        } else if flag == 254 {
            if pos + 5 > s.len() || le_u32_at(s, pos + 1) < 0x10000 {
                None
            } else {
                Some((le_u32_at(s, pos + 1) as u64, 5nat))
            }
        } else {
            if pos + 9 > s.len() || le_u64_at(s, pos + 1) < 0x1_0000_0000 {
                None
            } else {
                Some((le_u64_at(s, pos + 1) as u64, 9nat))
            }
        };
        match raw {
            Some((v, n)) => if v > MAX_COMPACT_SIZE {
                None
            } else {
                Some((v, n))
            },
            None => None,
        }
    }
}

/// Reads the CompactSize at `pos`.
pub fn read_compact_size(s: &[u8], pos: usize) -> (r: Option<(u64, usize)>)
    ensures
        match r {
            None => compact_size_at(s@, pos as int) is None,
            Some((v, n)) => compact_size_at(s@, pos as int) == Some((v, n as nat)),
        },
{
    if pos >= s.len() {
        return None;
    }
    let flag = s[pos];
    let (value, len): (u64, usize) = if flag < 253 {
        (flag as u64, 1)
    } else if flag == 253 {
        if s.len() - pos < 3 {
            return None;
        }
        let n = read_le_u16(s, pos + 1);
        if n < 253 {
            return None;
        }
        (n as u64, 3)
    } else if flag == 254 {
        if s.len() - pos < 5 {
            return None;
        }
        let n = read_le_u32(s, pos + 1);
        if n < 0x10000 {
            return None;
        }
        (n as u64, 5)
    } else {
        if s.len() - pos < 9 {
            return None;
        }
        let n = read_le_u64(s, pos + 1);
        if n < 0x1_0000_0000 {
            return None;
        }
        (n, 9)
    };
    if value > MAX_COMPACT_SIZE {
        return None;
    }
    Some((value, len))
}

/// Mathematical view of a compact output.
pub struct TxOutView {
    pub value: u64,
    pub script_hash: Seq<u8>,
    pub script_type: u8,
}

/// View of a compact output.
pub open spec fn txout_view(o: TxOutCompact) -> TxOutView {
    TxOutView { value: o.value, script_hash: o.script_hash@, script_type: o.script_type }
}

/// A known script type tag.
pub open spec fn known_script_type(t: u8) -> bool {
    t == SCRIPT_TYPE_P2PKH || t == SCRIPT_TYPE_P2SH || t == SCRIPT_TYPE_NON_STANDARD
}

/// The compact output encoded in the 30 bytes at `pos`: version tag, value (little-endian),
/// script hash, script type.
pub open spec fn txout_at(s: Seq<u8>, pos: int) -> Option<TxOutView> {
    if s[pos] != TX_OUT_COMPACT_VERSION || !known_script_type(s[pos + 29]) {
        None
    } else {
        Some(
            TxOutView {
                value: le_u64_at(s, pos + 1) as u64,
                script_hash: s.subrange(pos + 9, pos + 29),
                script_type: s[pos + 29],
            },
        )
    }
}

/// Decodes the compact output in the 30 bytes at `pos`.
fn decode_txout_at(s: &[u8], pos: usize) -> (r: Option<TxOutCompact>)
    requires
        pos + TX_OUT_COMPACT_VERSIONED_LEN <= s@.len(),
    ensures
        match r {
            None => txout_at(s@, pos as int) is None,
            Some(o) => txout_at(s@, pos as int) == Some(txout_view(o)),
        },
{
    if s[pos] != TX_OUT_COMPACT_VERSION {
        return None;
    }
    let script_type = s[pos + 29];
    if !(script_type == SCRIPT_TYPE_P2PKH || script_type == SCRIPT_TYPE_P2SH || script_type
        == SCRIPT_TYPE_NON_STANDARD) {
        return None;
    }
    let value = read_le_u64(s, pos + 1);
    let mut script_hash = [0u8; 20];
    let mut k: usize = 0;
    while k < 20
        invariant
            0 <= k <= 20,
            pos + 30 <= s@.len(),
            s@.len() <= usize::MAX,
            script_hash@.len() == 20,
            forall|j: int| 0 <= j < k ==> script_hash@[j] == s@[pos + 9 + j],
        decreases 20 - k,
    {
        script_hash[k] = s[pos + 9 + k];
        k = k + 1;
    }
    assert(script_hash@ =~= s@.subrange(pos + 9, pos + 29));
    Some(TxOutCompact { value, script_hash, script_type })
}

/// What reading one transaction entry at `pos` gives: the final answer, or the position of the
/// next entry.
pub enum TxScan {
    Done(Option<TxOutView>),
    Next(int),
}

/// Reads the transaction entry at `pos`; when `is_target`, looks for output `target_out` in it,
/// otherwise skips it.
pub open spec fn tx_scan(s: Seq<u8>, pos: int, is_target: bool, target_out: nat) -> TxScan {
    if pos < 0 || pos >= s.len() {
        TxScan::Done(None)
    } else if s[pos] == 0 {
        if is_target {
            TxScan::Done(None)
        } else {
            TxScan::Next(pos + 1)
        }
    } else if s[pos] == 1 {
        if pos + 1 >= s.len() {
            TxScan::Done(None)
        } else {
            match compact_size_at(s, pos + 2) {
                None => TxScan::Done(None),
                Some((vin, c1)) => {
                    let inputs_end = pos + 2 + c1 + vin * TX_IN_COMPACT_VERSIONED_LEN;
                    if inputs_end > s.len() {
                        TxScan::Done(None)
                    } else {
                        match compact_size_at(s, inputs_end) {
                            None => TxScan::Done(None),
                            Some((vout, c2)) => {
                                let outputs = inputs_end + c2;
                                if is_target {
                                    if target_out < vout && outputs + (target_out + 1)
                                        * TX_OUT_COMPACT_VERSIONED_LEN <= s.len() {
                                        TxScan::Done(
                                            txout_at(s, outputs + target_out * TX_OUT_COMPACT_VERSIONED_LEN),
                                        )
                                    } else {
                                        TxScan::Done(None)
                                    }
                                } else if outputs + vout * TX_OUT_COMPACT_VERSIONED_LEN > s.len() {
                                    TxScan::Done(None)
                                } else {
                                    TxScan::Next(outputs + vout * TX_OUT_COMPACT_VERSIONED_LEN)
                                }
                            },
                        }
                    }
                },
            }
        }
    } else {
        TxScan::Done(None)
    }
}

/// Walks the transaction list from byte `pos`, transaction `i` of `count`, looking for output
/// `target_out` of transaction `target_tx`.
pub open spec fn walk_tx_list(
    s: Seq<u8>,
    pos: int,
    i: nat,
    count: nat,
    target_tx: nat,
    target_out: nat,
) -> Option<TxOutView>
    decreases count - i,
{
    if i >= count {
        None
    } else {
        match tx_scan(s, pos, i == target_tx, target_out) {
            TxScan::Done(r) => r,
            TxScan::Next(p) => walk_tx_list(s, p, i + 1, count, target_tx, target_out),
        }
    }
}

/// The transaction count of a stored list and the position of its first transaction entry.
pub open spec fn list_header(s: Seq<u8>) -> Option<(nat, int)> {
    if s.len() < VERSION_TAG_LEN + 8 + CHECKSUM_LEN {
        None
    } else {
        match compact_size_at(s, VERSION_TAG_LEN as int) {
            None => None,
            Some((item_len, c)) => if s.len() - (VERSION_TAG_LEN + c) < item_len + CHECKSUM_LEN {
                None
            } else {
                let record = VERSION_TAG_LEN + c;
                match compact_size_at(s, record + 1) {
                    None => None,
                    Some((count, c2)) => Some((count as nat, record + 1 + c2)),
                }
            },
        }
    }
}

/// Output `target_out` of transaction `target_tx` in a stored transparent transaction list.
pub open spec fn spec_find_txout(s: Seq<u8>, target_tx: nat, target_out: nat) -> Option<TxOutView> {
    match list_header(s) {
        None => None,
        Some((count, pos)) => walk_tx_list(s, pos, 0, count, target_tx, target_out),
    }
}

/// Reads the list header: the entry tag, the item length (which must leave room for the
/// checksum), the record version and the transaction count.
fn read_list_header(stored: &[u8]) -> (r: Option<(usize, usize)>)
    ensures
        match r {
            None => list_header(stored@) is None,
            Some((count, pos)) => list_header(stored@) == Some((count as nat, pos as int)) && pos
                <= stored@.len() && count <= MAX_COMPACT_SIZE,
        },
{
    if stored.len() < VERSION_TAG_LEN + 8 + CHECKSUM_LEN {
        return None;
    }
    let (item_len, c) = match read_compact_size(stored, VERSION_TAG_LEN) {
        Some(x) => x,
        None => return None,
    };
    let record = VERSION_TAG_LEN + c;
    if stored.len() - record < item_len as usize + CHECKSUM_LEN {
        return None;
    }
    // Skip the record version byte.
    let (count, c2) = match read_compact_size(stored, record + 1) {
        Some(x) => x,
        None => return None,
    };
    Some((count as usize, record + 1 + c2))
}

/// Skips `count` fixed-size items of `item_len` bytes from `pos`, if they fit.
fn skip_items(stored: &[u8], pos: usize, count: usize, item_len: usize) -> (r: Option<usize>)
    requires
        pos <= stored@.len(),
        item_len > 0,
    ensures
        match r {
            Some(p) => p == pos + count * item_len && p <= stored@.len(),
            None => pos + count * item_len > stored@.len(),
        },
{
    let mut p = pos;
    let mut k: usize = 0;
    while k < count
        invariant
            0 <= k <= count,
            item_len > 0,
            p == pos + k * item_len,
            p <= stored@.len(),
        decreases count - k,
    {
        if stored.len() - p < item_len {
            proof {
                assert(pos + count * item_len > stored@.len()) by (nonlinear_arith)
                    requires
                        k < count,
                        p == pos + k * item_len,
                        p + item_len > stored@.len(),
                ;
            }
            return None;
        }
        p = p + item_len;
        k = k + 1;
        assert(p == pos + k * item_len) by (nonlinear_arith)
            requires
                p == pos + (k - 1) * item_len + item_len,
        ;
    }
    Some(p)
}

/// Result of reading one transaction entry.
enum TxScanResult {
    Done(Option<TxOutCompact>),
    Next(usize),
}

/// Reads the transaction entry at `pos`; when `is_target`, looks for output `target_out`.
fn scan_tx(stored: &[u8], pos: usize, is_target: bool, target_out: usize) -> (r: TxScanResult)
    requires
        pos <= stored@.len(),
    ensures
        match r {
            TxScanResult::Done(None) => tx_scan(stored@, pos as int, is_target, target_out as nat)
                == TxScan::Done(None),
            TxScanResult::Done(Some(o)) => tx_scan(stored@, pos as int, is_target, target_out as nat)
                == TxScan::Done(Some(txout_view(o))),
            TxScanResult::Next(p) => tx_scan(stored@, pos as int, is_target, target_out as nat)
                == TxScan::Next(p as int) && p <= stored@.len(),
        },
{
    if pos >= stored.len() {
        return TxScanResult::Done(None);
    }
    let option_tag = stored[pos];
    if option_tag == 0 {
        // None: nothing to skip.
        if is_target {
            return TxScanResult::Done(None);
        }
        return TxScanResult::Next(pos + 1);
    } else if option_tag == 1 {
        if pos + 1 >= stored.len() {
            return TxScanResult::Done(None);
        }
        // Skip the transaction version byte.
        let (vin_len, c1) = match read_compact_size(stored, pos + 2) {
            Some(x) => x,
            None => return TxScanResult::Done(None),
        };
        let inputs_end = match skip_items(stored, pos + 2 + c1, vin_len as usize, TX_IN_COMPACT_VERSIONED_LEN) {
            Some(p) => p,
            None => return TxScanResult::Done(None),
        };
        let (vout_len, c2) = match read_compact_size(stored, inputs_end) {
            Some(x) => x,
            None => return TxScanResult::Done(None),
        };
        let outputs = inputs_end + c2;
        if is_target {
            if target_out < vout_len as usize {
                match skip_items(stored, outputs, target_out + 1, TX_OUT_COMPACT_VERSIONED_LEN) {
                    Some(_) => {
                        return TxScanResult::Done(
                            decode_txout_at(stored, outputs + target_out * TX_OUT_COMPACT_VERSIONED_LEN),
                        );
                    },
                    None => return TxScanResult::Done(None),
                }
            }
            // The transaction has no such output; no later transaction can match.
            return TxScanResult::Done(None);
        }
        match skip_items(stored, outputs, vout_len as usize, TX_OUT_COMPACT_VERSIONED_LEN) {
            Some(p) => TxScanResult::Next(p),
            None => TxScanResult::Done(None),
        }
    } else {
        // Non-canonical option tag.
        TxScanResult::Done(None)
    }
}

/// Scans a raw stored transparent transaction list to locate output `target_output_idx` of
/// transaction `target_tx_idx` without decoding the whole list. Returns `None` when that
/// transaction is absent or has no such output, and when the bytes walked over are malformed.
pub fn find_txout_in_stored_transparent_tx_list(
    stored: &[u8],
    target_tx_idx: usize,
    target_output_idx: usize,
) -> (r: Option<TxOutCompact>)
    ensures
        match r {
            None => spec_find_txout(stored@, target_tx_idx as nat, target_output_idx as nat) is None,
            Some(o) => spec_find_txout(stored@, target_tx_idx as nat, target_output_idx as nat)
                == Some(txout_view(o)),
        },
{
    let (count, start) = match read_list_header(stored) {
        Some(x) => x,
        None => return None,
    };
    let mut pos = start;
    let mut i: usize = 0;
    while i < count
        invariant
            0 <= i <= count,
            pos <= stored@.len(),
            spec_find_txout(stored@, target_tx_idx as nat, target_output_idx as nat) == walk_tx_list(
                stored@,
                pos as int,
                i as nat,
                count as nat,
                target_tx_idx as nat,
                target_output_idx as nat,
            ),
        decreases count - i,
    {
        match scan_tx(stored, pos, i == target_tx_idx, target_output_idx) {
            TxScanResult::Done(r) => return r,
            TxScanResult::Next(p) => pos = p,
        }
        i = i + 1;
    }
    None
}

/// The outputs of a transaction entry whose `n` outputs start at `start`, when every one of
/// them decodes.
pub open spec fn decoded_outputs(s: Seq<u8>, start: int, n: nat) -> Option<Seq<TxOutView>> {
    if forall|k: int| 0 <= k < n ==> (#[trigger] txout_at(s, start + k * TX_OUT_COMPACT_VERSIONED_LEN)) is Some {
        Some(Seq::new(n, |k: int| txout_at(s, start + k * TX_OUT_COMPACT_VERSIONED_LEN)->0))
    } else {
        None
    }
}

/// Decodes the transaction entry at `pos` in full: its outputs (`None` for an absent
/// transaction) and the position of the next entry.
pub open spec fn tx_decode(s: Seq<u8>, pos: int) -> Option<(Option<Seq<TxOutView>>, int)> {
    if pos < 0 || pos >= s.len() {
        None
    } else if s[pos] == 0 {
        Some((None, pos + 1))
    } else if s[pos] == 1 {
        if pos + 1 >= s.len() {
            None
        } else {
            match compact_size_at(s, pos + 2) {
                None => None,
                Some((vin, c1)) => {
                    let inputs_end = pos + 2 + c1 + vin * TX_IN_COMPACT_VERSIONED_LEN;
                    if inputs_end > s.len() {
                        None
                    } else {
                        match compact_size_at(s, inputs_end) {
                            None => None,
                            Some((vout, c2)) => {
                                let outputs = inputs_end + c2;
                                let end = outputs + vout * TX_OUT_COMPACT_VERSIONED_LEN;
                                if end > s.len() {
                                    None
                                } else {
                                    match decoded_outputs(s, outputs, vout as nat) {
                                        None => None,
                                        Some(outs) => Some((Some(outs), end)),
                                    }
                                }
                            },
                        }
                    }
                },
            }
        }
    } else {
        None
    }
}

/// Decodes transaction entries `i..count` in full, starting at byte `pos`.
pub open spec fn decode_entries(s: Seq<u8>, pos: int, i: nat, count: nat) -> Option<
    Seq<Option<Seq<TxOutView>>>,
>
    decreases count - i,
{
    if i >= count {
        Some(Seq::empty())
    } else {
        match tx_decode(s, pos) {
            None => None,
            Some((tx, next)) => match decode_entries(s, next, i + 1, count) {
                None => None,
                Some(rest) => Some(seq![tx] + rest),
            },
        }
    }
}

/// Decodes a stored transparent transaction list in full: for each transaction, its outputs,
/// or `None` for an absent transaction.
///
/// The entry is a version tag, the item length as a CompactSize, the item, and a 32-byte
/// checksum; the item is a record version byte, the transaction count as a CompactSize, and
/// the transaction entries.
pub open spec fn spec_decode_tx_list(s: Seq<u8>) -> Option<Seq<Option<Seq<TxOutView>>>> {
    if s.len() < VERSION_TAG_LEN + 8 + CHECKSUM_LEN {
        None
    } else {
        match compact_size_at(s, 1) {
            None => None,
            Some((item_len, len_width)) => {
                let item_start: int = 1 + len_width as int;
                if item_start + item_len + CHECKSUM_LEN > s.len() {
                    None
                } else {
                    match compact_size_at(s, item_start + 1) {
                        None => None,
                        Some((count, count_width)) => decode_entries(
                            s,
                            item_start + 1 + count_width,
                            0,
                            count as nat,
                        ),
                    }
                }
            },
        }
    }
}

/// Output `o` of transaction `t` in a decoded list: `None` for an absent transaction index, an
/// absent transaction, or an absent output index.
pub open spec fn decoded_lookup(l: Seq<Option<Seq<TxOutView>>>, t: int, o: int) -> Option<TxOutView> {
    if 0 <= t < l.len() && l[t] is Some && 0 <= o < l[t]->0.len() {
        Some(l[t]->0[o])
    } else {
        None
    }
}

proof fn lemma_walk_agrees_with_decode(
    s: Seq<u8>,
    pos: int,
    i: nat,
    count: nat,
    target_tx: nat,
    target_out: nat,
)
    requires
        decode_entries(s, pos, i, count) is Some,
        i <= count,
        i <= target_tx,
    ensures
        decode_entries(s, pos, i, count)->0.len() == count - i,
        walk_tx_list(s, pos, i, count, target_tx, target_out) == decoded_lookup(
            decode_entries(s, pos, i, count)->0,
            target_tx - i,
            target_out as int,
        ),
    decreases count - i,
{
    if i < count {
        let (tx, next) = tx_decode(s, pos)->0;
        let rest = decode_entries(s, next, i + 1, count)->0;
        let l = decode_entries(s, pos, i, count)->0;
        assert(l == seq![tx] + rest);
        if i == target_tx {
            if s[pos] == 1 {
                let (vin, c1) = compact_size_at(s, pos + 2)->0;
                let inputs_end = pos + 2 + c1 + vin * TX_IN_COMPACT_VERSIONED_LEN;
                let (vout, c2) = compact_size_at(s, inputs_end)->0;
                let outputs = inputs_end + c2;
                let outs = decoded_outputs(s, outputs, vout as nat)->0;
                if target_out < vout {
                    assert(outputs + (target_out + 1) * TX_OUT_COMPACT_VERSIONED_LEN <= outputs + vout
                        * TX_OUT_COMPACT_VERSIONED_LEN) by (nonlinear_arith)
                        requires
                            target_out + 1 <= vout,
                    ;
                    let k = target_out as int;
                    assert(txout_at(s, outputs + k * TX_OUT_COMPACT_VERSIONED_LEN) is Some);
                    assert(outs[k] == txout_at(s, outputs + k * TX_OUT_COMPACT_VERSIONED_LEN)->0);
                }
            }
            lemma_walk_agrees_with_decode(s, next, i + 1, count, target_tx + 1, target_out);
        } else {
            lemma_walk_agrees_with_decode(s, next, i + 1, count, target_tx, target_out);
            assert(decoded_lookup(l, target_tx - i, target_out as int) == decoded_lookup(
                rest,
                target_tx - (i + 1),
                target_out as int,
            ));
        }
    }
}

/// The fast lookup agrees with a full decode.
///
/// On a stored transparent transaction list whose every transaction entry decodes, locating
/// output `target_out` of transaction `target_tx` by walking the bytes gives the same answer as
/// decoding the whole list and indexing it: the output, or `None` for an absent transaction
/// index, an absent transaction, or an absent output index.
pub proof fn lemma_find_txout_agrees_with_decode(s: Seq<u8>, target_tx: nat, target_out: nat)
    requires
        spec_decode_tx_list(s) is Some,
    ensures
        spec_find_txout(s, target_tx, target_out) == decoded_lookup(
            spec_decode_tx_list(s)->0,
            target_tx as int,
            target_out as int,
        ),
{
    let (count, pos) = list_header(s)->0;
    lemma_walk_agrees_with_decode(s, pos, 0, count, target_tx, target_out);
}

/// The record of a stored list starts right after the item-length CompactSize, whatever its
/// encoded width: the byte after it is the record version, and the transaction count follows.
///
/// Whenever the header reads, the transaction entries start right after the count's
/// CompactSize, which itself starts two bytes after the item length's CompactSize ends.
pub proof fn lemma_list_header_follows_item_length(s: Seq<u8>)
    requires
        list_header(s) is Some,
    ensures
        compact_size_at(s, 1) is Some,
        ({
            let (item_len, len_width) = compact_size_at(s, 1)->0;
            let (count, pos) = list_header(s)->0;
            compact_size_at(s, 2 + len_width as int) matches Some((c, count_width)) && count == c
                && pos == 2 + len_width + count_width
        }),
{
}

/// Why the previous output of an outpoint cannot be found.
#[derive(Clone, Copy, Debug, PartialEq, Eq, Structural)]
pub enum PreviousOutputError {
    /// The previous transaction is not in the txid index.
    PreviousTxidNotFound,
    /// The previous transaction has no output at the outpoint's index.
    PreviousOutputNotFound,
}

/// The previous transparent output of `outpoint`, given the location of its transaction (as
/// found in the txid index) and the stored transparent list of the block at that location.
pub fn get_previous_output(
    tx_location: Option<TxLocation>,
    stored: &[u8],
    outpoint: &Outpoint,
) -> (r: Result<TxOutCompact, PreviousOutputError>)
    ensures
        match r {
            Ok(o) => tx_location matches Some(l) && spec_find_txout(
                stored@,
                l.tx_index as nat,
                outpoint.prev_index as nat,
            ) == Some(txout_view(o)),
            Err(PreviousOutputError::PreviousTxidNotFound) => tx_location is None,
            Err(PreviousOutputError::PreviousOutputNotFound) => tx_location matches Some(l)
                && spec_find_txout(stored@, l.tx_index as nat, outpoint.prev_index as nat) is None,
        },
{
    let location = match tx_location {
        Some(l) => l,
        None => return Err(PreviousOutputError::PreviousTxidNotFound),
    };
    match find_txout_in_stored_transparent_tx_list(
        stored,
        location.tx_index as usize,
        outpoint.prev_index as usize,
    ) {
        Some(o) => Ok(o),
        None => Err(PreviousOutputError::PreviousOutputNotFound),
    }
}

} // verus!
