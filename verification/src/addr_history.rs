//! Transparent address history records: the fixed-size byte layout of one record and the
//! queries and updates over the records stored for one address.
//!
//! A stored record is 51 bytes:
//! - `[0]` stored-entry version tag
//! - `[1]` record version tag
//! - `[2..=5]` block height (big-endian)
//! - `[6..=7]` transaction index (big-endian)
//! - `[8..=9]` output or input index (big-endian)
//! - `[10]` flags
//! - `[11..=18]` value (little-endian)
//! - `[19..=50]` checksum
use vstd::prelude::*;

use crate::encoding::{
    be_u16_at, be_u32_at, le_u64_at, le_u64_bytes, lemma_le_u64_roundtrip, read_be_u16,
    read_be_u32, read_le_u64,
};
use crate::checksum::{blake2b256, blake2b256_digest};
use crate::metadata::DecodeError;
use crate::types::TxLocation;

verus! {

/// Length of a versioned address script key: version tag, 20-byte script hash, script type.
pub const ADDR_SCRIPT_VERSIONED_LEN: usize = 22;

/// Length of a stored address history record.
pub const ADDR_HIST_ENTRY_LEN: usize = 51;

/// Version tag of the stored entry wrapping a record.
pub const STORED_ENTRY_VERSION: u8 = 1;

/// Version tag of the record itself.
pub const ADDR_EVENT_VERSION: u8 = 1;

/// The record is a mined transparent output.
pub const FLAG_MINED: u8 = 0x01;

/// The output record has been spent.
pub const FLAG_SPENT: u8 = 0x02;

/// The record is a transparent input.
pub const FLAG_IS_INPUT: u8 = 0x04;

/// Errors of the address history logic.
#[derive(Debug, PartialEq, Eq, Structural)]
pub enum AddrHistError {
    /// A stored key does not have the address script length.
    KeyLengthMismatch,
    /// A stored record does not have the record length.
    ValueLengthMismatch,
    /// A stored record carries unexpected version tags.
    VersionTagMismatch,
    /// Neither inputs nor outputs were selected for deletion.
    NothingSelected,
    /// Zero deletions were requested.
    ZeroExpected,
    /// The address has no records.
    NoRecordForKey,
    /// Fewer matching records than expected were found for deletion.
    DeleteCountMismatch { expected: usize, deleted: usize },
    /// The record to mark is an input record.
    MarkInputRecord,
    /// The record to mark is not a mined output record.
    MarkNonMinedRecord,
}

/// Block height of a record.
pub open spec fn record_height(v: Seq<u8>) -> nat {
    be_u32_at(v, 2)
}

/// Transaction index of a record.
pub open spec fn record_tx_index(v: Seq<u8>) -> nat {
    be_u16_at(v, 6)
}

/// Output or input index of a record.
pub open spec fn record_vout(v: Seq<u8>) -> nat {
    be_u16_at(v, 8)
}

/// Flags of a record.
pub open spec fn record_flags(v: Seq<u8>) -> u8 {
    v[10]
}

/// Value of a record.
pub open spec fn record_value(v: Seq<u8>) -> nat {
    le_u64_at(v, 11)
}

/// Transaction location of a record.
pub open spec fn record_location(v: Seq<u8>) -> TxLocation {
    TxLocation { block_height: record_height(v) as u32, tx_index: record_tx_index(v) as u16 }
}

/// A stored key/record pair with the expected sizes.
pub open spec fn well_sized(rec: (Vec<u8>, Vec<u8>)) -> bool {
    rec.0@.len() == ADDR_SCRIPT_VERSIONED_LEN && rec.1@.len() == ADDR_HIST_ENTRY_LEN
}

/// A well-sized record whose height lies in `[start, end]`.
pub open spec fn in_height_range(rec: (Vec<u8>, Vec<u8>), start: u32, end: u32) -> bool {
    well_sized(rec) && start <= record_height(rec.1@) <= end
}

/// Strict order of transaction locations: by height, then by index.
pub open spec fn location_lt(a: TxLocation, b: TxLocation) -> bool {
    a.block_height < b.block_height || (a.block_height == b.block_height && a.tx_index < b.tx_index)
}

/// Strictly increasing locations.
pub open spec fn strictly_sorted(s: Seq<TxLocation>) -> bool {
    forall|i: int, j: int| 0 <= i < j < s.len() ==> location_lt(#[trigger] s[i], #[trigger] s[j])
}

/// Inserts a location into a strictly increasing list, unless it is already there.
fn insert_location(v: &mut Vec<TxLocation>, loc: TxLocation)
    requires
        strictly_sorted(old(v)@),
    ensures
        strictly_sorted(final(v)@),
        forall|l: TxLocation| #[trigger] final(v)@.contains(l) <==> (old(v)@.contains(l) || l == loc),
{
    let mut p: usize = 0;
    while p < v.len() && location_lt_exec(&v[p], &loc)
        invariant
            0 <= p <= v@.len(),
            v@ == old(v)@,
            forall|k: int| 0 <= k < p ==> location_lt(#[trigger] v@[k], loc),
        decreases v@.len() - p,
    {
        p = p + 1;
    }
    if p < v.len() && v[p] == loc {
        assert(v@.contains(loc));
        return;
    }
    let ghost before = v@;
    v.insert(p, loc);
    assert forall|i: int, j: int| 0 <= i < j < v@.len() implies location_lt(#[trigger] v@[i], #[trigger] v@[j]) by {
        if j < p {
        } else if j == p {
        } else if i < p {
            assert(location_lt(v@[i], loc));
            assert(v@[j] == before[j - 1]);
            if j - 1 > p {
                assert(location_lt(before[p as int], before[j - 1]));
            }
        } else if i == p {
            assert(v@[j] == before[j - 1]);
            if j - 1 > p {
                assert(location_lt(before[p as int], before[j - 1]));
            }
        } else {
        }
    }
    assert forall|l: TxLocation| #[trigger] v@.contains(l) <==> (before.contains(l) || l == loc) by {
        if v@.contains(l) {
            let k = choose|k: int| 0 <= k < v@.len() && v@[k] == l;
            if k < p {
                assert(before[k] == l);
            } else if k > p {
                assert(before[k - 1] == l);
            }
        }
        if before.contains(l) {
            let k = choose|k: int| 0 <= k < before.len() && before[k] == l;
            if k < p {
                assert(v@[k] == l);
            } else {
                assert(v@[k + 1] == l);
            }
        }
        if l == loc {
            assert(v@[p as int] == l);
        }
    }
}

/// Executable form of [`location_lt`].
fn location_lt_exec(a: &TxLocation, b: &TxLocation) -> (r: bool)
    ensures
        r == location_lt(*a, *b),
{
    a.block_height < b.block_height || (a.block_height == b.block_height && a.tx_index < b.tx_index)
}

/// All distinct transaction locations of the records for one address whose height lies in
/// `[start_height, end_height]` (inclusive), in increasing order; `None` when there are none.
///
/// `records` are the key/record pairs stored for the address; pairs with unexpected sizes are
/// skipped.
pub fn addr_tx_locations_by_range(
    records: &[(Vec<u8>, Vec<u8>)],
    start_height: u32,
    end_height: u32,
) -> (r: Option<Vec<TxLocation>>)
    ensures
        r is None <==> !exists|i: int|
            0 <= i < records@.len() && in_height_range(#[trigger] records@[i], start_height, end_height),
        r matches Some(v) ==> {
            &&& strictly_sorted(v@)
            &&& forall|l: TxLocation| #[trigger]
                v@.contains(l) <==> exists|i: int|
                    0 <= i < records@.len() && in_height_range(
                        #[trigger] records@[i],
                        start_height,
                        end_height,
                    ) && record_location(records@[i].1@) == l
        },
{
    let mut locations: Vec<TxLocation> = Vec::new();
    let mut i: usize = 0;
    while i < records.len()
        invariant
            0 <= i <= records@.len(),
            strictly_sorted(locations@),
            forall|l: TxLocation| #[trigger]
                locations@.contains(l) <==> exists|k: int|
                    0 <= k < i && in_height_range(#[trigger] records@[k], start_height, end_height)
                        && record_location(records@[k].1@) == l,
            locations@.len() == 0 <==> !exists|k: int|
                0 <= k < i && in_height_range(#[trigger] records@[k], start_height, end_height),
        decreases records@.len() - i,
    {
        let (key, val) = (&records[i].0, &records[i].1);
        if key.len() == ADDR_SCRIPT_VERSIONED_LEN && val.len() == ADDR_HIST_ENTRY_LEN {
            let block_height = read_be_u32(val.as_slice(), 2);
            if block_height >= start_height && block_height <= end_height {
                let tx_index = read_be_u16(val.as_slice(), 6);
                let loc = TxLocation::new(block_height, tx_index);
                assert(loc == record_location(records@[i as int].1@));
                insert_location(&mut locations, loc);
                assert(locations@.contains(loc));
            }
        }
        i = i + 1;
    }
    if locations.len() == 0 {
        None
    } else {
        Some(locations)
    }
}

/// One unspent output of an address: location, output index, value.
pub open spec fn utxo_of(v: Seq<u8>) -> (TxLocation, u16, u64) {
    (record_location(v), record_vout(v) as u16, record_value(v) as u64)
}

/// A record in range that is a mined, unspent output.
pub open spec fn is_utxo_in_range(rec: (Vec<u8>, Vec<u8>), start: u32, end: u32) -> bool {
    in_height_range(rec, start, end) && record_flags(rec.1@) & FLAG_MINED != 0
        && record_flags(rec.1@) & FLAG_SPENT == 0
}

/// The unspent outputs among the first `n` records, in record order.
pub open spec fn utxo_list(records: Seq<(Vec<u8>, Vec<u8>)>, start: u32, end: u32, n: nat) -> Seq<
    (TxLocation, u16, u64),
>
    decreases n,
{
    if n == 0 {
        Seq::empty()
    } else if is_utxo_in_range(records[n - 1], start, end) {
        utxo_list(records, start, end, (n - 1) as nat).push(utxo_of(records[n - 1].1@))
    } else {
        utxo_list(records, start, end, (n - 1) as nat)
    }
}

/// All unspent mined outputs of the records for one address whose height lies in
/// `[start_height, end_height]` (inclusive), as `(location, vout, value)` in record order;
/// `None` when there are none.
pub fn addr_utxos_by_range(records: &[(Vec<u8>, Vec<u8>)], start_height: u32, end_height: u32) -> (r:
    Option<Vec<(TxLocation, u16, u64)>>)
    ensures
        match r {
            None => utxo_list(records@, start_height, end_height, records@.len()).len() == 0,
            Some(v) => v@ == utxo_list(records@, start_height, end_height, records@.len()) && v@.len()
                > 0,
        },
{
    let mut utxos: Vec<(TxLocation, u16, u64)> = Vec::new();
    let mut i: usize = 0;
    while i < records.len()
        invariant
            0 <= i <= records@.len(),
            utxos@ == utxo_list(records@, start_height, end_height, i as nat),
        decreases records@.len() - i,
    {
        let (key, val) = (&records[i].0, &records[i].1);
        if key.len() == ADDR_SCRIPT_VERSIONED_LEN && val.len() == ADDR_HIST_ENTRY_LEN {
            let block_height = read_be_u32(val.as_slice(), 2);
            if block_height >= start_height && block_height <= end_height {
                let flags = val[10];
                if !((flags & FLAG_MINED == 0) || (flags & FLAG_SPENT != 0)) {
                    let tx_index = read_be_u16(val.as_slice(), 6);
                    let vout = read_be_u16(val.as_slice(), 8);
                    let value = read_le_u64(val.as_slice(), 11);
                    utxos.push((TxLocation::new(block_height, tx_index), vout, value));
                }
            }
        }
        i = i + 1;
    }
    if utxos.len() == 0 {
        None
    } else {
        Some(utxos)
    }
}

/// The change that one record makes to the balance: minus its value for an input, plus its
/// value for a mined output, values taken as signed 64-bit integers.
pub open spec fn balance_delta(rec: (Vec<u8>, Vec<u8>), start: u32, end: u32) -> int {
    if !in_height_range(rec, start, end) {
        0
    } else if record_flags(rec.1@) & FLAG_IS_INPUT != 0 {
        -((record_value(rec.1@) as u64) as i64)
    } else if record_flags(rec.1@) & FLAG_MINED != 0 {
        (record_value(rec.1@) as u64) as i64 as int
    } else {
        0
    }
}

/// The balance change over the first `n` records.
pub open spec fn balance_sum(records: Seq<(Vec<u8>, Vec<u8>)>, start: u32, end: u32, n: nat) -> int
    decreases n,
{
    if n == 0 {
        0
    } else {
        balance_sum(records, start, end, (n - 1) as nat) + balance_delta(records[n - 1], start, end)
    }
}

/// The transparent balance change of one address over the height range
/// `[start_height, end_height]` (inclusive): `+value` for mined outputs, `-value` for spending
/// inputs, as a signed 64-bit sum.
///
/// `records` are the key/record pairs stored under the address; an address with no stored
/// records has no data, which is an error rather than a zero balance.
pub fn addr_balance_by_range(records: &[(Vec<u8>, Vec<u8>)], start_height: u32, end_height: u32) -> (r:
    Result<i64, AddrHistError>)
    requires
        forall|n: nat|
            n <= records@.len() ==> i64::MIN <= #[trigger] balance_sum(
                records@,
                start_height,
                end_height,
                n,
            ) <= i64::MAX,
    ensures
        records@.len() == 0 ==> r == Err::<i64, AddrHistError>(AddrHistError::NoRecordForKey),
        records@.len() > 0 ==> r == Ok::<i64, AddrHistError>(
            balance_sum(records@, start_height, end_height, records@.len()) as i64,
        ),
{
    if records.len() == 0 {
        return Err(AddrHistError::NoRecordForKey);
    }
    let mut balance: i64 = 0;
    let mut i: usize = 0;
    while i < records.len()
        invariant
            0 <= i <= records@.len(),
            balance == balance_sum(records@, start_height, end_height, i as nat),
            forall|n: nat|
                n <= records@.len() ==> i64::MIN <= #[trigger] balance_sum(
                    records@,
                    start_height,
                    end_height,
                    n,
                ) <= i64::MAX,
        decreases records@.len() - i,
    {
        let (key, val) = (&records[i].0, &records[i].1);
        assert(i64::MIN <= balance_sum(records@, start_height, end_height, (i + 1) as nat)
            <= i64::MAX);
        if key.len() == ADDR_SCRIPT_VERSIONED_LEN && val.len() == ADDR_HIST_ENTRY_LEN {
            let height = read_be_u32(val.as_slice(), 2);
            if height >= start_height && height <= end_height {
                let flags = val[10];
                let value = read_le_u64(val.as_slice(), 11) as i64;
                if flags & FLAG_IS_INPUT != 0 {
                    balance = balance - value;
                } else if flags & FLAG_MINED != 0 {
                    balance = balance + value;
                }
            }
        }
        i = i + 1;
    }
    Ok(balance)
}


/// Each record in the height range counts with its full 64-bit value.
///
/// Appending to the stored records a well-sized record in the range whose value bytes hold `v`
/// (at most `i64::MAX`) changes the balance by exactly `-v` for an input, `+v` for a mined
/// output, and nothing otherwise.
pub proof fn lemma_balance_counts_full_value(
    records: Seq<(Vec<u8>, Vec<u8>)>,
    start: u32,
    end: u32,
    v: u64,
)
    requires
        records.len() > 0,
        records.last().0@.len() == ADDR_SCRIPT_VERSIONED_LEN,
        records.last().1@.len() == ADDR_HIST_ENTRY_LEN,
        start <= record_height(records.last().1@) <= end,
        records.last().1@.subrange(11, 19) == le_u64_bytes(v),
        v <= i64::MAX,
    ensures
        balance_sum(records, start, end, records.len()) == balance_sum(
            records,
            start,
            end,
            (records.len() - 1) as nat,
        ) + if record_flags(records.last().1@) & FLAG_IS_INPUT != 0 {
            -(v as int)
        } else if record_flags(records.last().1@) & FLAG_MINED != 0 {
            v as int
        } else {
            0
        },
{
    let val = records.last().1@;
    lemma_le_u64_roundtrip(v);
    let b = le_u64_bytes(v);
    assert(le_u64_at(val, 11) == le_u64_at(b, 0)) by {
        assert(val[11] == b[0] && val[12] == b[1] && val[13] == b[2] && val[14] == b[3]);
        assert(val[15] == b[4] && val[16] == b[5] && val[17] == b[6] && val[18] == b[7]);
    }
    assert(records[records.len() - 1] == records.last());
}


// ---------------------------------------------------------------------------------------------
// Records at one transaction location
// ---------------------------------------------------------------------------------------------

/// Scans the first `n` records: fails on a malformed record, collects those at `loc` and stops
/// (the flag) at the first record past `loc`.
pub open spec fn location_scan(values: Seq<Vec<u8>>, loc: TxLocation, n: nat) -> Result<
    (Seq<Seq<u8>>, bool),
    AddrHistError,
>
    decreases n,
{
    if n == 0 {
        Ok((Seq::empty(), false))
    } else {
        match location_scan(values, loc, (n - 1) as nat) {
            Err(e) => Err(e),
            Ok((acc, stopped)) => if stopped {
                Ok((acc, true))
            } else {
                let v = values[n - 1]@;
                if v.len() != ADDR_HIST_ENTRY_LEN {
                    Err(AddrHistError::ValueLengthMismatch)
                } else if v[0] != STORED_ENTRY_VERSION || v[1] != ADDR_EVENT_VERSION {
                    Err(AddrHistError::VersionTagMismatch)
                } else if record_location(v) == loc {
                    Ok((acc.push(v), false))
                } else if location_lt(loc, record_location(v)) {
                    Ok((acc, true))
                } else {
                    Ok((acc, false))
                }
            },
        }
    }
}

/// Copies a byte vector.
fn copy_bytes(v: &Vec<u8>) -> (r: Vec<u8>)
    ensures
        r@ == v@,
{
    let mut out: Vec<u8> = Vec::new();
    let mut i: usize = 0;
    while i < v.len()
        invariant
            0 <= i <= v@.len(),
            out@ == v@.take(i as int),
        decreases v@.len() - i,
    {
        out.push(v[i]);
        i = i + 1;
        assert(out@ =~= v@.take(i as int));
    }
    assert(v@.take(i as int) =~= v@);
    out
}

/// All records of one address at `tx_location`.
///
/// `values` are the address's records in stored (ascending) order, starting where the cursor
/// was positioned. Each visited record is checked for length and version tags; records at the
/// location are collected, and the scan stops at the first record past it.
pub fn addr_hist_records_by_addr_and_index(values: &[Vec<u8>], tx_location: TxLocation) -> (r:
    Result<Vec<Vec<u8>>, AddrHistError>)
    ensures
        match r {
            Err(e) => location_scan(values@, tx_location, values@.len()) == Err::<
                (Seq<Seq<u8>>, bool),
                AddrHistError,
            >(e),
            Ok(found) => location_scan(values@, tx_location, values@.len()) matches Ok((s, _))
                && found@.len() == s.len() && forall|i: int|
                0 <= i < s.len() ==> (#[trigger] found@[i])@ == s[i],
        },
{
    let mut results: Vec<Vec<u8>> = Vec::new();
    let mut i: usize = 0;
    while i < values.len()
        invariant
            0 <= i <= values@.len(),
            location_scan(values@, tx_location, i as nat) matches Ok((s, stopped)) && !stopped
                && results@.len() == s.len() && forall|k: int|
                0 <= k < s.len() ==> (#[trigger] results@[k])@ == s[k],
        decreases values@.len() - i,
    {
        let ghost n = values@.len();
        let cur_val = &values[i];
        if cur_val.len() != ADDR_HIST_ENTRY_LEN {
            proof {
                lemma_location_scan_settled(values@, tx_location, (i + 1) as nat, n);
            }
            return Err(AddrHistError::ValueLengthMismatch);
        }
        if cur_val[0] != STORED_ENTRY_VERSION || cur_val[1] != ADDR_EVENT_VERSION {
            proof {
                lemma_location_scan_settled(values@, tx_location, (i + 1) as nat, n);
            }
            return Err(AddrHistError::VersionTagMismatch);
        }
        let block_index = read_be_u32(cur_val.as_slice(), 2);
        let tx_idx = read_be_u16(cur_val.as_slice(), 6);
        if block_index == tx_location.block_height && tx_idx == tx_location.tx_index {
            let copy = copy_bytes(cur_val);
            results.push(copy);
        } else if block_index > tx_location.block_height || (block_index
            == tx_location.block_height && tx_idx > tx_location.tx_index) {
            proof {
                lemma_location_scan_settled(values@, tx_location, (i + 1) as nat, n);
            }
            return Ok(results);
        }
        i = i + 1;
    }
    Ok(results)
}

/// Once the scan fails or stops, longer prefixes give the same outcome.
proof fn lemma_location_scan_settled(values: Seq<Vec<u8>>, loc: TxLocation, m: nat, n: nat)
    requires
        m <= n,
        location_scan(values, loc, m) is Err || location_scan(values, loc, m) matches Ok((_, true)),
    ensures
        location_scan(values, loc, n) == location_scan(values, loc, m),
    decreases n - m,
{
    if m < n {
        lemma_location_scan_settled(values, loc, m, (n - 1) as nat);
    }
}

// ---------------------------------------------------------------------------------------------
// Deleting records of one block
// ---------------------------------------------------------------------------------------------

/// A record of block `h` of a selected kind: an input when `inputs`, a mined output when
/// `outputs`.
pub open spec fn deletable(v: Seq<u8>, h: u32, inputs: bool, outputs: bool) -> bool {
    &&& v.len() == ADDR_HIST_ENTRY_LEN
    &&& record_height(v) == h
    &&& (inputs && record_flags(v) & FLAG_IS_INPUT != 0) || (outputs && record_flags(v) & FLAG_MINED
        != 0)
}

/// The positions deleted while walking back over the last `m` records, newest first, until
/// `expected` are deleted.
pub open spec fn deletion_list(
    values: Seq<Vec<u8>>,
    h: u32,
    inputs: bool,
    outputs: bool,
    expected: nat,
    m: nat,
) -> Seq<usize>
    decreases m,
{
    if m == 0 {
        Seq::empty()
    } else {
        let prev = deletion_list(values, h, inputs, outputs, expected, (m - 1) as nat);
        let k = values.len() - m;
        if prev.len() < expected && deletable(values[k]@, h, inputs, outputs) {
            prev.push(k as usize)
        } else {
            prev
        }
    }
}

/// Which records to delete, or why the deletion fails.
pub open spec fn spec_delete_addrhist_dups(
    values: Seq<Vec<u8>>,
    h: u32,
    inputs: bool,
    outputs: bool,
    expected: nat,
) -> Result<Seq<usize>, AddrHistError> {
    if !inputs && !outputs {
        Err(AddrHistError::NothingSelected)
    } else if expected == 0 {
        Err(AddrHistError::ZeroExpected)
    } else if values.len() == 0 {
        Err(AddrHistError::NoRecordForKey)
    } else {
        let d = deletion_list(values, h, inputs, outputs, expected, values.len());
        if d.len() == expected {
            Ok(d)
        } else {
            Err(AddrHistError::DeleteCountMismatch { expected: expected as usize, deleted: d.len() as usize })
        }
    }
}

/// The positions already deleted when the deletion fails: none when it fails before walking
/// the records, every matching record when fewer than `expected` match.
pub open spec fn deleted_on_failure(
    values: Seq<Vec<u8>>,
    h: u32,
    inputs: bool,
    outputs: bool,
    expected: nat,
) -> Seq<usize> {
    if (!inputs && !outputs) || expected == 0 || values.len() == 0 {
        Seq::empty()
    } else {
        deletion_list(values, h, inputs, outputs, expected, values.len())
    }
}

proof fn lemma_deletion_list_bounded(
    values: Seq<Vec<u8>>,
    h: u32,
    inputs: bool,
    outputs: bool,
    expected: nat,
    m: nat,
)
    ensures
        deletion_list(values, h, inputs, outputs, expected, m).len() <= expected,
        deletion_list(values, h, inputs, outputs, expected, m).len() <= m,
    decreases m,
{
    if m > 0 {
        lemma_deletion_list_bounded(values, h, inputs, outputs, expected, (m - 1) as nat);
    }
}

proof fn lemma_deletion_list_full(
    values: Seq<Vec<u8>>,
    h: u32,
    inputs: bool,
    outputs: bool,
    expected: nat,
    m: nat,
    n: nat,
)
    requires
        m <= n,
        deletion_list(values, h, inputs, outputs, expected, m).len() == expected,
    ensures
        deletion_list(values, h, inputs, outputs, expected, n) == deletion_list(
            values,
            h,
            inputs,
            outputs,
            expected,
            m,
        ),
    decreases n - m,
{
    if m < n {
        lemma_deletion_list_full(values, h, inputs, outputs, expected, m, (n - 1) as nat);
    }
}

/// Selects the address-history records of block `block_height` to delete: walking back from
/// the newest record, each record of the block that is an input (when `delete_inputs`) or a
/// mined output (when `delete_outputs`) is deleted until `expected` are deleted. Returns the
/// deleted positions in deletion order.
///
/// Fails when neither kind is selected, when `expected` is zero, when the address has no
/// records, or when fewer than `expected` records match. A failure carries the positions
/// already deleted: every matching record when too few match, so the caller must abandon the
/// deletions (abort its transaction); none otherwise.
pub fn delete_addrhist_dups(
    values: &[Vec<u8>],
    block_height: u32,
    delete_inputs: bool,
    delete_outputs: bool,
    expected: usize,
) -> (r: Result<Vec<usize>, (AddrHistError, Vec<usize>)>)
    ensures
        match r {
            Ok(d) => spec_delete_addrhist_dups(
                values@,
                block_height,
                delete_inputs,
                delete_outputs,
                expected as nat,
            ) == Ok::<Seq<usize>, AddrHistError>(d@),
            Err((e, d)) => spec_delete_addrhist_dups(
                values@,
                block_height,
                delete_inputs,
                delete_outputs,
                expected as nat,
            ) == Err::<Seq<usize>, AddrHistError>(e) && d@ == deleted_on_failure(
                values@,
                block_height,
                delete_inputs,
                delete_outputs,
                expected as nat,
            ),
        },
{
    if !delete_inputs && !delete_outputs {
        return Err((AddrHistError::NothingSelected, Vec::new()));
    }
    if expected == 0 {
        return Err((AddrHistError::ZeroExpected, Vec::new()));
    }
    if values.len() == 0 {
        return Err((AddrHistError::NoRecordForKey, Vec::new()));
    }
    let ghost len = values@.len();
    let mut deleted: Vec<usize> = Vec::new();
    let mut remaining = expected;
    let mut k = values.len();
    // Step backwards through the duplicates, newest first.
    while k > 0
        invariant
            0 <= k <= len,
            len == values@.len(),
            expected > 0,
            deleted@ == deletion_list(values@, block_height, delete_inputs, delete_outputs, expected as nat, (len - k) as nat),
            remaining + deleted@.len() == expected,
            remaining > 0,
        decreases k,
    {
        proof {
            lemma_deletion_list_bounded(values@, block_height, delete_inputs, delete_outputs, expected as nat, (len - k) as nat);
        }
        let val = &values[k - 1];
        if val.len() == ADDR_HIST_ENTRY_LEN && read_be_u32(val.as_slice(), 2) == block_height {
            let flags = val[10];
            let is_input = flags & FLAG_IS_INPUT != 0;
            let is_output = flags & FLAG_MINED != 0;
            if (delete_inputs && is_input) || (delete_outputs && is_output) {
                deleted.push(k - 1);
                remaining = remaining - 1;
                if remaining == 0 {
                    proof {
                        lemma_deletion_list_full(values@, block_height, delete_inputs, delete_outputs, expected as nat, (len - k + 1) as nat, len);
                    }
                    return Ok(deleted);
                }
            }
        }
        k = k - 1;
    }
    Err((AddrHistError::DeleteCountMismatch { expected, deleted: expected - remaining }, deleted))
}

// ---------------------------------------------------------------------------------------------
// Marking a record spent or unspent
// ---------------------------------------------------------------------------------------------

/// What marking a record did.
#[derive(Debug)]
pub enum MarkOutcome {
    /// No record equals the expected bytes.
    NotFound,
    /// The record already had the requested state.
    AlreadyMarked,
    /// The record at `position` is to be replaced by `record`.
    Updated { position: usize, record: Vec<u8> },
}

/// Mathematical view of the result of marking a record.
pub enum MarkView {
    NotFound,
    AlreadyMarked,
    Updated { position: int, record: Seq<u8> },
    Failed { error: AddrHistError },
}

/// View of an executable marking result.
pub open spec fn mark_view(r: Result<MarkOutcome, AddrHistError>) -> MarkView {
    match r {
        Ok(MarkOutcome::NotFound) => MarkView::NotFound,
        Ok(MarkOutcome::AlreadyMarked) => MarkView::AlreadyMarked,
        Ok(MarkOutcome::Updated { position, record }) => MarkView::Updated {
            position: position as int,
            record: record@,
        },
        Err(e) => MarkView::Failed { error: e },
    }
}

/// A record where the search for `expected` stops: a malformed one or the expected one.
pub open spec fn mark_stop(v: Seq<u8>, expected: Seq<u8>) -> bool {
    v.len() != ADDR_HIST_ENTRY_LEN || v == expected
}

/// The first position at or after `i` where the search stops, or the length when it does not.
pub open spec fn first_mark_stop(values: Seq<Vec<u8>>, expected: Seq<u8>, i: int) -> int
    decreases values.len() - i,
{
    if i >= values.len() {
        values.len() as int
    } else if mark_stop(values[i]@, expected) {
        i
    } else {
        first_mark_stop(values, expected, i + 1)
    }
}

/// A record with new flags and a checksum recomputed over the key and the record header.
pub open spec fn with_flags(addr: Seq<u8>, v: Seq<u8>, flags: u8) -> Seq<u8> {
    let body = v.update(10, flags).subrange(0, 19);
    body + blake2b256(addr + body.subrange(1, 19))@
}

/// The outcome of marking the record equal to `expected` spent (`spent`) or unspent.
pub open spec fn spec_mark(addr: Seq<u8>, values: Seq<Vec<u8>>, expected: Seq<u8>, spent: bool) -> MarkView {
    let q = first_mark_stop(values, expected, 0);
    if q >= values.len() {
        MarkView::NotFound
    } else {
        let v = values[q]@;
        let flags = record_flags(v);
        if v.len() != ADDR_HIST_ENTRY_LEN {
            MarkView::Failed { error: AddrHistError::ValueLengthMismatch }
        } else if flags & FLAG_IS_INPUT != 0 {
            MarkView::Failed { error: AddrHistError::MarkInputRecord }
        } else if spent && flags & FLAG_SPENT != 0 {
            MarkView::AlreadyMarked
        } else if !spent && flags & FLAG_SPENT == 0 {
            MarkView::AlreadyMarked
        } else if flags & FLAG_MINED == 0 {
            MarkView::Failed { error: AddrHistError::MarkNonMinedRecord }
        } else if spent {
            MarkView::Updated { position: q, record: with_flags(addr, v, flags | FLAG_SPENT) }
        } else {
            MarkView::Updated { position: q, record: with_flags(addr, v, flags & !FLAG_SPENT) }
        }
    }
}

/// Byte equality.
fn bytes_eq(a: &[u8], b: &[u8]) -> (r: bool)
    ensures
        r == (a@ == b@),
{
    if a.len() != b.len() {
        return false;
    }
    let mut i: usize = 0;
    while i < a.len()
        invariant
            0 <= i <= a@.len(),
            a@.len() == b@.len(),
            forall|k: int| 0 <= k < i ==> a@[k] == b@[k],
        decreases a@.len() - i,
    {
        if a[i] != b[i] {
            return false;
        }
        i = i + 1;
    }
    assert(a@ =~= b@);
    true
}

/// Builds the record with new flags and the recomputed checksum.
fn rebuild_record(addr_bytes: &[u8], v: &[u8], flags: u8) -> (r: Vec<u8>)
    requires
        v@.len() == ADDR_HIST_ENTRY_LEN,
    ensures
        r@ == with_flags(addr_bytes@, v@, flags),
{
    let mut body: Vec<u8> = Vec::new();
    let mut i: usize = 0;
    while i < 19
        invariant
            0 <= i <= 19,
            v@.len() == ADDR_HIST_ENTRY_LEN,
            body@ == v@.update(10, flags).subrange(0, i as int),
        decreases 19 - i,
    {
        if i == 10 {
            body.push(flags);
        } else {
            body.push(v[i]);
        }
        i = i + 1;
        assert(body@ =~= v@.update(10, flags).subrange(0, i as int));
    }
    let mut data: Vec<u8> = Vec::new();
    let mut j: usize = 0;
    while j < addr_bytes.len()
        invariant
            0 <= j <= addr_bytes@.len(),
            data@ == addr_bytes@.take(j as int),
        decreases addr_bytes@.len() - j,
    {
        data.push(addr_bytes[j]);
        j = j + 1;
        assert(data@ =~= addr_bytes@.take(j as int));
    }
    let mut m: usize = 1;
    while m < 19
        invariant
            1 <= m <= 19,
            body@.len() == 19,
            data@ == addr_bytes@ + body@.subrange(1, m as int),
        decreases 19 - m,
    {
        data.push(body[m]);
        m = m + 1;
        assert(data@ =~= addr_bytes@ + body@.subrange(1, m as int));
    }
    assert(addr_bytes@.take(addr_bytes@.len() as int) =~= addr_bytes@);
    let checksum = blake2b256_digest(data.as_slice());
    let mut c: usize = 0;
    while c < 32
        invariant
            0 <= c <= 32,
            body@ == v@.update(10, flags).subrange(0, 19) + checksum@.take(c as int),
        decreases 32 - c,
    {
        body.push(checksum[c]);
        c = c + 1;
        assert(body@ =~= v@.update(10, flags).subrange(0, 19) + checksum@.take(c as int));
    }
    assert(checksum@.take(32) =~= checksum@);
    body
}

/// Marks the record of one address that equals `expected_prev_entry_bytes` as spent
/// (`spent == true`) or unspent, returning the replacement record with its recomputed checksum.
///
/// `addr_bytes` is the address key and `values` its records in stored order. A malformed
/// record met before the expected one fails the search; an input record cannot be marked; a
/// record already in the requested state is left as it is; a record that is not a mined output
/// cannot be marked.
pub fn mark_addr_hist_record(
    addr_bytes: &[u8],
    values: &[Vec<u8>],
    expected_prev_entry_bytes: &[u8],
    spent: bool,
) -> (r: Result<MarkOutcome, AddrHistError>)
    ensures
        mark_view(r) == spec_mark(addr_bytes@, values@, expected_prev_entry_bytes@, spent),
{
    let mut i: usize = 0;
    while i < values.len()
        invariant
            0 <= i <= values@.len(),
            first_mark_stop(values@, expected_prev_entry_bytes@, 0) == first_mark_stop(
                values@,
                expected_prev_entry_bytes@,
                i as int,
            ),
        decreases values@.len() - i,
    {
        let val = &values[i];
        if val.len() != ADDR_HIST_ENTRY_LEN {
            return Err(AddrHistError::ValueLengthMismatch);
        }
        if bytes_eq(val.as_slice(), expected_prev_entry_bytes) {
            let flags = val[10];
            if (flags & FLAG_IS_INPUT) != 0 {
                return Err(AddrHistError::MarkInputRecord);
            }
            // Idempotent: the record already has the requested state.
            if spent && (flags & FLAG_SPENT) != 0 {
                return Ok(MarkOutcome::AlreadyMarked);
            }
            if !spent && (flags & FLAG_SPENT) == 0 {
                return Ok(MarkOutcome::AlreadyMarked);
            }
            if (flags & FLAG_MINED) == 0 {
                return Err(AddrHistError::MarkNonMinedRecord);
            }
            let new_flags = if spent {
                flags | FLAG_SPENT
            } else {
                flags & !FLAG_SPENT
            };
            let record = rebuild_record(addr_bytes, val.as_slice(), new_flags);
            return Ok(MarkOutcome::Updated { position: i, record });
        }
        i = i + 1;
    }
    Ok(MarkOutcome::NotFound)
}


/// Marking a record unspent undoes marking it spent.
///
/// For a well-formed unspent mined-output record `v` of address `addr` (its checksum matches),
/// marking it spent gives a record that the spent-marking search finds in its place, and
/// marking that record unspent gives `v` back.
pub proof fn lemma_unspent_undoes_spent(addr: Seq<u8>, v: Seq<u8>)
    requires
        v.len() == ADDR_HIST_ENTRY_LEN,
        record_flags(v) & FLAG_IS_INPUT == 0,
        record_flags(v) & FLAG_MINED != 0,
        record_flags(v) & FLAG_SPENT == 0,
        v.subrange(19, 51) == blake2b256(addr + v.subrange(1, 19))@,
    ensures
        ({
            let w = with_flags(addr, v, record_flags(v) | FLAG_SPENT);
            &&& w.len() == ADDR_HIST_ENTRY_LEN
            &&& record_flags(w) & FLAG_SPENT != 0
            &&& record_flags(w) & FLAG_IS_INPUT == 0
            &&& record_flags(w) & FLAG_MINED != 0
            &&& with_flags(addr, w, record_flags(w) & !FLAG_SPENT) == v
        }),
{
    let f = record_flags(v);
    let g = f | FLAG_SPENT;
    assert(g & FLAG_SPENT != 0 && g & FLAG_IS_INPUT == 0 && g & FLAG_MINED != 0 && g & !FLAG_SPENT == f) by (bit_vector)
        requires
            g == f | 2u8,
            f & 4u8 == 0,
            f & 1u8 != 0,
            f & 2u8 == 0,
    ;
    let w = with_flags(addr, v, g);
    let body_w = v.update(10, g).subrange(0, 19);
    assert(w.len() == 51);
    assert(w[10] == g);
    let back_body = w.update(10, f).subrange(0, 19);
    assert(back_body =~= v.subrange(0, 19));
    assert(back_body.subrange(1, 19) =~= v.subrange(1, 19));
    assert(with_flags(addr, w, f) =~= v);
}


/// Where the search stops, every record before it is a well-sized record other than the
/// expected one, and the record there stops the search.
proof fn lemma_first_mark_stop_before(values: Seq<Vec<u8>>, expected: Seq<u8>, i: int)
    requires
        0 <= i,
        first_mark_stop(values, expected, i) < values.len(),
    ensures
        i <= first_mark_stop(values, expected, i),
        mark_stop(values[first_mark_stop(values, expected, i)]@, expected),
        forall|j: int|
            i <= j < first_mark_stop(values, expected, i) ==> !mark_stop(
                #[trigger] values[j]@,
                expected,
            ),
    decreases values.len() - i,
{
    if i < values.len() && !mark_stop(values[i]@, expected) {
        lemma_first_mark_stop_before(values, expected, i + 1);
    }
}

/// The search stops at `p` when no record before it stops it and the record at `p` does.
proof fn lemma_first_mark_stop_at(values: Seq<Vec<u8>>, expected: Seq<u8>, i: int, p: int)
    requires
        0 <= i <= p < values.len(),
        mark_stop(values[p]@, expected),
        forall|j: int| i <= j < p ==> !mark_stop(#[trigger] values[j]@, expected),
    ensures
        first_mark_stop(values, expected, i) == p,
    decreases p - i,
{
    if i < p {
        lemma_first_mark_stop_at(values, expected, i + 1, p);
    }
}

/// Marking a stored record unspent restores what marking it spent replaced.
///
/// When marking the well-formed unspent mined-output record `v` of address `addr` spent
/// replaces the record at position `p` by `w`, and `w` is written back in its place, then
/// marking `w` unspent in the resulting records replaces the record at `p` by `v` again, byte
/// for byte. No record before `p` may already equal `w`, since the search would stop there.
pub proof fn lemma_mark_unspent_restores_record(
    addr: Seq<u8>,
    values: Seq<Vec<u8>>,
    v: Seq<u8>,
    replaced: Seq<Vec<u8>>,
    p: int,
    w: Seq<u8>,
)
    requires
        v.len() == ADDR_HIST_ENTRY_LEN,
        record_flags(v) & FLAG_IS_INPUT == 0,
        record_flags(v) & FLAG_MINED != 0,
        record_flags(v) & FLAG_SPENT == 0,
        v.subrange(19, 51) == blake2b256(addr + v.subrange(1, 19))@,
        spec_mark(addr, values, v, true) == (MarkView::Updated { position: p, record: w }),
        replaced.len() == values.len(),
        replaced[p]@ == w,
        forall|i: int| 0 <= i < values.len() && i != p ==> #[trigger] replaced[i] == values[i],
        forall|i: int| 0 <= i < p ==> (#[trigger] values[i])@ != w,
    ensures
        spec_mark(addr, replaced, w, false) == (MarkView::Updated { position: p, record: v }),
{
    lemma_first_mark_stop_before(values, v, 0);
    let q = first_mark_stop(values, v, 0);
    assert(q == p);
    assert(values[p]@ == v);
    lemma_unspent_undoes_spent(addr, v);
    assert forall|j: int| 0 <= j < p implies !mark_stop(#[trigger] replaced[j]@, w) by {
        assert(replaced[j] == values[j]);
        assert(!mark_stop(values[j]@, v));
    }
    lemma_first_mark_stop_at(replaced, w, 0, p);
}


// ---------------------------------------------------------------------------------------------
// Decoded records
// ---------------------------------------------------------------------------------------------

/// The payload of an address history record: location, index, flags and value, as stored.
#[derive(Clone, Copy, Debug, PartialEq, Eq)]
pub struct AddrEventBytes(pub [u8; 17]);

/// Decoding a stored record (entry tag, record tag, payload, checksum) into its payload.
pub open spec fn spec_decode_record(v: Seq<u8>) -> Result<Seq<u8>, DecodeError> {
    if v.len() < 1 {
        Err(DecodeError::UnexpectedEof)
    } else if v[0] != STORED_ENTRY_VERSION {
        Err(DecodeError::UnsupportedVersion(v[0]))
    } else if v.len() < 2 {
        Err(DecodeError::UnexpectedEof)
    } else if v[1] != ADDR_EVENT_VERSION {
        Err(DecodeError::UnsupportedVersion(v[1]))
    } else if v.len() < ADDR_HIST_ENTRY_LEN {
        Err(DecodeError::UnexpectedEof)
    } else {
        Ok(v.subrange(2, 19))
    }
}

/// Decodes a stored record into its payload.
pub fn decode_addr_hist_record(v: &[u8]) -> (r: Result<AddrEventBytes, DecodeError>)
    ensures
        match r {
            Ok(e) => spec_decode_record(v@) == Ok::<Seq<u8>, DecodeError>(e.0@),
            Err(e) => spec_decode_record(v@) == Err::<Seq<u8>, DecodeError>(e),
        },
{
    if v.len() < 1 {
        return Err(DecodeError::UnexpectedEof);
    }
    if v[0] != STORED_ENTRY_VERSION {
        return Err(DecodeError::UnsupportedVersion(v[0]));
    }
    if v.len() < 2 {
        return Err(DecodeError::UnexpectedEof);
    }
    if v[1] != ADDR_EVENT_VERSION {
        return Err(DecodeError::UnsupportedVersion(v[1]));
    }
    if v.len() < ADDR_HIST_ENTRY_LEN {
        return Err(DecodeError::UnexpectedEof);
    }
    Ok(record_payload(v))
}

/// The payload bytes of a record long enough to hold one.
fn record_payload(v: &[u8]) -> (r: AddrEventBytes)
    requires
        v@.len() >= ADDR_HIST_ENTRY_LEN,
    ensures
        r.0@ == v@.subrange(2, 19),
{
    let mut payload = [0u8; 17];
    let mut k: usize = 0;
    while k < 17
        invariant
            0 <= k <= 17,
            v@.len() >= ADDR_HIST_ENTRY_LEN,
            payload@.len() == 17,
            forall|j: int| 0 <= j < k ==> payload@[j] == v@[2 + j],
        decreases 17 - k,
    {
        payload[k] = v[2 + k];
        k = k + 1;
    }
    assert(payload@ =~= v@.subrange(2, 19));
    AddrEventBytes(payload)
}

/// The well-sized records among the first `n` pairs, in order.
pub open spec fn well_sized_values(records: Seq<(Vec<u8>, Vec<u8>)>, n: nat) -> Seq<Seq<u8>>
    decreases n,
{
    if n == 0 {
        Seq::empty()
    } else if well_sized(records[n - 1]) {
        well_sized_values(records, (n - 1) as nat).push(records[n - 1].1@)
    } else {
        well_sized_values(records, (n - 1) as nat)
    }
}

/// Decoding a list of records: the payloads in order, or the first decoding error.
pub open spec fn decode_all(values: Seq<Seq<u8>>, n: nat) -> Result<Seq<Seq<u8>>, DecodeError>
    decreases n,
{
    if n == 0 {
        Ok(Seq::empty())
    } else {
        match decode_all(values, (n - 1) as nat) {
            Err(e) => Err(e),
            Ok(acc) => match spec_decode_record(values[n - 1]) {
                Err(e) => Err(e),
                Ok(p) => Ok(acc.push(p)),
            },
        }
    }
}

/// The payloads of a decoded list, as sequences.
pub open spec fn payloads(v: Seq<AddrEventBytes>) -> Seq<Seq<u8>> {
    v.map_values(|e: AddrEventBytes| e.0@)
}

proof fn lemma_decode_all_err_persists(values: Seq<Seq<u8>>, m: nat, n: nat)
    requires
        m <= n,
        decode_all(values, m) is Err,
    ensures
        decode_all(values, n) == decode_all(values, m),
    decreases n - m,
{
    if m < n {
        lemma_decode_all_err_persists(values, m, (n - 1) as nat);
    }
}

/// Decodes records in order, stopping at the first that does not decode.
fn decode_records(values: &Vec<Vec<u8>>) -> (r: Result<Vec<AddrEventBytes>, DecodeError>)
    ensures
        match r {
            Ok(v) => decode_all(values@.map_values(|x: Vec<u8>| x@), values@.len()) == Ok::<
                Seq<Seq<u8>>,
                DecodeError,
            >(payloads(v@)),
            Err(e) => decode_all(values@.map_values(|x: Vec<u8>| x@), values@.len()) == Err::<
                Seq<Seq<u8>>,
                DecodeError,
            >(e),
        },
{
    let ghost vs = values@.map_values(|x: Vec<u8>| x@);
    let mut out: Vec<AddrEventBytes> = Vec::new();
    assert(payloads(out@) =~= Seq::<Seq<u8>>::empty());
    let mut i: usize = 0;
    while i < values.len()
        invariant
            0 <= i <= values@.len(),
            vs == values@.map_values(|x: Vec<u8>| x@),
            decode_all(vs, i as nat) == Ok::<Seq<Seq<u8>>, DecodeError>(payloads(out@)),
        decreases values@.len() - i,
    {
        assert(vs[i as int] == values@[i as int]@);
        match decode_addr_hist_record(values[i].as_slice()) {
            Ok(e) => {
                let ghost prev = out@;
                out.push(e);
                assert(out@.drop_last() =~= prev);
                assert(payloads(out@) =~= payloads(prev).push(e.0@));
            },
            Err(e) => {
                proof {
                    lemma_decode_all_err_persists(vs, (i + 1) as nat, values@.len());
                }
                return Err(e);
            },
        }
        i = i + 1;
    }
    Ok(out)
}


/// The stored records of one address, decoded: `None` when no well-sized record is stored.
///
/// `records` are the key/record pairs stored under the address, in stored order. Pairs whose
/// key or record does not have the expected length are skipped; the others are decoded in
/// order, and the first that does not decode fails the whole query.
pub fn addr_records(records: &[(Vec<u8>, Vec<u8>)]) -> (r: Result<
    Option<Vec<AddrEventBytes>>,
    DecodeError,
>)
    ensures
        ({
            let ws = well_sized_values(records@, records@.len());
            match r {
                Ok(None) => ws.len() == 0,
                Ok(Some(v)) => ws.len() > 0 && decode_all(ws, ws.len()) == Ok::<
                    Seq<Seq<u8>>,
                    DecodeError,
                >(payloads(v@)),
                Err(e) => ws.len() > 0 && decode_all(ws, ws.len()) == Err::<
                    Seq<Seq<u8>>,
                    DecodeError,
                >(e),
            }
        }),
{
    let mut raw: Vec<Vec<u8>> = Vec::new();
    let mut i: usize = 0;
    while i < records.len()
        invariant
            0 <= i <= records@.len(),
            raw@.map_values(|x: Vec<u8>| x@) == well_sized_values(records@, i as nat),
        decreases records@.len() - i,
    {
        let ghost prev = raw@;
        let (key, val) = (&records[i].0, &records[i].1);
        if key.len() == ADDR_SCRIPT_VERSIONED_LEN && val.len() == ADDR_HIST_ENTRY_LEN {
            let copy = copy_bytes(val);
            raw.push(copy);
            assert(raw@.map_values(|x: Vec<u8>| x@) =~= prev.map_values(|x: Vec<u8>| x@).push(
                val@,
            ));
        }
        i = i + 1;
    }
    if raw.len() == 0 {
        return Ok(None);
    }
    match decode_records(&raw) {
        Ok(v) => Ok(Some(v)),
        Err(e) => Err(e),
    }
}

/// The records collected by a location scan are well-formed records at that location.
pub proof fn lemma_location_scan_records(values: Seq<Vec<u8>>, loc: TxLocation, n: nat)
    requires
        n <= values.len(),
        location_scan(values, loc, n) is Ok,
    ensures
        location_scan(values, loc, n) matches Ok((s, _)) && forall|i: int|
            0 <= i < s.len() ==> {
                &&& (#[trigger] s[i]).len() == ADDR_HIST_ENTRY_LEN
                &&& s[i][0] == STORED_ENTRY_VERSION
                &&& s[i][1] == ADDR_EVENT_VERSION
                &&& record_location(s[i]) == loc
            },
    decreases n,
{
    if n > 0 {
        lemma_location_scan_records(values, loc, (n - 1) as nat);
    }
}

/// The records of one address at one transaction location, decoded: `None` when there are none.
///
/// `values` are the address's records in stored order, starting where the cursor was
/// positioned (see [`addr_hist_records_by_addr_and_index`]).
pub fn addr_and_index_records(values: &[Vec<u8>], tx_location: TxLocation) -> (r: Result<
    Option<Vec<AddrEventBytes>>,
    AddrHistError,
>)
    ensures
        match location_scan(values@, tx_location, values@.len()) {
            Err(e) => r == Err::<Option<Vec<AddrEventBytes>>, AddrHistError>(e),
            Ok((s, _)) => if s.len() == 0 {
                r == Ok::<Option<Vec<AddrEventBytes>>, AddrHistError>(None)
            } else {
                r matches Ok(Some(v)) && payloads(v@) == s.map_values(
                    |x: Seq<u8>| x.subrange(2, 19),
                )
            },
        },
{
    let found = match addr_hist_records_by_addr_and_index(values, tx_location) {
        Ok(f) => f,
        Err(e) => return Err(e),
    };
    proof {
        lemma_location_scan_records(values@, tx_location, values@.len());
    }
    let ghost s = location_scan(values@, tx_location, values@.len())->Ok_0.0;
    if found.len() == 0 {
        return Ok(None);
    }
    let mut out: Vec<AddrEventBytes> = Vec::new();
    assert(payloads(out@) =~= s.take(0).map_values(|x: Seq<u8>| x.subrange(2, 19)));
    let mut i: usize = 0;
    while i < found.len()
        invariant
            0 <= i <= found@.len(),
            found@.len() == s.len(),
            forall|k: int| 0 <= k < s.len() ==> (#[trigger] found@[k])@ == s[k],
            forall|k: int|
                0 <= k < s.len() ==> {
                    &&& (#[trigger] s[k]).len() == ADDR_HIST_ENTRY_LEN
                    &&& s[k][0] == STORED_ENTRY_VERSION
                    &&& s[k][1] == ADDR_EVENT_VERSION
                },
            payloads(out@) == s.take(i as int).map_values(|x: Seq<u8>| x.subrange(2, 19)),
        decreases found@.len() - i,
    {
        assert(found@[i as int]@ == s[i as int]);
        let e = record_payload(found[i].as_slice());
        let ghost prev = out@;
        out.push(e);
        assert(out@.drop_last() =~= prev);
        assert(payloads(out@) =~= payloads(prev).push(e.0@));
        assert(s.take(i + 1) =~= s.take(i as int).push(s[i as int]));
        assert(s.take(i + 1).map_values(|x: Seq<u8>| x.subrange(2, 19)) =~= s.take(
            i as int,
        ).map_values(|x: Seq<u8>| x.subrange(2, 19)).push(s[i as int].subrange(2, 19)));
        i = i + 1;
    }
    assert(s.take(s.len() as int) =~= s);
    Ok(Some(out))
}

/// The records among the first `n` that are at `loc`, in order.
pub open spec fn records_at(values: Seq<Vec<u8>>, loc: TxLocation, n: nat) -> Seq<Seq<u8>>
    decreases n,
{
    if n == 0 {
        Seq::empty()
    } else if record_location(values[n - 1]@) == loc {
        records_at(values, loc, (n - 1) as nat).push(values[n - 1]@)
    } else {
        records_at(values, loc, (n - 1) as nat)
    }
}

/// Every record has the record length and the expected version tags.
pub open spec fn well_formed_records(values: Seq<Vec<u8>>) -> bool {
    forall|i: int|
        0 <= i < values.len() ==> {
            &&& (#[trigger] values[i])@.len() == ADDR_HIST_ENTRY_LEN
            &&& values[i]@[0] == STORED_ENTRY_VERSION
            &&& values[i]@[1] == ADDR_EVENT_VERSION
        }
}

/// Records are in non-decreasing order of their transaction location, as stored.
pub open spec fn sorted_by_location(values: Seq<Vec<u8>>) -> bool {
    forall|i: int, j: int|
        0 <= i < j < values.len() ==> !location_lt(
            record_location(#[trigger] values[j]@),
            record_location(#[trigger] values[i]@),
        )
}

proof fn lemma_location_scan_prefix(values: Seq<Vec<u8>>, loc: TxLocation, n: nat)
    requires
        n <= values.len(),
        well_formed_records(values),
        sorted_by_location(values),
    ensures
        location_scan(values, loc, n) matches Ok((s, stopped)) && s == records_at(values, loc, n)
            && (stopped ==> exists|j: int|
            0 <= j < n && location_lt(loc, record_location(#[trigger] values[j]@))),
    decreases n,
{
    if n > 0 {
        lemma_location_scan_prefix(values, loc, (n - 1) as nat);
        let k = n - 1;
        assert(values[k as int]@.len() == ADDR_HIST_ENTRY_LEN);
        if location_scan(values, loc, k as nat) matches Ok((_, true)) {
            let j = choose|j: int| 0 <= j < k && location_lt(loc, record_location(#[trigger] values[j]@));
            assert(!location_lt(record_location(values[k as int]@), record_location(values[j]@)));
        }
    }
}

/// On well-formed records stored in location order, the scan that stops at the first record
/// past the location finds exactly the records at the location, in order.
pub proof fn lemma_location_scan_finds_all(values: Seq<Vec<u8>>, loc: TxLocation)
    requires
        well_formed_records(values),
        sorted_by_location(values),
    ensures
        location_scan(values, loc, values.len()) matches Ok((s, _)) && s == records_at(
            values,
            loc,
            values.len(),
        ),
{
    lemma_location_scan_prefix(values, loc, values.len());
}

} // verus!
