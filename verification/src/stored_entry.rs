//! Fixed-size stored entries: a version tag, the versioned item and a checksum over the
//! entry's key and the item's encoding.
use vstd::prelude::*;

use crate::checksum::{blake2b256, blake2b256_digest};
use crate::encoding::{be_u16_at, be_u32_at, read_be_u16, read_be_u32};
use crate::metadata::{
    accumulator_body, spec_accumulator_from_bytes, DecodeError, FinalisedTxOutSetInfoAccumulator,
};
use crate::types::TxLocation;

verus! {

/// Version tag of a stored entry.
pub const STORED_ENTRY_FIXED_VERSION: u8 = 1;

/// Length of a stored entry's checksum.
pub const STORED_CHECKSUM_LEN: usize = 32;

/// Version tag of a transaction location encoding.
pub const TX_LOCATION_VERSION: u8 = 1;

/// Length of a versioned transaction location: tag, height (big-endian), index (big-endian).
pub const TX_LOCATION_VERSIONED_LEN: usize = 7;

/// Why a stored entry could not be read.
#[derive(Debug, PartialEq, Eq, Structural)]
pub enum StoredEntryError {
    /// The database holds no entry for the key.
    DataUnavailable,
    /// The entry's bytes do not decode.
    Decode(DecodeError),
    /// The entry's checksum does not match its key and item.
    ChecksumMismatch,
}

/// Decoding a stored entry holding a transaction location.
pub open spec fn spec_tx_location_entry(s: Seq<u8>) -> Result<TxLocation, DecodeError> {
    if s.len() < 1 || (s[0] == STORED_ENTRY_FIXED_VERSION && s.len() < 2) {
        Err(DecodeError::UnexpectedEof)
    } else if s[0] != STORED_ENTRY_FIXED_VERSION {
        Err(DecodeError::UnsupportedVersion(s[0]))
    } else if s[1] != TX_LOCATION_VERSION {
        Err(DecodeError::UnsupportedVersion(s[1]))
    } else if s.len() < 1 + TX_LOCATION_VERSIONED_LEN + STORED_CHECKSUM_LEN {
        Err(DecodeError::UnexpectedEof)
    } else {
        Ok(TxLocation { block_height: be_u32_at(s, 2) as u32, tx_index: be_u16_at(s, 6) as u16 })
    }
}

/// Decodes a stored entry holding a transaction location (the spent index's value).
pub fn decode_tx_location_entry(bytes: &[u8]) -> (r: Result<TxLocation, DecodeError>)
    ensures
        r == spec_tx_location_entry(bytes@),
{
    if bytes.len() < 1 {
        return Err(DecodeError::UnexpectedEof);
    }
    if bytes[0] != STORED_ENTRY_FIXED_VERSION {
        return Err(DecodeError::UnsupportedVersion(bytes[0]));
    }
    if bytes.len() < 2 {
        return Err(DecodeError::UnexpectedEof);
    }
    if bytes[1] != TX_LOCATION_VERSION {
        return Err(DecodeError::UnsupportedVersion(bytes[1]));
    }
    if bytes.len() < 1 + TX_LOCATION_VERSIONED_LEN + STORED_CHECKSUM_LEN {
        return Err(DecodeError::UnexpectedEof);
    }
    let block_height = read_be_u32(bytes, 2);
    let tx_index = read_be_u16(bytes, 6);
    Ok(TxLocation { block_height, tx_index })
}

/// The spender of an outpoint from the spent index: `None` when the index holds no entry.
pub fn decode_outpoint_spender(stored: Option<&[u8]>) -> (r: Result<Option<TxLocation>, DecodeError>)
    ensures
        match stored {
            None => r == Ok::<Option<TxLocation>, DecodeError>(None),
            Some(b) => match spec_tx_location_entry(b@) {
                Ok(l) => r == Ok::<Option<TxLocation>, DecodeError>(Some(l)),
                Err(e) => r == Err::<Option<TxLocation>, DecodeError>(e),
            },
        },
{
    match stored {
        Some(bytes) => match decode_tx_location_entry(bytes) {
            Ok(l) => Ok(Some(l)),
            Err(e) => Err(e),
        },
        None => Ok(None),
    }
}

/// The decoding error of an optional stored spent-index entry, if any.
pub open spec fn entry_error(entry: Option<Vec<u8>>) -> Option<DecodeError> {
    match entry {
        Some(b) => match spec_tx_location_entry(b@) {
            Err(e) => Some(e),
            Ok(_) => None,
        },
        None => None,
    }
}

/// The spenders of a batch of outpoints from their spent-index entries, in order; the first
/// undecodable entry fails the batch.
pub fn decode_outpoint_spenders(stored: &[Option<Vec<u8>>]) -> (r: Result<
    Vec<Option<TxLocation>>,
    DecodeError,
>)
    ensures
        match r {
            Ok(v) => v@.len() == stored@.len() && forall|i: int|
                0 <= i < stored@.len() ==> match stored@[i] {
                    None => (#[trigger] v@[i]) is None,
                    Some(b) => spec_tx_location_entry(b@) == Ok::<TxLocation, DecodeError>(
                        v@[i]->0,
                    ) && v@[i] is Some,
                },
            Err(e) => exists|i: int|
                0 <= i < stored@.len() && #[trigger] entry_error(stored@[i]) == Some(e) && forall|
                    j: int,
                | 0 <= j < i ==> entry_error(#[trigger] stored@[j]) is None,
        },
{
    let mut out: Vec<Option<TxLocation>> = Vec::new();
    let mut i: usize = 0;
    while i < stored.len()
        invariant
            0 <= i <= stored@.len(),
            out@.len() == i,
            forall|k: int|
                0 <= k < i ==> match stored@[k] {
                    None => (#[trigger] out@[k]) is None,
                    Some(b) => spec_tx_location_entry(b@) == Ok::<TxLocation, DecodeError>(
                        out@[k]->0,
                    ) && out@[k] is Some,
                },
        decreases stored@.len() - i,
    {
        let entry = match &stored[i] {
            Some(bytes) => match decode_tx_location_entry(bytes.as_slice()) {
                Ok(l) => Some(l),
                Err(e) => {
                    proof {
                        assert(entry_error(stored@[i as int]) == Some(e));
                        assert forall|j: int| 0 <= j < i implies entry_error(#[trigger] stored@[j]) is None by {
                            assert(out@[j] == out@[j]);
                        }
                    }
                    return Err(e);
                },
            },
            None => None,
        };
        out.push(entry);
        i = i + 1;
    }
    Ok(out)
}

/// The versioned encoding of an accumulator.
pub open spec fn accumulator_versioned(a: FinalisedTxOutSetInfoAccumulator) -> Seq<u8> {
    seq![FinalisedTxOutSetInfoAccumulator::VERSION] + accumulator_body(a)
}

/// Reading the stored accumulator entry for `key`: missing, undecodable, failing its checksum
/// (over the key and the item's encoding), or the accumulator.
pub open spec fn spec_read_accumulator(raw: Option<Seq<u8>>, key: Seq<u8>) -> Result<
    FinalisedTxOutSetInfoAccumulator,
    StoredEntryError,
> {
    match raw {
        None => Err(StoredEntryError::DataUnavailable),
        Some(s) => if s.len() < 1 {
            Err(StoredEntryError::Decode(DecodeError::UnexpectedEof))
        } else if s[0] != STORED_ENTRY_FIXED_VERSION {
            Err(StoredEntryError::Decode(DecodeError::UnsupportedVersion(s[0])))
        } else {
            match spec_accumulator_from_bytes(s.subrange(1, s.len() as int)) {
                Err(e) => Err(StoredEntryError::Decode(e)),
                Ok(a) => if s.len() < 1 + FinalisedTxOutSetInfoAccumulator::VERSIONED_LEN
                    + STORED_CHECKSUM_LEN {
                    Err(StoredEntryError::Decode(DecodeError::UnexpectedEof))
                } else if s.subrange(18, 50) != blake2b256(key + accumulator_versioned(a))@ {
                    Err(StoredEntryError::ChecksumMismatch)
                } else {
                    Ok(a)
                },
            }
        },
    }
}

/// Reads the finalised-state txout-set accumulator from its singleton stored entry.
///
/// `raw` is the stored value (`None` when the database holds none) and `key` the entry's key.
/// This does not compute or repair the accumulator.
#[verifier::loop_isolation(false)]
pub fn read_tx_out_set_info_accumulator(raw: Option<&[u8]>, key: &[u8]) -> (r: Result<
    FinalisedTxOutSetInfoAccumulator,
    StoredEntryError,
>)
    ensures
        r == spec_read_accumulator(
            match raw {
                Some(b) => Some(b@),
                None => None,
            },
            key@,
        ),
{
    let bytes = match raw {
        Some(b) => b,
        None => return Err(StoredEntryError::DataUnavailable),
    };
    if bytes.len() < 1 {
        return Err(StoredEntryError::Decode(DecodeError::UnexpectedEof));
    }
    if bytes[0] != STORED_ENTRY_FIXED_VERSION {
        return Err(StoredEntryError::Decode(DecodeError::UnsupportedVersion(bytes[0])));
    }
    let item_bytes = slice_from(bytes, 1);
    let accumulator = match FinalisedTxOutSetInfoAccumulator::from_bytes(item_bytes.as_slice()) {
        Ok(a) => a,
        Err(e) => return Err(StoredEntryError::Decode(e)),
    };
    if bytes.len() < 1 + FinalisedTxOutSetInfoAccumulator::VERSIONED_LEN + STORED_CHECKSUM_LEN {
        return Err(StoredEntryError::Decode(DecodeError::UnexpectedEof));
    }
    // The checksum covers the key followed by the item's encoding.
    let body = match accumulator.to_bytes() {
        Ok(b) => b,
        Err(e) => return Err(StoredEntryError::Decode(e)),
    };
    let mut data = slice_from(key, 0);
    let mut j: usize = 0;
    while j < body.len()
        invariant
            0 <= j <= body@.len(),
            data@ == key@ + body@.take(j as int),
        decreases body@.len() - j,
    {
        data.push(body[j]);
        j = j + 1;
        assert(data@ =~= key@ + body@.take(j as int));
    }
    assert(body@.take(j as int) =~= body@);
    assert(key@.subrange(0, key@.len() as int) =~= key@);
    let candidate = blake2b256_digest(data.as_slice());
    assert(body@ == accumulator_versioned(accumulator));
    assert(candidate == blake2b256(key@ + accumulator_versioned(accumulator)));
    let mut k: usize = 0;
    while k < STORED_CHECKSUM_LEN
        invariant
            0 <= k <= 32,
            bytes@.len() >= 50,
            candidate == blake2b256(key@ + accumulator_versioned(accumulator)),
            forall|m: int| 0 <= m < k ==> candidate@[m] == bytes@[18 + m],
        decreases 32 - k,
    {
        if candidate[k] != bytes[18 + k] {
            assert(bytes@.subrange(18, 50)[k as int] != candidate@[k as int]);
            return Err(StoredEntryError::ChecksumMismatch);
        }
        k = k + 1;
    }
    assert(bytes@.subrange(18, 50) =~= candidate@);
    Ok(accumulator)
}

/// Copies the bytes of `s` from position `from` on.
fn slice_from(s: &[u8], from: usize) -> (r: Vec<u8>)
    requires
        from <= s@.len(),
    ensures
        r@ == s@.subrange(from as int, s@.len() as int),
{
    let mut out: Vec<u8> = Vec::new();
    let mut i = from;
    while i < s.len()
        invariant
            from <= i <= s@.len(),
            out@ == s@.subrange(from as int, i as int),
        decreases s@.len() - i,
    {
        out.push(s[i]);
        i = i + 1;
        assert(out@ =~= s@.subrange(from as int, i as int));
    }
    out
}

} // verus!
