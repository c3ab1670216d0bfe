//! Metadata objects stored by the finalised state, and their versioned byte encodings.
//!
//! A versioned encoding is a one-byte version tag followed by the body of that version.
use vstd::prelude::*;

use crate::encoding::{
    le_u64_at, le_u64_bytes, lemma_le_u64_bytes_of_read, lemma_le_u64_roundtrip, read_le_u64,
    write_u64_le,
};

verus! {

/// Version tag of the first encoding version.
pub const V1: u8 = 1;

/// Why decoding failed.
#[derive(Debug, PartialEq, Eq, Structural)]
pub enum DecodeError {
    /// The input ended before the encoding did.
    UnexpectedEof,
    /// The version tag names no known version.
    UnsupportedVersion(u8),
}

/// Holds information about the mempool state.
#[derive(Clone, Copy, Debug, PartialEq, Eq, Structural)]
pub struct MempoolInfo {
    /// Current tx count
    pub size: u64,
    /// Sum of all tx sizes
    pub bytes: u64,
    /// Total memory usage for the mempool
    pub usage: u64,
}

/// Holds finalised-state UTXO set accumulator data for `gettxoutsetinfo`.
///
/// This is not the full RPC response. It only contains values that the
/// finalised-state database can maintain cheaply and exactly.
#[derive(Clone, Copy, Debug, PartialEq, Eq, Structural)]
pub struct FinalisedTxOutSetInfoAccumulator {
    /// Number of transactions with at least one currently unspent transparent output.
    pub transactions: u64,
    /// Number of currently unspent transparent outputs.
    pub transaction_outputs: u64,
}

/// The three little-endian words of a mempool-info body.
pub open spec fn mempool_info_body(m: MempoolInfo) -> Seq<u8> {
    le_u64_bytes(m.size) + le_u64_bytes(m.bytes) + le_u64_bytes(m.usage)
}

/// The mempool info held by a body starting at `pos`.
pub open spec fn mempool_info_at(s: Seq<u8>, pos: int) -> MempoolInfo {
    MempoolInfo {
        size: le_u64_at(s, pos) as u64,
        bytes: le_u64_at(s, pos + 8) as u64,
        usage: le_u64_at(s, pos + 16) as u64,
    }
}

/// Decoding a versioned mempool-info encoding.
pub open spec fn spec_mempool_info_from_bytes(s: Seq<u8>) -> Result<MempoolInfo, DecodeError> {
    if s.len() < 1 {
        Err(DecodeError::UnexpectedEof)
    } else if s[0] != V1 {
        Err(DecodeError::UnsupportedVersion(s[0]))
    } else if s.len() < MempoolInfo::VERSIONED_LEN {
        Err(DecodeError::UnexpectedEof)
    } else {
        Ok(mempool_info_at(s, 1))
    }
}

impl MempoolInfo {
    /// The current encoding version.
    pub const VERSION: u8 = 1;

    /// Length of the body: 8 byte size + 8 byte bytes + 8 byte usage.
    pub const ENCODED_LEN: usize = 24;

    /// Length of the versioned encoding.
    pub const VERSIONED_LEN: usize = 25;

    /// Writes the body in the current version.
    pub fn encode_latest(&self, w: &mut Vec<u8>)
        ensures
            final(w)@ == old(w)@ + mempool_info_body(*self),
    {
        self.encode_v1(w)
    }

    /// Reads a body in the current version from the start of `r`.
    pub fn decode_latest(r: &[u8]) -> (res: Result<Self, DecodeError>)
        ensures
            match res {
                Ok(m) => r@.len() >= Self::ENCODED_LEN && m == mempool_info_at(r@, 0),
                Err(e) => r@.len() < Self::ENCODED_LEN && e == DecodeError::UnexpectedEof,
            },
    {
        Self::decode_v1(r)
    }

    /// Writes the version 1 body: size, bytes and usage as little-endian words.
    pub fn encode_v1(&self, w: &mut Vec<u8>)
        ensures
            final(w)@ == old(w)@ + mempool_info_body(*self),
    {
        write_u64_le(w, self.size);
        write_u64_le(w, self.bytes);
        write_u64_le(w, self.usage);
        assert(w@ =~= old(w)@ + mempool_info_body(*self));
    }

    /// Reads a version 1 body from the start of `r`.
    pub fn decode_v1(r: &[u8]) -> (res: Result<Self, DecodeError>)
        ensures
            match res {
                Ok(m) => r@.len() >= Self::ENCODED_LEN && m == mempool_info_at(r@, 0),
                Err(e) => r@.len() < Self::ENCODED_LEN && e == DecodeError::UnexpectedEof,
            },
    {
        if r.len() < Self::ENCODED_LEN {
            return Err(DecodeError::UnexpectedEof);
        }
        let size = read_le_u64(r, 0);
        let bytes = read_le_u64(r, 8);
        let usage = read_le_u64(r, 16);
        Ok(MempoolInfo { size, bytes, usage })
    }

    /// The versioned encoding: version tag, then the body.
    pub fn to_bytes(&self) -> (r: Result<Vec<u8>, DecodeError>)
        ensures
            r matches Ok(v) && v@ == seq![Self::VERSION] + mempool_info_body(*self),
    {
        let mut out: Vec<u8> = Vec::new();
        out.push(Self::VERSION);
        self.encode_latest(&mut out);
        Ok(out)
    }

    /// Decodes a versioned encoding from the start of `data`.
    pub fn from_bytes(data: &[u8]) -> (r: Result<Self, DecodeError>)
        ensures
            r == spec_mempool_info_from_bytes(data@),
    {
        if data.len() < 1 {
            return Err(DecodeError::UnexpectedEof);
        }
        let version = data[0];
        if version != Self::VERSION {
            return Err(DecodeError::UnsupportedVersion(version));
        }
        if data.len() < Self::VERSIONED_LEN {
            return Err(DecodeError::UnexpectedEof);
        }
        let size = read_le_u64(data, 1);
        let bytes = read_le_u64(data, 9);
        let usage = read_le_u64(data, 17);
        Ok(MempoolInfo { size, bytes, usage })
    }
}

/// The two little-endian words of an accumulator body.
pub open spec fn accumulator_body(a: FinalisedTxOutSetInfoAccumulator) -> Seq<u8> {
    le_u64_bytes(a.transactions) + le_u64_bytes(a.transaction_outputs)
}

/// The accumulator held by a body starting at `pos`.
pub open spec fn accumulator_at(s: Seq<u8>, pos: int) -> FinalisedTxOutSetInfoAccumulator {
    FinalisedTxOutSetInfoAccumulator {
        transactions: le_u64_at(s, pos) as u64,
        transaction_outputs: le_u64_at(s, pos + 8) as u64,
    }
}

/// Decoding a versioned accumulator encoding.
pub open spec fn spec_accumulator_from_bytes(s: Seq<u8>) -> Result<
    FinalisedTxOutSetInfoAccumulator,
    DecodeError,
> {
    if s.len() < 1 {
        Err(DecodeError::UnexpectedEof)
    } else if s[0] != V1 {
        Err(DecodeError::UnsupportedVersion(s[0]))
    } else if s.len() < FinalisedTxOutSetInfoAccumulator::VERSIONED_LEN {
        Err(DecodeError::UnexpectedEof)
    } else {
        Ok(accumulator_at(s, 1))
    }
}

impl Default for FinalisedTxOutSetInfoAccumulator {
    /// The empty accumulator: no transactions, no outputs.
    fn default() -> (r: Self)
        ensures
            r.transactions == 0,
            r.transaction_outputs == 0,
    {
        FinalisedTxOutSetInfoAccumulator { transactions: 0, transaction_outputs: 0 }
    }
}

impl FinalisedTxOutSetInfoAccumulator {
    /// The current encoding version.
    pub const VERSION: u8 = 1;

    /// Length of the body: 8 byte transactions + 8 byte transaction_outputs.
    pub const ENCODED_LEN: usize = 16;

    /// Length of the versioned encoding.
    pub const VERSIONED_LEN: usize = 17;

    /// Creates a new finalised txout-set accumulator.
    pub fn new(transactions: u64, transaction_outputs: u64) -> (r: Self)
        ensures
            r.transactions == transactions,
            r.transaction_outputs == transaction_outputs,
    {
        FinalisedTxOutSetInfoAccumulator { transactions, transaction_outputs }
    }

    /// Returns an empty finalised txout-set accumulator.
    pub fn empty() -> (r: Self)
        ensures
            r.transactions == 0,
            r.transaction_outputs == 0,
    {
        FinalisedTxOutSetInfoAccumulator { transactions: 0, transaction_outputs: 0 }
    }

    /// Writes the body in the current version.
    pub fn encode_latest(&self, writer: &mut Vec<u8>)
        ensures
            final(writer)@ == old(writer)@ + accumulator_body(*self),
    {
        self.encode_v1(writer)
    }

    /// Reads a body in the current version from the start of `reader`.
    pub fn decode_latest(reader: &[u8]) -> (res: Result<Self, DecodeError>)
        ensures
            match res {
                Ok(a) => reader@.len() >= Self::ENCODED_LEN && a == accumulator_at(reader@, 0),
                Err(e) => reader@.len() < Self::ENCODED_LEN && e == DecodeError::UnexpectedEof,
            },
    {
        Self::decode_v1(reader)
    }

    /// Writes the version 1 body: transactions and transaction_outputs as little-endian words.
    pub fn encode_v1(&self, writer: &mut Vec<u8>)
        ensures
            final(writer)@ == old(writer)@ + accumulator_body(*self),
    {
        write_u64_le(writer, self.transactions);
        write_u64_le(writer, self.transaction_outputs);
        assert(writer@ =~= old(writer)@ + accumulator_body(*self));
    }

    /// Reads a version 1 body from the start of `reader`.
    pub fn decode_v1(reader: &[u8]) -> (res: Result<Self, DecodeError>)
        ensures
            match res {
                Ok(a) => reader@.len() >= Self::ENCODED_LEN && a == accumulator_at(reader@, 0),
                Err(e) => reader@.len() < Self::ENCODED_LEN && e == DecodeError::UnexpectedEof,
            },
    {
        if reader.len() < Self::ENCODED_LEN {
            return Err(DecodeError::UnexpectedEof);
        }
        let transactions = read_le_u64(reader, 0);
        let transaction_outputs = read_le_u64(reader, 8);
        Ok(Self { transactions, transaction_outputs })
    }

    /// The versioned encoding: version tag, then the body.
    pub fn to_bytes(&self) -> (r: Result<Vec<u8>, DecodeError>)
        ensures
            r matches Ok(v) && v@ == seq![Self::VERSION] + accumulator_body(*self),
    {
        let mut out: Vec<u8> = Vec::new();
        out.push(Self::VERSION);
        self.encode_latest(&mut out);
        Ok(out)
    }

    /// Decodes a versioned encoding from the start of `data`.
    pub fn from_bytes(data: &[u8]) -> (r: Result<Self, DecodeError>)
        ensures
            r == spec_accumulator_from_bytes(data@),
    {
        if data.len() < 1 {
            return Err(DecodeError::UnexpectedEof);
        }
        let version = data[0];
        if version != Self::VERSION {
            return Err(DecodeError::UnsupportedVersion(version));
        }
        if data.len() < Self::VERSIONED_LEN {
            return Err(DecodeError::UnexpectedEof);
        }
        let transactions = read_le_u64(data, 1);
        let transaction_outputs = read_le_u64(data, 9);
        Ok(Self { transactions, transaction_outputs })
    }
}

/// Decoding the encoding of a mempool info gives it back.
pub proof fn lemma_mempool_info_roundtrip(m: MempoolInfo)
    ensures
        spec_mempool_info_from_bytes(seq![MempoolInfo::VERSION] + mempool_info_body(m)) == Ok::<
            MempoolInfo,
            DecodeError,
        >(m),
{
    let s = seq![MempoolInfo::VERSION] + mempool_info_body(m);
    lemma_le_u64_roundtrip(m.size);
    lemma_le_u64_roundtrip(m.bytes);
    lemma_le_u64_roundtrip(m.usage);
    assert(s.subrange(1, 9) =~= le_u64_bytes(m.size));
    assert(s.subrange(9, 17) =~= le_u64_bytes(m.bytes));
    assert(s.subrange(17, 25) =~= le_u64_bytes(m.usage));
    lemma_le_u64_at_shift(s, 1);
    lemma_le_u64_at_shift(s, 9);
    lemma_le_u64_at_shift(s, 17);
}

/// Reading a body written by `encode_v1`, followed by any other bytes, gives the mempool info
/// back from the first `ENCODED_LEN` bytes, whatever follows.
pub proof fn lemma_mempool_info_body_roundtrip(m: MempoolInfo, rest: Seq<u8>)
    ensures
        (mempool_info_body(m) + rest).len() >= MempoolInfo::ENCODED_LEN,
        mempool_info_at(mempool_info_body(m) + rest, 0) == m,
{
    let s = mempool_info_body(m) + rest;
    lemma_le_u64_roundtrip(m.size);
    lemma_le_u64_roundtrip(m.bytes);
    lemma_le_u64_roundtrip(m.usage);
    assert(s.subrange(0, 8) =~= le_u64_bytes(m.size));
    assert(s.subrange(8, 16) =~= le_u64_bytes(m.bytes));
    assert(s.subrange(16, 24) =~= le_u64_bytes(m.usage));
    lemma_le_u64_at_shift(s, 0);
    lemma_le_u64_at_shift(s, 8);
    lemma_le_u64_at_shift(s, 16);
}

/// Decoding the encoding of an accumulator gives it back.
pub proof fn lemma_accumulator_roundtrip(a: FinalisedTxOutSetInfoAccumulator)
    ensures
        spec_accumulator_from_bytes(seq![FinalisedTxOutSetInfoAccumulator::VERSION] + accumulator_body(a))
            == Ok::<FinalisedTxOutSetInfoAccumulator, DecodeError>(a),
{
    let s = seq![FinalisedTxOutSetInfoAccumulator::VERSION] + accumulator_body(a);
    lemma_le_u64_roundtrip(a.transactions);
    lemma_le_u64_roundtrip(a.transaction_outputs);
    assert(s.subrange(1, 9) =~= le_u64_bytes(a.transactions));
    assert(s.subrange(9, 17) =~= le_u64_bytes(a.transaction_outputs));
    lemma_le_u64_at_shift(s, 1);
    lemma_le_u64_at_shift(s, 9);
}

/// Reading a word at `pos` reads the word at the start of the eight bytes there.
proof fn lemma_le_u64_at_shift(s: Seq<u8>, pos: int)
    requires
        0 <= pos,
        pos + 8 <= s.len(),
    ensures
        le_u64_at(s, pos) == le_u64_at(s.subrange(pos, pos + 8), 0),
{
}


/// A mempool-info encoding is unique: whenever bytes decode to a value, the value's encoding is
/// exactly the bytes read.
pub proof fn lemma_mempool_info_encoding_unique(s: Seq<u8>)
    requires
        spec_mempool_info_from_bytes(s) is Ok,
    ensures
        seq![MempoolInfo::VERSION] + mempool_info_body(spec_mempool_info_from_bytes(s)->Ok_0) == s.subrange(
            0,
            MempoolInfo::VERSIONED_LEN as int,
        ),
{
    lemma_le_u64_bytes_of_read(s, 1);
    lemma_le_u64_bytes_of_read(s, 9);
    lemma_le_u64_bytes_of_read(s, 17);
    let m = spec_mempool_info_from_bytes(s)->Ok_0;
    assert(seq![MempoolInfo::VERSION] + mempool_info_body(m) =~= s.subrange(0, 25));
}

/// An accumulator encoding is unique: whenever bytes decode to a value, the value's encoding is
/// exactly the bytes read.
pub proof fn lemma_accumulator_encoding_unique(s: Seq<u8>)
    requires
        spec_accumulator_from_bytes(s) is Ok,
    ensures
        seq![FinalisedTxOutSetInfoAccumulator::VERSION] + accumulator_body(
            spec_accumulator_from_bytes(s)->Ok_0,
        ) == s.subrange(0, FinalisedTxOutSetInfoAccumulator::VERSIONED_LEN as int),
{
    lemma_le_u64_bytes_of_read(s, 1);
    lemma_le_u64_bytes_of_read(s, 9);
    let a = spec_accumulator_from_bytes(s)->Ok_0;
    assert(seq![FinalisedTxOutSetInfoAccumulator::VERSION] + accumulator_body(a) =~= s.subrange(0, 17));
}

} // verus!
