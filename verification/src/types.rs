//! Compact transaction data shared by the finalised-state logic.
use vstd::prelude::*;

verus! {

/// Script type tag of a pay-to-public-key-hash output.
pub const SCRIPT_TYPE_P2PKH: u8 = 0x00;

/// Script type tag of a pay-to-script-hash output.
pub const SCRIPT_TYPE_P2SH: u8 = 0x01;

/// Script type tag of an output whose script is neither P2PKH nor P2SH.
pub const SCRIPT_TYPE_NON_STANDARD: u8 = 0xFF;

/// Position of a transaction in the best chain: block height and index inside the block.
#[derive(Clone, Copy, Debug, PartialEq, Eq, Structural)]
pub struct TxLocation {
    pub block_height: u32,
    pub tx_index: u16,
}

impl TxLocation {
    /// Creates a location from a block height and a transaction index.
    pub fn new(block_height: u32, tx_index: u16) -> (r: TxLocation)
        ensures
            r.block_height == block_height,
            r.tx_index == tx_index,
    {
        TxLocation { block_height, tx_index }
    }

    /// The block height of this location.
    pub fn block_height(&self) -> (r: u32)
        ensures
            r == self.block_height,
    {
        self.block_height
    }

    /// The index of the transaction inside its block.
    pub fn tx_index(&self) -> (r: u16)
        ensures
            r == self.tx_index,
    {
        self.tx_index
    }
}

/// A reference to a transparent output: the hash of the creating transaction and the output index.
#[derive(Clone, Copy, Debug)]
pub struct Outpoint {
    pub prev_txid: [u8; 32],
    pub prev_index: u32,
}

impl Outpoint {
    /// Creates an outpoint.
    pub fn new(prev_txid: [u8; 32], prev_index: u32) -> (r: Outpoint)
        ensures
            r.prev_txid == prev_txid,
            r.prev_index == prev_index,
    {
        Outpoint { prev_txid, prev_index }
    }
}

/// A compact transparent output: value, hash of the locking script and its type tag.
#[derive(Clone, Copy, Debug)]
pub struct TxOutCompact {
    pub value: u64,
    pub script_hash: [u8; 20],
    pub script_type: u8,
}

/// A compact transparent input: the outpoint it spends.
#[derive(Clone, Copy, Debug)]
pub struct TxInCompact {
    pub prevout_txid: [u8; 32],
    pub prevout_index: u32,
}

/// The transparent part of a transaction.
#[derive(Clone, Debug)]
pub struct TransparentCompactTx {
    pub inputs: Vec<TxInCompact>,
    pub outputs: Vec<TxOutCompact>,
}

/// An output is provably unspendable when its script is non-standard; such outputs never enter
/// the unspent set.
pub open spec fn is_unspendable(o: TxOutCompact) -> bool {
    o.script_type == SCRIPT_TYPE_NON_STANDARD
}

/// Whether an output can never be spent.
pub fn is_unspendable_tx_out(o: &TxOutCompact) -> (r: bool)
    ensures
        r == is_unspendable(*o),
{
    o.script_type == SCRIPT_TYPE_NON_STANDARD
}

/// Equality of two transaction hashes.
pub fn hash_eq(a: &[u8; 32], b: &[u8; 32]) -> (r: bool)
    ensures
        r == (a@ == b@),
{
    let mut i: usize = 0;
    while i < 32
        invariant
            0 <= i <= 32,
            a@.len() == 32,
            b@.len() == 32,
            forall|k: int| 0 <= k < i ==> a@[k] == b@[k],
        decreases 32 - i,
    {
        if a[i] != b[i] {
            return false;
        }
        i = i + 1;
    }
    assert(a@ =~= b@);
    true
}

} // verus!
