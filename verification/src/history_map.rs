//! Per-address history records collected while writing a block.
use vstd::prelude::*;

use crate::addr_history::{FLAG_IS_INPUT, FLAG_MINED};
use crate::types::{TxInCompact, TxLocation, TxOutCompact};

verus! {

/// A transparent address: the hash of its script and the script type.
#[derive(Clone, Copy, Debug)]
pub struct AddrScript {
    pub hash: [u8; 20],
    pub script_type: u8,
}

/// The key an address script is looked up by.
pub open spec fn addr_key(a: AddrScript) -> (Seq<u8>, u8) {
    (a.hash@, a.script_type)
}

impl AddrScript {
    /// Creates an address script.
    pub fn new(hash: [u8; 20], script_type: u8) -> (r: AddrScript)
        ensures
            r.hash == hash,
            r.script_type == script_type,
    {
        AddrScript { hash, script_type }
    }
}

/// One address history event: where it happened, which output or input, its value and flags.
#[derive(Clone, Copy, Debug, PartialEq, Eq, Structural)]
pub struct AddrHistRecord {
    pub tx_location: TxLocation,
    pub out_index: u16,
    pub value: u64,
    pub flags: u8,
}

impl AddrHistRecord {
    /// Creates a record.
    pub fn new(tx_location: TxLocation, out_index: u16, value: u64, flags: u8) -> (r: AddrHistRecord)
        ensures
            r == (AddrHistRecord { tx_location, out_index, value, flags }),
    {
        AddrHistRecord { tx_location, out_index, value, flags }
    }
}

/// The records of the first entry for `k`, if any.
pub open spec fn lookup<V>(entries: Seq<(AddrScript, Vec<V>)>, k: (Seq<u8>, u8)) -> Option<Seq<V>>
    decreases entries.len(),
{
    if entries.len() == 0 {
        None
    } else if addr_key(entries[0].0) == k {
        Some(entries[0].1@)
    } else {
        lookup(entries.drop_first(), k)
    }
}

/// Records grouped by address, in insertion order per address.
pub struct AddrHistoryMap<V> {
    entries: Vec<(AddrScript, Vec<V>)>,
}

impl<V> AddrHistoryMap<V> {
    /// The records collected for address key `k`; `None` when the address has none.
    pub closed spec fn records_of(&self, k: (Seq<u8>, u8)) -> Option<Seq<V>> {
        lookup(self.entries@, k)
    }

    /// An empty map.
    pub fn new() -> (r: Self)
        ensures
            forall|k: (Seq<u8>, u8)| #[trigger] r.records_of(k) is None,
    {
        AddrHistoryMap { entries: Vec::new() }
    }

    /// The records collected for `addr`.
    pub fn get(&self, addr: &AddrScript) -> (r: Option<&Vec<V>>)
        ensures
            match r {
                Some(v) => self.records_of(addr_key(*addr)) == Some(v@),
                None => self.records_of(addr_key(*addr)) is None,
            },
    {
        match self.position(addr) {
            Some(i) => Some(&self.entries[i].1),
            None => None,
        }
    }

    /// Position of the first entry for `addr`.
    fn position(&self, addr: &AddrScript) -> (r: Option<usize>)
        ensures
            match r {
                Some(i) => i < self.entries@.len() && addr_key(self.entries@[i as int].0) == addr_key(*addr)
                    && lookup(self.entries@, addr_key(*addr)) == Some(self.entries@[i as int].1@)
                    && forall|j: int| 0 <= j < i ==> addr_key(#[trigger] self.entries@[j].0) != addr_key(*addr),
                None => lookup(self.entries@, addr_key(*addr)) is None,
            },
    {
        let ghost k = addr_key(*addr);
        let mut i: usize = 0;
        assert(self.entries@.skip(0) =~= self.entries@);
        while i < self.entries.len()
            invariant
                0 <= i <= self.entries@.len(),
                k == addr_key(*addr),
                lookup(self.entries@, k) == lookup(self.entries@.skip(i as int), k),
                forall|j: int| 0 <= j < i ==> addr_key(#[trigger] self.entries@[j].0) != k,
            decreases self.entries@.len() - i,
        {
            assert(self.entries@.skip(i as int).drop_first() =~= self.entries@.skip((i + 1) as int));
            assert(self.entries@.skip(i as int)[0] == self.entries@[i as int]);
            let e = &self.entries[i].0;
            if e.script_type == addr.script_type && hash20_eq(&e.hash, &addr.hash) {
                assert(addr_key(self.entries@[i as int].0) == k);
                return Some(i);
            }
            assert(addr_key(self.entries@[i as int].0) != k);
            i = i + 1;
        }
        None
    }

    /// Appends `v` to the records of `addr`, creating the address's list if it has none.
    pub fn push_record(&mut self, addr: AddrScript, v: V)
        ensures
            forall|k: (Seq<u8>, u8)| #[trigger]
                final(self).records_of(k) == if k == addr_key(addr) {
                    Some(
                        match old(self).records_of(k) {
                            Some(s) => s,
                            None => Seq::empty(),
                        }.push(v),
                    )
                } else {
                    old(self).records_of(k)
                },
    {
        let ghost old_entries = self.entries@;
        match self.position(&addr) {
            Some(i) => {
                let mut entry = self.entries.remove(i);
                entry.1.push(v);
                self.entries.insert(i, entry);
                assert(self.entries@ =~= old_entries.update(i as int, (old_entries[i as int].0, entry.1)));
                proof {
                    lemma_lookup_update(old_entries, i as int, entry.1);
                }
            },
            None => {
                let mut records: Vec<V> = Vec::new();
                records.push(v);
                self.entries.push((addr, records));
                proof {
                    lemma_lookup_push(old_entries, (addr, records));
                }
            },
        }
    }
}

/// Equality of two 20-byte script hashes.
fn hash20_eq(a: &[u8; 20], b: &[u8; 20]) -> (r: bool)
    ensures
        r == (a@ == b@),
{
    let mut i: usize = 0;
    while i < 20
        invariant
            0 <= i <= 20,
            a@.len() == 20,
            b@.len() == 20,
            forall|k: int| 0 <= k < i ==> a@[k] == b@[k],
        decreases 20 - i,
    {
        if a[i] != b[i] {
            return false;
        }
        i = i + 1;
    }
    assert(a@ =~= b@);
    true
}

/// Replacing the records of the first entry for a key changes only that key's lookup.
proof fn lemma_lookup_update<V>(entries: Seq<(AddrScript, Vec<V>)>, i: int, records: Vec<V>)
    requires
        0 <= i < entries.len(),
        forall|j: int| 0 <= j < i ==> addr_key(#[trigger] entries[j].0) != addr_key(entries[i].0),
    ensures
        forall|k: (Seq<u8>, u8)| #[trigger]
            lookup(entries.update(i, (entries[i].0, records)), k) == if k == addr_key(entries[i].0) {
                Some(records@)
            } else {
                lookup(entries, k)
            },
    decreases entries.len(),
{
    let new = entries.update(i, (entries[i].0, records));
    if i > 0 {
        assert(new.drop_first() =~= entries.drop_first().update(i - 1, (entries[i].0, records)));
        assert forall|j: int| 0 <= j < i - 1 implies addr_key(#[trigger] entries.drop_first()[j].0)
            != addr_key(entries.drop_first()[i - 1].0) by {
            assert(entries.drop_first()[j] == entries[j + 1]);
        }
        lemma_lookup_update(entries.drop_first(), i - 1, records);
        assert(addr_key(entries[0].0) != addr_key(entries[i].0));
        assert(entries.drop_first()[i - 1] == entries[i]);
        assert forall|k: (Seq<u8>, u8)| #[trigger]
            lookup(new, k) == if k == addr_key(entries[i].0) {
                Some(records@)
            } else {
                lookup(entries, k)
            } by {
            assert(new[0] == entries[0]);
            if addr_key(entries[0].0) == k {
            } else {
                assert(lookup(new, k) == lookup(new.drop_first(), k));
                assert(lookup(entries, k) == lookup(entries.drop_first(), k));
            }
        }
    } else {
        assert forall|k: (Seq<u8>, u8)| #[trigger]
            lookup(new, k) == if k == addr_key(entries[i].0) {
                Some(records@)
            } else {
                lookup(entries, k)
            } by {
            assert(new.drop_first() =~= entries.drop_first());
        }
    }
}

/// Appending an entry for a key that has none makes it found; other lookups stay.
proof fn lemma_lookup_push<V>(entries: Seq<(AddrScript, Vec<V>)>, e: (AddrScript, Vec<V>))
    requires
        lookup(entries, addr_key(e.0)) is None,
    ensures
        forall|k: (Seq<u8>, u8)| #[trigger]
            lookup(entries.push(e), k) == if k == addr_key(e.0) {
                Some(e.1@)
            } else {
                lookup(entries, k)
            },
    decreases entries.len(),
{
    if entries.len() > 0 {
        assert(addr_key(entries[0].0) != addr_key(e.0));
        assert(entries.push(e).drop_first() =~= entries.drop_first().push(e));
        assert(entries.push(e)[0] == entries[0]);
        lemma_lookup_push(entries.drop_first(), e);
        assert forall|k: (Seq<u8>, u8)| #[trigger]
            lookup(entries.push(e), k) == if k == addr_key(e.0) {
                Some(e.1@)
            } else {
                lookup(entries, k)
            } by {
            if addr_key(entries[0].0) != k {
                assert(lookup(entries.push(e), k) == lookup(entries.push(e).drop_first(), k));
            }
        }
    } else {
        assert(entries.push(e).drop_first() =~= Seq::<(AddrScript, Vec<V>)>::empty());
        assert(entries.push(e)[0] == e);
        assert forall|k: (Seq<u8>, u8)| #[trigger]
            lookup(entries.push(e), k) == if k == addr_key(e.0) {
                Some(e.1@)
            } else {
                lookup(entries, k)
            } by {
            assert(lookup(Seq::<(AddrScript, Vec<V>)>::empty(), k) is None);
            assert(lookup(entries, k) is None);
        }
    }
}

/// The address script of an output.
pub open spec fn output_addr(o: TxOutCompact) -> AddrScript {
    AddrScript { hash: o.script_hash, script_type: o.script_type }
}

/// The mined-output records that the first `n` indexed outputs of a transaction at `loc` add
/// for the address key `k`, in the order given.
pub open spec fn output_records_for(
    loc: TxLocation,
    outputs: Seq<(usize, TxOutCompact)>,
    k: (Seq<u8>, u8),
    n: nat,
) -> Seq<AddrHistRecord>
    decreases n,
{
    if n == 0 {
        Seq::empty()
    } else if addr_key(output_addr(outputs[n - 1].1)) == k {
        output_records_for(loc, outputs, k, (n - 1) as nat).push(
            AddrHistRecord {
                tx_location: loc,
                out_index: outputs[n - 1].0 as u16,
                value: outputs[n - 1].1.value,
                flags: FLAG_MINED,
            },
        )
    } else {
        output_records_for(loc, outputs, k, (n - 1) as nat)
    }
}

/// Records from `before` followed by `added`, or nothing when both are empty and there was no
/// entry.
pub open spec fn appended<R>(before: Option<Seq<R>>, added: Seq<R>) -> Option<Seq<R>> {
    if added.len() == 0 {
        before
    } else {
        Some(
            match before {
                Some(s) => s,
                None => Seq::empty(),
            } + added,
        )
    }
}

/// Inserts a mined-output record into the address-history map for each `(index, output)` pair
/// of the transaction at `tx_location`, in the order given; the record carries `index as u16`.
pub fn build_transaction_output_histories(
    map: &mut AddrHistoryMap<AddrHistRecord>,
    tx_location: TxLocation,
    outputs: &[(usize, TxOutCompact)],
)
    ensures
        forall|k: (Seq<u8>, u8)| #[trigger]
            final(map).records_of(k) == appended(
                old(map).records_of(k),
                output_records_for(tx_location, outputs@, k, outputs@.len()),
            ),
{
    let mut i: usize = 0;
    while i < outputs.len()
        invariant
            0 <= i <= outputs@.len(),
            forall|k: (Seq<u8>, u8)| #[trigger]
                map.records_of(k) == appended(
                    old(map).records_of(k),
                    output_records_for(tx_location, outputs@, k, i as nat),
                ),
        decreases outputs@.len() - i,
    {
        let output_idx = outputs[i].0;
        let output = &outputs[i].1;
        let addr_script = AddrScript::new(output.script_hash, output.script_type);
        let output_record = AddrHistRecord::new(tx_location, output_idx as u16, output.value, FLAG_MINED);
        let ghost before = *map;
        map.push_record(addr_script, output_record);
        proof {
            assert forall|k: (Seq<u8>, u8)| #[trigger]
                map.records_of(k) == appended(
                    old(map).records_of(k),
                    output_records_for(tx_location, outputs@, k, (i + 1) as nat),
                ) by {
                let prev = output_records_for(tx_location, outputs@, k, i as nat);
                if k == addr_key(addr_script) {
                    assert(addr_key(output_addr(outputs@[i as int].1)) == k);
                    let base = match old(map).records_of(k) {
                        Some(s) => s,
                        None => Seq::empty(),
                    };
                    assert((base + prev).push(output_record) =~= base + prev.push(output_record));
                } else {
                    assert(addr_key(output_addr(outputs@[i as int].1)) != k);
                }
            }
        }
        i = i + 1;
    }
}

/// The address of the spent previous output.
pub open spec fn input_history_entry(
    input_tx_location: TxLocation,
    input_index: u16,
    input: TxInCompact,
    prev_output: TxOutCompact,
    prev_output_tx_location: TxLocation,
) -> (AddrHistRecord, (AddrScript, AddrHistRecord)) {
    (
        AddrHistRecord {
            tx_location: input_tx_location,
            out_index: input_index,
            value: prev_output.value,
            flags: FLAG_IS_INPUT,
        },
        (
            output_addr(prev_output),
            AddrHistRecord {
                tx_location: prev_output_tx_location,
                out_index: input.prevout_index as u16,
                value: prev_output.value,
                flags: FLAG_MINED,
            },
        ),
    )
}

/// Inserts both the spend record and the mined previous-output record (used to update the
/// output record spent in this transaction) under the address of the spent output.
pub fn build_input_history(
    map: &mut AddrHistoryMap<(AddrHistRecord, (AddrScript, AddrHistRecord))>,
    input_tx_location: TxLocation,
    input_index: u16,
    input: &TxInCompact,
    prev_output: &TxOutCompact,
    prev_output_tx_location: TxLocation,
)
    ensures
        forall|k: (Seq<u8>, u8)| #[trigger]
            final(map).records_of(k) == if k == addr_key(output_addr(*prev_output)) {
                Some(
                    match old(map).records_of(k) {
                        Some(s) => s,
                        None => Seq::empty(),
                    }.push(
                        input_history_entry(
                            input_tx_location,
                            input_index,
                            *input,
                            *prev_output,
                            prev_output_tx_location,
                        ),
                    ),
                )
            } else {
                old(map).records_of(k)
            },
{
    let addr_script = AddrScript::new(prev_output.script_hash, prev_output.script_type);
    let input_record = AddrHistRecord::new(
        input_tx_location,
        input_index,
        prev_output.value,
        FLAG_IS_INPUT,
    );
    let prev_output_record = (
        AddrScript::new(prev_output.script_hash, prev_output.script_type),
        AddrHistRecord::new(
            prev_output_tx_location,
            input.prevout_index as u16,
            prev_output.value,
            FLAG_MINED,
        ),
    );
    map.push_record(addr_script, (input_record, prev_output_record));
}

} // verus!
