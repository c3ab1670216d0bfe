use zaino::commitment::{apply_tx_out_set_entries_delta, CommitmentError, TxOutSetCommitment, TxOutSetEntry};

fn entry(d: u8, value: u64) -> TxOutSetEntry {
    let mut digest = [0u8; 32];
    for (i, b) in digest.iter_mut().enumerate() {
        *b = d.wrapping_mul(i as u8 + 1);
    }
    TxOutSetEntry { digest, value }
}

#[test]
fn adding_entries_xors_digests_and_sums() {
    let mut c = TxOutSetCommitment {
        hash_serialized: [0; 32],
        total_zatoshis: 100,
        bytes_serialized: 10,
    };
    let entries = vec![entry(3, 5), entry(5, 7)];
    apply_tx_out_set_entries_delta(&mut c, &entries, 40, true).unwrap();
    assert_eq!(c.total_zatoshis, 112);
    assert_eq!(c.bytes_serialized, 90);
    for i in 0..32 {
        assert_eq!(c.hash_serialized[i], entries[0].digest[i] ^ entries[1].digest[i]);
    }
}

#[test]
fn removing_entries_undoes_adding_them() {
    let start = TxOutSetCommitment {
        hash_serialized: [0x5a; 32],
        total_zatoshis: 1_000,
        bytes_serialized: 77,
    };
    let entries = vec![entry(1, 10), entry(2, 20), entry(9, 30)];
    let mut c = start;
    apply_tx_out_set_entries_delta(&mut c, &entries, 50, true).unwrap();
    apply_tx_out_set_entries_delta(&mut c, &entries, 50, false).unwrap();
    assert_eq!(c.hash_serialized, start.hash_serialized);
    assert_eq!(c.total_zatoshis, start.total_zatoshis);
    assert_eq!(c.bytes_serialized, start.bytes_serialized);
}

#[test]
fn commitment_overflow_and_underflow() {
    let mut c = TxOutSetCommitment {
        hash_serialized: [0; 32],
        total_zatoshis: u64::MAX,
        bytes_serialized: 0,
    };
    assert_eq!(
        apply_tx_out_set_entries_delta(&mut c, &[entry(1, 1)], 1, true),
        Err(CommitmentError::TotalZatoshisOverflow)
    );
    let mut c = TxOutSetCommitment {
        hash_serialized: [0; 32],
        total_zatoshis: 0,
        bytes_serialized: 0,
    };
    assert_eq!(
        apply_tx_out_set_entries_delta(&mut c, &[entry(1, 1)], 1, false),
        Err(CommitmentError::TotalZatoshisUnderflow)
    );
    let mut c = TxOutSetCommitment {
        hash_serialized: [0; 32],
        total_zatoshis: 5,
        bytes_serialized: 0,
    };
    assert_eq!(
        apply_tx_out_set_entries_delta(&mut c, &[entry(1, 1)], 1, false),
        Err(CommitmentError::BytesSerializedUnderflow)
    );
    // The update stops at the failing entry after folding in its digest and value.
    assert_eq!(c.total_zatoshis, 4);
    let mut c = TxOutSetCommitment {
        hash_serialized: [0; 32],
        total_zatoshis: 0,
        bytes_serialized: u64::MAX,
    };
    assert_eq!(
        apply_tx_out_set_entries_delta(&mut c, &[entry(1, 1)], 1, true),
        Err(CommitmentError::BytesSerializedOverflow)
    );
}
