use zaino::checksum::blake2b256_digest;
use zaino::metadata::{DecodeError, FinalisedTxOutSetInfoAccumulator};
use zaino::stored_entry::{
    decode_outpoint_spender, decode_outpoint_spenders, read_tx_out_set_info_accumulator,
    StoredEntryError,
};
use zaino::types::TxLocation;

fn spent_entry(height: u32, index: u16) -> Vec<u8> {
    let mut v = vec![1u8, 1u8];
    v.extend_from_slice(&height.to_be_bytes());
    v.extend_from_slice(&index.to_be_bytes());
    v.extend_from_slice(&[0u8; 32]);
    v
}

#[test]
fn blake2b256_of_empty_input() {
    let expected: [u8; 32] = [
        0x0e, 0x57, 0x51, 0xc0, 0x26, 0xe5, 0x43, 0xb2, 0xe8, 0xab, 0x2e, 0xb0, 0x60, 0x99, 0xda,
        0xa1, 0xd1, 0xe5, 0xdf, 0x47, 0x77, 0x8f, 0x77, 0x87, 0xfa, 0xab, 0x45, 0xcd, 0xf1, 0x2f,
        0xe3, 0xa8,
    ];
    assert_eq!(blake2b256_digest(&[]), expected);
}

#[test]
fn spender_entries_decode() {
    assert_eq!(decode_outpoint_spender(None), Ok(None));
    assert_eq!(
        decode_outpoint_spender(Some(&spent_entry(123, 4))),
        Ok(Some(TxLocation::new(123, 4)))
    );
    assert_eq!(
        decode_outpoint_spender(Some(&[2u8])),
        Err(DecodeError::UnsupportedVersion(2))
    );
    assert_eq!(
        decode_outpoint_spender(Some(&spent_entry(1, 1)[..20])),
        Err(DecodeError::UnexpectedEof)
    );
}

#[test]
fn spender_batches_decode_in_order() {
    let batch = vec![Some(spent_entry(5, 1)), None, Some(spent_entry(6, 0))];
    assert_eq!(
        decode_outpoint_spenders(&batch),
        Ok(vec![Some(TxLocation::new(5, 1)), None, Some(TxLocation::new(6, 0))])
    );
    let bad = vec![None, Some(vec![1u8, 9u8]), Some(vec![])];
    assert_eq!(
        decode_outpoint_spenders(&bad),
        Err(DecodeError::UnsupportedVersion(9))
    );
}

fn accumulator_entry(key: &[u8], a: FinalisedTxOutSetInfoAccumulator) -> Vec<u8> {
    let body = a.to_bytes().unwrap();
    let mut data = key.to_vec();
    data.extend_from_slice(&body);
    let mut v = vec![1u8];
    v.extend_from_slice(&body);
    v.extend_from_slice(&blake2b256_digest(&data));
    v
}

#[test]
fn accumulator_entry_is_read_and_checked() {
    let key = b"txout_set_info";
    let a = FinalisedTxOutSetInfoAccumulator::new(3, 4);
    let entry = accumulator_entry(key, a);
    assert_eq!(read_tx_out_set_info_accumulator(Some(&entry), key), Ok(a));
    assert_eq!(
        read_tx_out_set_info_accumulator(Some(&entry), b"other key"),
        Err(StoredEntryError::ChecksumMismatch)
    );
    let mut corrupt = entry.clone();
    corrupt[2] ^= 1;
    assert_eq!(
        read_tx_out_set_info_accumulator(Some(&corrupt), key),
        Err(StoredEntryError::ChecksumMismatch)
    );
    assert_eq!(
        read_tx_out_set_info_accumulator(None, key),
        Err(StoredEntryError::DataUnavailable)
    );
    assert_eq!(
        read_tx_out_set_info_accumulator(Some(&entry[..30]), key),
        Err(StoredEntryError::Decode(DecodeError::UnexpectedEof))
    );
}
