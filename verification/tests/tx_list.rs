use zaino::tx_list::{
    find_txout_in_stored_transparent_tx_list, get_previous_output, read_compact_size,
    PreviousOutputError,
};
use zaino::types::{Outpoint, TxLocation, SCRIPT_TYPE_NON_STANDARD, SCRIPT_TYPE_P2PKH, SCRIPT_TYPE_P2SH};

fn txout_bytes(value: u64, hash: u8, script_type: u8) -> Vec<u8> {
    let mut v = vec![1u8];
    v.extend_from_slice(&value.to_le_bytes());
    v.extend_from_slice(&[hash; 20]);
    v.push(script_type);
    v
}

fn txin_bytes() -> Vec<u8> {
    let mut v = vec![1u8];
    v.extend_from_slice(&[4u8; 32]);
    v.extend_from_slice(&7u32.to_le_bytes());
    v
}

/// A stored list of three transactions: one with one input and two outputs, an absent one, and
/// one with no inputs and one output.
fn stored_list() -> Vec<u8> {
    let mut item = vec![1u8, 3u8];
    item.extend_from_slice(&[1u8, 1u8, 1u8]);
    item.extend_from_slice(&txin_bytes());
    item.push(2);
    item.extend_from_slice(&txout_bytes(1000, 0xaa, SCRIPT_TYPE_P2PKH));
    item.extend_from_slice(&txout_bytes(2000, 0xbb, SCRIPT_TYPE_P2SH));
    item.push(0);
    item.extend_from_slice(&[1u8, 1u8, 0u8, 1u8]);
    item.extend_from_slice(&txout_bytes(3000, 0xcc, SCRIPT_TYPE_NON_STANDARD));
    let mut stored = vec![1u8];
    stored.push(item.len() as u8);
    stored.extend_from_slice(&item);
    stored.extend_from_slice(&[0u8; 32]);
    stored
}

#[test]
fn finds_outputs_by_transaction_and_output_index() {
    let s = stored_list();
    let o = find_txout_in_stored_transparent_tx_list(&s, 0, 1).unwrap();
    assert_eq!(o.value, 2000);
    assert_eq!(o.script_hash, [0xbb; 20]);
    assert_eq!(o.script_type, SCRIPT_TYPE_P2SH);
    let o = find_txout_in_stored_transparent_tx_list(&s, 2, 0).unwrap();
    assert_eq!(o.value, 3000);
    assert_eq!(o.script_type, SCRIPT_TYPE_NON_STANDARD);
}

#[test]
fn absent_transactions_and_outputs_give_none() {
    let s = stored_list();
    assert!(find_txout_in_stored_transparent_tx_list(&s, 1, 0).is_none());
    assert!(find_txout_in_stored_transparent_tx_list(&s, 0, 2).is_none());
    assert!(find_txout_in_stored_transparent_tx_list(&s, 3, 0).is_none());
}

#[test]
fn malformed_lists_give_none() {
    let s = stored_list();
    assert!(find_txout_in_stored_transparent_tx_list(&s[..20], 0, 0).is_none());
    let mut bad_tag = s.clone();
    bad_tag[4] = 2;
    assert!(find_txout_in_stored_transparent_tx_list(&bad_tag, 0, 0).is_none());
    let mut bad_version = s.clone();
    // Output 0 of transaction 0 starts after: tag, len, record version, count, option tag,
    // tx version, input count, one input, output count.
    let first_out = 1 + 1 + 1 + 1 + 1 + 1 + 1 + 37 + 1;
    bad_version[first_out] = 9;
    assert!(find_txout_in_stored_transparent_tx_list(&bad_version, 0, 0).is_none());
    assert!(find_txout_in_stored_transparent_tx_list(&bad_version, 0, 1).is_some());
}

#[test]
fn compact_size_forms() {
    assert_eq!(read_compact_size(&[0xfc], 0), Some((0xfc, 1)));
    assert_eq!(read_compact_size(&[0xfd, 0x00, 0x01], 0), Some((256, 3)));
    assert_eq!(read_compact_size(&[0xfd, 0x10, 0x00], 0), None);
    assert_eq!(read_compact_size(&[0xfe, 0x00, 0x00, 0x01, 0x00], 0), Some((0x10000, 5)));
    assert_eq!(read_compact_size(&[0xfe, 0x00, 0x00, 0x00, 0x03], 0), None);
    assert_eq!(read_compact_size(&[0xff, 0, 0, 0, 0, 1, 0, 0, 0], 0), None);
    assert_eq!(read_compact_size(&[0xfd, 0x00], 0), None);
    assert_eq!(read_compact_size(&[], 0), None);
}

#[test]
fn previous_output_lookup() {
    let s = stored_list();
    let op = Outpoint::new([1; 32], 1);
    let o = get_previous_output(Some(TxLocation::new(5, 0)), &s, &op).unwrap();
    assert_eq!(o.value, 2000);
    assert_eq!(
        get_previous_output(None, &s, &op).unwrap_err(),
        PreviousOutputError::PreviousTxidNotFound
    );
    assert_eq!(
        get_previous_output(Some(TxLocation::new(5, 1)), &s, &op).unwrap_err(),
        PreviousOutputError::PreviousOutputNotFound
    );
}
