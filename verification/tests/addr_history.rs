use zaino::addr_history::{
    addr_and_index_records, addr_records, addr_balance_by_range, decode_addr_hist_record, addr_hist_records_by_addr_and_index, addr_tx_locations_by_range,
    addr_utxos_by_range, delete_addrhist_dups, mark_addr_hist_record, AddrHistError, MarkOutcome,
    FLAG_IS_INPUT, FLAG_MINED, FLAG_SPENT,
};
use zaino::checksum::blake2b256_digest;
use zaino::metadata::DecodeError;
use zaino::types::TxLocation;

const ADDR: [u8; 22] = [3; 22];

fn record(height: u32, tx_index: u16, vout: u16, flags: u8, value: u64) -> Vec<u8> {
    let mut v = vec![1u8, 1u8];
    v.extend_from_slice(&height.to_be_bytes());
    v.extend_from_slice(&tx_index.to_be_bytes());
    v.extend_from_slice(&vout.to_be_bytes());
    v.push(flags);
    v.extend_from_slice(&value.to_le_bytes());
    let mut data = ADDR.to_vec();
    data.extend_from_slice(&v[1..19]);
    v.extend_from_slice(&blake2b256_digest(&data));
    v
}

fn keyed(values: &[Vec<u8>]) -> Vec<(Vec<u8>, Vec<u8>)> {
    values.iter().map(|v| (ADDR.to_vec(), v.clone())).collect()
}

#[test]
fn tx_locations_are_distinct_sorted_and_in_range() {
    let records = keyed(&[
        record(12, 1, 0, FLAG_MINED, 5),
        record(10, 4, 1, FLAG_MINED, 5),
        record(12, 1, 1, FLAG_IS_INPUT, 5),
        record(10, 2, 0, FLAG_MINED, 5),
        record(30, 0, 0, FLAG_MINED, 5),
        record(9, 0, 0, FLAG_MINED, 5),
    ]);
    let locs = addr_tx_locations_by_range(&records, 10, 12).unwrap();
    assert_eq!(
        locs,
        vec![TxLocation::new(10, 2), TxLocation::new(10, 4), TxLocation::new(12, 1)]
    );
    assert_eq!(addr_tx_locations_by_range(&records, 13, 29), None);
}

#[test]
fn malformed_pairs_are_skipped() {
    let mut records = keyed(&[record(10, 0, 0, FLAG_MINED, 5)]);
    records.push((vec![0u8; 5], record(11, 0, 0, FLAG_MINED, 5)));
    records.push((ADDR.to_vec(), vec![0u8; 50]));
    assert_eq!(
        addr_tx_locations_by_range(&records, 0, 100).unwrap(),
        vec![TxLocation::new(10, 0)]
    );
}

#[test]
fn utxos_are_unspent_mined_outputs_in_range() {
    let records = keyed(&[
        record(10, 1, 0, FLAG_MINED, 50),
        record(10, 1, 1, FLAG_MINED | FLAG_SPENT, 60),
        record(11, 0, 0, FLAG_IS_INPUT, 50),
        record(11, 2, 3, FLAG_MINED, 70),
        record(20, 0, 0, FLAG_MINED, 80),
    ]);
    assert_eq!(
        addr_utxos_by_range(&records, 10, 11).unwrap(),
        vec![(TxLocation::new(10, 1), 0, 50), (TxLocation::new(11, 2), 3, 70)]
    );
    assert_eq!(addr_utxos_by_range(&records, 12, 19), None);
}

#[test]
fn balance_adds_outputs_and_subtracts_inputs() {
    let records = keyed(&[
        record(10, 1, 0, FLAG_MINED, 50),
        record(10, 1, 1, FLAG_MINED | FLAG_SPENT, 60),
        record(11, 0, 0, FLAG_IS_INPUT, 50),
        record(11, 2, 3, FLAG_MINED, 70),
        record(20, 0, 0, FLAG_MINED, 80),
    ]);
    assert_eq!(addr_balance_by_range(&records, 10, 11), Ok(130));
    assert_eq!(addr_balance_by_range(&records, 11, 11), Ok(20));
    assert_eq!(addr_balance_by_range(&records, 11, 20), Ok(100));
    assert_eq!(addr_balance_by_range(&[], 0, 100), Err(AddrHistError::NoRecordForKey));
}

#[test]
fn records_at_location_stop_past_it() {
    let values = vec![
        record(10, 1, 0, FLAG_MINED, 50),
        record(10, 2, 0, FLAG_MINED, 60),
        record(10, 2, 1, FLAG_IS_INPUT, 60),
        record(10, 3, 0, FLAG_MINED, 70),
        vec![0u8; 3],
    ];
    let found = addr_hist_records_by_addr_and_index(&values, TxLocation::new(10, 2)).unwrap();
    assert_eq!(found, vec![values[1].clone(), values[2].clone()]);
    // Scanning for a later location reaches the malformed record.
    assert_eq!(
        addr_hist_records_by_addr_and_index(&values, TxLocation::new(11, 0)),
        Err(AddrHistError::ValueLengthMismatch)
    );
    let mut bad_tag = record(10, 1, 0, FLAG_MINED, 50);
    bad_tag[0] = 2;
    assert_eq!(
        addr_hist_records_by_addr_and_index(&[bad_tag], TxLocation::new(10, 1)),
        Err(AddrHistError::VersionTagMismatch)
    );
    assert_eq!(
        addr_hist_records_by_addr_and_index(&[], TxLocation::new(1, 1)).unwrap(),
        Vec::<Vec<u8>>::new()
    );
}

#[test]
fn deleting_block_records_walks_back_from_newest() {
    let values = vec![
        record(9, 0, 0, FLAG_MINED, 1),
        record(10, 0, 0, FLAG_MINED, 1),
        record(10, 1, 0, FLAG_IS_INPUT, 1),
        record(10, 2, 0, FLAG_MINED, 1),
        record(11, 0, 0, FLAG_MINED, 1),
    ];
    assert_eq!(delete_addrhist_dups(&values, 10, false, true, 2), Ok(vec![3, 1]));
    assert_eq!(delete_addrhist_dups(&values, 10, true, true, 2), Ok(vec![3, 2]));
    assert_eq!(delete_addrhist_dups(&values, 10, true, false, 1), Ok(vec![2]));
    assert_eq!(
        delete_addrhist_dups(&values, 10, false, true, 3),
        Err((AddrHistError::DeleteCountMismatch { expected: 3, deleted: 2 }, vec![3, 1]))
    );
}

#[test]
fn deleting_block_records_errors() {
    let values = vec![record(10, 0, 0, FLAG_MINED, 1)];
    assert_eq!(
        delete_addrhist_dups(&values, 10, false, false, 1),
        Err((AddrHistError::NothingSelected, vec![]))
    );
    assert_eq!(
        delete_addrhist_dups(&values, 10, true, true, 0),
        Err((AddrHistError::ZeroExpected, vec![]))
    );
    assert_eq!(
        delete_addrhist_dups(&[], 10, true, true, 1),
        Err((AddrHistError::NoRecordForKey, vec![]))
    );
}

#[test]
fn marking_spent_then_unspent_restores_the_record() {
    let original = record(10, 1, 2, FLAG_MINED, 99);
    let values = vec![record(10, 0, 0, FLAG_MINED, 5), original.clone()];
    let spent = match mark_addr_hist_record(&ADDR, &values, &original, true).unwrap() {
        MarkOutcome::Updated { position, record } => {
            assert_eq!(position, 1);
            record
        }
        other => panic!("unexpected outcome {:?}", other),
    };
    assert_eq!(spent, record(10, 1, 2, FLAG_MINED | FLAG_SPENT, 99));
    let values2 = vec![values[0].clone(), spent.clone()];
    match mark_addr_hist_record(&ADDR, &values2, &spent, true).unwrap() {
        MarkOutcome::AlreadyMarked => {}
        other => panic!("unexpected outcome {:?}", other),
    }
    match mark_addr_hist_record(&ADDR, &values2, &spent, false).unwrap() {
        MarkOutcome::Updated { position, record } => {
            assert_eq!(position, 1);
            assert_eq!(record, original);
        }
        other => panic!("unexpected outcome {:?}", other),
    }
}

#[test]
fn marking_errors_and_not_found() {
    let input = record(10, 1, 0, FLAG_IS_INPUT, 5);
    assert_eq!(
        mark_addr_hist_record(&ADDR, &[input.clone()], &input, true).unwrap_err(),
        AddrHistError::MarkInputRecord
    );
    let unmined = record(10, 1, 0, FLAG_SPENT, 5);
    assert_eq!(
        mark_addr_hist_record(&ADDR, &[unmined.clone()], &unmined, false).unwrap_err(),
        AddrHistError::MarkNonMinedRecord
    );
    let other = record(10, 1, 0, FLAG_MINED, 5);
    assert!(matches!(
        mark_addr_hist_record(&ADDR, &[other.clone()], &record(10, 1, 1, FLAG_MINED, 5), true),
        Ok(MarkOutcome::NotFound)
    ));
    assert_eq!(
        mark_addr_hist_record(&ADDR, &[vec![1, 2], other.clone()], &other, true).unwrap_err(),
        AddrHistError::ValueLengthMismatch
    );
    match mark_addr_hist_record(&ADDR, &[other.clone()], &other, false).unwrap() {
        MarkOutcome::AlreadyMarked => {}
        o => panic!("unexpected outcome {:?}", o),
    }
}

#[test]
fn addr_records_decode_payloads_in_order() {
    let a = record(10, 1, 0, FLAG_MINED, 50);
    let b = record(11, 2, 3, FLAG_IS_INPUT, 70);
    let mut records = keyed(&[a.clone(), b.clone()]);
    records.push((vec![0u8; 3], record(12, 0, 0, FLAG_MINED, 1)));
    let got = addr_records(&records).unwrap().unwrap();
    assert_eq!(got.len(), 2);
    assert_eq!(got[0].0.to_vec(), a[2..19].to_vec());
    assert_eq!(got[1].0.to_vec(), b[2..19].to_vec());
}

#[test]
fn addr_records_none_without_well_sized_records() {
    assert_eq!(addr_records(&[]), Ok(None));
    let records = vec![(ADDR.to_vec(), vec![1u8; 50])];
    assert_eq!(addr_records(&records), Ok(None));
}

#[test]
fn addr_records_fail_on_bad_version() {
    let mut bad = record(10, 1, 0, FLAG_MINED, 50);
    bad[1] = 9;
    let records = keyed(&[record(9, 0, 0, FLAG_MINED, 5), bad]);
    assert_eq!(addr_records(&records), Err(DecodeError::UnsupportedVersion(9)));
}

#[test]
fn decode_record_checks_tags_and_length() {
    let r = record(10, 1, 0, FLAG_MINED, 50);
    assert_eq!(decode_addr_hist_record(&r).unwrap().0.to_vec(), r[2..19].to_vec());
    assert_eq!(decode_addr_hist_record(&[]), Err(DecodeError::UnexpectedEof));
    assert_eq!(decode_addr_hist_record(&[2]), Err(DecodeError::UnsupportedVersion(2)));
    assert_eq!(decode_addr_hist_record(&r[..30]), Err(DecodeError::UnexpectedEof));
}

#[test]
fn addr_and_index_records_at_location() {
    let values = vec![
        record(10, 1, 0, FLAG_MINED, 50),
        record(10, 1, 1, FLAG_MINED, 60),
        record(10, 2, 0, FLAG_MINED, 70),
    ];
    let got = addr_and_index_records(&values, TxLocation::new(10, 1)).unwrap().unwrap();
    assert_eq!(got.len(), 2);
    assert_eq!(got[1].0.to_vec(), values[1][2..19].to_vec());
    assert_eq!(addr_and_index_records(&values, TxLocation::new(10, 0)), Ok(None));
    let short = vec![vec![1u8; 10]];
    assert_eq!(
        addr_and_index_records(&short, TxLocation::new(10, 0)),
        Err(AddrHistError::ValueLengthMismatch)
    );
}
