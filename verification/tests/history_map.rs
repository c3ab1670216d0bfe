use zaino::addr_history::{FLAG_IS_INPUT, FLAG_MINED};
use zaino::history_map::{
    build_input_history, build_transaction_output_histories, AddrHistRecord, AddrHistoryMap,
    AddrScript,
};
use zaino::types::{TxInCompact, TxLocation, TxOutCompact};

fn out(value: u64, hash: u8) -> TxOutCompact {
    TxOutCompact {
        value,
        script_hash: [hash; 20],
        script_type: 0,
    }
}

#[test]
fn output_histories_group_by_address_in_order() {
    let mut map: AddrHistoryMap<AddrHistRecord> = AddrHistoryMap::new();
    let loc = TxLocation::new(7, 3);
    build_transaction_output_histories(&mut map, loc, &[(0, out(10, 1)), (1, out(20, 2)), (2, out(30, 1))]);
    let a = map.get(&AddrScript::new([1; 20], 0)).unwrap();
    assert_eq!(
        a,
        &vec![
            AddrHistRecord::new(loc, 0, 10, FLAG_MINED),
            AddrHistRecord::new(loc, 2, 30, FLAG_MINED)
        ]
    );
    let b = map.get(&AddrScript::new([2; 20], 0)).unwrap();
    assert_eq!(b, &vec![AddrHistRecord::new(loc, 1, 20, FLAG_MINED)]);
    assert!(map.get(&AddrScript::new([1; 20], 1)).is_none());

    let loc2 = TxLocation::new(8, 0);
    build_transaction_output_histories(&mut map, loc2, &[(5, out(40, 2))]);
    assert_eq!(
        map.get(&AddrScript::new([2; 20], 0)).unwrap(),
        &vec![
            AddrHistRecord::new(loc, 1, 20, FLAG_MINED),
            AddrHistRecord::new(loc2, 5, 40, FLAG_MINED)
        ]
    );
}

#[test]
fn input_history_pairs_spend_with_previous_output() {
    let mut map: AddrHistoryMap<(AddrHistRecord, (AddrScript, AddrHistRecord))> =
        AddrHistoryMap::new();
    let input = TxInCompact {
        prevout_txid: [5; 32],
        prevout_index: 4,
    };
    let prev = out(55, 9);
    let input_loc = TxLocation::new(20, 1);
    let prev_loc = TxLocation::new(15, 2);
    build_input_history(&mut map, input_loc, 3, &input, &prev, prev_loc);
    let entries = map.get(&AddrScript::new([9; 20], 0)).unwrap();
    assert_eq!(entries.len(), 1);
    let (spend, (addr, prev_record)) = &entries[0];
    assert_eq!(*spend, AddrHistRecord::new(input_loc, 3, 55, FLAG_IS_INPUT));
    assert_eq!(addr.hash, [9; 20]);
    assert_eq!(*prev_record, AddrHistRecord::new(prev_loc, 4, 55, FLAG_MINED));
}
