use zaino::metadata::{DecodeError, FinalisedTxOutSetInfoAccumulator, MempoolInfo};

#[test]
fn finalised_tx_out_set_info_accumulator_roundtrips() {
    let accumulator = FinalisedTxOutSetInfoAccumulator {
        transactions: 12,
        transaction_outputs: 34,
    };

    let encoded_accumulator = accumulator
        .to_bytes()
        .expect("finalised txout set info accumulator should encode");

    assert_eq!(
        encoded_accumulator.len(),
        FinalisedTxOutSetInfoAccumulator::VERSIONED_LEN
    );

    let decoded_accumulator = FinalisedTxOutSetInfoAccumulator::from_bytes(&encoded_accumulator)
        .expect("finalised txout set info accumulator should decode");

    assert_eq!(decoded_accumulator, accumulator);
}

#[test]
fn finalised_tx_out_set_info_accumulator_empty_is_zero() {
    let accumulator = FinalisedTxOutSetInfoAccumulator::empty();

    assert_eq!(accumulator.transactions, 0);
    assert_eq!(accumulator.transaction_outputs, 0);
}

#[test]
fn accumulator_new_keeps_fields() {
    let a = FinalisedTxOutSetInfoAccumulator::new(5, 9);
    assert_eq!(a.transactions, 5);
    assert_eq!(a.transaction_outputs, 9);
}

#[test]
fn accumulator_encoding_is_version_tag_then_little_endian_words() {
    let a = FinalisedTxOutSetInfoAccumulator::new(0x0102, 0x0304_0506_0708_090a);
    let bytes = a.to_bytes().unwrap();
    assert_eq!(
        bytes,
        vec![1, 0x02, 0x01, 0, 0, 0, 0, 0, 0, 0x0a, 0x09, 0x08, 0x07, 0x06, 0x05, 0x04, 0x03]
    );
}

#[test]
fn accumulator_decode_errors() {
    assert_eq!(
        FinalisedTxOutSetInfoAccumulator::from_bytes(&[]),
        Err(DecodeError::UnexpectedEof)
    );
    assert_eq!(
        FinalisedTxOutSetInfoAccumulator::from_bytes(&[2, 0, 0]),
        Err(DecodeError::UnsupportedVersion(2))
    );
    assert_eq!(
        FinalisedTxOutSetInfoAccumulator::from_bytes(&[1, 0, 0]),
        Err(DecodeError::UnexpectedEof)
    );
    assert_eq!(
        FinalisedTxOutSetInfoAccumulator::decode_v1(&[0u8; 15]),
        Err(DecodeError::UnexpectedEof)
    );
}

#[test]
fn accumulator_decode_ignores_trailing_bytes() {
    let mut bytes = FinalisedTxOutSetInfoAccumulator::new(7, 8).to_bytes().unwrap();
    bytes.push(0xff);
    assert_eq!(
        FinalisedTxOutSetInfoAccumulator::from_bytes(&bytes),
        Ok(FinalisedTxOutSetInfoAccumulator::new(7, 8))
    );
}

#[test]
fn mempool_info_roundtrips() {
    let info = MempoolInfo {
        size: 3,
        bytes: u64::MAX,
        usage: 1 << 40,
    };
    let encoded = info.to_bytes().unwrap();
    assert_eq!(encoded.len(), MempoolInfo::VERSIONED_LEN);
    assert_eq!(encoded[0], MempoolInfo::VERSION);
    assert_eq!(MempoolInfo::from_bytes(&encoded), Ok(info));
}

#[test]
fn mempool_info_v1_body() {
    let info = MempoolInfo {
        size: 1,
        bytes: 2,
        usage: 3,
    };
    let mut out = vec![0xaa];
    info.encode_v1(&mut out);
    assert_eq!(out.len(), 1 + MempoolInfo::ENCODED_LEN);
    assert_eq!(out[0], 0xaa);
    assert_eq!(out[1], 1);
    assert_eq!(out[9], 2);
    assert_eq!(out[17], 3);
    assert_eq!(MempoolInfo::decode_v1(&out[1..]), Ok(info));
    assert_eq!(MempoolInfo::decode_latest(&out[1..]), Ok(info));
    assert_eq!(
        MempoolInfo::decode_v1(&out[2..]),
        Err(DecodeError::UnexpectedEof)
    );
}

#[test]
fn accumulator_default_is_empty() {
    assert_eq!(
        FinalisedTxOutSetInfoAccumulator::default(),
        FinalisedTxOutSetInfoAccumulator::empty()
    );
}

#[test]
fn mempool_info_body_decodes_before_any_suffix() {
    let m = MempoolInfo { size: 3, bytes: 700, usage: 9000 };
    let mut w = Vec::new();
    m.encode_v1(&mut w);
    assert_eq!(w.len(), MempoolInfo::ENCODED_LEN);
    w.extend_from_slice(&[0xAA, 0xBB, 0xCC]);
    assert_eq!(MempoolInfo::decode_v1(&w), Ok(m));
    assert_eq!(MempoolInfo::decode_v1(&w[..23]), Err(DecodeError::UnexpectedEof));
}
