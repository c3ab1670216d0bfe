use zaino::proto_utils::{
    pool_types_from_vector, pool_types_into_i32_vec, BlockId, BlockRange, GetBlockRangeError,
    PoolType, PoolTypeError, ValidatedBlockRangeRequest,
};

fn block(height: u64) -> Option<BlockId> {
    Some(BlockId {
        height,
        hash: vec![],
    })
}

#[test]
fn empty_pool_types_select_sapling_and_orchard() {
    assert_eq!(
        pool_types_from_vector(&[]).unwrap(),
        vec![PoolType::Sapling, PoolType::Orchard]
    );
}

#[test]
fn pool_types_are_mapped_in_order() {
    assert_eq!(
        pool_types_from_vector(&[3, 1, 2]).unwrap(),
        vec![PoolType::Orchard, PoolType::Transparent, PoolType::Sapling]
    );
}

#[test]
fn invalid_pool_type_is_rejected() {
    assert_eq!(
        pool_types_from_vector(&[1, 0, 9]).unwrap_err(),
        PoolTypeError::InvalidPoolType
    );
}

#[test]
fn unknown_pool_type_is_rejected() {
    assert_eq!(
        pool_types_from_vector(&[2, 9, 0]).unwrap_err(),
        PoolTypeError::UnknownPoolType(9)
    );
    assert_eq!(
        pool_types_from_vector(&[-1]).unwrap_err(),
        PoolTypeError::UnknownPoolType(-1)
    );
}

#[test]
fn pool_types_into_i32_vec_gives_wire_numbers() {
    assert_eq!(
        pool_types_into_i32_vec(vec![
            PoolType::Transparent,
            PoolType::Sapling,
            PoolType::Orchard,
            PoolType::Invalid
        ]),
        vec![1, 2, 3, 0]
    );
}

#[test]
fn pool_types_roundtrip_through_wire_numbers() {
    let pools = vec![PoolType::Orchard, PoolType::Transparent];
    let numbers = pool_types_into_i32_vec(pools.clone());
    assert_eq!(pool_types_from_vector(&numbers).unwrap(), pools);
}

#[test]
fn validate_block_range_accepts_a_full_request() {
    let request = BlockRange {
        start: block(100),
        end: block(103),
        pool_types: vec![1, 2, 3],
    };
    let v = ValidatedBlockRangeRequest::validate_get_block_range_request(&request).unwrap();
    assert_eq!(v.start(), 100);
    assert_eq!(v.end(), 103);
    assert_eq!(
        v.pool_types(),
        &vec![PoolType::Transparent, PoolType::Sapling, PoolType::Orchard]
    );
    assert!(!v.is_reverse_ordered());
}

#[test]
fn validate_block_range_accepts_reversed_range() {
    let request = BlockRange {
        start: block(106),
        end: block(1),
        pool_types: vec![],
    };
    let v = ValidatedBlockRangeRequest::validate_get_block_range_request(&request).unwrap();
    assert!(v.is_reverse_ordered());
    assert_eq!(v.pool_types(), &vec![PoolType::Sapling, PoolType::Orchard]);
}

#[test]
fn validate_block_range_equal_heights_are_not_reversed() {
    let request = BlockRange {
        start: block(7),
        end: block(7),
        pool_types: vec![],
    };
    let v = ValidatedBlockRangeRequest::validate_get_block_range_request(&request).unwrap();
    assert!(!v.is_reverse_ordered());
}

#[test]
fn validate_block_range_errors() {
    let missing_start = BlockRange {
        start: None,
        end: block(1),
        pool_types: vec![],
    };
    assert_eq!(
        ValidatedBlockRangeRequest::validate_get_block_range_request(&missing_start).unwrap_err(),
        GetBlockRangeError::NoStartHeightProvided
    );
    let big_start = BlockRange {
        start: block(u32::MAX as u64 + 1),
        end: None,
        pool_types: vec![],
    };
    assert_eq!(
        ValidatedBlockRangeRequest::validate_get_block_range_request(&big_start).unwrap_err(),
        GetBlockRangeError::StartHeightOutOfRange
    );
    let missing_end = BlockRange {
        start: block(1),
        end: None,
        pool_types: vec![],
    };
    assert_eq!(
        ValidatedBlockRangeRequest::validate_get_block_range_request(&missing_end).unwrap_err(),
        GetBlockRangeError::NoEndHeightProvided
    );
    let big_end = BlockRange {
        start: block(u32::MAX as u64),
        end: block(u64::MAX),
        pool_types: vec![],
    };
    assert_eq!(
        ValidatedBlockRangeRequest::validate_get_block_range_request(&big_end).unwrap_err(),
        GetBlockRangeError::EndHeightOutOfRange
    );
    let bad_pool = BlockRange {
        start: block(1),
        end: block(2),
        pool_types: vec![0],
    };
    assert_eq!(
        ValidatedBlockRangeRequest::validate_get_block_range_request(&bad_pool).unwrap_err(),
        GetBlockRangeError::PoolTypArgumentError(PoolTypeError::InvalidPoolType)
    );
}
