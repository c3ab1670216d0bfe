//! Pool-type and block-range request handling of the compact-block service.
use vstd::prelude::*;

verus! {

/// The shielded or transparent value pools a compact-block request can select.
#[derive(Clone, Copy, Debug, PartialEq, Eq, Structural)]
pub enum PoolType {
    Invalid,
    Transparent,
    Sapling,
    Orchard,
}

/// The wire number of a pool type.
pub open spec fn pool_type_number(p: PoolType) -> i32 {
    match p {
        PoolType::Invalid => 0,
        PoolType::Transparent => 1,
        PoolType::Sapling => 2,
        PoolType::Orchard => 3,
    }
}

/// The pool type with wire number `v`, if any.
pub open spec fn pool_type_of(v: i32) -> Option<PoolType> {
    if v == 0 {
        Some(PoolType::Invalid)
    } else if v == 1 {
        Some(PoolType::Transparent)
    } else if v == 2 {
        Some(PoolType::Sapling)
    } else if v == 3 {
        Some(PoolType::Orchard)
    } else {
        None
    }
}

impl PoolType {
    /// The wire number of this pool type.
    pub fn as_i32(&self) -> (r: i32)
        ensures
            r == pool_type_number(*self),
    {
        match self {
            PoolType::Invalid => 0,
            PoolType::Transparent => 1,
            PoolType::Sapling => 2,
            PoolType::Orchard => 3,
        }
    }

    /// The pool type with wire number `v`, or `None` for a number that names none.
    pub fn try_from_i32(v: i32) -> (r: Option<PoolType>)
        ensures
            r == pool_type_of(v),
    {
        if v == 0 {
            Some(PoolType::Invalid)
        } else if v == 1 {
            Some(PoolType::Transparent)
        } else if v == 2 {
            Some(PoolType::Sapling)
        } else if v == 3 {
            Some(PoolType::Orchard)
        } else {
            None
        }
    }
}

/// Errors that can arise when mapping `PoolType` from an `i32` value.
#[derive(Clone, Copy, Debug, PartialEq, Eq, Structural)]
pub enum PoolTypeError {
    /// Pool Type value was map to the enum `PoolType::Invalid`.
    InvalidPoolType,
    /// Pool Type value was mapped to value that can't be mapped to a known pool type.
    UnknownPoolType(i32),
}

/// The first of the first `n` numbers that names no valid pool, as an error.
pub open spec fn first_pool_type_error(v: Seq<i32>, n: nat) -> Option<PoolTypeError>
    decreases n,
{
    if n == 0 {
        None
    } else {
        match first_pool_type_error(v, (n - 1) as nat) {
            Some(e) => Some(e),
            None => match pool_type_of(v[n - 1]) {
                None => Some(PoolTypeError::UnknownPoolType(v[n - 1])),
                Some(PoolType::Invalid) => Some(PoolTypeError::InvalidPoolType),
                Some(_) => None,
            },
        }
    }
}

/// The pools selected by a list of wire numbers: Sapling and Orchard when the list is empty,
/// otherwise the named pools in order; the first number naming `Invalid` or no pool is an
/// error.
pub open spec fn spec_pool_types_from_vector(v: Seq<i32>) -> Result<Seq<PoolType>, PoolTypeError> {
    if v.len() == 0 {
        Ok(seq![PoolType::Sapling, PoolType::Orchard])
    } else {
        match first_pool_type_error(v, v.len()) {
            Some(e) => Err(e),
            None => Ok(v.map_values(|x: i32| pool_type_of(x)->0)),
        }
    }
}

/// Converts a vector of pool_types (i32) into its rich-type representation.
/// Returns an error when invalid `pool_types` are found.
pub fn pool_types_from_vector(pool_types: &[i32]) -> (r: Result<Vec<PoolType>, PoolTypeError>)
    ensures
        match r {
            Ok(p) => spec_pool_types_from_vector(pool_types@) == Ok::<Seq<PoolType>, PoolTypeError>(
                p@,
            ),
            Err(e) => spec_pool_types_from_vector(pool_types@) == Err::<Seq<PoolType>, PoolTypeError>(
                e,
            ),
        },
{
    if pool_types.len() == 0 {
        let pools = vec![PoolType::Sapling, PoolType::Orchard];
        assert(pools@ =~= seq![PoolType::Sapling, PoolType::Orchard]);
        return Ok(pools);
    }
    let mut pools: Vec<PoolType> = Vec::new();
    let mut i: usize = 0;
    while i < pool_types.len()
        invariant
            0 <= i <= pool_types@.len(),
            first_pool_type_error(pool_types@, i as nat) is None,
            pools@ =~= pool_types@.take(i as int).map_values(|x: i32| pool_type_of(x)->0),
        decreases pool_types@.len() - i,
    {
        let ghost n = pool_types@.len();
        match PoolType::try_from_i32(pool_types[i]) {
            Some(pool_type) => {
                if pool_type == PoolType::Invalid {
                    proof {
                        lemma_first_pool_type_error_persists(pool_types@, (i + 1) as nat, n);
                    }
                    return Err(PoolTypeError::InvalidPoolType);
                } else {
                    pools.push(pool_type);
                }
            },
            None => {
                proof {
                    lemma_first_pool_type_error_persists(pool_types@, (i + 1) as nat, n);
                }
                return Err(PoolTypeError::UnknownPoolType(pool_types[i]));
            },
        }
        i = i + 1;
        assert(pools@ =~= pool_types@.take(i as int).map_values(|x: i32| pool_type_of(x)->0));
    }
    assert(pool_types@.take(i as int) =~= pool_types@);
    Ok(pools)
}

/// Once a number naming no valid pool is met, the error stays the same.
proof fn lemma_first_pool_type_error_persists(v: Seq<i32>, m: nat, n: nat)
    requires
        m <= n,
        first_pool_type_error(v, m) is Some,
    ensures
        first_pool_type_error(v, n) == first_pool_type_error(v, m),
    decreases n - m,
{
    if m < n {
        lemma_first_pool_type_error_persists(v, m, (n - 1) as nat);
    }
}

/// Converts a `Vec<PoolType>` into a `Vec<i32>`.
pub fn pool_types_into_i32_vec(pool_types: Vec<PoolType>) -> (r: Vec<i32>)
    ensures
        r@ == pool_types@.map_values(|p: PoolType| pool_type_number(p)),
{
    let mut out: Vec<i32> = Vec::new();
    let mut i: usize = 0;
    while i < pool_types.len()
        invariant
            0 <= i <= pool_types@.len(),
            out@ =~= pool_types@.take(i as int).map_values(|p: PoolType| pool_type_number(p)),
        decreases pool_types@.len() - i,
    {
        out.push(pool_types[i].as_i32());
        i = i + 1;
        assert(out@ =~= pool_types@.take(i as int).map_values(|p: PoolType| pool_type_number(p)));
    }
    assert(pool_types@.take(i as int) =~= pool_types@);
    out
}

/// A block identifier: height and hash.
#[derive(Clone, Debug)]
pub struct BlockId {
    pub height: u64,
    pub hash: Vec<u8>,
}

/// A `GetBlockRange` request: start and end block, and the pools to include.
#[derive(Clone, Debug)]
pub struct BlockRange {
    pub start: Option<BlockId>,
    pub end: Option<BlockId>,
    pub pool_types: Vec<i32>,
}

/// Errors that can be present in the request of the GetBlockRange RPC
#[derive(Clone, Copy, Debug, PartialEq, Eq, Structural)]
pub enum GetBlockRangeError {
    /// Error: No start height given.
    NoStartHeightProvided,
    /// Error: No end height given.
    NoEndHeightProvided,
    /// Start height out of range. Failed to convert to u32.
    StartHeightOutOfRange,
    /// End height out of range. Failed to convert to u32.
    EndHeightOutOfRange,
    /// An invalid pool type request was provided.
    PoolTypArgumentError(PoolTypeError),
}

/// A given block identifier whose height fits into `u32`.
pub open spec fn height_fits(b: Option<BlockId>) -> bool {
    b matches Some(x) && x.height <= u32::MAX
}

/// A given block identifier whose height does not fit into `u32`.
pub open spec fn height_too_large(b: Option<BlockId>) -> bool {
    b matches Some(x) && x.height > u32::MAX
}

/// A `GetBlockRange` request that passed validation.
#[derive(Debug)]
pub struct ValidatedBlockRangeRequest {
    start: u32,
    end: u32,
    pool_types: Vec<PoolType>,
}

impl ValidatedBlockRangeRequest {
    /// The requested start height.
    pub closed spec fn spec_start(&self) -> u32 {
        self.start
    }

    /// The requested end height.
    pub closed spec fn spec_end(&self) -> u32 {
        self.end
    }

    /// The requested pools.
    pub closed spec fn spec_pool_types(&self) -> Seq<PoolType> {
        self.pool_types@
    }

    /// validates a BlockRange in terms of the `GetBlockRange` RPC
    ///
    /// The start and the end must be given, each height must fit into `u32`, and the pool
    /// numbers must name valid pools (none selects Sapling and Orchard); checked in that order.
    pub fn validate_get_block_range_request(request: &BlockRange) -> (r: Result<
        ValidatedBlockRangeRequest,
        GetBlockRangeError,
    >)
        ensures
            match r {
                Ok(v) => {
                    &&& height_fits(request.start) && v.spec_start() == request.start->0.height
                    &&& height_fits(request.end) && v.spec_end() == request.end->0.height
                    &&& spec_pool_types_from_vector(request.pool_types@) == Ok::<
                        Seq<PoolType>,
                        PoolTypeError,
                    >(v.spec_pool_types())
                },
                Err(GetBlockRangeError::NoStartHeightProvided) => request.start is None,
                Err(GetBlockRangeError::StartHeightOutOfRange) => height_too_large(request.start),
                Err(GetBlockRangeError::NoEndHeightProvided) => height_fits(request.start)
                    && request.end is None,
                Err(GetBlockRangeError::EndHeightOutOfRange) => height_fits(request.start)
                    && height_too_large(request.end),
                Err(GetBlockRangeError::PoolTypArgumentError(pe)) => height_fits(request.start)
                    && height_fits(request.end) && spec_pool_types_from_vector(request.pool_types@)
                    == Err::<Seq<PoolType>, PoolTypeError>(pe),
            },
    {
        let start = match &request.start {
            Some(block_id) => {
                if block_id.height > u32::MAX as u64 {
                    return Err(GetBlockRangeError::StartHeightOutOfRange);
                }
                block_id.height as u32
            },
            None => return Err(GetBlockRangeError::NoStartHeightProvided),
        };
        let end = match &request.end {
            Some(block_id) => {
                if block_id.height > u32::MAX as u64 {
                    return Err(GetBlockRangeError::EndHeightOutOfRange);
                }
                block_id.height as u32
            },
            None => return Err(GetBlockRangeError::NoEndHeightProvided),
        };
        let pool_types = match pool_types_from_vector(request.pool_types.as_slice()) {
            Ok(p) => p,
            Err(e) => return Err(GetBlockRangeError::PoolTypArgumentError(e)),
        };
        Ok(ValidatedBlockRangeRequest { start, end, pool_types })
    }

    /// checks whether this request is specified in reversed order
    pub fn is_reverse_ordered(&self) -> (r: bool)
        ensures
            r == (self.spec_start() > self.spec_end()),
    {
        if self.start > self.end {
            true
        } else {
            false
        }
    }

    /// The requested start height.
    pub fn start(&self) -> (r: u32)
        ensures
            r == self.spec_start(),
    {
        self.start
    }

    /// The requested end height.
    pub fn end(&self) -> (r: u32)
        ensures
            r == self.spec_end(),
    {
        self.end
    }

    /// The requested pools.
    pub fn pool_types(&self) -> (r: &Vec<PoolType>)
        ensures
            r@ == self.spec_pool_types(),
    {
        &self.pool_types
    }
}


/// A pool type is named by its own wire number.
pub proof fn lemma_pool_type_number_roundtrip(p: PoolType)
    ensures
        pool_type_of(pool_type_number(p)) == Some(p),
{
}

/// Converting a non-empty list of valid pools to wire numbers and back gives the list back.
pub proof fn lemma_pool_types_roundtrip(pools: Seq<PoolType>)
    requires
        pools.len() > 0,
        forall|i: int| 0 <= i < pools.len() ==> pools[i] != PoolType::Invalid,
    ensures
        spec_pool_types_from_vector(pools.map_values(|p: PoolType| pool_type_number(p))) == Ok::<
            Seq<PoolType>,
            PoolTypeError,
        >(pools),
{
    let nums = pools.map_values(|p: PoolType| pool_type_number(p));
    lemma_no_pool_type_error(pools, nums.len());
    assert(nums.map_values(|x: i32| pool_type_of(x)->0) =~= pools);
}

proof fn lemma_no_pool_type_error(pools: Seq<PoolType>, n: nat)
    requires
        n <= pools.len(),
        forall|i: int| 0 <= i < pools.len() ==> pools[i] != PoolType::Invalid,
    ensures
        first_pool_type_error(pools.map_values(|p: PoolType| pool_type_number(p)), n) is None,
    decreases n,
{
    if n > 0 {
        lemma_no_pool_type_error(pools, (n - 1) as nat);
        assert(pools[n - 1] != PoolType::Invalid);
    }
}

} // verus!
