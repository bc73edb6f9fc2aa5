use vstd::prelude::*;
use crate::fork::BlockHeader;
use vstd::arithmetic::div_mod::{lemma_div_is_ordered, lemma_div_multiples_vanish};
use vstd::arithmetic::mul::lemma_mul_inequality;

verus! {

/// The rule set the execution engine runs under. The engine simulates
/// against current remote state, so the newest fully specified rules are
/// the default; a caller may pin an older set explicitly.
#[derive(Clone, Copy, PartialEq, Eq, Structural, Debug)]
pub enum Hardfork {
    Homestead,
    Berlin,
    London,
    Merge,
    Latest,
}

/// The per-transaction gas cap when the caller pins none: a fixed ceiling
/// for estimation, deliberately independent of the live chain's limit.
pub const DEFAULT_GAS_LIMIT: u64 = 30_000_000;

/// The gas price used when the remote chain offers neither a base fee nor
/// a suggested price: estimation needs only a non-zero placeholder, not an
/// economically accurate value.
pub const NEUTRAL_GAS_PRICE: u64 = 1_000_000_000;

/// A block may use up to twice its base-fee target.
pub const ELASTICITY_MULTIPLIER: u64 = 2;

/// The base fee moves by at most an eighth per block.
pub const BASE_FEE_CHANGE_DENOMINATOR: u64 = 8;

/// The full parameter set under which every transaction of one batch
/// executes: built once per batch, shared read-only by each transaction.
#[derive(Clone, Copy, PartialEq, Eq, Structural, Debug)]
pub struct ExecutionEnvironment {
    pub chain_id: u64,
    pub hardfork: Hardfork,
    pub gas_limit: u64,
    /// The projected base fee of the next block; absent on a chain without
    /// a base-fee market.
    pub base_fee: Option<u64>,
    /// The fallback price for chains or blocks without a base fee.
    pub gas_price: u64,
}

/// The base fee the network would charge for the block after one that
/// closed with `gas_used` of `gas_limit` at `base_fee`: the standard
/// elasticity adjustment, clamped to the 64-bit range.
pub open spec fn next_base_fee_model(gas_used: u64, gas_limit: u64, base_fee: u64) -> int {
    let target = gas_limit as int / ELASTICITY_MULTIPLIER as int;
    if target == 0 || gas_used == target {
        base_fee as int
    } else if gas_used > target {
        let delta = base_fee * (gas_used - target) / target / BASE_FEE_CHANGE_DENOMINATOR as int;
        let raised = if delta > 1 {
            base_fee + delta
        } else {
            base_fee + 1
        };
        if raised > u64::MAX {
            u64::MAX as int
        } else {
            raised
        }
    } else {
        base_fee - base_fee * (target - gas_used) / target / BASE_FEE_CHANGE_DENOMINATOR as int
    }
}

proof fn lemma_mul_fits_u128(a: int, b: int)
    requires
        0 <= a <= u64::MAX,
        0 <= b <= u64::MAX,
    ensures
        a * b <= u128::MAX,
{
    assert(a * b <= u64::MAX * u64::MAX) by (nonlinear_arith)
        requires
            0 <= a <= u64::MAX,
            0 <= b <= u64::MAX,
    ;
}

/// Computes the next block's base fee from the fork block's figures.
pub fn next_base_fee(gas_used: u64, gas_limit: u64, base_fee: u64) -> (r: u64)
    ensures
        r == next_base_fee_model(gas_used, gas_limit, base_fee),
{
    let target: u64 = gas_limit / ELASTICITY_MULTIPLIER;
    if target == 0 || gas_used == target {
        base_fee
    } else if gas_used > target {
        proof {
            lemma_mul_fits_u128(base_fee as int, (gas_used - target) as int);
        }
        let num: u128 = (base_fee as u128) * ((gas_used - target) as u128);
        let delta: u128 = num / (target as u128) / (BASE_FEE_CHANGE_DENOMINATOR as u128);
        proof {
            lemma_div_is_ordered(num as int / target as int, num as int, 8);
            vstd::arithmetic::div_mod::lemma_div_nonincreasing(num as int, target as int);
        }
        let raised: u128 = if delta > 1 {
            base_fee as u128 + delta
        } else {
            base_fee as u128 + 1
        };
        if raised > u64::MAX as u128 {
            u64::MAX
        } else {
            raised as u64
        }
    } else {
        proof {
            lemma_mul_fits_u128(base_fee as int, (target - gas_used) as int);
        }
        let num: u128 = (base_fee as u128) * ((target - gas_used) as u128);
        let delta: u128 = num / (target as u128) / (BASE_FEE_CHANGE_DENOMINATOR as u128);
        proof {
            lemma_mul_inequality((target - gas_used) as int, target as int, base_fee as int);
            lemma_div_multiples_vanish(base_fee as int, target as int);
            lemma_div_is_ordered(num as int, (base_fee * target) as int, target as int);
            lemma_div_is_ordered(
                num as int / target as int,
                base_fee as int,
                BASE_FEE_CHANGE_DENOMINATOR as int,
            );
            vstd::arithmetic::div_mod::lemma_div_nonincreasing(base_fee as int, 8);
        }
        base_fee - (delta as u64)
    }
}

/// True when the environment needs the node's suggested gas price: only a
/// fork block without a base fee calls for that extra query.
pub fn needs_gas_price_query(block: &BlockHeader) -> (r: bool)
    ensures
        r == (block.base_fee is None),
{
    match block.base_fee {
        Some(_) => false,
        None => true,
    }
}

/// Builds the execution environment from the resolved fork block and the
/// remote node's answers. The chain id comes from the node, never from the
/// caller; a present base fee is projected one block ahead; an absent one
/// falls back to the suggested gas price, or to the neutral default when
/// that query failed too.
pub fn build_environment(
    block: &BlockHeader,
    chain_id: u64,
    suggested_gas_price: Option<u64>,
    pinned_hardfork: Option<Hardfork>,
    pinned_gas_limit: Option<u64>,
) -> (env: ExecutionEnvironment)
    ensures
        env.chain_id == chain_id,
        env.hardfork == (match pinned_hardfork {
            Some(h) => h,
            None => Hardfork::Latest,
        }),
        env.gas_limit == (match pinned_gas_limit {
            Some(g) => g,
            None => DEFAULT_GAS_LIMIT,
        }),
        match block.base_fee {
            Some(b) => env.base_fee == Some(
                next_base_fee_model(block.gas_used, block.gas_limit, b) as u64,
            ) && env.gas_price == NEUTRAL_GAS_PRICE,
            None => env.base_fee is None && env.gas_price == (match suggested_gas_price {
                Some(p) => p,
                None => NEUTRAL_GAS_PRICE,
            }),
        },
{
    let hardfork = match pinned_hardfork {
        Some(h) => h,
        None => Hardfork::Latest,
    };
    let gas_limit = match pinned_gas_limit {
        Some(g) => g,
        None => DEFAULT_GAS_LIMIT,
    };
    match block.base_fee {
        Some(b) => {
            let projected = next_base_fee(block.gas_used, block.gas_limit, b);
            ExecutionEnvironment {
                chain_id,
                hardfork,
                gas_limit,
                base_fee: Some(projected),
                gas_price: NEUTRAL_GAS_PRICE,
            }
        },
        None => {
            let gas_price = match suggested_gas_price {
                Some(p) => p,
                None => NEUTRAL_GAS_PRICE,
            };
            ExecutionEnvironment { chain_id, hardfork, gas_limit, base_fee: None, gas_price }
        },
    }
}

} // verus!
