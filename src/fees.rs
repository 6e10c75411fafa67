//! Integer arithmetic of fees and payouts.
use vstd::arithmetic::div_mod::lemma_fundamental_div_mod_converse;
use vstd::prelude::*;

verus! {

/// Share of the platform fee taken from a resolved market's total pool.
pub const PLATFORM_FEE_PERCENT: i128 = 5;

/// Share of a creation fee that goes to the treasury; the rest is burned.
pub const TREASURY_SPLIT_PERCENT: i128 = 70;

/// `pct` percent of `amount`, rounded down.
pub open spec fn percent_spec(amount: int, pct: int) -> int {
    amount * pct / 100
}

/// Computes `floor(amount * pct / 100)` without forming the product, so that
/// every non-negative `i128` amount is accepted.
pub fn percent_of(amount: i128, pct: i128) -> (r: i128)
    requires
        0 <= amount,
        0 <= pct <= 100,
    ensures
        r == percent_spec(amount as int, pct as int),
        0 <= r <= amount,
{
    let q: i128 = amount / 100;
    let rem: i128 = amount % 100;
    proof {
        let qi = q as int;
        let ri = rem as int;
        let p = pct as int;
        assert(amount as int == qi * 100 + ri);
        assert(0 <= ri * p <= 99 * 100) by (nonlinear_arith)
            requires
                0 <= ri < 100,
                0 <= p <= 100,
        ;
        let q2 = ri * p / 100;
        let r2 = ri * p % 100;
        assert(ri * p == q2 * 100 + r2);
        assert(amount as int * p == (qi * p + q2) * 100 + r2) by (nonlinear_arith)
            requires
                amount as int == qi * 100 + ri,
                ri * p == q2 * 100 + r2,
        ;
        lemma_fundamental_div_mod_converse(amount as int * p, 100, qi * p + q2, r2);
        assert(0 <= amount as int * p / 100 <= amount as int) by (nonlinear_arith)
            requires
                0 <= amount,
                0 <= p <= 100,
        ;
        assert(0 <= qi * p <= qi * 100) by (nonlinear_arith)
            requires
                0 <= qi,
                0 <= p <= 100,
        ;
    }
    q * pct + rem * pct / 100
}

/// The treasury's part of a creation fee; the remainder of the rounding goes
/// to the burned part.
pub open spec fn treasury_share(fee: int) -> int {
    percent_spec(fee, TREASURY_SPLIT_PERCENT as int)
}

/// The platform's part of a resolved market's total pool.
pub open spec fn platform_fee_of(total_pool: int) -> int {
    percent_spec(total_pool, PLATFORM_FEE_PERCENT as int)
}

/// Splits a creation fee into `(to_treasury, to_burn)`.
pub fn split_creation_fee(fee: i128) -> (r: (i128, i128))
    requires
        0 <= fee,
    ensures
        r.0 == treasury_share(fee as int),
        r.1 == fee - r.0,
        0 <= r.0,
        0 <= r.1,
{
    let to_treasury = percent_of(fee, TREASURY_SPLIT_PERCENT);
    (to_treasury, fee - to_treasury)
}

/// Splits a resolved market's total pool into `(prize_pool, platform_fee)`.
pub fn split_resolution_pool(total_pool: i128) -> (r: (i128, i128))
    requires
        0 <= total_pool,
    ensures
        r.1 == platform_fee_of(total_pool as int),
        r.0 == total_pool - r.1,
        0 <= r.0,
        0 <= r.1,
{
    let platform_fee = percent_of(total_pool, PLATFORM_FEE_PERCENT);
    (total_pool - platform_fee, platform_fee)
}

/// A winner's proportional share of the prize pool, rounded down.
pub open spec fn payout_spec(amount: int, prize_pool: int, winning_pool: int) -> int {
    amount * prize_pool / winning_pool
}

/// Computes `floor(amount * prize_pool / winning_pool)`, or `None` when the
/// product `amount * prize_pool` does not fit in an `i128`.
pub fn proportional_payout(amount: i128, prize_pool: i128, winning_pool: i128) -> (r: Option<i128>)
    requires
        0 <= amount,
        0 <= prize_pool,
        0 < winning_pool,
    ensures
        r is Some <==> amount * prize_pool <= i128::MAX,
        r matches Some(p) ==> p == payout_spec(amount as int, prize_pool as int, winning_pool as int)
            && 0 <= p,
{
    match amount.checked_mul(prize_pool) {
        Some(product) => {
            proof {
                assert(0 <= product / winning_pool <= product) by (nonlinear_arith)
                    requires
                        0 <= product,
                        0 < winning_pool,
                ;
            }
            Some(product / winning_pool)
        },
        None => {
            proof {
                assert(amount * prize_pool >= 0) by (nonlinear_arith)
                    requires
                        0 <= amount,
                        0 <= prize_pool,
                ;
            }
            None
        },
    }
}

} // verus!
