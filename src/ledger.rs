//! Sums over stake records and markets, and how they change under updates.
use crate::fees::payout_spec;
use crate::types::{PredictionStatus, PredictionView, Stake};
use vstd::prelude::*;

verus! {

/// Whether a stake counts toward the given side of the given market.
pub open spec fn backs(s: Stake, id: u64, side: bool) -> bool {
    s.prediction_id == id && s.choice == side
}

/// Sum of the amounts of all stakes on `side` of market `id`.
pub open spec fn pool_sum(stakes: Seq<Stake>, id: u64, side: bool) -> int
    decreases stakes.len(),
{
    if stakes.len() == 0 {
        0
    } else {
        let last = stakes.last();
        pool_sum(stakes.drop_last(), id, side) + if backs(last, id, side) {
            last.amount as int
        } else {
            0
        }
    }
}

/// Sum of what every stake on `side` of market `id` is paid out of a prize
/// pool of `prize_pool`, with `winning_pool` the size of that side's pool.
pub open spec fn payout_sum(
    stakes: Seq<Stake>,
    id: u64,
    side: bool,
    prize_pool: int,
    winning_pool: int,
) -> int
    decreases stakes.len(),
{
    if stakes.len() == 0 {
        0
    } else {
        let last = stakes.last();
        payout_sum(stakes.drop_last(), id, side, prize_pool, winning_pool) + if backs(
            last,
            id,
            side,
        ) {
            payout_spec(last.amount as int, prize_pool, winning_pool)
        } else {
            0
        }
    }
}

/// Combined value of both pools over all markets.
pub open spec fn total_volume(markets: Seq<PredictionView>) -> int
    decreases markets.len(),
{
    if markets.len() == 0 {
        0
    } else {
        total_volume(markets.drop_last()) + markets.last().total_pool()
    }
}

/// Number of markets in the given status.
pub open spec fn count_status(markets: Seq<PredictionView>, status: PredictionStatus) -> int
    decreases markets.len(),
{
    if markets.len() == 0 {
        0
    } else {
        count_status(markets.drop_last(), status) + if markets.last().status == status {
            1int
        } else {
            0
        }
    }
}

/// Appending a stake adds its amount to the one pool it backs.
pub proof fn lemma_pool_sum_push(stakes: Seq<Stake>, s: Stake, id: u64, side: bool)
    ensures
        pool_sum(stakes.push(s), id, side) == pool_sum(stakes, id, side) + if backs(s, id, side) {
            s.amount as int
        } else {
            0
        },
{
    assert(stakes.push(s).drop_last() =~= stakes);
}

/// Replacing a stake by one with the same market, side and amount keeps every pool sum.
pub proof fn lemma_pool_sum_update(stakes: Seq<Stake>, j: int, s: Stake, id: u64, side: bool)
    requires
        0 <= j < stakes.len(),
        s.prediction_id == stakes[j].prediction_id,
        s.choice == stakes[j].choice,
        s.amount == stakes[j].amount,
    ensures
        pool_sum(stakes.update(j, s), id, side) == pool_sum(stakes, id, side),
    decreases stakes.len(),
{
    let u = stakes.update(j, s);
    if j == stakes.len() - 1 {
        assert(u.drop_last() =~= stakes.drop_last());
    } else {
        assert(u.drop_last() =~= stakes.drop_last().update(j, s));
        lemma_pool_sum_update(stakes.drop_last(), j, s, id, side);
    }
}

/// The rounded-down payouts of a side, scaled by its pool, never exceed its
/// stakes' share of the prize pool.
pub proof fn lemma_payout_sum_scaled(
    stakes: Seq<Stake>,
    id: u64,
    side: bool,
    prize_pool: int,
    winning_pool: int,
)
    requires
        0 <= prize_pool,
        0 < winning_pool,
        forall|j: int| 0 <= j < stakes.len() ==> #[trigger] stakes[j].amount >= 0,
    ensures
        payout_sum(stakes, id, side, prize_pool, winning_pool) * winning_pool <= pool_sum(
            stakes,
            id,
            side,
        ) * prize_pool,
    decreases stakes.len(),
{
    if stakes.len() > 0 {
        let rest = stakes.drop_last();
        let last = stakes.last();
        lemma_payout_sum_scaled(rest, id, side, prize_pool, winning_pool);
        let p = payout_sum(rest, id, side, prize_pool, winning_pool);
        let q = pool_sum(rest, id, side);
        if backs(last, id, side) {
            let a = last.amount as int;
            let x = payout_spec(a, prize_pool, winning_pool);
            assert(x * winning_pool <= a * prize_pool) by (nonlinear_arith)
                requires
                    x == a * prize_pool / winning_pool,
                    0 < winning_pool,
            ;
            assert((p + x) * winning_pool <= (q + a) * prize_pool) by (nonlinear_arith)
                requires
                    p * winning_pool <= q * prize_pool,
                    x * winning_pool <= a * prize_pool,
            ;
        }
    }
}

/// Replacing a market changes the total volume by the change in its pools.
pub proof fn lemma_total_volume_update(markets: Seq<PredictionView>, i: int, m: PredictionView)
    requires
        0 <= i < markets.len(),
    ensures
        total_volume(markets.update(i, m)) == total_volume(markets) - markets[i].total_pool()
            + m.total_pool(),
    decreases markets.len(),
{
    let u = markets.update(i, m);
    if i == markets.len() - 1 {
        assert(u.drop_last() =~= markets.drop_last());
    } else {
        assert(u.drop_last() =~= markets.drop_last().update(i, m));
        lemma_total_volume_update(markets.drop_last(), i, m);
    }
}

/// Appending a market adds its pools to the total volume.
pub proof fn lemma_total_volume_push(markets: Seq<PredictionView>, m: PredictionView)
    ensures
        total_volume(markets.push(m)) == total_volume(markets) + m.total_pool(),
{
    assert(markets.push(m).drop_last() =~= markets);
}

/// With no negative pool, each market's pools are part of the total volume.
pub proof fn lemma_total_volume_bounds(markets: Seq<PredictionView>, i: int)
    requires
        0 <= i < markets.len(),
        forall|k: int|
            0 <= k < markets.len() ==> #[trigger] markets[k].yes_pool >= 0 && markets[k].no_pool
                >= 0,
    ensures
        0 <= markets[i].total_pool() <= total_volume(markets),
    decreases markets.len(),
{
    lemma_total_volume_nonneg(markets.drop_last());
    if i < markets.len() - 1 {
        lemma_total_volume_bounds(markets.drop_last(), i);
    }
}

/// With no negative pool, the total volume is not negative.
pub proof fn lemma_total_volume_nonneg(markets: Seq<PredictionView>)
    requires
        forall|k: int|
            0 <= k < markets.len() ==> #[trigger] markets[k].yes_pool >= 0 && markets[k].no_pool
                >= 0,
    ensures
        total_volume(markets) >= 0,
    decreases markets.len(),
{
    if markets.len() > 0 {
        lemma_total_volume_nonneg(markets.drop_last());
    }
}

/// A market that no stake refers to has empty pools.
pub proof fn lemma_pool_sum_absent(stakes: Seq<Stake>, id: u64, side: bool)
    requires
        forall|j: int| 0 <= j < stakes.len() ==> #[trigger] stakes[j].prediction_id != id,
    ensures
        pool_sum(stakes, id, side) == 0,
    decreases stakes.len(),
{
    if stakes.len() > 0 {
        lemma_pool_sum_absent(stakes.drop_last(), id, side);
    }
}

/// With no negative amount, a prefix of the stakes sums to no more than all of them.
pub proof fn lemma_pool_sum_prefix(stakes: Seq<Stake>, j: int, id: u64, side: bool)
    requires
        0 <= j <= stakes.len(),
        forall|k: int| 0 <= k < stakes.len() ==> #[trigger] stakes[k].amount >= 0,
    ensures
        pool_sum(stakes.subrange(0, j), id, side) <= pool_sum(stakes, id, side),
    decreases stakes.len(),
{
    if j == stakes.len() {
        assert(stakes.subrange(0, j) =~= stakes);
    } else {
        let rest = stakes.drop_last();
        lemma_pool_sum_prefix(rest, j, id, side);
        assert(rest.subrange(0, j) =~= stakes.subrange(0, j));
    }
}

/// With no negative pool, a prefix of the markets has no more volume than all of them.
pub proof fn lemma_total_volume_prefix(markets: Seq<PredictionView>, i: int)
    requires
        0 <= i <= markets.len(),
        forall|k: int|
            0 <= k < markets.len() ==> #[trigger] markets[k].yes_pool >= 0 && markets[k].no_pool
                >= 0,
    ensures
        total_volume(markets.subrange(0, i)) <= total_volume(markets),
    decreases markets.len(),
{
    if i == markets.len() {
        assert(markets.subrange(0, i) =~= markets);
    } else {
        let rest = markets.drop_last();
        lemma_total_volume_prefix(rest, i);
        assert(rest.subrange(0, i) =~= markets.subrange(0, i));
    }
}

/// Number of stakes recorded in market `id`.
pub open spec fn stake_count(stakes: Seq<Stake>, id: u64) -> int
    decreases stakes.len(),
{
    if stakes.len() == 0 {
        0
    } else {
        stake_count(stakes.drop_last(), id) + if stakes.last().prediction_id == id {
            1int
        } else {
            0
        }
    }
}

/// Appending a stake counts it in its own market only.
pub proof fn lemma_stake_count_push(stakes: Seq<Stake>, s: Stake, id: u64)
    ensures
        stake_count(stakes.push(s), id) == stake_count(stakes, id) + if s.prediction_id == id {
            1int
        } else {
            0
        },
{
    assert(stakes.push(s).drop_last() =~= stakes);
}

/// Replacing a stake by one of the same market keeps every count.
pub proof fn lemma_stake_count_update(stakes: Seq<Stake>, j: int, s: Stake, id: u64)
    requires
        0 <= j < stakes.len(),
        s.prediction_id == stakes[j].prediction_id,
    ensures
        stake_count(stakes.update(j, s), id) == stake_count(stakes, id),
    decreases stakes.len(),
{
    let u = stakes.update(j, s);
    if j == stakes.len() - 1 {
        assert(u.drop_last() =~= stakes.drop_last());
    } else {
        assert(u.drop_last() =~= stakes.drop_last().update(j, s));
        lemma_stake_count_update(stakes.drop_last(), j, s, id);
    }
}

/// A count is zero exactly when no stake is recorded in the market, and
/// never exceeds the number of stakes.
pub proof fn lemma_stake_count_zero(stakes: Seq<Stake>, id: u64)
    ensures
        0 <= stake_count(stakes, id) <= stakes.len(),
        stake_count(stakes, id) == 0 <==> forall|k: int|
            0 <= k < stakes.len() ==> #[trigger] stakes[k].prediction_id != id,
    decreases stakes.len(),
{
    if stakes.len() > 0 {
        let rest = stakes.drop_last();
        lemma_stake_count_zero(rest, id);
        if stake_count(stakes, id) == 0 {
            assert forall|k: int| 0 <= k < stakes.len() implies #[trigger] stakes[k].prediction_id
                != id by {
                if k < rest.len() {
                    assert(rest[k] == stakes[k]);
                }
            }
        }
        if forall|k: int| 0 <= k < stakes.len() ==> #[trigger] stakes[k].prediction_id != id {
            assert forall|k: int| 0 <= k < rest.len() implies #[trigger] rest[k].prediction_id
                != id by {
                assert(rest[k] == stakes[k]);
            }
            assert(stakes[stakes.len() - 1].prediction_id != id);
        }
    }
}

/// When a market holds a single stake, it is the only record of that market,
/// and the market's two pools together hold exactly its amount.
pub proof fn lemma_sole_stake(stakes: Seq<Stake>, id: u64, j: int)
    requires
        0 <= j < stakes.len(),
        stakes[j].prediction_id == id,
        stake_count(stakes, id) == 1,
    ensures
        forall|k: int| 0 <= k < stakes.len() && k != j ==> #[trigger] stakes[k].prediction_id != id,
        pool_sum(stakes, id, true) + pool_sum(stakes, id, false) == stakes[j].amount,
    decreases stakes.len(),
{
    let rest = stakes.drop_last();
    let n = stakes.len() - 1;
    if j == n {
        lemma_stake_count_zero(rest, id);
        lemma_pool_sum_absent(rest, id, true);
        lemma_pool_sum_absent(rest, id, false);
        assert forall|k: int| 0 <= k < stakes.len() && k != j implies #[trigger] stakes[k].prediction_id
            != id by {
            assert(rest[k] == stakes[k]);
        }
    } else {
        assert(rest[j] == stakes[j]);
        if stakes[n].prediction_id == id {
            lemma_stake_count_zero(rest, id);
            assert(false);
        }
        lemma_sole_stake(rest, id, j);
        assert forall|k: int| 0 <= k < stakes.len() && k != j implies #[trigger] stakes[k].prediction_id
            != id by {
            if k < n {
                assert(rest[k] == stakes[k]);
            }
        }
    }
}

/// With non-negative amounts and prize pool, a prefix of the stakes is paid
/// no more than all of them.
pub proof fn lemma_payout_sum_prefix(
    stakes: Seq<Stake>,
    j: int,
    id: u64,
    side: bool,
    prize_pool: int,
    winning_pool: int,
)
    requires
        0 <= j <= stakes.len(),
        0 <= prize_pool,
        0 < winning_pool,
        forall|k: int| 0 <= k < stakes.len() ==> #[trigger] stakes[k].amount >= 0,
    ensures
        payout_sum(stakes.subrange(0, j), id, side, prize_pool, winning_pool) <= payout_sum(
            stakes,
            id,
            side,
            prize_pool,
            winning_pool,
        ),
    decreases stakes.len(),
{
    if j == stakes.len() {
        assert(stakes.subrange(0, j) =~= stakes);
    } else {
        let rest = stakes.drop_last();
        lemma_payout_sum_prefix(rest, j, id, side, prize_pool, winning_pool);
        assert(rest.subrange(0, j) =~= stakes.subrange(0, j));
        let a = stakes.last().amount as int;
        assert(payout_spec(a, prize_pool, winning_pool) >= 0) by (nonlinear_arith)
            requires
                a >= 0,
                prize_pool >= 0,
                winning_pool > 0,
        ;
    }
}

/// With no negative amount, a side's pool holds at least each stake that backs it.
pub proof fn lemma_pool_sum_covers(stakes: Seq<Stake>, j: int, id: u64, side: bool)
    requires
        0 <= j < stakes.len(),
        backs(stakes[j], id, side),
        forall|k: int| 0 <= k < stakes.len() ==> #[trigger] stakes[k].amount >= 0,
    ensures
        pool_sum(stakes, id, side) >= stakes[j].amount,
    decreases stakes.len(),
{
    let rest = stakes.drop_last();
    if j == stakes.len() - 1 {
        lemma_pool_sum_nonneg(rest, id, side);
    } else {
        assert(rest[j] == stakes[j]);
        lemma_pool_sum_covers(rest, j, id, side);
    }
}

/// A pool sum is never negative when no stake amount is.
pub proof fn lemma_pool_sum_nonneg(stakes: Seq<Stake>, id: u64, side: bool)
    requires
        forall|j: int| 0 <= j < stakes.len() ==> #[trigger] stakes[j].amount >= 0,
    ensures
        pool_sum(stakes, id, side) >= 0,
    decreases stakes.len(),
{
    if stakes.len() > 0 {
        let rest = stakes.drop_last();
        assert forall|j: int| 0 <= j < rest.len() implies #[trigger] rest[j].amount >= 0 by {
            assert(rest[j] == stakes[j]);
        }
        lemma_pool_sum_nonneg(rest, id, side);
    }
}

} // verus!
