//! Checks that persisted records satisfy the engine's invariant.
use crate::ledger::{
    lemma_pool_sum_prefix, lemma_pool_sum_push, lemma_stake_count_push, lemma_stake_count_zero,
    lemma_total_volume_prefix, pool_sum, stake_count, total_volume,
};
use crate::model::{same_position, ContractView, MIN_STAKE};
use crate::types::{Account, Prediction, PredictionStatus, PredictionView, Stake};
use vstd::prelude::*;

verus! {

/// The mathematical values of a sequence of market records.
pub open spec fn market_views(ps: Seq<Prediction>) -> Seq<PredictionView> {
    ps.map_values(|p: Prediction| p@)
}

/// Each record carries its position's identifier, non-negative pools, and a
/// winner exactly when it is resolved.
pub open spec fn markets_ok(ms: Seq<PredictionView>) -> bool {
    forall|i: int| 0 <= i < ms.len() ==> market_ok(#[trigger] ms[i], i)
}

/// The record at position `i` is well-formed on its own.
pub open spec fn market_ok(m: PredictionView, i: int) -> bool {
    &&& m.id == i + 1
    &&& m.yes_pool >= 0
    &&& m.no_pool >= 0
    &&& (m.winner is Some <==> m.status == PredictionStatus::Resolved)
}

/// Every stake refers to one of `n` markets and meets the minimum stake.
pub open spec fn stakes_in_range(stakes: Seq<Stake>, n: int) -> bool {
    forall|j: int|
        0 <= j < stakes.len() ==> 1 <= #[trigger] stakes[j].prediction_id <= n
            && stakes[j].amount >= MIN_STAKE
}

/// No participant's position in a market is recorded twice.
pub open spec fn stakes_unique(stakes: Seq<Stake>) -> bool {
    forall|j: int, k: int|
        0 <= j < stakes.len() && 0 <= k < stakes.len() && j != k ==> !same_position(
            #[trigger] stakes[j],
            #[trigger] stakes[k],
        )
}

/// Each market's pools are the sums of the stakes on its sides.
pub open spec fn pools_match(ms: Seq<PredictionView>, stakes: Seq<Stake>) -> bool {
    forall|i: int|
        0 <= i < ms.len() ==> #[trigger] ms[i].yes_pool == pool_sum(stakes, ms[i].id, true)
            && ms[i].no_pool == pool_sum(stakes, ms[i].id, false)
}

/// Each market's participant count is the number of its stakes.
pub open spec fn participants_match(ms: Seq<PredictionView>, stakes: Seq<Stake>) -> bool {
    forall|i: int|
        0 <= i < ms.len() ==> #[trigger] ms[i].total_participants == stake_count(stakes, ms[i].id)
}

/// Whether some record holds the participant's position in the market.
pub open spec fn holds_stake(stakes: Seq<Stake>, id: u64, user: Account) -> bool {
    exists|j: int|
        0 <= j < stakes.len() && #[trigger] stakes[j].prediction_id == id && stakes[j].user == user
}

/// Each market's creator holds a stake in it.
pub open spec fn creators_staked(ms: Seq<PredictionView>, stakes: Seq<Stake>) -> bool {
    forall|i: int| 0 <= i < ms.len() ==> holds_stake(stakes, #[trigger] ms[i].id, ms[i].creator)
}

/// Whether every market record is well-formed on its own.
pub fn check_markets(markets: &Vec<Prediction>) -> (r: bool)
    ensures
        r == markets_ok(market_views(markets@)),
{
    let ghost ms = market_views(markets@);
    let mut i: usize = 0;
    while i < markets.len()
        invariant
            ms == market_views(markets@),
            i <= markets@.len(),
            markets_ok(ms.subrange(0, i as int)),
        decreases markets@.len() - i,
    {
        let m = &markets[i];
        proof {
            assert(ms[i as int] == m@);
        }
        let ok = m.id > 0 && m.id - 1 == i as u64 && m.yes_pool >= 0 && m.no_pool >= 0
            && m.winner.is_some() == (m.status == PredictionStatus::Resolved);
        if !ok {
            proof {
                assert(!market_ok(ms[i as int], i as int));
            }
            return false;
        }
        proof {
            assert forall|k: int| 0 <= k < i + 1 implies #[trigger] ms.subrange(0, i + 1)[k]
                == ms[k] by {}
            assert forall|k: int| 0 <= k < i + 1 implies market_ok(
                #[trigger] ms.subrange(0, i + 1)[k],
                k,
            ) by {
                if k < i {
                    assert(ms.subrange(0, i as int)[k] == ms[k]);
                }
            }
        }
        i = i + 1;
    }
    proof {
        assert(ms.subrange(0, i as int) =~= ms);
    }
    true
}

/// The combined volume of all pools, or `None` when it exceeds `i128::MAX`.
pub fn sum_volume(markets: &Vec<Prediction>) -> (r: Option<i128>)
    requires
        markets_ok(market_views(markets@)),
    ensures
        r is Some <==> total_volume(market_views(markets@)) <= i128::MAX,
        r matches Some(v) ==> v == total_volume(market_views(markets@)),
{
    let ghost ms = market_views(markets@);
    assert forall|k: int| 0 <= k < ms.len() implies #[trigger] ms[k].yes_pool >= 0 && ms[k].no_pool
        >= 0 by {
        assert(market_ok(ms[k], k));
    }
    let mut volume: i128 = 0;
    let mut i: usize = 0;
    while i < markets.len()
        invariant
            ms == market_views(markets@),
            markets_ok(ms),
            forall|k: int|
                0 <= k < ms.len() ==> #[trigger] ms[k].yes_pool >= 0 && ms[k].no_pool >= 0,
            i <= markets@.len(),
            volume == total_volume(ms.subrange(0, i as int)),
        decreases markets@.len() - i,
    {
        let m = &markets[i];
        proof {
            assert(ms[i as int] == m@);
            assert(ms.subrange(0, i + 1).drop_last() =~= ms.subrange(0, i as int));
            lemma_total_volume_prefix(ms, i + 1);
        }
        match volume.checked_add(m.yes_pool) {
            Some(v) => match v.checked_add(m.no_pool) {
                Some(w) => {
                    volume = w;
                },
                None => {
                    return None;
                },
            },
            None => {
                return None;
            },
        }
        i = i + 1;
    }
    proof {
        assert(ms.subrange(0, i as int) =~= ms);
    }
    Some(volume)
}

/// Whether every stake refers to one of the `n` markets and meets the minimum.
pub fn check_stake_range(stakes: &Vec<Stake>, n: usize) -> (r: bool)
    ensures
        r == stakes_in_range(stakes@, n as int),
{
    let mut j: usize = 0;
    while j < stakes.len()
        invariant
            j <= stakes@.len(),
            stakes_in_range(stakes@.subrange(0, j as int), n as int),
        decreases stakes@.len() - j,
    {
        let s = stakes[j];
        if s.prediction_id < 1 || s.prediction_id > n as u64 || s.amount < MIN_STAKE {
            proof {
                assert(stakes@[j as int] == s);
            }
            return false;
        }
        proof {
            assert forall|k: int| 0 <= k < j + 1 implies 1 <= #[trigger] stakes@.subrange(
                0,
                j + 1,
            )[k].prediction_id <= n && stakes@.subrange(0, j + 1)[k].amount >= MIN_STAKE by {
                if k < j {
                    assert(stakes@.subrange(0, j + 1)[k] == stakes@.subrange(0, j as int)[k]);
                }
            }
        }
        j = j + 1;
    }
    proof {
        assert(stakes@.subrange(0, j as int) =~= stakes@);
    }
    true
}

/// Whether no participant's position in a market is recorded twice.
pub fn check_stakes_unique(stakes: &Vec<Stake>) -> (r: bool)
    ensures
        r == stakes_unique(stakes@),
{
    let mut j: usize = 0;
    while j < stakes.len()
        invariant
            j <= stakes@.len(),
            forall|a: int, b: int|
                0 <= a < j && 0 <= b < stakes@.len() && a != b ==> !same_position(
                    #[trigger] stakes@[a],
                    #[trigger] stakes@[b],
                ),
        decreases stakes@.len() - j,
    {
        let mut k: usize = 0;
        while k < stakes.len()
            invariant
                j < stakes@.len(),
                k <= stakes@.len(),
                forall|a: int, b: int|
                    0 <= a < j && 0 <= b < stakes@.len() && a != b ==> !same_position(
                        #[trigger] stakes@[a],
                        #[trigger] stakes@[b],
                    ),
                forall|b: int|
                    0 <= b < k && b != j ==> !same_position(stakes@[j as int], #[trigger] stakes@[b]),
            decreases stakes@.len() - k,
        {
            if k != j && stakes[j].prediction_id == stakes[k].prediction_id && stakes[j].user
                == stakes[k].user {
                proof {
                    assert(same_position(stakes@[j as int], stakes@[k as int]));
                }
                return false;
            }
            k = k + 1;
        }
        proof {
            assert forall|a: int, b: int|
                0 <= a < j + 1 && 0 <= b < stakes@.len() && a != b implies !same_position(
                #[trigger] stakes@[a],
                #[trigger] stakes@[b],
            ) by {
                if a == j {
                    assert(!same_position(stakes@[j as int], stakes@[b]));
                }
            }
        }
        j = j + 1;
    }
    true
}

/// Whether each market's pools are the sums of the stakes on its sides.
pub fn check_pools(markets: &Vec<Prediction>, stakes: &Vec<Stake>) -> (r: bool)
    requires
        markets_ok(market_views(markets@)),
        stakes_in_range(stakes@, markets@.len() as int),
    ensures
        r == pools_match(market_views(markets@), stakes@),
{
    let ghost ms = market_views(markets@);
    let n = markets.len();
    let mut yes_sums: Vec<i128> = Vec::new();
    let mut no_sums: Vec<i128> = Vec::new();
    let mut i: usize = 0;
    while i < n
        invariant
            n == markets@.len(),
            i <= n,
            yes_sums@.len() == i,
            no_sums@.len() == i,
            forall|k: int| 0 <= k < i ==> #[trigger] yes_sums@[k] == 0 && no_sums@[k] == 0,
        decreases n - i,
    {
        yes_sums.push(0);
        no_sums.push(0);
        i = i + 1;
    }
    proof {
        assert forall|k: int| 0 <= k < n implies #[trigger] yes_sums@[k] == pool_sum(
            stakes@.subrange(0, 0),
            (k + 1) as u64,
            true,
        ) && no_sums@[k] == pool_sum(stakes@.subrange(0, 0), (k + 1) as u64, false) by {
            assert(stakes@.subrange(0, 0).len() == 0);
            assert(pool_sum(stakes@.subrange(0, 0), (k + 1) as u64, true) == 0);
            assert(pool_sum(stakes@.subrange(0, 0), (k + 1) as u64, false) == 0);
        }
        assert forall|k: int| 0 <= k < stakes@.len() implies #[trigger] stakes@[k].amount >= 0 by {
            assert(1 <= stakes@[k].prediction_id);
        }
    }
    let mut j: usize = 0;
    while j < stakes.len()
        invariant
            ms == market_views(markets@),
            markets_ok(ms),
            stakes_in_range(stakes@, n as int),
            forall|k: int| 0 <= k < stakes@.len() ==> #[trigger] stakes@[k].amount >= 0,
            n == markets@.len(),
            j <= stakes@.len(),
            yes_sums@.len() == n,
            no_sums@.len() == n,
            forall|k: int|
                0 <= k < n ==> #[trigger] yes_sums@[k] == pool_sum(
                    stakes@.subrange(0, j as int),
                    (k + 1) as u64,
                    true,
                ) && no_sums@[k] == pool_sum(stakes@.subrange(0, j as int), (k + 1) as u64, false),
        decreases stakes@.len() - j,
    {
        let s = stakes[j];
        let ghost before = stakes@.subrange(0, j as int);
        proof {
            assert(stakes@[j as int] == s);
            assert(1 <= s.prediction_id <= n);
            assert(stakes@.subrange(0, j + 1) =~= before.push(s));
        }
        let k = (s.prediction_id - 1) as usize;
        let current = if s.choice {
            yes_sums[k]
        } else {
            no_sums[k]
        };
        proof {
            assert((k + 1) as u64 == s.prediction_id);
            assert(yes_sums@[k as int] == pool_sum(before, (k + 1) as u64, true));
            assert(current == pool_sum(before, s.prediction_id, s.choice));
        }
        let ghost old_yes = yes_sums@;
        let ghost old_no = no_sums@;
        let next = match current.checked_add(s.amount) {
            Some(v) => v,
            None => {
                proof {
                    lemma_pool_sum_push(before, s, s.prediction_id, s.choice);
                    assert(pool_sum(stakes@.subrange(0, j + 1), s.prediction_id, s.choice) > i128::MAX);
                    lemma_pool_sum_prefix(stakes@, j + 1, s.prediction_id, s.choice);
                    assert(market_ok(ms[k as int], k as int));
                    assert(ms[k as int].id == s.prediction_id);
                    assert(pool_sum(stakes@, s.prediction_id, s.choice) > i128::MAX);
                    assert(!pools_match(ms, stakes@)) by {
                        if pools_match(ms, stakes@) {
                            assert(ms[k as int].yes_pool == pool_sum(stakes@, ms[k as int].id, true));
                            assert(ms[k as int].no_pool == pool_sum(stakes@, ms[k as int].id, false));
                        }
                    }
                }
                return false;
            },
        };
        if s.choice {
            yes_sums.set(k, next);
        } else {
            no_sums.set(k, next);
        }
        proof {
            assert forall|t: int| 0 <= t < n implies #[trigger] yes_sums@[t] == pool_sum(
                stakes@.subrange(0, j + 1),
                (t + 1) as u64,
                true,
            ) && no_sums@[t] == pool_sum(stakes@.subrange(0, j + 1), (t + 1) as u64, false) by {
                assert(old_yes[t] == pool_sum(before, (t + 1) as u64, true));
                assert(old_no[t] == pool_sum(before, (t + 1) as u64, false));
                lemma_pool_sum_push(before, s, (t + 1) as u64, true);
                lemma_pool_sum_push(before, s, (t + 1) as u64, false);
            }
        }
        j = j + 1;
    }
    proof {
        assert(stakes@.subrange(0, j as int) =~= stakes@);
    }
    let mut i: usize = 0;
    while i < n
        invariant
            ms == market_views(markets@),
            markets_ok(ms),
            n == markets@.len(),
            i <= n,
            yes_sums@.len() == n,
            no_sums@.len() == n,
            forall|k: int|
                0 <= k < n ==> #[trigger] yes_sums@[k] == pool_sum(stakes@, (k + 1) as u64, true)
                    && no_sums@[k] == pool_sum(stakes@, (k + 1) as u64, false),
            pools_match(ms.subrange(0, i as int), stakes@),
        decreases n - i,
    {
        let m = &markets[i];
        proof {
            assert(ms[i as int] == m@);
            assert(market_ok(ms[i as int], i as int));
        }
        if m.yes_pool != yes_sums[i] || m.no_pool != no_sums[i] {
            proof {
                assert(!pools_match(ms, stakes@)) by {
                    if pools_match(ms, stakes@) {
                        assert(ms[i as int].yes_pool == pool_sum(stakes@, ms[i as int].id, true));
                    }
                }
            }
            return false;
        }
        proof {
            assert forall|k: int| 0 <= k < i + 1 implies #[trigger] ms.subrange(0, i + 1)[k].yes_pool
                == pool_sum(stakes@, ms.subrange(0, i + 1)[k].id, true) && ms.subrange(
                0,
                i + 1,
            )[k].no_pool == pool_sum(stakes@, ms.subrange(0, i + 1)[k].id, false) by {
                if k < i {
                    assert(ms.subrange(0, i as int)[k] == ms[k]);
                    assert(ms.subrange(0, i as int)[k].yes_pool == pool_sum(
                        stakes@,
                        ms.subrange(0, i as int)[k].id,
                        true,
                    ));
                }
            }
        }
        i = i + 1;
    }
    proof {
        assert(ms.subrange(0, i as int) =~= ms);
    }
    true
}

/// The invariant, taken apart into the properties the record checks decide.
pub proof fn lemma_wf_by_records(v: ContractView)
    ensures
        v.wf() <==> {
            &&& markets_ok(v.markets)
            &&& total_volume(v.markets) <= i128::MAX
            &&& stakes_in_range(v.stakes, v.markets.len() as int)
            &&& stakes_unique(v.stakes)
            &&& pools_match(v.markets, v.stakes)
            &&& participants_match(v.markets, v.stakes)
            &&& creators_staked(v.markets, v.stakes)
            &&& v.treasury.wf()
        },
{
    if v.wf() {
        assert forall|i: int| 0 <= i < v.markets.len() implies market_ok(#[trigger] v.markets[i], i) by {
            assert(v.market_wf(v.markets[i]));
        }
        assert forall|i: int| 0 <= i < v.markets.len() implies #[trigger] v.markets[i].yes_pool
            == pool_sum(v.stakes, v.markets[i].id, true) && v.markets[i].no_pool == pool_sum(
            v.stakes,
            v.markets[i].id,
            false,
        ) by {
            assert(v.market_wf(v.markets[i]));
        }
        assert forall|i: int| 0 <= i < v.markets.len() implies #[trigger] v.markets[i].total_participants
            == stake_count(v.stakes, v.markets[i].id) by {
            assert(v.market_wf(v.markets[i]));
        }
        assert forall|i: int| 0 <= i < v.markets.len() implies holds_stake(
            v.stakes,
            #[trigger] v.markets[i].id,
            v.markets[i].creator,
        ) by {
            assert(v.market_wf(v.markets[i]));
        }
    }
    if markets_ok(v.markets) && pools_match(v.markets, v.stakes) && participants_match(
        v.markets,
        v.stakes,
    ) && creators_staked(v.markets, v.stakes) {
        if v.markets.len() > 0 {
            let last = v.markets.len() - 1;
            assert(market_ok(v.markets[last], last));
        }
        assert forall|i: int| 0 <= i < v.markets.len() implies #[trigger] v.markets[i].id == i + 1
            && v.market_wf(v.markets[i]) by {
            assert(market_ok(v.markets[i], i));
            assert(v.markets[i].yes_pool == pool_sum(v.stakes, v.markets[i].id, true));
            assert(v.markets[i].total_participants == stake_count(v.stakes, v.markets[i].id));
            assert(holds_stake(v.stakes, v.markets[i].id, v.markets[i].creator));
        }
    }
}

/// Whether each market's participant count is the number of its stakes.
pub fn check_participants(markets: &Vec<Prediction>, stakes: &Vec<Stake>) -> (r: bool)
    requires
        markets_ok(market_views(markets@)),
        stakes_in_range(stakes@, markets@.len() as int),
    ensures
        r == participants_match(market_views(markets@), stakes@),
{
    let ghost ms = market_views(markets@);
    let n = markets.len();
    let mut counts: Vec<usize> = Vec::new();
    let mut i: usize = 0;
    while i < n
        invariant
            n == markets@.len(),
            i <= n,
            counts@.len() == i,
            forall|k: int| 0 <= k < i ==> #[trigger] counts@[k] == 0,
        decreases n - i,
    {
        counts.push(0);
        i = i + 1;
    }
    proof {
        assert forall|k: int| 0 <= k < n implies #[trigger] counts@[k] == stake_count(
            stakes@.subrange(0, 0),
            (k + 1) as u64,
        ) by {
            assert(stake_count(stakes@.subrange(0, 0), (k + 1) as u64) == 0);
        }
    }
    let mut j: usize = 0;
    while j < stakes.len()
        invariant
            stakes_in_range(stakes@, n as int),
            n == markets@.len(),
            j <= stakes@.len(),
            counts@.len() == n,
            forall|k: int|
                0 <= k < n ==> #[trigger] counts@[k] == stake_count(
                    stakes@.subrange(0, j as int),
                    (k + 1) as u64,
                ),
        decreases stakes@.len() - j,
    {
        let s = stakes[j];
        let ghost before = stakes@.subrange(0, j as int);
        proof {
            assert(stakes@[j as int] == s);
            assert(1 <= s.prediction_id <= n);
            assert(stakes@.subrange(0, j + 1) =~= before.push(s));
        }
        let k = (s.prediction_id - 1) as usize;
        proof {
            lemma_stake_count_zero(before, s.prediction_id);
            assert(counts@[k as int] == stake_count(before, (k + 1) as u64));
        }
        let ghost old_counts = counts@;
        let next = counts[k] + 1;
        counts.set(k, next);
        proof {
            assert forall|t: int| 0 <= t < n implies #[trigger] counts@[t] == stake_count(
                stakes@.subrange(0, j + 1),
                (t + 1) as u64,
            ) by {
                assert(old_counts[t] == stake_count(before, (t + 1) as u64));
                lemma_stake_count_push(before, s, (t + 1) as u64);
            }
        }
        j = j + 1;
    }
    proof {
        assert(stakes@.subrange(0, j as int) =~= stakes@);
    }
    let mut i: usize = 0;
    while i < n
        invariant
            ms == market_views(markets@),
            markets_ok(ms),
            n == markets@.len(),
            i <= n,
            counts@.len() == n,
            forall|k: int| 0 <= k < n ==> #[trigger] counts@[k] == stake_count(stakes@, (k + 1) as u64),
            participants_match(ms.subrange(0, i as int), stakes@),
        decreases n - i,
    {
        let m = &markets[i];
        proof {
            assert(ms[i as int] == m@);
            assert(market_ok(ms[i as int], i as int));
            assert(counts@[i as int] == stake_count(stakes@, (i + 1) as u64));
        }
        if m.total_participants as usize != counts[i] {
            proof {
                assert(!participants_match(ms, stakes@)) by {
                    if participants_match(ms, stakes@) {
                        assert(ms[i as int].total_participants == stake_count(stakes@, ms[i as int].id));
                    }
                }
            }
            return false;
        }
        proof {
            assert forall|k: int| 0 <= k < i + 1 implies #[trigger] ms.subrange(
                0,
                i + 1,
            )[k].total_participants == stake_count(stakes@, ms.subrange(0, i + 1)[k].id) by {
                if k < i {
                    assert(ms.subrange(0, i as int)[k] == ms[k]);
                    assert(ms.subrange(0, i as int)[k].total_participants == stake_count(
                        stakes@,
                        ms.subrange(0, i as int)[k].id,
                    ));
                }
            }
        }
        i = i + 1;
    }
    proof {
        assert(ms.subrange(0, i as int) =~= ms);
    }
    true
}

/// Whether each market's creator holds a stake in it.
pub fn check_creators(markets: &Vec<Prediction>, stakes: &Vec<Stake>) -> (r: bool)
    ensures
        r == creators_staked(market_views(markets@), stakes@),
{
    let ghost ms = market_views(markets@);
    let mut i: usize = 0;
    while i < markets.len()
        invariant
            ms == market_views(markets@),
            i <= markets@.len(),
            creators_staked(ms.subrange(0, i as int), stakes@),
        decreases markets@.len() - i,
    {
        let id = markets[i].id;
        let creator = markets[i].creator;
        proof {
            assert(ms[i as int].id == id && ms[i as int].creator == creator);
        }
        let mut found = false;
        let mut j: usize = 0;
        while j < stakes.len()
            invariant
                j <= stakes@.len(),
                found ==> holds_stake(stakes@, id, creator),
                !found ==> forall|b: int|
                    0 <= b < j ==> !(#[trigger] stakes@[b].prediction_id == id && stakes@[b].user
                        == creator),
            decreases stakes@.len() - j,
        {
            if stakes[j].prediction_id == id && stakes[j].user == creator {
                proof {
                    assert(stakes@[j as int].prediction_id == id);
                }
                found = true;
            }
            j = j + 1;
        }
        if !found {
            proof {
                assert(!holds_stake(stakes@, id, creator));
            }
            return false;
        }
        proof {
            assert forall|k: int| 0 <= k < i + 1 implies holds_stake(
                stakes@,
                #[trigger] ms.subrange(0, i + 1)[k].id,
                ms.subrange(0, i + 1)[k].creator,
            ) by {
                if k < i {
                    assert(ms.subrange(0, i as int)[k] == ms[k]);
                    assert(holds_stake(stakes@, ms.subrange(0, i as int)[k].id, ms[k].creator));
                }
            }
        }
        i = i + 1;
    }
    proof {
        assert(ms.subrange(0, i as int) =~= ms);
    }
    true
}

} // verus!
