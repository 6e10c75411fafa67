//! The abstract state of the engine and, for every operation, the order of
//! its checks and the state it leads to.
use crate::fees::{payout_spec, platform_fee_of, treasury_share};
use crate::ledger::{
    payout_sum, lemma_pool_sum_absent, lemma_pool_sum_push, lemma_pool_sum_update, lemma_sole_stake,
    lemma_stake_count_push, lemma_stake_count_update, lemma_stake_count_zero,
    lemma_total_volume_bounds, lemma_total_volume_push, lemma_total_volume_update, pool_sum,
    stake_count, total_volume,
};
use crate::treasury::Treasury;
use crate::types::{
    Account, Category, Error, Party, PredictionStatus, PredictionView, Stake, Transfer,
};
use vstd::prelude::*;

verus! {

/// Fee charged for creating a market, on top of the creator's stake.
pub const CREATION_FEE: i128 = 50_0000000;

/// Smallest amount accepted as a stake.
pub const MIN_STAKE: i128 = 100_0000000;

/// One hour, in seconds.
pub const ONE_HOUR: u64 = 3600;

/// How long after creation a market may still be cancelled.
pub const CANCEL_WINDOW: u64 = 3600;

/// Bounds on the length of a question, in characters.
pub const MIN_QUESTION_LEN: usize = 10;

pub const MAX_QUESTION_LEN: usize = 200;

/// The state of the engine as mathematical values.
pub struct ContractView {
    pub admin: Option<Account>,
    /// How far past the creation time a market's unlock time must lie.
    pub min_lock_window: u64,
    /// Market `i + 1` stands at index `i`.
    pub markets: Seq<PredictionView>,
    pub stakes: Seq<Stake>,
    pub treasury: Treasury,
}

/// Whether two stake records belong to the same participant in the same market.
pub open spec fn same_position(a: Stake, b: Stake) -> bool {
    a.prediction_id == b.prediction_id && a.user == b.user
}

impl ContractView {
    /// The invariant every reachable state keeps.
    pub open spec fn wf(self) -> bool {
        &&& self.markets.len() <= u64::MAX
        &&& forall|i: int| 0 <= i < self.markets.len() ==> #[trigger] self.markets[i].id == i + 1
        &&& forall|i: int| 0 <= i < self.markets.len() ==> self.market_wf(#[trigger] self.markets[i])
        &&& forall|j: int|
            0 <= j < self.stakes.len() ==> 1 <= #[trigger] self.stakes[j].prediction_id
                <= self.markets.len() && self.stakes[j].amount >= MIN_STAKE
        &&& forall|j: int, k: int|
            0 <= j < self.stakes.len() && 0 <= k < self.stakes.len() && j != k ==> !same_position(
                #[trigger] self.stakes[j],
                #[trigger] self.stakes[k],
            )
        &&& self.treasury.wf()
        &&& total_volume(self.markets) <= i128::MAX
    }

    /// A market's pools are the sums of its stakes, its participant count is
    /// the number of its stakes, its creator holds one of them, and it has a
    /// winner exactly when it is resolved.
    pub open spec fn market_wf(self, m: PredictionView) -> bool {
        &&& m.yes_pool >= 0
        &&& m.no_pool >= 0
        &&& m.yes_pool == pool_sum(self.stakes, m.id, true)
        &&& m.no_pool == pool_sum(self.stakes, m.id, false)
        &&& m.total_participants == stake_count(self.stakes, m.id)
        &&& self.has_stake(m.id, m.creator)
        &&& (m.winner is Some <==> m.status == PredictionStatus::Resolved)
    }

    /// Whether a market with this identifier exists.
    pub open spec fn has_market(self, id: u64) -> bool {
        1 <= id <= self.markets.len()
    }

    /// The market with this identifier.
    pub open spec fn market(self, id: u64) -> PredictionView {
        self.markets[id - 1]
    }

    /// Whether the participant holds a stake in the market.
    pub open spec fn has_stake(self, id: u64, user: Account) -> bool {
        exists|j: int|
            0 <= j < self.stakes.len() && #[trigger] self.stakes[j].prediction_id == id
                && self.stakes[j].user == user
    }

    /// Where the participant's stake in the market is recorded.
    pub open spec fn stake_index(self, id: u64, user: Account) -> int {
        choose|j: int|
            0 <= j < self.stakes.len() && #[trigger] self.stakes[j].prediction_id == id
                && self.stakes[j].user == user
    }

    /// The participant's stake in the market, if any.
    pub open spec fn stake_of(self, id: u64, user: Account) -> Option<Stake> {
        if self.has_stake(id, user) {
            Some(self.stakes[self.stake_index(id, user)])
        } else {
            None
        }
    }

    /// `initialize` fails exactly when an administrator is already set.
    pub open spec fn initialize_check(self) -> Result<(), Error> {
        if self.admin is Some {
            Err(Error::AlreadyInitialized)
        } else {
            Ok(())
        }
    }

    /// The checks of `create_prediction`, in order.
    pub open spec fn create_check(
        self,
        question: Seq<char>,
        unlock_time: u64,
        initial_stake: i128,
        now: u64,
    ) -> Result<(), Error> {
        if question.len() < MIN_QUESTION_LEN || question.len() > MAX_QUESTION_LEN {
            Err(Error::InvalidQuestionLength)
        } else if unlock_time <= now + self.min_lock_window {
            Err(Error::UnlockTimeTooSoon)
        } else if initial_stake < MIN_STAKE {
            Err(Error::StakeTooSmall)
        } else if self.markets.len() >= u64::MAX || CREATION_FEE + initial_stake > i128::MAX
            || !self.treasury.creation_fee_fits(CREATION_FEE as int) || total_volume(self.markets)
            + initial_stake > i128::MAX {
            Err(Error::Overflow)
        } else {
            Ok(())
        }
    }

    /// The identifier the next market receives.
    pub open spec fn next_id(self) -> u64 {
        (self.markets.len() + 1) as u64
    }

    /// The market that `create_prediction` records.
    pub open spec fn new_market(
        self,
        creator: Account,
        question: Seq<char>,
        unlock_time: u64,
        initial_stake: i128,
        choice: bool,
        category: Category,
        now: u64,
    ) -> PredictionView {
        PredictionView {
            id: self.next_id(),
            creator,
            question,
            unlock_time,
            created_at: now,
            yes_pool: if choice {
                initial_stake
            } else {
                0
            },
            no_pool: if choice {
                0
            } else {
                initial_stake
            },
            status: PredictionStatus::Open,
            winner: None,
            category,
            total_participants: 1,
        }
    }

    /// The state after a successful `create_prediction`.
    pub open spec fn after_create(
        self,
        creator: Account,
        question: Seq<char>,
        unlock_time: u64,
        initial_stake: i128,
        choice: bool,
        category: Category,
        now: u64,
    ) -> ContractView {
        ContractView {
            markets: self.markets.push(
                self.new_market(creator, question, unlock_time, initial_stake, choice, category, now),
            ),
            stakes: self.stakes.push(
                Stake {
                    user: creator,
                    prediction_id: self.next_id(),
                    choice,
                    amount: initial_stake,
                    claimed: false,
                    staked_at: now,
                },
            ),
            treasury: Treasury {
                balance: (self.treasury.balance + treasury_share(CREATION_FEE as int)) as i128,
                burned: (self.treasury.burned + (CREATION_FEE - treasury_share(
                    CREATION_FEE as int,
                ))) as i128,
            },
            ..self
        }
    }

    /// The transfers a creation asks for: the creator pays the fee and the
    /// stake in, and the burned part of the fee goes out to the burn sink.
    pub open spec fn creation_transfers(creator: Account, initial_stake: i128) -> Seq<Transfer> {
        seq![
            Transfer {
                from: Party::Holder(creator),
                to: Party::Contract,
                amount: (CREATION_FEE + initial_stake) as i128,
            },
            Transfer {
                from: Party::Contract,
                to: Party::Burn,
                amount: (CREATION_FEE - treasury_share(CREATION_FEE as int)) as i128,
            },
        ]
    }

    /// The checks of `stake`, in order.
    pub open spec fn stake_check(self, id: u64, user: Account, amount: i128, now: u64) -> Result<
        (),
        Error,
    > {
        if self.has_stake(id, user) {
            Err(Error::AlreadyStaked)
        } else if amount < MIN_STAKE {
            Err(Error::StakeTooSmall)
        } else if !self.has_market(id) {
            Err(Error::NotFound)
        } else if self.market(id).status != PredictionStatus::Open {
            Err(Error::MarketNotOpen)
        } else if now >= self.market(id).unlock_time {
            Err(Error::MarketExpired)
        } else if total_volume(self.markets) + amount > i128::MAX
            || self.market(id).total_participants >= u32::MAX {
            Err(Error::Overflow)
        } else {
            Ok(())
        }
    }

    /// The state after a successful `stake`.
    pub open spec fn after_stake(
        self,
        id: u64,
        user: Account,
        choice: bool,
        amount: i128,
        now: u64,
    ) -> ContractView {
        let m = self.market(id);
        ContractView {
            markets: self.markets.update(
                id - 1,
                PredictionView {
                    yes_pool: if choice {
                        (m.yes_pool + amount) as i128
                    } else {
                        m.yes_pool
                    },
                    no_pool: if choice {
                        m.no_pool
                    } else {
                        (m.no_pool + amount) as i128
                    },
                    total_participants: (m.total_participants + 1) as u32,
                    ..m
                },
            ),
            stakes: self.stakes.push(
                Stake { user, prediction_id: id, choice, amount, claimed: false, staked_at: now },
            ),
            ..self
        }
    }

    /// The checks of `resolve`, in order.
    pub open spec fn resolve_check(self, caller: Account, id: u64, now: u64) -> Result<(), Error> {
        if self.admin != Some(caller) {
            Err(Error::Unauthorized)
        } else if !self.has_market(id) {
            Err(Error::NotFound)
        } else if self.market(id).status != PredictionStatus::Open {
            Err(Error::MarketNotOpen)
        } else if now < self.market(id).unlock_time {
            Err(Error::TooEarly)
        } else if !self.treasury.resolution_fee_fits(self.market(id).total_pool()) {
            Err(Error::Overflow)
        } else {
            Ok(())
        }
    }

    /// The state after a successful `resolve`: the winner is set and the
    /// platform fee enters the treasury.
    pub open spec fn after_resolve(self, id: u64, winner: bool) -> ContractView {
        let m = self.market(id);
        ContractView {
            markets: self.markets.update(
                id - 1,
                PredictionView { status: PredictionStatus::Resolved, winner: Some(winner), ..m },
            ),
            treasury: Treasury {
                balance: (self.treasury.balance + platform_fee_of(m.total_pool())) as i128,
                ..self.treasury
            },
            ..self
        }
    }

    /// The checks of `cancel_prediction`, in order.
    pub open spec fn cancel_check(self, caller: Account, id: u64, now: u64) -> Result<(), Error> {
        if self.admin != Some(caller) {
            Err(Error::Unauthorized)
        } else if !self.has_market(id) {
            Err(Error::NotFound)
        } else if self.market(id).status != PredictionStatus::Open {
            Err(Error::MarketNotOpen)
        } else if now > self.market(id).created_at + CANCEL_WINDOW
            || self.market(id).total_participants != 1 {
            Err(Error::CancelWindowClosed)
        } else if CREATION_FEE + self.creator_stake(id).amount > i128::MAX {
            Err(Error::Overflow)
        } else {
            Ok(())
        }
    }

    /// The state after a successful `cancel_prediction`.
    pub open spec fn after_cancel(self, id: u64) -> ContractView {
        ContractView {
            markets: self.markets.update(
                id - 1,
                PredictionView { status: PredictionStatus::Cancelled, ..self.market(id) },
            ),
            ..self
        }
    }

    /// The stake that the creator of a market placed when creating it.
    pub open spec fn creator_stake(self, id: u64) -> Stake {
        self.stake_of(id, self.market(id).creator)->0
    }

    /// The refund of a cancelled market: the creator's whole payment, the
    /// creation fee and the initial stake, goes back to the creator.
    pub open spec fn refund(self, id: u64) -> Transfer {
        Transfer {
            from: Party::Contract,
            to: Party::Holder(self.market(id).creator),
            amount: (CREATION_FEE + self.creator_stake(id).amount) as i128,
        }
    }

    /// What remains of a market's total pool once the platform fee is taken.
    pub open spec fn prize_pool(m: PredictionView) -> int {
        m.total_pool() - platform_fee_of(m.total_pool())
    }

    /// The checks of `claim`, in order.
    pub open spec fn claim_check(self, id: u64, user: Account) -> Result<(), Error> {
        if !self.has_market(id) {
            Err(Error::NotFound)
        } else if self.market(id).status != PredictionStatus::Resolved {
            Err(Error::NotResolved)
        } else if !self.has_stake(id, user) {
            Err(Error::NoStake)
        } else if self.stake_of(id, user)->0.claimed {
            Err(Error::AlreadyClaimed)
        } else if self.market(id).winner != Some(self.stake_of(id, user)->0.choice) {
            Err(Error::NotAWinner)
        } else if self.market(id).pool_of(self.stake_of(id, user)->0.choice) == 0 {
            Err(Error::InvalidWinningPool)
        } else if self.stake_of(id, user)->0.amount * Self::prize_pool(self.market(id))
            > i128::MAX {
            Err(Error::Overflow)
        } else {
            Ok(())
        }
    }

    /// The participant's share of the prize pool.
    pub open spec fn claim_payout(self, id: u64, user: Account) -> int {
        let s = self.stake_of(id, user)->0;
        let m = self.market(id);
        payout_spec(s.amount as int, Self::prize_pool(m), m.pool_of(s.choice))
    }

    /// The state after a successful `claim`: the stake is marked claimed.
    pub open spec fn after_claim(self, id: u64, user: Account) -> ContractView {
        let j = self.stake_index(id, user);
        ContractView {
            stakes: self.stakes.update(j, Stake { claimed: true, ..self.stakes[j] }),
            ..self
        }
    }

    /// Whether every stake on `side` of market `id` can have its payout
    /// computed without leaving the `i128` range.
    pub open spec fn payouts_fit(self, id: u64, side: bool, prize_pool: int) -> bool {
        forall|j: int|
            0 <= j < self.stakes.len() && #[trigger] self.stakes[j].prediction_id == id
                && self.stakes[j].choice == side ==> self.stakes[j].amount * prize_pool
                <= i128::MAX
    }

    /// The checks of `get_payout_remainder`, in order.
    pub open spec fn remainder_check(self, id: u64) -> Result<(), Error> {
        if !self.has_market(id) {
            Err(Error::NotFound)
        } else if self.market(id).status != PredictionStatus::Resolved {
            Err(Error::NotResolved)
        } else if !self.payouts_fit(
            id,
            self.market(id).winner->0,
            Self::prize_pool(self.market(id)),
        ) {
            Err(Error::Overflow)
        } else {
            Ok(())
        }
    }

    /// What rounding leaves of a resolved market's prize pool once every
    /// winning stake is paid its share; all of it when nobody won.
    pub open spec fn payout_remainder(self, id: u64) -> int {
        let m = self.market(id);
        let w = m.winner->0;
        if m.pool_of(w) == 0 {
            Self::prize_pool(m)
        } else {
            Self::prize_pool(m) - payout_sum(self.stakes, id, w, Self::prize_pool(m), m.pool_of(w))
        }
    }

    /// The checks of `withdraw_treasury`, in order.
    pub open spec fn withdraw_check(self, caller: Account, amount: i128) -> Result<(), Error> {
        if self.admin != Some(caller) {
            Err(Error::Unauthorized)
        } else if amount < 0 {
            Err(Error::InvalidAmount)
        } else if amount > self.treasury.balance {
            Err(Error::InsufficientTreasury)
        } else {
            Ok(())
        }
    }

    /// The state after a successful `withdraw_treasury`.
    pub open spec fn after_withdraw(self, amount: i128) -> ContractView {
        ContractView {
            treasury: Treasury {
                balance: (self.treasury.balance - amount) as i128,
                ..self.treasury
            },
            ..self
        }
    }
}

/// Under the invariant a participant's position in a market is recorded at
/// most once, so a matching record is the one `stake_index` names.
pub proof fn lemma_stake_index_unique(v: ContractView, id: u64, user: Account, j: int)
    requires
        v.wf(),
        0 <= j < v.stakes.len(),
        v.stakes[j].prediction_id == id,
        v.stakes[j].user == user,
    ensures
        v.has_stake(id, user),
        v.stake_index(id, user) == j,
        v.stake_of(id, user) == Some(v.stakes[j]),
{
    assert(v.has_stake(id, user));
    let k = v.stake_index(id, user);
    if k != j {
        assert(!same_position(v.stakes[j], v.stakes[k]));
    }
}

/// A position that is recorded stays recorded when every earlier record
/// keeps its market and participant.
pub proof fn lemma_has_stake_kept(v: ContractView, w: ContractView, id: u64, user: Account)
    requires
        v.has_stake(id, user),
        w.stakes.len() >= v.stakes.len(),
        forall|k: int| 0 <= k < v.stakes.len() ==> same_position(#[trigger] w.stakes[k], v.stakes[k]),
    ensures
        w.has_stake(id, user),
{
    let k = v.stake_index(id, user);
    assert(same_position(w.stakes[k], v.stakes[k]));
}

/// A market that only its creator has staked on holds exactly the
/// creator's stake in its pools.
pub proof fn lemma_lone_creator_pools(v: ContractView, id: u64)
    requires
        v.wf(),
        v.has_market(id),
        v.market(id).total_participants == 1,
    ensures
        v.market(id).total_pool() == v.creator_stake(id).amount,
{
    let m = v.market(id);
    assert(v.markets[id - 1].id == id);
    assert(v.market_wf(m));
    let j = v.stake_index(id, m.creator);
    lemma_sole_stake(v.stakes, id, j);
}

/// A successful creation keeps the invariant.
pub proof fn lemma_create_keeps_wf(
    v: ContractView,
    creator: Account,
    question: Seq<char>,
    unlock_time: u64,
    initial_stake: i128,
    choice: bool,
    category: Category,
    now: u64,
)
    requires
        v.wf(),
        v.create_check(question, unlock_time, initial_stake, now) is Ok,
    ensures
        v.after_create(creator, question, unlock_time, initial_stake, choice, category, now).wf(),
{
    let w = v.after_create(creator, question, unlock_time, initial_stake, choice, category, now);
    let nm = v.new_market(creator, question, unlock_time, initial_stake, choice, category, now);
    let s = w.stakes.last();
    let n = v.markets.len();
    assert(w.stakes =~= v.stakes.push(s));
    assert forall|k: int| 0 <= k < v.stakes.len() implies same_position(
        #[trigger] w.stakes[k],
        v.stakes[k],
    ) by {}
    assert forall|i: int| 0 <= i < w.markets.len() implies #[trigger] w.markets[i].id == i + 1
        && w.market_wf(w.markets[i]) by {
        if i < n {
            assert(w.markets[i] == v.markets[i]);
            assert(v.market_wf(v.markets[i]));
            lemma_pool_sum_push(v.stakes, s, v.markets[i].id, true);
            lemma_pool_sum_push(v.stakes, s, v.markets[i].id, false);
            lemma_stake_count_push(v.stakes, s, v.markets[i].id);
            lemma_has_stake_kept(v, w, v.markets[i].id, v.markets[i].creator);
        } else {
            assert(w.markets[i] == nm);
            assert forall|k: int| 0 <= k < v.stakes.len() implies #[trigger] v.stakes[k].prediction_id
                != nm.id by {
                assert(v.stakes[k].prediction_id <= n);
            }
            lemma_pool_sum_absent(v.stakes, nm.id, true);
            lemma_pool_sum_absent(v.stakes, nm.id, false);
            lemma_pool_sum_push(v.stakes, s, nm.id, true);
            lemma_pool_sum_push(v.stakes, s, nm.id, false);
            lemma_stake_count_zero(v.stakes, nm.id);
            lemma_stake_count_push(v.stakes, s, nm.id);
            assert(w.stakes[v.stakes.len() as int] == s);
        }
    }
    assert forall|j: int, k: int|
        0 <= j < w.stakes.len() && 0 <= k < w.stakes.len() && j != k implies !same_position(
        #[trigger] w.stakes[j],
        #[trigger] w.stakes[k],
    ) by {
        if j < v.stakes.len() && k < v.stakes.len() {
            assert(!same_position(v.stakes[j], v.stakes[k]));
        } else if j < v.stakes.len() {
            assert(v.stakes[j].prediction_id <= n);
        } else {
            assert(v.stakes[k].prediction_id <= n);
        }
    }
    assert forall|j: int| 0 <= j < w.stakes.len() implies 1 <= #[trigger] w.stakes[j].prediction_id
        <= w.markets.len() && w.stakes[j].amount >= MIN_STAKE by {
        if j < v.stakes.len() {
            assert(w.stakes[j] == v.stakes[j]);
        }
    }
    lemma_total_volume_push(v.markets, nm);
}

/// A successful stake keeps the invariant.
pub proof fn lemma_stake_keeps_wf(
    v: ContractView,
    id: u64,
    user: Account,
    choice: bool,
    amount: i128,
    now: u64,
)
    requires
        v.wf(),
        v.stake_check(id, user, amount, now) is Ok,
    ensures
        v.after_stake(id, user, choice, amount, now).wf(),
{
    let w = v.after_stake(id, user, choice, amount, now);
    let s = w.stakes.last();
    let i0 = id - 1;
    let m = v.market(id);
    assert(w.stakes =~= v.stakes.push(s));
    assert forall|k: int| 0 <= k < v.stakes.len() implies same_position(
        #[trigger] w.stakes[k],
        v.stakes[k],
    ) by {}
    assert(m.id == id);
    assert(v.market_wf(m));
    assert forall|k: int|
        0 <= k < v.markets.len() implies #[trigger] v.markets[k].yes_pool >= 0
        && v.markets[k].no_pool >= 0 by {
        assert(v.market_wf(v.markets[k]));
    }
    lemma_total_volume_bounds(v.markets, i0 as int);
    assert forall|i: int| 0 <= i < w.markets.len() implies #[trigger] w.markets[i].id == i + 1
        && w.market_wf(w.markets[i]) by {
        assert(v.market_wf(v.markets[i]));
        lemma_pool_sum_push(v.stakes, s, v.markets[i].id, true);
        lemma_pool_sum_push(v.stakes, s, v.markets[i].id, false);
        lemma_stake_count_push(v.stakes, s, v.markets[i].id);
        lemma_has_stake_kept(v, w, v.markets[i].id, v.markets[i].creator);
        if i != i0 {
            assert(w.markets[i] == v.markets[i]);
        } else {
            assert(v.markets[i] == m);
        }
    }
    assert forall|j: int, k: int|
        0 <= j < w.stakes.len() && 0 <= k < w.stakes.len() && j != k implies !same_position(
        #[trigger] w.stakes[j],
        #[trigger] w.stakes[k],
    ) by {
        if j < v.stakes.len() && k < v.stakes.len() {
            assert(!same_position(v.stakes[j], v.stakes[k]));
        } else if j < v.stakes.len() {
            assert(!(v.stakes[j].prediction_id == id && v.stakes[j].user == user));
        } else {
            assert(!(v.stakes[k].prediction_id == id && v.stakes[k].user == user));
        }
    }
    assert forall|j: int| 0 <= j < w.stakes.len() implies 1 <= #[trigger] w.stakes[j].prediction_id
        <= w.markets.len() && w.stakes[j].amount >= MIN_STAKE by {
        if j < v.stakes.len() {
            assert(w.stakes[j] == v.stakes[j]);
        }
    }
    lemma_total_volume_update(v.markets, i0 as int, w.markets[i0 as int]);
}

/// A successful resolution keeps the invariant.
pub proof fn lemma_resolve_keeps_wf(v: ContractView, caller: Account, id: u64, winner: bool, now: u64)
    requires
        v.wf(),
        v.resolve_check(caller, id, now) is Ok,
    ensures
        v.after_resolve(id, winner).wf(),
{
    let w = v.after_resolve(id, winner);
    let i0 = id - 1;
    assert(v.market_wf(v.markets[i0 as int]));
    assert forall|i: int| 0 <= i < w.markets.len() implies #[trigger] w.markets[i].id == i + 1
        && w.market_wf(w.markets[i]) by {
        assert(v.market_wf(v.markets[i]));
    }
    assert forall|j: int, k: int|
        0 <= j < w.stakes.len() && 0 <= k < w.stakes.len() && j != k implies !same_position(
        #[trigger] w.stakes[j],
        #[trigger] w.stakes[k],
    ) by {
        assert(!same_position(v.stakes[j], v.stakes[k]));
    }
    lemma_total_volume_update(v.markets, i0 as int, w.markets[i0 as int]);
}

/// A successful cancellation keeps the invariant.
pub proof fn lemma_cancel_keeps_wf(v: ContractView, caller: Account, id: u64, now: u64)
    requires
        v.wf(),
        v.cancel_check(caller, id, now) is Ok,
    ensures
        v.after_cancel(id).wf(),
{
    let w = v.after_cancel(id);
    let i0 = id - 1;
    assert(v.market_wf(v.markets[i0 as int]));
    assert forall|i: int| 0 <= i < w.markets.len() implies #[trigger] w.markets[i].id == i + 1
        && w.market_wf(w.markets[i]) by {
        assert(v.market_wf(v.markets[i]));
    }
    assert forall|j: int, k: int|
        0 <= j < w.stakes.len() && 0 <= k < w.stakes.len() && j != k implies !same_position(
        #[trigger] w.stakes[j],
        #[trigger] w.stakes[k],
    ) by {
        assert(!same_position(v.stakes[j], v.stakes[k]));
    }
    lemma_total_volume_update(v.markets, i0 as int, w.markets[i0 as int]);
}

/// A successful claim keeps the invariant.
pub proof fn lemma_claim_keeps_wf(v: ContractView, id: u64, user: Account)
    requires
        v.wf(),
        v.claim_check(id, user) is Ok,
    ensures
        v.after_claim(id, user).wf(),
{
    let w = v.after_claim(id, user);
    let j0 = v.stake_index(id, user);
    let s = Stake { claimed: true, ..v.stakes[j0] };
    assert(w.stakes == v.stakes.update(j0, s));
    assert forall|k: int| 0 <= k < v.stakes.len() implies same_position(
        #[trigger] w.stakes[k],
        v.stakes[k],
    ) by {}
    assert forall|i: int| 0 <= i < w.markets.len() implies #[trigger] w.markets[i].id == i + 1
        && w.market_wf(w.markets[i]) by {
        assert(v.market_wf(v.markets[i]));
        lemma_pool_sum_update(v.stakes, j0, s, v.markets[i].id, true);
        lemma_pool_sum_update(v.stakes, j0, s, v.markets[i].id, false);
        lemma_stake_count_update(v.stakes, j0, s, v.markets[i].id);
        lemma_has_stake_kept(v, w, v.markets[i].id, v.markets[i].creator);
    }
    assert forall|j: int, k: int|
        0 <= j < w.stakes.len() && 0 <= k < w.stakes.len() && j != k implies !same_position(
        #[trigger] w.stakes[j],
        #[trigger] w.stakes[k],
    ) by {
        assert(!same_position(v.stakes[j], v.stakes[k]));
    }
    assert forall|j: int| 0 <= j < w.stakes.len() implies 1 <= #[trigger] w.stakes[j].prediction_id
        <= w.markets.len() && w.stakes[j].amount >= MIN_STAKE by {
        assert(1 <= v.stakes[j].prediction_id <= v.markets.len() && v.stakes[j].amount >= MIN_STAKE);
    }
}

} // verus!
