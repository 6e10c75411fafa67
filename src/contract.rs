//! The engine: markets, stakes and the treasury behind the public operations.
use crate::fees::{proportional_payout, split_resolution_pool};
use crate::laws::lemma_payouts_within_prize_pool;
use crate::ledger::{
    backs, lemma_payout_sum_prefix, lemma_pool_sum_covers, payout_sum, count_status, lemma_total_volume_bounds, lemma_total_volume_push, lemma_total_volume_update,
    total_volume,
};
use crate::model::{
    lemma_cancel_keeps_wf, lemma_claim_keeps_wf, lemma_create_keeps_wf, lemma_lone_creator_pools,
    lemma_resolve_keeps_wf, lemma_stake_index_unique, lemma_stake_keeps_wf, same_position,
    ContractView,
    CANCEL_WINDOW, CREATION_FEE, MAX_QUESTION_LEN, MIN_QUESTION_LEN, MIN_STAKE, ONE_HOUR,
};
use crate::records::{
    check_creators, check_markets, check_participants, check_pools, check_stake_range,
    check_stakes_unique, lemma_wf_by_records, market_views, sum_volume,
};
use crate::treasury::Treasury;
use crate::types::{
    Account, Category, Error, Party, Prediction, PredictionStatus, Stake, Stats, Transfer,
};
use vstd::prelude::*;

verus! {

/// Every market, every stake and the treasury of one deployment.
///
/// The host calls one operation at a time, passes the current time and the
/// identity whose control it has verified, and carries out the transfers a
/// successful operation returns.  A failed operation leaves the state as it was.
pub struct TimeLockContract {
    admin: Option<Account>,
    min_lock_window: u64,
    markets: Vec<Prediction>,
    stakes: Vec<Stake>,
    treasury: Treasury,
    volume: i128,
}

impl View for TimeLockContract {
    type V = ContractView;

    /// The fields as they stand, with each market record taken to its value.
    closed spec fn view(&self) -> ContractView {
        ContractView {
            admin: self.admin,
            min_lock_window: self.min_lock_window,
            markets: market_views(self.markets@),
            stakes: self.stakes@,
            treasury: self.treasury,
        }
    }
}

/// Everything an engine holds, as plain records, so that a host can persist
/// it between calls and restore it.
pub struct EngineParts {
    pub admin: Option<Account>,
    pub min_lock_window: u64,
    pub markets: Vec<Prediction>,
    pub stakes: Vec<Stake>,
    pub treasury: Treasury,
}

impl View for EngineParts {
    type V = ContractView;

    open spec fn view(&self) -> ContractView {
        ContractView {
            admin: self.admin,
            min_lock_window: self.min_lock_window,
            markets: market_views(self.markets@),
            stakes: self.stakes@,
            treasury: self.treasury,
        }
    }
}

impl TimeLockContract {
    /// The running total of both pools over all markets is kept in step.
    pub closed spec fn volume_tracked(&self) -> bool {
        self.volume == total_volume(self@.markets)
    }

    /// The invariant of the abstract state, and the bookkeeping behind it.
    pub open spec fn wf(&self) -> bool {
        self@.wf() && self.volume_tracked()
    }

    /// An empty engine without an administrator, whose markets must unlock
    /// more than one hour after their creation.
    pub fn new() -> (r: TimeLockContract)
        ensures
            r.wf(),
            r@.admin is None,
            r@.min_lock_window == ONE_HOUR,
            r@.markets.len() == 0,
            r@.stakes.len() == 0,
            r@.treasury.balance == 0,
            r@.treasury.burned == 0,
    {
        Self::with_lock_window(ONE_HOUR)
    }

    /// An empty engine without an administrator, whose markets must unlock
    /// more than `min_lock_window` seconds after their creation.
    pub fn with_lock_window(min_lock_window: u64) -> (r: TimeLockContract)
        ensures
            r.wf(),
            r@.admin is None,
            r@.min_lock_window == min_lock_window,
            r@.markets.len() == 0,
            r@.stakes.len() == 0,
            r@.treasury.balance == 0,
            r@.treasury.burned == 0,
    {
        let r = TimeLockContract {
            admin: None,
            min_lock_window,
            markets: Vec::new(),
            stakes: Vec::new(),
            treasury: Treasury::new(),
            volume: 0,
        };
        assert(r@.markets =~= Seq::empty());
        r
    }

    /// Sets the administrator, once.
    pub fn initialize(&mut self, admin: Account) -> (r: Result<(), Error>)
        requires
            old(self).wf(),
        ensures
            final(self).wf(),
            r == old(self)@.initialize_check(),
            r is Ok ==> final(self)@ == (ContractView { admin: Some(admin), ..old(self)@ }),
            r is Err ==> final(self)@ == old(self)@,
    {
        if self.admin.is_some() {
            return Err(Error::AlreadyInitialized);
        }
        self.admin = Some(admin);
        Ok(())
    }

    /// Where the participant's stake in the market is recorded, if anywhere.
    fn find_stake(&self, id: u64, user: Account) -> (r: Option<usize>)
        requires
            self.wf(),
        ensures
            match r {
                Some(j) => {
                    &&& j < self@.stakes.len()
                    &&& self@.has_stake(id, user)
                    &&& self@.stake_index(id, user) == j
                },
                None => !self@.has_stake(id, user),
            },
    {
        let mut j: usize = 0;
        while j < self.stakes.len()
            invariant
                self.wf(),
                j <= self.stakes@.len(),
                forall|k: int|
                    0 <= k < j ==> !(#[trigger] self.stakes@[k].prediction_id == id
                        && self.stakes@[k].user == user),
            decreases self.stakes@.len() - j,
        {
            if self.stakes[j].prediction_id == id && self.stakes[j].user == user {
                proof {
                    lemma_stake_index_unique(self@, id, user, j as int);
                }
                return Some(j);
            }
            j += 1;
        }
        None
    }

    /// The market with this identifier.
    pub fn get_prediction(&self, prediction_id: u64) -> (r: Result<Prediction, Error>)
        requires
            self.wf(),
        ensures
            self@.has_market(prediction_id) ==> (r matches Ok(p) && p@ == self@.market(
                prediction_id,
            )),
            !self@.has_market(prediction_id) ==> r == Err::<Prediction, Error>(Error::NotFound),
    {
        if prediction_id == 0 || prediction_id > self.markets.len() as u64 {
            return Err(Error::NotFound);
        }
        let p = self.markets[(prediction_id - 1) as usize].clone();
        Ok(p)
    }

    /// The participant's stake in the market, if any.
    pub fn get_stake(&self, prediction_id: u64, user: Account) -> (r: Option<Stake>)
        requires
            self.wf(),
        ensures
            r == self@.stake_of(prediction_id, user),
    {
        match self.find_stake(prediction_id, user) {
            Some(j) => Some(self.stakes[j]),
            None => None,
        }
    }

    /// How many markets have been created.
    pub fn get_prediction_count(&self) -> (r: u64)
        requires
            self.wf(),
        ensures
            r == self@.markets.len(),
    {
        self.markets.len() as u64
    }

    /// The admin-withdrawable balance.
    pub fn get_treasury(&self) -> (r: i128)
        ensures
            r == self@.treasury.balance,
    {
        self.treasury.balance
    }

    /// The cumulative burned amount.
    pub fn get_total_burned(&self) -> (r: i128)
        ensures
            r == self@.treasury.burned,
    {
        self.treasury.burned
    }

    /// The administrator, once set.
    pub fn get_admin(&self) -> (r: Option<Account>)
        ensures
            r == self@.admin,
    {
        self.admin
    }
    /// Opens a market on `question` whose creator backs `initial_choice` with
    /// `initial_stake`, and pays the creation fee.
    ///
    /// On success returns the new market's identifier, one past the previous
    /// count, and the transfers to carry out: the creator's payment of fee and
    /// stake into the escrow, and the burned part of the fee out of it.
    pub fn create_prediction(
        &mut self,
        creator: Account,
        question: &str,
        unlock_time: u64,
        initial_stake: i128,
        initial_choice: bool,
        category: Category,
        now: u64,
    ) -> (r: Result<(u64, Vec<Transfer>), Error>)
        requires
            old(self).wf(),
        ensures
            final(self).wf(),
            r is Ok <==> old(self)@.create_check(question@, unlock_time, initial_stake, now) is Ok,
            r matches Err(e) ==> old(self)@.create_check(question@, unlock_time, initial_stake, now)
                == Err::<(), Error>(e) && final(self)@ == old(self)@,
            r matches Ok(out) ==> {
                &&& out.0 == old(self)@.next_id()
                &&& out.1@ == ContractView::creation_transfers(creator, initial_stake)
                &&& final(self)@ == old(self)@.after_create(
                    creator,
                    question@,
                    unlock_time,
                    initial_stake,
                    initial_choice,
                    category,
                    now,
                )
            },
    {
        let len = question.unicode_len();
        if len < MIN_QUESTION_LEN || len > MAX_QUESTION_LEN {
            return Err(Error::InvalidQuestionLength);
        }
        match now.checked_add(self.min_lock_window) {
            Some(earliest) => {
                if unlock_time <= earliest {
                    return Err(Error::UnlockTimeTooSoon);
                }
            },
            None => {
                return Err(Error::UnlockTimeTooSoon);
            },
        }
        if initial_stake < MIN_STAKE {
            return Err(Error::StakeTooSmall);
        }
        if self.markets.len() as u64 >= u64::MAX {
            return Err(Error::Overflow);
        }
        let payment = match CREATION_FEE.checked_add(initial_stake) {
            Some(p) => p,
            None => {
                return Err(Error::Overflow);
            },
        };
        let volume = match self.volume.checked_add(initial_stake) {
            Some(v) => v,
            None => {
                return Err(Error::Overflow);
            },
        };
        let ghost before = self@;
        let to_burn = match self.treasury.apply_creation_fee(CREATION_FEE) {
            Ok(b) => b,
            Err(e) => {
                return Err(e);
            },
        };
        let id = self.markets.len() as u64 + 1;
        let prediction = Prediction {
            id,
            creator,
            question: question.to_owned(),
            unlock_time,
            created_at: now,
            yes_pool: if initial_choice {
                initial_stake
            } else {
                0
            },
            no_pool: if initial_choice {
                0
            } else {
                initial_stake
            },
            status: PredictionStatus::Open,
            winner: None,
            category,
            total_participants: 1,
        };
        self.markets.push(prediction);
        self.stakes.push(
            Stake {
                user: creator,
                prediction_id: id,
                choice: initial_choice,
                amount: initial_stake,
                claimed: false,
                staked_at: now,
            },
        );
        self.volume = volume;
        let mut transfers: Vec<Transfer> = Vec::new();
        transfers.push(Transfer { from: Party::Holder(creator), to: Party::Contract, amount: payment });
        transfers.push(Transfer { from: Party::Contract, to: Party::Burn, amount: to_burn });
        proof {
            let post = before.after_create(
                creator,
                question@,
                unlock_time,
                initial_stake,
                initial_choice,
                category,
                now,
            );
            assert(self@.markets =~= post.markets);
            assert(self@.stakes =~= post.stakes);
            assert(self@ == post);
            lemma_create_keeps_wf(
                before,
                creator,
                question@,
                unlock_time,
                initial_stake,
                initial_choice,
                category,
                now,
            );
            lemma_total_volume_push(
                before.markets,
                before.new_market(
                    creator,
                    question@,
                    unlock_time,
                    initial_stake,
                    initial_choice,
                    category,
                    now,
                ),
            );
            assert(transfers@ =~= ContractView::creation_transfers(creator, initial_stake));
        }
        Ok((id, transfers))
    }
    /// Records `user`'s stake of `amount` on side `choice` of a market.
    ///
    /// On success returns the transfer of the stake from the participant into
    /// the escrow.
    pub fn stake(
        &mut self,
        prediction_id: u64,
        user: Account,
        choice: bool,
        amount: i128,
        now: u64,
    ) -> (r: Result<Transfer, Error>)
        requires
            old(self).wf(),
        ensures
            final(self).wf(),
            r is Ok <==> old(self)@.stake_check(prediction_id, user, amount, now) is Ok,
            r matches Err(e) ==> old(self)@.stake_check(prediction_id, user, amount, now) == Err::<
                (),
                Error,
            >(e) && final(self)@ == old(self)@,
            r matches Ok(t) ==> {
                &&& t == (Transfer { from: Party::Holder(user), to: Party::Contract, amount })
                &&& final(self)@ == old(self)@.after_stake(prediction_id, user, choice, amount, now)
            },
    {
        if self.find_stake(prediction_id, user).is_some() {
            return Err(Error::AlreadyStaked);
        }
        if amount < MIN_STAKE {
            return Err(Error::StakeTooSmall);
        }
        if prediction_id == 0 || prediction_id > self.markets.len() as u64 {
            return Err(Error::NotFound);
        }
        let i = (prediction_id - 1) as usize;
        let mut m = self.markets[i].clone();
        if m.status != PredictionStatus::Open {
            return Err(Error::MarketNotOpen);
        }
        if now >= m.unlock_time {
            return Err(Error::MarketExpired);
        }
        let volume = match self.volume.checked_add(amount) {
            Some(v) => v,
            None => {
                return Err(Error::Overflow);
            },
        };
        if m.total_participants >= u32::MAX {
            return Err(Error::Overflow);
        }
        proof {
            assert(self@.markets[i as int] == m@);
            assert(self@.market_wf(m@));
            lemma_total_volume_bounds(self@.markets, i as int);
        }
        let ghost before = self@;
        if choice {
            m.yes_pool = m.yes_pool + amount;
        } else {
            m.no_pool = m.no_pool + amount;
        }
        m.total_participants = m.total_participants + 1;
        self.markets.set(i, m);
        self.stakes.push(
            Stake { user, prediction_id, choice, amount, claimed: false, staked_at: now },
        );
        self.volume = volume;
        proof {
            let post = before.after_stake(prediction_id, user, choice, amount, now);
            assert(self@.markets =~= post.markets);
            assert(self@.stakes =~= post.stakes);
            assert(self@ == post);
            lemma_stake_keeps_wf(before, prediction_id, user, choice, amount, now);
            lemma_total_volume_update(before.markets, i as int, post.markets[i as int]);
        }
        Ok(Transfer { from: Party::Holder(user), to: Party::Contract, amount })
    }
    /// Whether `caller` is the administrator.
    fn is_admin(&self, caller: Account) -> (r: bool)
        ensures
            r == (self@.admin == Some(caller)),
    {
        match self.admin {
            Some(a) => a == caller,
            None => false,
        }
    }

    /// Declares the outcome of a market once its unlock time is reached, and
    /// moves the platform fee of its total pool into the treasury.
    pub fn resolve(&mut self, caller: Account, prediction_id: u64, winner_choice: bool, now: u64) -> (r:
        Result<(), Error>)
        requires
            old(self).wf(),
        ensures
            final(self).wf(),
            r == old(self)@.resolve_check(caller, prediction_id, now),
            r is Ok ==> final(self)@ == old(self)@.after_resolve(prediction_id, winner_choice),
            r is Err ==> final(self)@ == old(self)@,
    {
        if !self.is_admin(caller) {
            return Err(Error::Unauthorized);
        }
        if prediction_id == 0 || prediction_id > self.markets.len() as u64 {
            return Err(Error::NotFound);
        }
        let i = (prediction_id - 1) as usize;
        let mut m = self.markets[i].clone();
        if m.status != PredictionStatus::Open {
            return Err(Error::MarketNotOpen);
        }
        if now < m.unlock_time {
            return Err(Error::TooEarly);
        }
        proof {
            assert(self@.markets[i as int] == m@);
            assert(self@.market_wf(m@));
            lemma_total_volume_bounds(self@.markets, i as int);
        }
        let ghost before = self@;
        let total_pool = m.yes_pool + m.no_pool;
        match self.treasury.apply_resolution_fee(total_pool) {
            Ok(_) => {},
            Err(e) => {
                return Err(e);
            },
        }
        m.status = PredictionStatus::Resolved;
        m.winner = Some(winner_choice);
        self.markets.set(i, m);
        proof {
            let post = before.after_resolve(prediction_id, winner_choice);
            assert(self@.markets =~= post.markets);
            assert(self@ == post);
            lemma_resolve_keeps_wf(before, caller, prediction_id, winner_choice, now);
            lemma_total_volume_update(before.markets, i as int, post.markets[i as int]);
        }
        Ok(())
    }

    /// Cancels a market that only its creator has staked on, within the
    /// cancel window after its creation.
    ///
    /// On success returns the refund of the creation fee and the pools to the
    /// creator.
    pub fn cancel_prediction(&mut self, caller: Account, prediction_id: u64, now: u64) -> (r: Result<
        Transfer,
        Error,
    >)
        requires
            old(self).wf(),
        ensures
            final(self).wf(),
            r is Ok <==> old(self)@.cancel_check(caller, prediction_id, now) is Ok,
            r matches Err(e) ==> old(self)@.cancel_check(caller, prediction_id, now) == Err::<
                (),
                Error,
            >(e) && final(self)@ == old(self)@,
            r matches Ok(t) ==> t == old(self)@.refund(prediction_id) && final(self)@ == old(
                self,
            )@.after_cancel(prediction_id),
    {
        if !self.is_admin(caller) {
            return Err(Error::Unauthorized);
        }
        if prediction_id == 0 || prediction_id > self.markets.len() as u64 {
            return Err(Error::NotFound);
        }
        let i = (prediction_id - 1) as usize;
        let mut m = self.markets[i].clone();
        if m.status != PredictionStatus::Open {
            return Err(Error::MarketNotOpen);
        }
        let window_closed = match m.created_at.checked_add(CANCEL_WINDOW) {
            Some(deadline) => now > deadline,
            None => false,
        };
        if window_closed || m.total_participants != 1 {
            return Err(Error::CancelWindowClosed);
        }
        proof {
            assert(self@.markets[i as int] == m@);
            assert(self@.market_wf(m@));
            lemma_total_volume_bounds(self@.markets, i as int);
            lemma_lone_creator_pools(self@, prediction_id);
        }
        let refund = match CREATION_FEE.checked_add(m.yes_pool + m.no_pool) {
            Some(a) => a,
            None => {
                return Err(Error::Overflow);
            },
        };
        let ghost before = self@;
        let creator = m.creator;
        m.status = PredictionStatus::Cancelled;
        self.markets.set(i, m);
        proof {
            let post = before.after_cancel(prediction_id);
            assert(self@.markets =~= post.markets);
            assert(self@ == post);
            lemma_cancel_keeps_wf(before, caller, prediction_id, now);
            lemma_total_volume_update(before.markets, i as int, post.markets[i as int]);
        }
        Ok(Transfer { from: Party::Contract, to: Party::Holder(creator), amount: refund })
    }
    /// Pays a winning participant their share of a resolved market's prize
    /// pool and marks their stake claimed.
    ///
    /// On success returns the payout, which the escrow transfers to `user`.
    pub fn claim(&mut self, prediction_id: u64, user: Account) -> (r: Result<i128, Error>)
        requires
            old(self).wf(),
        ensures
            final(self).wf(),
            r is Ok <==> old(self)@.claim_check(prediction_id, user) is Ok,
            r matches Err(e) ==> old(self)@.claim_check(prediction_id, user) == Err::<(), Error>(e)
                && final(self)@ == old(self)@,
            r matches Ok(payout) ==> payout == old(self)@.claim_payout(prediction_id, user)
                && final(self)@ == old(self)@.after_claim(prediction_id, user),
    {
        if prediction_id == 0 || prediction_id > self.markets.len() as u64 {
            return Err(Error::NotFound);
        }
        let i = (prediction_id - 1) as usize;
        let m = &self.markets[i];
        if m.status != PredictionStatus::Resolved {
            return Err(Error::NotResolved);
        }
        let j = match self.find_stake(prediction_id, user) {
            Some(j) => j,
            None => {
                return Err(Error::NoStake);
            },
        };
        let s = self.stakes[j];
        if s.claimed {
            return Err(Error::AlreadyClaimed);
        }
        if m.winner != Some(s.choice) {
            return Err(Error::NotAWinner);
        }
        let winning_pool = if s.choice {
            m.yes_pool
        } else {
            m.no_pool
        };
        if winning_pool == 0 {
            return Err(Error::InvalidWinningPool);
        }
        proof {
            assert(self@.markets[i as int] == m@);
            assert(self@.market_wf(m@));
            lemma_total_volume_bounds(self@.markets, i as int);
        }
        let (prize_pool, _) = split_resolution_pool(m.yes_pool + m.no_pool);
        let payout = match proportional_payout(s.amount, prize_pool, winning_pool) {
            Some(p) => p,
            None => {
                return Err(Error::Overflow);
            },
        };
        let ghost before = self@;
        self.stakes.set(j, Stake { claimed: true, ..s });
        proof {
            let post = before.after_claim(prediction_id, user);
            assert(self@.stakes =~= post.stakes);
            assert(self@.markets =~= post.markets);
            assert(self@ == post);
            lemma_claim_keeps_wf(before, prediction_id, user);
        }
        Ok(payout)
    }

    /// [`TimeLockContract::claim`] with the participant named first.
    pub fn claim_winnings(&mut self, user: Account, prediction_id: u64) -> (r: Result<i128, Error>)
        requires
            old(self).wf(),
        ensures
            final(self).wf(),
            r is Ok <==> old(self)@.claim_check(prediction_id, user) is Ok,
            r matches Err(e) ==> old(self)@.claim_check(prediction_id, user) == Err::<(), Error>(e)
                && final(self)@ == old(self)@,
            r matches Ok(payout) ==> payout == old(self)@.claim_payout(prediction_id, user)
                && final(self)@ == old(self)@.after_claim(prediction_id, user),
    {
        self.claim(prediction_id, user)
    }

    /// Pays `amount` out of the treasury to the administrator.
    ///
    /// On success returns the transfer from the escrow to `caller`.
    pub fn withdraw_treasury(&mut self, caller: Account, amount: i128) -> (r: Result<
        Transfer,
        Error,
    >)
        requires
            old(self).wf(),
        ensures
            final(self).wf(),
            r is Ok <==> old(self)@.withdraw_check(caller, amount) is Ok,
            r matches Err(e) ==> old(self)@.withdraw_check(caller, amount) == Err::<(), Error>(e)
                && final(self)@ == old(self)@,
            r matches Ok(t) ==> {
                &&& t == (Transfer { from: Party::Contract, to: Party::Holder(caller), amount })
                &&& final(self)@ == old(self)@.after_withdraw(amount)
            },
    {
        if !self.is_admin(caller) {
            return Err(Error::Unauthorized);
        }
        let ghost before = self@;
        match self.treasury.withdraw(amount) {
            Ok(()) => {},
            Err(e) => {
                return Err(e);
            },
        }
        proof {
            let post = before.after_withdraw(amount);
            assert(self@ == post);
            assert forall|j: int, k: int|
                0 <= j < post.stakes.len() && 0 <= k < post.stakes.len() && j != k implies !same_position(
                #[trigger] post.stakes[j],
                #[trigger] post.stakes[k],
            ) by {
                assert(!same_position(before.stakes[j], before.stakes[k]));
            }
        }
        Ok(Transfer { from: Party::Contract, to: Party::Holder(caller), amount })
    }
    /// Counts of all, open and resolved markets, the combined volume of all
    /// pools, and both treasury totals.
    pub fn get_stats(&self) -> (r: Stats)
        requires
            self.wf(),
        ensures
            r.total_predictions == self@.markets.len(),
            r.active_predictions == count_status(self@.markets, PredictionStatus::Open),
            r.resolved_predictions == count_status(self@.markets, PredictionStatus::Resolved),
            r.total_volume == total_volume(self@.markets),
            r.treasury_balance == self@.treasury.balance,
            r.total_burned == self@.treasury.burned,
    {
        let mut active: u64 = 0;
        let mut resolved: u64 = 0;
        let mut i: usize = 0;
        while i < self.markets.len()
            invariant
                self.wf(),
                i <= self.markets@.len(),
                active <= i,
                resolved <= i,
                active == count_status(self@.markets.subrange(0, i as int), PredictionStatus::Open),
                resolved == count_status(
                    self@.markets.subrange(0, i as int),
                    PredictionStatus::Resolved,
                ),
            decreases self.markets@.len() - i,
        {
            proof {
                let prefix = self@.markets.subrange(0, i as int + 1);
                assert(prefix.drop_last() =~= self@.markets.subrange(0, i as int));
                assert(prefix.last() == self.markets@[i as int]@);
            }
            match self.markets[i].status {
                PredictionStatus::Open => {
                    active = active + 1;
                },
                PredictionStatus::Resolved => {
                    resolved = resolved + 1;
                },
                _ => {},
            }
            i = i + 1;
        }
        proof {
            assert(self@.markets.subrange(0, i as int) =~= self@.markets);
        }
        Stats {
            total_predictions: self.markets.len() as u64,
            active_predictions: active,
            resolved_predictions: resolved,
            total_volume: self.volume,
            treasury_balance: self.treasury.balance,
            total_burned: self.treasury.burned,
        }
    }
    /// Hands out the engine's records.
    pub fn into_parts(self) -> (r: EngineParts)
        ensures
            r@ == self@,
    {
        EngineParts {
            admin: self.admin,
            min_lock_window: self.min_lock_window,
            markets: self.markets,
            stakes: self.stakes,
            treasury: self.treasury,
        }
    }

    /// Rebuilds an engine from its records, which must satisfy the invariant.
    pub fn from_parts(parts: EngineParts) -> (r: Result<TimeLockContract, Error>)
        ensures
            r is Ok <==> parts@.wf(),
            r matches Ok(c) ==> c.wf() && c@ == parts@,
            r matches Err(e) ==> e == Error::InconsistentRecords,
    {
        proof {
            lemma_wf_by_records(parts@);
        }
        if !check_markets(&parts.markets) {
            return Err(Error::InconsistentRecords);
        }
        let volume = match sum_volume(&parts.markets) {
            Some(v) => v,
            None => {
                return Err(Error::InconsistentRecords);
            },
        };
        if !check_stake_range(&parts.stakes, parts.markets.len()) {
            return Err(Error::InconsistentRecords);
        }
        if !check_stakes_unique(&parts.stakes) {
            return Err(Error::InconsistentRecords);
        }
        if !check_pools(&parts.markets, &parts.stakes) {
            return Err(Error::InconsistentRecords);
        }
        if !check_participants(&parts.markets, &parts.stakes) {
            return Err(Error::InconsistentRecords);
        }
        if !check_creators(&parts.markets, &parts.stakes) {
            return Err(Error::InconsistentRecords);
        }
        if parts.treasury.balance < 0 || parts.treasury.burned < 0 {
            return Err(Error::InconsistentRecords);
        }
        Ok(
            TimeLockContract {
                admin: parts.admin,
                min_lock_window: parts.min_lock_window,
                markets: parts.markets,
                stakes: parts.stakes,
                treasury: parts.treasury,
                volume,
            },
        )
    }
    /// What rounding leaves undistributed of a resolved market's prize pool:
    /// the prize pool less the payouts that all its winning stakes are owed,
    /// whether claimed yet or not.
    pub fn get_payout_remainder(&self, prediction_id: u64) -> (r: Result<i128, Error>)
        requires
            self.wf(),
        ensures
            r is Ok <==> self@.remainder_check(prediction_id) is Ok,
            r matches Err(e) ==> self@.remainder_check(prediction_id) == Err::<(), Error>(e),
            r matches Ok(x) ==> x == self@.payout_remainder(prediction_id) && x >= 0,
    {
        if prediction_id == 0 || prediction_id > self.markets.len() as u64 {
            return Err(Error::NotFound);
        }
        let i = (prediction_id - 1) as usize;
        let m = &self.markets[i];
        if m.status != PredictionStatus::Resolved {
            return Err(Error::NotResolved);
        }
        let ghost v = self@;
        proof {
            assert(v.markets[i as int] == m@);
            assert(v.market_wf(m@));
            lemma_total_volume_bounds(v.markets, i as int);
            assert forall|k: int| 0 <= k < v.stakes.len() implies #[trigger] v.stakes[k].amount
                >= 0 by {
                assert(v.stakes[k].prediction_id >= 1);
            }
        }
        let side = match m.winner {
            Some(w) => w,
            None => {
                return Err(Error::NotResolved);
            },
        };
        let winning_pool = if side {
            m.yes_pool
        } else {
            m.no_pool
        };
        let (prize_pool, _) = split_resolution_pool(m.yes_pool + m.no_pool);
        if winning_pool == 0 {
            proof {
                assert forall|j: int|
                    0 <= j < v.stakes.len() && #[trigger] v.stakes[j].prediction_id == prediction_id
                        && v.stakes[j].choice == side implies v.stakes[j].amount * prize_pool
                    <= i128::MAX by {
                    lemma_pool_sum_covers(v.stakes, j, prediction_id, side);
                }
            }
            return Ok(prize_pool);
        }
        proof {
            lemma_payouts_within_prize_pool(v, prediction_id);
            assert(v.market(prediction_id) == m@);
        }
        let mut paid: i128 = 0;
        let mut j: usize = 0;
        while j < self.stakes.len()
            invariant
                self.wf(),
                v == self@,
                v.has_market(prediction_id),
                v.market(prediction_id).status == PredictionStatus::Resolved,
                side == v.market(prediction_id).winner->0,
                prize_pool == ContractView::prize_pool(v.market(prediction_id)),
                winning_pool == v.market(prediction_id).pool_of(side),
                0 < winning_pool,
                0 <= prize_pool,
                forall|k: int| 0 <= k < v.stakes.len() ==> #[trigger] v.stakes[k].amount >= 0,
                payout_sum(v.stakes, prediction_id, side, prize_pool as int, winning_pool as int)
                    <= prize_pool,
                j <= v.stakes.len(),
                0 <= paid,
                paid == payout_sum(
                    v.stakes.subrange(0, j as int),
                    prediction_id,
                    side,
                    prize_pool as int,
                    winning_pool as int,
                ),
                forall|k: int|
                    0 <= k < j && #[trigger] v.stakes[k].prediction_id == prediction_id
                        && v.stakes[k].choice == side ==> v.stakes[k].amount * prize_pool
                        <= i128::MAX,
            decreases v.stakes.len() - j,
        {
            let s = self.stakes[j];
            proof {
                let prefix = v.stakes.subrange(0, j + 1);
                assert(prefix.drop_last() =~= v.stakes.subrange(0, j as int));
                assert(prefix.last() == s);
                lemma_payout_sum_prefix(
                    v.stakes,
                    j + 1,
                    prediction_id,
                    side,
                    prize_pool as int,
                    winning_pool as int,
                );
                assert forall|k: int| 0 <= k < prefix.len() implies #[trigger] prefix[k].amount
                    >= 0 by {
                    assert(prefix[k] == v.stakes[k]);
                }
                lemma_payout_sum_prefix(
                    prefix,
                    j as int,
                    prediction_id,
                    side,
                    prize_pool as int,
                    winning_pool as int,
                );
            }
            if s.prediction_id == prediction_id && s.choice == side {
                match proportional_payout(s.amount, prize_pool, winning_pool) {
                    Some(p) => {
                        paid = paid + p;
                    },
                    None => {
                        proof {
                            assert(v.stakes[j as int] == s);
                            assert(!v.payouts_fit(
                                prediction_id,
                                side,
                                ContractView::prize_pool(v.market(prediction_id)),
                            ));
                        }
                        return Err(Error::Overflow);
                    },
                }
            }
            j = j + 1;
        }
        proof {
            assert(v.stakes.subrange(0, j as int) =~= v.stakes);
        }
        Ok(prize_pool - paid)
    }
}

} // verus!
