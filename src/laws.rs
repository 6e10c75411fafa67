//! Properties that hold across operations, proved over the abstract state.
use crate::fees::payout_spec;
use crate::ledger::{
    lemma_payout_sum_scaled, lemma_pool_sum_covers, lemma_pool_sum_nonneg, payout_sum, pool_sum,
};
use crate::model::{
    lemma_claim_keeps_wf, lemma_create_keeps_wf, lemma_stake_index_unique, same_position,
    ContractView, CREATION_FEE,
};
use crate::types::{Account, Category, Error, Party, PredictionStatus, Transfer};
use vstd::prelude::*;

verus! {

/// Conservation of stakes: in every state that satisfies the invariant, each
/// pool of a market equals the sum of the amounts staked on that side of it.
pub proof fn lemma_pools_equal_stake_sums(v: ContractView, id: u64)
    requires
        v.wf(),
        v.has_market(id),
    ensures
        v.market(id).yes_pool == pool_sum(v.stakes, id, true),
        v.market(id).no_pool == pool_sum(v.stakes, id, false),
{
    assert(v.market_wf(v.markets[id - 1]));
}

/// The payouts of a resolved market stay within its prize pool: the sum of
/// what every stake on the winning side is paid is at most the prize pool.
/// (When the winning side is empty, every claim fails instead.)
pub proof fn lemma_payouts_within_prize_pool(v: ContractView, id: u64)
    requires
        v.wf(),
        v.has_market(id),
        v.market(id).status == PredictionStatus::Resolved,
    ensures
        ({
            let m = v.market(id);
            let w = m.winner->0;
            m.pool_of(w) > 0 ==> payout_sum(
                v.stakes,
                id,
                w,
                ContractView::prize_pool(m),
                m.pool_of(w),
            ) <= ContractView::prize_pool(m)
        }),
{
    let m = v.market(id);
    assert(v.market_wf(v.markets[id - 1]));
    let w = m.winner->0;
    let prize = ContractView::prize_pool(m);
    let wp = m.pool_of(w);
    if wp > 0 {
        assert(0 <= crate::fees::platform_fee_of(m.total_pool()) <= m.total_pool()) by {
            assert(m.total_pool() >= 0);
            assert(0 <= m.total_pool() * 5 / 100 <= m.total_pool()) by (nonlinear_arith)
                requires
                    m.total_pool() >= 0,
            ;
        }
        assert forall|j: int| 0 <= j < v.stakes.len() implies #[trigger] v.stakes[j].amount
            >= 0 by {
            assert(v.stakes[j].prediction_id >= 1);
        }
        lemma_payout_sum_scaled(v.stakes, id, w, prize, wp);
        let total = payout_sum(v.stakes, id, w, prize, wp);
        assert(pool_sum(v.stakes, id, w) == wp);
        assert(total <= prize) by (nonlinear_arith)
            requires
                total * wp <= wp * prize,
                wp > 0,
        ;
    }
}

/// A successful claim pays the claimant the term that `payout_sum` counts
/// for its stake: its amount's proportional share of the prize pool.
pub proof fn lemma_claim_pays_its_share(v: ContractView, id: u64, user: Account)
    requires
        v.wf(),
        v.claim_check(id, user) is Ok,
    ensures
        ({
            let m = v.market(id);
            let s = v.stake_of(id, user)->0;
            &&& s.choice == m.winner->0
            &&& v.claim_payout(id, user) == payout_spec(
                s.amount as int,
                ContractView::prize_pool(m),
                m.pool_of(m.winner->0),
            )
        }),
{
}

/// A participant holds at most one stake per market: after a successful
/// stake, every further stake by the same participant in the same market
/// fails with `AlreadyStaked`.
pub proof fn lemma_stake_at_most_once(
    v: ContractView,
    id: u64,
    user: Account,
    choice: bool,
    amount: i128,
    now: u64,
    again_amount: i128,
    again_now: u64,
)
    requires
        v.wf(),
        v.stake_check(id, user, amount, now) is Ok,
    ensures
        v.after_stake(id, user, choice, amount, now).stake_check(id, user, again_amount, again_now)
            == Err::<(), Error>(Error::AlreadyStaked),
{
    let w = v.after_stake(id, user, choice, amount, now);
    let j = v.stakes.len() as int;
    assert(w.stakes[j].prediction_id == id && w.stakes[j].user == user);
}

/// The creator of a market already holds its stake in it, so any stake the
/// creator then attempts there fails with `AlreadyStaked`.
pub proof fn lemma_creator_cannot_stake_again(
    v: ContractView,
    creator: Account,
    question: Seq<char>,
    unlock_time: u64,
    initial_stake: i128,
    choice: bool,
    category: Category,
    now: u64,
    amount: i128,
    again_now: u64,
)
    requires
        v.wf(),
        v.create_check(question, unlock_time, initial_stake, now) is Ok,
    ensures
        v.after_create(creator, question, unlock_time, initial_stake, choice, category, now).stake_check(
            v.next_id(),
            creator,
            amount,
            again_now,
        ) == Err::<(), Error>(Error::AlreadyStaked),
{
    let w = v.after_create(creator, question, unlock_time, initial_stake, choice, category, now);
    let j = v.stakes.len() as int;
    assert(w.stakes[j].prediction_id == v.next_id() && w.stakes[j].user == creator);
}

/// Winnings are claimed at most once: after a successful claim, every
/// further claim by the same participant on the same market fails with
/// `AlreadyClaimed`.
pub proof fn lemma_claim_at_most_once(v: ContractView, id: u64, user: Account)
    requires
        v.wf(),
        v.claim_check(id, user) is Ok,
    ensures
        v.after_claim(id, user).claim_check(id, user) == Err::<(), Error>(Error::AlreadyClaimed),
{
    let w = v.after_claim(id, user);
    let j = v.stake_index(id, user);
    lemma_claim_keeps_wf(v, id, user);
    assert(w.markets == v.markets);
    lemma_stake_index_unique(w, id, user, j);
}

/// Identifiers are handed out as 1, 2, 3, … in order of creation: the new
/// market's identifier is one past the number of markets before it, greater
/// than every earlier identifier, and every earlier market keeps its own.
pub proof fn lemma_identifiers_sequential(
    v: ContractView,
    creator: Account,
    question: Seq<char>,
    unlock_time: u64,
    initial_stake: i128,
    choice: bool,
    category: Category,
    now: u64,
)
    requires
        v.wf(),
        v.create_check(question, unlock_time, initial_stake, now) is Ok,
    ensures
        ({
            let w = v.after_create(creator, question, unlock_time, initial_stake, choice, category, now);
            &&& v.next_id() == v.markets.len() + 1
            &&& w.markets.len() == v.markets.len() + 1
            &&& w.market(v.next_id()).id == v.next_id()
            &&& forall|i: int| 0 <= i < v.markets.len() ==> #[trigger] w.markets[i] == v.markets[i]
                && v.markets[i].id < v.next_id()
        }),
{
    let w = v.after_create(creator, question, unlock_time, initial_stake, choice, category, now);
    assert forall|i: int| 0 <= i < v.markets.len() implies #[trigger] w.markets[i] == v.markets[i]
        && v.markets[i].id < v.next_id() by {
        assert(v.markets[i].id == i + 1);
    }
}

/// Cancelling a market removes nothing: the market stays, with its
/// identifier, and the next identifier is unchanged, so none is reused.
pub proof fn lemma_cancel_keeps_identifiers(v: ContractView, caller: Account, id: u64, now: u64)
    requires
        v.wf(),
        v.cancel_check(caller, id, now) is Ok,
    ensures
        ({
            let w = v.after_cancel(id);
            &&& w.markets.len() == v.markets.len()
            &&& w.next_id() == v.next_id()
            &&& w.market(id).id == id
            &&& w.market(id).status == PredictionStatus::Cancelled
            &&& forall|i: int| 0 <= i < v.markets.len() ==> #[trigger] w.markets[i].id == v.markets[i].id
        }),
{
}

/// Cancelling refunds the creator's whole payment: for a market just
/// created, a successful cancellation returns the creation fee plus the
/// initial stake to the creator.
pub proof fn lemma_cancel_refunds_payment(
    v: ContractView,
    creator: Account,
    question: Seq<char>,
    unlock_time: u64,
    initial_stake: i128,
    choice: bool,
    category: Category,
    now: u64,
    caller: Account,
    cancel_now: u64,
)
    requires
        v.wf(),
        v.create_check(question, unlock_time, initial_stake, now) is Ok,
        v.after_create(creator, question, unlock_time, initial_stake, choice, category, now).cancel_check(
            caller,
            v.next_id(),
            cancel_now,
        ) is Ok,
    ensures
        v.after_create(creator, question, unlock_time, initial_stake, choice, category, now).refund(
            v.next_id(),
        ) == (Transfer {
            from: Party::Contract,
            to: Party::Holder(creator),
            amount: (CREATION_FEE + initial_stake) as i128,
        }),
{
    let w = v.after_create(creator, question, unlock_time, initial_stake, choice, category, now);
    lemma_create_keeps_wf(v, creator, question, unlock_time, initial_stake, choice, category, now);
    let j = v.stakes.len() as int;
    assert(w.market(v.next_id()).creator == creator);
    lemma_stake_index_unique(w, v.next_id(), creator, j);
}

/// Timing gates: a market cannot be resolved before its unlock time, and
/// takes no stake from its unlock time on.
pub proof fn lemma_timing_gates(
    v: ContractView,
    caller: Account,
    id: u64,
    user: Account,
    amount: i128,
    now: u64,
)
    requires
        v.has_market(id),
    ensures
        now < v.market(id).unlock_time ==> v.resolve_check(caller, id, now) is Err,
        now >= v.market(id).unlock_time ==> v.stake_check(id, user, amount, now) is Err,
{
}

/// A market's pools always hold at least the creator's initial stake.
pub proof fn lemma_pools_cover_creator_stake(v: ContractView, id: u64)
    requires
        v.wf(),
        v.has_market(id),
    ensures
        v.market(id).total_pool() >= v.creator_stake(id).amount,
{
    let m = v.market(id);
    assert(v.markets[id - 1].id == id);
    assert(v.market_wf(m));
    let j = v.stake_index(id, m.creator);
    assert forall|k: int| 0 <= k < v.stakes.len() implies #[trigger] v.stakes[k].amount >= 0 by {
        assert(v.stakes[k].prediction_id >= 1);
    }
    lemma_pool_sum_covers(v.stakes, j, id, v.stakes[j].choice);
    lemma_pool_sum_nonneg(v.stakes, id, !v.stakes[j].choice);
}

/// Status only moves forward: resolving or cancelling takes an open market to
/// its terminal status and leaves every other market as it was, and staking
/// changes no market's status.
pub proof fn lemma_status_moves_forward(
    v: ContractView,
    caller: Account,
    id: u64,
    winner: bool,
    now: u64,
    user: Account,
    choice: bool,
    amount: i128,
)
    requires
        v.wf(),
    ensures
        v.resolve_check(caller, id, now) is Ok ==> {
            let w = v.after_resolve(id, winner);
            &&& v.market(id).status == PredictionStatus::Open
            &&& w.market(id).status == PredictionStatus::Resolved
            &&& w.market(id).winner == Some(winner)
            &&& w.markets.len() == v.markets.len()
            &&& forall|i: int|
                0 <= i < v.markets.len() && i != id - 1 ==> #[trigger] w.markets[i] == v.markets[i]
        },
        v.cancel_check(caller, id, now) is Ok ==> {
            let w = v.after_cancel(id);
            &&& v.market(id).status == PredictionStatus::Open
            &&& w.market(id).status == PredictionStatus::Cancelled
            &&& w.market(id).winner is None
            &&& w.markets.len() == v.markets.len()
            &&& forall|i: int|
                0 <= i < v.markets.len() && i != id - 1 ==> #[trigger] w.markets[i] == v.markets[i]
        },
        v.stake_check(id, user, amount, now) is Ok ==> {
            let w = v.after_stake(id, user, choice, amount, now);
            &&& w.markets.len() == v.markets.len()
            &&& forall|i: int|
                0 <= i < v.markets.len() ==> (#[trigger] w.markets[i]).status == v.markets[i].status
                    && w.markets[i].winner == v.markets[i].winner
        },
{
    if v.cancel_check(caller, id, now) is Ok {
        assert(v.market_wf(v.markets[id - 1]));
    }
}

/// The stake ledger of `w` extends that of `v`: no record is removed, none
/// changes market or participant, and none that was claimed is unclaimed.
pub open spec fn ledger_extends(v: ContractView, w: ContractView) -> bool {
    &&& w.stakes.len() >= v.stakes.len()
    &&& forall|k: int|
        0 <= k < v.stakes.len() ==> same_position(#[trigger] w.stakes[k], v.stakes[k]) && (
        v.stakes[k].claimed ==> w.stakes[k].claimed)
}

/// Every successful operation extends the stake ledger.
pub proof fn lemma_operations_extend_ledger(
    v: ContractView,
    caller: Account,
    id: u64,
    user: Account,
    choice: bool,
    amount: i128,
    now: u64,
    question: Seq<char>,
    unlock_time: u64,
    category: Category,
)
    requires
        v.wf(),
    ensures
        v.initialize_check() is Ok ==> ledger_extends(v, ContractView { admin: Some(caller), ..v }),
        v.create_check(question, unlock_time, amount, now) is Ok ==> ledger_extends(
            v,
            v.after_create(caller, question, unlock_time, amount, choice, category, now),
        ),
        v.stake_check(id, user, amount, now) is Ok ==> ledger_extends(
            v,
            v.after_stake(id, user, choice, amount, now),
        ),
        v.resolve_check(caller, id, now) is Ok ==> ledger_extends(v, v.after_resolve(id, choice)),
        v.cancel_check(caller, id, now) is Ok ==> ledger_extends(v, v.after_cancel(id)),
        v.claim_check(id, user) is Ok ==> ledger_extends(v, v.after_claim(id, user)),
        v.withdraw_check(caller, amount) is Ok ==> ledger_extends(v, v.after_withdraw(amount)),
{
}

/// Under an extended ledger a recorded position stays recorded, and a
/// claimed stake stays claimed; so a repeated stake keeps failing with
/// `AlreadyStaked`, and a repeated claim on a market that stayed resolved
/// keeps failing with `AlreadyClaimed`, whatever happened in between.
pub proof fn lemma_extended_ledger_keeps_positions(
    v: ContractView,
    w: ContractView,
    id: u64,
    user: Account,
    amount: i128,
    now: u64,
)
    requires
        v.wf(),
        w.wf(),
        ledger_extends(v, w),
        v.has_stake(id, user),
    ensures
        w.has_stake(id, user),
        w.stake_check(id, user, amount, now) == Err::<(), Error>(Error::AlreadyStaked),
        v.stake_of(id, user)->0.claimed ==> w.stake_of(id, user)->0.claimed,
        v.stake_of(id, user)->0.claimed && w.has_market(id) && w.market(id).status
            == PredictionStatus::Resolved ==> w.claim_check(id, user) == Err::<(), Error>(
            Error::AlreadyClaimed,
        ),
{
    let j = v.stake_index(id, user);
    assert(same_position(w.stakes[j], v.stakes[j]));
    lemma_stake_index_unique(w, id, user, j);
}

} // verus!
