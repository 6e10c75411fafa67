use timelock::contract::TimeLockContract;
use timelock::model::{CREATION_FEE, MIN_STAKE};
use timelock::types::{Account, Category, ErrorKind, Error, Party, PredictionStatus, Transfer};

const NOW: u64 = 5000;
const UNLOCK: u64 = NOW + 7200;
// Thirty-two characters.
const QUESTION: &str = "Will it rain in Paris next June?";

fn admin() -> Account {
    Account { id: 1 }
}

fn creator() -> Account {
    Account { id: 2 }
}

fn bettor() -> Account {
    Account { id: 3 }
}

fn fresh_market() -> (TimeLockContract, u64) {
    let mut c = TimeLockContract::new();
    c.initialize(admin()).unwrap();
    let (id, _) = c
        .create_prediction(creator(), QUESTION, UNLOCK, 100_0000000, true, Category::Other, NOW)
        .unwrap();
    (c, id)
}

fn contested_market() -> (TimeLockContract, u64) {
    let (mut c, id) = fresh_market();
    c.stake(id, bettor(), false, 200_0000000, NOW + 10).unwrap();
    (c, id)
}

#[test]
fn creation_puts_stake_in_chosen_pool() {
    assert_eq!(QUESTION.chars().count(), 32);
    let (c, id) = fresh_market();
    let m = c.get_prediction(id).unwrap();
    assert_eq!(m.yes_pool, 100_0000000);
    assert_eq!(m.no_pool, 0);
    assert_eq!(m.total_participants, 1);
    assert_eq!(m.status, PredictionStatus::Open);
    assert_eq!(m.winner, None);
    assert_eq!(m.created_at, NOW);
}

#[test]
fn second_participant_stakes_once() {
    let (mut c, id) = contested_market();
    let m = c.get_prediction(id).unwrap();
    assert_eq!(m.yes_pool, 100_0000000);
    assert_eq!(m.no_pool, 200_0000000);
    assert_eq!(m.total_participants, 2);
    let again = c.stake(id, bettor(), false, 200_0000000, NOW + 20);
    assert_eq!(again, Err(Error::AlreadyStaked));
    assert_eq!(again.unwrap_err().kind(), ErrorKind::AlreadyExists);
    assert_eq!(c.get_prediction(id).unwrap().no_pool, 200_0000000);
}

#[test]
fn resolution_fee_and_winner_payout() {
    let (mut c, id) = contested_market();
    let treasury_before = c.get_treasury();
    c.resolve(admin(), id, true, UNLOCK + 1).unwrap();
    assert_eq!(c.get_treasury() - treasury_before, 15_0000000);
    let payout = c.claim(id, creator()).unwrap();
    assert_eq!(payout, 285_0000000);
    assert!(c.get_stake(id, creator()).unwrap().claimed);
}

#[test]
fn early_resolution_changes_nothing() {
    let (mut c, id) = contested_market();
    let treasury_before = c.get_treasury();
    let r = c.resolve(admin(), id, true, UNLOCK - 1);
    assert_eq!(r, Err(Error::TooEarly));
    assert_eq!(r.unwrap_err().kind(), ErrorKind::TimingViolation);
    let m = c.get_prediction(id).unwrap();
    assert_eq!(m.status, PredictionStatus::Open);
    assert_eq!(m.winner, None);
    assert_eq!(c.get_treasury(), treasury_before);
}

#[test]
fn losing_side_cannot_claim() {
    let (mut c, id) = contested_market();
    c.resolve(admin(), id, true, UNLOCK).unwrap();
    let r = c.claim(id, bettor());
    assert_eq!(r, Err(Error::NotAWinner));
    assert_eq!(r.unwrap_err().kind(), ErrorKind::NotAWinner);
    assert!(!c.get_stake(id, bettor()).unwrap().claimed);
}

#[test]
fn cancel_within_window_refunds_creator() {
    let (mut c, id) = fresh_market();
    let refund = c.cancel_prediction(admin(), id, NOW + 60).unwrap();
    assert_eq!(
        refund,
        Transfer {
            from: Party::Contract,
            to: Party::Holder(creator()),
            amount: CREATION_FEE + 100_0000000,
        }
    );
    assert_eq!(c.get_prediction(id).unwrap().status, PredictionStatus::Cancelled);

    let second = c.cancel_prediction(admin(), id, NOW + 60);
    assert_eq!(second, Err(Error::MarketNotOpen));
    assert_eq!(second.unwrap_err().kind(), ErrorKind::InvalidState);

    let late = c.stake(id, bettor(), true, MIN_STAKE, NOW + 70);
    assert_eq!(late, Err(Error::MarketNotOpen));
    assert_eq!(late.unwrap_err().kind(), ErrorKind::InvalidState);
}
