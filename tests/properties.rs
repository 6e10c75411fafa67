use timelock::contract::TimeLockContract;
use timelock::fees::{percent_of, proportional_payout, split_creation_fee, split_resolution_pool};
use timelock::model::{CREATION_FEE, MIN_STAKE};
use timelock::types::{Account, Category, Error, ErrorKind, Party, PredictionStatus, Transfer};

const NOW: u64 = 100000;
const UNLOCK: u64 = NOW + 7200;
const QUESTION: &str = "Will the bridge open in spring?";

fn admin() -> Account {
    Account { id: 1 }
}

fn user(n: u64) -> Account {
    Account { id: 100 + n }
}

fn engine() -> TimeLockContract {
    let mut c = TimeLockContract::new();
    c.initialize(admin()).unwrap();
    c
}

fn open_market(c: &mut TimeLockContract, creator: Account, stake: i128, side: bool) -> u64 {
    c.create_prediction(creator, QUESTION, UNLOCK, stake, side, Category::Technology, NOW)
        .unwrap()
        .0
}

#[test]
fn pools_match_stakes() {
    let mut c = engine();
    let id = open_market(&mut c, user(0), 150_0000000, true);
    c.stake(id, user(1), true, 120_0000000, NOW).unwrap();
    c.stake(id, user(2), false, 300_0000000, NOW).unwrap();
    c.stake(id, user(3), false, 101_0000000, NOW).unwrap();
    let other = open_market(&mut c, user(4), 100_0000000, false);
    c.stake(other, user(1), true, 500_0000000, NOW).unwrap();

    let mut yes = 0;
    let mut no = 0;
    for n in 0..5 {
        if let Some(s) = c.get_stake(id, user(n)) {
            if s.choice {
                yes += s.amount;
            } else {
                no += s.amount;
            }
        }
    }
    let m = c.get_prediction(id).unwrap();
    assert_eq!(m.yes_pool, yes);
    assert_eq!(m.no_pool, no);
    assert_eq!(m.yes_pool, 270_0000000);
    assert_eq!(m.no_pool, 401_0000000);
    assert_eq!(m.total_participants, 4);
}

#[test]
fn payouts_never_exceed_prize_pool() {
    let mut c = engine();
    let id = open_market(&mut c, user(0), 100_0000001, true);
    c.stake(id, user(1), true, 100_0000001, NOW).unwrap();
    c.stake(id, user(2), true, 100_0000001, NOW).unwrap();
    c.stake(id, user(3), false, 100_0000000, NOW).unwrap();
    c.resolve(admin(), id, true, UNLOCK).unwrap();

    let m = c.get_prediction(id).unwrap();
    let (prize_pool, _) = split_resolution_pool(m.yes_pool + m.no_pool);
    assert_eq!(c.get_payout_remainder(id), Ok(2));
    let mut paid = 0;
    for n in 0..3 {
        paid += c.claim(id, user(n)).unwrap();
    }
    assert!(paid <= prize_pool);
    assert_eq!(prize_pool, 380_0000003);
    assert_eq!(paid, 380_0000001);
    assert_eq!(c.get_payout_remainder(id), Ok(prize_pool - paid));
}

#[test]
fn payout_remainder_queries() {
    let mut c = engine();
    let id = open_market(&mut c, user(0), MIN_STAKE, true);
    assert_eq!(c.get_payout_remainder(id), Err(Error::NotResolved));
    assert_eq!(c.get_payout_remainder(id + 1), Err(Error::NotFound));
    // Nobody backed the winning side: the whole prize pool stays behind.
    c.resolve(admin(), id, false, UNLOCK).unwrap();
    assert_eq!(c.get_payout_remainder(id), Ok(95_0000000));

    let exact = open_market(&mut c, user(1), 200_0000000, true);
    c.stake(exact, user(2), true, 200_0000000, NOW).unwrap();
    c.resolve(admin(), exact, true, UNLOCK).unwrap();
    assert_eq!(c.get_payout_remainder(exact), Ok(0));
}

#[test]
fn claim_succeeds_once() {
    let mut c = engine();
    let id = open_market(&mut c, user(0), MIN_STAKE, true);
    c.resolve(admin(), id, true, UNLOCK).unwrap();
    assert_eq!(c.claim(id, user(0)), Ok(95_0000000));
    let again = c.claim(id, user(0));
    assert_eq!(again, Err(Error::AlreadyClaimed));
    assert_eq!(again.unwrap_err().kind(), ErrorKind::AlreadyClaimed);
}

#[test]
fn identifiers_are_sequential_and_never_reused() {
    let mut c = engine();
    assert_eq!(open_market(&mut c, user(0), MIN_STAKE, true), 1);
    assert_eq!(open_market(&mut c, user(1), MIN_STAKE, false), 2);
    assert_eq!(open_market(&mut c, user(2), MIN_STAKE, true), 3);
    c.cancel_prediction(admin(), 3, NOW + 1).unwrap();
    assert_eq!(open_market(&mut c, user(3), MIN_STAKE, true), 4);
    assert_eq!(c.get_prediction_count(), 4);
    assert_eq!(c.get_prediction(3).unwrap().status, PredictionStatus::Cancelled);
    assert_eq!(c.get_prediction(4).unwrap().id, 4);
}

#[test]
fn timing_gates() {
    let mut c = engine();
    let id = open_market(&mut c, user(0), MIN_STAKE, true);
    assert_eq!(c.stake(id, user(1), true, MIN_STAKE, UNLOCK), Err(Error::MarketExpired));
    assert_eq!(c.resolve(admin(), id, true, UNLOCK - 1), Err(Error::TooEarly));
    assert_eq!(c.stake(id, user(1), true, MIN_STAKE, UNLOCK - 1), Ok(Transfer {
        from: Party::Holder(user(1)),
        to: Party::Contract,
        amount: MIN_STAKE,
    }));
    assert_eq!(c.resolve(admin(), id, false, UNLOCK), Ok(()));
}

#[test]
fn creation_transfers_and_fee_split() {
    let mut c = engine();
    let (id, transfers) = c
        .create_prediction(user(0), QUESTION, UNLOCK, 120_0000000, false, Category::Sports, NOW)
        .unwrap();
    assert_eq!(id, 1);
    assert_eq!(
        transfers,
        vec![
            Transfer { from: Party::Holder(user(0)), to: Party::Contract, amount: CREATION_FEE + 120_0000000 },
            Transfer { from: Party::Contract, to: Party::Burn, amount: 15_0000000 },
        ]
    );
    assert_eq!(c.get_treasury(), 35_0000000);
    assert_eq!(c.get_total_burned(), 15_0000000);
    let m = c.get_prediction(id).unwrap();
    assert_eq!(m.yes_pool, 0);
    assert_eq!(m.no_pool, 120_0000000);
    assert_eq!(m.category, Category::Sports);
}

#[test]
fn question_length_bounds() {
    let mut c = engine();
    let ten = "abcdefghij";
    let two_hundred = "x".repeat(200);
    let too_long = "x".repeat(201);
    let nine = "abcdefghi";
    let create = |c: &mut TimeLockContract, q: &str| {
        c.create_prediction(user(0), q, UNLOCK, MIN_STAKE, true, Category::Other, NOW)
    };
    assert!(create(&mut c, ten).is_ok());
    assert!(create(&mut c, &two_hundred).is_ok());
    assert_eq!(create(&mut c, &too_long).unwrap_err(), Error::InvalidQuestionLength);
    assert_eq!(create(&mut c, nine).unwrap_err(), Error::InvalidQuestionLength);
    assert_eq!(Error::InvalidQuestionLength.kind(), ErrorKind::InvalidInput);
    // Characters, not bytes, are counted.
    assert!(create(&mut c, "ééééééééé").is_err());
    assert!(create(&mut c, "éééééééééé").is_ok());
}

#[test]
fn unlock_time_must_exceed_window() {
    let mut c = engine();
    let at_window = c.create_prediction(user(0), QUESTION, NOW + 3600, MIN_STAKE, true, Category::Other, NOW);
    assert_eq!(at_window.unwrap_err(), Error::UnlockTimeTooSoon);
    let past_window = c.create_prediction(user(0), QUESTION, NOW + 3601, MIN_STAKE, true, Category::Other, NOW);
    assert_eq!(past_window.unwrap().0, 1);
    let near_end = c.create_prediction(user(0), QUESTION, u64::MAX, MIN_STAKE, true, Category::Other, u64::MAX - 10);
    assert_eq!(near_end.unwrap_err(), Error::UnlockTimeTooSoon);
}

#[test]
fn stake_below_minimum() {
    let mut c = engine();
    assert_eq!(
        c.create_prediction(user(0), QUESTION, UNLOCK, MIN_STAKE - 1, true, Category::Other, NOW).unwrap_err(),
        Error::StakeTooSmall
    );
    let id = open_market(&mut c, user(0), MIN_STAKE, true);
    assert_eq!(c.stake(id, user(1), true, MIN_STAKE - 1, NOW), Err(Error::StakeTooSmall));
    assert_eq!(c.get_stake(id, user(1)), None);
}

#[test]
fn unknown_market() {
    let mut c = engine();
    open_market(&mut c, user(0), MIN_STAKE, true);
    assert_eq!(c.get_prediction(0).unwrap_err(), Error::NotFound);
    assert_eq!(c.get_prediction(2).unwrap_err(), Error::NotFound);
    assert_eq!(c.stake(2, user(1), true, MIN_STAKE, NOW), Err(Error::NotFound));
    assert_eq!(c.resolve(admin(), 2, true, UNLOCK), Err(Error::NotFound));
    assert_eq!(c.cancel_prediction(admin(), 2, NOW), Err(Error::NotFound));
    assert_eq!(c.claim(2, user(0)), Err(Error::NotFound));
    assert_eq!(Error::NotFound.kind(), ErrorKind::NotFound);
}

#[test]
fn only_admin_resolves_cancels_and_withdraws() {
    let mut c = engine();
    let id = open_market(&mut c, user(0), MIN_STAKE, true);
    assert_eq!(c.resolve(user(0), id, true, UNLOCK), Err(Error::Unauthorized));
    assert_eq!(c.cancel_prediction(user(0), id, NOW), Err(Error::Unauthorized));
    assert_eq!(c.withdraw_treasury(user(0), 1), Err(Error::Unauthorized));
    assert_eq!(Error::Unauthorized.kind(), ErrorKind::Unauthorized);

    let mut bare = TimeLockContract::new();
    let id = open_market(&mut bare, user(0), MIN_STAKE, true);
    assert_eq!(bare.resolve(admin(), id, true, UNLOCK), Err(Error::Unauthorized));
    assert_eq!(bare.get_admin(), None);
}

#[test]
fn cancel_window_and_other_stakers() {
    let mut c = engine();
    let late = open_market(&mut c, user(0), MIN_STAKE, true);
    assert_eq!(c.cancel_prediction(admin(), late, NOW + 3601), Err(Error::CancelWindowClosed));
    assert_eq!(c.cancel_prediction(admin(), late, NOW + 3600).map(|t| t.amount), Ok(CREATION_FEE + MIN_STAKE));

    let shared = open_market(&mut c, user(0), MIN_STAKE, true);
    c.stake(shared, user(1), false, MIN_STAKE, NOW).unwrap();
    assert_eq!(c.cancel_prediction(admin(), shared, NOW + 1), Err(Error::CancelWindowClosed));
    assert_eq!(Error::CancelWindowClosed.kind(), ErrorKind::TimingViolation);

    c.resolve(admin(), shared, true, UNLOCK).unwrap();
    assert_eq!(c.cancel_prediction(admin(), shared, NOW + 1), Err(Error::MarketNotOpen));
    assert_eq!(c.resolve(admin(), shared, true, UNLOCK), Err(Error::MarketNotOpen));
}

#[test]
fn claim_errors() {
    let mut c = engine();
    let id = open_market(&mut c, user(0), MIN_STAKE, true);
    assert_eq!(c.claim(id, user(0)), Err(Error::NotResolved));
    c.resolve(admin(), id, false, UNLOCK).unwrap();
    assert_eq!(c.claim(id, user(9)), Err(Error::NoStake));
    assert_eq!(c.claim(id, user(0)), Err(Error::NotAWinner));
    assert_eq!(Error::NoStake.kind(), ErrorKind::NotFound);
    assert_eq!(Error::NotResolved.kind(), ErrorKind::InvalidState);
    assert_eq!(Error::InvalidWinningPool.kind(), ErrorKind::InvalidState);
}

#[test]
fn treasury_withdrawal() {
    let mut c = engine();
    let id = open_market(&mut c, user(0), 200_0000000, true);
    c.resolve(admin(), id, true, UNLOCK).unwrap();
    assert_eq!(c.get_treasury(), 35_0000000 + 10_0000000);
    assert_eq!(c.withdraw_treasury(admin(), 45_0000001), Err(Error::InsufficientTreasury));
    assert_eq!(Error::InsufficientTreasury.kind(), ErrorKind::InsufficientBalance);
    assert_eq!(c.withdraw_treasury(admin(), -1), Err(Error::InvalidAmount));
    assert_eq!(
        c.withdraw_treasury(admin(), 20_0000000),
        Ok(Transfer { from: Party::Contract, to: Party::Holder(admin()), amount: 20_0000000 })
    );
    assert_eq!(c.get_treasury(), 25_0000000);
    assert_eq!(c.get_total_burned(), 15_0000000);
}

#[test]
fn overflow_is_refused() {
    let mut c = engine();
    assert_eq!(
        c.create_prediction(user(0), QUESTION, UNLOCK, i128::MAX - 10, true, Category::Other, NOW).unwrap_err(),
        Error::Overflow
    );
    let id = open_market(&mut c, user(0), MIN_STAKE, true);
    assert_eq!(c.stake(id, user(1), true, i128::MAX, NOW), Err(Error::Overflow));
    assert_eq!(c.get_prediction(id).unwrap().yes_pool, MIN_STAKE);
}

#[test]
fn stats_cover_all_markets() {
    let mut c = engine();
    let a = open_market(&mut c, user(0), MIN_STAKE, true);
    let b = open_market(&mut c, user(1), 200_0000000, false);
    let d = open_market(&mut c, user(2), MIN_STAKE, true);
    c.stake(a, user(3), false, 300_0000000, NOW).unwrap();
    c.resolve(admin(), b, false, UNLOCK).unwrap();
    c.cancel_prediction(admin(), d, NOW).unwrap();
    let s = c.get_stats();
    assert_eq!(s.total_predictions, 3);
    assert_eq!(s.active_predictions, 1);
    assert_eq!(s.resolved_predictions, 1);
    assert_eq!(s.total_volume, 700_0000000);
    assert_eq!(s.treasury_balance, 3 * 35_0000000 + 10_0000000);
    assert_eq!(s.total_burned, 3 * 15_0000000);
}

#[test]
fn fee_arithmetic() {
    assert_eq!(percent_of(300, 5), 15);
    assert_eq!(percent_of(i128::MAX, 100), i128::MAX);
    assert_eq!(percent_of(i128::MAX, 5), i128::MAX / 20);
    assert_eq!(split_creation_fee(CREATION_FEE), (35_0000000, 15_0000000));
    // The rounding remainder goes to the burned part.
    assert_eq!(split_creation_fee(99), (69, 30));
    assert_eq!(split_resolution_pool(300), (285, 15));
    assert_eq!(split_resolution_pool(19), (19, 0));
    assert_eq!(split_resolution_pool(21), (20, 1));
    assert_eq!(proportional_payout(100, 285, 100), Some(285));
    assert_eq!(proportional_payout(1, 10, 3), Some(3));
    assert_eq!(proportional_payout(i128::MAX, 2, 5), None);
}
