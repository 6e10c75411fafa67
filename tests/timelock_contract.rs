use timelock::contract::TimeLockContract;
use timelock::model::MIN_STAKE;
use timelock::types::{Account, Category, Error};

const NOW: u64 = 1000000;

fn admin() -> Account {
    Account { id: 1 }
}

fn creator() -> Account {
    Account { id: 2 }
}

fn setup() -> TimeLockContract {
    let mut c = TimeLockContract::new();
    c.initialize(admin()).unwrap();
    c
}

fn create(c: &mut TimeLockContract, question: &str, unlock_time: u64) -> Result<u64, Error> {
    c.create_prediction(creator(), question, unlock_time, MIN_STAKE, true, Category::Finance, NOW)
        .map(|(id, _)| id)
}

#[test]
fn test_test_initialize() {
    let mut c = TimeLockContract::new();
    c.initialize(admin()).unwrap();

    assert_eq!(c.get_prediction_count(), 0);
    assert_eq!(c.get_treasury(), 0);
}

#[test]
fn test_double_initialize() {
    let mut c = TimeLockContract::new();
    c.initialize(admin()).unwrap();
    assert_eq!(c.initialize(admin()), Err(Error::AlreadyInitialized));
}

#[test]
fn test_test_create_prediction() {
    let mut c = setup();
    let question = "Will Bitcoin hit $100k by 2025?";
    let unlock_time = 1000000 + 7200;

    let prediction_id = create(&mut c, question, unlock_time).unwrap();

    assert_eq!(prediction_id, 1);
    assert_eq!(c.get_prediction_count(), 1);

    let prediction = c.get_prediction(prediction_id).unwrap();
    assert_eq!(prediction.id, 1);
    assert_eq!(prediction.question, question);
    assert_eq!(prediction.yes_pool, MIN_STAKE);
    assert_eq!(prediction.no_pool, 0);
}

#[test]
fn test_create_prediction_invalid_time() {
    let mut c = setup();
    let unlock_time = 1000000 + 1800;
    assert_eq!(create(&mut c, "Will Bitcoin hit $100k?", unlock_time), Err(Error::UnlockTimeTooSoon));
    assert_eq!(c.get_prediction_count(), 0);
}

#[test]
fn test_create_prediction_short_question() {
    let mut c = setup();
    let unlock_time = 1000000 + 7200;
    assert_eq!(create(&mut c, "Too short", unlock_time), Err(Error::InvalidQuestionLength));
    assert_eq!(c.get_prediction_count(), 0);
}

#[test]
fn test_stake() {
    let mut c = setup();
    let user = Account { id: 3 };
    let prediction_id = create(&mut c, "Will Bitcoin hit $100k by 2025?", 1000000 + 7200).unwrap();

    c.stake(prediction_id, user, false, 200_0000000, NOW).unwrap();

    let prediction = c.get_prediction(prediction_id).unwrap();
    assert_eq!(prediction.yes_pool, MIN_STAKE);
    assert_eq!(prediction.no_pool, 200_0000000);

    let user_stake = c.get_stake(prediction_id, user).unwrap();
    assert_eq!(user_stake.choice, false);
    assert_eq!(user_stake.amount, 200_0000000);
}

#[test]
fn test_double_stake() {
    let mut c = setup();
    let user = Account { id: 3 };
    let prediction_id = create(&mut c, "Will Bitcoin hit $100k?", 1000000 + 7200).unwrap();

    c.stake(prediction_id, user, false, 200_0000000, NOW).unwrap();
    assert_eq!(
        c.stake(prediction_id, user, true, 100_0000000, NOW),
        Err(Error::AlreadyStaked)
    );
}

#[test]
fn test_test_resolve_and_claim() {
    let mut c = setup();
    let user1 = Account { id: 3 };
    let user2 = Account { id: 4 };
    let unlock_time = 1000000 + 7200;
    let prediction_id = create(&mut c, "Will Bitcoin hit $100k?", unlock_time).unwrap();

    c.stake(prediction_id, user1, true, 200_0000000, NOW).unwrap();
    c.stake(prediction_id, user2, false, 300_0000000, NOW).unwrap();

    let later = unlock_time + 100;
    c.resolve(admin(), prediction_id, true, later).unwrap();

    let prediction = c.get_prediction(prediction_id).unwrap();
    assert_eq!(prediction.winner, Some(true));

    let creator_payout = c.claim(prediction_id, creator()).unwrap();
    let user1_payout = c.claim(prediction_id, user1).unwrap();

    assert!(creator_payout > 0);
    assert!(user1_payout > 0);
    // YES pool 300, total 600, prize pool after the 5% fee 570.
    assert_eq!(creator_payout, 190_0000000);
    assert_eq!(user1_payout, 380_0000000);
}

#[test]
fn test_resolve_too_early() {
    let mut c = setup();
    let prediction_id = create(&mut c, "Will Bitcoin hit $100k?", 1000000 + 7200).unwrap();
    assert_eq!(c.resolve(admin(), prediction_id, true, NOW), Err(Error::TooEarly));
}

#[test]
fn test_claim_loser() {
    let mut c = setup();
    let loser = Account { id: 3 };
    let unlock_time = 1000000 + 7200;
    let prediction_id = create(&mut c, "Will Bitcoin hit $100k?", unlock_time).unwrap();

    c.stake(prediction_id, loser, false, 200_0000000, NOW).unwrap();
    c.resolve(admin(), prediction_id, true, unlock_time + 100).unwrap();

    assert_eq!(c.claim(prediction_id, loser), Err(Error::NotAWinner));
}
