use timelock::contract::{EngineParts, TimeLockContract};
use timelock::model::MIN_STAKE;
use timelock::treasury::Treasury;
use timelock::types::{Account, Category, Error, ErrorKind, Prediction, PredictionStatus, Stake};

const NOW: u64 = 100;
const UNLOCK: u64 = NOW + 7200;

fn admin() -> Account {
    Account { id: 1 }
}

fn user(n: u64) -> Account {
    Account { id: 10 + n }
}

fn populated() -> TimeLockContract {
    let mut c = TimeLockContract::new();
    c.initialize(admin()).unwrap();
    let (a, _) = c
        .create_prediction(user(0), "Will the ferry run on Sunday?", UNLOCK, MIN_STAKE, true, Category::Other, NOW)
        .unwrap();
    let (b, _) = c
        .create_prediction(user(1), "Will the library open late?", UNLOCK, 150_0000000, false, Category::Politics, NOW)
        .unwrap();
    c.stake(a, user(2), false, 250_0000000, NOW).unwrap();
    c.stake(b, user(2), true, 110_0000000, NOW).unwrap();
    c.resolve(admin(), a, false, UNLOCK).unwrap();
    c.claim(a, user(2)).unwrap();
    c
}

fn parts() -> EngineParts {
    populated().into_parts()
}

fn market(id: u64, creator: Account, yes: i128, no: i128, participants: u32) -> Prediction {
    Prediction {
        id,
        creator,
        question: "Is this question long enough?".to_string(),
        unlock_time: UNLOCK,
        created_at: NOW,
        yes_pool: yes,
        no_pool: no,
        status: PredictionStatus::Open,
        winner: None,
        category: Category::Finance,
        total_participants: participants,
    }
}

fn stake(id: u64, user: Account, choice: bool, amount: i128) -> Stake {
    Stake { user, prediction_id: id, choice, amount, claimed: false, staked_at: NOW }
}

#[test]
fn round_trip_keeps_state() {
    let engine = populated();
    let stats = engine.get_stats();
    let restored = TimeLockContract::from_parts(engine.into_parts()).unwrap();
    assert_eq!(restored.get_stats(), stats);
    assert_eq!(restored.get_admin(), Some(admin()));
    assert!(restored.get_stake(1, user(2)).unwrap().claimed);
    assert_eq!(restored.get_prediction(2).unwrap().no_pool, 150_0000000);
}

#[test]
fn restored_engine_keeps_working() {
    let mut c = TimeLockContract::from_parts(parts()).unwrap();
    assert_eq!(c.claim(1, user(2)), Err(Error::AlreadyClaimed));
    assert_eq!(c.stake(2, user(2), true, MIN_STAKE, NOW), Err(Error::AlreadyStaked));
    let (id, _) = c
        .create_prediction(user(3), "Will the market hall reopen?", UNLOCK, MIN_STAKE, true, Category::Other, NOW)
        .unwrap();
    assert_eq!(id, 3);
}

#[test]
fn hand_built_records_are_accepted() {
    let p = EngineParts {
        admin: None,
        min_lock_window: 60,
        markets: vec![market(1, user(0), 300, 200, 3)],
        stakes: vec![stake(1, user(0), true, MIN_STAKE), stake(1, user(1), false, 200), stake(1, user(2), true, 300 - MIN_STAKE)],
        treasury: Treasury { balance: 0, burned: 0 },
    };
    // Stakes below the minimum are refused.
    assert_eq!(TimeLockContract::from_parts(p).err(), Some(Error::InconsistentRecords));

    let big = MIN_STAKE;
    let p = EngineParts {
        admin: Some(admin()),
        min_lock_window: 60,
        markets: vec![market(1, user(0), 2 * big, big, 3)],
        stakes: vec![stake(1, user(0), true, big), stake(1, user(1), false, big), stake(1, user(2), true, big)],
        treasury: Treasury { balance: 7, burned: 3 },
    };
    let c = TimeLockContract::from_parts(p).unwrap();
    assert_eq!(c.get_treasury(), 7);
    assert_eq!(c.get_total_burned(), 3);
    assert_eq!(c.get_stats().total_volume, 3 * big);
}

fn refused(p: EngineParts) {
    let e = TimeLockContract::from_parts(p).err().unwrap();
    assert_eq!(e, Error::InconsistentRecords);
    assert_eq!(e.kind(), ErrorKind::InvalidState);
}

#[test]
fn inconsistent_pools_are_refused() {
    let mut p = parts();
    p.markets[1].yes_pool += 1;
    refused(p);
}

#[test]
fn wrong_identifier_is_refused() {
    let mut p = parts();
    p.markets[1].id = 5;
    refused(p);
}

#[test]
fn duplicate_position_is_refused() {
    let mut p = parts();
    let copy = p.stakes[0];
    p.stakes.push(copy);
    p.markets[0].yes_pool += copy.amount;
    p.markets[0].total_participants += 1;
    refused(p);
}

#[test]
fn wrong_participant_count_is_refused() {
    let mut p = parts();
    p.markets[0].total_participants = 3;
    refused(p);
}

#[test]
fn missing_creator_stake_is_refused() {
    let big = MIN_STAKE;
    refused(EngineParts {
        admin: None,
        min_lock_window: 60,
        markets: vec![market(1, user(0), big, 0, 1)],
        stakes: vec![stake(1, user(1), true, big)],
        treasury: Treasury { balance: 0, burned: 0 },
    });
}

#[test]
fn stake_of_unknown_market_is_refused() {
    let mut p = parts();
    p.stakes[0].prediction_id = 9;
    refused(p);
}

#[test]
fn winner_without_resolution_is_refused() {
    let mut p = parts();
    p.markets[1].winner = Some(true);
    refused(p);
}

#[test]
fn negative_treasury_is_refused() {
    let mut p = parts();
    p.treasury.balance = -1;
    refused(p);
}

#[test]
fn volume_overflow_is_refused() {
    let huge = i128::MAX / 2 + 1;
    refused(EngineParts {
        admin: None,
        min_lock_window: 60,
        markets: vec![market(1, user(0), huge, 0, 1), market(2, user(0), huge, 0, 1)],
        stakes: vec![stake(1, user(0), true, huge), stake(2, user(0), true, huge)],
        treasury: Treasury { balance: 0, burned: 0 },
    });
}
