//! Records of the market model, the transfers the engine requests, and its errors.
use vstd::prelude::*;

verus! {

/// Identity of an account, as the host's authorization established it.
#[derive(Clone, Copy, Debug, PartialEq, Eq, Structural, Hash)]
pub struct Account {
    pub id: u64,
}

/// One side of a value transfer.
#[derive(Clone, Copy, Debug, PartialEq, Eq, Structural)]
pub enum Party {
    /// The escrow itself, which holds every pool and the treasury.
    Contract,
    /// The sink for burned value.
    Burn,
    /// An outside account.
    Holder(Account),
}

/// A value transfer that the host must carry out for an operation to take effect.
#[derive(Clone, Copy, Debug, PartialEq, Eq, Structural)]
pub struct Transfer {
    pub from: Party,
    pub to: Party,
    pub amount: i128,
}

/// Lifecycle state of a market.  `Locked` is reserved: no operation enters it.
#[derive(Clone, Copy, Debug, PartialEq, Eq, Structural)]
pub enum PredictionStatus {
    Open,
    Locked,
    Resolved,
    Cancelled,
}

/// Informational classification of a market.
#[derive(Clone, Copy, Debug, PartialEq, Eq, Structural)]
pub enum Category {
    Finance,
    Technology,
    Sports,
    Politics,
    Entertainment,
    Other,
}

/// One betting question and its two pools.
#[derive(Debug)]
pub struct Prediction {
    pub id: u64,
    pub creator: Account,
    pub question: String,
    pub unlock_time: u64,
    pub created_at: u64,
    pub yes_pool: i128,
    pub no_pool: i128,
    pub status: PredictionStatus,
    pub winner: Option<bool>,
    pub category: Category,
    pub total_participants: u32,
}

/// Mathematical value of a [`Prediction`]: the question as its characters.
pub struct PredictionView {
    pub id: u64,
    pub creator: Account,
    pub question: Seq<char>,
    pub unlock_time: u64,
    pub created_at: u64,
    pub yes_pool: i128,
    pub no_pool: i128,
    pub status: PredictionStatus,
    pub winner: Option<bool>,
    pub category: Category,
    pub total_participants: u32,
}

impl View for Prediction {
    type V = PredictionView;

    open spec fn view(&self) -> PredictionView {
        PredictionView {
            id: self.id,
            creator: self.creator,
            question: self.question@,
            unlock_time: self.unlock_time,
            created_at: self.created_at,
            yes_pool: self.yes_pool,
            no_pool: self.no_pool,
            status: self.status,
            winner: self.winner,
            category: self.category,
            total_participants: self.total_participants,
        }
    }
}

impl Clone for Prediction {
    fn clone(&self) -> (r: Self)
        ensures
            r@ == self@,
    {
        Prediction {
            id: self.id,
            creator: self.creator,
            question: self.question.clone(),
            unlock_time: self.unlock_time,
            created_at: self.created_at,
            yes_pool: self.yes_pool,
            no_pool: self.no_pool,
            status: self.status,
            winner: self.winner,
            category: self.category,
            total_participants: self.total_participants,
        }
    }
}

impl PredictionView {
    /// Combined value of both pools.
    pub open spec fn total_pool(self) -> int {
        self.yes_pool + self.no_pool
    }

    /// The pool of the given side.
    pub open spec fn pool_of(self, side: bool) -> int {
        if side {
            self.yes_pool as int
        } else {
            self.no_pool as int
        }
    }
}

/// One participant's position in one market.
#[derive(Clone, Copy, Debug, PartialEq, Eq, Structural)]
pub struct Stake {
    pub user: Account,
    pub prediction_id: u64,
    pub choice: bool,
    pub amount: i128,
    pub claimed: bool,
    pub staked_at: u64,
}

/// Aggregate figures over every market and the treasury.
#[derive(Clone, Copy, Debug, PartialEq, Eq, Structural)]
pub struct Stats {
    pub total_predictions: u64,
    pub active_predictions: u64,
    pub resolved_predictions: u64,
    pub total_volume: i128,
    pub treasury_balance: i128,
    pub total_burned: i128,
}

/// The rule that an operation violated.
#[derive(Clone, Copy, Debug, PartialEq, Eq, Structural)]
pub enum Error {
    /// `initialize` on an engine that already has an administrator.
    AlreadyInitialized,
    /// The question is shorter than 10 or longer than 200 characters.
    InvalidQuestionLength,
    /// The unlock time does not exceed the current time by the minimum window.
    UnlockTimeTooSoon,
    /// A stake below the minimum stake.
    StakeTooSmall,
    /// A negative amount where a transfer amount is expected.
    InvalidAmount,
    /// No market with that identifier.
    NotFound,
    /// The caller is not the administrator.
    Unauthorized,
    /// The participant already holds a stake in that market.
    AlreadyStaked,
    /// The market is not open.
    MarketNotOpen,
    /// The market's unlock time has been reached; it takes no more stakes.
    MarketExpired,
    /// The market's unlock time has not been reached yet.
    TooEarly,
    /// The cancel window has passed, or others have staked.
    CancelWindowClosed,
    /// The market has not been resolved.
    NotResolved,
    /// The participant holds no stake in that market.
    NoStake,
    /// The stake's winnings were already claimed.
    AlreadyClaimed,
    /// The stake is on the losing side.
    NotAWinner,
    /// The winning side's pool is empty.
    InvalidWinningPool,
    /// The withdrawal exceeds the treasury balance.
    InsufficientTreasury,
    /// A balance or a counter would leave the range of its integer type.
    Overflow,
    /// Persisted records that break the engine's invariant.
    InconsistentRecords,
}

/// Coarse classification of errors.
#[derive(Clone, Copy, Debug, PartialEq, Eq, Structural)]
pub enum ErrorKind {
    NotFound,
    Unauthorized,
    InvalidInput,
    InvalidState,
    AlreadyExists,
    AlreadyClaimed,
    NotAWinner,
    TimingViolation,
    InsufficientBalance,
}

impl Error {
    /// The class that each error belongs to.
    pub open spec fn kind_spec(self) -> ErrorKind {
        match self {
            Error::AlreadyInitialized => ErrorKind::InvalidState,
            Error::InvalidQuestionLength => ErrorKind::InvalidInput,
            Error::UnlockTimeTooSoon => ErrorKind::InvalidInput,
            Error::StakeTooSmall => ErrorKind::InvalidInput,
            Error::InvalidAmount => ErrorKind::InvalidInput,
            Error::NotFound => ErrorKind::NotFound,
            Error::Unauthorized => ErrorKind::Unauthorized,
            Error::AlreadyStaked => ErrorKind::AlreadyExists,
            Error::MarketNotOpen => ErrorKind::InvalidState,
            Error::MarketExpired => ErrorKind::TimingViolation,
            Error::TooEarly => ErrorKind::TimingViolation,
            Error::CancelWindowClosed => ErrorKind::TimingViolation,
            Error::NotResolved => ErrorKind::InvalidState,
            Error::NoStake => ErrorKind::NotFound,
            Error::AlreadyClaimed => ErrorKind::AlreadyClaimed,
            Error::NotAWinner => ErrorKind::NotAWinner,
            Error::InvalidWinningPool => ErrorKind::InvalidState,
            Error::InsufficientTreasury => ErrorKind::InsufficientBalance,
            Error::Overflow => ErrorKind::InvalidInput,
            Error::InconsistentRecords => ErrorKind::InvalidState,
        }
    }

    /// The class of this error.
    pub fn kind(&self) -> (r: ErrorKind)
        ensures
            r == self.kind_spec(),
    {
        match self {
            Error::AlreadyInitialized => ErrorKind::InvalidState,
            Error::InvalidQuestionLength => ErrorKind::InvalidInput,
            Error::UnlockTimeTooSoon => ErrorKind::InvalidInput,
            Error::StakeTooSmall => ErrorKind::InvalidInput,
            Error::InvalidAmount => ErrorKind::InvalidInput,
            Error::NotFound => ErrorKind::NotFound,
            Error::Unauthorized => ErrorKind::Unauthorized,
            Error::AlreadyStaked => ErrorKind::AlreadyExists,
            Error::MarketNotOpen => ErrorKind::InvalidState,
            Error::MarketExpired => ErrorKind::TimingViolation,
            Error::TooEarly => ErrorKind::TimingViolation,
            Error::CancelWindowClosed => ErrorKind::TimingViolation,
            Error::NotResolved => ErrorKind::InvalidState,
            Error::NoStake => ErrorKind::NotFound,
            Error::AlreadyClaimed => ErrorKind::AlreadyClaimed,
            Error::NotAWinner => ErrorKind::NotAWinner,
            Error::InvalidWinningPool => ErrorKind::InvalidState,
            Error::InsufficientTreasury => ErrorKind::InsufficientBalance,
            Error::Overflow => ErrorKind::InvalidInput,
            Error::InconsistentRecords => ErrorKind::InvalidState,
        }
    }
}

} // verus!
