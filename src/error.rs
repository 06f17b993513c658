use vstd::prelude::*;

verus! {

/// Every way in which an operation on a leaderboard can be refused.
///
/// A refused operation leaves the leaderboard and the treasury as they were.
#[derive(Clone, Copy, Debug, PartialEq, Eq, Structural)]
pub enum LeaderboardError {
    /// The period length is not positive.
    InvalidPeriodLength,
    /// The number of paid places is outside `1..=10`.
    InvalidTopSpots,
    /// `initialize` was called on a leaderboard that is already set up.
    AlreadyInitialized,
    /// Settlement was asked for before the current period has elapsed.
    PeriodNotEnded,
    /// A score batch is longer than the board.
    TooManyEntries,
    /// The board holds fewer ranked participants than places to pay.
    InsufficientEntries,
    /// The claimed winners differ from the computed ranking.
    WinningIdentityMismatch,
    /// The payout pool is negative.
    InvalidPool,
    /// A balance cannot cover a transfer, or would overflow on receiving it.
    TransferFailed,
}

impl LeaderboardError {
    /// A short human-readable description of the error.
    pub fn message(&self) -> (r: &'static str) {
        match self {
            LeaderboardError::InvalidPeriodLength => "Invalid period length",
            LeaderboardError::InvalidTopSpots => "Invalid number of top spots",
            LeaderboardError::AlreadyInitialized => "Account is already initialized",
            LeaderboardError::PeriodNotEnded => "Period has not ended yet",
            LeaderboardError::TooManyEntries => "Too many participants passed in",
            LeaderboardError::InsufficientEntries => "Not enough ranked participants",
            LeaderboardError::WinningIdentityMismatch => "Winning pubkey mismatch",
            LeaderboardError::InvalidPool => "Invalid payout pool",
            LeaderboardError::TransferFailed => "Transfer failed",
        }
    }
}

} // verus!
