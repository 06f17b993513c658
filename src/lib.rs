//! Leaderboard payouts: a bounded ranked score board that is settled once per
//! period, paying the top-ranked participants a halving share of a fixed pool.

pub mod board;
pub mod error;
pub mod leaderboard;
pub mod payout;
pub mod pubkey;

pub use board::{ScoreBoard, WinnerPolicy};
pub use error::LeaderboardError;
pub use leaderboard::{Leaderboard, Payout, Treasury};
pub use payout::compute_payouts;
pub use pubkey::{Participant, Pubkey};
