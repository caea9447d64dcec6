//! Verified core of a ticket lottery: application settings, round creation,
//! ticket sales with hash-drawn ticket numbers, winner selection and the
//! lookup of past rounds when a prize is claimed.
pub mod claim;
pub mod error;
pub mod lottery;
pub mod pubkey;
pub mod randomness_tools;
pub mod state;

pub use claim::{claim_prize, locate_lottery_account, ClaimStep};
pub use error::{ClaimError, ErrCode};
pub use lottery::{
    assign_ticket, buy_tickets, buy_tickets_payment, create_app_stats, create_lottery,
    reveal_winners, tickets_held, update_app_stats,
};
pub use pubkey::Pubkey;
pub use randomness_tools::{get_sha256_hashed_random, random_from_digest, HashStruct};
pub use state::{AppStats, Buyer, Lottery, LotteryStatus, Winner};
