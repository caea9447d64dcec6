use vstd::prelude::*;

verus! {

/// Errors that the lottery's instructions report.
#[derive(Clone, Copy, Debug, PartialEq, Eq, Structural)]
pub enum ErrCode {
    RoundEnded,
    InvalidAssociatedTokenAddress,
    InvalidFund,
    InvalidUnlockTime,
    InvalidUnlockAmount,
    InvalidWinner,
    InvalidBuyer,
    AlreadyClaimd,
    InvalidArgus,
    CallerIsNotAdmin,
    InvalidTicketPrice,
    InvalidTicketAmount,
    ClaimableAmountIsZero,
    BuyerListEmpty,
    MaxTicketsPerBuyer,
}

/// Failures while locating the lottery accounts of past rounds.
#[derive(Clone, Copy, Debug, PartialEq, Eq, Structural)]
pub enum ClaimError {
    /// No account passed in has the address derived for a round.
    InvalidAccountData,
    /// No bump seed gives an off-curve address for a round.
    BumpSeedNotFound,
}

} // verus!
