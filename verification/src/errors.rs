use vstd::prelude::*;

verus! {

/// Why a pool operation was refused. Every refusal leaves the pool record
/// exactly as it was: an operation either fully applies or has no effect.
#[derive(Clone, Copy, PartialEq, Eq, Structural, Debug)]
pub enum LotteryError {
    /// `start_lottery` was asked to create a pool with a zero prize.
    InvalidAmount,
    /// The pool has already drawn its winner and accepts no further entries.
    NotActive,
    /// The pool is still running, so its prize cannot be claimed yet.
    StillActive,
    /// The participant registry already holds the maximum number of players.
    Full,
    /// The caller is already registered in this pool.
    AlreadyJoined,
    /// No participant has joined, so there is nobody to draw from.
    NoParticipants,
    /// A winner was already selected; the drawing step runs at most once.
    WinnerAlreadyDrawn,
    /// No winner has been selected yet, so there is nothing to claim.
    WinnerNotDrawn,
    /// The claimant is not the recorded winner.
    NotTheWinner,
    /// Only the pool's manager may perform this step.
    Unauthorized,
    /// Adding one more entry fee would overflow the pot counter.
    MathOverflow,
    /// The one-shot oracle request was already issued for this pool.
    RandomnessAlreadyRequested,
    /// Drawing from the oracle requires that a request was issued first.
    RandomnessNotRequested,
    /// The oracle has not yet populated the fulfillment for this pool.
    RandomnessNotFulfilled,
    /// A persisted pool record could not be decoded.
    InternalDecodeError,
}

} // verus!
