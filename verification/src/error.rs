use vstd::prelude::*;

verus! {

/// Reasons for which a contract call is reverted.
#[derive(Clone, Copy, Debug, PartialEq, Eq, Structural)]
pub enum Error {
    ValueNotAvailable,
    MappingIndexDoesNotExist,
    VotingDoesNotExist,
    VotingAlreadyCanceled,
    VoteOnCompletedVotingNotAllowed,
    VotingDuringTimeBetweenVotingsNotAllowed,
    CannotVoteTwice,
    VotingWithGivenTypeNotInProgress,
    VoterDoesNotExist,
    BallotDoesNotExist,
    VMInternalError,
    InvalidSlashRatio,
    NotEnoughReputation,
    InvalidAddress,
    InvalidContext,
    FinishingCompletedVotingNotAllowed,
    FormalVotingTimeNotReached,
    InformalVotingTimeNotReached,
    ArithmeticOverflow,
    VotingIdInUse,
}

} // verus!
