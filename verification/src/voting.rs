use vstd::prelude::*;
use crate::address::Address;
use crate::error::Error;
use crate::keys::StorageKey;
use crate::numeric::{u512_modulus, Uint512};
use crate::repo_voter::UpdateAtCall;
use crate::slashing::SlashCall;

verus! {

/// Identifier of a voting.
pub type VotingId = u32;

/// A point in time: milliseconds of the block clock.
pub type BlockTime = u64;

/// A voter's choice.
#[derive(Clone, Copy, Debug, PartialEq, Eq, Structural)]
pub enum Choice {
    InFavor,
    Against,
}

impl Choice {
    pub fn is_in_favor(&self) -> (r: bool)
        ensures
            r == (*self == Choice::InFavor),
    {
        match self {
            Choice::InFavor => true,
            Choice::Against => false,
        }
    }

    pub fn is_against(&self) -> (r: bool)
        ensures
            r == (*self == Choice::Against),
    {
        match self {
            Choice::InFavor => false,
            Choice::Against => true,
        }
    }
}

/// Result of a Voting
#[derive(Clone, Copy, Debug, PartialEq, Eq, Structural)]
pub enum VotingResult {
    InFavor,
    Against,
    QuorumNotReached,
    Canceled,
}

/// Type of Voting (Formal or Informal)
#[derive(Clone, Copy, Debug, PartialEq, Eq, Structural)]
pub enum VotingType {
    Informal,
    Formal,
}

impl StorageKey for VotingType {
    fn key_eq(&self, other: &Self) -> (same: bool) {
        *self == *other
    }
}

/// State of Voting
#[derive(Clone, Copy, Debug, PartialEq, Eq, Structural)]
pub enum VotingState {
    Informal,
    BetweenVotings,
    Formal,
    Finished,
}

/// Finished Voting summary
#[derive(Clone, Copy, Debug)]
pub struct VotingSummary {
    pub result: VotingResult,
    pub ty: VotingType,
    pub informal_voting_id: VotingId,
    pub formal_voting_id: Option<VotingId>,
}

/// Whether a result rejects the proposal: it is against, or the quorum was not reached.
pub open spec fn result_rejects(result: VotingResult) -> bool {
    result == VotingResult::Against || result == VotingResult::QuorumNotReached
}

impl VotingSummary {
    pub fn new(
        result: VotingResult,
        ty: VotingType,
        informal_voting_id: VotingId,
        formal_voting_id: Option<VotingId>,
    ) -> (summary: Self)
        ensures
            summary.result == result,
            summary.ty == ty,
            summary.informal_voting_id == informal_voting_id,
            summary.formal_voting_id == formal_voting_id,
    {
        VotingSummary { result, ty, informal_voting_id, formal_voting_id }
    }

    /// The process is over after a formal voting, or after an informal voting that
    /// rejected the proposal.
    pub fn is_voting_process_finished(&self) -> (finished: bool)
        ensures
            finished == match self.ty {
                VotingType::Informal => result_rejects(self.result),
                VotingType::Formal => true,
            },
    {
        match self.ty {
            VotingType::Informal => self.is_rejected(),
            VotingType::Formal => true,
        }
    }

    pub fn is_formal(&self) -> (formal: bool)
        ensures
            formal == self.formal_voting_id is Some,
    {
        self.formal_voting_id().is_some()
    }

    pub fn formal_voting_id(&self) -> (id: Option<VotingId>)
        ensures
            id == self.formal_voting_id,
    {
        self.formal_voting_id
    }

    fn is_rejected(&self) -> (rejected: bool)
        ensures
            rejected == result_rejects(self.result),
    {
        self.result == VotingResult::Against || self.result == VotingResult::QuorumNotReached
    }

    pub fn result(&self) -> (result: VotingResult)
        ensures
            result == self.result,
    {
        self.result
    }

    /// Get a reference to the voting summary's ty.
    pub fn voting_type(&self) -> (ty: &VotingType)
        ensures
            *ty == self.ty,
    {
        &self.ty
    }
}

/// A contract call that a voting makes when its formal voting passes.
#[derive(Debug, PartialEq, Eq)]
pub enum VotingCall {
    /// Sets a variable of a variable repository.
    UpdateAt(UpdateAtCall),
    /// Burns reputation of a slashed address.
    Slash(SlashCall),
}

/// The voting parameters that a voting copies when it is created, so that they do not
/// change while it runs.
#[derive(Clone, Copy, Debug, PartialEq, Eq)]
pub struct DaoConfiguration {
    pub informal_stake_reputation: bool,
    pub informal_voting_time: u64,
    pub formal_voting_time: u64,
    pub governance_informal_voting_quorum: u32,
    pub governance_formal_voting_quorum: u32,
    pub time_between_informal_and_formal_voting: u64,
    pub voting_clearness_delta: Uint512,
    pub total_onboarded: Uint512,
    pub double_time_between_votings: bool,
}

/// Voting struct
#[derive(Clone, Copy, Debug)]
pub struct Voting {
    pub voting_id: VotingId,
    pub completed: bool,
    pub stake_in_favor: Uint512,
    pub stake_against: Uint512,
    pub unbounded_stake_in_favor: Uint512,
    pub unbounded_stake_against: Uint512,
    pub start_time: u64,
    pub informal_voting_id: VotingId,
    pub formal_voting_id: Option<VotingId>,
    pub creator: Address,
    pub voting_configuration: DaoConfiguration,
    pub is_canceled: bool,
}

/// `formal` is the formal voting with id `new_id` that follows `informal`: it keeps its
/// start, creator, informal id and cancel flag, is not completed, and copies its
/// configuration, with the pause between the phases doubled where the informal result
/// is close.
pub open spec fn formal_follows(informal: Voting, formal: Voting, new_id: VotingId) -> bool {
    &&& formal.voting_id == new_id
    &&& !formal.completed
    &&& formal.start_time == informal.start_time
    &&& formal.informal_voting_id == informal.informal_voting_id
    &&& formal.formal_voting_id == Some(new_id)
    &&& formal.creator == informal.creator
    &&& formal.is_canceled == informal.is_canceled
    &&& formal.voting_configuration == (DaoConfiguration {
        time_between_informal_and_formal_voting: if informal.spec_is_result_close() {
            (informal.voting_configuration.time_between_informal_and_formal_voting * 2) as u64
        } else {
            informal.voting_configuration.time_between_informal_and_formal_voting
        },
        ..informal.voting_configuration
    })
}

/// The counter of stake that a ballot of the given choice and kind adds to.
pub open spec fn stake_counter(voting: Voting, choice: Choice, unbounded: bool) -> nat {
    match (unbounded, choice) {
        (false, Choice::InFavor) => voting.stake_in_favor@,
        (false, Choice::Against) => voting.stake_against@,
        (true, Choice::InFavor) => voting.unbounded_stake_in_favor@,
        (true, Choice::Against) => voting.unbounded_stake_against@,
    }
}

/// Adding `stake` to the counter of the given choice and kind does not overflow.
pub open spec fn stake_fits(voting: Voting, stake: Uint512, choice: Choice, unbounded: bool) -> bool {
    stake_counter(voting, choice, unbounded) + stake@ < u512_modulus()
}

/// The counter of the given choice and kind holds at least `stake`.
pub open spec fn stake_removable(voting: Voting, stake: Uint512, choice: Choice, unbounded: bool) -> bool {
    stake@ <= stake_counter(voting, choice, unbounded)
}

/// `after` is `before` with `stake` added to the counter of the given choice and kind,
/// and nothing else changed.
pub open spec fn stake_added(
    before: Voting,
    after: Voting,
    stake: Uint512,
    choice: Choice,
    unbounded: bool,
) -> bool {
    &&& stake_counter(after, choice, unbounded) == stake_counter(before, choice, unbounded) + stake@
    &&& match (unbounded, choice) {
        (false, Choice::InFavor) => after == Voting { stake_in_favor: after.stake_in_favor, ..before },
        (false, Choice::Against) => after == Voting { stake_against: after.stake_against, ..before },
        (true, Choice::InFavor) => after == Voting {
            unbounded_stake_in_favor: after.unbounded_stake_in_favor,
            ..before
        },
        (true, Choice::Against) => after == Voting {
            unbounded_stake_against: after.unbounded_stake_against,
            ..before
        },
    }
}

impl Voting {
    /// The type of a voting: informal while it is its own informal voting.
    pub open spec fn spec_voting_type(&self) -> VotingType {
        if self.voting_id == self.informal_voting_id {
            VotingType::Informal
        } else {
            VotingType::Formal
        }
    }

    /// The quorum of the voting's type.
    pub open spec fn spec_quorum(&self) -> u32 {
        match self.spec_voting_type() {
            VotingType::Informal => self.voting_configuration.governance_informal_voting_quorum,
            VotingType::Formal => self.voting_configuration.governance_formal_voting_quorum,
        }
    }

    /// The end of the informal phase.
    pub open spec fn informal_end(&self) -> int {
        self.start_time + self.voting_configuration.informal_voting_time
    }

    /// The end of the pause between the two phases.
    pub open spec fn between_end(&self) -> int {
        self.informal_end() + self.voting_configuration.time_between_informal_and_formal_voting
    }

    /// The end of the formal phase.
    pub open spec fn voting_end(&self) -> int {
        self.between_end() + self.voting_configuration.formal_voting_time
    }

    /// The end of the voting time of the voting's type.
    pub open spec fn voting_time_end(&self) -> int {
        match self.spec_voting_type() {
            VotingType::Informal => self.start_time + self.voting_configuration.informal_voting_time,
            VotingType::Formal => self.start_time + self.voting_configuration.formal_voting_time,
        }
    }

    /// The voting is still in its voting phase at `block_time`.
    pub open spec fn spec_is_in_time(&self, block_time: u64) -> bool {
        block_time <= self.voting_time_end()
    }

    /// The phase schedule fits the 64-bit clock.
    pub open spec fn schedule_fits(&self) -> bool {
        self.voting_end() <= u64::MAX
    }

    /// The phase of the voting at `block_time`.
    pub open spec fn spec_state(&self, block_time: u64) -> VotingState {
        if block_time <= self.informal_end() {
            VotingState::Informal
        } else if block_time <= self.between_end() {
            VotingState::BetweenVotings
        } else if block_time <= self.voting_end() {
            VotingState::Formal
        } else {
            VotingState::Finished
        }
    }

    /// Stake in favor, bound and unbound together.
    pub open spec fn all_in_favor(&self) -> nat {
        self.stake_in_favor@ + self.unbounded_stake_in_favor@
    }

    /// Stake against, bound and unbound together.
    pub open spec fn all_against(&self) -> nat {
        self.stake_against@ + self.unbounded_stake_against@
    }

    /// All stake.
    pub open spec fn spec_total_stake(&self) -> nat {
        self.stake_in_favor@ + self.stake_against@ + self.unbounded_stake_in_favor@
            + self.unbounded_stake_against@
    }

    /// Every sum of stakes that the voting forms fits in 512 bits.
    pub open spec fn stakes_fit(&self) -> bool {
        &&& self.all_in_favor() < u512_modulus()
        &&& self.all_against() < u512_modulus()
        &&& self.stake_in_favor@ + self.stake_against@ < u512_modulus()
        &&& self.unbounded_stake_in_favor@ + self.unbounded_stake_against@ < u512_modulus()
        &&& self.spec_total_stake() < u512_modulus()
    }

    /// The result is close: the distance between the stake in favor and the stake
    /// against, in percent of all stake (rounded down, the percentage product saturating
    /// at the 512-bit maximum), is at most the clearness delta.
    pub open spec fn spec_is_result_close(&self) -> bool {
        let diff = if self.all_in_favor() >= self.all_against() {
            self.all_in_favor() - self.all_against()
        } else {
            self.all_against() - self.all_in_favor()
        };
        let product = if diff * 100 < u512_modulus() {
            diff * 100
        } else {
            u512_modulus() - 1
        };
        product / (self.spec_total_stake() as int) <= self.voting_configuration.voting_clearness_delta@
    }

    /// The result for a number of voters.
    pub open spec fn spec_result(&self, voters_number: u32) -> VotingResult {
        if self.spec_quorum() > voters_number {
            VotingResult::QuorumNotReached
        } else if self.stake_in_favor@ >= self.stake_against@ {
            VotingResult::InFavor
        } else {
            VotingResult::Against
        }
    }

    /// Creates new Voting with immutable VotingConfiguration
    pub fn new(
        voting_id: VotingId,
        start_time: u64,
        creator: Address,
        voting_configuration: DaoConfiguration,
    ) -> (voting: Self)
        ensures
            voting.voting_id == voting_id,
            !voting.completed,
            voting.stake_in_favor@ == 0,
            voting.stake_against@ == 0,
            voting.unbounded_stake_in_favor@ == 0,
            voting.unbounded_stake_against@ == 0,
            voting.start_time == start_time,
            voting.informal_voting_id == voting_id,
            voting.formal_voting_id == None::<VotingId>,
            voting.creator == creator,
            voting.voting_configuration == voting_configuration,
            !voting.is_canceled,
    {
        Voting {
            voting_id,
            completed: false,
            stake_in_favor: Uint512::zero(),
            stake_against: Uint512::zero(),
            unbounded_stake_in_favor: Uint512::zero(),
            unbounded_stake_against: Uint512::zero(),
            start_time,
            informal_voting_id: voting_id,
            formal_voting_id: None,
            creator,
            voting_configuration,
            is_canceled: false,
        }
    }

    /// Returns the type of voting
    pub fn get_voting_type(&self) -> (ty: VotingType)
        ensures
            ty == self.spec_voting_type(),
    {
        if self.voting_id == self.informal_voting_id {
            VotingType::Informal
        } else {
            VotingType::Formal
        }
    }

    pub fn is_informal_without_stake(&self) -> (r: bool)
        ensures
            r == (!self.voting_configuration.informal_stake_reputation
                && self.spec_voting_type() == VotingType::Informal),
    {
        !self.voting_configuration.informal_stake_reputation && self.get_voting_type()
            == VotingType::Informal
    }

    pub fn start_time(&self) -> (t: u64)
        ensures
            t == self.start_time,
    {
        self.start_time
    }

    /// Creates new formal voting from self, copying the configuration; where the
    /// result is close, the pause between the phases is doubled.
    pub fn create_formal_voting(&self, new_voting_id: VotingId) -> (formal: Self)
        requires
            self.stakes_fit(),
            self.spec_total_stake() > 0,
            self.spec_is_result_close()
                ==> self.voting_configuration.time_between_informal_and_formal_voting * 2
                <= u64::MAX,
        ensures
            formal.voting_id == new_voting_id,
            !formal.completed,
            formal.stake_in_favor@ == 0,
            formal.stake_against@ == 0,
            formal.unbounded_stake_in_favor@ == 0,
            formal.unbounded_stake_against@ == 0,
            formal.start_time == self.start_time,
            formal.informal_voting_id == self.informal_voting_id,
            formal.formal_voting_id == Some(new_voting_id),
            formal.creator == self.creator,
            formal.voting_configuration == (DaoConfiguration {
                time_between_informal_and_formal_voting: if self.spec_is_result_close() {
                    (self.voting_configuration.time_between_informal_and_formal_voting
                        * 2) as u64
                } else {
                    self.voting_configuration.time_between_informal_and_formal_voting
                },
                ..self.voting_configuration
            }),
            formal.is_canceled == self.is_canceled,
    {
        let mut voting_configuration = self.voting_configuration;
        if self.is_result_close() {
            voting_configuration.time_between_informal_and_formal_voting =
            voting_configuration.time_between_informal_and_formal_voting * 2;
        }
        Voting {
            voting_id: new_voting_id,
            completed: false,
            stake_in_favor: Uint512::zero(),
            stake_against: Uint512::zero(),
            unbounded_stake_in_favor: Uint512::zero(),
            unbounded_stake_against: Uint512::zero(),
            start_time: self.start_time,
            informal_voting_id: self.informal_voting_id,
            formal_voting_id: Some(new_voting_id),
            creator: self.creator,
            voting_configuration,
            is_canceled: self.is_canceled,
        }
    }

    pub fn can_be_completed(&self, block_time: u64) -> (r: bool)
        requires
            !self.completed ==> self.schedule_fits(),
        ensures
            r == (!self.completed && self.spec_state(block_time) == VotingState::Finished),
    {
        !self.completed && self.state(block_time) == VotingState::Finished
    }

    /// Sets voting as completed, optionally saves id of newly created formal voting
    pub fn complete(&mut self, formal_voting_id: Option<VotingId>)
        ensures
            *final(self) == (Voting {
                completed: true,
                formal_voting_id: if formal_voting_id is Some {
                    formal_voting_id
                } else {
                    old(self).formal_voting_id
                },
                ..*old(self)
            }),
    {
        if formal_voting_id.is_some() {
            self.formal_voting_id = formal_voting_id;
        }
        self.completed = true;
    }

    /// Returns if voting is still in voting phase: `block_time` is not past the end of the
    /// voting time of the voting's type.
    pub fn is_in_time(&self, block_time: u64) -> (r: bool)
        requires
            self.voting_time_end() <= u64::MAX,
        ensures
            r == self.spec_is_in_time(block_time),
    {
        match self.get_voting_type() {
            VotingType::Informal => {
                let start_time = self.start_time;
                let voting_time = self.voting_configuration.informal_voting_time;
                block_time <= start_time + voting_time
            },
            VotingType::Formal => {
                block_time <= self.start_time + self.voting_configuration.formal_voting_time
            },
        }
    }

    pub fn is_in_favor(&self) -> (r: bool)
        ensures
            r == (self.stake_in_favor@ >= self.stake_against@),
    {
        !self.stake_in_favor.less_than(self.stake_against)
    }

    /// Depending on the result of the voting, returns the amount of reputation staked
    /// on the winning side
    pub fn get_winning_stake(&self) -> (stake: Uint512)
        ensures
            stake == if self.stake_in_favor@ >= self.stake_against@ {
                self.stake_in_favor
            } else {
                self.stake_against
            },
    {
        match self.is_in_favor() {
            true => self.stake_in_favor,
            false => self.stake_against,
        }
    }

    pub fn is_result_close(&self) -> (r: bool)
        requires
            self.stakes_fit(),
            self.spec_total_stake() > 0,
        ensures
            r == self.spec_is_result_close(),
    {
        let stake_in_favor = self.stake_in_favor().add(self.unbounded_stake_in_favor());
        let stake_against = self.stake_against().add(self.unbounded_stake_against());
        let stake_diff = stake_in_favor.abs_diff(stake_against);
        let stake_diff_percent = stake_diff.saturating_mul(Uint512::from_u64(100)).div(
            self.total_stake(),
        );
        !self.voting_configuration.voting_clearness_delta.less_than(stake_diff_percent)
    }

    pub fn get_quorum(&self) -> (quorum: u32)
        ensures
            quorum == self.spec_quorum(),
    {
        match self.get_voting_type() {
            VotingType::Informal => self.voting_configuration.governance_informal_voting_quorum,
            VotingType::Formal => self.voting_configuration.governance_formal_voting_quorum,
        }
    }

    pub fn get_result(&self, voters_number: u32) -> (result: VotingResult)
        ensures
            result == self.spec_result(voters_number),
    {
        if self.get_quorum() > voters_number {
            VotingResult::QuorumNotReached
        } else if self.is_in_favor() {
            VotingResult::InFavor
        } else {
            VotingResult::Against
        }
    }

    /// Adds bound stake on the chosen side.
    pub fn add_stake(&mut self, stake: Uint512, choice: Choice)
        requires
            stake_fits(*old(self), stake, choice, false),
        ensures
            stake_added(*old(self), *final(self), stake, choice, false),
    {
        match choice {
            Choice::InFavor => self.stake_in_favor = self.stake_in_favor.add(stake),
            Choice::Against => self.stake_against = self.stake_against.add(stake),
        }
    }

    /// Adds unbound stake on the chosen side.
    pub fn add_unbounded_stake(&mut self, stake: Uint512, choice: Choice)
        requires
            stake_fits(*old(self), stake, choice, true),
        ensures
            stake_added(*old(self), *final(self), stake, choice, true),
    {
        match choice {
            Choice::InFavor => self.unbounded_stake_in_favor = self.unbounded_stake_in_favor.add(
                stake,
            ),
            Choice::Against => self.unbounded_stake_against = self.unbounded_stake_against.add(
                stake,
            ),
        }
    }

    /// Takes back bound stake from the chosen side.
    pub fn remove_stake(&mut self, stake: Uint512, choice: Choice)
        requires
            stake_removable(*old(self), stake, choice, false),
        ensures
            stake_added(*final(self), *old(self), stake, choice, false),
    {
        match choice {
            Choice::InFavor => self.stake_in_favor = self.stake_in_favor.sub(stake),
            Choice::Against => self.stake_against = self.stake_against.sub(stake),
        }
    }

    /// Takes back unbound stake from the chosen side.
    pub fn remove_unbounded_stake(&mut self, stake: Uint512, choice: Choice)
        requires
            stake_removable(*old(self), stake, choice, true),
        ensures
            stake_added(*final(self), *old(self), stake, choice, true),
    {
        match choice {
            Choice::InFavor => self.unbounded_stake_in_favor = self.unbounded_stake_in_favor.sub(
                stake,
            ),
            Choice::Against => self.unbounded_stake_against = self.unbounded_stake_against.sub(
                stake,
            ),
        }
    }

    /// Turns unbound stake on the chosen side into bound stake.
    pub fn bound_stake(&mut self, stake: Uint512, choice: Choice)
        requires
            stake_removable(*old(self), stake, choice, true),
            stake_fits(*old(self), stake, choice, false),
        ensures
            exists|mid: Voting|
                stake_added(mid, *old(self), stake, choice, true) && stake_added(
                    mid,
                    *final(self),
                    stake,
                    choice,
                    false,
                ),
    {
        let ghost pre = *self;
        match choice {
            Choice::InFavor => self.unbounded_stake_in_favor = self.unbounded_stake_in_favor.sub(
                stake,
            ),
            Choice::Against => self.unbounded_stake_against = self.unbounded_stake_against.sub(
                stake,
            ),
        };
        let ghost mid = *self;
        self.add_stake(stake, choice);
        assert(stake_added(mid, pre, stake, choice, true));
    }

    pub fn total_stake(&self) -> (total: Uint512)
        requires
            self.stake_in_favor@ + self.stake_against@ < u512_modulus(),
            self.unbounded_stake_in_favor@ + self.unbounded_stake_against@ < u512_modulus(),
            self.spec_total_stake() < u512_modulus(),
        ensures
            total@ == self.spec_total_stake(),
    {
        self.total_bounded_stake().add(self.total_unbounded_stake())
    }

    pub fn total_bounded_stake(&self) -> (total: Uint512)
        requires
            self.stake_in_favor@ + self.stake_against@ < u512_modulus(),
        ensures
            total@ == self.stake_in_favor@ + self.stake_against@,
    {
        self.stake_in_favor.add(self.stake_against)
    }

    pub fn total_unbounded_stake(&self) -> (total: Uint512)
        requires
            self.unbounded_stake_in_favor@ + self.unbounded_stake_against@ < u512_modulus(),
        ensures
            total@ == self.unbounded_stake_in_favor@ + self.unbounded_stake_against@,
    {
        self.unbounded_stake_in_favor.add(self.unbounded_stake_against)
    }

    /// Get the voting's voting id.
    pub fn voting_id(&self) -> (id: VotingId)
        ensures
            id == self.voting_id,
    {
        self.voting_id
    }

    /// Get the voting's completed.
    pub fn completed(&self) -> (completed: bool)
        ensures
            completed == self.completed,
    {
        self.completed
    }

    /// A vote is refused between the two phases and after the formal phase.
    pub fn validate_vote(&self, block_time: u64) -> (valid: Result<(), Error>)
        requires
            self.schedule_fits(),
        ensures
            valid == match self.spec_state(block_time) {
                VotingState::BetweenVotings => Err(Error::VotingDuringTimeBetweenVotingsNotAllowed),
                VotingState::Finished => Err(Error::VoteOnCompletedVotingNotAllowed),
                _ => Ok(()),
            },
    {
        if self.state(block_time) == VotingState::BetweenVotings {
            return Err(Error::VotingDuringTimeBetweenVotingsNotAllowed);
        }
        if self.state(block_time) == VotingState::Finished {
            return Err(Error::VoteOnCompletedVotingNotAllowed);
        }
        Ok(())
    }

    /// Get the voting's stake in favor.
    pub fn stake_in_favor(&self) -> (stake: Uint512)
        ensures
            stake == self.stake_in_favor,
    {
        self.stake_in_favor
    }

    /// Get the voting's stake against.
    pub fn stake_against(&self) -> (stake: Uint512)
        ensures
            stake == self.stake_against,
    {
        self.stake_against
    }

    pub fn unbounded_stake_in_favor(&self) -> (stake: Uint512)
        ensures
            stake == self.unbounded_stake_in_favor,
    {
        self.unbounded_stake_in_favor
    }

    pub fn unbounded_stake_against(&self) -> (stake: Uint512)
        ensures
            stake == self.unbounded_stake_against,
    {
        self.unbounded_stake_against
    }

    /// Get the voting's informal voting id.
    pub fn informal_voting_id(&self) -> (id: VotingId)
        ensures
            id == self.informal_voting_id,
    {
        self.informal_voting_id
    }

    /// Get the voting's formal voting id.
    pub fn formal_voting_id(&self) -> (id: Option<VotingId>)
        ensures
            id == self.formal_voting_id,
    {
        self.formal_voting_id
    }

    /// Get the voting's formal voting quorum.
    pub fn formal_voting_quorum(&self) -> (quorum: u32)
        ensures
            quorum == self.voting_configuration.governance_formal_voting_quorum,
    {
        self.voting_configuration.governance_formal_voting_quorum
    }

    /// Get the voting's informal voting quorum.
    pub fn informal_voting_quorum(&self) -> (quorum: u32)
        ensures
            quorum == self.voting_configuration.governance_informal_voting_quorum,
    {
        self.voting_configuration.governance_informal_voting_quorum
    }

    /// Get the voting's formal voting time.
    pub fn formal_voting_time(&self) -> (time: u64)
        ensures
            time == self.voting_configuration.formal_voting_time,
    {
        self.voting_configuration.formal_voting_time
    }

    /// Get the voting's informal voting time.
    pub fn informal_voting_time(&self) -> (time: u64)
        ensures
            time == self.voting_configuration.informal_voting_time,
    {
        self.voting_configuration.informal_voting_time
    }

    /// Get a reference to the voting's voting configuration.
    pub fn voting_configuration(&self) -> (configuration: &DaoConfiguration)
        ensures
            *configuration == self.voting_configuration,
    {
        &self.voting_configuration
    }

    pub fn creator(&self) -> (creator: &Address)
        ensures
            *creator == self.creator,
    {
        &self.creator
    }

    /// The phase of the voting at `block_time`: informal up to the end of the informal
    /// voting time, then between the votings, then formal, then finished.
    pub fn state(&self, block_time: BlockTime) -> (state: VotingState)
        requires
            self.schedule_fits(),
        ensures
            state == self.spec_state(block_time),
    {
        let informal_voting_end = self.start_time + self.informal_voting_time();
        let between_voting_end = informal_voting_end
            + self.voting_configuration.time_between_informal_and_formal_voting;
        let voting_end = between_voting_end + self.formal_voting_time();
        if block_time <= informal_voting_end {
            VotingState::Informal
        } else if block_time > informal_voting_end && block_time <= between_voting_end {
            VotingState::BetweenVotings
        } else if block_time > between_voting_end && block_time <= voting_end {
            VotingState::Formal
        } else {
            VotingState::Finished
        }
    }

    pub fn cancel(&mut self)
        ensures
            *final(self) == (Voting { is_canceled: true, ..*old(self) }),
    {
        self.is_canceled = true;
    }
}

/// The order of the phases of a voting.
pub open spec fn phase_rank(state: VotingState) -> int {
    match state {
        VotingState::Informal => 0,
        VotingState::BetweenVotings => 1,
        VotingState::Formal => 2,
        VotingState::Finished => 3,
    }
}

/// The phases of a voting follow one another in order: a later time is never in an
/// earlier phase.
pub proof fn law_phases_follow_in_order(voting: Voting, t1: u64, t2: u64)
    requires
        t1 <= t2,
    ensures
        phase_rank(voting.spec_state(t1)) <= phase_rank(voting.spec_state(t2)),
{
}

/// A voting with enough voters passes when the stake in favor is at least the stake
/// against (a tie passes), fails otherwise, and without enough voters reaches no
/// quorum; the result is never `Canceled`.
pub proof fn law_result_by_quorum_and_majority(voting: Voting, voters_number: u32)
    ensures
        voting.spec_result(voters_number) == VotingResult::QuorumNotReached <==> voters_number
            < voting.spec_quorum(),
        voting.spec_result(voters_number) == VotingResult::InFavor <==> (voters_number
            >= voting.spec_quorum() && voting.stake_in_favor@ >= voting.stake_against@),
        voting.spec_result(voters_number) != VotingResult::Canceled,
{
}

/// Taking back the stake that was added gives back the voting as it was.
pub proof fn law_remove_undoes_add(
    before: Voting,
    added: Voting,
    after: Voting,
    stake: Uint512,
    choice: Choice,
    unbounded: bool,
)
    requires
        stake_added(before, added, stake, choice, unbounded),
        stake_added(after, added, stake, choice, unbounded),
    ensures
        after == before,
{
    match (unbounded, choice) {
        (false, Choice::InFavor) => crate::numeric::lemma_u512_view_injective(
            after.stake_in_favor,
            before.stake_in_favor,
        ),
        (false, Choice::Against) => crate::numeric::lemma_u512_view_injective(
            after.stake_against,
            before.stake_against,
        ),
        (true, Choice::InFavor) => crate::numeric::lemma_u512_view_injective(
            after.unbounded_stake_in_favor,
            before.unbounded_stake_in_favor,
        ),
        (true, Choice::Against) => crate::numeric::lemma_u512_view_injective(
            after.unbounded_stake_against,
            before.unbounded_stake_against,
        ),
    }
}

/// Binding stake moves it from the unbound counter to the bound counter of its side:
/// the stake on each side, bound and unbound together, and the total stake stay the
/// same, and the result can only move toward the side of the bound stake.
pub proof fn law_binding_keeps_stake(
    before: Voting,
    mid: Voting,
    after: Voting,
    stake: Uint512,
    choice: Choice,
)
    requires
        stake_added(mid, before, stake, choice, true),
        stake_added(mid, after, stake, choice, false),
    ensures
        after.all_in_favor() == before.all_in_favor(),
        after.all_against() == before.all_against(),
        after.spec_total_stake() == before.spec_total_stake(),
        after.spec_quorum() == before.spec_quorum(),
{
}

/// The distance between two amounts.
pub open spec fn distance(x: nat, y: nat) -> nat {
    if x >= y {
        (x - y) as nat
    } else {
        (y - x) as nat
    }
}

/// A result is close when the distance between all stake in favor and all stake against
/// is at most the clearness delta in percent of all stake (rounded down), where that
/// percentage is computed without saturating.
pub proof fn law_closeness_is_a_percentage(voting: Voting)
    requires
        voting.spec_total_stake() > 0,
        distance(
            voting.stake_in_favor@ + voting.unbounded_stake_in_favor@,
            voting.stake_against@ + voting.unbounded_stake_against@,
        ) * 100 < u512_modulus(),
    ensures
        voting.spec_is_result_close() == (distance(
            voting.stake_in_favor@ + voting.unbounded_stake_in_favor@,
            voting.stake_against@ + voting.unbounded_stake_against@,
        ) * 100 / (voting.stake_in_favor@ + voting.stake_against@ + voting.unbounded_stake_in_favor@
            + voting.unbounded_stake_against@) <= voting.voting_configuration.voting_clearness_delta@),
{
}

/// Closeness does not depend on the scale of the stakes: multiplying every stake by the
/// same positive factor keeps a close result close and a clear result clear.
pub proof fn law_closeness_ignores_scale(v: Voting, w: Voting, k: nat)
    requires
        k > 0,
        w.voting_configuration == v.voting_configuration,
        w.stake_in_favor@ == k * v.stake_in_favor@,
        w.stake_against@ == k * v.stake_against@,
        w.unbounded_stake_in_favor@ == k * v.unbounded_stake_in_favor@,
        w.unbounded_stake_against@ == k * v.unbounded_stake_against@,
        v.spec_total_stake() > 0,
        distance(w.all_in_favor(), w.all_against()) * 100 < u512_modulus(),
    ensures
        v.spec_is_result_close() == w.spec_is_result_close(),
{
    let fv = v.all_in_favor() as int;
    let av = v.all_against() as int;
    let tv = v.spec_total_stake() as int;
    let fw = w.all_in_favor() as int;
    let aw = w.all_against() as int;
    let tw = w.spec_total_stake() as int;
    let ki = k as int;
    assert(fw == ki * fv) by (nonlinear_arith)
        requires
            fw == ki * (v.stake_in_favor@ as int) + ki * (v.unbounded_stake_in_favor@ as int),
            fv == (v.stake_in_favor@ as int) + (v.unbounded_stake_in_favor@ as int);
    assert(aw == ki * av) by (nonlinear_arith)
        requires
            aw == ki * (v.stake_against@ as int) + ki * (v.unbounded_stake_against@ as int),
            av == (v.stake_against@ as int) + (v.unbounded_stake_against@ as int);
    assert(tw == ki * tv) by (nonlinear_arith)
        requires
            tw == ki * (v.stake_in_favor@ as int) + ki * (v.stake_against@ as int) + ki * (
            v.unbounded_stake_in_favor@ as int) + ki * (v.unbounded_stake_against@ as int),
            tv == (v.stake_in_favor@ as int) + (v.stake_against@ as int) + (
            v.unbounded_stake_in_favor@ as int) + (v.unbounded_stake_against@ as int);
    let dv = distance(v.all_in_favor(), v.all_against()) as int;
    let dw = distance(w.all_in_favor(), w.all_against()) as int;
    assert(dw == ki * dv) by (nonlinear_arith)
        requires
            fw == ki * fv,
            aw == ki * av,
            dv == (if fv >= av { fv - av } else { av - fv }),
            dw == (if fw >= aw { fw - aw } else { aw - fw }),
            ki > 0;
    assert(dv <= dw) by (nonlinear_arith)
        requires
            dw == ki * dv,
            ki >= 1,
            dv >= 0;
    assert(dw * 100 == ki * (dv * 100)) by (nonlinear_arith)
        requires
            dw == ki * dv;
    assert(tv > 0);
    vstd::arithmetic::div_mod::lemma_div_multiples_vanish(dv * 100, ki);
    vstd::arithmetic::div_mod::lemma_div_denominator(ki * (dv * 100), ki, tv);
    assert(dw * 100 / tw == dv * 100 / tv);
    law_closeness_is_a_percentage(v);
    law_closeness_is_a_percentage(w);
}

/// A voting is in its voting time from its start up to the end of the voting time of
/// its type (the informal time for an informal voting, the formal time for a formal
/// one), that end included; once past it, it stays past it.
pub proof fn law_in_time_until_the_end(voting: Voting, t1: u64, t2: u64)
    requires
        t1 <= t2,
    ensures
        voting.spec_is_in_time(t2) ==> voting.spec_is_in_time(t1),
        voting.spec_is_in_time(voting.start_time),
        voting.spec_voting_type() == VotingType::Informal ==> (voting.spec_is_in_time(t1) <==> t1
            <= voting.start_time + voting.voting_configuration.informal_voting_time),
        voting.spec_voting_type() == VotingType::Formal ==> (voting.spec_is_in_time(t1) <==> t1
            <= voting.start_time + voting.voting_configuration.formal_voting_time),
{
}

} // verus!
