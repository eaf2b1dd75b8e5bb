use vstd::prelude::*;
use crate::address::Address;
use crate::error::Error;
use crate::keys::StorageKey;
use crate::mapping::Mapping;
use crate::numeric::{u512_modulus, Uint512};
use crate::vec_mapping::VecMapping;
use crate::ballot::{
    add_to_map, bound_ballots_of, contribution, counted_stake, lemma_counted_stake_update,
    lemma_filter_step, lemma_selected_step, losing_selection, mints_match, other_choice,
    mint_overflows, is_winner, redistribution_defined, ballot_voters_distinct, voters_distinct,
    lemma_selected_voters_distinct, lemma_filter_voters_distinct, mint_addresses_distinct, lemma_selected_members, selected_ballots, tagged, total_of, Ballot, Reason, Selection,
    Settlement, ShortenedBallot, shortened,
};
use crate::voting::{
    formal_follows, stake_added, stake_counter, stake_fits, stake_removable, Choice, DaoConfiguration, Voting,
    VotingCall, VotingId, VotingResult, VotingState, VotingSummary, VotingType,
};

verus! {

/// What decides whether and how a voting may be created.
#[derive(Clone, Copy, Debug, PartialEq, Eq)]
pub struct CreationRules {
    /// The creator holds a VA token.
    pub is_va: bool,
    /// Only VA token holders may create votings.
    pub only_va_can_create: bool,
    /// The creator's ballot in favor is cast when the voting is created.
    pub should_cast_first_vote: bool,
}

/// What the creation of a voting reports.
#[derive(Clone, Copy, Debug, PartialEq, Eq)]
pub struct VotingCreatedInfo {
    pub creator: Address,
    pub voting_id: VotingId,
    /// The stake of the creator's first ballot, when one was cast.
    pub stake: Option<Uint512>,
    pub configuration: DaoConfiguration,
}

/// What slashing a voter did.
#[derive(Debug)]
pub enum Slashed {
    /// The voter created the voting, which was canceled; the stake of these ballots is
    /// unlocked.
    VotingCanceled(Vec<ShortenedBallot>),
    /// The voter's ballot (as it was) was canceled; its stake is unlocked.
    BallotCanceled(Ballot),
}

/// Whether `voter` may vote on `voting` with the given type at `block_time`, and if
/// not, why: the voting is of the other type, it is completed, it is between its two
/// voting phases or past them, or the voter already has a ballot on it.
pub open spec fn vote_check(
    voting: Voting,
    ballots: Map<(VotingId, VotingType, Address), Ballot>,
    voter: Address,
    voting_type: VotingType,
    block_time: u64,
) -> Result<(), Error> {
    if voting.spec_voting_type() != voting_type {
        Err(Error::VotingWithGivenTypeNotInProgress)
    } else if voting.completed {
        Err(Error::VoteOnCompletedVotingNotAllowed)
    } else if voting.spec_state(block_time) == VotingState::BetweenVotings {
        Err(Error::VotingDuringTimeBetweenVotingsNotAllowed)
    } else if voting.spec_state(block_time) == VotingState::Finished {
        Err(Error::VoteOnCompletedVotingNotAllowed)
    } else if ballots.contains_key((voting.voting_id, voting_type, voter)) {
        Err(Error::CannotVoteTwice)
    } else {
        Ok(())
    }
}

/// Whether `voter` may vote on the voting with the given id, and if not, why.
pub open spec fn vote_outcome(
    engine: VotingEngine,
    voter: Address,
    voting_id: VotingId,
    voting_type: VotingType,
    block_time: u64,
) -> Result<(), Error> {
    if !engine.votings().contains_key(voting_id) {
        Err(Error::VotingDoesNotExist)
    } else {
        vote_check(engine.votings()[voting_id], engine.ballot_map(), voter, voting_type, block_time)
    }
}

/// The counters of the voting with the given id agree with its ballots: for each
/// choice and kind, the counter holds the stake of the ballots of that choice and kind
/// that were not canceled, on the voting's current type, whose voters are listed once.
pub open spec fn stakes_accounted(engine: VotingEngine, voting_id: VotingId) -> bool {
    engine.votings().contains_key(voting_id) ==> {
        let v = engine.votings()[voting_id];
        let ty = v.spec_voting_type();
        &&& engine.voter_list(voting_id, ty).no_duplicates()
        &&& forall|c: Choice, u: bool| #[trigger]
            stake_counter(v, c, u) == counted_stake(engine.ballot_list(voting_id, ty), c, u)
    }
}

/// The reputation movements of finishing a voting of the given type with `result`,
/// over its ballots `bl`; `c` below is the voting's creator.
///
/// Informal: unless the voting staked no reputation, the bound stake of every voter but
/// the creator is returned, and the creator's bound stake is burned unless the voting
/// passed (when it passes, that stake goes on to the formal voting).
/// Formal, in favor or against: the winning side's bound stake is returned, the losing
/// side's is burned, and each winner gets `losing total * stake / winning total` minted.
/// Formal without quorum: the bound stake of every voter but the creator is returned,
/// and the creator's is burned.
pub open spec fn settlement_matches(
    unstakes: Seq<(ShortenedBallot, Reason)>,
    mints: Seq<(Address, Uint512)>,
    burns: Seq<ShortenedBallot>,
    bl: Seq<Ballot>,
    voting: Voting,
    voting_type: VotingType,
    result: VotingResult,
    informal_without_stake: bool,
) -> bool {
    let c = voting.creator;
    let others = |reason: Reason| tagged(selected_ballots(bl, Selection::BoundInFavorExcept(c)), reason)
        + tagged(selected_ballots(bl, Selection::BoundAgainstExcept(c)), reason);
    match voting_type {
        VotingType::Informal => {
            &&& unstakes == if informal_without_stake {
                Seq::<(ShortenedBallot, Reason)>::empty()
            } else {
                others(Reason::InformalFinished)
            }
            &&& mints.len() == 0
            &&& burns == if informal_without_stake || result == VotingResult::InFavor {
                Seq::<ShortenedBallot>::empty()
            } else {
                selected_ballots(bl, Selection::BoundOf(c))
            }
        },
        VotingType::Formal => match result {
            VotingResult::InFavor => {
                &&& unstakes == tagged(selected_ballots(bl, Selection::BoundInFavor), Reason::FormalFinished)
                &&& burns == selected_ballots(bl, Selection::BoundAgainst)
                &&& mints_match(mints, bound_ballots_of(bl, Choice::InFavor), voting.stake_against@, voting.stake_in_favor@)
            },
            VotingResult::Against => {
                &&& unstakes == tagged(selected_ballots(bl, Selection::BoundAgainst), Reason::FormalFinished)
                &&& burns == selected_ballots(bl, Selection::BoundInFavor)
                &&& mints_match(mints, bound_ballots_of(bl, Choice::Against), voting.stake_in_favor@, voting.stake_against@)
            },
            _ => {
                &&& unstakes == others(Reason::FormalFinished)
                &&& mints.len() == 0
                &&& burns == selected_ballots(bl, Selection::BoundOf(c))
            },
        },
    }
}

/// The redistribution that finishing a formal voting performs can divide its shares.
pub open spec fn finish_redistribution_defined(
    engine: VotingEngine,
    voting: Voting,
    voting_type: VotingType,
    result: VotingResult,
) -> bool {
    let bl = engine.ballot_list(voting.voting_id, voting_type);
    voting_type == VotingType::Formal ==> {
        &&& result == VotingResult::InFavor ==> redistribution_defined(voting, bl, Choice::Against)
        &&& result == VotingResult::Against ==> redistribution_defined(voting, bl, Choice::InFavor)
    }
}

/// A share of the losing stake overflows when finishing a formal voting.
pub open spec fn finish_overflows(
    engine: VotingEngine,
    voting: Voting,
    voting_type: VotingType,
    result: VotingResult,
) -> bool {
    let bl = engine.ballot_list(voting.voting_id, voting_type);
    voting_type == VotingType::Formal && ((result == VotingResult::InFavor && mint_overflows(
        voting,
        bl,
        Choice::Against,
    )) || (result == VotingResult::Against && mint_overflows(voting, bl, Choice::InFavor)))
}

/// The error with which settling fails.
pub open spec fn finish_settle_error(
    engine: VotingEngine,
    voting: Voting,
    voting_type: VotingType,
    result: VotingResult,
) -> Error {
    if result == VotingResult::Canceled {
        Error::VotingAlreadyCanceled
    } else {
        Error::ArithmeticOverflow
    }
}

/// Why finishing the voting with the given id and type at `block_time` is refused, if
/// it is: the voting is unknown or of the other type, already completed, still in its
/// voting time, canceled, a share of its losing stake overflows, or it is an informal
/// voting that passed while the id for its formal voting is in use or its creator has no
/// ballot on it.
pub open spec fn finish_refusal(
    engine: VotingEngine,
    voting_id: VotingId,
    voting_type: VotingType,
    block_time: u64,
    formal_voting_id: VotingId,
) -> Option<Error> {
    if !engine.votings().contains_key(voting_id) {
        Some(Error::VotingDoesNotExist)
    } else {
        let v = engine.votings()[voting_id];
        let r = v.spec_result(engine.voter_list(voting_id, voting_type).len() as u32);
        if v.spec_voting_type() != voting_type {
            Some(Error::VotingWithGivenTypeNotInProgress)
        } else if v.completed {
            Some(Error::FinishingCompletedVotingNotAllowed)
        } else if v.spec_is_in_time(block_time) {
            Some(
                if voting_type == VotingType::Informal {
                    Error::InformalVotingTimeNotReached
                } else {
                    Error::FormalVotingTimeNotReached
                },
            )
        } else if v.is_canceled {
            Some(Error::VotingAlreadyCanceled)
        } else if finish_overflows(engine, v, voting_type, r) {
            Some(Error::ArithmeticOverflow)
        } else if voting_type == VotingType::Informal && r == VotingResult::InFavor
            && engine.votings().contains_key(formal_voting_id) {
            Some(Error::VotingIdInUse)
        } else if voting_type == VotingType::Informal && r == VotingResult::InFavor
            && !engine.ballot_map().contains_key((voting_id, VotingType::Informal, v.creator)) {
            Some(Error::BallotDoesNotExist)
        } else {
            None
        }
    }
}

/// The voting is of the given type, not completed, past its voting time and not
/// canceled.
pub open spec fn finishable(voting: Voting, voting_type: VotingType, block_time: u64) -> bool {
    &&& voting.spec_voting_type() == voting_type
    &&& !voting.completed
    &&& !voting.spec_is_in_time(block_time)
    &&& !voting.is_canceled
}

/// What finishing the voting with the given id and type needs beyond well-formedness:
/// the end of its voting time fits the clock; and where it can be finished, the shares
/// of a formal redistribution can be divided, and where an informal voting passes and
/// `formal_voting_id` is free, its stakes can be summed and are not all zero, a doubled
/// pause fits the clock, and the formal voting's list of voters can grow.
pub open spec fn finish_requirements(
    engine: VotingEngine,
    voting_id: VotingId,
    voting_type: VotingType,
    block_time: u64,
    formal_voting_id: VotingId,
) -> bool {
    engine.votings().contains_key(voting_id) ==> {
        let v = engine.votings()[voting_id];
        let r = v.spec_result(engine.voter_list(voting_id, voting_type).len() as u32);
        &&& v.spec_voting_type() == voting_type && !v.completed ==> v.voting_time_end() <= u64::MAX
        &&& finishable(v, voting_type, block_time) ==> finish_redistribution_defined(engine, v, voting_type, r)
        &&& finishable(v, voting_type, block_time) && voting_type == VotingType::Informal
            && r == VotingResult::InFavor && !engine.votings().contains_key(formal_voting_id) ==> {
            &&& v.stakes_fit()
            &&& v.spec_total_stake() > 0
            &&& v.spec_is_result_close()
                ==> v.voting_configuration.time_between_informal_and_formal_voting * 2 <= u64::MAX
            &&& engine.voter_list(formal_voting_id, VotingType::Formal).len() < u32::MAX
        }
    }
}

/// No two entries of `s` are kept under the same id.
pub open spec fn ids_distinct(s: Seq<(VotingId, Vec<VotingCall>)>) -> bool {
    forall|i: int, j: int| 0 <= i < j < s.len() ==> #[trigger] s[i].0 != #[trigger] s[j].0
}

/// The calls of the entries of `s`, by id.
spec fn calls_map(s: Seq<(VotingId, Vec<VotingCall>)>) -> Map<VotingId, Seq<VotingCall>> {
    Map::new(
        |id: VotingId| exists|i: int| 0 <= i < s.len() && #[trigger] s[i].0 == id,
        |id: VotingId| s[choose|i: int| 0 <= i < s.len() && #[trigger] s[i].0 == id].1@,
    )
}

/// The calls at position `k` are the ones kept under their id.
proof fn lemma_calls_map_at(s: Seq<(VotingId, Vec<VotingCall>)>, k: int)
    requires
        ids_distinct(s),
        0 <= k < s.len(),
    ensures
        calls_map(s).contains_key(s[k].0),
        calls_map(s)[s[k].0] == s[k].1@,
{
    let id = s[k].0;
    assert(calls_map(s).dom().contains(id));
    let j = choose|i: int| 0 <= i < s.len() && #[trigger] s[i].0 == id;
    if j < k {
        assert(s[j].0 != s[k].0);
    } else if j > k {
        assert(s[k].0 != s[j].0);
    }
}

/// Appending calls under a new id adds them under that id.
proof fn lemma_calls_map_push(s: Seq<(VotingId, Vec<VotingCall>)>, id: VotingId, c: Vec<VotingCall>)
    requires
        ids_distinct(s),
        forall|i: int| 0 <= i < s.len() ==> #[trigger] s[i].0 != id,
    ensures
        ids_distinct(s.push((id, c))),
        calls_map(s.push((id, c))) == calls_map(s).insert(id, c@),
{
    let t = s.push((id, c));
    assert forall|i: int, j: int| 0 <= i < j < t.len() implies #[trigger] t[i].0 != #[trigger] t[j].0 by {
        if j == s.len() {
            assert(s[i].0 != id);
        } else {
            assert(s[i].0 != s[j].0);
        }
    }
    assert forall|x: VotingId| #[trigger] calls_map(t).contains_key(x) == calls_map(s).insert(id, c@).contains_key(x) by {
        if calls_map(s).contains_key(x) {
            let k = choose|i: int| 0 <= i < s.len() && #[trigger] s[i].0 == x;
            assert(t[k].0 == x);
        }
        if x == id {
            assert(t[s.len() as int].0 == x);
        }
        if calls_map(t).contains_key(x) && x != id {
            let k = choose|i: int| 0 <= i < t.len() && #[trigger] t[i].0 == x;
            assert(k < s.len());
            assert(s[k].0 == x);
        }
    }
    assert forall|x: VotingId| #[trigger] calls_map(t).contains_key(x) implies calls_map(t)[x] == calls_map(s).insert(id, c@)[x] by {
        if x == id {
            lemma_calls_map_at(t, s.len() as int);
        } else {
            let k = choose|i: int| 0 <= i < t.len() && #[trigger] t[i].0 == x;
            assert(k < s.len());
            lemma_calls_map_at(t, k);
            lemma_calls_map_at(s, k);
        }
    }
    assert(calls_map(t) =~= calls_map(s).insert(id, c@));
}

/// Removing the entry at position `k` removes its id's calls.
proof fn lemma_calls_map_remove(s: Seq<(VotingId, Vec<VotingCall>)>, k: int)
    requires
        ids_distinct(s),
        0 <= k < s.len(),
    ensures
        ids_distinct(s.remove(k)),
        calls_map(s.remove(k)) == calls_map(s).remove(s[k].0),
{
    let t = s.remove(k);
    let id = s[k].0;
    assert forall|i: int, j: int| 0 <= i < j < t.len() implies #[trigger] t[i].0 != #[trigger] t[j].0 by {
        let a = if i < k { i } else { i + 1 };
        let b = if j < k { j } else { j + 1 };
        assert(t[i] == s[a] && t[j] == s[b]);
        assert(s[a].0 != s[b].0);
    }
    assert forall|x: VotingId| #[trigger] calls_map(t).contains_key(x) == calls_map(s).remove(id).contains_key(x) by {
        if calls_map(t).contains_key(x) {
            let m = choose|i: int| 0 <= i < t.len() && #[trigger] t[i].0 == x;
            let a = if m < k { m } else { m + 1 };
            assert(t[m] == s[a]);
            if a < k {
                assert(s[a].0 != s[k].0);
            } else {
                assert(s[k].0 != s[a].0);
            }
            assert(s[a].0 == x);
        }
        if calls_map(s).contains_key(x) && x != id {
            let m = choose|i: int| 0 <= i < s.len() && #[trigger] s[i].0 == x;
            assert(m != k);
            let b = if m < k { m } else { m - 1 };
            assert(t[b] == s[m]);
            assert(t[b].0 == x);
        }
    }
    assert forall|x: VotingId| #[trigger] calls_map(t).contains_key(x) implies calls_map(t)[x] == calls_map(s).remove(id)[x] by {
        let m = choose|i: int| 0 <= i < t.len() && #[trigger] t[i].0 == x;
        let a = if m < k { m } else { m + 1 };
        assert(t[m] == s[a]);
        lemma_calls_map_at(t, m);
        lemma_calls_map_at(s, a);
    }
    assert(calls_map(t) =~= calls_map(s).remove(id));
}

/// What creating a voting does, as [`VotingEngine::create_voting`] states it: `before`
/// and `after` are the engine before and after the creation, `calls` the contract calls
/// given to the voting, and `created` what the creation returned.
pub open spec fn creation_outcome(
    before: VotingEngine,
    after: VotingEngine,
    creator: Address,
    stake: Uint512,
    configuration: DaoConfiguration,
    creation: CreationRules,
    voting_id: VotingId,
    block_time: u64,
    calls: Seq<VotingCall>,
    created: Result<(VotingCreatedInfo, Option<ShortenedBallot>), Error>,
) -> bool {
    match created {
        Ok((info, lock)) => {
            let v = after.votings()[voting_id];
            &&& !(creation.only_va_can_create && !creation.is_va)
            &&& !before.votings().contains_key(voting_id)
            &&& info == (VotingCreatedInfo {
                creator,
                voting_id,
                stake: if creation.should_cast_first_vote { Some(stake) } else { None },
                configuration,
            })
            &&& after.votings().dom() == before.votings().dom().insert(voting_id)
            &&& forall|id: VotingId| id != voting_id ==> #[trigger] after.votings().get(id) == before.votings().get(id)
            &&& after.calls() == before.calls().insert(voting_id, calls)
            &&& v.voting_id == voting_id
            &&& v.informal_voting_id == voting_id
            &&& v.start_time == block_time
            &&& v.creator == creator
            &&& v.voting_configuration == configuration
            &&& !v.completed && !v.is_canceled && v.formal_voting_id is None
            &&& v.stake_against@ == 0
            &&& v.unbounded_stake_in_favor@ == 0
            &&& v.unbounded_stake_against@ == 0
            &&& if creation.should_cast_first_vote {
                &&& !before.ballot_map().contains_key((voting_id, VotingType::Informal, creator))
                &&& v.stake_in_favor@ == stake@
                &&& after.ballot_map() == before.ballot_map().insert(
                    (voting_id, VotingType::Informal, creator),
                    Ballot {
                        voter: creator,
                        voting_id,
                        voting_type: VotingType::Informal,
                        choice: Choice::InFavor,
                        stake,
                        unbounded: false,
                        canceled: false,
                    },
                )
                &&& after.voter_list(voting_id, VotingType::Informal) == before.voter_list(voting_id, VotingType::Informal).push(creator)
                &&& lock == if configuration.informal_stake_reputation {
                    Some(ShortenedBallot { voter: creator, stake })
                } else {
                    None::<ShortenedBallot>
                }
            } else {
                &&& v.stake_in_favor@ == 0
                &&& after.ballot_map() == before.ballot_map()
                &&& after.voter_list(voting_id, VotingType::Informal) == before.voter_list(voting_id, VotingType::Informal)
                &&& lock is None
            }
            &&& forall|id: VotingId, ty: VotingType|
                !(id == voting_id && ty == VotingType::Informal) ==> #[trigger] after.voter_list(id, ty) == before.voter_list(id, ty)
        },
        Err(e) => {
            &&& e == if creation.only_va_can_create && !creation.is_va {
                Error::NotEnoughReputation
            } else if before.votings().contains_key(voting_id) {
                Error::VotingIdInUse
            } else {
                Error::CannotVoteTwice
            }
            &&& (creation.only_va_can_create && !creation.is_va) || before.votings().contains_key(voting_id)
                || (creation.should_cast_first_vote
                && before.ballot_map().contains_key((voting_id, VotingType::Informal, creator)))
            &&& after == before
        },
    }
}

/// Keeps the votings, the ballots cast on them and the list of voters of each voting.
pub struct VotingEngine {
    voting_states: Mapping<VotingId, Option<Voting>>,
    ballots: Mapping<(VotingId, VotingType, Address), Ballot>,
    voters: VecMapping<(VotingId, VotingType), Address>,
    contract_calls: Vec<(VotingId, Vec<VotingCall>)>,
}

impl VotingEngine {
    /// Well-formed: every stored voting is present and stored under its own id, every
    /// listed voter has a ballot, the voter of every ballot is listed, and the contract
    /// calls are kept once per stored voting.
    pub closed spec fn wf(&self) -> bool {
        &&& self.voting_states.wf()
        &&& self.ballots.wf()
        &&& self.voters.wf()
        &&& forall|id: VotingId| #[trigger]
            self.voting_states.contents().contains_key(id) ==> (self.voting_states.contents()[id]
                matches Some(v) && v.voting_id == id)
        &&& forall|id: VotingId, ty: VotingType, i: int|
            0 <= i < self.voters.values((id, ty)).len() ==> self.ballots.contents().contains_key(
                (id, ty, #[trigger] self.voters.values((id, ty))[i]),
            )
        &&& forall|key: (VotingId, VotingType, Address)| #[trigger]
            self.ballots.contents().contains_key(key) ==> self.voters.values((key.0, key.1)).contains(key.2)
        &&& forall|key: (VotingId, VotingType, Address)|
            self.ballots.contents().contains_key(key) ==> (#[trigger] self.ballots.contents()[key]).voter == key.2
        &&& ids_distinct(self.contract_calls@)
        &&& forall|i: int|
            0 <= i < self.contract_calls@.len() ==> self.voting_states.contents().contains_key(
                #[trigger] self.contract_calls@[i].0,
            )
    }

    /// The contract calls of the votings, by the id of the voting that was created with
    /// them (the informal voting; its formal voting shares them).
    pub closed spec fn calls(&self) -> Map<VotingId, Seq<VotingCall>> {
        calls_map(self.contract_calls@)
    }

    /// The contract calls kept under `id`; none where no calls are kept.
    pub open spec fn calls_of(&self, id: VotingId) -> Seq<VotingCall> {
        if self.calls().contains_key(id) {
            self.calls()[id]
        } else {
            Seq::<VotingCall>::empty()
        }
    }


    /// Where a voting's voters are listed once, its ballots belong to distinct voters.
    pub proof fn lemma_ballot_voters_distinct(&self, id: VotingId, ty: VotingType)
        requires
            self.wf(),
            self.voter_list(id, ty).no_duplicates(),
        ensures
            ballot_voters_distinct(self.ballot_list(id, ty)),
    {
        let l = self.voter_list(id, ty);
        let bl = self.ballot_list(id, ty);
        assert forall|i: int| 0 <= i < bl.len() implies #[trigger] bl[i].voter == l[i] by {
            assert(self.ballots.contents().contains_key((id, ty, self.voters.values((id, ty))[i])));
        }
        assert forall|i: int, j: int| 0 <= i < j < bl.len() implies #[trigger] bl[i].voter != #[trigger] bl[j].voter by {
            assert(bl[i].voter == l[i] && bl[j].voter == l[j]);
        }
    }

    /// A stored voting is stored under its own id.
    pub proof fn lemma_stored_under_own_id(&self, id: VotingId)
        requires
            self.wf(),
            self.votings().contains_key(id),
        ensures
            self.votings()[id].voting_id == id,
    {
    }

    /// The position of the calls kept under `id`, if any.
    fn find_calls(&self, id: VotingId) -> (found: Option<usize>)
        requires
            self.wf(),
        ensures
            match found {
                Some(k) => k < self.contract_calls@.len() && self.contract_calls@[k as int].0 == id,
                None => !self.calls().contains_key(id),
            },
    {
        let mut k: usize = 0;
        while k < self.contract_calls.len()
            invariant
                k <= self.contract_calls@.len(),
                forall|j: int| 0 <= j < k ==> #[trigger] self.contract_calls@[j].0 != id,
            decreases self.contract_calls@.len() - k,
        {
            if self.contract_calls[k].0 == id {
                return Some(k);
            }
            k = k + 1;
        }
        None
    }

    /// The contract calls kept under `voting_id` (the id of the informal voting they were
    /// created with), or `None` where none are kept.
    pub fn contract_calls(&self, voting_id: VotingId) -> (calls: Option<&Vec<VotingCall>>)
        requires
            self.wf(),
        ensures
            match calls {
                Some(c) => self.calls().contains_key(voting_id) && c@ == self.calls()[voting_id],
                None => !self.calls().contains_key(voting_id),
            },
    {
        match self.find_calls(voting_id) {
            Some(k) => {
                proof {
                    lemma_calls_map_at(self.contract_calls@, k as int);
                }
                Some(&self.contract_calls[k].1)
            },
            None => None,
        }
    }

    /// The stored votings, by id.
    pub closed spec fn votings(&self) -> Map<VotingId, Voting> {
        Map::new(
            |id: VotingId| self.voting_states.contents().contains_key(id),
            |id: VotingId| self.voting_states.contents()[id]->0,
        )
    }

    /// The ballots, by voting, voting type and voter.
    pub closed spec fn ballot_map(&self) -> Map<(VotingId, VotingType, Address), Ballot> {
        self.ballots.contents()
    }

    /// The voters of a voting of a type, in the order they voted.
    pub closed spec fn voter_list(&self, id: VotingId, ty: VotingType) -> Seq<Address> {
        self.voters.values((id, ty))
    }

    /// The ballots of the voters of a voting of a type, in the order they voted.
    pub open spec fn ballot_list(&self, id: VotingId, ty: VotingType) -> Seq<Ballot> {
        self.voter_list(id, ty).map_values(|a: Address| self.ballot_map()[(id, ty, a)])
    }

    /// Takes out the contract calls kept under `id`; none where none are kept.
    fn take_calls(&mut self, id: VotingId) -> (calls: Vec<VotingCall>)
        requires
            old(self).wf(),
        ensures
            final(self).wf(),
            final(self).voting_states == old(self).voting_states,
            final(self).ballots == old(self).ballots,
            final(self).voters == old(self).voters,
            calls@ == old(self).calls_of(id),
            final(self).calls() == old(self).calls().remove(id),
    {
        match self.find_calls(id) {
            Some(k) => {
                proof {
                    lemma_calls_map_at(self.contract_calls@, k as int);
                    lemma_calls_map_remove(self.contract_calls@, k as int);
                }
                let ghost pre = *self;
                let (_, calls) = self.contract_calls.remove(k);
                proof {
                    assert forall|i: int| 0 <= i < self.contract_calls@.len() implies self.voting_states.contents().contains_key(
                        #[trigger] self.contract_calls@[i].0,
                    ) by {
                        let a = if i < k { i } else { i + 1 };
                        assert(self.contract_calls@[i] == pre.contract_calls@[a]);
                    }
                }
                calls
            },
            None => {
                assert(self.calls() =~= self.calls().remove(id));
                Vec::new()
            },
        }
    }

    /// Creates an engine with no votings.
    pub fn new() -> (engine: Self)
        ensures
            engine.wf(),
            engine.votings() == Map::<VotingId, Voting>::empty(),
            engine.ballot_map() == Map::<(VotingId, VotingType, Address), Ballot>::empty(),
            forall|id: VotingId, ty: VotingType| #[trigger]
                engine.voter_list(id, ty) == Seq::<Address>::empty(),
            engine.calls() == Map::<VotingId, Seq<VotingCall>>::empty(),
    {
        let engine = VotingEngine {
            voting_states: Mapping::new("voting_states".to_owned()),
            ballots: Mapping::new("ballots".to_owned()),
            voters: VecMapping::new("voters".to_owned()),
            contract_calls: Vec::new(),
        };
        assert(engine.calls() =~= Map::<VotingId, Seq<VotingCall>>::empty());
        assert(engine.votings() =~= Map::<VotingId, Voting>::empty());
        assert forall|id: VotingId, ty: VotingType| #[trigger]
            engine.voter_list(id, ty) == Seq::<Address>::empty() by {
            assert(engine.voters.values((id, ty)) == Seq::<Address>::empty());
        }
        engine
    }

    /// Returns the voting with the given id, if any.
    pub fn get_voting(&self, voting_id: VotingId) -> (voting: Option<Voting>)
        requires
            self.wf(),
        ensures
            voting == self.votings().get(voting_id),
    {
        match self.voting_states.get_or_none(&voting_id) {
            Some(state) => state,
            None => None,
        }
    }

    /// Returns the voting with the given id; fails with `VotingDoesNotExist`.
    pub fn get_voting_or_revert(&self, voting_id: VotingId) -> (voting: Result<Voting, Error>)
        requires
            self.wf(),
        ensures
            match voting {
                Ok(v) => self.votings().contains_key(voting_id) && v == self.votings()[voting_id],
                Err(e) => !self.votings().contains_key(voting_id) && e == Error::VotingDoesNotExist,
            },
    {
        match self.get_voting(voting_id) {
            Some(v) => Ok(v),
            None => Err(Error::VotingDoesNotExist),
        }
    }

    /// Stores `voting` under its id.
    pub fn set_voting(&mut self, voting: Voting)
        requires
            old(self).wf(),
        ensures
            final(self).wf(),
            final(self).calls() == old(self).calls(),
            final(self).votings() == old(self).votings().insert(voting.voting_id, voting),
            final(self).ballot_map() == old(self).ballot_map(),
            forall|id: VotingId, ty: VotingType| #[trigger]
                final(self).voter_list(id, ty) == old(self).voter_list(id, ty),
    {
        let ghost pre = *self;
        self.voting_states.set(&voting.voting_id, Some(voting));
        assert(self.votings() =~= pre.votings().insert(voting.voting_id, voting));
    }

    /// Returns the ballot of `address` on the voting of the given id and type.
    pub fn get_ballot(&self, voting_id: VotingId, voting_type: VotingType, address: Address) -> (ballot: Option<Ballot>)
        requires
            self.wf(),
        ensures
            ballot == self.ballot_map().get((voting_id, voting_type, address)),
    {
        self.ballots.get_or_none(&(voting_id, voting_type, address))
    }

    /// Returns the address of the voter at position `at` on the voting of the given id
    /// and type.
    pub fn get_voter(&self, voting_id: VotingId, voting_type: VotingType, at: u32) -> (voter: Option<Address>)
        requires
            self.wf(),
        ensures
            voter == (if at < self.voter_list(voting_id, voting_type).len() {
                Some(self.voter_list(voting_id, voting_type)[at as int])
            } else {
                None::<Address>
            }),
    {
        self.voters.get_or_none((voting_id, voting_type), at)
    }

    /// Returns the ballot at position `i` on the voting of the given id and type; fails
    /// with `VoterDoesNotExist` past the end of the list of voters.
    pub fn get_ballot_at(&self, voting_id: VotingId, voting_type: VotingType, i: u32) -> (ballot: Result<Ballot, Error>)
        requires
            self.wf(),
        ensures
            match ballot {
                Ok(b) => i < self.ballot_list(voting_id, voting_type).len() && b == self.ballot_list(
                    voting_id,
                    voting_type,
                )[i as int],
                Err(e) => i >= self.ballot_list(voting_id, voting_type).len() && e
                    == Error::VoterDoesNotExist,
            },
    {
        let address = match self.get_voter(voting_id, voting_type, i) {
            Some(a) => a,
            None => {
                return Err(Error::VoterDoesNotExist);
            },
        };
        assert(self.ballots.contents().contains_key(
            (voting_id, voting_type, self.voters.values((voting_id, voting_type))[i as int]),
        ));
        match self.get_ballot(voting_id, voting_type, address) {
            Some(b) => Ok(b),
            None => Err(Error::BallotDoesNotExist),
        }
    }

    /// All the voters on the voting of the given id and type, in the order they voted.
    pub fn all_voters(&self, voting_id: VotingId, voting_type: VotingType) -> (voters: Vec<Address>)
        requires
            self.wf(),
        ensures
            voters@ == self.voter_list(voting_id, voting_type),
    {
        self.voters.get_all((voting_id, voting_type))
    }

    /// The lists of voters, by voting and voting type.
    pub fn voters(&self) -> (voters: &VecMapping<(VotingId, VotingType), Address>)
        ensures
            forall|id: VotingId, ty: VotingType| #[trigger] voters.values((id, ty)) == self.voter_list(id, ty),
    {
        &self.voters
    }

    /// The number of voters on the voting of the given id and type.
    pub fn voters_count(&self, voting_id: VotingId, voting_type: VotingType) -> (count: u32)
        requires
            self.wf(),
        ensures
            count == self.voter_list(voting_id, voting_type).len(),
    {
        self.voters.len((voting_id, voting_type))
    }

    /// Whether a voting with the given id exists and is of the given type.
    pub fn voting_exists(&self, voting_id: VotingId, voting_type: VotingType) -> (exists_: bool)
        requires
            self.wf(),
        ensures
            exists_ == (self.votings().contains_key(voting_id)
                && self.votings()[voting_id].spec_voting_type() == voting_type),
    {
        let voting = self.get_voting(voting_id);
        match voting {
            None => false,
            Some(voting) => voting.get_voting_type() == voting_type,
        }
    }

    /// Records a ballot of `voter` on `voting` (which has id `voting_id`): the voter is
    /// listed, the ballot stored, and the stake added to the voting's counter of the
    /// choice, unbound or bound. Returns the ballot and, for a bound ballot on a voting
    /// that stakes reputation, the stake that the reputation token must lock.
    pub fn cast_ballot(
        &mut self,
        voter: Address,
        voting_id: VotingId,
        choice: Choice,
        stake: Uint512,
        unbounded: bool,
        voting: &mut Voting,
    ) -> (cast: (Ballot, Option<ShortenedBallot>))
        requires
            old(self).wf(),
            old(self).voter_list(voting_id, old(voting).spec_voting_type()).len() < u32::MAX,
            stake_fits(*old(voting), stake, choice, unbounded),
        ensures
            final(self).wf(),
            final(self).calls() == old(self).calls(),
            cast.0 == (Ballot {
                voter,
                voting_id,
                voting_type: old(voting).spec_voting_type(),
                choice,
                stake,
                unbounded,
                canceled: false,
            }),
            cast.1 == if !unbounded && !(!old(voting).voting_configuration.informal_stake_reputation
                && old(voting).spec_voting_type() == VotingType::Informal) {
                Some(shortened(cast.0))
            } else {
                None::<ShortenedBallot>
            },
            final(self).votings() == old(self).votings(),
            final(self).ballot_map() == old(self).ballot_map().insert(
                (voting_id, old(voting).spec_voting_type(), voter),
                cast.0,
            ),
            final(self).voter_list(voting_id, old(voting).spec_voting_type()) == old(self).voter_list(voting_id, old(voting).spec_voting_type()).push(voter),
            forall|id: VotingId, ty: VotingType|
                !(id == voting_id && ty == old(voting).spec_voting_type()) ==> #[trigger] final(self).voter_list(id, ty) == old(self).voter_list(id, ty),
            stake_added(*old(voting), *final(voting), stake, choice, unbounded),
    {
        let voting_type = voting.get_voting_type();
        let ballot = Ballot::new(voter, voting_id, voting_type, choice, stake, unbounded, false);
        let lock = if !unbounded && !voting.is_informal_without_stake() {
            Some(ShortenedBallot::from_ballot(&ballot))
        } else {
            None
        };
        let ghost pre = *self;
        self.voters.add((voting_id, voting_type), voter);
        self.ballots.set(&(voting_id, voting_type, voter), ballot);
        assert forall|id: VotingId, ty: VotingType, i: int|
            0 <= i < self.voters.values((id, ty)).len() implies self.ballots.contents().contains_key(
            (id, ty, #[trigger] self.voters.values((id, ty))[i]),
        ) by {
            if id == voting_id && ty == voting_type {
                if i < pre.voters.values((id, ty)).len() {
                    assert(pre.voters.values((id, ty))[i] == self.voters.values((id, ty))[i]);
                }
            } else {
                assert(pre.voters.values((id, ty)) == self.voters.values((id, ty)));
            }
        }
        assert forall|key: (VotingId, VotingType, Address)| #[trigger]
            self.ballots.contents().contains_key(key) implies self.voters.values((key.0, key.1)).contains(key.2) by {
            if key == (voting_id, voting_type, voter) {
                let n = pre.voters.values((voting_id, voting_type)).len() as int;
                assert(self.voters.values((key.0, key.1))[n] == voter);
            } else {
                assert(pre.voters.values((key.0, key.1)).contains(key.2));
                let j = choose|j: int| 0 <= j < pre.voters.values((key.0, key.1)).len()
                    && pre.voters.values((key.0, key.1))[j] == key.2;
                if key.0 == voting_id && key.1 == voting_type {
                    assert(self.voters.values((key.0, key.1))[j] == key.2);
                } else {
                    assert(self.voters.values((key.0, key.1)) == pre.voters.values((key.0, key.1)));
                }
            }
        }
        assert(self.votings() =~= pre.votings());
        if unbounded {
            voting.add_unbounded_stake(stake, choice);
        } else {
            voting.add_stake(stake, choice);
        }
        (ballot, lock)
    }

    /// Casts a bound vote of `voter` on the voting of the given id at `block_time`.
    /// Fails with `VotingDoesNotExist` for an unknown voting, with
    /// `VotingWithGivenTypeNotInProgress` when the voting is of the other type, with the
    /// error of [`Voting::validate_vote`] outside the voting phases, and with
    /// `CannotVoteTwice` when the voter already has a ballot on it.
    pub fn vote(
        &mut self,
        voter: Address,
        voting_id: VotingId,
        voting_type: VotingType,
        choice: Choice,
        stake: Uint512,
        block_time: u64,
    ) -> (cast: Result<(Ballot, Option<ShortenedBallot>), Error>)
        requires
            old(self).wf(),
            old(self).votings().contains_key(voting_id) ==> {
                let v = old(self).votings()[voting_id];
                &&& v.spec_voting_type() == voting_type ==> v.schedule_fits()
                &&& vote_outcome(*old(self), voter, voting_id, voting_type, block_time) is Ok ==> {
                    &&& stake_fits(v, stake, choice, false)
                    &&& old(self).voter_list(voting_id, v.spec_voting_type()).len() < u32::MAX
                }
            },
        ensures
            final(self).wf(),
            final(self).calls() == old(self).calls(),
            forall|x: VotingId| stakes_accounted(*old(self), x) ==> #[trigger] stakes_accounted(*final(self), x),
            match cast {
                Ok((ballot, lock)) => {
                    let v = old(self).votings()[voting_id];
                    &&& vote_outcome(*old(self), voter, voting_id, voting_type, block_time) is Ok
                    &&& ballot == (Ballot {
                        voter,
                        voting_id,
                        voting_type,
                        choice,
                        stake,
                        unbounded: false,
                        canceled: false,
                    })
                    &&& lock == if !(!v.voting_configuration.informal_stake_reputation
                        && voting_type == VotingType::Informal) {
                        Some(shortened(ballot))
                    } else {
                        None::<ShortenedBallot>
                    }
                    &&& final(self).votings().dom() == old(self).votings().dom()
                    &&& stake_added(v, final(self).votings()[voting_id], stake, choice, false)
                    &&& forall|id: VotingId|
                        id != voting_id ==> #[trigger] final(self).votings().get(id) == old(self).votings().get(id)
                    &&& final(self).ballot_map() == old(self).ballot_map().insert(
                        (voting_id, voting_type, voter),
                        ballot,
                    )
                    &&& final(self).voter_list(voting_id, voting_type) == old(self).voter_list(
                        voting_id,
                        voting_type,
                    ).push(voter)
                    &&& forall|id: VotingId, ty: VotingType|
                        !(id == voting_id && ty == voting_type) ==> #[trigger] final(self).voter_list(id, ty) == old(self).voter_list(id, ty)
                },
                Err(e) => {
                    &&& vote_outcome(*old(self), voter, voting_id, voting_type, block_time) == Err::<(), Error>(e)
                    &&& final(self).votings() == old(self).votings()
                    &&& final(self).ballot_map() == old(self).ballot_map()
                    &&& forall|id: VotingId, ty: VotingType| #[trigger]
                        final(self).voter_list(id, ty) == old(self).voter_list(id, ty)
                },
            },
    {
        let mut voting = self.get_voting_or_revert(voting_id)?;
        let cast = match self.cast_vote(voter, voting_type, choice, stake, &mut voting, block_time) {
            Ok(c) => c,
            Err(e) => {
                assert forall|x: VotingId| stakes_accounted(*old(self), x) implies #[trigger] stakes_accounted(*self, x) by {
                    assert(self.votings() == old(self).votings());
                }
                return Err(e);
            },
        };
        let ghost mid = *self;
        self.set_voting(voting);
        assert forall|id: VotingId|
            id != voting_id implies #[trigger] self.votings().get(id) == old(self).votings().get(
            id,
        ) by {
            assert(mid.votings() == old(self).votings());
        }
        assert(self.votings().dom() =~= old(self).votings().dom());
        proof {
            Self::lemma_new_ballot_keeps_accounting(*old(self), *self, voting_id, cast.0);
        }
        Ok(cast)
    }

    fn cast_vote(
        &mut self,
        voter: Address,
        voting_type: VotingType,
        choice: Choice,
        stake: Uint512,
        voting: &mut Voting,
        block_time: u64,
    ) -> (cast: Result<(Ballot, Option<ShortenedBallot>), Error>)
        requires
            old(self).wf(),
            old(self).votings().contains_key(old(voting).voting_id),
            old(voting).spec_voting_type() == voting_type ==> old(voting).schedule_fits(),
            vote_check(*old(voting), old(self).ballot_map(), voter, voting_type, block_time) is Ok ==> {
                &&& stake_fits(*old(voting), stake, choice, false)
                &&& old(self).voter_list(old(voting).voting_id, old(voting).spec_voting_type()).len()
                    < u32::MAX
            },
        ensures
            final(self).wf(),
            final(self).calls() == old(self).calls(),
            final(voting).voting_id == old(voting).voting_id,
            match cast {
                Ok((ballot, lock)) => {
                    &&& vote_check(*old(voting), old(self).ballot_map(), voter, voting_type, block_time) is Ok
                    &&& ballot == (Ballot {
                        voter,
                        voting_id: old(voting).voting_id,
                        voting_type,
                        choice,
                        stake,
                        unbounded: false,
                        canceled: false,
                    })
                    &&& lock == if !(!old(voting).voting_configuration.informal_stake_reputation
                        && voting_type == VotingType::Informal) {
                        Some(shortened(ballot))
                    } else {
                        None::<ShortenedBallot>
                    }
                    &&& final(self).votings() == old(self).votings()
                    &&& stake_added(*old(voting), *final(voting), stake, choice, false)
                    &&& final(self).ballot_map() == old(self).ballot_map().insert(
                        (old(voting).voting_id, voting_type, voter),
                        ballot,
                    )
                    &&& final(self).voter_list(old(voting).voting_id, voting_type) == old(self).voter_list(old(voting).voting_id, voting_type).push(voter)
                    &&& forall|id: VotingId, ty: VotingType|
                        !(id == old(voting).voting_id && ty == voting_type) ==> #[trigger] final(self).voter_list(id, ty) == old(self).voter_list(id, ty)
                },
                Err(e) => {
                    &&& vote_check(*old(voting), old(self).ballot_map(), voter, voting_type, block_time) == Err::<(), Error>(e)
                    &&& *final(self) == *old(self)
                },
            },
    {
        let voting_id = voting.voting_id();
        if voting.get_voting_type() != voting_type {
            return Err(Error::VotingWithGivenTypeNotInProgress);
        }
        if voting.completed() {
            return Err(Error::VoteOnCompletedVotingNotAllowed);
        }
        voting.validate_vote(block_time)?;
        if self.ballots.get(&(voting_id, voting_type, voter)).is_some() {
            return Err(Error::CannotVoteTwice);
        }
        Ok(self.cast_ballot(voter, voting_id, choice, stake, false, voting))
    }

    /// The shortened ballots of the voting of the given id and type that `selection`
    /// picks, in the order of the voters.
    fn select_ballots(&self, voting_id: VotingId, voting_type: VotingType, selection: Selection) -> (selected: Vec<ShortenedBallot>)
        requires
            self.wf(),
        ensures
            selected@ == selected_ballots(self.ballot_list(voting_id, voting_type), selection),
            self.voter_list(voting_id, voting_type).no_duplicates() ==> voters_distinct(selected@),
    {
        let ghost bl = self.ballot_list(voting_id, voting_type);
        let len = self.voters.len((voting_id, voting_type));
        let mut result: Vec<ShortenedBallot> = Vec::new();
        let mut i: u32 = 0;
        while i < len
            invariant
                self.wf(),
                bl == self.ballot_list(voting_id, voting_type),
                len == bl.len(),
                i <= len,
                result@ == selected_ballots(bl.take(i as int), selection),
            decreases len - i,
        {
            let ballot = match self.get_ballot_at(voting_id, voting_type, i) {
                Ok(b) => b,
                Err(_) => {
                    assert(false);
                    return result;
                },
            };
            proof {
                lemma_selected_step(bl, i as int, selection);
            }
            if selection.picks(&ballot) {
                result.push(ShortenedBallot::from_ballot(&ballot));
            }
            i = i + 1;
        }
        assert(bl.take(len as int) =~= bl);
        proof {
            if self.voter_list(voting_id, voting_type).no_duplicates() {
                self.lemma_ballot_voters_distinct(voting_id, voting_type);
                lemma_selected_voters_distinct(bl, selection);
            }
        }
        result
    }

    /// The bound ballots in favor on the voting of the given id and type: their stake
    /// goes back to the voters (the reputation token unlocks it).
    pub fn return_yes_voters_rep(&self, voting_id: VotingId, voting_type: VotingType) -> (returned: Vec<ShortenedBallot>)
        requires
            self.wf(),
        ensures
            returned@ == selected_ballots(
                self.ballot_list(voting_id, voting_type),
                Selection::BoundInFavor,
            ),
            self.voter_list(voting_id, voting_type).no_duplicates() ==> voters_distinct(returned@),
    {
        self.select_ballots(voting_id, voting_type, Selection::BoundInFavor)
    }

    /// The bound ballots against on the voting of the given id and type: their stake
    /// goes back to the voters (the reputation token unlocks it).
    pub fn return_no_voters_rep(&self, voting_id: VotingId, voting_type: VotingType) -> (returned: Vec<ShortenedBallot>)
        requires
            self.wf(),
        ensures
            returned@ == selected_ballots(
                self.ballot_list(voting_id, voting_type),
                Selection::BoundAgainst,
            ),
            self.voter_list(voting_id, voting_type).no_duplicates() ==> voters_distinct(returned@),
    {
        self.select_ballots(voting_id, voting_type, Selection::BoundAgainst)
    }

    /// The bound ballots that were not canceled on the voting of the given id and type:
    /// all their stake is unlocked.
    pub fn unstake_all_reputation(&self, voting_id: VotingId, voting_type: VotingType) -> (unstaked: Vec<ShortenedBallot>)
        requires
            self.wf(),
        ensures
            unstaked@ == selected_ballots(
                self.ballot_list(voting_id, voting_type),
                Selection::BoundActive,
            ),
            self.voter_list(voting_id, voting_type).no_duplicates() ==> voters_distinct(unstaked@),
    {
        self.select_ballots(voting_id, voting_type, Selection::BoundActive)
    }

    /// Redistributes the reputation of the losing side of the voting with the given id
    /// (its counters are read from the stored voting): the bound ballots of the losing
    /// side are burned (their stake is unlocked and burned), and each bound ballot of
    /// the winning side gets `losing total * stake / winning total` minted.
    fn redistribute(&self, voting_id: VotingId, voting_type: VotingType, losing: Choice) -> (outcome: Result<(Vec<(Address, Uint512)>, Vec<ShortenedBallot>), Error>)
        requires
            self.wf(),
            self.votings().contains_key(voting_id) ==> redistribution_defined(
                self.votings()[voting_id],
                self.ballot_list(voting_id, voting_type),
                losing,
            ),
        ensures
            match outcome {
                Ok((mints, burns)) => {
                    &&& self.votings().contains_key(voting_id)
                    &&& !mint_overflows(self.votings()[voting_id], self.ballot_list(voting_id, voting_type), losing)
                    &&& burns@ == selected_ballots(
                        self.ballot_list(voting_id, voting_type),
                        losing_selection(losing),
                    )
                    &&& mints_match(
                        mints@,
                        bound_ballots_of(self.ballot_list(voting_id, voting_type), other_choice(losing)),
                        total_of(self.votings()[voting_id], losing),
                        total_of(self.votings()[voting_id], other_choice(losing)),
                    )
                    &&& self.voter_list(voting_id, voting_type).no_duplicates() ==> voters_distinct(burns@)
                        && mint_addresses_distinct(mints@)
                },
                Err(e) => e == if !self.votings().contains_key(voting_id) {
                    Error::VotingDoesNotExist
                } else {
                    Error::ArithmeticOverflow
                } && (self.votings().contains_key(voting_id) ==> mint_overflows(
                    self.votings()[voting_id],
                    self.ballot_list(voting_id, voting_type),
                    losing,
                )),
            },
    {
        let voting = self.get_voting_or_revert(voting_id)?;
        let total_stake_in_favor = voting.stake_in_favor();
        let total_stake_against = voting.stake_against();
        let (losing_total, winning_total) = match losing {
            Choice::Against => (total_stake_against, total_stake_in_favor),
            Choice::InFavor => (total_stake_in_favor, total_stake_against),
        };
        let ghost bl = self.ballot_list(voting_id, voting_type);
        let ghost winning = other_choice(losing);
        let len = self.voters.len((voting_id, voting_type));
        let mut burns: Vec<ShortenedBallot> = Vec::new();
        let mut mints: Vec<(Address, Uint512)> = Vec::new();
        let mut i: u32 = 0;
        while i < len
            invariant
                self.wf(),
                bl == self.ballot_list(voting_id, voting_type),
                len == bl.len(),
                i <= len,
                self.votings().contains_key(voting_id),
                voting == self.votings()[voting_id],
                redistribution_defined(voting, bl, losing),
                losing_total@ == total_of(voting, losing),
                winning_total@ == total_of(voting, winning),
                winning == other_choice(losing),
                !mint_overflows(voting, bl.take(i as int), losing),
                burns@ == selected_ballots(bl.take(i as int), losing_selection(losing)),
                mints_match(mints@, bound_ballots_of(bl.take(i as int), winning), losing_total@, winning_total@),
            decreases len - i,
        {
            let ballot = match self.get_ballot_at(voting_id, voting_type, i) {
                Ok(b) => b,
                Err(_) => {
                    assert(false);
                    return Err(Error::BallotDoesNotExist);
                },
            };
            proof {
                lemma_selected_step(bl, i as int, losing_selection(losing));
                lemma_filter_step(bl, i as int, |b: Ballot| b.choice == winning && !b.unbounded);
                assert(bl[i as int] == ballot);
            }
            if ballot.unbounded {
            } else if ballot.choice.is_in_favor() == (losing == Choice::InFavor) {
                burns.push(ShortenedBallot::from_ballot(&ballot));
            } else {
                assert(is_winner(bl[i as int], losing));
                let product = match losing_total.checked_mul(ballot.stake) {
                    Some(p) => p,
                    None => {
                        assert(mint_overflows(voting, bl, losing));
                        return Err(Error::ArithmeticOverflow);
                    },
                };
                let amount_to_mint = product.div(winning_total);
                mints.push((ballot.voter, amount_to_mint));
            }
            proof {
                let t1 = bl.take(i + 1);
                if mint_overflows(voting, t1, losing) {
                    let j = choose|j: int| 0 <= j < t1.len() && #[trigger] is_winner(t1[j], losing)
                        && total_of(voting, losing) * t1[j].stake@ >= u512_modulus();
                    if j < i {
                        assert(bl.take(i as int)[j] == t1[j]);
                        assert(mint_overflows(voting, bl.take(i as int), losing));
                    } else {
                        assert(t1[j] == ballot);
                    }
                }
            }
            i = i + 1;
        }
        assert(bl.take(len as int) =~= bl);
        proof {
            if self.voter_list(voting_id, voting_type).no_duplicates() {
                self.lemma_ballot_voters_distinct(voting_id, voting_type);
                lemma_selected_voters_distinct(bl, losing_selection(losing));
                lemma_filter_voters_distinct(bl, |b: Ballot| b.choice == winning && !b.unbounded);
                let w = bound_ballots_of(bl, winning);
                assert forall|i: int, j: int| 0 <= i < j < mints@.len() implies #[trigger] mints@[i].0
                    != #[trigger] mints@[j].0 by {
                    assert(mints@[i].0 == w[i].voter && mints@[j].0 == w[j].voter);
                }
            }
        }
        Ok((mints, burns))
    }

    /// After a voting passed: the bound ballots against are burned, and the bound
    /// ballots in favor get the stake against minted in proportion to their stake.
    /// Returns `(mints, burns)`.
    pub fn redistribute_reputation_of_no_voters(&self, voting_id: VotingId, voting_type: VotingType) -> (outcome: Result<(Vec<(Address, Uint512)>, Vec<ShortenedBallot>), Error>)
        requires
            self.wf(),
            self.votings().contains_key(voting_id) ==> redistribution_defined(
                self.votings()[voting_id],
                self.ballot_list(voting_id, voting_type),
                Choice::Against,
            ),
        ensures
            match outcome {
                Ok((mints, burns)) => {
                    &&& self.votings().contains_key(voting_id)
                    &&& !mint_overflows(self.votings()[voting_id], self.ballot_list(voting_id, voting_type), Choice::Against)
                    &&& burns@ == selected_ballots(
                        self.ballot_list(voting_id, voting_type),
                        Selection::BoundAgainst,
                    )
                    &&& mints_match(
                        mints@,
                        bound_ballots_of(self.ballot_list(voting_id, voting_type), Choice::InFavor),
                        self.votings()[voting_id].stake_against@,
                        self.votings()[voting_id].stake_in_favor@,
                    )
                    &&& self.voter_list(voting_id, voting_type).no_duplicates() ==> voters_distinct(burns@)
                        && mint_addresses_distinct(mints@)
                },
                Err(e) => e == if !self.votings().contains_key(voting_id) {
                    Error::VotingDoesNotExist
                } else {
                    Error::ArithmeticOverflow
                } && (self.votings().contains_key(voting_id) ==> mint_overflows(
                    self.votings()[voting_id],
                    self.ballot_list(voting_id, voting_type),
                    Choice::Against,
                )),
            },
    {
        self.redistribute(voting_id, voting_type, Choice::Against)
    }

    /// After a voting failed: the bound ballots in favor are burned, and the bound
    /// ballots against get the stake in favor minted in proportion to their stake.
    /// Returns `(mints, burns)`.
    pub fn redistribute_reputation_of_yes_voters(&self, voting_id: VotingId, voting_type: VotingType) -> (outcome: Result<(Vec<(Address, Uint512)>, Vec<ShortenedBallot>), Error>)
        requires
            self.wf(),
            self.votings().contains_key(voting_id) ==> redistribution_defined(
                self.votings()[voting_id],
                self.ballot_list(voting_id, voting_type),
                Choice::InFavor,
            ),
        ensures
            match outcome {
                Ok((mints, burns)) => {
                    &&& self.votings().contains_key(voting_id)
                    &&& !mint_overflows(self.votings()[voting_id], self.ballot_list(voting_id, voting_type), Choice::InFavor)
                    &&& burns@ == selected_ballots(
                        self.ballot_list(voting_id, voting_type),
                        Selection::BoundInFavor,
                    )
                    &&& mints_match(
                        mints@,
                        bound_ballots_of(self.ballot_list(voting_id, voting_type), Choice::Against),
                        self.votings()[voting_id].stake_in_favor@,
                        self.votings()[voting_id].stake_against@,
                    )
                    &&& self.voter_list(voting_id, voting_type).no_duplicates() ==> voters_distinct(burns@)
                        && mint_addresses_distinct(mints@)
                },
                Err(e) => e == if !self.votings().contains_key(voting_id) {
                    Error::VotingDoesNotExist
                } else {
                    Error::ArithmeticOverflow
                } && (self.votings().contains_key(voting_id) ==> mint_overflows(
                    self.votings()[voting_id],
                    self.ballot_list(voting_id, voting_type),
                    Choice::InFavor,
                )),
            },
    {
        self.redistribute(voting_id, voting_type, Choice::InFavor)
    }

    /// Turns the unbound ballot of `worker` into a bound one: its stake moves from the
    /// voting's unbound counter to its bound counter, and the reputation token mints the
    /// stake to the worker and locks it. Returns what is minted and locked. Fails with
    /// `BallotDoesNotExist` or `VotingDoesNotExist`.
    pub fn bound_ballot(&mut self, voting_id: VotingId, worker: Address, voting_type: VotingType) -> (bound: Result<ShortenedBallot, Error>)
        requires
            old(self).wf(),
            old(self).ballot_map().contains_key((voting_id, voting_type, worker)) && old(
                self,
            ).votings().contains_key(voting_id) ==> {
                let b = old(self).ballot_map()[(voting_id, voting_type, worker)];
                let v = old(self).votings()[voting_id];
                stake_removable(v, b.stake, b.choice, true) && stake_fits(v, b.stake, b.choice, false)
            },
        ensures
            final(self).wf(),
            final(self).calls() == old(self).calls(),
            forall|x: VotingId| stakes_accounted(*old(self), x) && (bound is Ok ==> {
                let b = old(self).ballot_map()[(voting_id, voting_type, worker)];
                &&& b.unbounded
                &&& !b.canceled
                &&& old(self).votings()[voting_id].spec_voting_type() == voting_type
            }) ==> #[trigger] stakes_accounted(*final(self), x),
            match bound {
                Ok(short) => {
                    let b = old(self).ballot_map()[(voting_id, voting_type, worker)];
                    let v = old(self).votings()[voting_id];
                    &&& old(self).ballot_map().contains_key((voting_id, voting_type, worker))
                    &&& old(self).votings().contains_key(voting_id)
                    &&& short == shortened(b)
                    &&& final(self).ballot_map() == old(self).ballot_map().insert(
                        (voting_id, voting_type, worker),
                        Ballot { unbounded: false, ..b },
                    )
                    &&& final(self).votings().dom() == old(self).votings().dom()
                    &&& forall|id: VotingId| id != voting_id ==> #[trigger] final(self).votings().get(id) == old(self).votings().get(id)
                    &&& exists|mid: Voting|
                        stake_added(mid, v, b.stake, b.choice, true) && stake_added(
                            mid,
                            final(self).votings()[voting_id],
                            b.stake,
                            b.choice,
                            false,
                        )
                },
                Err(e) => {
                    &&& e == if !old(self).ballot_map().contains_key((voting_id, voting_type, worker)) {
                        Error::BallotDoesNotExist
                    } else {
                        Error::VotingDoesNotExist
                    }
                    &&& !(old(self).ballot_map().contains_key((voting_id, voting_type, worker)) && old(self).votings().contains_key(voting_id))
                    &&& final(self).votings() == old(self).votings()
                    &&& final(self).ballot_map() == old(self).ballot_map()
                },
            },
            forall|id: VotingId, ty: VotingType| #[trigger]
                final(self).voter_list(id, ty) == old(self).voter_list(id, ty),
    {
        let mut ballot = match self.get_ballot(voting_id, voting_type, worker) {
            Some(b) => b,
            None => {
                return Err(Error::BallotDoesNotExist);
            },
        };
        let mut voting = self.get_voting_or_revert(voting_id)?;
        let ghost v0 = voting;
        voting.bound_stake(ballot.stake, ballot.choice);
        let ghost mid = *self;
        self.set_voting(voting);
        let short = ShortenedBallot::from_ballot(&ballot);
        ballot.unbounded = false;
        let ghost pre = *self;
        self.ballots.set(&(voting_id, voting_type, worker), ballot);
        assert(self.votings() =~= pre.votings());
        assert forall|id: VotingId, ty: VotingType, i: int|
            0 <= i < self.voters.values((id, ty)).len() implies self.ballots.contents().contains_key(
            (id, ty, #[trigger] self.voters.values((id, ty))[i]),
        ) by {
            assert(pre.voters.values((id, ty)) == self.voters.values((id, ty)));
        }
        assert(self.votings().dom() =~= old(self).votings().dom());
        assert forall|id: VotingId| id != voting_id implies #[trigger] self.votings().get(id) == old(self).votings().get(id) by {
            assert(mid.votings() == old(self).votings());
        }
        assert forall|id: VotingId, ty: VotingType| #[trigger]
            self.voter_list(id, ty) == old(self).voter_list(id, ty) by {
            assert(pre.voter_list(id, ty) == old(self).voter_list(id, ty));
        }
        proof {
            let b0 = old(self).ballot_map()[(voting_id, voting_type, worker)];
            if b0.unbounded && !b0.canceled && v0.spec_voting_type() == voting_type {
                let m = choose|mid: Voting|
                    stake_added(mid, v0, b0.stake, b0.choice, true) && stake_added(
                        mid,
                        self.votings()[voting_id],
                        b0.stake,
                        b0.choice,
                        false,
                    );
                assert(self.votings()[voting_id].spec_voting_type() == voting_type);
                assert forall|c: Choice, u: bool| #[trigger] stake_counter(self.votings()[voting_id], c, u)
                    + contribution(b0, c, u)
                    == stake_counter(v0, c, u) + contribution(ballot, c, u) by {
                    assert(stake_added(m, v0, b0.stake, b0.choice, true));
                }
                Self::lemma_replaced_ballot_keeps_accounting(*old(self), *self, voting_id, voting_type, worker, ballot);
            }
        }
        Ok(short)
    }

    /// Slashes `voter` on the voting with the given id: the voting is canceled when
    /// the voter created it, otherwise the voter's ballot is canceled. Fails with
    /// `VotingDoesNotExist`, or with `BallotDoesNotExist` when the voter has no ballot.
    pub fn slash_voter(&mut self, voter: Address, voting_id: VotingId) -> (slashed: Result<Slashed, Error>)
        requires
            old(self).wf(),
            old(self).votings().contains_key(voting_id) ==> {
                let v = old(self).votings()[voting_id];
                let key = (voting_id, v.spec_voting_type(), voter);
                voter != v.creator && old(self).ballot_map().contains_key(key) ==> {
                    let b = old(self).ballot_map()[key];
                    stake_removable(v, b.stake, b.choice, b.unbounded)
                }
            },
        ensures
            final(self).wf(),
            final(self).calls() == old(self).calls(),
            forall|x: VotingId| stakes_accounted(*old(self), x) && (slashed matches Ok(Slashed::BallotCanceled(b)) ==> !b.canceled) ==> #[trigger] stakes_accounted(*final(self), x),
            forall|id: VotingId, ty: VotingType| #[trigger]
                final(self).voter_list(id, ty) == old(self).voter_list(id, ty),
            match slashed {
                Ok(Slashed::VotingCanceled(unstaked)) => {
                    let v = old(self).votings()[voting_id];
                    &&& old(self).votings().contains_key(voting_id)
                    &&& voter == v.creator
                    &&& unstaked@ == selected_ballots(
                        old(self).ballot_list(voting_id, v.spec_voting_type()),
                        Selection::BoundActive,
                    )
                    &&& final(self).votings() == old(self).votings().insert(
                        voting_id,
                        Voting { is_canceled: true, ..v },
                    )
                    &&& final(self).ballot_map() == old(self).ballot_map()
                },
                Ok(Slashed::BallotCanceled(ballot)) => {
                    let v = old(self).votings()[voting_id];
                    let key = (voting_id, v.spec_voting_type(), voter);
                    &&& old(self).votings().contains_key(voting_id)
                    &&& voter != v.creator
                    &&& old(self).ballot_map().contains_key(key)
                    &&& ballot == old(self).ballot_map()[key]
                    &&& final(self).ballot_map() == old(self).ballot_map().insert(
                        key,
                        Ballot { canceled: true, ..ballot },
                    )
                    &&& final(self).votings().dom() == old(self).votings().dom()
                    &&& forall|id: VotingId| id != voting_id ==> #[trigger] final(self).votings().get(id) == old(self).votings().get(id)
                    &&& stake_added(
                        final(self).votings()[voting_id],
                        v,
                        ballot.stake,
                        ballot.choice,
                        ballot.unbounded,
                    )
                },
                Err(e) => {
                    &&& final(self).votings() == old(self).votings()
                    &&& final(self).ballot_map() == old(self).ballot_map()
                    &&& e == if !old(self).votings().contains_key(voting_id) {
                        Error::VotingDoesNotExist
                    } else {
                        Error::BallotDoesNotExist
                    }
                    &&& old(self).votings().contains_key(voting_id) ==> {
                        let v = old(self).votings()[voting_id];
                        voter != v.creator && !old(self).ballot_map().contains_key(
                            (voting_id, v.spec_voting_type(), voter),
                        )
                    }
                },
            },
    {
        let voting = self.get_voting_or_revert(voting_id)?;
        if voter.key_eq(voting.creator()) {
            let unstaked = self.cancel_voting(voting);
            Ok(Slashed::VotingCanceled(unstaked))
        } else {
            let ballot = self.cancel_ballot(voting, voter)?;
            Ok(Slashed::BallotCanceled(ballot))
        }
    }

    fn cancel_voting(&mut self, voting: Voting) -> (unstaked: Vec<ShortenedBallot>)
        requires
            old(self).wf(),
            old(self).votings().contains_key(voting.voting_id),
            old(self).votings()[voting.voting_id] == voting,
        ensures
            final(self).wf(),
            final(self).calls() == old(self).calls(),
            forall|x: VotingId| stakes_accounted(*old(self), x) ==> #[trigger] stakes_accounted(*final(self), x),
            unstaked@ == selected_ballots(
                old(self).ballot_list(voting.voting_id, voting.spec_voting_type()),
                Selection::BoundActive,
            ),
            final(self).votings() == old(self).votings().insert(
                voting.voting_id,
                Voting { is_canceled: true, ..voting },
            ),
            final(self).ballot_map() == old(self).ballot_map(),
            forall|id: VotingId, ty: VotingType| #[trigger]
                final(self).voter_list(id, ty) == old(self).voter_list(id, ty),
    {
        let mut voting = voting;
        let voting_id = voting.voting_id();
        let voting_type = voting.get_voting_type();
        let unstakes = self.unstake_all_reputation(voting_id, voting_type);
        voting.cancel();
        self.set_voting(voting);
        assert forall|x: VotingId| stakes_accounted(*old(self), x) implies #[trigger] stakes_accounted(*self, x) by {
            if self.votings().contains_key(x) {
                let ty2 = old(self).votings()[x].spec_voting_type();
                assert(self.votings()[x].spec_voting_type() == ty2);
                assert(self.voter_list(x, ty2) == old(self).voter_list(x, ty2));
                assert(self.ballot_list(x, ty2) =~= old(self).ballot_list(x, ty2));
                assert forall|c: Choice, u: bool| #[trigger] stake_counter(self.votings()[x], c, u)
                    == stake_counter(old(self).votings()[x], c, u) by {
                }
            }
        }
        unstakes
    }

    fn cancel_ballot(&mut self, voting: Voting, voter: Address) -> (canceled: Result<Ballot, Error>)
        requires
            old(self).wf(),
            old(self).votings().contains_key(voting.voting_id),
            old(self).votings()[voting.voting_id] == voting,
            old(self).ballot_map().contains_key((voting.voting_id, voting.spec_voting_type(), voter)) ==> {
                let b = old(self).ballot_map()[(voting.voting_id, voting.spec_voting_type(), voter)];
                stake_removable(voting, b.stake, b.choice, b.unbounded)
            },
        ensures
            final(self).wf(),
            final(self).calls() == old(self).calls(),
            forall|x: VotingId| stakes_accounted(*old(self), x) && (canceled matches Ok(b) ==> !b.canceled) ==> #[trigger] stakes_accounted(*final(self), x),
            forall|id: VotingId, ty: VotingType| #[trigger]
                final(self).voter_list(id, ty) == old(self).voter_list(id, ty),
            match canceled {
                Ok(ballot) => {
                    let key = (voting.voting_id, voting.spec_voting_type(), voter);
                    &&& old(self).ballot_map().contains_key(key)
                    &&& ballot == old(self).ballot_map()[key]
                    &&& final(self).ballot_map() == old(self).ballot_map().insert(
                        key,
                        Ballot { canceled: true, ..ballot },
                    )
                    &&& final(self).votings().dom() == old(self).votings().dom()
                    &&& forall|id: VotingId| id != voting.voting_id ==> #[trigger] final(self).votings().get(id) == old(self).votings().get(id)
                    &&& stake_added(
                        final(self).votings()[voting.voting_id],
                        voting,
                        ballot.stake,
                        ballot.choice,
                        ballot.unbounded,
                    )
                },
                Err(e) => {
                    &&& e == Error::BallotDoesNotExist
                    &&& !old(self).ballot_map().contains_key((voting.voting_id, voting.spec_voting_type(), voter))
                    &&& final(self).votings() == old(self).votings()
                    &&& final(self).ballot_map() == old(self).ballot_map()
                },
            },
    {
        let mut voting = voting;
        let voting_id = voting.voting_id();
        let ballots_key = (voting_id, voting.get_voting_type(), voter);
        let mut ballot = match self.ballots.get(&ballots_key) {
            Some(b) => b,
            None => {
                return Err(Error::BallotDoesNotExist);
            },
        };
        let found = ballot;
        if ballot.unbounded {
            voting.remove_unbounded_stake(ballot.stake, ballot.choice);
        } else {
            voting.remove_stake(ballot.stake, ballot.choice);
        }
        let ghost mid = *self;
        self.set_voting(voting);
        ballot.canceled = true;
        let ghost pre = *self;
        self.ballots.set(&ballots_key, ballot);
        assert(self.votings() =~= pre.votings());
        assert forall|id: VotingId, ty: VotingType, i: int|
            0 <= i < self.voters.values((id, ty)).len() implies self.ballots.contents().contains_key(
            (id, ty, #[trigger] self.voters.values((id, ty))[i]),
        ) by {
            assert(pre.voters.values((id, ty)) == self.voters.values((id, ty)));
        }
        assert(self.votings().dom() =~= old(self).votings().dom());
        assert forall|id: VotingId| id != voting_id implies #[trigger] self.votings().get(id) == old(self).votings().get(id) by {
            assert(mid.votings() == old(self).votings());
        }
        assert forall|id: VotingId, ty: VotingType| #[trigger]
            self.voter_list(id, ty) == old(self).voter_list(id, ty) by {
            assert(pre.voter_list(id, ty) == old(self).voter_list(id, ty));
        }
        proof {
            if !found.canceled {
                let ty = voting.spec_voting_type();
                assert(self.votings()[voting_id].spec_voting_type() == ty);
                assert forall|c: Choice, u: bool| #[trigger] stake_counter(self.votings()[voting_id], c, u)
                    + contribution(old(self).ballot_map()[(voting_id, ty, voter)], c, u)
                    == stake_counter(old(self).votings()[voting_id], c, u) + contribution(ballot, c, u) by {
                }
                Self::lemma_replaced_ballot_keeps_accounting(*old(self), *self, voting_id, ty, voter, ballot);
            }
        }
        Ok(found)
    }

    /// Casts the creator's ballot of the informal voting that `voting` follows again on
    /// `voting`, in favor, with the same stake and kind. Fails with
    /// `BallotDoesNotExist` when the creator has no ballot on that informal voting.
    pub fn recast_creators_ballot_from_informal_to_formal(&mut self, voting: &mut Voting) -> (recast: Result<(Ballot, Option<ShortenedBallot>), Error>)
        requires
            old(self).wf(),
            old(self).ballot_map().contains_key((old(voting).informal_voting_id, VotingType::Informal, old(voting).creator)) ==> {
                let b = old(self).ballot_map()[(old(voting).informal_voting_id, VotingType::Informal, old(voting).creator)];
                &&& old(self).voter_list(old(voting).voting_id, old(voting).spec_voting_type()).len() < u32::MAX
                &&& stake_fits(*old(voting), b.stake, Choice::InFavor, b.unbounded)
            },
        ensures
            final(self).wf(),
            final(self).calls() == old(self).calls(),
            match recast {
                Ok((ballot, lock)) => {
                    let b = old(self).ballot_map()[(old(voting).informal_voting_id, VotingType::Informal, old(voting).creator)];
                    &&& old(self).ballot_map().contains_key((old(voting).informal_voting_id, VotingType::Informal, old(voting).creator))
                    &&& ballot == (Ballot {
                        voter: old(voting).creator,
                        voting_id: old(voting).voting_id,
                        voting_type: old(voting).spec_voting_type(),
                        choice: Choice::InFavor,
                        stake: b.stake,
                        unbounded: b.unbounded,
                        canceled: false,
                    })
                    &&& lock == if !b.unbounded && !(!old(voting).voting_configuration.informal_stake_reputation
                        && old(voting).spec_voting_type() == VotingType::Informal) {
                        Some(shortened(ballot))
                    } else {
                        None::<ShortenedBallot>
                    }
                    &&& final(self).votings() == old(self).votings()
                    &&& final(self).ballot_map() == old(self).ballot_map().insert(
                        (old(voting).voting_id, old(voting).spec_voting_type(), old(voting).creator),
                        ballot,
                    )
                    &&& final(self).voter_list(old(voting).voting_id, old(voting).spec_voting_type()) == old(self).voter_list(old(voting).voting_id, old(voting).spec_voting_type()).push(old(voting).creator)
                    &&& forall|id: VotingId, ty: VotingType|
                        !(id == old(voting).voting_id && ty == old(voting).spec_voting_type()) ==> #[trigger] final(self).voter_list(id, ty) == old(self).voter_list(id, ty)
                    &&& stake_added(*old(voting), *final(voting), b.stake, Choice::InFavor, b.unbounded)
                },
                Err(e) => {
                    &&& e == Error::BallotDoesNotExist
                    &&& !old(self).ballot_map().contains_key((old(voting).informal_voting_id, VotingType::Informal, old(voting).creator))
                    &&& *final(self) == *old(self)
                    &&& *final(voting) == *old(voting)
                },
            },
    {
        let voting_id = voting.voting_id();
        let creator = *voting.creator();
        let creator_ballot = match self.get_ballot(voting.informal_voting_id(), VotingType::Informal, creator) {
            Some(b) => b,
            None => {
                return Err(Error::BallotDoesNotExist);
            },
        };
        Ok(self.cast_ballot(
            creator,
            voting_id,
            Choice::InFavor,
            creator_ballot.stake,
            creator_ballot.unbounded,
            voting,
        ))
    }

    /// The summary of the voting with the given id: its result for the number of its
    /// voters, and its type. Fails with `VotingDoesNotExist`.
    pub fn summary(&self, voting_id: VotingId) -> (summary: Result<VotingSummary, Error>)
        requires
            self.wf(),
        ensures
            match summary {
                Ok(s) => {
                    let v = self.votings()[voting_id];
                    &&& self.votings().contains_key(voting_id)
                    &&& s.result == v.spec_result(self.voter_list(voting_id, v.spec_voting_type()).len() as u32)
                    &&& s.ty == v.spec_voting_type()
                    &&& s.informal_voting_id == v.informal_voting_id
                    &&& s.formal_voting_id == v.formal_voting_id
                },
                Err(e) => !self.votings().contains_key(voting_id) && e == Error::VotingDoesNotExist,
            },
    {
        let voting = self.get_voting_or_revert(voting_id)?;
        let voters_len = self.voters.len((voting.voting_id(), voting.get_voting_type()));
        Ok(VotingSummary::new(
            voting.get_result(voters_len),
            voting.get_voting_type(),
            voting.informal_voting_id(),
            voting.formal_voting_id(),
        ))
    }

    /// Creates a new informal voting with id `voting_id`, starting at `block_time`, with
    /// a copy of `configuration`. When only VA token holders may create votings and the
    /// creator holds none, fails with `NotEnoughReputation`; an id in use is refused with
    /// `VotingIdInUse`. The voting keeps `contract_calls`, the calls it makes when it
    /// passes. When the first vote is to be cast,
    /// the creator's ballot in favor with `stake` is cast on it (and fails as a vote
    /// fails). Returns what the creation event reports.
    pub fn create_voting(
        &mut self,
        creator: Address,
        stake: Uint512,
        configuration: DaoConfiguration,
        creation: CreationRules,
        voting_id: VotingId,
        block_time: u64,
        contract_calls: Vec<VotingCall>,
    ) -> (created: Result<(VotingCreatedInfo, Option<ShortenedBallot>), Error>)
        requires
            old(self).wf(),
            creation.should_cast_first_vote ==> block_time + configuration.informal_voting_time
                + configuration.time_between_informal_and_formal_voting
                + configuration.formal_voting_time <= u64::MAX,
            creation.should_cast_first_vote && !old(self).ballot_map().contains_key(
                (voting_id, VotingType::Informal, creator),
            ) ==> old(self).voter_list(voting_id, VotingType::Informal).len() < u32::MAX,
        ensures
            final(self).wf(),
            forall|x: VotingId| x != voting_id && stakes_accounted(*old(self), x) ==> #[trigger] stakes_accounted(*final(self), x),
            created is Ok && old(self).voter_list(voting_id, VotingType::Informal).len() == 0 ==> stakes_accounted(*final(self), voting_id),
            creation_outcome(*old(self), *final(self), creator, stake, configuration, creation, voting_id, block_time, contract_calls@, created),
    {
        if creation.only_va_can_create && !creation.is_va {
            return Err(Error::NotEnoughReputation);
        }
        if self.get_voting(voting_id).is_some() {
            return Err(Error::VotingIdInUse);
        }
        let mut voting = Voting::new(voting_id, block_time, creator, configuration);
        proof {
            assert(crate::voting::stake_counter(voting, Choice::InFavor, false) == 0);
            crate::numeric::lemma_u512_bound(stake);
        }
        let mut used_stake: Option<Uint512> = None;
        let mut lock: Option<ShortenedBallot> = None;
        if creation.should_cast_first_vote && self.ballots.get(&(voting_id, VotingType::Informal, creator)).is_some() {
            return Err(Error::CannotVoteTwice);
        }
        self.set_voting(voting);
        let ghost stored = *self;
        if creation.should_cast_first_vote {
            assert(vote_check(voting, self.ballot_map(), creator, VotingType::Informal, block_time) is Ok);
            let (_, l) = match self.cast_vote(
                creator,
                VotingType::Informal,
                Choice::InFavor,
                stake,
                &mut voting,
                block_time,
            ) {
                Ok(c) => c,
                Err(e) => {
                    assert(false);
                    return Err(e);
                },
            };
            used_stake = Some(stake);
            lock = l;
            self.set_voting(voting);
            assert(self.votings() == stored.votings().insert(voting_id, voting));
        }
        proof {
            if old(self).calls().contains_key(voting_id) {
                let k = choose|i: int|
                    0 <= i < old(self).contract_calls@.len() && #[trigger] old(self).contract_calls@[i].0 == voting_id;
                assert(old(self).voting_states.contents().contains_key(old(self).contract_calls@[k].0));
            }
            assert(!self.calls().contains_key(voting_id));
            assert forall|i: int| 0 <= i < self.contract_calls@.len() implies #[trigger] self.contract_calls@[i].0
                != voting_id by {
                if self.contract_calls@[i].0 == voting_id {
                    assert(calls_map(self.contract_calls@).dom().contains(voting_id));
                }
            }
            lemma_calls_map_push(self.contract_calls@, voting_id, contract_calls);
            assert forall|i: int| 0 <= i < self.contract_calls@.len() implies self.voting_states.contents().contains_key(
                #[trigger] self.contract_calls@[i].0,
            ) by {}
        }
        let ghost pre_push = *self;
        self.contract_calls.push((voting_id, contract_calls));
        proof {
            assert(self.voting_states == pre_push.voting_states);
            assert(self.ballots == pre_push.ballots);
            assert(self.voters == pre_push.voters);
            assert(self.votings() == pre_push.votings());
            assert(self.ballot_map() == pre_push.ballot_map());
            assert forall|id: VotingId, ty: VotingType| #[trigger] self.voter_list(id, ty) == pre_push.voter_list(id, ty) by {}
            assert(pre_push.votings().contains_key(voting_id));
            assert forall|i: int| 0 <= i < self.contract_calls@.len() implies self.voting_states.contents().contains_key(
                #[trigger] self.contract_calls@[i].0,
            ) by {
                if i < pre_push.contract_calls@.len() {
                    assert(self.contract_calls@[i] == pre_push.contract_calls@[i]);
                }
            }
            assert(self.wf());
        }
        let info = VotingCreatedInfo { creator, voting_id, stake: used_stake, configuration };
        assert(self.votings() =~= old(self).votings().insert(voting_id, voting));
        assert forall|id: VotingId| id != voting_id implies #[trigger] self.votings().get(id) == old(self).votings().get(id) by {
        }
        assert(self.votings().dom() =~= old(self).votings().dom().insert(voting_id));
        proof {
            let w = self.votings()[voting_id];
            assert(w == voting);
            assert forall|x: VotingId| x != voting_id && stakes_accounted(*old(self), x) implies #[trigger] stakes_accounted(*self, x) by {
                if self.votings().contains_key(x) {
                    let ty2 = old(self).votings()[x].spec_voting_type();
                    assert(self.votings()[x] == old(self).votings()[x]);
                    assert(self.voter_list(x, ty2) == old(self).voter_list(x, ty2));
                    assert(self.ballot_list(x, ty2) =~= old(self).ballot_list(x, ty2));
                }
            }
            if old(self).voter_list(voting_id, VotingType::Informal).len() == 0 {
                let l = self.voter_list(voting_id, VotingType::Informal);
                let bl = self.ballot_list(voting_id, VotingType::Informal);
                assert(w.spec_voting_type() == VotingType::Informal);
                if creation.should_cast_first_vote {
                    let b = Ballot {
                        voter: creator,
                        voting_id,
                        voting_type: VotingType::Informal,
                        choice: Choice::InFavor,
                        stake,
                        unbounded: false,
                        canceled: false,
                    };
                    assert(l.len() == 1 && l[0] == creator);
                    assert(bl.len() == 1 && bl[0] == b);
                    assert(bl.drop_last().len() == 0);
                    assert(bl.last() == b);
                    assert forall|c: Choice, u: bool| #[trigger] stake_counter(w, c, u) == counted_stake(bl, c, u) by {
                        assert(counted_stake(bl, c, u) == counted_stake(bl.drop_last(), c, u) + contribution(b, c, u));
                    }
                } else {
                    assert(l.len() == 0);
                    assert(bl.len() == 0);
                    assert forall|c: Choice, u: bool| #[trigger] stake_counter(w, c, u) == counted_stake(bl, c, u) by {
                    }
                }
            }
        }
        Ok((info, lock))
    }

    /// The reputation movements of finishing the stored voting `voting` (of the given
    /// type) with `result`; `informal_without_stake` tells that the informal voting
    /// staked no reputation. Fails with `VotingAlreadyCanceled` for a canceled result and
    /// with `ArithmeticOverflow` where a share of the losing stake overflows.
    fn settle(
        &self,
        voting: &Voting,
        voting_type: VotingType,
        result: VotingResult,
        informal_without_stake: bool,
    ) -> (settled: Result<Settlement, Error>)
        requires
            self.wf(),
            self.votings().contains_key(voting.voting_id),
            self.votings()[voting.voting_id] == *voting,
            finish_redistribution_defined(*self, *voting, voting_type, result),
        ensures
            match settled {
                Ok(st) => {
                    &&& result != VotingResult::Canceled
                    &&& !finish_overflows(*self, *voting, voting_type, result)
                    &&& st.formal_stake is None
                    &&& settlement_matches(
                        st.unstakes@,
                        st.mints@,
                        st.burns@,
                        self.ballot_list(voting.voting_id, voting_type),
                        *voting,
                        voting_type,
                        result,
                        informal_without_stake,
                    )
                },
                Err(e) => e == finish_settle_error(*self, *voting, voting_type, result)
                    && (result == VotingResult::Canceled || finish_overflows(*self, *voting, voting_type, result)),
            },
    {
        let voting_id = voting.voting_id();
        let creator = *voting.creator();
        let mut unstakes: Vec<(ShortenedBallot, Reason)> = Vec::new();
        let mut mints: Vec<(Address, Uint512)> = Vec::new();
        let mut burns: Vec<ShortenedBallot> = Vec::new();
        if result == VotingResult::Canceled {
            return Err(Error::VotingAlreadyCanceled);
        }
        match voting_type {
            VotingType::Informal => {
                if !informal_without_stake {
                    let yes_unstakes = self.select_ballots(
                        voting_id,
                        voting_type,
                        Selection::BoundInFavorExcept(creator),
                    );
                    let no_unstakes = self.select_ballots(
                        voting_id,
                        voting_type,
                        Selection::BoundAgainstExcept(creator),
                    );
                    add_to_map(&mut unstakes, Reason::InformalFinished, &yes_unstakes);
                    add_to_map(&mut unstakes, Reason::InformalFinished, &no_unstakes);
                    if result != VotingResult::InFavor {
                        burns = self.select_ballots(voting_id, voting_type, Selection::BoundOf(creator));
                    }
                }
            },
            VotingType::Formal => {
                match result {
                    VotingResult::InFavor => {
                        let yes_unstakes = self.return_yes_voters_rep(voting_id, voting_type);
                        let (m, b) = self.redistribute_reputation_of_no_voters(voting_id, voting_type)?;
                        add_to_map(&mut unstakes, Reason::FormalFinished, &yes_unstakes);
                        mints = m;
                        burns = b;
                    },
                    VotingResult::Against => {
                        let no_unstakes = self.return_no_voters_rep(voting_id, voting_type);
                        let (m, b) = self.redistribute_reputation_of_yes_voters(voting_id, voting_type)?;
                        add_to_map(&mut unstakes, Reason::FormalFinished, &no_unstakes);
                        mints = m;
                        burns = b;
                    },
                    _ => {
                        let yes_unstakes = self.select_ballots(
                            voting_id,
                            voting_type,
                            Selection::BoundInFavorExcept(creator),
                        );
                        let no_unstakes = self.select_ballots(
                            voting_id,
                            voting_type,
                            Selection::BoundAgainstExcept(creator),
                        );
                        add_to_map(&mut unstakes, Reason::FormalFinished, &yes_unstakes);
                        add_to_map(&mut unstakes, Reason::FormalFinished, &no_unstakes);
                        burns = self.select_ballots(voting_id, voting_type, Selection::BoundOf(creator));
                    },
                }
            },
        }
        proof {
            assert(tagged(Seq::<ShortenedBallot>::empty(), Reason::InformalFinished)
                =~= Seq::<(ShortenedBallot, Reason)>::empty());
            assert(Seq::<(ShortenedBallot, Reason)>::empty() + tagged(Seq::<ShortenedBallot>::empty(), Reason::InformalFinished)
                =~= Seq::<(ShortenedBallot, Reason)>::empty());
        }
        Ok(Settlement { unstakes, mints, burns, formal_stake: None })
    }

    /// Finishes the voting with the given id and type at `block_time` and returns its
    /// summary, its reputation movements, and the contract calls to be made: for a formal
    /// voting in favor, the calls the voting was created with (taken out of the engine, so
    /// that they are made once), otherwise none. The voting is stored completed. An informal
    /// voting that passes is followed by a formal voting with id `formal_voting_id`, on
    /// which the creator's informal ballot is cast again; its stake is what the
    /// reputation token locks there. Fails, changing nothing, as `finish_refusal` says.
    pub fn finish_voting(
        &mut self,
        voting_id: VotingId,
        voting_type: VotingType,
        block_time: u64,
        formal_voting_id: VotingId,
    ) -> (finished: Result<(VotingSummary, Settlement, Vec<VotingCall>), Error>)
        requires
            old(self).wf(),
            finish_requirements(*old(self), voting_id, voting_type, block_time, formal_voting_id),
        ensures
            final(self).wf(),
            forall|x: VotingId| x != formal_voting_id && stakes_accounted(*old(self), x) ==> #[trigger] stakes_accounted(*final(self), x),
            match finished {
                Ok((summary, st, calls)) => {
                    let v = old(self).votings()[voting_id];
                    let r = v.spec_result(old(self).voter_list(voting_id, voting_type).len() as u32);
                    let passes = voting_type == VotingType::Informal && r == VotingResult::InFavor;
                    &&& finish_refusal(*old(self), voting_id, voting_type, block_time, formal_voting_id) is None
                    &&& summary.result == r
                    &&& summary.ty == voting_type
                    &&& summary.informal_voting_id == v.informal_voting_id
                    &&& summary.formal_voting_id == if passes {
                        Some(formal_voting_id)
                    } else {
                        v.formal_voting_id
                    }
                    &&& calls@ == if voting_type == VotingType::Formal && r == VotingResult::InFavor {
                        old(self).calls_of(v.informal_voting_id)
                    } else {
                        Seq::<VotingCall>::empty()
                    }
                    &&& final(self).calls() == if voting_type == VotingType::Formal && r == VotingResult::InFavor {
                        old(self).calls().remove(v.informal_voting_id)
                    } else {
                        old(self).calls()
                    }
                    &&& settlement_matches(
                        st.unstakes@,
                        st.mints@,
                        st.burns@,
                        old(self).ballot_list(voting_id, voting_type),
                        v,
                        voting_type,
                        r,
                        !v.voting_configuration.informal_stake_reputation
                            && voting_type == VotingType::Informal,
                    )
                    &&& if passes {
                        let b = old(self).ballot_map()[(voting_id, VotingType::Informal, v.creator)];
                        let f = final(self).votings()[formal_voting_id];
                        let recast = Ballot {
                            voter: v.creator,
                            voting_id: formal_voting_id,
                            voting_type: VotingType::Formal,
                            choice: Choice::InFavor,
                            stake: b.stake,
                            unbounded: b.unbounded,
                            canceled: false,
                        };
                        &&& final(self).votings() == old(self).votings().insert(
                            voting_id,
                            Voting { completed: true, formal_voting_id: Some(formal_voting_id), ..v },
                        ).insert(formal_voting_id, f)
                        &&& formal_follows(v, f, formal_voting_id)
                        &&& forall|c: Choice, u: bool| #[trigger] stake_counter(f, c, u) == if c
                            == Choice::InFavor && u == b.unbounded {
                            b.stake@
                        } else {
                            0
                        }
                        &&& final(self).ballot_map() == old(self).ballot_map().insert(
                            (formal_voting_id, VotingType::Formal, v.creator),
                            recast,
                        )
                        &&& final(self).voter_list(formal_voting_id, VotingType::Formal) == old(self).voter_list(formal_voting_id, VotingType::Formal).push(v.creator)
                        &&& forall|id: VotingId, ty: VotingType|
                            !(id == formal_voting_id && ty == VotingType::Formal) ==> #[trigger] final(self).voter_list(id, ty) == old(self).voter_list(id, ty)
                        &&& old(self).voter_list(formal_voting_id, VotingType::Formal).len() == 0
                            ==> stakes_accounted(*final(self), formal_voting_id)
                        &&& st.formal_stake == if b.unbounded {
                            None::<ShortenedBallot>
                        } else {
                            Some(shortened(recast))
                        }
                    } else {
                        &&& final(self).votings() == old(self).votings().insert(
                            voting_id,
                            Voting { completed: true, ..v },
                        )
                        &&& final(self).ballot_map() == old(self).ballot_map()
                        &&& forall|id: VotingId, ty: VotingType| #[trigger]
                            final(self).voter_list(id, ty) == old(self).voter_list(id, ty)
                        &&& st.formal_stake is None
                    }
                },
                Err(e) => {
                    &&& finish_refusal(*old(self), voting_id, voting_type, block_time, formal_voting_id) == Some(e)
                    &&& *final(self) == *old(self)
                },
            },
    {
        let mut voting = self.get_voting_or_revert(voting_id)?;
        if voting.get_voting_type() != voting_type {
            return Err(Error::VotingWithGivenTypeNotInProgress);
        }
        if voting.completed() {
            return Err(Error::FinishingCompletedVotingNotAllowed);
        }
        if voting.is_in_time(block_time) {
            return Err(
                match voting_type {
                    VotingType::Informal => Error::InformalVotingTimeNotReached,
                    VotingType::Formal => Error::FormalVotingTimeNotReached,
                },
            );
        }
        if voting.is_canceled {
            return Err(Error::VotingAlreadyCanceled);
        }
        let voters_len = self.voters_count(voting_id, voting_type);
        let result = voting.get_result(voters_len);
        let informal_without_stake = voting.is_informal_without_stake();
        let mut settlement = self.settle(&voting, voting_type, result, informal_without_stake)?;
        let passes = voting_type == VotingType::Informal && result == VotingResult::InFavor;
        if passes {
            let creator = *voting.creator();
            if self.get_voting(formal_voting_id).is_some() {
                return Err(Error::VotingIdInUse);
            }
            if self.get_ballot(voting_id, VotingType::Informal, creator).is_none() {
                return Err(Error::BallotDoesNotExist);
            }
            let ghost b = self.ballot_map()[(voting_id, VotingType::Informal, creator)];
            proof {
                crate::numeric::lemma_u512_bound(b.stake);
            }
            let mut formal = voting.create_formal_voting(formal_voting_id);
            voting.complete(Some(formal_voting_id));
            self.set_voting(voting);
            self.set_voting(formal);
            let ghost before_recast = *self;
            let ghost fresh = formal;
            match self.recast_creators_ballot_from_informal_to_formal(&mut formal) {
                Ok((_, lock)) => {
                    settlement.formal_stake = lock;
                },
                Err(e) => {
                    assert(false);
                    return Err(e);
                },
            }
            self.set_voting(formal);
            proof {
                assert forall|c: Choice, u: bool| #[trigger] stake_counter(formal, c, u) == if c
                    == Choice::InFavor && u == b.unbounded {
                    b.stake@
                } else {
                    0
                } by {
                    assert(stake_counter(fresh, c, u) == 0);
                }
            }
        } else {
            voting.complete(None);
            self.set_voting(voting);
        }
        let calls = if voting_type == VotingType::Formal && result == VotingResult::InFavor {
            let ghost pre_take = *self;
            let taken = self.take_calls(voting.informal_voting_id());
            proof {
                assert(self.votings() == pre_take.votings());
                assert(self.ballot_map() == pre_take.ballot_map());
                assert forall|id: VotingId, ty: VotingType| #[trigger] self.voter_list(id, ty) == pre_take.voter_list(id, ty) by {}
            }
            taken
        } else {
            Vec::new()
        };
        proof {
            assert forall|x: VotingId| x != formal_voting_id && stakes_accounted(*old(self), x) implies #[trigger] stakes_accounted(*self, x) by {
                if self.votings().contains_key(x) {
                    let ty2 = old(self).votings()[x].spec_voting_type();
                    let ov = old(self).votings()[x];
                    let nv = self.votings()[x];
                    assert(nv.spec_voting_type() == ty2);
                    assert(self.voter_list(x, ty2) == old(self).voter_list(x, ty2));
                    assert(self.ballot_list(x, ty2) =~= old(self).ballot_list(x, ty2));
                    assert forall|c: Choice, u: bool| #[trigger] stake_counter(nv, c, u) == counted_stake(self.ballot_list(x, ty2), c, u) by {
                        assert(stake_counter(ov, c, u) == counted_stake(old(self).ballot_list(x, ty2), c, u));
                    }
                }
            }
            if passes && old(self).voter_list(formal_voting_id, VotingType::Formal).len() == 0 {
                let f = self.votings()[formal_voting_id];
                let bl = self.ballot_list(formal_voting_id, VotingType::Formal);
                let rb = self.ballot_map()[(formal_voting_id, VotingType::Formal, voting.creator)];
                assert(f.spec_voting_type() == VotingType::Formal);
                assert(bl.len() == 1 && bl[0] == rb);
                assert(bl.drop_last().len() == 0);
                assert forall|c: Choice, u: bool| #[trigger] stake_counter(f, c, u) == counted_stake(bl, c, u) by {
                    assert(counted_stake(bl, c, u) == counted_stake(bl.drop_last(), c, u) + contribution(bl.last(), c, u));
                }
            }
        }
        let summary = VotingSummary::new(
            result,
            voting_type,
            voting.informal_voting_id(),
            voting.formal_voting_id(),
        );
        Ok((summary, settlement, calls))
    }

    /// Finishes the voting with the given id at `block_time`, by its own type, moving no
    /// reputation: returns its summary and the contract calls to be made (those the voting
    /// was created with, taken out of the engine, for a formal voting in favor; otherwise
    /// none), and stores it completed. An informal voting that
    /// passes is followed by a formal voting with id `formal_voting_id`, with no ballots.
    /// Fails, changing nothing, with `VotingDoesNotExist`, with
    /// `FinishingCompletedVotingNotAllowed`, with `InformalVotingTimeNotReached` or
    /// `FormalVotingTimeNotReached` while the voting is in its voting time, with
    /// `VotingAlreadyCanceled` for a canceled voting, and with `VotingIdInUse` where an
    /// informal voting passes and `formal_voting_id` is taken.
    pub fn finish_voting_without_token_redistribution(
        &mut self,
        voting_id: VotingId,
        block_time: u64,
        formal_voting_id: VotingId,
    ) -> (finished: Result<(VotingSummary, Vec<VotingCall>), Error>)
        requires
            old(self).wf(),
            old(self).votings().contains_key(voting_id) ==> {
                let v = old(self).votings()[voting_id];
                let r = v.spec_result(old(self).voter_list(voting_id, v.spec_voting_type()).len() as u32);
                &&& !v.completed ==> v.voting_time_end() <= u64::MAX
                &&& finishable(v, v.spec_voting_type(), block_time) && v.spec_voting_type() == VotingType::Informal
                    && r == VotingResult::InFavor && !old(self).votings().contains_key(formal_voting_id) ==> {
                    &&& v.stakes_fit()
                    &&& v.spec_total_stake() > 0
                    &&& v.spec_is_result_close()
                        ==> v.voting_configuration.time_between_informal_and_formal_voting * 2 <= u64::MAX
                }
            },
        ensures
            final(self).wf(),
            forall|x: VotingId| x != formal_voting_id && stakes_accounted(*old(self), x) ==> #[trigger] stakes_accounted(*final(self), x),
            final(self).ballot_map() == old(self).ballot_map(),
            forall|id: VotingId, ty: VotingType| #[trigger]
                final(self).voter_list(id, ty) == old(self).voter_list(id, ty),
            match finished {
                Ok((summary, calls)) => {
                    let v = old(self).votings()[voting_id];
                    let ty = v.spec_voting_type();
                    let r = v.spec_result(old(self).voter_list(voting_id, ty).len() as u32);
                    let passes = ty == VotingType::Informal && r == VotingResult::InFavor;
                    &&& old(self).votings().contains_key(voting_id)
                    &&& !v.completed && !v.spec_is_in_time(block_time) && !v.is_canceled
                    &&& summary.result == r
                    &&& summary.ty == ty
                    &&& summary.informal_voting_id == v.informal_voting_id
                    &&& summary.formal_voting_id == if passes {
                        Some(formal_voting_id)
                    } else {
                        v.formal_voting_id
                    }
                    &&& calls@ == if ty == VotingType::Formal && r == VotingResult::InFavor {
                        old(self).calls_of(v.informal_voting_id)
                    } else {
                        Seq::<VotingCall>::empty()
                    }
                    &&& final(self).calls() == if ty == VotingType::Formal && r == VotingResult::InFavor {
                        old(self).calls().remove(v.informal_voting_id)
                    } else {
                        old(self).calls()
                    }
                    &&& if passes {
                        let f = final(self).votings()[formal_voting_id];
                        &&& final(self).votings() == old(self).votings().insert(
                            voting_id,
                            Voting { completed: true, formal_voting_id: Some(formal_voting_id), ..v },
                        ).insert(formal_voting_id, f)
                        &&& formal_follows(v, f, formal_voting_id)
                        &&& forall|c: Choice, u: bool| #[trigger] stake_counter(f, c, u) == 0
                        &&& old(self).voter_list(formal_voting_id, VotingType::Formal).len() == 0
                            ==> stakes_accounted(*final(self), formal_voting_id)
                    } else {
                        final(self).votings() == old(self).votings().insert(
                            voting_id,
                            Voting { completed: true, ..v },
                        )
                    }
                },
                Err(e) => {
                    &&& *final(self) == *old(self)
                    &&& e == if !old(self).votings().contains_key(voting_id) {
                        Error::VotingDoesNotExist
                    } else if old(self).votings()[voting_id].completed {
                        Error::FinishingCompletedVotingNotAllowed
                    } else if old(self).votings()[voting_id].spec_is_in_time(block_time) {
                        if old(self).votings()[voting_id].spec_voting_type() == VotingType::Informal {
                            Error::InformalVotingTimeNotReached
                        } else {
                            Error::FormalVotingTimeNotReached
                        }
                    } else if old(self).votings()[voting_id].is_canceled {
                        Error::VotingAlreadyCanceled
                    } else {
                        Error::VotingIdInUse
                    }
                    &&& old(self).votings().contains_key(voting_id) ==> {
                        let v = old(self).votings()[voting_id];
                        let r = v.spec_result(old(self).voter_list(voting_id, v.spec_voting_type()).len() as u32);
                        ||| !finishable(v, v.spec_voting_type(), block_time)
                        ||| v.spec_voting_type() == VotingType::Informal && r == VotingResult::InFavor
                            && old(self).votings().contains_key(formal_voting_id)
                    }
                },
            },
    {
        let mut voting = self.get_voting_or_revert(voting_id)?;
        if voting.completed() {
            return Err(Error::FinishingCompletedVotingNotAllowed);
        }
        let voting_type = voting.get_voting_type();
        if voting.is_in_time(block_time) {
            return Err(
                match voting_type {
                    VotingType::Informal => Error::InformalVotingTimeNotReached,
                    VotingType::Formal => Error::FormalVotingTimeNotReached,
                },
            );
        }
        if voting.is_canceled {
            return Err(Error::VotingAlreadyCanceled);
        }
        let voters_len = self.voters_count(voting_id, voting_type);
        let result = voting.get_result(voters_len);
        if voting_type == VotingType::Informal && result == VotingResult::InFavor {
            if self.get_voting(formal_voting_id).is_some() {
                return Err(Error::VotingIdInUse);
            }
            let formal = voting.create_formal_voting(formal_voting_id);
            voting.complete(Some(formal_voting_id));
            self.set_voting(voting);
            self.set_voting(formal);
            assert forall|c: Choice, u: bool| #[trigger] stake_counter(formal, c, u) == 0 by {}
        } else {
            voting.complete(None);
            self.set_voting(voting);
        }
        let calls = if voting_type == VotingType::Formal && result == VotingResult::InFavor {
            let ghost pre_take = *self;
            let taken = self.take_calls(voting.informal_voting_id());
            proof {
                assert(self.votings() == pre_take.votings());
                assert(self.ballot_map() == pre_take.ballot_map());
                assert forall|id: VotingId, ty: VotingType| #[trigger] self.voter_list(id, ty) == pre_take.voter_list(id, ty) by {}
            }
            taken
        } else {
            Vec::new()
        };
        proof {
            assert forall|x: VotingId| x != formal_voting_id && stakes_accounted(*old(self), x) implies #[trigger] stakes_accounted(*self, x) by {
                if self.votings().contains_key(x) {
                    let ty2 = old(self).votings()[x].spec_voting_type();
                    let ov = old(self).votings()[x];
                    let nv = self.votings()[x];
                    assert(nv.spec_voting_type() == ty2);
                    assert(self.ballot_list(x, ty2) =~= old(self).ballot_list(x, ty2));
                    assert forall|c: Choice, u: bool| #[trigger] stake_counter(nv, c, u) == counted_stake(self.ballot_list(x, ty2), c, u) by {
                        assert(stake_counter(ov, c, u) == counted_stake(old(self).ballot_list(x, ty2), c, u));
                    }
                }
            }
            if voting_type == VotingType::Informal && result == VotingResult::InFavor
                && old(self).voter_list(formal_voting_id, VotingType::Formal).len() == 0 {
                let f = self.votings()[formal_voting_id];
                assert(self.ballot_list(formal_voting_id, VotingType::Formal).len() == 0);
                assert forall|c: Choice, u: bool| #[trigger] stake_counter(f, c, u) == counted_stake(self.ballot_list(formal_voting_id, VotingType::Formal), c, u) by {
                }
            }
        }
        let summary = VotingSummary::new(
            result,
            voting_type,
            voting.informal_voting_id(),
            voting.formal_voting_id(),
        );
        Ok((summary, calls))
    }

    /// A bound ballot recorded on a voting whose counter of its choice grew by its stake
    /// keeps the counters of every voting in agreement with the ballots.
    proof fn lemma_new_ballot_keeps_accounting(
        before: Self,
        after: Self,
        voting_id: VotingId,
        ballot: Ballot,
    )
        requires
            before.wf(),
            before.votings().contains_key(voting_id),
            ballot.voting_id == voting_id,
            !ballot.unbounded,
            !ballot.canceled,
            before.votings()[voting_id].spec_voting_type() == ballot.voting_type,
            !before.ballot_map().contains_key((voting_id, ballot.voting_type, ballot.voter)),
            after.votings().dom() == before.votings().dom(),
            stake_added(before.votings()[voting_id], after.votings()[voting_id], ballot.stake, ballot.choice, false),
            forall|x: VotingId| x != voting_id ==> #[trigger] after.votings().get(x) == before.votings().get(x),
            after.ballot_map() == before.ballot_map().insert((voting_id, ballot.voting_type, ballot.voter), ballot),
            after.voter_list(voting_id, ballot.voting_type) == before.voter_list(voting_id, ballot.voting_type).push(ballot.voter),
            forall|id: VotingId, ty: VotingType|
                !(id == voting_id && ty == ballot.voting_type) ==> #[trigger] after.voter_list(id, ty)
                    == before.voter_list(id, ty),
        ensures
            forall|x: VotingId| stakes_accounted(before, x) ==> #[trigger] stakes_accounted(after, x),
    {
        let ty = ballot.voting_type;
        let voter = ballot.voter;
        let l = before.voter_list(voting_id, ty);
        assert(!l.contains(voter)) by {
            if l.contains(voter) {
                let j = choose|j: int| 0 <= j < l.len() && l[j] == voter;
                assert(before.ballots.contents().contains_key((voting_id, ty, before.voters.values((voting_id, ty))[j])));
            }
        }
        Self::lemma_ballot_lists_after_push(before, after, voting_id, ty, voter, ballot);
        assert forall|x: VotingId| stakes_accounted(before, x) implies #[trigger] stakes_accounted(after, x) by {
            if after.votings().contains_key(x) {
                if x == voting_id {
                    let v = before.votings()[x];
                    let w = after.votings()[x];
                    assert(w.spec_voting_type() == ty);
                    let bl = before.ballot_list(x, ty);
                    assert(after.ballot_list(x, ty) == bl.push(ballot));
                    assert(bl.push(ballot).drop_last() =~= bl);
                    assert forall|i: int, j: int|
                        0 <= i < l.push(voter).len() && 0 <= j < l.push(voter).len() && i != j
                        implies l.push(voter)[i] != l.push(voter)[j] by {
                        if i < l.len() && j < l.len() {
                            assert(l[i] != l[j]);
                        } else if i < l.len() {
                            assert(l[i] != voter);
                        } else {
                            assert(l[j] != voter);
                        }
                    }
                    assert forall|c: Choice, u: bool| #[trigger]
                        stake_counter(w, c, u) == counted_stake(after.ballot_list(x, ty), c, u) by {
                        assert(stake_counter(v, c, u) == counted_stake(bl, c, u));
                        assert(counted_stake(bl.push(ballot), c, u) == counted_stake(bl, c, u) + contribution(ballot, c, u));
                    }
                } else {
                    assert(after.votings().get(x) == before.votings().get(x));
                    assert(before.votings().contains_key(x));
                    let ty2 = before.votings()[x].spec_voting_type();
                    assert(after.voter_list(x, ty2) == before.voter_list(x, ty2));
                    assert(after.ballot_list(x, ty2) == before.ballot_list(x, ty2));
                }
            }
        }
    }

    /// Replacing the ballot of a voter on a voting, while the voting's counters move by
    /// the difference between the two ballots' contributions, keeps the counters of
    /// every voting in agreement with the ballots.
    proof fn lemma_replaced_ballot_keeps_accounting(
        before: Self,
        after: Self,
        voting_id: VotingId,
        voting_type: VotingType,
        voter: Address,
        ballot: Ballot,
    )
        requires
            before.wf(),
            before.votings().contains_key(voting_id),
            before.votings()[voting_id].spec_voting_type() == voting_type,
            before.ballot_map().contains_key((voting_id, voting_type, voter)),
            after.votings().dom() == before.votings().dom(),
            after.votings()[voting_id].spec_voting_type() == voting_type,
            forall|c: Choice, u: bool| #[trigger] stake_counter(after.votings()[voting_id], c, u)
                + contribution(before.ballot_map()[(voting_id, voting_type, voter)], c, u)
                == stake_counter(before.votings()[voting_id], c, u) + contribution(ballot, c, u),
            forall|x: VotingId| x != voting_id ==> #[trigger] after.votings().get(x) == before.votings().get(x),
            after.ballot_map() == before.ballot_map().insert((voting_id, voting_type, voter), ballot),
            forall|id: VotingId, ty: VotingType| #[trigger] after.voter_list(id, ty) == before.voter_list(id, ty),
        ensures
            forall|x: VotingId| stakes_accounted(before, x) ==> #[trigger] stakes_accounted(after, x),
    {
        assert forall|x: VotingId| stakes_accounted(before, x) implies #[trigger] stakes_accounted(after, x) by {
            if after.votings().contains_key(x) {
                if x == voting_id {
                    assert(before.voters.values((voting_id, voting_type)).contains(voter));
                    let i = Self::lemma_ballot_lists_after_replace(before, after, voting_id, voting_type, voter, ballot);
                    let bl = before.ballot_list(voting_id, voting_type);
                    assert(after.voter_list(voting_id, voting_type) == before.voter_list(voting_id, voting_type));
                    assert forall|c: Choice, u: bool| #[trigger]
                        stake_counter(after.votings()[x], c, u) == counted_stake(after.ballot_list(x, voting_type), c, u) by {
                        assert(stake_counter(before.votings()[x], c, u) == counted_stake(bl, c, u));
                        lemma_counted_stake_update(bl, i, ballot, c, u);
                    }
                } else {
                    assert(after.votings().get(x) == before.votings().get(x));
                    assert(before.votings().contains_key(x));
                    let ty2 = before.votings()[x].spec_voting_type();
                    assert(after.voter_list(x, ty2) == before.voter_list(x, ty2));
                    assert(after.ballot_list(x, ty2) =~= before.ballot_list(x, ty2));
                }
            }
        }
    }

    /// Recording a ballot of a voter who is not listed yet appends the ballot to the
    /// list of ballots of that voting and type, and leaves every other list as it was.
    proof fn lemma_ballot_lists_after_push(
        before: Self,
        after: Self,
        voting_id: VotingId,
        voting_type: VotingType,
        voter: Address,
        ballot: Ballot,
    )
        requires
            !before.voter_list(voting_id, voting_type).contains(voter),
            after.voter_list(voting_id, voting_type) == before.voter_list(voting_id, voting_type).push(voter),
            forall|id: VotingId, ty: VotingType|
                !(id == voting_id && ty == voting_type) ==> #[trigger] after.voter_list(id, ty)
                    == before.voter_list(id, ty),
            after.ballot_map() == before.ballot_map().insert((voting_id, voting_type, voter), ballot),
        ensures
            after.ballot_list(voting_id, voting_type) == before.ballot_list(voting_id, voting_type).push(ballot),
            forall|id: VotingId, ty: VotingType|
                !(id == voting_id && ty == voting_type) ==> #[trigger] after.ballot_list(id, ty)
                    == before.ballot_list(id, ty),
    {
        let l = before.voter_list(voting_id, voting_type);
        assert forall|i: int| 0 <= i < l.len() implies l[i] != voter by {
            if l[i] == voter {
                assert(l.contains(voter));
            }
        }
        assert(after.ballot_list(voting_id, voting_type) =~= before.ballot_list(voting_id, voting_type).push(ballot));
        assert forall|id: VotingId, ty: VotingType|
            !(id == voting_id && ty == voting_type) implies #[trigger] after.ballot_list(id, ty)
                == before.ballot_list(id, ty) by {
            assert(after.ballot_list(id, ty) =~= before.ballot_list(id, ty));
        }
    }

    /// Replacing the ballot of a voter listed once replaces it at its position in the
    /// list of ballots, and leaves every other list as it was.
    proof fn lemma_ballot_lists_after_replace(
        before: Self,
        after: Self,
        voting_id: VotingId,
        voting_type: VotingType,
        voter: Address,
        ballot: Ballot,
    ) -> (i: int)
        requires
            before.voter_list(voting_id, voting_type).contains(voter),
            before.voter_list(voting_id, voting_type).no_duplicates(),
            forall|id: VotingId, ty: VotingType| #[trigger] after.voter_list(id, ty) == before.voter_list(id, ty),
            after.ballot_map() == before.ballot_map().insert((voting_id, voting_type, voter), ballot),
        ensures
            0 <= i < before.ballot_list(voting_id, voting_type).len(),
            before.voter_list(voting_id, voting_type)[i] == voter,
            before.ballot_list(voting_id, voting_type)[i] == before.ballot_map()[(voting_id, voting_type, voter)],
            after.ballot_list(voting_id, voting_type) == before.ballot_list(voting_id, voting_type).update(i, ballot),
            forall|id: VotingId, ty: VotingType|
                !(id == voting_id && ty == voting_type) ==> #[trigger] after.ballot_list(id, ty)
                    == before.ballot_list(id, ty),
    {
        let l = before.voter_list(voting_id, voting_type);
        let i = choose|i: int| 0 <= i < l.len() && l[i] == voter;
        assert(after.voter_list(voting_id, voting_type) == l);
        assert(after.ballot_list(voting_id, voting_type) =~= before.ballot_list(voting_id, voting_type).update(i, ballot));
        assert forall|id: VotingId, ty: VotingType|
            !(id == voting_id && ty == voting_type) implies #[trigger] after.ballot_list(id, ty)
                == before.ballot_list(id, ty) by {
            assert(after.voter_list(id, ty) == before.voter_list(id, ty));
            assert(after.ballot_list(id, ty) =~= before.ballot_list(id, ty));
        }
        i
    }
}

/// A voter votes at most once: once a ballot of the voter is recorded on a voting of a
/// type, every further vote of the voter on it is refused, whatever the time.
pub proof fn law_no_second_vote(
    voting: Voting,
    ballots: Map<(VotingId, VotingType, Address), Ballot>,
    voter: Address,
    voting_type: VotingType,
    ballot: Ballot,
    block_time: u64,
)
    ensures
        vote_check(
            voting,
            ballots.insert((voting.voting_id, voting_type, voter), ballot),
            voter,
            voting_type,
            block_time,
        ) is Err,
{
}

/// A completed voting is closed for good: finishing it again is refused with
/// `FinishingCompletedVotingNotAllowed`, and every vote on it with
/// `VoteOnCompletedVotingNotAllowed`, whatever the time.
pub proof fn law_completed_voting_is_closed(
    engine: VotingEngine,
    voting_id: VotingId,
    voter: Address,
    block_time: u64,
    formal_voting_id: VotingId,
)
    requires
        engine.votings().contains_key(voting_id),
        engine.votings()[voting_id].completed,
    ensures
        finish_refusal(engine, voting_id, engine.votings()[voting_id].spec_voting_type(), block_time, formal_voting_id)
            == Some(Error::FinishingCompletedVotingNotAllowed),
        vote_outcome(engine, voter, voting_id, engine.votings()[voting_id].spec_voting_type(), block_time)
            == Err::<(), Error>(Error::VoteOnCompletedVotingNotAllowed),
{
}

/// The stake returned to the voters other than `c`: every bound ballot of another voter,
/// of either choice, tagged with `reason`, and nothing else.
proof fn lemma_others_returned(bl: Seq<Ballot>, c: Address, reason: Reason)
    ensures
        ({
            let u = tagged(selected_ballots(bl, Selection::BoundInFavorExcept(c)), reason) + tagged(
                selected_ballots(bl, Selection::BoundAgainstExcept(c)),
                reason,
            );
            &&& forall|i: int|
                #![trigger bl[i]]
                0 <= i < bl.len() && !bl[i].unbounded && bl[i].voter != c ==> u.contains(
                    (shortened(bl[i]), reason),
                )
            &&& forall|k: int|
                #![trigger u[k]]
                0 <= k < u.len() ==> u[k].1 == reason && exists|i: int|
                    #![trigger bl[i]]
                    0 <= i < bl.len() && !bl[i].unbounded && bl[i].voter != c && shortened(bl[i])
                        == u[k].0
        }),
{
    let a = selected_ballots(bl, Selection::BoundInFavorExcept(c));
    let b = selected_ballots(bl, Selection::BoundAgainstExcept(c));
    let u = tagged(a, reason) + tagged(b, reason);
    lemma_selected_members(bl, Selection::BoundInFavorExcept(c));
    lemma_selected_members(bl, Selection::BoundAgainstExcept(c));
    assert forall|i: int|
        #![trigger bl[i]]
        0 <= i < bl.len() && !bl[i].unbounded && bl[i].voter != c implies u.contains(
            (shortened(bl[i]), reason),
        ) by {
        if bl[i].choice == Choice::InFavor {
            assert(a.contains(shortened(bl[i])));
            let j = choose|j: int| 0 <= j < a.len() && a[j] == shortened(bl[i]);
            assert(u[j] == (shortened(bl[i]), reason));
        } else {
            assert(b.contains(shortened(bl[i])));
            let j = choose|j: int| 0 <= j < b.len() && b[j] == shortened(bl[i]);
            assert(u[a.len() + j] == (shortened(bl[i]), reason));
        }
    }
    assert forall|k: int|
        #![trigger u[k]]
        0 <= k < u.len() implies u[k].1 == reason && exists|i: int|
            #![trigger bl[i]]
            0 <= i < bl.len() && !bl[i].unbounded && bl[i].voter != c && shortened(bl[i]) == u[k].0 by {
        if k < a.len() {
            assert(u[k] == (a[k], reason));
            assert(a[k] == a[k]);
        } else {
            let m = k - a.len();
            assert(u[k] == (b[m], reason));
            assert(b[m] == b[m]);
        }
    }
}

/// A formal voting that finishes without quorum returns the bound stake of every voter
/// but the creator, of either choice, and returns nothing else; it burns exactly the
/// creator's bound stake and mints nothing. So no bound stake is left neither returned
/// nor burned.
pub proof fn law_no_quorum_returns_other_stakes(
    unstakes: Seq<(ShortenedBallot, Reason)>,
    mints: Seq<(Address, Uint512)>,
    burns: Seq<ShortenedBallot>,
    bl: Seq<Ballot>,
    voting: Voting,
    informal_without_stake: bool,
)
    requires
        settlement_matches(
            unstakes,
            mints,
            burns,
            bl,
            voting,
            VotingType::Formal,
            VotingResult::QuorumNotReached,
            informal_without_stake,
        ),
    ensures
        forall|i: int|
            #![trigger bl[i]]
            0 <= i < bl.len() && !bl[i].unbounded && bl[i].voter != voting.creator ==> unstakes.contains(
                (shortened(bl[i]), Reason::FormalFinished),
            ),
        forall|k: int|
            #![trigger unstakes[k]]
            0 <= k < unstakes.len() ==> unstakes[k].1 == Reason::FormalFinished && exists|i: int|
                #![trigger bl[i]]
                0 <= i < bl.len() && !bl[i].unbounded && bl[i].voter != voting.creator && shortened(
                    bl[i],
                ) == unstakes[k].0,
        forall|i: int|
            #![trigger bl[i]]
            0 <= i < bl.len() && !bl[i].unbounded && bl[i].voter == voting.creator ==> burns.contains(
                shortened(bl[i]),
            ),
        forall|k: int|
            #![trigger burns[k]]
            0 <= k < burns.len() ==> exists|i: int|
                #![trigger bl[i]]
                0 <= i < bl.len() && !bl[i].unbounded && bl[i].voter == voting.creator && shortened(
                    bl[i],
                ) == burns[k],
        mints.len() == 0,
{
    lemma_others_returned(bl, voting.creator, Reason::FormalFinished);
    lemma_selected_members(bl, Selection::BoundOf(voting.creator));
}

/// An informal voting that stakes reputation returns, when it finishes, the bound stake
/// of every voter but the creator, of either choice, and nothing else.
pub proof fn law_informal_finish_returns_other_stakes(
    unstakes: Seq<(ShortenedBallot, Reason)>,
    mints: Seq<(Address, Uint512)>,
    burns: Seq<ShortenedBallot>,
    bl: Seq<Ballot>,
    voting: Voting,
    result: VotingResult,
)
    requires
        settlement_matches(unstakes, mints, burns, bl, voting, VotingType::Informal, result, false),
    ensures
        forall|i: int|
            #![trigger bl[i]]
            0 <= i < bl.len() && !bl[i].unbounded && bl[i].voter != voting.creator ==> unstakes.contains(
                (shortened(bl[i]), Reason::InformalFinished),
            ),
        forall|k: int|
            #![trigger unstakes[k]]
            0 <= k < unstakes.len() ==> unstakes[k].1 == Reason::InformalFinished && exists|i: int|
                #![trigger bl[i]]
                0 <= i < bl.len() && !bl[i].unbounded && bl[i].voter != voting.creator && shortened(
                    bl[i],
                ) == unstakes[k].0,
{
    lemma_others_returned(bl, voting.creator, Reason::InformalFinished);
}

/// No vote is taken in the pause between the two phases: on a voting that is not
/// completed, a vote of its own type at a time after the informal phase and not after
/// the pause is refused with `VotingDuringTimeBetweenVotingsNotAllowed`, whichever the
/// type.
pub proof fn law_no_vote_in_the_pause(
    voting: Voting,
    ballots: Map<(VotingId, VotingType, Address), Ballot>,
    voter: Address,
    block_time: u64,
)
    requires
        !voting.completed,
        voting.start_time + voting.voting_configuration.informal_voting_time < block_time,
        block_time <= voting.start_time + voting.voting_configuration.informal_voting_time
            + voting.voting_configuration.time_between_informal_and_formal_voting,
    ensures
        vote_check(voting, ballots, voter, voting.spec_voting_type(), block_time)
            == Err::<(), Error>(Error::VotingDuringTimeBetweenVotingsNotAllowed),
{
}

/// Only the VA requirement refuses a creator for want of a VA token: creating a voting
/// fails with `NotEnoughReputation` exactly when only VA token holders may create
/// votings and the creator holds none; where anyone may create, it never does.
pub proof fn law_va_token_needed_only_where_required(
    before: VotingEngine,
    after: VotingEngine,
    creator: Address,
    stake: Uint512,
    configuration: DaoConfiguration,
    creation: CreationRules,
    voting_id: VotingId,
    block_time: u64,
    calls: Seq<VotingCall>,
    created: Result<(VotingCreatedInfo, Option<ShortenedBallot>), Error>,
)
    requires
        creation_outcome(before, after, creator, stake, configuration, creation, voting_id, block_time, calls, created),
    ensures
        (created == Err::<(VotingCreatedInfo, Option<ShortenedBallot>), Error>(Error::NotEnoughReputation))
            <==> (creation.only_va_can_create && !creation.is_va),
        !creation.only_va_can_create ==> created != Err::<(VotingCreatedInfo, Option<ShortenedBallot>), Error>(
            Error::NotEnoughReputation,
        ),
{
}

/// A formal voting that finishes in favor or against returns the bound stake of the
/// winning side and burns that of the losing side, ballot for ballot, and mints one
/// share to each bound winning ballot; nothing else is returned or burned.
pub proof fn law_formal_result_settles_by_side(
    unstakes: Seq<(ShortenedBallot, Reason)>,
    mints: Seq<(Address, Uint512)>,
    burns: Seq<ShortenedBallot>,
    bl: Seq<Ballot>,
    voting: Voting,
    result: VotingResult,
    informal_without_stake: bool,
)
    requires
        result == VotingResult::InFavor || result == VotingResult::Against,
        settlement_matches(unstakes, mints, burns, bl, voting, VotingType::Formal, result, informal_without_stake),
    ensures
        ({
            let won = if result == VotingResult::InFavor { Choice::InFavor } else { Choice::Against };
            &&& forall|i: int|
                #![trigger bl[i]]
                0 <= i < bl.len() && !bl[i].unbounded && bl[i].choice == won ==> unstakes.contains(
                    (shortened(bl[i]), Reason::FormalFinished),
                )
            &&& forall|k: int|
                #![trigger unstakes[k]]
                0 <= k < unstakes.len() ==> unstakes[k].1 == Reason::FormalFinished && exists|i: int|
                    #![trigger bl[i]]
                    0 <= i < bl.len() && !bl[i].unbounded && bl[i].choice == won && shortened(bl[i])
                        == unstakes[k].0
            &&& forall|i: int|
                #![trigger bl[i]]
                0 <= i < bl.len() && !bl[i].unbounded && bl[i].choice != won ==> burns.contains(
                    shortened(bl[i]),
                )
            &&& forall|k: int|
                #![trigger burns[k]]
                0 <= k < burns.len() ==> exists|i: int|
                    #![trigger bl[i]]
                    0 <= i < bl.len() && !bl[i].unbounded && bl[i].choice != won && shortened(bl[i])
                        == burns[k]
            &&& mints.len() == bl.filter(|b: Ballot| b.choice == won && !b.unbounded).len()
        }),
{
    let won = if result == VotingResult::InFavor { Choice::InFavor } else { Choice::Against };
    let (ws, ls) = if result == VotingResult::InFavor {
        (Selection::BoundInFavor, Selection::BoundAgainst)
    } else {
        (Selection::BoundAgainst, Selection::BoundInFavor)
    };
    lemma_selected_members(bl, ws);
    lemma_selected_members(bl, ls);
    let a = selected_ballots(bl, ws);
    assert forall|i: int|
        #![trigger bl[i]]
        0 <= i < bl.len() && !bl[i].unbounded && bl[i].choice == won implies unstakes.contains(
            (shortened(bl[i]), Reason::FormalFinished),
        ) by {
        assert(a.contains(shortened(bl[i])));
        let j = choose|j: int| 0 <= j < a.len() && a[j] == shortened(bl[i]);
        assert(unstakes[j] == (shortened(bl[i]), Reason::FormalFinished));
    }
    assert forall|k: int|
        #![trigger unstakes[k]]
        0 <= k < unstakes.len() implies unstakes[k].1 == Reason::FormalFinished && exists|i: int|
            #![trigger bl[i]]
            0 <= i < bl.len() && !bl[i].unbounded && bl[i].choice == won && shortened(bl[i]) == unstakes[k].0 by {
        assert(unstakes[k] == (a[k], Reason::FormalFinished));
        assert(a[k] == a[k]);
    }
}

/// An informal voting that stakes reputation burns, when it finishes, exactly the
/// creator's bound stake unless it passed, and nothing when it passed; it mints nothing.
pub proof fn law_informal_finish_burns_creator_unless_passed(
    unstakes: Seq<(ShortenedBallot, Reason)>,
    mints: Seq<(Address, Uint512)>,
    burns: Seq<ShortenedBallot>,
    bl: Seq<Ballot>,
    voting: Voting,
    result: VotingResult,
)
    requires
        settlement_matches(unstakes, mints, burns, bl, voting, VotingType::Informal, result, false),
    ensures
        mints.len() == 0,
        result == VotingResult::InFavor ==> burns.len() == 0,
        result != VotingResult::InFavor ==> forall|i: int|
            #![trigger bl[i]]
            0 <= i < bl.len() && !bl[i].unbounded && bl[i].voter == voting.creator ==> burns.contains(
                shortened(bl[i]),
            ),
        forall|k: int|
            #![trigger burns[k]]
            0 <= k < burns.len() ==> exists|i: int|
                #![trigger bl[i]]
                0 <= i < bl.len() && !bl[i].unbounded && bl[i].voter == voting.creator && shortened(
                    bl[i],
                ) == burns[k],
{
    lemma_selected_members(bl, Selection::BoundOf(voting.creator));
}

/// A vote is taken in the voting phases: on a voting that is not completed, a first
/// ballot of a voter, of the voting's own type, is accepted during the informal phase
/// and during the formal phase.
pub proof fn law_vote_accepted_in_the_phases(
    voting: Voting,
    ballots: Map<(VotingId, VotingType, Address), Ballot>,
    voter: Address,
    block_time: u64,
)
    requires
        !voting.completed,
        !ballots.contains_key((voting.voting_id, voting.spec_voting_type(), voter)),
        block_time <= voting.start_time + voting.voting_configuration.informal_voting_time || (
        voting.start_time + voting.voting_configuration.informal_voting_time
            + voting.voting_configuration.time_between_informal_and_formal_voting < block_time
            && block_time <= voting.start_time + voting.voting_configuration.informal_voting_time
            + voting.voting_configuration.time_between_informal_and_formal_voting
            + voting.voting_configuration.formal_voting_time),
    ensures
        vote_check(voting, ballots, voter, voting.spec_voting_type(), block_time) == Ok::<(), Error>(()),
{
}

/// No vote is taken once the voting time is over: after the formal phase has ended, a
/// vote on a voting of its own type is refused with `VoteOnCompletedVotingNotAllowed`.
pub proof fn law_no_vote_after_the_end(
    voting: Voting,
    ballots: Map<(VotingId, VotingType, Address), Ballot>,
    voter: Address,
    block_time: u64,
)
    requires
        voting.start_time + voting.voting_configuration.informal_voting_time
            + voting.voting_configuration.time_between_informal_and_formal_voting
            + voting.voting_configuration.formal_voting_time < block_time,
    ensures
        vote_check(voting, ballots, voter, voting.spec_voting_type(), block_time)
            == Err::<(), Error>(Error::VoteOnCompletedVotingNotAllowed),
{
}

} // verus!
