use vstd::prelude::*;
use crate::address::Address;
use crate::ballot::ShortenedBallot;
use crate::engine::{creation_outcome, CreationRules, VotingCreatedInfo, VotingEngine};
use crate::error::Error;
use crate::numeric::Uint512;
use crate::voting::{DaoConfiguration, VotingCall, VotingId, VotingType};

verus! {

/// The call on a variable repository that a repository voting performs when it passes:
/// entry point `update_at`, with the key, the new value and its activation time.
#[derive(Debug, PartialEq, Eq)]
pub struct UpdateAtCall {
    pub repository: Address,
    pub key: String,
    pub value: Vec<u8>,
    pub activation_time: Option<u64>,
}

/// The call that a voting on setting `key` of `variable_repo_to_edit` to `value` (from
/// `activation_time` on, where one is given) performs when it passes.
pub fn update_at_call(
    variable_repo_to_edit: Address,
    key: String,
    value: Vec<u8>,
    activation_time: Option<u64>,
) -> (call: UpdateAtCall)
    ensures
        call.repository == variable_repo_to_edit,
        call.key@ == key@,
        call.value@ == value@,
        call.activation_time == activation_time,
{
    UpdateAtCall { repository: variable_repo_to_edit, key, value, activation_time }
}

/// Informs that a voting on updating a variable of a variable repository has been
/// created: what is to be updated, and the parameters the voting was created with.
#[derive(Debug, PartialEq, Eq)]
pub struct RepoVotingCreated {
    pub variable_repo_to_edit: Address,
    pub key: String,
    pub value: Vec<u8>,
    pub activation_time: Option<u64>,
    pub creator: Address,
    pub stake: Option<Uint512>,
    pub voting_id: VotingId,
    pub config_informal_quorum: u32,
    pub config_informal_voting_time: u64,
    pub config_formal_quorum: u32,
    pub config_formal_voting_time: u64,
    pub config_total_onboarded: Uint512,
    pub config_double_time_between_votings: bool,
    pub config_voting_clearness_delta: Uint512,
    pub config_time_between_informal_and_formal_voting: u64,
}

impl RepoVotingCreated {
    pub fn new(
        variable_repo_to_edit: Address,
        key: String,
        value: Vec<u8>,
        activation_time: Option<u64>,
        info: VotingCreatedInfo,
    ) -> (event: Self)
        ensures
            reports(event, variable_repo_to_edit, key@, value@, activation_time, info),
    {
        RepoVotingCreated {
            variable_repo_to_edit,
            key,
            value,
            activation_time,
            creator: info.creator,
            stake: info.stake,
            voting_id: info.voting_id,
            config_informal_quorum: info.configuration.governance_informal_voting_quorum,
            config_informal_voting_time: info.configuration.informal_voting_time,
            config_formal_quorum: info.configuration.governance_formal_voting_quorum,
            config_formal_voting_time: info.configuration.formal_voting_time,
            config_total_onboarded: info.configuration.total_onboarded,
            config_double_time_between_votings: info.configuration.double_time_between_votings,
            config_voting_clearness_delta: info.configuration.voting_clearness_delta,
            config_time_between_informal_and_formal_voting:
                info.configuration.time_between_informal_and_formal_voting,
        }
    }
}

/// `event` reports the creation `info` of a voting on setting `key` of `variable_repo_to_edit`
/// to `value` from `activation_time` on.
pub open spec fn reports(
    event: RepoVotingCreated,
    variable_repo_to_edit: Address,
    key: Seq<char>,
    value: Seq<u8>,
    activation_time: Option<u64>,
    info: VotingCreatedInfo,
) -> bool {
    &&& event.variable_repo_to_edit == variable_repo_to_edit
    &&& event.key@ == key
    &&& event.value@ == value
    &&& event.activation_time == activation_time
    &&& event.creator == info.creator
    &&& event.stake == info.stake
    &&& event.voting_id == info.voting_id
    &&& event.config_informal_quorum == info.configuration.governance_informal_voting_quorum
    &&& event.config_informal_voting_time == info.configuration.informal_voting_time
    &&& event.config_formal_quorum == info.configuration.governance_formal_voting_quorum
    &&& event.config_formal_voting_time == info.configuration.formal_voting_time
    &&& event.config_total_onboarded == info.configuration.total_onboarded
    &&& event.config_double_time_between_votings == info.configuration.double_time_between_votings
    &&& event.config_voting_clearness_delta == info.configuration.voting_clearness_delta
    &&& event.config_time_between_informal_and_formal_voting
        == info.configuration.time_between_informal_and_formal_voting
}

/// Creates a voting on setting `key` of `variable_repo_to_edit` to `value` (from
/// `activation_time` on, where one is given): the voting is created as
/// [`VotingEngine::create_voting`] does, carries the one `update_at` call of
/// [`update_at_call`], and the creation is reported by a [`RepoVotingCreated`]. Returns the
/// report and the stake the reputation token locks for the creator's first ballot.
pub fn create_repo_voting(
    engine: &mut VotingEngine,
    variable_repo_to_edit: Address,
    key: String,
    value: Vec<u8>,
    activation_time: Option<u64>,
    creator: Address,
    stake: Uint512,
    configuration: DaoConfiguration,
    creation: CreationRules,
    voting_id: VotingId,
    block_time: u64,
) -> (created: Result<(RepoVotingCreated, Option<ShortenedBallot>), Error>)
    requires
        old(engine).wf(),
        creation.should_cast_first_vote ==> block_time + configuration.informal_voting_time
            + configuration.time_between_informal_and_formal_voting
            + configuration.formal_voting_time <= u64::MAX,
        creation.should_cast_first_vote && !old(engine).ballot_map().contains_key(
            (voting_id, VotingType::Informal, creator),
        ) ==> old(engine).voter_list(voting_id, VotingType::Informal).len() < u32::MAX,
    ensures
        final(engine).wf(),
        exists|c: UpdateAtCall, r: Result<(VotingCreatedInfo, Option<ShortenedBallot>), Error>|
            #![trigger creation_outcome(*old(engine), *final(engine), creator, stake, configuration, creation, voting_id, block_time, seq![VotingCall::UpdateAt(c)], r)]
            {
                &&& c.repository == variable_repo_to_edit
                &&& c.key@ == key@
                &&& c.value@ == value@
                &&& c.activation_time == activation_time
                &&& creation_outcome(
                    *old(engine),
                    *final(engine),
                    creator,
                    stake,
                    configuration,
                    creation,
                    voting_id,
                    block_time,
                    seq![VotingCall::UpdateAt(c)],
                    r,
                )
                &&& match r {
                    Ok((info, lock)) => created matches Ok((event, l)) && l == lock && reports(
                        event,
                        variable_repo_to_edit,
                        key@,
                        value@,
                        activation_time,
                        info,
                    ),
                    Err(e) => created == Err::<(RepoVotingCreated, Option<ShortenedBallot>), Error>(e),
                }
            },
{
    let call = update_at_call(variable_repo_to_edit, key.clone(), value.clone(), activation_time);
    let ghost c = call;
    let calls = vec![VotingCall::UpdateAt(call)];
    proof {
        assert(calls@ == seq![VotingCall::UpdateAt(c)]);
    }
    let r = engine.create_voting(creator, stake, configuration, creation, voting_id, block_time, calls);
    match r {
        Ok((info, lock)) => Ok(
            (RepoVotingCreated::new(variable_repo_to_edit, key, value, activation_time, info), lock),
        ),
        Err(e) => Err(e),
    }
}

} // verus!
