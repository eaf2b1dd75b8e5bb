use casper_dao::address::Address;
use casper_dao::ballot::{Ballot, Reason, ShortenedBallot};
use casper_dao::engine::{CreationRules, Slashed, VotingEngine};
use casper_dao::error::Error;
use casper_dao::numeric::Uint512;
use casper_dao::slashing::{SlashCall, SlashingVoterContract};
use casper_dao::voting::{Choice, DaoConfiguration, VotingCall, VotingResult, VotingType};

fn config() -> DaoConfiguration {
    DaoConfiguration {
        informal_stake_reputation: true,
        informal_voting_time: 100,
        formal_voting_time: 200,
        governance_informal_voting_quorum: 1,
        governance_formal_voting_quorum: 1,
        time_between_informal_and_formal_voting: 50,
        voting_clearness_delta: Uint512::from_u64(8),
        total_onboarded: Uint512::from_u64(3),
        double_time_between_votings: true,
    }
}

fn addr(n: u8) -> Address {
    Address::Account([n; 32])
}

fn u(v: u64) -> Uint512 {
    Uint512::from_u64(v)
}

fn rules() -> CreationRules {
    CreationRules { is_va: true, only_va_can_create: true, should_cast_first_vote: true }
}

fn burn_all() -> VotingCall {
    VotingCall::Slash(SlashCall::BurnAll { token: addr(8), owner: addr(9) })
}

fn engine_with_voting() -> VotingEngine {
    let mut e = VotingEngine::new();
    e.create_voting(addr(1), u(100), config(), rules(), 7, 1_000, vec![burn_all()]).unwrap();
    e
}

#[test]
fn create_voting_casts_first_vote() {
    let mut e = VotingEngine::new();
    let (info, lock) = e.create_voting(addr(1), u(100), config(), rules(), 7, 1_000, vec![]).unwrap();
    assert_eq!(info.voting_id, 7);
    assert_eq!(info.stake, Some(u(100)));
    assert_eq!(lock, Some(ShortenedBallot { voter: addr(1), stake: u(100) }));
    assert_eq!(e.voters_count(7, VotingType::Informal), 1);
    assert_eq!(e.get_voting(7).unwrap().stake_in_favor(), u(100));
    assert!(e.voting_exists(7, VotingType::Informal));
    assert!(!e.voting_exists(7, VotingType::Formal));
    assert!(!e.voting_exists(8, VotingType::Informal));
    let not_va = CreationRules { is_va: false, ..rules() };
    assert_eq!(e.create_voting(addr(2), u(1), config(), not_va, 8, 1_000, vec![]).map(|_| ()), Err(Error::NotEnoughReputation));
    // a voting without first vote
    let quiet = CreationRules { should_cast_first_vote: false, ..rules() };
    let (info, lock) = e.create_voting(addr(2), u(1), config(), quiet, 9, 1_000, vec![]).unwrap();
    assert_eq!(info.stake, None);
    assert_eq!(lock, None);
    assert_eq!(e.voters_count(9, VotingType::Informal), 0);
}

#[test]
fn vote_and_refusals() {
    let mut e = engine_with_voting();
    let (ballot, lock) = e.vote(addr(2), 7, VotingType::Informal, Choice::Against, u(40), 1_050).unwrap();
    assert_eq!(ballot.stake, u(40));
    assert_eq!(lock, Some(ShortenedBallot { voter: addr(2), stake: u(40) }));
    assert_eq!(e.get_voting(7).unwrap().stake_against(), u(40));
    assert_eq!(e.all_voters(7, VotingType::Informal), vec![addr(1), addr(2)]);
    assert_eq!(e.get_voter(7, VotingType::Informal, 1), Some(addr(2)));
    assert_eq!(e.get_voter(7, VotingType::Informal, 2), None);
    assert_eq!(e.get_ballot(7, VotingType::Informal, addr(2)), Some(ballot));
    assert_eq!(e.get_ballot_at(7, VotingType::Informal, 1), Ok(ballot));
    assert_eq!(e.get_ballot_at(7, VotingType::Informal, 5), Err(Error::VoterDoesNotExist));
    let again = e.vote(addr(2), 7, VotingType::Informal, Choice::InFavor, u(1), 1_060);
    assert_eq!(again.map(|_| ()), Err(Error::CannotVoteTwice));
    let unknown = e.vote(addr(3), 8, VotingType::Informal, Choice::InFavor, u(1), 1_060);
    assert_eq!(unknown.map(|_| ()), Err(Error::VotingDoesNotExist));
    let wrong_type = e.vote(addr(3), 7, VotingType::Formal, Choice::InFavor, u(1), 1_060);
    assert_eq!(wrong_type.map(|_| ()), Err(Error::VotingWithGivenTypeNotInProgress));
    let between = e.vote(addr(3), 7, VotingType::Informal, Choice::InFavor, u(1), 1_120);
    assert_eq!(between.map(|_| ()), Err(Error::VotingDuringTimeBetweenVotingsNotAllowed));
    let late = e.vote(addr(3), 7, VotingType::Informal, Choice::InFavor, u(1), 5_000);
    assert_eq!(late.map(|_| ()), Err(Error::VoteOnCompletedVotingNotAllowed));
    assert_eq!(e.voters_count(7, VotingType::Informal), 2);
}

#[test]
fn returns_and_redistribution() {
    let mut e = engine_with_voting();
    e.vote(addr(2), 7, VotingType::Informal, Choice::InFavor, u(300), 1_010).unwrap();
    e.vote(addr(3), 7, VotingType::Informal, Choice::Against, u(50), 1_020).unwrap();
    let yes = e.return_yes_voters_rep(7, VotingType::Informal);
    assert_eq!(
        yes,
        vec![
            ShortenedBallot { voter: addr(1), stake: u(100) },
            ShortenedBallot { voter: addr(2), stake: u(300) },
        ]
    );
    let no = e.return_no_voters_rep(7, VotingType::Informal);
    assert_eq!(no, vec![ShortenedBallot { voter: addr(3), stake: u(50) }]);
    // in favor 400, against 50: the no voter is burned, the yes voters share the 50
    let (mints, burns) = e.redistribute_reputation_of_no_voters(7, VotingType::Informal).unwrap();
    assert_eq!(burns, vec![ShortenedBallot { voter: addr(3), stake: u(50) }]);
    assert_eq!(mints, vec![(addr(1), u(12)), (addr(2), u(37))]);
    let (mints, burns) = e.redistribute_reputation_of_yes_voters(7, VotingType::Informal).unwrap();
    assert_eq!(burns.len(), 2);
    assert_eq!(mints, vec![(addr(3), u(400))]);
    assert_eq!(e.redistribute_reputation_of_no_voters(8, VotingType::Informal), Err(Error::VotingDoesNotExist));
    assert_eq!(e.unstake_all_reputation(7, VotingType::Informal).len(), 3);
    let summary = e.summary(7).unwrap();
    assert_eq!(summary.result, VotingResult::InFavor);
    assert_eq!(summary.ty, VotingType::Informal);
    assert_eq!(e.summary(8).map(|_| ()), Err(Error::VotingDoesNotExist));
}

fn sb(n: u8, stake: u64) -> ShortenedBallot {
    ShortenedBallot { voter: addr(n), stake: u(stake) }
}

#[test]
fn finishing_refusals() {
    let mut e = engine_with_voting();
    assert_eq!(e.finish_voting(8, VotingType::Informal, 1_101, 20).map(|_| ()), Err(Error::VotingDoesNotExist));
    assert_eq!(
        e.finish_voting(7, VotingType::Formal, 1_101, 20).map(|_| ()),
        Err(Error::VotingWithGivenTypeNotInProgress)
    );
    // the informal voting time ends at 1_100, inclusive
    assert_eq!(
        e.finish_voting(7, VotingType::Informal, 1_100, 20).map(|_| ()),
        Err(Error::InformalVotingTimeNotReached)
    );
    e.finish_voting(7, VotingType::Informal, 1_101, 20).unwrap();
    assert_eq!(
        e.finish_voting(7, VotingType::Informal, 1_102, 21).map(|_| ()),
        Err(Error::FinishingCompletedVotingNotAllowed)
    );
    let late = e.vote(addr(3), 7, VotingType::Informal, Choice::InFavor, u(1), 1_050);
    assert_eq!(late.map(|_| ()), Err(Error::VoteOnCompletedVotingNotAllowed));
    // the formal voting time ends at 1_000 + 200
    assert_eq!(
        e.finish_voting(20, VotingType::Formal, 1_200, 0).map(|_| ()),
        Err(Error::FormalVotingTimeNotReached)
    );
    // a canceled voting cannot be finished
    let mut c = engine_with_voting();
    c.slash_voter(addr(1), 7).unwrap();
    assert_eq!(c.finish_voting(7, VotingType::Informal, 1_101, 20).map(|_| ()), Err(Error::VotingAlreadyCanceled));
}

#[test]
fn informal_pass_moves_the_creator_stake_to_the_formal_voting() {
    let mut e = engine_with_voting();
    e.vote(addr(2), 7, VotingType::Informal, Choice::Against, u(50), 1_020).unwrap();
    e.vote(addr(3), 7, VotingType::Informal, Choice::InFavor, u(30), 1_030).unwrap();
    let (summary, st, calls) = e.finish_voting(7, VotingType::Informal, 1_101, 20).unwrap();
    assert_eq!(summary.result, VotingResult::InFavor);
    assert_eq!(summary.ty, VotingType::Informal);
    assert_eq!(summary.formal_voting_id, Some(20));
    assert!(!summary.is_voting_process_finished());
    assert!(calls.is_empty());
    // every voter but the creator gets the stake back; nothing is burned
    assert_eq!(
        st.unstakes,
        vec![(sb(3, 30), Reason::InformalFinished), (sb(2, 50), Reason::InformalFinished)]
    );
    assert!(st.mints.is_empty());
    assert!(st.burns.is_empty());
    assert_eq!(st.formal_stake, Some(sb(1, 100)));
    let informal = e.get_voting(7).unwrap();
    assert!(informal.completed());
    assert_eq!(informal.formal_voting_id(), Some(20));
    let formal = e.get_voting(20).unwrap();
    assert_eq!(formal.get_voting_type(), VotingType::Formal);
    assert_eq!(formal.stake_in_favor(), u(100));
    assert_eq!(formal.stake_against(), u(0));
    assert_eq!(*formal.creator(), addr(1));
    // not a close result: the pause is not doubled
    assert_eq!(formal.voting_configuration().time_between_informal_and_formal_voting, 50);
    assert_eq!(e.all_voters(20, VotingType::Formal), vec![addr(1)]);
    assert_eq!(
        e.get_ballot(20, VotingType::Formal, addr(1)),
        Some(Ballot::new(addr(1), 20, VotingType::Formal, Choice::InFavor, u(100), false, false))
    );
}

#[test]
fn informal_rejection_burns_the_creator_stake() {
    let mut e = engine_with_voting();
    e.vote(addr(2), 7, VotingType::Informal, Choice::Against, u(200), 1_020).unwrap();
    let (summary, st, calls) = e.finish_voting(7, VotingType::Informal, 1_101, 20).unwrap();
    assert_eq!(summary.result, VotingResult::Against);
    assert_eq!(summary.formal_voting_id, None);
    assert!(summary.is_voting_process_finished());
    assert!(calls.is_empty());
    assert_eq!(st.unstakes, vec![(sb(2, 200), Reason::InformalFinished)]);
    assert_eq!(st.burns, vec![sb(1, 100)]);
    assert_eq!(st.formal_stake, None);
    assert!(e.get_voting(20).is_none());
    assert!(e.get_voting(7).unwrap().completed());
}

#[test]
fn informal_without_stake_moves_no_reputation() {
    let mut e = VotingEngine::new();
    let cfg = DaoConfiguration { informal_stake_reputation: false, ..config() };
    e.create_voting(addr(1), u(100), cfg, rules(), 7, 1_000, vec![]).unwrap();
    e.vote(addr(2), 7, VotingType::Informal, Choice::Against, u(200), 1_020).unwrap();
    let (summary, st, _) = e.finish_voting(7, VotingType::Informal, 1_101, 20).unwrap();
    assert_eq!(summary.result, VotingResult::Against);
    assert!(st.unstakes.is_empty() && st.burns.is_empty() && st.mints.is_empty());
}

#[test]
fn formal_in_favor_redistributes_and_performs() {
    let mut e = engine_with_voting();
    e.finish_voting(7, VotingType::Informal, 1_101, 20).unwrap();
    e.vote(addr(2), 20, VotingType::Formal, Choice::Against, u(40), 1_200).unwrap();
    let (summary, st, calls) = e.finish_voting(20, VotingType::Formal, 1_201, 0).unwrap();
    assert_eq!(summary.result, VotingResult::InFavor);
    assert_eq!(summary.ty, VotingType::Formal);
    assert!(summary.is_voting_process_finished());
    assert_eq!(calls, vec![burn_all()]);
    assert_eq!(st.unstakes, vec![(sb(1, 100), Reason::FormalFinished)]);
    assert_eq!(st.burns, vec![sb(2, 40)]);
    assert_eq!(st.mints, vec![(addr(1), u(40))]);
    assert!(e.get_voting(20).unwrap().completed());
}

#[test]
fn formal_against_redistributes_without_performing() {
    let mut e = engine_with_voting();
    e.finish_voting(7, VotingType::Informal, 1_101, 20).unwrap();
    e.vote(addr(2), 20, VotingType::Formal, Choice::Against, u(300), 1_200).unwrap();
    e.vote(addr(3), 20, VotingType::Formal, Choice::Against, u(100), 1_200).unwrap();
    let (summary, st, calls) = e.finish_voting(20, VotingType::Formal, 1_201, 0).unwrap();
    assert_eq!(summary.result, VotingResult::Against);
    assert!(calls.is_empty());
    assert_eq!(st.unstakes, vec![(sb(2, 300), Reason::FormalFinished), (sb(3, 100), Reason::FormalFinished)]);
    assert_eq!(st.burns, vec![sb(1, 100)]);
    // 100 * 300 / 400 and 100 * 100 / 400
    assert_eq!(st.mints, vec![(addr(2), u(75)), (addr(3), u(25))]);
}

#[test]
fn formal_without_quorum_burns_the_creator_stake() {
    let mut e = VotingEngine::new();
    let cfg = DaoConfiguration { governance_formal_voting_quorum: 3, ..config() };
    e.create_voting(addr(1), u(100), cfg, rules(), 7, 1_000, vec![]).unwrap();
    e.finish_voting(7, VotingType::Informal, 1_101, 20).unwrap();
    e.vote(addr(2), 20, VotingType::Formal, Choice::InFavor, u(10), 1_200).unwrap();
    let (summary, st, calls) = e.finish_voting(20, VotingType::Formal, 1_201, 0).unwrap();
    assert_eq!(summary.result, VotingResult::QuorumNotReached);
    assert!(calls.is_empty());
    assert_eq!(st.unstakes, vec![(sb(2, 10), Reason::FormalFinished)]);
    assert!(st.mints.is_empty());
    assert_eq!(st.burns, vec![sb(1, 100)]);
}

#[test]
fn overflowing_shares_are_refused() {
    let big = u(1 << 60).mul(u(1 << 60)).mul(u(1 << 60)).mul(u(1 << 60)).mul(u(1 << 60));
    let mut e = VotingEngine::new();
    e.create_voting(addr(1), big, config(), rules(), 7, 1_000, vec![]).unwrap();
    e.finish_voting(7, VotingType::Informal, 1_101, 20).unwrap();
    e.vote(addr(2), 20, VotingType::Formal, Choice::Against, big, 1_200).unwrap();
    let before = e.get_voting(20).unwrap();
    assert_eq!(e.finish_voting(20, VotingType::Formal, 1_201, 0).map(|_| ()), Err(Error::ArithmeticOverflow));
    assert!(!e.get_voting(20).unwrap().completed());
    assert_eq!(e.get_voting(20).unwrap().stake_against(), before.stake_against());
    assert_eq!(e.redistribute_reputation_of_no_voters(20, VotingType::Formal).map(|_| ()), Err(Error::ArithmeticOverflow));
}

#[test]
fn finishing_without_redistribution() {
    let mut e = engine_with_voting();
    e.vote(addr(2), 7, VotingType::Informal, Choice::Against, u(50), 1_020).unwrap();
    assert_eq!(
        e.finish_voting_without_token_redistribution(7, 1_100, 20).map(|_| ()),
        Err(Error::InformalVotingTimeNotReached)
    );
    assert_eq!(e.finish_voting_without_token_redistribution(8, 1_101, 20).map(|_| ()), Err(Error::VotingDoesNotExist));
    let (summary, calls) = e.finish_voting_without_token_redistribution(7, 1_101, 20).unwrap();
    assert_eq!(summary.result, VotingResult::InFavor);
    assert_eq!(summary.formal_voting_id, Some(20));
    assert!(calls.is_empty());
    // the formal voting starts without ballots
    assert_eq!(e.voters_count(20, VotingType::Formal), 0);
    assert_eq!(e.get_voting(20).unwrap().stake_in_favor(), u(0));
    assert_eq!(
        e.finish_voting_without_token_redistribution(7, 1_102, 21).map(|_| ()),
        Err(Error::FinishingCompletedVotingNotAllowed)
    );
    e.vote(addr(2), 20, VotingType::Formal, Choice::InFavor, u(5), 1_200).unwrap();
    let (summary, calls) = e.finish_voting_without_token_redistribution(20, 1_201, 0).unwrap();
    assert_eq!(summary.result, VotingResult::InFavor);
    assert_eq!(calls, vec![burn_all()]);
}

#[test]
fn slashing_cancels_ballot_or_voting() {
    let mut e = engine_with_voting();
    e.vote(addr(3), 7, VotingType::Informal, Choice::Against, u(50), 1_020).unwrap();
    match e.slash_voter(addr(3), 7).unwrap() {
        Slashed::BallotCanceled(b) => assert_eq!(b.stake, u(50)),
        other => panic!("unexpected {:?}", other),
    }
    assert_eq!(e.get_voting(7).unwrap().stake_against(), u(0));
    assert!(e.get_ballot(7, VotingType::Informal, addr(3)).unwrap().canceled);
    assert_eq!(e.slash_voter(addr(4), 7).map(|_| ()), Err(Error::BallotDoesNotExist));
    assert_eq!(e.slash_voter(addr(4), 8).map(|_| ()), Err(Error::VotingDoesNotExist));
    match e.slash_voter(addr(1), 7).unwrap() {
        Slashed::VotingCanceled(unstaked) => {
            // the canceled ballot is not unstaked again
            assert_eq!(unstaked, vec![ShortenedBallot { voter: addr(1), stake: u(100) }]);
        },
        other => panic!("unexpected {:?}", other),
    }
    assert!(e.get_voting(7).unwrap().is_canceled);
}

#[test]
fn bounding_and_recasting() {
    let mut e = VotingEngine::new();
    e.create_voting(addr(1), u(10), config(), rules(), 7, 0, vec![]).unwrap();
    let mut v = e.get_voting(7).unwrap();
    let (b, lock) = e.cast_ballot(addr(5), 7, Choice::InFavor, u(20), true, &mut v);
    assert!(b.unbounded);
    assert_eq!(lock, None);
    e.set_voting(v);
    assert_eq!(e.get_voting(7).unwrap().unbounded_stake_in_favor(), u(20));
    let bound = e.bound_ballot(7, addr(5), VotingType::Informal).unwrap();
    assert_eq!(bound, ShortenedBallot { voter: addr(5), stake: u(20) });
    let v = e.get_voting(7).unwrap();
    assert_eq!(v.unbounded_stake_in_favor(), u(0));
    assert_eq!(v.stake_in_favor(), u(30));
    assert!(!e.get_ballot(7, VotingType::Informal, addr(5)).unwrap().unbounded);
    assert_eq!(e.bound_ballot(7, addr(6), VotingType::Informal), Err(Error::BallotDoesNotExist));
    // the creator's informal ballot is cast again, in favor, on the voting given
    let mut v = e.get_voting(7).unwrap();
    let (again, _) = e.recast_creators_ballot_from_informal_to_formal(&mut v).unwrap();
    assert_eq!(again, Ballot::new(addr(1), 7, VotingType::Informal, Choice::InFavor, u(10), false, false));
    assert_eq!(v.stake_in_favor(), u(40));
}

#[test]
fn repo_voting_created_copies_the_configuration() {
    let mut e = VotingEngine::new();
    let (info, _) = e.create_voting(addr(1), u(10), config(), rules(), 3, 0, vec![]).unwrap();
    let ev = casper_dao::repo_voter::RepoVotingCreated::new(addr(9), "fee".to_string(), vec![1, 2], Some(5), info);
    assert_eq!(ev.variable_repo_to_edit, addr(9));
    assert_eq!(ev.key, "fee");
    assert_eq!(ev.value, vec![1, 2]);
    assert_eq!(ev.activation_time, Some(5));
    assert_eq!(ev.creator, addr(1));
    assert_eq!(ev.stake, Some(u(10)));
    assert_eq!(ev.voting_id, 3);
    assert_eq!(ev.config_informal_quorum, 1);
    assert_eq!(ev.config_formal_voting_time, 200);
    assert_eq!(ev.config_total_onboarded, u(3));
    assert!(ev.config_double_time_between_votings);
    assert_eq!(ev.config_time_between_informal_and_formal_voting, 50);
}

#[test]
fn stake_counters_follow_the_ballots() {
    let mut e = engine_with_voting();
    e.vote(addr(2), 7, VotingType::Informal, Choice::InFavor, u(5), 1_010).unwrap();
    e.vote(addr(3), 7, VotingType::Informal, Choice::Against, u(6), 1_010).unwrap();
    let v = e.get_voting(7).unwrap();
    assert_eq!(v.stake_in_favor(), u(105));
    assert_eq!(v.stake_against(), u(6));
    e.slash_voter(addr(2), 7).unwrap();
    assert_eq!(e.get_voting(7).unwrap().stake_in_favor(), u(100));
}

#[test]
fn voters_view_matches_lists() {
    let e = engine_with_voting();
    assert_eq!(e.voters().len((7, VotingType::Informal)), 1);
    assert_eq!(e.voters().get((7, VotingType::Informal), 0), Some(addr(1)));
}

#[test]
fn repo_voting_calls_update_at() {
    let call = casper_dao::repo_voter::update_at_call(addr(9), "fee".to_string(), vec![3], None);
    assert_eq!(call.repository, addr(9));
    assert_eq!(call.key, "fee");
    assert_eq!(call.value, vec![3]);
    assert_eq!(call.activation_time, None);
}

#[test]
fn ids_in_use_are_refused() {
    let mut e = engine_with_voting();
    let again = e.create_voting(addr(2), u(1), config(), rules(), 7, 1_010, vec![]);
    assert_eq!(again.map(|_| ()), Err(Error::VotingIdInUse));
    assert_eq!(e.get_voting(7).unwrap().stake_in_favor(), u(100));
    // the formal voting of a passing informal voting needs a free id
    assert_eq!(e.finish_voting(7, VotingType::Informal, 1_101, 7).map(|_| ()), Err(Error::VotingIdInUse));
    assert!(!e.get_voting(7).unwrap().completed());
    assert_eq!(
        e.finish_voting_without_token_redistribution(7, 1_101, 7).map(|_| ()),
        Err(Error::VotingIdInUse)
    );
}

#[test]
fn contract_calls_are_kept_until_the_formal_voting_passes() {
    let mut e = engine_with_voting();
    assert_eq!(e.contract_calls(7), Some(&vec![burn_all()]));
    assert_eq!(e.contract_calls(8), None);
    let (_, _, calls) = e.finish_voting(7, VotingType::Informal, 1_101, 20).unwrap();
    assert!(calls.is_empty());
    assert_eq!(e.contract_calls(7), Some(&vec![burn_all()]));
    let (_, _, calls) = e.finish_voting(20, VotingType::Formal, 1_201, 0).unwrap();
    assert_eq!(calls, vec![burn_all()]);
    // made once: they are no longer kept
    assert_eq!(e.contract_calls(7), None);
}

#[test]
fn rejected_formal_voting_makes_no_calls() {
    let mut e = engine_with_voting();
    e.finish_voting(7, VotingType::Informal, 1_101, 20).unwrap();
    e.vote(addr(2), 20, VotingType::Formal, Choice::Against, u(300), 1_200).unwrap();
    let (summary, _, calls) = e.finish_voting(20, VotingType::Formal, 1_201, 0).unwrap();
    assert_eq!(summary.result, VotingResult::Against);
    assert!(calls.is_empty());
    assert_eq!(e.contract_calls(7), Some(&vec![burn_all()]));
}

#[test]
fn slashing_voting_carries_its_burn_call() {
    let voter = SlashingVoterContract::new(addr(8));
    let mut e = VotingEngine::new();
    voter
        .create_voting(&mut e, addr(1), addr(9), 250, casper_dao::numeric::Uint256::from_u64(1000), u(10), config(), rules(), 4, 0)
        .unwrap();
    let expected = VotingCall::Slash(SlashCall::Burn {
        token: addr(8),
        owner: addr(9),
        amount: casper_dao::numeric::Uint256::from_u64(250),
    });
    assert_eq!(e.contract_calls(4), Some(&vec![expected]));
    voter
        .create_voting(&mut e, addr(1), addr(9), 1000, casper_dao::numeric::Uint256::from_u64(1000), u(10), config(), rules(), 5, 0)
        .unwrap();
    assert_eq!(e.contract_calls(5), Some(&vec![burn_all()]));
    let refused = voter.create_voting(&mut e, addr(1), addr(9), 1001, casper_dao::numeric::Uint256::from_u64(1), u(10), config(), rules(), 6, 0);
    assert_eq!(refused.map(|_| ()), Err(Error::InvalidSlashRatio));
    assert!(e.get_voting(6).is_none());
}

#[test]
fn repo_voting_carries_its_update_call() {
    let mut e = VotingEngine::new();
    let (event, lock) = casper_dao::repo_voter::create_repo_voting(
        &mut e, addr(9), "fee".to_string(), vec![7], Some(3), addr(1), u(10), config(), rules(), 2, 0,
    )
    .unwrap();
    assert_eq!(event.key, "fee");
    assert_eq!(event.voting_id, 2);
    assert_eq!(event.stake, Some(u(10)));
    assert_eq!(lock, Some(sb(1, 10)));
    let call = casper_dao::repo_voter::update_at_call(addr(9), "fee".to_string(), vec![7], Some(3));
    assert_eq!(e.contract_calls(2), Some(&vec![VotingCall::UpdateAt(call)]));
}
