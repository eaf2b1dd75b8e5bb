use casper_dao::address::Address;
use casper_dao::error::Error;
use casper_dao::numeric::Uint512;
use casper_dao::voting::{Choice, DaoConfiguration, Voting, VotingResult, VotingState, VotingSummary, VotingType};

fn config() -> DaoConfiguration {
    DaoConfiguration {
        informal_stake_reputation: true,
        informal_voting_time: 100,
        formal_voting_time: 200,
        governance_informal_voting_quorum: 2,
        governance_formal_voting_quorum: 3,
        time_between_informal_and_formal_voting: 50,
        voting_clearness_delta: Uint512::from_u64(8),
        total_onboarded: Uint512::from_u64(3),
        double_time_between_votings: true,
    }
}

fn creator() -> Address {
    Address::Account([1; 32])
}

fn u(v: u64) -> Uint512 {
    Uint512::from_u64(v)
}

#[test]
fn summary_process_finished() {
    let s = VotingSummary::new(VotingResult::Against, VotingType::Informal, 1, None);
    assert!(s.is_voting_process_finished());
    assert!(!s.is_formal());
    let s = VotingSummary::new(VotingResult::QuorumNotReached, VotingType::Informal, 1, None);
    assert!(s.is_voting_process_finished());
    let s = VotingSummary::new(VotingResult::InFavor, VotingType::Informal, 1, Some(2));
    assert!(!s.is_voting_process_finished());
    assert!(s.is_formal());
    assert_eq!(s.formal_voting_id(), Some(2));
    assert_eq!(s.result(), VotingResult::InFavor);
    assert_eq!(*s.voting_type(), VotingType::Informal);
    let s = VotingSummary::new(VotingResult::InFavor, VotingType::Formal, 1, Some(2));
    assert!(s.is_voting_process_finished());
}

#[test]
fn phases_follow_the_schedule() {
    let v = Voting::new(1, 1_000, creator(), config());
    assert_eq!(v.state(1_000), VotingState::Informal);
    assert_eq!(v.state(1_100), VotingState::Informal);
    assert_eq!(v.state(1_101), VotingState::BetweenVotings);
    assert_eq!(v.state(1_150), VotingState::BetweenVotings);
    assert_eq!(v.state(1_151), VotingState::Formal);
    assert_eq!(v.state(1_350), VotingState::Formal);
    assert_eq!(v.state(1_351), VotingState::Finished);
    assert_eq!(v.validate_vote(1_050), Ok(()));
    assert_eq!(v.validate_vote(1_120), Err(Error::VotingDuringTimeBetweenVotingsNotAllowed));
    assert_eq!(v.validate_vote(1_200), Ok(()));
    assert_eq!(v.validate_vote(2_000), Err(Error::VoteOnCompletedVotingNotAllowed));
    assert!(!v.can_be_completed(1_200));
    assert!(v.can_be_completed(2_000));
    // still in the informal voting time up to its end, inclusive
    assert!(v.is_in_time(1_099));
    assert!(v.is_in_time(1_100));
    assert!(!v.is_in_time(1_101));
}

#[test]
fn results_by_quorum_and_stake() {
    let mut v = Voting::new(1, 0, creator(), config());
    assert_eq!(v.get_voting_type(), VotingType::Informal);
    assert_eq!(v.get_quorum(), 2);
    assert_eq!(v.get_result(1), VotingResult::QuorumNotReached);
    // a tie passes
    assert_eq!(v.get_result(2), VotingResult::InFavor);
    v.add_stake(u(10), Choice::Against);
    assert_eq!(v.get_result(2), VotingResult::Against);
    assert_eq!(v.get_winning_stake(), u(10));
    v.add_stake(u(15), Choice::InFavor);
    assert_eq!(v.get_result(5), VotingResult::InFavor);
    assert_eq!(v.get_winning_stake(), u(15));
    assert_eq!(v.total_bounded_stake(), u(25));
    v.add_unbounded_stake(u(5), Choice::Against);
    assert_eq!(v.total_unbounded_stake(), u(5));
    assert_eq!(v.total_stake(), u(30));
    v.bound_stake(u(5), Choice::Against);
    assert_eq!(v.stake_against(), u(15));
    assert_eq!(v.unbounded_stake_against(), u(0));
    assert_eq!(v.total_stake(), u(30));
    v.remove_stake(u(15), Choice::Against);
    assert_eq!(v.stake_against(), u(0));
    v.remove_unbounded_stake(u(0), Choice::InFavor);
    assert_eq!(v.unbounded_stake_in_favor(), u(0));
}

#[test]
fn close_result_doubles_the_pause() {
    let mut v = Voting::new(1, 0, creator(), config());
    v.add_stake(u(52), Choice::InFavor);
    v.add_stake(u(48), Choice::Against);
    // 4 percent apart, delta 8: close
    assert!(v.is_result_close());
    let f = v.create_formal_voting(2);
    assert_eq!(f.get_voting_type(), VotingType::Formal);
    assert_eq!(f.voting_configuration().time_between_informal_and_formal_voting, 100);
    assert_eq!(f.formal_voting_id(), Some(2));
    assert_eq!(f.informal_voting_id(), 1);
    assert_eq!(f.stake_in_favor(), u(0));
    assert_eq!(f.get_quorum(), 3);
    let mut w = Voting::new(1, 0, creator(), config());
    w.add_stake(u(80), Choice::InFavor);
    w.add_stake(u(20), Choice::Against);
    assert!(!w.is_result_close());
    let g = w.create_formal_voting(2);
    assert_eq!(g.voting_configuration().time_between_informal_and_formal_voting, 50);
}

#[test]
fn complete_and_cancel() {
    let mut v = Voting::new(1, 0, creator(), config());
    assert!(!v.completed());
    v.complete(None);
    assert!(v.completed());
    assert_eq!(v.formal_voting_id(), None);
    v.complete(Some(4));
    assert_eq!(v.formal_voting_id(), Some(4));
    v.cancel();
    assert!(v.is_canceled);
    assert_eq!(*v.creator(), creator());
    assert_eq!(v.start_time(), 0);
    assert_eq!(v.voting_id(), 1);
    assert_eq!(v.informal_voting_quorum(), 2);
    assert_eq!(v.formal_voting_quorum(), 3);
    assert_eq!(v.informal_voting_time(), 100);
    assert_eq!(v.formal_voting_time(), 200);
    assert!(!v.is_informal_without_stake());
    let mut c = config();
    c.informal_stake_reputation = false;
    let w = Voting::new(1, 0, creator(), c);
    assert!(w.is_informal_without_stake());
}
