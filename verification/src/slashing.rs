use vstd::prelude::*;
use crate::address::Address;
use crate::error::Error;
use crate::numeric::{u256_modulus, Uint256, Uint512};
use crate::engine::{creation_outcome, CreationRules, VotingCreatedInfo, VotingEngine};
use crate::ballot::ShortenedBallot;
use crate::voting::{DaoConfiguration, VotingCall, VotingId, VotingType};

verus! {

/// The call on the reputation token that a slashing voting performs when it passes.
#[derive(Clone, Copy, Debug, PartialEq, Eq)]
pub enum SlashCall {
    /// Burn all the reputation of `owner` (entry point `burn_all`).
    BurnAll { token: Address, owner: Address },
    /// Burn `amount` of the reputation of `owner` (entry point `burn`).
    Burn { token: Address, owner: Address, amount: Uint256 },
}

/// `call` is the call that slashing `address_to_slash` by `slash_ratio` thousandths of its
/// `current_reputation` makes on the reputation token `token`: a ratio of 1000 burns all
/// its reputation, a smaller one burns that many thousandths of it (rounded down).
pub open spec fn is_slash_call(
    token: Address,
    address_to_slash: Address,
    slash_ratio: u32,
    current_reputation: Uint256,
    call: SlashCall,
) -> bool {
    match call {
        SlashCall::BurnAll { token: t, owner } => slash_ratio == 1000 && t == token && owner
            == address_to_slash,
        SlashCall::Burn { token: t, owner, amount } => slash_ratio < 1000 && t == token && owner
            == address_to_slash && amount@ == current_reputation@ * slash_ratio / 1000,
    }
}

/// Votes on slashing the reputation of an address; the slash ratio is given in
/// thousandths.
pub struct SlashingVoterContract {
    reputation_token: Address,
}

impl SlashingVoterContract {
    pub closed spec fn token(&self) -> Address {
        self.reputation_token
    }

    pub fn new(reputation_token: Address) -> (contract: Self)
        ensures
            contract.token() == reputation_token,
    {
        SlashingVoterContract { reputation_token }
    }

    /// The address of the reputation token.
    pub fn reputation_token_address(&self) -> (token: Address)
        ensures
            token == self.token(),
    {
        self.reputation_token
    }

    /// The call that a slashing voting on `address_to_slash` is to perform: a ratio of
    /// 1000 burns all its reputation, a smaller ratio burns that many thousandths of its
    /// `current_reputation` (rounded down), and a larger one is refused with
    /// `InvalidSlashRatio` (revert code 666).
    pub fn slashing_call(
        &self,
        address_to_slash: Address,
        slash_ratio: u32,
        current_reputation: Uint256,
    ) -> (call: Result<SlashCall, Error>)
        requires
            slash_ratio < 1000 ==> current_reputation@ * slash_ratio < u256_modulus(),
        ensures
            match call {
                Ok(c) => is_slash_call(self.token(), address_to_slash, slash_ratio, current_reputation, c),
                Err(e) => slash_ratio > 1000 && e == Error::InvalidSlashRatio,
            },
    {
        if slash_ratio == 1000 {
            Ok(SlashCall::BurnAll { token: self.reputation_token, owner: address_to_slash })
        } else if slash_ratio < 1000 {
            let amount = current_reputation.mul_u32(slash_ratio).div_u32(1000);
            Ok(SlashCall::Burn { token: self.reputation_token, owner: address_to_slash, amount })
        } else {
            Err(Error::InvalidSlashRatio)
        }
    }

    /// Creates a voting on slashing `address_to_slash` by `slash_ratio` thousandths of its
    /// `current_reputation`: the voting is created as [`VotingEngine::create_voting`] does,
    /// and carries the one call of [`Self::slashing_call`]. A ratio above 1000 is refused
    /// with `InvalidSlashRatio` before anything is created.
    pub fn create_voting(
        &self,
        engine: &mut VotingEngine,
        creator: Address,
        address_to_slash: Address,
        slash_ratio: u32,
        current_reputation: Uint256,
        stake: Uint512,
        configuration: DaoConfiguration,
        creation: CreationRules,
        voting_id: VotingId,
        block_time: u64,
    ) -> (created: Result<(VotingCreatedInfo, Option<ShortenedBallot>), Error>)
        requires
            old(engine).wf(),
            slash_ratio < 1000 ==> current_reputation@ * slash_ratio < u256_modulus(),
            creation.should_cast_first_vote ==> block_time + configuration.informal_voting_time
                + configuration.time_between_informal_and_formal_voting
                + configuration.formal_voting_time <= u64::MAX,
            creation.should_cast_first_vote && !old(engine).ballot_map().contains_key(
                (voting_id, VotingType::Informal, creator),
            ) ==> old(engine).voter_list(voting_id, VotingType::Informal).len() < u32::MAX,
        ensures
            final(engine).wf(),
            if slash_ratio > 1000 {
                &&& created == Err::<(VotingCreatedInfo, Option<ShortenedBallot>), Error>(Error::InvalidSlashRatio)
                &&& *final(engine) == *old(engine)
            } else {
                exists|c: SlashCall|
                    #[trigger] is_slash_call(self.token(), address_to_slash, slash_ratio, current_reputation, c)
                        && creation_outcome(
                        *old(engine),
                        *final(engine),
                        creator,
                        stake,
                        configuration,
                        creation,
                        voting_id,
                        block_time,
                        seq![VotingCall::Slash(c)],
                        created,
                    )
            },
    {
        let call = match self.slashing_call(address_to_slash, slash_ratio, current_reputation) {
            Ok(c) => c,
            Err(e) => {
                return Err(e);
            },
        };
        let calls = vec![VotingCall::Slash(call)];
        assert(calls@ == seq![VotingCall::Slash(call)]);
        engine.create_voting(creator, stake, configuration, creation, voting_id, block_time, calls)
    }
}

/// Slashing never burns more than the reputation held, burns more the higher the
/// ratio, burns all of it at a ratio of 1000, and burns a part of it below 1000.
pub proof fn law_slash_bounded_and_monotone(
    token: Address,
    address_to_slash: Address,
    ratio1: u32,
    ratio2: u32,
    current_reputation: Uint256,
    call1: SlashCall,
    call2: SlashCall,
)
    requires
        is_slash_call(token, address_to_slash, ratio1, current_reputation, call1),
        is_slash_call(token, address_to_slash, ratio2, current_reputation, call2),
        ratio1 <= ratio2,
    ensures
        ratio1 == 1000 <==> call1 is BurnAll,
        call1 matches SlashCall::Burn { amount, .. } ==> amount@ <= current_reputation@,
        call1 matches SlashCall::Burn { amount: a1, .. } ==> (call2 matches SlashCall::Burn { amount: a2, .. }
            ==> a1@ <= a2@),
        call1 matches SlashCall::Burn { token: t, owner, .. } ==> t == token && owner == address_to_slash,
{
    let rep = current_reputation@ as int;
    if let SlashCall::Burn { amount: a1, .. } = call1 {
        vstd::arithmetic::mul::lemma_mul_inequality(ratio1 as int, 1000, rep);
        vstd::arithmetic::div_mod::lemma_div_is_ordered(ratio1 as int * rep, 1000 * rep, 1000);
        vstd::arithmetic::div_mod::lemma_div_multiples_vanish(rep, 1000);
        assert(rep * ratio1 == ratio1 as int * rep) by (nonlinear_arith);
        if let SlashCall::Burn { amount: a2, .. } = call2 {
            vstd::arithmetic::mul::lemma_mul_inequality(ratio1 as int, ratio2 as int, rep);
            vstd::arithmetic::div_mod::lemma_div_is_ordered(ratio1 as int * rep, ratio2 as int * rep, 1000);
            assert(rep * ratio2 == ratio2 as int * rep) by (nonlinear_arith);
        }
    }
}

} // verus!
