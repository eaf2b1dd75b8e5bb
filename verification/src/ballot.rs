use vstd::prelude::*;
use crate::address::Address;
use crate::keys::StorageKey;
use crate::numeric::{u512_modulus, Uint512};
use crate::voting::{Choice, Voting, VotingId, VotingType};

verus! {

/// A vote cast on a voting.
#[derive(Clone, Copy, Debug, PartialEq, Eq)]
pub struct Ballot {
    pub voter: Address,
    pub voting_id: VotingId,
    pub voting_type: VotingType,
    pub choice: Choice,
    pub stake: Uint512,
    pub unbounded: bool,
    pub canceled: bool,
}

impl Ballot {
    pub fn new(
        voter: Address,
        voting_id: VotingId,
        voting_type: VotingType,
        choice: Choice,
        stake: Uint512,
        unbounded: bool,
        canceled: bool,
    ) -> (ballot: Self)
        ensures
            ballot == (Ballot { voter, voting_id, voting_type, choice, stake, unbounded, canceled }),
    {
        Ballot { voter, voting_id, voting_type, choice, stake, unbounded, canceled }
    }
}

/// What the reputation token needs of a ballot: who staked, and how much.
#[derive(Clone, Copy, Debug, PartialEq, Eq)]
pub struct ShortenedBallot {
    pub voter: Address,
    pub stake: Uint512,
}

/// The shortened form of a ballot.
pub open spec fn shortened(ballot: Ballot) -> ShortenedBallot {
    ShortenedBallot { voter: ballot.voter, stake: ballot.stake }
}

impl ShortenedBallot {
    pub fn from_ballot(ballot: &Ballot) -> (short: Self)
        ensures
            short == shortened(*ballot),
    {
        ShortenedBallot { voter: ballot.voter, stake: ballot.stake }
    }
}

/// Why reputation moves when a voting is finished.
#[derive(Clone, Copy, Debug, PartialEq, Eq, Structural)]
pub enum Reason {
    InformalFinished,
    FormalFinished,
    FormalWon,
    FormalLost,
}

/// Each shortened ballot with a reason.
pub open spec fn tagged(ballots: Seq<ShortenedBallot>, reason: Reason) -> Seq<(ShortenedBallot, Reason)> {
    ballots.map_values(|b: ShortenedBallot| (b, reason))
}

/// Appends each ballot of `source`, with `reason`, to `target`.
pub fn add_to_map(
    target: &mut Vec<(ShortenedBallot, Reason)>,
    reason: Reason,
    source: &Vec<ShortenedBallot>,
)
    ensures
        final(target)@ == old(target)@ + tagged(source@, reason),
{
    let ghost start = target@;
    let mut i: usize = 0;
    while i < source.len()
        invariant
            i <= source@.len(),
            target@ == start + tagged(source@.take(i as int), reason),
        decreases source@.len() - i,
    {
        target.push((source[i], reason));
        assert(source@.take(i + 1) =~= source@.take(i as int).push(source@[i as int]));
        assert(tagged(source@.take(i + 1), reason) =~= tagged(source@.take(i as int), reason).push((source@[i as int], reason)));
        i = i + 1;
    }
    assert(source@.take(source@.len() as int) =~= source@);
}

/// The reputation movements of a finished voting.
#[derive(Debug)]
pub struct Settlement {
    /// Stake returned to the voters, with the reason.
    pub unstakes: Vec<(ShortenedBallot, Reason)>,
    /// Reputation minted to the winning voters (reason `FormalWon`).
    pub mints: Vec<(Address, Uint512)>,
    /// Stake burned: the losing voters' after a formal result, or the creator's where
    /// the voting does not pass.
    pub burns: Vec<ShortenedBallot>,
    /// The creator's stake that the reputation token locks on the formal voting that
    /// follows a passing informal voting.
    pub formal_stake: Option<ShortenedBallot>,
}

/// Which ballots a settlement step picks.
#[derive(Clone, Copy, Debug, PartialEq, Eq)]
pub enum Selection {
    /// Bound ballots in favor.
    BoundInFavor,
    /// Bound ballots against.
    BoundAgainst,
    /// Bound ballots that were not canceled.
    BoundActive,
    /// Bound ballots in favor of voters other than the given one.
    BoundInFavorExcept(Address),
    /// Bound ballots against of voters other than the given one.
    BoundAgainstExcept(Address),
    /// Bound ballots of the given voter.
    BoundOf(Address),
}

/// Whether `selection` picks `ballot`.
pub open spec fn spec_picks(selection: Selection, ballot: Ballot) -> bool {
    match selection {
        Selection::BoundInFavor => ballot.choice == Choice::InFavor && !ballot.unbounded,
        Selection::BoundAgainst => ballot.choice == Choice::Against && !ballot.unbounded,
        Selection::BoundActive => !ballot.unbounded && !ballot.canceled,
        Selection::BoundInFavorExcept(a) => ballot.choice == Choice::InFavor && !ballot.unbounded
            && ballot.voter != a,
        Selection::BoundAgainstExcept(a) => ballot.choice == Choice::Against && !ballot.unbounded
            && ballot.voter != a,
        Selection::BoundOf(a) => !ballot.unbounded && ballot.voter == a,
    }
}

impl Selection {
    pub fn picks(&self, ballot: &Ballot) -> (picked: bool)
        ensures
            picked == spec_picks(*self, *ballot),
    {
        match self {
            Selection::BoundInFavor => ballot.choice.is_in_favor() && !ballot.unbounded,
            Selection::BoundAgainst => ballot.choice.is_against() && !ballot.unbounded,
            Selection::BoundActive => !ballot.unbounded && !ballot.canceled,
            Selection::BoundInFavorExcept(a) => ballot.choice.is_in_favor() && !ballot.unbounded
                && !ballot.voter.key_eq(a),
            Selection::BoundAgainstExcept(a) => ballot.choice.is_against() && !ballot.unbounded
                && !ballot.voter.key_eq(a),
            Selection::BoundOf(a) => !ballot.unbounded && ballot.voter.key_eq(a),
        }
    }
}

/// The shortened ballots that `selection` picks, in order.
pub open spec fn selected_ballots(ballots: Seq<Ballot>, selection: Selection) -> Seq<ShortenedBallot> {
    ballots.filter(|b: Ballot| spec_picks(selection, b)).map_values(|b: Ballot| shortened(b))
}

pub proof fn lemma_selected_step(ballots: Seq<Ballot>, i: int, selection: Selection)
    requires
        0 <= i < ballots.len(),
    ensures
        selected_ballots(ballots.take(i + 1), selection) == if spec_picks(selection, ballots[i]) {
            selected_ballots(ballots.take(i), selection).push(shortened(ballots[i]))
        } else {
            selected_ballots(ballots.take(i), selection)
        },
{
    let p = |b: Ballot| spec_picks(selection, b);
    let t = ballots.take(i + 1);
    assert(t.drop_last() =~= ballots.take(i));
    assert(t.last() == ballots[i]);
    reveal(Seq::filter);
    assert(t.filter(p) == if p(ballots[i]) {
        ballots.take(i).filter(p).push(ballots[i])
    } else {
        ballots.take(i).filter(p)
    });
    if p(ballots[i]) {
        assert(ballots.take(i).filter(p).push(ballots[i]).map_values(|b: Ballot| shortened(b))
            =~= ballots.take(i).filter(p).map_values(|b: Ballot| shortened(b)).push(
            shortened(ballots[i]),
        ));
    }
}

/// The other choice.
pub open spec fn other_choice(choice: Choice) -> Choice {
    match choice {
        Choice::InFavor => Choice::Against,
        Choice::Against => Choice::InFavor,
    }
}

/// The selection of the bound ballots of a choice.
pub open spec fn losing_selection(choice: Choice) -> Selection {
    match choice {
        Choice::InFavor => Selection::BoundInFavor,
        Choice::Against => Selection::BoundAgainst,
    }
}

/// The bound stake of a voting on a choice.
pub open spec fn total_of(voting: Voting, choice: Choice) -> nat {
    match choice {
        Choice::InFavor => voting.stake_in_favor@,
        Choice::Against => voting.stake_against@,
    }
}

/// The bound ballots of a choice, in order.
pub open spec fn bound_ballots_of(ballots: Seq<Ballot>, choice: Choice) -> Seq<Ballot> {
    ballots.filter(|b: Ballot| b.choice == choice && !b.unbounded)
}

/// Each winner gets `losing_total * stake / winning_total` minted, in order.
pub open spec fn mints_match(
    mints: Seq<(Address, Uint512)>,
    winners: Seq<Ballot>,
    losing_total: nat,
    winning_total: nat,
) -> bool {
    &&& mints.len() == winners.len()
    &&& forall|i: int|
        0 <= i < mints.len() ==> #[trigger] mints[i].0 == winners[i].voter && mints[i].1@
            == losing_total * winners[i].stake@ / winning_total
}

/// A bound ballot of the winning side (the other choice than `losing`).
pub open spec fn is_winner(ballot: Ballot, losing: Choice) -> bool {
    ballot.choice == other_choice(losing) && !ballot.unbounded
}

/// The shares of the losing side's stake can be divided: where there is a bound
/// winning ballot, the winning side's bound stake is positive.
pub open spec fn redistribution_defined(voting: Voting, ballots: Seq<Ballot>, losing: Choice) -> bool {
    forall|i: int|
        0 <= i < ballots.len() && #[trigger] is_winner(ballots[i], losing) ==> total_of(
            voting,
            other_choice(losing),
        ) > 0
}

/// For some bound winning ballot, the product of the losing side's bound stake and the
/// ballot's stake does not fit in 512 bits.
pub open spec fn mint_overflows(voting: Voting, ballots: Seq<Ballot>, losing: Choice) -> bool {
    exists|i: int|
        0 <= i < ballots.len() && #[trigger] is_winner(ballots[i], losing) && total_of(
            voting,
            losing,
        ) * ballots[i].stake@ >= u512_modulus()
}

/// No two of the ballots belong to the same voter.
pub open spec fn ballot_voters_distinct(ballots: Seq<Ballot>) -> bool {
    forall|i: int, j: int| 0 <= i < j < ballots.len() ==> #[trigger] ballots[i].voter != #[trigger] ballots[j].voter
}

/// No two of the shortened ballots belong to the same voter.
pub open spec fn voters_distinct(ballots: Seq<ShortenedBallot>) -> bool {
    forall|i: int, j: int| 0 <= i < j < ballots.len() ==> #[trigger] ballots[i].voter != #[trigger] ballots[j].voter
}

/// No address gets two mints.
pub open spec fn mint_addresses_distinct(mints: Seq<(Address, Uint512)>) -> bool {
    forall|i: int, j: int| 0 <= i < j < mints.len() ==> #[trigger] mints[i].0 != #[trigger] mints[j].0
}

proof fn lemma_filter_prefix_distinct(ballots: Seq<Ballot>, p: spec_fn(Ballot) -> bool, n: int)
    requires
        ballot_voters_distinct(ballots),
        0 <= n <= ballots.len(),
    ensures
        ballot_voters_distinct(ballots.take(n).filter(p)),
        forall|k: int|
            #![trigger ballots.take(n).filter(p)[k]]
            0 <= k < ballots.take(n).filter(p).len() ==> exists|j: int|
                0 <= j < n && #[trigger] ballots[j].voter == ballots.take(n).filter(p)[k].voter,
    decreases n,
{
    if n == 0 {
        reveal(Seq::filter);
        assert(ballots.take(0) =~= Seq::<Ballot>::empty());
        assert(ballots.take(0).filter(p).len() == 0);
    } else {
        lemma_filter_prefix_distinct(ballots, p, n - 1);
        lemma_filter_step(ballots, n - 1, p);
        let prev = ballots.take(n - 1).filter(p);
        let cur = ballots.take(n).filter(p);
        if p(ballots[n - 1]) {
            assert(cur == prev.push(ballots[n - 1]));
            assert forall|i: int, j: int| 0 <= i < j < cur.len() implies #[trigger] cur[i].voter != #[trigger] cur[j].voter by {
                if j == prev.len() {
                    let j0 = choose|j0: int| 0 <= j0 < n - 1 && #[trigger] ballots[j0].voter == prev[i].voter;
                    assert(ballots[j0].voter != ballots[n - 1].voter);
                } else {
                    assert(cur[i] == prev[i] && cur[j] == prev[j]);
                }
            }
            assert forall|k: int| #![trigger cur[k]] 0 <= k < cur.len() implies exists|j: int|
                0 <= j < n && #[trigger] ballots[j].voter == cur[k].voter by {
                if k == prev.len() {
                    assert(ballots[n - 1].voter == cur[k].voter);
                } else {
                    assert(cur[k] == prev[k]);
                    let j0 = choose|j0: int| 0 <= j0 < n - 1 && #[trigger] ballots[j0].voter == prev[k].voter;
                    assert(ballots[j0].voter == cur[k].voter);
                }
            }
        } else {
            assert(cur == prev);
            assert forall|k: int| #![trigger cur[k]] 0 <= k < cur.len() implies exists|j: int|
                0 <= j < n && #[trigger] ballots[j].voter == cur[k].voter by {
                let j0 = choose|j0: int| 0 <= j0 < n - 1 && #[trigger] ballots[j0].voter == prev[k].voter;
                assert(ballots[j0].voter == cur[k].voter);
            }
        }
    }
}

/// Picking some of the ballots of distinct voters leaves ballots of distinct voters.
pub proof fn lemma_filter_voters_distinct(ballots: Seq<Ballot>, p: spec_fn(Ballot) -> bool)
    requires
        ballot_voters_distinct(ballots),
    ensures
        ballot_voters_distinct(ballots.filter(p)),
{
    lemma_filter_prefix_distinct(ballots, p, ballots.len() as int);
    assert(ballots.take(ballots.len() as int) =~= ballots);
}

/// The ballots that a selection picks from ballots of distinct voters belong to
/// distinct voters.
pub proof fn lemma_selected_voters_distinct(ballots: Seq<Ballot>, selection: Selection)
    requires
        ballot_voters_distinct(ballots),
    ensures
        voters_distinct(selected_ballots(ballots, selection)),
{
    let p = |b: Ballot| spec_picks(selection, b);
    lemma_filter_voters_distinct(ballots, p);
    let f = ballots.filter(p);
    let s = selected_ballots(ballots, selection);
    assert forall|i: int, j: int| 0 <= i < j < s.len() implies #[trigger] s[i].voter != #[trigger] s[j].voter by {
        assert(s[i].voter == f[i].voter && s[j].voter == f[j].voter);
    }
}

/// A selection gives the shortened ballots of exactly the ballots it picks: each of
/// them is that of a picked ballot of `ballots`, and each picked ballot's is among them.
pub proof fn lemma_selected_members(ballots: Seq<Ballot>, selection: Selection)
    ensures
        forall|k: int|
            #![trigger selected_ballots(ballots, selection)[k]]
            0 <= k < selected_ballots(ballots, selection).len() ==> exists|i: int|
                #![trigger ballots[i]]
                0 <= i < ballots.len() && spec_picks(selection, ballots[i]) && shortened(ballots[i])
                    == selected_ballots(ballots, selection)[k],
        forall|i: int|
            #![trigger ballots[i]]
            0 <= i < ballots.len() && spec_picks(selection, ballots[i]) ==> selected_ballots(
                ballots,
                selection,
            ).contains(shortened(ballots[i])),
{
    let p = |b: Ballot| spec_picks(selection, b);
    let f = ballots.filter(p);
    let sel = selected_ballots(ballots, selection);
    assert forall|k: int| #![trigger sel[k]] 0 <= k < sel.len() implies exists|i: int|
        #![trigger ballots[i]]
        0 <= i < ballots.len() && spec_picks(selection, ballots[i]) && shortened(ballots[i]) == sel[k] by {
        ballots.lemma_filter_pred(p, k);
        assert(p(f[k]));
        assert(f.contains(f[k]));
        ballots.lemma_filter_contains_rev(p, f[k]);
        let i = choose|i: int| 0 <= i < ballots.len() && ballots[i] == f[k];
        assert(shortened(ballots[i]) == sel[k]);
    }
    assert forall|i: int| #![trigger ballots[i]] 0 <= i < ballots.len() && spec_picks(selection, ballots[i]) implies sel.contains(
        shortened(ballots[i]),
    ) by {
        assert(p(ballots[i]));
        ballots.lemma_filter_contains(p, i);
        assert(f.contains(ballots[i]));
        let j = choose|j: int| 0 <= j < f.len() && f[j] == ballots[i];
        assert(sel[j] == shortened(ballots[i]));
    }
}

/// Canceling a voting unlocks only stake that was locked, and all of it: every ballot
/// whose stake it unlocks is bound and not canceled, and every bound ballot that is not
/// canceled has its stake unlocked.
pub proof fn law_cancel_unlocks_locked_stake(ballots: Seq<Ballot>)
    ensures
        forall|k: int|
            #![trigger selected_ballots(ballots, Selection::BoundActive)[k]]
            0 <= k < selected_ballots(ballots, Selection::BoundActive).len() ==> exists|i: int|
                #![trigger ballots[i]]
                0 <= i < ballots.len() && !ballots[i].unbounded && !ballots[i].canceled
                    && shortened(ballots[i]) == selected_ballots(ballots, Selection::BoundActive)[k],
        forall|i: int|
            #![trigger ballots[i]]
            0 <= i < ballots.len() && !ballots[i].unbounded && !ballots[i].canceled
                ==> selected_ballots(ballots, Selection::BoundActive).contains(shortened(ballots[i])),
{
    lemma_selected_members(ballots, Selection::BoundActive);
}

pub proof fn lemma_filter_step<A>(s: Seq<A>, i: int, p: spec_fn(A) -> bool)
    requires
        0 <= i < s.len(),
    ensures
        s.take(i + 1).filter(p) == if p(s[i]) {
            s.take(i).filter(p).push(s[i])
        } else {
            s.take(i).filter(p)
        },
{
    let t = s.take(i + 1);
    assert(t.drop_last() =~= s.take(i));
    assert(t.last() == s[i]);
    reveal(Seq::filter);
}

/// The stake that a ballot counts toward the counter of a choice and kind: its stake
/// when it is of that choice and kind and not canceled.
pub open spec fn contribution(ballot: Ballot, choice: Choice, unbounded: bool) -> nat {
    if ballot.choice == choice && ballot.unbounded == unbounded && !ballot.canceled {
        ballot.stake@
    } else {
        0
    }
}

/// The stake that a list of ballots counts toward the counter of a choice and kind.
pub open spec fn counted_stake(ballots: Seq<Ballot>, choice: Choice, unbounded: bool) -> nat
    decreases ballots.len(),
{
    if ballots.len() == 0 {
        0
    } else {
        counted_stake(ballots.drop_last(), choice, unbounded) + contribution(
            ballots.last(),
            choice,
            unbounded,
        )
    }
}

pub proof fn lemma_counted_stake_update(ballots: Seq<Ballot>, i: int, ballot: Ballot, choice: Choice, unbounded: bool)
    requires
        0 <= i < ballots.len(),
    ensures
        counted_stake(ballots.update(i, ballot), choice, unbounded) + contribution(ballots[i], choice, unbounded)
            == counted_stake(ballots, choice, unbounded) + contribution(ballot, choice, unbounded),
    decreases ballots.len(),
{
    let u = ballots.update(i, ballot);
    if i == ballots.len() - 1 {
        assert(u.drop_last() =~= ballots.drop_last());
    } else {
        lemma_counted_stake_update(ballots.drop_last(), i, ballot, choice, unbounded);
        assert(u.drop_last() =~= ballots.drop_last().update(i, ballot));
    }
}

/// The sum of the amounts of a list of mints.
pub open spec fn mint_sum(mints: Seq<(Address, Uint512)>) -> nat
    decreases mints.len(),
{
    if mints.len() == 0 {
        0
    } else {
        mint_sum(mints.drop_last()) + mints.last().1@
    }
}

/// The sum of the stakes of a list of ballots.
pub open spec fn stake_sum(ballots: Seq<Ballot>) -> nat
    decreases ballots.len(),
{
    if ballots.len() == 0 {
        0
    } else {
        stake_sum(ballots.drop_last()) + ballots.last().stake@
    }
}

pub proof fn lemma_mint_sum_scaled(
    mints: Seq<(Address, Uint512)>,
    winners: Seq<Ballot>,
    losing_total: nat,
    winning_total: nat,
)
    requires
        mints_match(mints, winners, losing_total, winning_total),
        winning_total > 0,
    ensures
        winning_total * mint_sum(mints) <= losing_total * stake_sum(winners),
    decreases mints.len(),
{
    if mints.len() > 0 {
        let m0 = mints.drop_last();
        let w0 = winners.drop_last();
        assert(mints_match(m0, w0, losing_total, winning_total)) by {
            assert forall|i: int| 0 <= i < m0.len() implies #[trigger] m0[i].0 == w0[i].voter
                && m0[i].1@ == losing_total * w0[i].stake@ / winning_total by {
                assert(m0[i] == mints[i]);
                assert(w0[i] == winners[i]);
            }
        }
        lemma_mint_sum_scaled(m0, w0, losing_total, winning_total);
        let last = mints.len() - 1;
        let s = winners[last].stake@;
        let a = mints[last].1@;
        assert(mints[last].0 == winners[last].voter);
        assert(a == losing_total * s / winning_total);
        assert(mints.last() == mints[last]);
        assert(winners.last() == winners[last]);
        assert(mint_sum(mints) == mint_sum(m0) + a);
        assert(stake_sum(winners) == stake_sum(w0) + s);
        let ms = mint_sum(m0);
        let ss = stake_sum(w0);
        assert(winning_total * (ms + a) <= losing_total * (ss + s)) by (nonlinear_arith)
            requires
                winning_total * ms <= losing_total * ss,
                a == losing_total * s / winning_total,
                winning_total > 0,
        ;
    } else {
        assert(mint_sum(mints) == 0);
        assert(winning_total * mint_sum(mints) == 0) by (nonlinear_arith)
            requires
                mint_sum(mints) == 0,
        ;
    }
}

/// The reputation minted to the winners never exceeds the losing side's stake, as long
/// as the winners' stakes add up to at most the winning side's stake.
pub proof fn law_mints_bounded_by_losing_stake(
    mints: Seq<(Address, Uint512)>,
    winners: Seq<Ballot>,
    losing_total: nat,
    winning_total: nat,
)
    requires
        mints_match(mints, winners, losing_total, winning_total),
        winning_total > 0,
        stake_sum(winners) <= winning_total,
    ensures
        mint_sum(mints) <= losing_total,
{
    lemma_mint_sum_scaled(mints, winners, losing_total, winning_total);
    let ms = mint_sum(mints);
    let ss = stake_sum(winners);
    assert(ms <= losing_total) by (nonlinear_arith)
        requires
            winning_total * ms <= losing_total * ss,
            ss <= winning_total,
            winning_total > 0,
    ;
}

/// The losing stake is shared in proportion to the winning stakes: each share goes to
/// its winner, a larger stake never gets a smaller share, and a winner holding all the
/// winning stake gets all the losing stake.
pub proof fn law_shares_in_proportion(
    mints: Seq<(Address, Uint512)>,
    winners: Seq<Ballot>,
    losing_total: nat,
    winning_total: nat,
    i: int,
    j: int,
)
    requires
        mints_match(mints, winners, losing_total, winning_total),
        winning_total > 0,
        0 <= i < winners.len(),
        0 <= j < winners.len(),
    ensures
        mints[i].0 == winners[i].voter,
        winners[i].stake@ <= winners[j].stake@ ==> mints[i].1@ <= mints[j].1@,
        winners[i].stake@ == winning_total ==> mints[i].1@ == losing_total,
{
    let l = losing_total as int;
    let w = winning_total as int;
    let si = winners[i].stake@ as int;
    let sj = winners[j].stake@ as int;
    assert(mints[i].0 == winners[i].voter);
    assert(mints[j].0 == winners[j].voter);
    assert(mints[i].1@ == l * si / w);
    assert(mints[j].1@ == l * sj / w);
    if si <= sj {
        vstd::arithmetic::mul::lemma_mul_inequality(si, sj, l);
        assert(l * si == si * l && l * sj == sj * l) by (nonlinear_arith);
        vstd::arithmetic::div_mod::lemma_div_is_ordered(l * si, l * sj, w);
    }
    if si == w {
        vstd::arithmetic::div_mod::lemma_div_multiples_vanish(l, w);
        assert(l * si == w * l) by (nonlinear_arith)
            requires
                si == w;
    }
}

} // verus!
