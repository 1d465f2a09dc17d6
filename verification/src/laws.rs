//! Laws that relate the operations to one another.
use vstd::prelude::*;
use crate::gov::{
    account_index, ballot_index, ballot_on_record, in_progress, lemma_account_index,
    lemma_ballot_index, owned_by, share_of, share_sum, Governance,
};
use crate::staking::{spared, stake_post, withdraw_post};
use crate::ledger::{minted_share, pool_balance};
use crate::polls::{
    cast_vote_error, cast_vote_post, end_poll_error, end_poll_post, execute_poll_post,
    expire_poll_post, snapshot_post,
};
use crate::schedule::{ascending, same_operations};
use crate::tally::verdict;
use crate::types::{
    EndPollOutcome, ExecuteData, GovError, Poll, PollStatus, VoteOption, VoterInfo,
};

verus! {

/// The exchange rate of a pool of `pool` tokens and `total_share` shares is at
/// most that of a pool of `later_pool` tokens and `later_share` shares. A pool
/// without shares trades one token for one share.
pub open spec fn rate_at_most(pool: int, total_share: int, later_pool: int, later_share: int) -> bool {
    let (n1, d1) = if total_share == 0 {
        (1int, 1int)
    } else {
        (pool, total_share)
    };
    let (n2, d2) = if later_share == 0 {
        (1int, 1int)
    } else {
        (later_pool, later_share)
    };
    n1 * d2 <= n2 * d1
}

/// After every successful stake and every successful withdrawal the pool's
/// total is the sum of the stakers' shares.
pub proof fn law_total_share_is_sum_of_shares(
    pre: Governance,
    post: Governance,
    sender: Seq<char>,
    staked: u128,
    withdrawn: Option<u128>,
    token_balance: u128,
    minted: u128,
    paid: u128,
)
    requires
        pre.wf(),
    ensures
        stake_post(pre, post, sender, staked, token_balance, Ok(minted)) ==> share_sum(post.bank@)
            == post.state.total_share,
        withdraw_post(pre, post, sender, withdrawn, token_balance, Ok(paid)) ==> share_sum(post.bank@)
            == post.state.total_share,
{
    if stake_post(pre, post, sender, staked, token_balance, Ok(minted)) {
        match crate::gov::account_index(pre.bank@, sender) {
            Some(i) => {
                crate::gov::lemma_account_index(pre.bank@, sender);
                crate::seqs::lemma_total_covers(pre.bank@, crate::gov::share_weight(), i);
                crate::seqs::lemma_total_update(pre.bank@, crate::gov::share_weight(), i, post.bank@[i]);
            },
            None => {
                crate::seqs::lemma_total_push(pre.bank@, crate::gov::share_weight(), post.bank@.last());
                assert(post.bank@ =~= post.bank@.drop_last().push(post.bank@.last()));
            },
        }
    }
    if withdraw_post(pre, post, sender, withdrawn, token_balance, Ok(paid)) {
        let i = crate::gov::account_index(pre.bank@, sender).unwrap();
        crate::gov::lemma_account_index(pre.bank@, sender);
        crate::seqs::lemma_total_update(pre.bank@, crate::gov::share_weight(), i, post.bank@[i]);
        assert(post.bank@ =~= pre.bank@.update(i, post.bank@[i]));
    }
}

/// A stake never lowers the exchange rate: the pool after it, with the amount
/// and the minted shares added, trades at no less than the pool before it.
pub proof fn law_stake_keeps_exchange_rate(pool_before: nat, total_share: nat, amount: nat)
    ensures
        rate_at_most(
            pool_before as int,
            total_share as int,
            pool_before as int + amount as int,
            total_share as int + minted_share(amount as int, total_share as int, pool_before as int),
        ),
{
    let pool = pool_before as int;
    let shares = total_share as int;
    let added = amount as int;
    let minted = minted_share(added, shares, pool);
    if shares == 0 {
        assert(minted == added);
        if added > 0 {
            assert(1 * (0 + added) <= (pool + added) * 1) by (nonlinear_arith)
                requires
                    pool >= 0,
                    added > 0,
            ;
        }
    } else if pool == 0 {
        assert(0 * (shares + added) <= (0 + added) * shares) by (nonlinear_arith)
            requires
                shares > 0,
                added >= 0,
        ;
    } else {
        assert(0 <= added * shares) by (nonlinear_arith)
            requires
                0 <= added,
                0 < shares,
        ;
        crate::math::lemma_floor_times_divisor(added * shares, pool);
        assert(minted == (added * shares) / pool);
        assert(minted * pool <= added * shares);
        assert(pool * (shares + minted) <= (pool + added) * shares) by (nonlinear_arith)
            requires
                minted * pool <= added * shares,
        ;
    }
}

/// A stake never lowers the exchange rate of the pool, provided that the
/// reported balance holds the escrow and the incoming amount.
pub proof fn law_stake_keeps_pool_rate(
    pre: Governance,
    post: Governance,
    sender: Seq<char>,
    amount: u128,
    token_balance: u128,
    minted: u128,
)
    requires
        stake_post(pre, post, sender, amount, token_balance, Ok(minted)),
        token_balance >= pre.state.total_deposit + amount,
    ensures
        rate_at_most(
            pool_balance(token_balance, pre.state.total_deposit) - amount,
            pre.state.total_share as int,
            pool_balance(token_balance, post.state.total_deposit) as int,
            post.state.total_share as int,
        ),
{
    law_stake_keeps_exchange_rate(
        (token_balance - pre.state.total_deposit - amount) as nat,
        pre.state.total_share as nat,
        amount as nat,
    );
}

/// A stake changes the shares of the sender alone: every other staker holds
/// after it what the staker held before.
pub proof fn law_stake_credits_sender_alone(
    pre: Governance,
    post: Governance,
    sender: Seq<char>,
    amount: u128,
    token_balance: u128,
    minted: u128,
    who: Seq<char>,
)
    requires
        pre.wf(),
        stake_post(pre, post, sender, amount, token_balance, Ok(minted)),
    ensures
        who != sender ==> share_of(post.bank@, who) == share_of(pre.bank@, who),
        share_of(post.bank@, sender) == share_of(pre.bank@, sender) + minted,
{
    lemma_account_index(pre.bank@, sender);
    lemma_account_index(pre.bank@, who);
    lemma_account_index(post.bank@, who);
    lemma_account_index(post.bank@, sender);
    match account_index(pre.bank@, sender) {
        Some(i) => {
            crate::seqs::lemma_total_covers(pre.bank@, crate::gov::share_weight(), i);
            assert forall|j: int| 0 <= j < pre.bank@.len() implies owned_by(who)(pre.bank@[j]) == owned_by(
                who,
            )(post.bank@[j]) by {}
            crate::seqs::lemma_last_index_same(pre.bank@, post.bank@, owned_by(who));
            assert forall|j: int| 0 <= j < pre.bank@.len() implies owned_by(sender)(pre.bank@[j])
                == owned_by(sender)(post.bank@[j]) by {}
            crate::seqs::lemma_last_index_same(pre.bank@, post.bank@, owned_by(sender));
        },
        None => {
            assert(post.bank@.drop_last() == pre.bank@);
        },
    }
}

/// A withdrawal changes the shares of the sender alone.
pub proof fn law_withdraw_debits_sender_alone(
    pre: Governance,
    post: Governance,
    sender: Seq<char>,
    amount: Option<u128>,
    token_balance: u128,
    paid: u128,
    who: Seq<char>,
)
    requires
        pre.wf(),
        withdraw_post(pre, post, sender, amount, token_balance, Ok(paid)),
        who != sender,
    ensures
        share_of(post.bank@, who) == share_of(pre.bank@, who),
        share_of(post.bank@, sender) <= share_of(pre.bank@, sender),
{
    lemma_account_index(pre.bank@, sender);
    lemma_account_index(pre.bank@, who);
    lemma_account_index(post.bank@, who);
    lemma_account_index(post.bank@, sender);
    assert forall|j: int| 0 <= j < pre.bank@.len() implies owned_by(who)(pre.bank@[j]) == owned_by(who)(
        post.bank@[j],
    ) by {}
    crate::seqs::lemma_last_index_same(pre.bank@, post.bank@, owned_by(who));
    assert forall|j: int| 0 <= j < pre.bank@.len() implies owned_by(sender)(pre.bank@[j]) == owned_by(
        sender,
    )(post.bank@[j]) by {}
    crate::seqs::lemma_last_index_same(pre.bank@, post.bank@, owned_by(sender));
}

/// In the ledger's map a stake changes the entry of the sender and no other.
pub proof fn law_stake_in_share_map(
    pre: Governance,
    post: Governance,
    sender: Seq<char>,
    amount: u128,
    token_balance: u128,
    minted: u128,
)
    requires
        pre.wf(),
        stake_post(pre, post, sender, amount, token_balance, Ok(minted)),
    ensures
        post.shares() == pre.shares().insert(sender, (share_of(pre.bank@, sender) + minted) as u128),
        post.votes() == pre.votes(),
{
    assert forall|who: Seq<char>|
        (#[trigger] account_index(post.bank@, who) is Some) == (who == sender || account_index(
            pre.bank@,
            who,
        ) is Some) && share_of(post.bank@, who) == (if who == sender {
            (share_of(pre.bank@, sender) + minted) as u128
        } else {
            share_of(pre.bank@, who)
        }) by {
        law_stake_credits_sender_alone(pre, post, sender, amount, token_balance, minted, who);
        lemma_account_index(pre.bank@, who);
        lemma_account_index(pre.bank@, sender);
        match account_index(pre.bank@, sender) {
            Some(i) => {
                crate::gov::lemma_account_index_stable(pre.bank@, post.bank@, who);
            },
            None => {
                assert(post.bank@ =~= pre.bank@.push(post.bank@.last()));
                crate::gov::lemma_account_index_push(pre.bank@, post.bank@.last(), who);
            },
        }
    }
    assert(post.shares() =~= pre.shares().insert(sender, (share_of(pre.bank@, sender) + minted) as u128));
    assert(post.votes() =~= pre.votes());
}

/// In the ledger's map a withdrawal changes the entry of the sender and no
/// other.
pub proof fn law_withdraw_in_share_map(
    pre: Governance,
    post: Governance,
    sender: Seq<char>,
    amount: Option<u128>,
    token_balance: u128,
    paid: u128,
)
    requires
        pre.wf(),
        withdraw_post(pre, post, sender, amount, token_balance, Ok(paid)),
    ensures
        post.shares() == pre.shares().insert(sender, share_of(post.bank@, sender)),
        share_of(post.bank@, sender) <= share_of(pre.bank@, sender),
        pre.shares().dom().contains(sender),
{
    lemma_account_index(pre.bank@, sender);
    assert forall|who: Seq<char>|
        (#[trigger] account_index(post.bank@, who)) == account_index(pre.bank@, who) by {
        crate::gov::lemma_account_index_stable(pre.bank@, post.bank@, who);
    }
    assert forall|who: Seq<char>| who != sender implies #[trigger] share_of(post.bank@, who) == share_of(
        pre.bank@,
        who,
    ) by {
        law_withdraw_debits_sender_alone(pre, post, sender, amount, token_balance, paid, who);
    }
    assert(post.shares() =~= pre.shares().insert(sender, share_of(post.bank@, sender)));
}

/// In the poll store's map a vote adds the entry of the voter on the poll and
/// changes no other.
pub proof fn law_vote_in_vote_map(
    pre: Governance,
    post: Governance,
    voter: Seq<char>,
    poll_id: u64,
    vote: VoteOption,
    amount: u128,
    height: u64,
    token_balance: u128,
)
    requires
        pre.wf(),
        cast_vote_post(pre, post, voter, poll_id, vote, amount, height, token_balance, Ok(())),
    ensures
        !pre.votes().dom().contains((poll_id, voter)),
        post.votes() == pre.votes().insert((poll_id, voter), VoterInfo { vote, balance: amount }),
{
    let cast = post.ballots@.last();
    assert(post.ballots@ =~= pre.ballots@.push(cast));
    assert forall|key: (u64, Seq<char>)|
        #[trigger] ballot_index(post.ballots@, key.0, key.1) == (if key.0 == poll_id && key.1 == voter {
            Some(pre.ballots@.len() as int)
        } else {
            ballot_index(pre.ballots@, key.0, key.1)
        }) by {
        crate::gov::lemma_ballot_index_push(pre.ballots@, cast, key.0, key.1);
    }
    assert forall|key: (u64, Seq<char>)| #[trigger]
        pre.votes().dom().contains(key) implies post.ballots@[ballot_index(
        pre.ballots@,
        key.0,
        key.1,
    ).unwrap()] == pre.ballots@[ballot_index(pre.ballots@, key.0, key.1).unwrap()] by {
        crate::gov::lemma_ballot_index(pre.ballots@, key.0, key.1);
    }
    assert(post.votes() =~= pre.votes().insert((poll_id, voter), VoterInfo { vote, balance: amount }));
}

/// The sender's votes on polls that have ended, as keys of the poll store's
/// map.
pub open spec fn ended_votes_of(polls: Seq<Poll>, sender: Seq<char>) -> Set<(u64, Seq<char>)> {
    Set::new(|key: (u64, Seq<char>)| key.1 == sender && !in_progress(polls, key.0))
}

/// In the poll store's map a withdrawal removes the sender's votes on polls
/// that have ended and changes no other entry.
pub proof fn law_withdraw_in_vote_map(
    pre: Governance,
    post: Governance,
    sender: Seq<char>,
    amount: Option<u128>,
    token_balance: u128,
    paid: u128,
)
    requires
        pre.wf(),
        withdraw_post(pre, post, sender, amount, token_balance, Ok(paid)),
    ensures
        post.votes() == pre.votes().remove_keys(ended_votes_of(pre.polls@, sender)),
{
    let keep = spared(pre.polls@, sender);
    let before = pre.ballots@;
    let after = post.ballots@;
    assert forall|h: int| 0 <= h < after.len() implies before.contains(#[trigger] after[h]) && keep(
        after[h],
    ) by {
        before.lemma_filter_pred(keep, h);
        assert(after.contains(after[h]));
        before.lemma_filter_contains_rev(keep, after[h]);
    }
    assert forall|key: (u64, Seq<char>)|
        (#[trigger] post.votes().dom().contains(key)) == (pre.votes().dom().contains(key)
            && !ended_votes_of(pre.polls@, sender).contains(key)) && (post.votes().dom().contains(key)
            ==> post.votes()[key] == pre.votes()[key]) by {
        lemma_ballot_index(before, key.0, key.1);
        lemma_ballot_index(after, key.0, key.1);
        match ballot_index(before, key.0, key.1) {
            Some(j) => {
                if keep(before[j]) {
                    before.lemma_filter_contains(keep, j);
                    crate::gov::lemma_ballot_index_kept(before, after, key.0, key.1);
                } else {
                    if ballot_index(after, key.0, key.1) is Some {
                        let x = ballot_index(after, key.0, key.1).unwrap();
                        assert(keep(after[x]));
                    }
                }
            },
            None => {
                if ballot_index(after, key.0, key.1) is Some {
                    let x = ballot_index(after, key.0, key.1).unwrap();
                    assert(before.contains(after[x]));
                }
            },
        }
    }
    assert(post.votes() =~= pre.votes().remove_keys(ended_votes_of(pre.polls@, sender)));
}

/// A withdrawal drops from the poll store the sender's ballots on polls that
/// have ended and no other ballot, and each of the sender's ballots stands in
/// the sender's own list of votes.
pub proof fn law_withdraw_sweeps_own_ended_votes(
    pre: Governance,
    post: Governance,
    sender: Seq<char>,
    amount: Option<u128>,
    token_balance: u128,
    paid: u128,
    j: int,
)
    requires
        pre.wf(),
        withdraw_post(pre, post, sender, amount, token_balance, Ok(paid)),
        0 <= j < pre.ballots@.len(),
    ensures
        post.ballots@.contains(pre.ballots@[j]) <==> !(pre.ballots@[j].voter@ == sender && !in_progress(
            pre.polls@,
            pre.ballots@[j].poll_id,
        )),
        pre.ballots@[j].voter@ == sender ==> pre.bank@[account_index(
            pre.bank@,
            sender,
        ).unwrap()].manager.locked_balance@.contains((pre.ballots@[j].poll_id, pre.ballots@[j].info)),
{
    let b = pre.ballots@[j];
    let keep = spared(pre.polls@, sender);
    assert(ballot_on_record(pre.bank@, pre.ballots@[j]));
    if keep(b) {
        pre.ballots@.lemma_filter_contains(keep, j);
    }
    if post.ballots@.contains(b) {
        let h = choose|h: int| 0 <= h < post.ballots@.len() && post.ballots@[h] == b;
        pre.ballots@.lemma_filter_pred(keep, h);
    }
}

/// A stake of nothing is refused and credits no share.
pub proof fn law_no_share_for_empty_stake(pre: Governance, post: Governance, sender: Seq<char>, token_balance: u128, r: Result<u128, GovError>)
    requires
        stake_post(pre, post, sender, 0, token_balance, r),
    ensures
        r == Err::<u128, GovError>(GovError::InsufficientFunds),
        post == pre,
{
}

/// Once a vote is cast, a second vote by the same voter on the same poll
/// within the voting period is refused as already cast, whatever its option,
/// its weight and the balance reported.
pub proof fn law_second_vote_rejected(
    pre: Governance,
    post: Governance,
    voter: Seq<char>,
    poll_id: u64,
    vote: VoteOption,
    amount: u128,
    height: u64,
    token_balance: u128,
    later_amount: u128,
    later_height: u64,
    later_balance: u128,
)
    requires
        cast_vote_post(pre, post, voter, poll_id, vote, amount, height, token_balance, Ok(())),
        later_height <= pre.poll_at(poll_id).end_height,
    ensures
        cast_vote_error(post, voter, poll_id, later_amount, later_height, later_balance) == Some(
            GovError::AlreadyVoted,
        ),
{
    assert(crate::gov::cast_by(poll_id, voter)(post.ballots@.last()));
}

/// A poll is ended once: after it has been ended, ending it again at any
/// height past its end is refused because the poll is no longer in progress,
/// and at any other height because voting has not expired.
pub proof fn law_end_poll_once(
    pre: Governance,
    post: Governance,
    poll_id: u64,
    height: u64,
    token_balance: u128,
    outcome: EndPollOutcome,
    later_height: u64,
)
    requires
        end_poll_post(pre, post, poll_id, height, token_balance, Ok(outcome)),
    ensures
        later_height > pre.poll_at(poll_id).end_height ==> end_poll_error(post, poll_id, later_height)
            == Some(GovError::PollNotInProgress),
        later_height <= pre.poll_at(poll_id).end_height ==> end_poll_error(post, poll_id, later_height)
            == Some(GovError::VotingNotExpired),
        post.poll_at(poll_id).status == PollStatus::Passed || post.poll_at(poll_id).status
            == PollStatus::Rejected,
{
}

/// Quorum is measured against the snapshot where one was taken and against the
/// pool's balance at resolution where none was; either way the weight used is
/// the one recorded on the poll.
pub proof fn law_quorum_denominator_recorded(
    pre: Governance,
    post: Governance,
    poll_id: u64,
    height: u64,
    token_balance: u128,
    outcome: EndPollOutcome,
)
    requires
        end_poll_post(pre, post, poll_id, height, token_balance, Ok(outcome)),
    ensures
        pre.poll_at(poll_id).staked_amount is Some ==> post.poll_at(poll_id).total_balance_at_end_poll
            == pre.poll_at(poll_id).staked_amount,
        pre.poll_at(poll_id).staked_amount is None ==> post.poll_at(poll_id).total_balance_at_end_poll
            == Some(pool_balance(token_balance, pre.state.total_deposit)),
        post.poll_at(poll_id).total_balance_at_end_poll matches Some(recorded) && outcome.rejection
            == verdict(
            pre.poll_at(poll_id).yes_votes,
            pre.poll_at(poll_id).no_votes,
            recorded,
            pre.config.quorum,
            pre.config.threshold,
        ),
        post.poll_at(poll_id).staked_amount == pre.poll_at(poll_id).staked_amount,
{
}

/// Only a snapshot sets the staked amount of a poll: votes, resolution,
/// execution and expiry leave it as it is, and so does a snapshot that fails
/// or is taken of another poll; a snapshot that succeeds finds none and sets
/// the pool's balance.
pub proof fn law_only_snapshot_freezes_weight(
    pre: Governance,
    post: Governance,
    watched: u64,
    poll_id: u64,
    voter: Seq<char>,
    vote: VoteOption,
    amount: u128,
    height: u64,
    token_balance: u128,
    voted: Result<(), GovError>,
    ended: Result<EndPollOutcome, GovError>,
    executed: Result<Vec<ExecuteData>, GovError>,
    expired: Result<(), GovError>,
    snapshot: Result<u128, GovError>,
)
    requires
        pre.has_poll(watched),
    ensures
        cast_vote_post(pre, post, voter, poll_id, vote, amount, height, token_balance, voted)
            ==> post.poll_at(watched).staked_amount == pre.poll_at(watched).staked_amount,
        end_poll_post(pre, post, poll_id, height, token_balance, ended) ==> post.poll_at(
            watched,
        ).staked_amount == pre.poll_at(watched).staked_amount,
        execute_poll_post(pre, post, poll_id, height, executed) ==> post.poll_at(watched).staked_amount
            == pre.poll_at(watched).staked_amount,
        expire_poll_post(pre, post, poll_id, height, expired) ==> post.poll_at(watched).staked_amount
            == pre.poll_at(watched).staked_amount,
        snapshot_post(pre, post, poll_id, height, token_balance, snapshot) && (snapshot is Err
            || poll_id != watched) ==> post.poll_at(watched).staked_amount == pre.poll_at(
            watched,
        ).staked_amount,
        snapshot_post(pre, post, watched, height, token_balance, snapshot) && snapshot is Ok
            ==> pre.poll_at(watched).staked_amount is None && post.poll_at(watched).staked_amount
            == Some(pool_balance(token_balance, pre.state.total_deposit)),
{
}

/// A poll that is ended right after its snapshot is measured against the
/// balance of the snapshot, whatever balance is reported at resolution.
pub proof fn law_snapshot_fixes_denominator(
    pre: Governance,
    mid: Governance,
    post: Governance,
    poll_id: u64,
    snapshot_height: u64,
    snapshot_balance: u128,
    staked: u128,
    end_height: u64,
    end_balance: u128,
    outcome: EndPollOutcome,
)
    requires
        snapshot_post(pre, mid, poll_id, snapshot_height, snapshot_balance, Ok(staked)),
        end_poll_post(mid, post, poll_id, end_height, end_balance, Ok(outcome)),
    ensures
        post.poll_at(poll_id).total_balance_at_end_poll == Some(
            pool_balance(snapshot_balance, pre.state.total_deposit),
        ),
{
}

/// The batch of a poll stays as it was stored, in ascending order, until it
/// is handed out: votes, snapshots, resolution, execution and expiry leave it
/// as it is, and execution hands out its operations one by one.
pub proof fn law_batch_is_kept(
    pre: Governance,
    post: Governance,
    watched: u64,
    poll_id: u64,
    voter: Seq<char>,
    vote: VoteOption,
    amount: u128,
    height: u64,
    token_balance: u128,
    voted: Result<(), GovError>,
    snapshot: Result<u128, GovError>,
    ended: Result<EndPollOutcome, GovError>,
    executed: Result<Vec<ExecuteData>, GovError>,
    expired: Result<(), GovError>,
)
    requires
        pre.wf(),
        pre.has_poll(watched),
    ensures
        ascending(pre.poll_at(watched).execute_data@),
        cast_vote_post(pre, post, voter, poll_id, vote, amount, height, token_balance, voted)
            ==> post.poll_at(watched).execute_data == pre.poll_at(watched).execute_data,
        snapshot_post(pre, post, poll_id, height, token_balance, snapshot) ==> post.poll_at(
            watched,
        ).execute_data == pre.poll_at(watched).execute_data,
        end_poll_post(pre, post, poll_id, height, token_balance, ended) ==> post.poll_at(
            watched,
        ).execute_data == pre.poll_at(watched).execute_data,
        execute_poll_post(pre, post, poll_id, height, executed) ==> post.poll_at(watched).execute_data
            == pre.poll_at(watched).execute_data,
        expire_poll_post(pre, post, poll_id, height, expired) ==> post.poll_at(watched).execute_data
            == pre.poll_at(watched).execute_data,
        execute_poll_post(pre, post, watched, height, executed) && executed is Ok ==> same_operations(
            executed.unwrap()@,
            pre.poll_at(watched).execute_data@,
        ) && ascending(executed.unwrap()@),
{
    assert(crate::gov::poll_wf(pre.polls@[watched - 1], watched - 1));
}

/// A status that a poll never leaves.
pub open spec fn is_final(status: PollStatus) -> bool {
    status == PollStatus::Rejected || status == PollStatus::Executed || status == PollStatus::Expired
}

/// A poll that was rejected, executed or expired keeps its status whatever is
/// asked of it or of another poll: ending, executing and expiring leave it as
/// it is, whether they succeed or fail.
pub proof fn law_final_status_stays(
    pre: Governance,
    post: Governance,
    settled: u64,
    poll_id: u64,
    height: u64,
    token_balance: u128,
    ended: Result<EndPollOutcome, GovError>,
    executed: Result<Vec<ExecuteData>, GovError>,
    expired: Result<(), GovError>,
)
    requires
        pre.has_poll(settled),
        is_final(pre.poll_at(settled).status),
    ensures
        end_poll_post(pre, post, poll_id, height, token_balance, ended) ==> post.poll_at(settled).status
            == pre.poll_at(settled).status,
        execute_poll_post(pre, post, poll_id, height, executed) ==> post.poll_at(settled).status
            == pre.poll_at(settled).status,
        expire_poll_post(pre, post, poll_id, height, expired) ==> post.poll_at(settled).status
            == pre.poll_at(settled).status,
{
}

/// A passed poll is executed or expires, never both: once one of the two has
/// succeeded the other is refused at every height.
pub proof fn law_executed_or_expired(
    pre: Governance,
    post: Governance,
    poll_id: u64,
    height: u64,
    calls: Vec<ExecuteData>,
    later_height: u64,
)
    ensures
        execute_poll_post(pre, post, poll_id, height, Ok(calls)) ==> crate::polls::expire_poll_error(
            post,
            poll_id,
            later_height,
        ) == Some(GovError::PollNotPassed),
        expire_poll_post(pre, post, poll_id, height, Ok(())) ==> crate::polls::execute_poll_error(
            post,
            poll_id,
            later_height,
        ) == Some(GovError::PollNotPassed),
{
}

} // verus!
