//! The life of a poll: creation, votes, snapshot, resolution, execution and
//! expiry.
use vstd::prelude::*;
use crate::gov::{
    account_index, ballot_index, ballot_on_record, escrow_weight, lemma_account_index,
    lemma_account_index_push, lemma_account_index_stable, lemma_ballot_index,
    lemma_ballot_index_push, lock_backed, share_of, share_weight, Governance,
};
use crate::ledger::{balance_of_shares, pool_balance, quoted_balance, underlying_balance};
use crate::schedule::{ascending, copy_operations, same_operations, sort_by_order, stably_sorted};
use crate::seqs::{lemma_total_covers, lemma_total_push, lemma_total_update};
use crate::tally::{resolve, verdict};
use crate::text::{field_error, text_of, validate_fields};
use crate::types::{
    Account, Ballot, EndPollOutcome, ExecuteData, GovError, Poll, PollStatus, State, TokenManager,
    Transfer, VoteOption, VoterInfo,
};

verus! {

/// The operations handed to a new poll, none where the batch is absent.
pub open spec fn given_operations(msgs: Option<Vec<ExecuteData>>) -> Seq<ExecuteData> {
    match msgs {
        Some(v) => v@,
        None => Seq::empty(),
    }
}

/// Why a poll cannot be created, if it cannot.
pub open spec fn create_poll_error(
    pre: Governance,
    notifier: Seq<char>,
    deposit: u128,
    title: Seq<char>,
    description: Seq<char>,
    link: Option<Seq<char>>,
    height: u64,
) -> Option<GovError> {
    if !pre.is_token(notifier) {
        Some(GovError::Unauthorized)
    } else if deposit < pre.config.proposal_deposit {
        Some(GovError::InsufficientDeposit)
    } else if field_error(title, description, link) is Some {
        Some(GovError::InvalidField(field_error(title, description, link).unwrap()))
    } else if pre.state.poll_count == u64::MAX || height + pre.config.voting_period > u64::MAX
        || pre.state.total_deposit + deposit > u128::MAX {
        Some(GovError::Overflow)
    } else {
        None
    }
}

/// A poll creation either fails and changes nothing, or appends a poll in
/// progress with the next id and takes the deposit into escrow.
pub open spec fn create_poll_post(
    pre: Governance,
    post: Governance,
    notifier: Seq<char>,
    creator: String,
    deposit: u128,
    title: String,
    description: String,
    link: Option<String>,
    execute_msgs: Option<Vec<ExecuteData>>,
    height: u64,
    r: Result<(u64, u64), GovError>,
) -> bool {
    let error = create_poll_error(pre, notifier, deposit, title@, description@, text_of(link), height);
    &&& r is Err <==> error is Some
    &&& r matches Err(e) ==> error == Some(e) && post == pre
    &&& r matches Ok(created) ==> {
        let p = post.polls@.last();
        &&& created.0 == pre.state.poll_count + 1
        &&& created.1 == height + pre.config.voting_period
        &&& post.config == pre.config
        &&& post.ballots == pre.ballots
        &&& post.bank == pre.bank
        &&& post.state == State {
            poll_count: created.0,
            total_deposit: (pre.state.total_deposit + deposit) as u128,
            ..pre.state
        }
        &&& post.polls@.len() == pre.polls@.len() + 1
        &&& post.polls@.drop_last() == pre.polls@
        &&& p.id == created.0
        &&& p.creator == creator
        &&& p.status == PollStatus::InProgress
        &&& p.yes_votes == 0
        &&& p.no_votes == 0
        &&& p.end_height == created.1
        &&& p.title == title
        &&& p.description == description
        &&& p.link == link
        &&& p.deposit_amount == deposit
        &&& p.total_balance_at_end_poll is None
        &&& p.staked_amount is None
        &&& stably_sorted(given_operations(execute_msgs), p.execute_data@)
    }
}

/// Why a vote cannot be cast, if it cannot.
pub open spec fn cast_vote_error(
    pre: Governance,
    voter: Seq<char>,
    poll_id: u64,
    amount: u128,
    height: u64,
    token_balance: u128,
) -> Option<GovError> {
    if !pre.has_poll(poll_id) {
        Some(GovError::PollNotFound)
    } else if pre.poll_at(poll_id).status != PollStatus::InProgress || height > pre.poll_at(
        poll_id,
    ).end_height {
        Some(GovError::PollNotInProgress)
    } else if ballot_index(pre.ballots@, poll_id, voter) is Some {
        Some(GovError::AlreadyVoted)
    } else if amount > quoted_balance(
        share_of(pre.bank@, voter) as int,
        pre.state.total_share as int,
        pool_balance(token_balance, pre.state.total_deposit) as int,
    ) {
        Some(GovError::InsufficientStake)
    } else if pre.poll_at(poll_id).yes_votes + pre.poll_at(poll_id).no_votes + amount > u128::MAX {
        Some(GovError::Overflow)
    } else {
        None
    }
}

/// `after` is `before` with the vote added to the list of `who`, in a new
/// account without shares where `who` had none.
pub open spec fn lock_recorded(
    before: Seq<Account>,
    after: Seq<Account>,
    who: Seq<char>,
    poll_id: u64,
    info: VoterInfo,
) -> bool {
    match account_index(before, who) {
        Some(i) => {
            &&& after.len() == before.len()
            &&& forall|j: int| 0 <= j < before.len() && j != i ==> after[j] == before[j]
            &&& after[i].address == before[i].address
            &&& after[i].manager.share == before[i].manager.share
            &&& after[i].manager.locked_balance@ == before[i].manager.locked_balance@.push((poll_id, info))
        },
        None => {
            &&& after.len() == before.len() + 1
            &&& after.drop_last() == before
            &&& after.last().address@ == who
            &&& after.last().manager.share == 0
            &&& after.last().manager.locked_balance@ == seq![(poll_id, info)]
        },
    }
}

/// The poll with `amount` more votes for `vote`.
pub open spec fn voted(p: Poll, vote: VoteOption, amount: u128) -> Poll {
    match vote {
        VoteOption::Yes => Poll { yes_votes: (p.yes_votes + amount) as u128, ..p },
        VoteOption::No => Poll { no_votes: (p.no_votes + amount) as u128, ..p },
    }
}

/// A vote either fails and changes nothing, or adds its weight to the tally
/// and records the ballot in the poll store and in the voter's account.
pub open spec fn cast_vote_post(
    pre: Governance,
    post: Governance,
    voter: Seq<char>,
    poll_id: u64,
    vote: VoteOption,
    amount: u128,
    height: u64,
    token_balance: u128,
    r: Result<(), GovError>,
) -> bool {
    let error = cast_vote_error(pre, voter, poll_id, amount, height, token_balance);
    let info = VoterInfo { vote, balance: amount };
    &&& r is Err <==> error is Some
    &&& r matches Err(e) ==> error == Some(e) && post == pre
    &&& r is Ok ==> {
        &&& post.config == pre.config
        &&& post.state == pre.state
        &&& post.polls@ == pre.polls@.update(poll_id - 1, voted(pre.poll_at(poll_id), vote, amount))
        &&& post.ballots@.len() == pre.ballots@.len() + 1
        &&& post.ballots@.drop_last() == pre.ballots@
        &&& post.ballots@.last().poll_id == poll_id
        &&& post.ballots@.last().voter@ == voter
        &&& post.ballots@.last().info == info
        &&& lock_recorded(pre.bank@, post.bank@, voter, poll_id, info)
    }
}

/// Why a snapshot cannot be taken, if it cannot.
pub open spec fn snapshot_error(pre: Governance, poll_id: u64, height: u64) -> Option<GovError> {
    if !pre.has_poll(poll_id) {
        Some(GovError::PollNotFound)
    } else if pre.poll_at(poll_id).status != PollStatus::InProgress || height > pre.poll_at(
        poll_id,
    ).end_height {
        Some(GovError::PollNotInProgress)
    } else if height + pre.config.snapshot_period < pre.poll_at(poll_id).end_height {
        Some(GovError::SnapshotWindowNotOpen)
    } else if pre.poll_at(poll_id).staked_amount is Some {
        Some(GovError::SnapshotAlreadyTaken)
    } else {
        None
    }
}

/// A snapshot either fails and changes nothing, or freezes the pool's balance
/// as the poll's staked amount and returns it.
pub open spec fn snapshot_post(
    pre: Governance,
    post: Governance,
    poll_id: u64,
    height: u64,
    token_balance: u128,
    r: Result<u128, GovError>,
) -> bool {
    let error = snapshot_error(pre, poll_id, height);
    &&& r is Err <==> error is Some
    &&& r matches Err(e) ==> error == Some(e) && post == pre
    &&& r matches Ok(staked) ==> {
        &&& staked == pool_balance(token_balance, pre.state.total_deposit)
        &&& post == Governance {
            polls: post.polls,
            ..pre
        }
        &&& post.polls@ == pre.polls@.update(
            poll_id - 1,
            Poll { staked_amount: Some(staked), ..pre.poll_at(poll_id) },
        )
    }
}

/// Why a poll cannot be ended, if it cannot.
pub open spec fn end_poll_error(pre: Governance, poll_id: u64, height: u64) -> Option<GovError> {
    if !pre.has_poll(poll_id) {
        Some(GovError::PollNotFound)
    } else if height <= pre.poll_at(poll_id).end_height {
        Some(GovError::VotingNotExpired)
    } else if pre.poll_at(poll_id).status != PollStatus::InProgress {
        Some(GovError::PollNotInProgress)
    } else {
        None
    }
}

/// The weight against which quorum is measured: the snapshot where one was
/// taken, else the pool's balance at resolution.
pub open spec fn quorum_denominator(p: Poll, total_deposit: u128, token_balance: u128) -> u128 {
    match p.staked_amount {
        Some(staked) => staked,
        None => pool_balance(token_balance, total_deposit),
    }
}

/// The poll as resolution leaves it.
pub open spec fn resolved(p: Poll, denominator: u128, passed: bool) -> Poll {
    Poll {
        status: if passed {
            PollStatus::Passed
        } else {
            PollStatus::Rejected
        },
        total_balance_at_end_poll: Some(denominator),
        ..p
    }
}

/// Ending a poll either fails and changes nothing, or records the denominator
/// and the verdict; a poll that passes leaves escrow and has its deposit
/// refunded to the creator, a rejected one keeps its deposit in escrow.
pub open spec fn end_poll_post(
    pre: Governance,
    post: Governance,
    poll_id: u64,
    height: u64,
    token_balance: u128,
    r: Result<EndPollOutcome, GovError>,
) -> bool {
    let error = end_poll_error(pre, poll_id, height);
    &&& r is Err <==> error is Some
    &&& r matches Err(e) ==> error == Some(e) && post == pre
    &&& r matches Ok(outcome) ==> {
        let p = pre.poll_at(poll_id);
        let denominator = quorum_denominator(p, pre.state.total_deposit, token_balance);
        let rejection = verdict(
            p.yes_votes,
            p.no_votes,
            denominator,
            pre.config.quorum,
            pre.config.threshold,
        );
        &&& outcome.rejection == rejection
        &&& outcome.refund is Some <==> rejection is None
        &&& outcome.refund matches Some(t) ==> t.recipient@ == p.creator@ && t.amount == p.deposit_amount
        &&& post.config == pre.config
        &&& post.ballots == pre.ballots
        &&& post.bank == pre.bank
        &&& post.polls@ == pre.polls@.update(poll_id - 1, resolved(p, denominator, rejection is None))
        &&& post.state == State {
            total_deposit: if rejection is None {
                (pre.state.total_deposit - p.deposit_amount) as u128
            } else {
                pre.state.total_deposit
            },
            ..pre.state
        }
    }
}

/// Why a poll cannot leave the passed status at `height`, if it cannot; the
/// poll may leave it `delay` blocks after its end.
pub open spec fn passed_poll_error(
    pre: Governance,
    poll_id: u64,
    height: u64,
    delay: u64,
    too_early: GovError,
) -> Option<GovError> {
    if !pre.has_poll(poll_id) {
        Some(GovError::PollNotFound)
    } else if pre.poll_at(poll_id).status != PollStatus::Passed {
        Some(GovError::PollNotPassed)
    } else if height < pre.poll_at(poll_id).end_height + delay {
        Some(too_early)
    } else {
        None
    }
}

/// Why a poll cannot be executed, if it cannot.
pub open spec fn execute_poll_error(pre: Governance, poll_id: u64, height: u64) -> Option<GovError> {
    passed_poll_error(pre, poll_id, height, pre.config.timelock_period, GovError::TimelockNotExpired)
}

/// Why a poll cannot be expired, if it cannot.
pub open spec fn expire_poll_error(pre: Governance, poll_id: u64, height: u64) -> Option<GovError> {
    passed_poll_error(
        pre,
        poll_id,
        height,
        pre.config.expiration_period,
        GovError::ExpirationNotReached,
    )
}

/// `post` is `pre` with poll `poll_id` in the status `status`.
pub open spec fn status_set(pre: Governance, post: Governance, poll_id: u64, status: PollStatus) -> bool {
    &&& post == Governance { polls: post.polls, ..pre }
    &&& post.polls@ == pre.polls@.update(poll_id - 1, Poll { status, ..pre.poll_at(poll_id) })
}

/// Executing a poll either fails and changes nothing, or marks the poll
/// executed and hands out its operations in the ascending order in which they
/// are stored.
pub open spec fn execute_poll_post(
    pre: Governance,
    post: Governance,
    poll_id: u64,
    height: u64,
    r: Result<Vec<ExecuteData>, GovError>,
) -> bool {
    let error = execute_poll_error(pre, poll_id, height);
    &&& r is Err <==> error is Some
    &&& r matches Err(e) ==> error == Some(e) && post == pre
    &&& r matches Ok(calls) ==> {
        &&& same_operations(calls@, pre.poll_at(poll_id).execute_data@)
        &&& ascending(calls@)
        &&& status_set(pre, post, poll_id, PollStatus::Executed)
    }
}

/// Expiring a poll either fails and changes nothing, or marks the poll expired.
pub open spec fn expire_poll_post(
    pre: Governance,
    post: Governance,
    poll_id: u64,
    height: u64,
    r: Result<(), GovError>,
) -> bool {
    let error = expire_poll_error(pre, poll_id, height);
    &&& r is Err <==> error is Some
    &&& r matches Err(e) ==> error == Some(e) && post == pre
    &&& r is Ok ==> status_set(pre, post, poll_id, PollStatus::Expired)
}

impl Governance {
    /// Poll `poll_id` exists.
    pub open spec fn has_poll(&self, poll_id: u64) -> bool {
        1 <= poll_id <= self.polls@.len()
    }

    /// The poll with the id `poll_id`.
    pub open spec fn poll_at(&self, poll_id: u64) -> Poll
        recommends
            self.has_poll(poll_id),
    {
        self.polls@[poll_id - 1]
    }

    /// The place of poll `poll_id` among the polls.
    pub fn poll_index(&self, poll_id: u64) -> (r: Option<usize>)
        ensures
            r is Some <==> self.has_poll(poll_id),
            r matches Some(i) ==> i == poll_id - 1,
    {
        if poll_id == 0 {
            return None;
        }
        let len = self.polls.len();
        if poll_id - 1 >= len as u64 {
            return None;
        }
        Some((poll_id - 1) as usize)
    }

    /// Creates a poll for `creator` out of a deposit that `notifier` reported.
    /// Returns the new poll's id and the height at which voting ends.
    pub fn create_poll(
        &mut self,
        notifier: &String,
        creator: String,
        deposit: u128,
        title: String,
        description: String,
        link: Option<String>,
        execute_msgs: Option<Vec<ExecuteData>>,
        height: u64,
    ) -> (r: Result<(u64, u64), GovError>)
        requires
            old(self).wf(),
        ensures
            final(self).wf(),
            create_poll_post(
                *old(self),
                *final(self),
                notifier@,
                creator,
                deposit,
                title,
                description,
                link,
                execute_msgs,
                height,
                r,
            ),
    {
        if !self.from_token(notifier) {
            return Err(GovError::Unauthorized);
        }
        if deposit < self.config.proposal_deposit {
            return Err(GovError::InsufficientDeposit);
        }
        match validate_fields(&title, &description, &link) {
            Some(e) => {
                return Err(GovError::InvalidField(e));
            },
            None => {},
        }
        let poll_id = match self.state.poll_count.checked_add(1) {
            Some(id) => id,
            None => {
                return Err(GovError::Overflow);
            },
        };
        let end_height = match height.checked_add(self.config.voting_period) {
            Some(h) => h,
            None => {
                return Err(GovError::Overflow);
            },
        };
        let total_deposit = match self.state.total_deposit.checked_add(deposit) {
            Some(t) => t,
            None => {
                return Err(GovError::Overflow);
            },
        };
        let execute_data = match execute_msgs {
            Some(msgs) => sort_by_order(msgs),
            None => {
                let none: Vec<ExecuteData> = Vec::new();
                proof {
                    reveal(Seq::filter);
                    assert(none@ =~= Seq::<ExecuteData>::empty());
                }
                none
            },
        };
        let poll = Poll {
            id: poll_id,
            creator,
            status: PollStatus::InProgress,
            yes_votes: 0,
            no_votes: 0,
            end_height,
            title,
            description,
            link,
            execute_data,
            deposit_amount: deposit,
            total_balance_at_end_poll: None,
            staked_amount: None,
        };
        self.polls.push(poll);
        self.state.poll_count = poll_id;
        self.state.total_deposit = total_deposit;
        proof {
            lemma_total_push(old(self).polls@, escrow_weight(), poll);
            assert(self.polls@.drop_last() =~= old(self).polls@);
        }
        Ok((poll_id, end_height))
    }

    /// The token value of the stake of `who`, zero without an account.
    pub fn quoted_balance_of(&self, who: &String, token_balance: u128) -> (r: u128)
        requires
            self.wf(),
        ensures
            r == quoted_balance(
                share_of(self.bank@, who@) as int,
                self.state.total_share as int,
                pool_balance(token_balance, self.state.total_deposit) as int,
            ),
    {
        let share = match self.find_account(who) {
            Some(i) => {
                proof {
                    lemma_total_covers(self.bank@, share_weight(), i as int);
                }
                self.bank[i].manager.share
            },
            None => 0,
        };
        let pool = underlying_balance(token_balance, self.state.total_deposit);
        balance_of_shares(share, self.state.total_share, pool).unwrap()
    }

    /// Casts the vote of `voter` on poll `poll_id` with the weight `amount`.
    pub fn cast_vote(
        &mut self,
        voter: &String,
        poll_id: u64,
        vote: VoteOption,
        amount: u128,
        height: u64,
        token_balance: u128,
    ) -> (r: Result<(), GovError>)
        requires
            old(self).wf(),
        ensures
            final(self).wf(),
            cast_vote_post(*old(self), *final(self), voter@, poll_id, vote, amount, height, token_balance, r),
            r is Ok ==> ballot_index(final(self).ballots@, poll_id, voter@) is Some,
    {
        let idx = match self.poll_index(poll_id) {
            Some(i) => i,
            None => {
                return Err(GovError::PollNotFound);
            },
        };
        if self.polls[idx].status != PollStatus::InProgress || height > self.polls[idx].end_height {
            return Err(GovError::PollNotInProgress);
        }
        if self.find_ballot(poll_id, voter).is_some() {
            return Err(GovError::AlreadyVoted);
        }
        let balance = self.quoted_balance_of(voter, token_balance);
        if amount > balance {
            return Err(GovError::InsufficientStake);
        }
        let yes = self.polls[idx].yes_votes;
        let no = self.polls[idx].no_votes;
        if amount > u128::MAX - yes - no {
            return Err(GovError::Overflow);
        }
        let info = VoterInfo { vote, balance: amount };
        match vote {
            VoteOption::Yes => {
                self.polls[idx].yes_votes = yes + amount;
            },
            VoteOption::No => {
                self.polls[idx].no_votes = no + amount;
            },
        }
        proof {
            lemma_total_update(old(self).polls@, escrow_weight(), idx as int, self.polls@[idx as int]);
            assert(self.polls@ =~= old(self).polls@.update(idx as int, self.polls@[idx as int]));
        }
        self.ballots.push(Ballot { poll_id, voter: voter.clone(), info });
        proof {
            lemma_ballot_index(old(self).ballots@, poll_id, voter@);
            assert(self.ballots@.drop_last() =~= old(self).ballots@);
        }
        match self.find_account(voter) {
            Some(i) => {
                self.bank[i].manager.locked_balance.push((poll_id, info));
                proof {
                    lemma_total_update(old(self).bank@, share_weight(), i as int, self.bank@[i as int]);
                    assert(self.bank@ =~= old(self).bank@.update(i as int, self.bank@[i as int]));
                    let locks = old(self).bank@[i as int].manager.locked_balance@;
                    assert(self.bank@[i as int].manager.locked_balance@.last() == (poll_id, info));
                    assert forall|j: int| 0 <= j < self.ballots@.len() implies ballot_on_record(
                        self.bank@,
                        #[trigger] self.ballots@[j],
                    ) by {
                        let b = self.ballots@[j];
                        lemma_account_index_stable(old(self).bank@, self.bank@, b.voter@);
                        let after = self.bank@[i as int].manager.locked_balance@;
                        assert(after == locks.push((poll_id, info)));
                        if j < old(self).ballots@.len() {
                            assert(b == old(self).ballots@[j]);
                            assert(ballot_on_record(old(self).bank@, old(self).ballots@[j]));
                            lemma_account_index(old(self).bank@, b.voter@);
                            let at = account_index(old(self).bank@, b.voter@).unwrap();
                            if at == i as int {
                                let k = choose|k: int| 0 <= k < locks.len() && locks[k] == (b.poll_id, b.info);
                                assert(after[k] == (b.poll_id, b.info));
                            } else {
                                assert(self.bank@[at] == old(self).bank@[at]);
                            }
                        } else {
                            assert(b.voter@ == voter@);
                            assert(after[after.len() - 1] == (poll_id, info));
                        }
                    }
                    let cast = self.ballots@.last();
                    assert(self.ballots@ =~= old(self).ballots@.push(cast));
                    assert forall|a: int, k: int|
                        0 <= a < self.bank@.len() && 0 <= k < self.bank@[a].manager.locked_balance@.len() implies lock_backed(
                        self.ballots@,
                        self.bank@[a].address@,
                        #[trigger] self.bank@[a].manager.locked_balance@[k],
                    ) by {
                        let lock = self.bank@[a].manager.locked_balance@[k];
                        let who = self.bank@[a].address@;
                        lemma_ballot_index_push(old(self).ballots@, cast, lock.0, who);
                        assert(ballot_index(old(self).ballots@, poll_id, voter@) is None);
                        assert(cast.poll_id == poll_id && cast.voter@ == voter@ && cast.info == info);
                        if a == i as int && k == locks.len() {
                            assert(lock == (poll_id, info));
                            assert(who == voter@);
                            assert(self.ballots@[old(self).ballots@.len() as int] == cast);
                        } else {
                            if a == i as int {
                                assert(lock == locks[k]);
                            } else {
                                assert(self.bank@[a] == old(self).bank@[a]);
                            }
                            assert(who == old(self).bank@[a].address@);
                            assert(lock == old(self).bank@[a].manager.locked_balance@[k]);
                            assert(lock_backed(old(self).ballots@, who, lock));
                            lemma_ballot_index(old(self).ballots@, lock.0, who);
                            let at = ballot_index(old(self).ballots@, lock.0, who).unwrap();
                            assert(!(lock.0 == poll_id && who == voter@));
                            assert(self.ballots@[at] == old(self).ballots@[at]);
                        }
                    }
                }
            },
            None => {
                let mut locked_balance: Vec<(u64, VoterInfo)> = Vec::new();
                locked_balance.push((poll_id, info));
                let account = Account {
                    address: voter.clone(),
                    manager: TokenManager { share: 0, locked_balance },
                };
                self.bank.push(account);
                proof {
                    lemma_total_push(old(self).bank@, share_weight(), account);
                    lemma_account_index(old(self).bank@, voter@);
                    assert(self.bank@.drop_last() =~= old(self).bank@);
                    assert(locked_balance@ =~= seq![(poll_id, info)]);
                    assert(self.bank@ =~= old(self).bank@.push(account));
                    assert(locked_balance@[0] == (poll_id, info));
                    assert forall|j: int| 0 <= j < self.ballots@.len() implies ballot_on_record(
                        self.bank@,
                        #[trigger] self.ballots@[j],
                    ) by {
                        let b = self.ballots@[j];
                        lemma_account_index_push(old(self).bank@, account, b.voter@);
                        if j < old(self).ballots@.len() {
                            assert(b == old(self).ballots@[j]);
                            assert(ballot_on_record(old(self).bank@, old(self).ballots@[j]));
                            lemma_account_index(old(self).bank@, b.voter@);
                            let at = account_index(old(self).bank@, b.voter@).unwrap();
                            assert(self.bank@[at] == old(self).bank@[at]);
                        } else {
                            assert(b.voter@ == voter@);
                            assert(self.bank@[old(self).bank@.len() as int] == account);
                        }
                    }
                    let cast = self.ballots@.last();
                    assert(self.ballots@ =~= old(self).ballots@.push(cast));
                    assert forall|a: int, k: int|
                        0 <= a < self.bank@.len() && 0 <= k < self.bank@[a].manager.locked_balance@.len() implies lock_backed(
                        self.ballots@,
                        self.bank@[a].address@,
                        #[trigger] self.bank@[a].manager.locked_balance@[k],
                    ) by {
                        let lock = self.bank@[a].manager.locked_balance@[k];
                        let who = self.bank@[a].address@;
                        lemma_ballot_index_push(old(self).ballots@, cast, lock.0, who);
                        assert(ballot_index(old(self).ballots@, poll_id, voter@) is None);
                        assert(cast.poll_id == poll_id && cast.voter@ == voter@ && cast.info == info);
                        if a < old(self).bank@.len() {
                            assert(self.bank@[a] == old(self).bank@[a]);
                            assert(lock_backed(old(self).ballots@, who, lock));
                            lemma_ballot_index(old(self).ballots@, lock.0, who);
                            let at = ballot_index(old(self).ballots@, lock.0, who).unwrap();
                            assert(!(lock.0 == poll_id && who == voter@));
                            assert(self.ballots@[at] == old(self).ballots@[at]);
                        } else {
                            assert(self.bank@[a] == account);
                            assert(lock == (poll_id, info));
                            assert(who == voter@);
                            assert(self.ballots@[old(self).ballots@.len() as int] == cast);
                        }
                    }
                }
            },
        }
        Ok(())
    }

    /// Freezes the pool's balance as the weight against which the quorum of
    /// poll `poll_id` will be measured.
    pub fn snapshot_poll(&mut self, poll_id: u64, height: u64, token_balance: u128) -> (r: Result<
        u128,
        GovError,
    >)
        requires
            old(self).wf(),
        ensures
            final(self).wf(),
            snapshot_post(*old(self), *final(self), poll_id, height, token_balance, r),
    {
        let idx = match self.poll_index(poll_id) {
            Some(i) => i,
            None => {
                return Err(GovError::PollNotFound);
            },
        };
        let end_height = self.polls[idx].end_height;
        if self.polls[idx].status != PollStatus::InProgress || height > end_height {
            return Err(GovError::PollNotInProgress);
        }
        if end_height - height > self.config.snapshot_period {
            return Err(GovError::SnapshotWindowNotOpen);
        }
        if self.polls[idx].staked_amount.is_some() {
            return Err(GovError::SnapshotAlreadyTaken);
        }
        let staked = underlying_balance(token_balance, self.state.total_deposit);
        self.polls[idx].staked_amount = Some(staked);
        proof {
            lemma_total_update(old(self).polls@, escrow_weight(), idx as int, self.polls@[idx as int]);
            assert(self.polls@ =~= old(self).polls@.update(idx as int, self.polls@[idx as int]));
        }
        Ok(staked)
    }

    /// Resolves poll `poll_id` once voting has ended.
    pub fn end_poll(&mut self, poll_id: u64, height: u64, token_balance: u128) -> (r: Result<
        EndPollOutcome,
        GovError,
    >)
        requires
            old(self).wf(),
        ensures
            final(self).wf(),
            end_poll_post(*old(self), *final(self), poll_id, height, token_balance, r),
    {
        let idx = match self.poll_index(poll_id) {
            Some(i) => i,
            None => {
                return Err(GovError::PollNotFound);
            },
        };
        if height <= self.polls[idx].end_height {
            return Err(GovError::VotingNotExpired);
        }
        if self.polls[idx].status != PollStatus::InProgress {
            return Err(GovError::PollNotInProgress);
        }
        let denominator = match self.polls[idx].staked_amount {
            Some(staked) => staked,
            None => underlying_balance(token_balance, self.state.total_deposit),
        };
        let rejection = resolve(
            self.polls[idx].yes_votes,
            self.polls[idx].no_votes,
            denominator,
            self.config.quorum,
            self.config.threshold,
        );
        let deposit = self.polls[idx].deposit_amount;
        proof {
            lemma_total_covers(self.polls@, escrow_weight(), idx as int);
        }
        self.polls[idx].total_balance_at_end_poll = Some(denominator);
        let refund = if rejection.is_none() {
            self.polls[idx].status = PollStatus::Passed;
            self.state.total_deposit = self.state.total_deposit - deposit;
            Some(Transfer { recipient: self.polls[idx].creator.clone(), amount: deposit })
        } else {
            self.polls[idx].status = PollStatus::Rejected;
            None
        };
        proof {
            lemma_total_update(old(self).polls@, escrow_weight(), idx as int, self.polls@[idx as int]);
            assert(self.polls@ =~= old(self).polls@.update(idx as int, self.polls@[idx as int]));
        }
        Ok(EndPollOutcome { rejection, refund })
    }

    /// Hands out the operations of the passed poll `poll_id` once its timelock
    /// has run out.
    pub fn execute_poll(&mut self, poll_id: u64, height: u64) -> (r: Result<Vec<ExecuteData>, GovError>)
        requires
            old(self).wf(),
        ensures
            final(self).wf(),
            execute_poll_post(*old(self), *final(self), poll_id, height, r),
    {
        let idx = match self.poll_index(poll_id) {
            Some(i) => i,
            None => {
                return Err(GovError::PollNotFound);
            },
        };
        if self.polls[idx].status != PollStatus::Passed {
            return Err(GovError::PollNotPassed);
        }
        let end_height: u128 = self.polls[idx].end_height as u128;
        let delay: u128 = self.config.timelock_period as u128;
        if (height as u128) < end_height + delay {
            return Err(GovError::TimelockNotExpired);
        }
        let calls = copy_operations(&self.polls[idx].execute_data);
        self.polls[idx].status = PollStatus::Executed;
        proof {
            lemma_total_update(old(self).polls@, escrow_weight(), idx as int, self.polls@[idx as int]);
            assert(self.polls@ =~= old(self).polls@.update(idx as int, self.polls@[idx as int]));
        }
        Ok(calls)
    }

    /// Marks the passed poll `poll_id` expired once its expiration period has
    /// run out.
    pub fn expire_poll(&mut self, poll_id: u64, height: u64) -> (r: Result<(), GovError>)
        requires
            old(self).wf(),
        ensures
            final(self).wf(),
            expire_poll_post(*old(self), *final(self), poll_id, height, r),
    {
        let idx = match self.poll_index(poll_id) {
            Some(i) => i,
            None => {
                return Err(GovError::PollNotFound);
            },
        };
        if self.polls[idx].status != PollStatus::Passed {
            return Err(GovError::PollNotPassed);
        }
        let end_height: u128 = self.polls[idx].end_height as u128;
        let delay: u128 = self.config.expiration_period as u128;
        if (height as u128) < end_height + delay {
            return Err(GovError::ExpirationNotReached);
        }
        self.polls[idx].status = PollStatus::Expired;
        proof {
            lemma_total_update(old(self).polls@, escrow_weight(), idx as int, self.polls@[idx as int]);
            assert(self.polls@ =~= old(self).polls@.update(idx as int, self.polls@[idx as int]));
        }
        Ok(())
    }
}

} // verus!
