//! Staking: tokens enter the pool for shares and leave it against shares.
use vstd::prelude::*;
use crate::gov::{
    account_index, ballot_index, ballot_on_record, distinct_ballots, in_progress,
    lemma_account_index, lemma_account_index_push, lemma_account_index_stable, lemma_ballot_index,
    lemma_ballot_index_kept, lock_backed, share_weight, Governance,
};
use crate::ledger::{
    balance_of_shares, burned_share, lemma_burn_within_share, minted_share, pool_balance,
    pool_before_deposit, quoted_balance, shares_for_deposit, shares_for_withdrawal,
    underlying_balance,
};
use crate::seqs::{lemma_total_covers, lemma_total_push, lemma_total_update};
use crate::types::{Account, Ballot, GovError, Poll, State, TokenManager, Transfer, VoterInfo};

verus! {

/// `after` is `before` with `share` more shares for `who`, in a new account
/// where `who` had none.
pub open spec fn credited(before: Seq<Account>, after: Seq<Account>, who: Seq<char>, share: u128) -> bool {
    match account_index(before, who) {
        Some(i) => after == before.update(
            i,
            Account {
                manager: TokenManager {
                    share: (before[i].manager.share + share) as u128,
                    ..before[i].manager
                },
                ..before[i]
            },
        ),
        None => {
            &&& after.len() == before.len() + 1
            &&& after.drop_last() == before
            &&& after.last().address@ == who
            &&& after.last().manager.share == share
            &&& after.last().manager.locked_balance@.len() == 0
        },
    }
}

/// What a stake of `amount` returns: the minted shares, or the error.
pub open spec fn stake_result(pre: Governance, amount: u128, token_balance: u128) -> Result<u128, GovError> {
    let minted = minted_share(
        amount as int,
        pre.state.total_share as int,
        pool_before_deposit(token_balance, pre.state.total_deposit, amount) as int,
    );
    if amount == 0 {
        Err(GovError::InsufficientFunds)
    } else if pre.state.total_share + minted > u128::MAX {
        Err(GovError::Overflow)
    } else {
        Ok(minted as u128)
    }
}

/// A stake either fails and changes nothing, or credits the minted shares to
/// the sender and to the pool's total.
pub open spec fn stake_post(
    pre: Governance,
    post: Governance,
    sender: Seq<char>,
    amount: u128,
    token_balance: u128,
    r: Result<u128, GovError>,
) -> bool {
    &&& r == stake_result(pre, amount, token_balance)
    &&& r is Err ==> post == pre
    &&& r matches Ok(share) ==> {
        &&& post.config == pre.config
        &&& post.polls == pre.polls
        &&& post.ballots == pre.ballots
        &&& post.state == State { total_share: (pre.state.total_share + share) as u128, ..pre.state }
        &&& credited(pre.bank@, post.bank@, sender, share)
    }
}

/// The token amount that a withdrawal pays out, or the error.
pub open spec fn withdraw_result(
    pre: Governance,
    sender: Seq<char>,
    amount: Option<u128>,
    token_balance: u128,
) -> Result<u128, GovError> {
    match account_index(pre.bank@, sender) {
        None => Err(GovError::NothingStaked),
        Some(i) => {
            let quoted = quoted_balance(
                pre.bank@[i].manager.share as int,
                pre.state.total_share as int,
                pool_balance(token_balance, pre.state.total_deposit) as int,
            );
            match amount {
                Some(a) => if a > quoted {
                    Err(GovError::ExceedsBalance)
                } else {
                    Ok(a)
                },
                None => Ok(quoted as u128),
            }
        },
    }
}

/// The shares that a withdrawal burns: all of the staker's where no amount is
/// named, else the floored share value of the amount.
pub open spec fn withdrawn_share(pre: Governance, i: int, amount: Option<u128>, token_balance: u128) -> int {
    match amount {
        None => pre.bank@[i].manager.share as int,
        Some(a) => burned_share(
            a as int,
            pre.state.total_share as int,
            pool_balance(token_balance, pre.state.total_deposit) as int,
        ),
    }
}

/// The votes on polls in progress.
pub open spec fn on_live_poll(polls: Seq<Poll>) -> spec_fn((u64, VoterInfo)) -> bool {
    |e: (u64, VoterInfo)| in_progress(polls, e.0)
}

/// The ballots but those of `who` on polls that have ended.
pub open spec fn spared(polls: Seq<Poll>, who: Seq<char>) -> spec_fn(Ballot) -> bool {
    |b: Ballot| !(b.voter@ == who && !in_progress(polls, b.poll_id))
}

/// The staker's own list of votes without those on polls that have ended.
pub open spec fn live_locks(locks: Seq<(u64, VoterInfo)>, polls: Seq<Poll>) -> Seq<(u64, VoterInfo)> {
    locks.filter(on_live_poll(polls))
}

/// The poll store's ballots without those of `who` on polls that have ended.
pub open spec fn swept_ballots(ballots: Seq<Ballot>, polls: Seq<Poll>, who: Seq<char>) -> Seq<Ballot> {
    ballots.filter(spared(polls, who))
}

/// The amount that a withdrawal pays, or the error.
pub open spec fn amount_paid(r: Result<Transfer, GovError>) -> Result<u128, GovError> {
    match r {
        Ok(t) => Ok(t.amount),
        Err(e) => Err(e),
    }
}

/// A withdrawal either fails and changes nothing, or burns the shares, pays
/// the amount, and drops the sender's records of polls that have ended.
pub open spec fn withdraw_post(
    pre: Governance,
    post: Governance,
    sender: Seq<char>,
    amount: Option<u128>,
    token_balance: u128,
    r: Result<u128, GovError>,
) -> bool {
    &&& r == withdraw_result(pre, sender, amount, token_balance)
    &&& r is Err ==> post == pre
    &&& r is Ok ==> {
        let i = account_index(pre.bank@, sender).unwrap();
        let burned = withdrawn_share(pre, i, amount, token_balance);
        &&& 0 <= burned <= pre.bank@[i].manager.share
        &&& post.config == pre.config
        &&& post.polls == pre.polls
        &&& post.state == State { total_share: (pre.state.total_share - burned) as u128, ..pre.state }
        &&& post.ballots@ == swept_ballots(pre.ballots@, pre.polls@, sender)
        &&& post.bank@.len() == pre.bank@.len()
        &&& forall|j: int| 0 <= j < pre.bank@.len() && j != i ==> post.bank@[j] == pre.bank@[j]
        &&& post.bank@[i].address == pre.bank@[i].address
        &&& post.bank@[i].manager.share == pre.bank@[i].manager.share - burned
        &&& post.bank@[i].manager.locked_balance@ == live_locks(
            pre.bank@[i].manager.locked_balance@,
            pre.polls@,
        )
    }
}

impl Governance {
    /// Stakes `amount` tokens for `sender`. `token_balance` is the token
    /// contract's report for the governance contract, the incoming amount in it.
    pub fn stake(&mut self, sender: &String, amount: u128, token_balance: u128) -> (r: Result<u128, GovError>)
        requires
            old(self).wf(),
        ensures
            final(self).wf(),
            stake_post(*old(self), *final(self), sender@, amount, token_balance, r),
    {
        if amount == 0 {
            return Err(GovError::InsufficientFunds);
        }
        let pool_before = underlying_balance(
            underlying_balance(token_balance, self.state.total_deposit),
            amount,
        );
        let share = match shares_for_deposit(amount, self.state.total_share, pool_before) {
            Some(s) => s,
            None => {
                return Err(GovError::Overflow);
            },
        };
        let new_total = match self.state.total_share.checked_add(share) {
            Some(t) => t,
            None => {
                return Err(GovError::Overflow);
            },
        };
        match self.find_account(sender) {
            Some(i) => {
                proof {
                    lemma_total_covers(self.bank@, share_weight(), i as int);
                }
                let current = self.bank[i].manager.share;
                self.bank[i].manager.share = current + share;
                proof {
                    lemma_total_update(old(self).bank@, share_weight(), i as int, self.bank@[i as int]);
                    assert(self.bank@ =~= old(self).bank@.update(i as int, self.bank@[i as int]));
                    assert forall|j: int| 0 <= j < self.ballots@.len() implies ballot_on_record(
                        self.bank@,
                        #[trigger] self.ballots@[j],
                    ) by {
                        let b = self.ballots@[j];
                        assert(ballot_on_record(old(self).bank@, old(self).ballots@[j]));
                        lemma_account_index_stable(old(self).bank@, self.bank@, b.voter@);
                        lemma_account_index(old(self).bank@, b.voter@);
                        let at = account_index(old(self).bank@, b.voter@).unwrap();
                        assert(self.bank@[at].manager.locked_balance@ == old(self).bank@[at].manager.locked_balance@);
                    }
                }
            },
            None => {
                let account = Account {
                    address: sender.clone(),
                    manager: TokenManager { share, locked_balance: Vec::new() },
                };
                self.bank.push(account);
                proof {
                    lemma_total_push(old(self).bank@, share_weight(), account);
                    lemma_account_index(old(self).bank@, sender@);
                    assert(self.bank@.drop_last() =~= old(self).bank@);
                    assert(self.bank@ =~= old(self).bank@.push(account));
                    assert forall|j: int| 0 <= j < self.ballots@.len() implies ballot_on_record(
                        self.bank@,
                        #[trigger] self.ballots@[j],
                    ) by {
                        let b = self.ballots@[j];
                        assert(ballot_on_record(old(self).bank@, old(self).ballots@[j]));
                        lemma_account_index_push(old(self).bank@, account, b.voter@);
                        lemma_account_index(old(self).bank@, b.voter@);
                        let at = account_index(old(self).bank@, b.voter@).unwrap();
                        assert(self.bank@[at] == old(self).bank@[at]);
                    }
                }
            },
        }
        self.state.total_share = new_total;
        Ok(share)
    }

    /// The votes of `locks` on polls that are still in progress.
    pub fn live_locks_of(&self, locks: &Vec<(u64, VoterInfo)>) -> (kept: Vec<(u64, VoterInfo)>)
        ensures
            kept@ == live_locks(locks@, self.polls@),
            forall|k: int| 0 <= k < kept@.len() ==> locks@.contains(#[trigger] kept@[k]),
    {
        let ghost pred = on_live_poll(self.polls@);
        let mut kept: Vec<(u64, VoterInfo)> = Vec::new();
        let mut j: usize = 0;
        proof {
            reveal(Seq::filter);
            assert(locks@.take(0) =~= Seq::<(u64, VoterInfo)>::empty());
        }
        while j < locks.len()
            invariant
                j <= locks@.len(),
                pred == on_live_poll(self.polls@),
                kept@ == locks@.take(j as int).filter(pred),
                forall|k: int| 0 <= k < kept@.len() ==> locks@.contains(#[trigger] kept@[k]),
            decreases locks@.len() - j,
        {
            let entry = locks[j];
            proof {
                reveal(Seq::filter);
                assert(locks@.take(j + 1).drop_last() =~= locks@.take(j as int));
                assert(locks@.take(j + 1).last() == entry);
            }
            if self.poll_in_progress(entry.0) {
                kept.push(entry);
            }
            j += 1;
        }
        proof {
            assert(locks@.take(j as int) =~= locks@);
        }
        kept
    }

    /// Drops from the poll store the ballots of `who` on polls that have ended.
    fn sweep_ballots(&mut self, who: &String)
        requires
            distinct_ballots(old(self).ballots@),
        ensures
            final(self).ballots@ == swept_ballots(old(self).ballots@, old(self).polls@, who@),
            distinct_ballots(final(self).ballots@),
            forall|j: int|
                0 <= j < final(self).ballots@.len() ==> old(self).ballots@.contains(
                    #[trigger] final(self).ballots@[j],
                ) && (final(self).ballots@[j].voter@ == who@ ==> in_progress(
                    old(self).polls@,
                    final(self).ballots@[j].poll_id,
                )),
            final(self).config == old(self).config,
            final(self).state == old(self).state,
            final(self).polls == old(self).polls,
            final(self).bank == old(self).bank,
    {
        let ghost given = self.ballots@;
        let ghost pred = spared(self.polls@, who@);
        let ghost done: int = 0;
        let mut i: usize = 0;
        proof {
            reveal(Seq::filter);
            assert(given.take(0) =~= Seq::<Ballot>::empty());
            assert(self.ballots@.take(0) =~= Seq::<Ballot>::empty());
            assert(self.ballots@.skip(0) =~= given.skip(0));
        }
        while i < self.ballots.len()
            invariant
                0 <= done <= given.len(),
                i <= self.ballots@.len(),
                self.ballots@.len() - i == given.len() - done,
                pred == spared(self.polls@, who@),
                self.ballots@.take(i as int) == given.take(done).filter(pred),
                self.ballots@.skip(i as int) == given.skip(done),
                distinct_ballots(self.ballots@),
                forall|j: int| 0 <= j < self.ballots@.len() ==> given.contains(#[trigger] self.ballots@[j]),
                forall|j: int|
                    0 <= j < i && (#[trigger] self.ballots@[j]).voter@ == who@ ==> in_progress(
                        self.polls@,
                        self.ballots@[j].poll_id,
                    ),
                self.config == old(self).config,
                self.state == old(self).state,
                self.polls == old(self).polls,
                self.bank == old(self).bank,
            decreases self.ballots@.len() - i,
        {
            let ghost before = self.ballots@;
            proof {
                reveal(Seq::filter);
                assert(before[i as int] == before.skip(i as int)[0]);
                assert(given[done] == given.skip(done)[0]);
                assert(given.take(done + 1).drop_last() =~= given.take(done));
                assert(given.take(done + 1).last() == given[done]);
            }
            let ended = !self.poll_in_progress(self.ballots[i].poll_id);
            if ended && self.ballots[i].voter == *who {
                self.ballots.remove(i);
                proof {
                    assert forall|a: int, b: int| 0 <= a < b < self.ballots@.len() implies !(
                    self.ballots@[a].poll_id == self.ballots@[b].poll_id && self.ballots@[a].voter@
                        == self.ballots@[b].voter@) by {
                        let a0 = if a < i { a } else { a + 1 };
                        let b0 = if b < i { b } else { b + 1 };
                        assert(self.ballots@[a] == before[a0]);
                        assert(self.ballots@[b] == before[b0]);
                    }
                    assert(self.ballots@.take(i as int) =~= before.take(i as int));
                    assert(self.ballots@.skip(i as int) =~= before.skip(i as int).skip(1));
                    assert(given.skip(done + 1) =~= given.skip(done).skip(1));
                    done = done + 1;
                }
            } else {
                proof {
                    assert(before.take(i + 1) =~= before.take(i as int).push(before[i as int]));
                    assert(before.skip(i + 1) =~= before.skip(i as int).skip(1));
                    assert(given.skip(done + 1) =~= given.skip(done).skip(1));
                    done = done + 1;
                }
                i += 1;
            }
        }
        proof {
            assert(self.ballots@.take(i as int) =~= self.ballots@);
            assert(given.take(done) =~= given);
        }
    }

    /// Withdraws `amount` tokens of the stake of `sender`, or all of it where
    /// no amount is named, and returns the transfer that pays the sender.
    /// Votes on polls in progress do not hold a stake back.
    pub fn withdraw(&mut self, sender: &String, amount: Option<u128>, token_balance: u128) -> (r: Result<
        Transfer,
        GovError,
    >)
        requires
            old(self).wf(),
        ensures
            final(self).wf(),
            withdraw_post(*old(self), *final(self), sender@, amount, token_balance, amount_paid(r)),
            r matches Ok(t) ==> t.recipient@ == sender@,
    {
        let i = match self.find_account(sender) {
            Some(i) => i,
            None => {
                return Err(GovError::NothingStaked);
            },
        };
        let share = self.bank[i].manager.share;
        let total_share = self.state.total_share;
        let pool = underlying_balance(token_balance, self.state.total_deposit);
        proof {
            lemma_total_covers(self.bank@, share_weight(), i as int);
        }
        let quoted = balance_of_shares(share, total_share, pool).unwrap();
        let (paid, burned) = match amount {
            Some(a) => {
                if a > quoted {
                    return Err(GovError::ExceedsBalance);
                }
                proof {
                    lemma_burn_within_share(a as int, share as int, total_share as int, pool as int);
                }
                (a, shares_for_withdrawal(a, total_share, pool).unwrap())
            },
            None => (quoted, share),
        };
        let kept = self.live_locks_of(&self.bank[i].manager.locked_balance);
        self.sweep_ballots(sender);
        self.bank[i].manager.locked_balance = kept;
        self.bank[i].manager.share = share - burned;
        proof {
            lemma_total_update(old(self).bank@, share_weight(), i as int, self.bank@[i as int]);
            assert(self.bank@ =~= old(self).bank@.update(i as int, self.bank@[i as int]));
            let locks = old(self).bank@[i as int].manager.locked_balance@;
            assert forall|j: int| 0 <= j < self.ballots@.len() implies ballot_on_record(
                self.bank@,
                #[trigger] self.ballots@[j],
            ) by {
                let b = self.ballots@[j];
                lemma_account_index_stable(old(self).bank@, self.bank@, b.voter@);
                lemma_account_index(old(self).bank@, b.voter@);
                assert(old(self).ballots@.contains(b));
                let j0 = choose|j0: int| 0 <= j0 < old(self).ballots@.len() && old(self).ballots@[j0] == b;
                assert(ballot_on_record(old(self).bank@, old(self).ballots@[j0]));
                if account_index(old(self).bank@, b.voter@) == Some(i as int) {
                    assert(b.voter@ == sender@);
                    let k = choose|k: int| 0 <= k < locks.len() && locks[k] == (b.poll_id, b.info);
                    locks.lemma_filter_contains(on_live_poll(old(self).polls@), k);
                }
            }
            let kept_locks = self.bank@[i as int].manager.locked_balance@;
            let before = old(self).ballots@;
            lemma_account_index(old(self).bank@, sender@);
            assert forall|a: int, k: int|
                0 <= a < self.bank@.len() && 0 <= k < self.bank@[a].manager.locked_balance@.len() implies lock_backed(
                self.ballots@,
                self.bank@[a].address@,
                #[trigger] self.bank@[a].manager.locked_balance@[k],
            ) by {
                let lock = self.bank@[a].manager.locked_balance@[k];
                let who = self.bank@[a].address@;
                if a == i as int {
                    assert(locks.contains(kept_locks[k]));
                    let k0 = choose|k0: int| 0 <= k0 < locks.len() && locks[k0] == lock;
                    assert(lock_backed(before, old(self).bank@[a].address@, old(self).bank@[a].manager.locked_balance@[k0]));
                    locks.lemma_filter_pred(on_live_poll(old(self).polls@), k);
                } else {
                    assert(self.bank@[a] == old(self).bank@[a]);
                    assert(lock_backed(before, old(self).bank@[a].address@, old(self).bank@[a].manager.locked_balance@[k]));
                    assert(who != sender@);
                }
                lemma_ballot_index(before, lock.0, who);
                let j = ballot_index(before, lock.0, who).unwrap();
                assert(spared(old(self).polls@, sender@)(before[j]));
                before.lemma_filter_contains(spared(old(self).polls@, sender@), j);
                lemma_ballot_index_kept(before, self.ballots@, lock.0, who);
            }
        }
        self.state.total_share = total_share - burned;
        Ok(Transfer { recipient: sender.clone(), amount: paid })
    }
}

} // verus!
