//! The governance value, its invariant, and the lookups in it.
use vstd::prelude::*;
use crate::schedule::{ascending, is_ascending};
use crate::seqs::{
    last_index, lemma_last_index, lemma_last_index_same, lemma_total_prefix, lemma_total_push,
    total,
};
use crate::types::{
    Account, Ballot, Config, GovError, InitMsg, Poll, PollStatus, State, VoteOption, VoterInfo,
};

verus! {

/// The whole state of one governance: configuration, pool counters, the polls
/// in the order of their ids, the ballots of the poll store, and the stakers'
/// accounts.
#[derive(Clone, Debug, PartialEq, Eq)]
pub struct Governance {
    pub config: Config,
    pub state: State,
    pub polls: Vec<Poll>,
    pub ballots: Vec<Ballot>,
    pub bank: Vec<Account>,
}

/// What an account adds to the pool's total: its shares.
pub open spec fn share_weight() -> spec_fn(Account) -> nat {
    |a: Account| a.manager.share as nat
}

/// Sum of the shares of all accounts.
pub open spec fn share_sum(bank: Seq<Account>) -> nat {
    total(bank, share_weight())
}

/// A poll holds its deposit in escrow until it passes.
pub open spec fn escrowed(p: Poll) -> nat {
    if p.status == PollStatus::InProgress || p.status == PollStatus::Rejected {
        p.deposit_amount as nat
    } else {
        0
    }
}

/// What a poll adds to the escrow.
pub open spec fn escrow_weight() -> spec_fn(Poll) -> nat {
    |p: Poll| escrowed(p)
}

/// Sum of the deposits held in escrow.
pub open spec fn escrow_sum(polls: Seq<Poll>) -> nat {
    total(polls, escrow_weight())
}

/// The accounts of `who`.
pub open spec fn owned_by(who: Seq<char>) -> spec_fn(Account) -> bool {
    |a: Account| a.address@ == who
}

/// The ballots of `who` on poll `poll_id`.
pub open spec fn cast_by(poll_id: u64, who: Seq<char>) -> spec_fn(Ballot) -> bool {
    |b: Ballot| b.poll_id == poll_id && b.voter@ == who
}

/// No two accounts belong to the same staker.
pub open spec fn distinct_accounts(bank: Seq<Account>) -> bool {
    forall|i: int, j: int| 0 <= i < j < bank.len() ==> bank[i].address@ != bank[j].address@
}

/// No voter has two ballots on the same poll.
pub open spec fn distinct_ballots(ballots: Seq<Ballot>) -> bool {
    forall|i: int, j: int|
        0 <= i < j < ballots.len() ==> !(ballots[i].poll_id == ballots[j].poll_id && ballots[i].voter@
            == ballots[j].voter@)
}

/// Index of the account of `who`.
pub open spec fn account_index(bank: Seq<Account>, who: Seq<char>) -> Option<int> {
    last_index(bank, owned_by(who))
}

/// Index of the ballot that `who` cast on poll `poll_id`.
pub open spec fn ballot_index(ballots: Seq<Ballot>, poll_id: u64, who: Seq<char>) -> Option<int> {
    last_index(ballots, cast_by(poll_id, who))
}

/// The account found for `who` is an account of `who`, and where none is
/// found no account is.
pub proof fn lemma_account_index(bank: Seq<Account>, who: Seq<char>)
    ensures
        match account_index(bank, who) {
            Some(i) => 0 <= i < bank.len() && bank[i].address@ == who,
            None => forall|j: int| 0 <= j < bank.len() ==> bank[j].address@ != who,
        },
{
    lemma_last_index(bank, owned_by(who));
    if account_index(bank, who) is None {
        assert forall|j: int| 0 <= j < bank.len() implies bank[j].address@ != who by {
            assert(!owned_by(who)(bank[j]));
        }
    }
}

/// The ballot found for a voter on a poll is that voter's on that poll, and
/// where none is found the voter has none on the poll.
pub proof fn lemma_ballot_index(ballots: Seq<Ballot>, poll_id: u64, who: Seq<char>)
    ensures
        match ballot_index(ballots, poll_id, who) {
            Some(i) => 0 <= i < ballots.len() && ballots[i].poll_id == poll_id && ballots[i].voter@ == who,
            None => forall|j: int|
                0 <= j < ballots.len() ==> !(ballots[j].poll_id == poll_id && ballots[j].voter@ == who),
        },
{
    lemma_last_index(ballots, cast_by(poll_id, who));
    if ballot_index(ballots, poll_id, who) is None {
        assert forall|j: int| 0 <= j < ballots.len() implies !(ballots[j].poll_id == poll_id
            && ballots[j].voter@ == who) by {
            assert(!cast_by(poll_id, who)(ballots[j]));
        }
    }
}

/// Poll `poll_id` exists and is in progress.
pub open spec fn in_progress(polls: Seq<Poll>, poll_id: u64) -> bool {
    1 <= poll_id <= polls.len() && polls[poll_id - 1].status == PollStatus::InProgress
}

/// The poll at index `i` carries the id `i + 1`, keeps its operations in
/// ascending order, and its tally fits in 128 bits.
pub open spec fn poll_wf(p: Poll, i: int) -> bool {
    &&& p.id == i + 1
    &&& ascending(p.execute_data@)
    &&& p.yes_votes + p.no_votes <= u128::MAX
}

/// The vote on record names a poll, and weighs no more than the poll has
/// tallied for its option.
pub open spec fn lock_bounded(polls: Seq<Poll>, lock: (u64, VoterInfo)) -> bool {
    &&& 1 <= lock.0 <= polls.len()
    &&& lock.1.balance <= (match lock.1.vote {
        VoteOption::Yes => polls[lock.0 - 1].yes_votes,
        VoteOption::No => polls[lock.0 - 1].no_votes,
    })
}

/// Every vote that a staker keeps on record is within its poll's tally.
pub open spec fn locks_bounded(polls: Seq<Poll>, bank: Seq<Account>) -> bool {
    forall|i: int, k: int|
        0 <= i < bank.len() && 0 <= k < bank[i].manager.locked_balance@.len() ==> lock_bounded(
            polls,
            #[trigger] bank[i].manager.locked_balance@[k],
        )
}

/// The ballot has its entry in the list that the voter's account keeps.
pub open spec fn ballot_on_record(bank: Seq<Account>, b: Ballot) -> bool {
    account_index(bank, b.voter@) is Some && bank[account_index(
        bank,
        b.voter@,
    ).unwrap()].manager.locked_balance@.contains((b.poll_id, b.info))
}

/// Every ballot in the poll store has its entry in the voter's account.
pub open spec fn ballots_on_record(bank: Seq<Account>, ballots: Seq<Ballot>) -> bool {
    forall|j: int| 0 <= j < ballots.len() ==> ballot_on_record(bank, #[trigger] ballots[j])
}

/// The vote that `who` keeps on record is the ballot of `who` in the poll
/// store.
pub open spec fn lock_backed(ballots: Seq<Ballot>, who: Seq<char>, lock: (u64, VoterInfo)) -> bool {
    ballot_index(ballots, lock.0, who) is Some && ballots[ballot_index(
        ballots,
        lock.0,
        who,
    ).unwrap()].info == lock.1
}

/// Every vote that a staker keeps on record is a ballot in the poll store.
pub open spec fn locks_backed(bank: Seq<Account>, ballots: Seq<Ballot>) -> bool {
    forall|i: int, k: int|
        0 <= i < bank.len() && 0 <= k < bank[i].manager.locked_balance@.len() ==> lock_backed(
            ballots,
            bank[i].address@,
            #[trigger] bank[i].manager.locked_balance@[k],
        )
}

/// A new ballot is found at the end, and the others where they were.
pub proof fn lemma_ballot_index_push(before: Seq<Ballot>, b: Ballot, poll_id: u64, who: Seq<char>)
    ensures
        ballot_index(before.push(b), poll_id, who) == (if b.poll_id == poll_id && b.voter@ == who {
            Some(before.len() as int)
        } else {
            ballot_index(before, poll_id, who)
        }),
{
    assert(before.push(b).drop_last() =~= before);
}

/// A ballot that a selection keeps is found among the kept ballots.
pub proof fn lemma_ballot_index_kept(
    before: Seq<Ballot>,
    after: Seq<Ballot>,
    poll_id: u64,
    who: Seq<char>,
)
    requires
        distinct_ballots(before),
        ballot_index(before, poll_id, who) is Some,
        after.contains(before[ballot_index(before, poll_id, who).unwrap()]),
        forall|j: int| 0 <= j < after.len() ==> before.contains(#[trigger] after[j]),
    ensures
        ballot_index(after, poll_id, who) is Some,
        after[ballot_index(after, poll_id, who).unwrap()] == before[ballot_index(
            before,
            poll_id,
            who,
        ).unwrap()],
{
    lemma_ballot_index(before, poll_id, who);
    lemma_ballot_index(after, poll_id, who);
    let j = ballot_index(before, poll_id, who).unwrap();
    let held = choose|h: int| 0 <= h < after.len() && after[h] == before[j];
    assert(after[held].poll_id == poll_id && after[held].voter@ == who);
    let x = ballot_index(after, poll_id, who).unwrap();
    assert(before.contains(after[x]));
    let j0 = choose|j0: int| 0 <= j0 < before.len() && before[j0] == after[x];
    assert(j0 == j);
}

/// Accounts that keep their addresses are found where they were.
pub proof fn lemma_account_index_stable(before: Seq<Account>, after: Seq<Account>, who: Seq<char>)
    requires
        before.len() == after.len(),
        forall|j: int| 0 <= j < before.len() ==> before[j].address@ == after[j].address@,
    ensures
        account_index(after, who) == account_index(before, who),
{
    assert forall|j: int| 0 <= j < before.len() implies owned_by(who)(before[j]) == owned_by(who)(
        after[j],
    ) by {}
    lemma_last_index_same(before, after, owned_by(who));
}

/// A new account is found at the end, and the others where they were.
pub proof fn lemma_account_index_push(before: Seq<Account>, a: Account, who: Seq<char>)
    ensures
        account_index(before.push(a), who) == (if a.address@ == who {
            Some(before.len() as int)
        } else {
            account_index(before, who)
        }),
{
    assert(before.push(a).drop_last() =~= before);
}

/// The shares of the staker `who`, zero without an account.
pub open spec fn share_of(bank: Seq<Account>, who: Seq<char>) -> u128 {
    match account_index(bank, who) {
        Some(i) => bank[i].manager.share,
        None => 0,
    }
}

impl Governance {
    /// The ledger as a map: the shares of every staker who has an account.
    pub open spec fn shares(&self) -> Map<Seq<char>, u128> {
        Map::new(
            |who: Seq<char>| account_index(self.bank@, who) is Some,
            |who: Seq<char>| share_of(self.bank@, who),
        )
    }

    /// The poll store's ballots as a map: the vote of every voter on every
    /// poll on which the voter has a ballot.
    pub open spec fn votes(&self) -> Map<(u64, Seq<char>), VoterInfo> {
        Map::new(
            |key: (u64, Seq<char>)| ballot_index(self.ballots@, key.0, key.1) is Some,
            |key: (u64, Seq<char>)| self.ballots@[ballot_index(self.ballots@, key.0, key.1).unwrap()].info,
        )
    }

    /// The invariant of the governance: ratios within `[0, 1]`, polls numbered
    /// from one in the order of creation, one account for a staker and one
    /// ballot for a voter on a poll, every vote that a staker keeps on record
    /// within its poll's tally, the votes on record with the stakers the
    /// ballots of the poll store and the other way round, the pool's total
    /// equal to the sum of the
    /// stakers' shares, and the escrow equal to the deposits of the polls that
    /// have not passed.
    pub open spec fn wf(&self) -> bool {
        &&& self.config.wf()
        &&& self.polls@.len() == self.state.poll_count
        &&& forall|i: int| 0 <= i < self.polls@.len() ==> poll_wf(#[trigger] self.polls@[i], i)
        &&& distinct_accounts(self.bank@)
        &&& distinct_ballots(self.ballots@)
        &&& locks_bounded(self.polls@, self.bank@)
        &&& ballots_on_record(self.bank@, self.ballots@)
        &&& locks_backed(self.bank@, self.ballots@)
        &&& share_sum(self.bank@) == self.state.total_share
        &&& escrow_sum(self.polls@) == self.state.total_deposit
    }

    /// Sets up a governance without polls, stakers or token.
    pub fn init(owner: String, contract_addr: String, msg: InitMsg) -> (r: Result<Governance, GovError>)
        ensures
            !msg.quorum.in_unit_range() ==> r == Err::<Governance, GovError>(GovError::InvalidQuorum),
            msg.quorum.in_unit_range() && !msg.threshold.in_unit_range() ==> r == Err::<Governance, GovError>(
                GovError::InvalidThreshold,
            ),
            msg.quorum.in_unit_range() && msg.threshold.in_unit_range() ==> r is Ok,
            r matches Ok(g) ==> {
                &&& g.wf()
                &&& g.config == Config {
                    owner,
                    anchor_token: None,
                    quorum: msg.quorum,
                    threshold: msg.threshold,
                    voting_period: msg.voting_period,
                    timelock_period: msg.timelock_period,
                    expiration_period: msg.expiration_period,
                    proposal_deposit: msg.proposal_deposit,
                    snapshot_period: msg.snapshot_period,
                }
                &&& g.state == State { contract_addr, poll_count: 0, total_share: 0, total_deposit: 0 }
                &&& g.polls@.len() == 0
                &&& g.ballots@.len() == 0
                &&& g.bank@.len() == 0
            },
    {
        if !msg.quorum.is_in_unit_range() {
            return Err(GovError::InvalidQuorum);
        }
        if !msg.threshold.is_in_unit_range() {
            return Err(GovError::InvalidThreshold);
        }
        Ok(
            Governance {
                config: Config {
                    owner,
                    anchor_token: None,
                    quorum: msg.quorum,
                    threshold: msg.threshold,
                    voting_period: msg.voting_period,
                    timelock_period: msg.timelock_period,
                    expiration_period: msg.expiration_period,
                    proposal_deposit: msg.proposal_deposit,
                    snapshot_period: msg.snapshot_period,
                },
                state: State { contract_addr, poll_count: 0, total_share: 0, total_deposit: 0 },
                polls: Vec::new(),
                ballots: Vec::new(),
                bank: Vec::new(),
            },
        )
    }

    /// Whether the value, as it was put together or read back, satisfies the
    /// invariant that every operation relies on.
    pub fn is_well_formed(&self) -> (r: bool)
        ensures
            r == self.wf(),
    {
        if !self.config.quorum.is_in_unit_range() || !self.config.threshold.is_in_unit_range() {
            return false;
        }
        let count = self.polls.len();
        if count as u64 != self.state.poll_count {
            return false;
        }
        let mut escrow: u128 = 0;
        let mut i: usize = 0;
        proof {
            assert(self.polls@.take(0) =~= Seq::<Poll>::empty());
        }
        while i < count
            invariant
                i <= count,
                count == self.polls@.len(),
                escrow == escrow_sum(self.polls@.take(i as int)),
                forall|j: int| 0 <= j < i ==> poll_wf(#[trigger] self.polls@[j], j),
            decreases count - i,
        {
            let p = &self.polls[i];
            proof {
                assert(self.polls@.take(i + 1) =~= self.polls@.take(i as int).push(*p));
                lemma_total_push(self.polls@.take(i as int), escrow_weight(), *p);
                lemma_total_prefix(self.polls@, escrow_weight(), i + 1);
            }
            if p.id != i as u64 + 1 || !is_ascending(&p.execute_data) || p.yes_votes > u128::MAX
                - p.no_votes {
                proof {
                    assert(!poll_wf(self.polls@[i as int], i as int));
                }
                return false;
            }
            if p.status == PollStatus::InProgress || p.status == PollStatus::Rejected {
                if p.deposit_amount > u128::MAX - escrow {
                    return false;
                }
                escrow = escrow + p.deposit_amount;
            }
            i += 1;
        }
        proof {
            assert(self.polls@.take(count as int) =~= self.polls@);
        }
        if escrow != self.state.total_deposit {
            return false;
        }
        let mut shares: u128 = 0;
        let mut k: usize = 0;
        let accounts = self.bank.len();
        proof {
            assert(self.bank@.take(0) =~= Seq::<Account>::empty());
        }
        while k < accounts
            invariant
                k <= accounts,
                accounts == self.bank@.len(),
                shares == share_sum(self.bank@.take(k as int)),
            decreases accounts - k,
        {
            let a = &self.bank[k];
            proof {
                assert(self.bank@.take(k + 1) =~= self.bank@.take(k as int).push(*a));
                lemma_total_push(self.bank@.take(k as int), share_weight(), *a);
                lemma_total_prefix(self.bank@, share_weight(), k + 1);
            }
            if a.manager.share > u128::MAX - shares {
                return false;
            }
            shares = shares + a.manager.share;
            k += 1;
        }
        proof {
            assert(self.bank@.take(accounts as int) =~= self.bank@);
        }
        shares == self.state.total_share && self.accounts_are_distinct() && self.ballots_are_distinct()
            && self.locks_are_bounded() && self.ballots_are_on_record() && self.locks_are_backed()
    }

    /// Whether every vote that a staker keeps on record is a ballot in the
    /// poll store.
    pub fn locks_are_backed(&self) -> (r: bool)
        ensures
            r == locks_backed(self.bank@, self.ballots@),
    {
        let len = self.bank.len();
        let mut i: usize = 0;
        while i < len
            invariant
                i <= len,
                len == self.bank@.len(),
                forall|a: int, k: int|
                    0 <= a < i && 0 <= k < self.bank@[a].manager.locked_balance@.len() ==> lock_backed(
                        self.ballots@,
                        self.bank@[a].address@,
                        #[trigger] self.bank@[a].manager.locked_balance@[k],
                    ),
            decreases len - i,
        {
            let account = &self.bank[i];
            let locks = &account.manager.locked_balance;
            let mut k: usize = 0;
            while k < locks.len()
                invariant
                    i < len,
                    len == self.bank@.len(),
                    k <= locks@.len(),
                    *account == self.bank@[i as int],
                    locks@ == self.bank@[i as int].manager.locked_balance@,
                    forall|j: int|
                        0 <= j < k ==> lock_backed(self.ballots@, account.address@, #[trigger] locks@[j]),
                decreases locks@.len() - k,
            {
                let lock = locks[k];
                let backed = match self.find_ballot(lock.0, &account.address) {
                    Some(j) => self.ballots[j].info == lock.1,
                    None => false,
                };
                if !backed {
                    proof {
                        assert(!lock_backed(
                            self.ballots@,
                            self.bank@[i as int].address@,
                            self.bank@[i as int].manager.locked_balance@[k as int],
                        ));
                    }
                    return false;
                }
                k += 1;
            }
            i += 1;
        }
        true
    }

    /// Whether every ballot in the poll store has its entry in the voter's
    /// account.
    pub fn ballots_are_on_record(&self) -> (r: bool)
        ensures
            r == ballots_on_record(self.bank@, self.ballots@),
    {
        let len = self.ballots.len();
        let mut j: usize = 0;
        while j < len
            invariant
                j <= len,
                len == self.ballots@.len(),
                forall|a: int| 0 <= a < j ==> ballot_on_record(self.bank@, #[trigger] self.ballots@[a]),
            decreases len - j,
        {
            let b = &self.ballots[j];
            let found = match self.find_account(&b.voter) {
                Some(i) => {
                    let locks = &self.bank[i].manager.locked_balance;
                    let mut k: usize = 0;
                    let mut seen = false;
                    while k < locks.len() && !seen
                        invariant
                            k <= locks@.len(),
                            seen ==> locks@.contains((b.poll_id, b.info)),
                            !seen ==> forall|c: int| 0 <= c < k ==> locks@[c] != (b.poll_id, b.info),
                        decreases locks@.len() - k + (if seen { 0int } else { 1int }),
                    {
                        let entry = locks[k];
                        if entry.0 == b.poll_id && entry.1.vote == b.info.vote && entry.1.balance
                            == b.info.balance {
                            seen = true;
                            proof {
                                assert(locks@[k as int] == (b.poll_id, b.info));
                            }
                        } else {
                            k += 1;
                        }
                    }
                    seen
                },
                None => false,
            };
            if !found {
                proof {
                    assert(!ballot_on_record(self.bank@, self.ballots@[j as int]));
                }
                return false;
            }
            j += 1;
        }
        true
    }

    /// Whether the vote `lock` names a poll and is within the poll's tally.
    pub fn lock_is_bounded(&self, lock: (u64, VoterInfo)) -> (r: bool)
        ensures
            r == lock_bounded(self.polls@, lock),
    {
        if lock.0 == 0 {
            return false;
        }
        let len = self.polls.len();
        if lock.0 - 1 >= len as u64 {
            return false;
        }
        let p = &self.polls[(lock.0 - 1) as usize];
        match lock.1.vote {
            VoteOption::Yes => lock.1.balance <= p.yes_votes,
            VoteOption::No => lock.1.balance <= p.no_votes,
        }
    }

    /// Whether every vote that a staker keeps on record is within its poll's
    /// tally.
    pub fn locks_are_bounded(&self) -> (r: bool)
        ensures
            r == locks_bounded(self.polls@, self.bank@),
    {
        let len = self.bank.len();
        let mut i: usize = 0;
        while i < len
            invariant
                i <= len,
                len == self.bank@.len(),
                forall|a: int, k: int|
                    0 <= a < i && 0 <= k < self.bank@[a].manager.locked_balance@.len() ==> lock_bounded(
                        self.polls@,
                        #[trigger] self.bank@[a].manager.locked_balance@[k],
                    ),
            decreases len - i,
        {
            let locks = &self.bank[i].manager.locked_balance;
            let mut k: usize = 0;
            while k < locks.len()
                invariant
                    i < len,
                    len == self.bank@.len(),
                    k <= locks@.len(),
                    locks@ == self.bank@[i as int].manager.locked_balance@,
                    forall|j: int| 0 <= j < k ==> lock_bounded(self.polls@, #[trigger] locks@[j]),
                decreases locks@.len() - k,
            {
                if !self.lock_is_bounded(locks[k]) {
                    proof {
                        assert(!lock_bounded(
                            self.polls@,
                            self.bank@[i as int].manager.locked_balance@[k as int],
                        ));
                    }
                    return false;
                }
                k += 1;
            }
            i += 1;
        }
        true
    }

    /// Whether no two accounts belong to the same staker.
    pub fn accounts_are_distinct(&self) -> (r: bool)
        ensures
            r == distinct_accounts(self.bank@),
    {
        let len = self.bank.len();
        let mut j: usize = 0;
        while j < len
            invariant
                j <= len,
                len == self.bank@.len(),
                forall|a: int, b: int| 0 <= a < b < j ==> self.bank@[a].address@ != self.bank@[b].address@,
            decreases len - j,
        {
            let mut i: usize = 0;
            while i < j
                invariant
                    i <= j < len,
                    len == self.bank@.len(),
                    forall|a: int| 0 <= a < i ==> self.bank@[a].address@ != self.bank@[j as int].address@,
                decreases j - i,
            {
                if self.bank[i].address == self.bank[j].address {
                    return false;
                }
                i += 1;
            }
            j += 1;
        }
        true
    }

    /// Whether no voter has two ballots on the same poll.
    pub fn ballots_are_distinct(&self) -> (r: bool)
        ensures
            r == distinct_ballots(self.ballots@),
    {
        let len = self.ballots.len();
        let mut j: usize = 0;
        while j < len
            invariant
                j <= len,
                len == self.ballots@.len(),
                forall|a: int, b: int|
                    0 <= a < b < j ==> !(self.ballots@[a].poll_id == self.ballots@[b].poll_id
                        && self.ballots@[a].voter@ == self.ballots@[b].voter@),
            decreases len - j,
        {
            let mut i: usize = 0;
            while i < j
                invariant
                    i <= j < len,
                    len == self.ballots@.len(),
                    forall|a: int|
                        0 <= a < i ==> !(self.ballots@[a].poll_id == self.ballots@[j as int].poll_id
                            && self.ballots@[a].voter@ == self.ballots@[j as int].voter@),
                decreases j - i,
            {
                if self.ballots[i].poll_id == self.ballots[j].poll_id && self.ballots[i].voter
                    == self.ballots[j].voter {
                    return false;
                }
                i += 1;
            }
            j += 1;
        }
        true
    }

    /// Names the token whose deposit notifications are accepted. It can be
    /// named once.
    pub fn register_contracts(&mut self, anchor_token: String) -> (r: Result<(), GovError>)
        requires
            old(self).wf(),
        ensures
            final(self).wf(),
            r is Err <==> old(self).config.anchor_token is Some,
            r is Err ==> r == Err::<(), GovError>(GovError::Unauthorized) && *final(self) == *old(self),
            r is Ok ==> *final(self) == (Governance {
                config: Config { anchor_token: Some(anchor_token), ..old(self).config },
                ..*old(self)
            }),
    {
        if self.config.anchor_token.is_some() {
            return Err(GovError::Unauthorized);
        }
        self.config.anchor_token = Some(anchor_token);
        Ok(())
    }

    /// Whether `who` is the registered token.
    pub open spec fn is_token(&self, who: Seq<char>) -> bool {
        self.config.anchor_token matches Some(t) && t@ == who
    }

    pub fn from_token(&self, who: &String) -> (r: bool)
        ensures
            r == self.is_token(who@),
    {
        match &self.config.anchor_token {
            Some(t) => *t == *who,
            None => false,
        }
    }

    /// The index of the account of `who`.
    pub fn find_account(&self, who: &String) -> (r: Option<usize>)
        ensures
            r is Some <==> account_index(self.bank@, who@) is Some,
            r matches Some(i) ==> account_index(self.bank@, who@) == Some(i as int) && i < self.bank@.len()
                && self.bank@[i as int].address@ == who@,
    {
        let ghost pred = owned_by(who@);
        let mut i: usize = self.bank.len();
        proof {
            assert(self.bank@.take(i as int) =~= self.bank@);
        }
        while i > 0
            invariant
                i <= self.bank@.len(),
                pred == owned_by(who@),
                last_index(self.bank@, pred) == last_index(self.bank@.take(i as int), pred),
            decreases i,
        {
            if self.bank[i - 1].address == *who {
                proof {
                    assert(self.bank@.take(i as int).last() == self.bank@[i - 1]);
                }
                return Some(i - 1);
            }
            proof {
                assert(self.bank@.take(i as int).last() == self.bank@[i - 1]);
                assert(self.bank@.take(i as int).drop_last() =~= self.bank@.take(i - 1));
            }
            i -= 1;
        }
        None
    }

    /// The index of the ballot that `who` cast on poll `poll_id`.
    pub fn find_ballot(&self, poll_id: u64, who: &String) -> (r: Option<usize>)
        ensures
            r is Some <==> ballot_index(self.ballots@, poll_id, who@) is Some,
            r matches Some(i) ==> ballot_index(self.ballots@, poll_id, who@) == Some(i as int) && i
                < self.ballots@.len(),
    {
        let ghost pred = cast_by(poll_id, who@);
        let mut i: usize = self.ballots.len();
        proof {
            assert(self.ballots@.take(i as int) =~= self.ballots@);
        }
        while i > 0
            invariant
                i <= self.ballots@.len(),
                pred == cast_by(poll_id, who@),
                last_index(self.ballots@, pred) == last_index(self.ballots@.take(i as int), pred),
            decreases i,
        {
            if self.ballots[i - 1].poll_id == poll_id && self.ballots[i - 1].voter == *who {
                proof {
                    assert(self.ballots@.take(i as int).last() == self.ballots@[i - 1]);
                }
                return Some(i - 1);
            }
            proof {
                assert(self.ballots@.take(i as int).last() == self.ballots@[i - 1]);
                assert(self.ballots@.take(i as int).drop_last() =~= self.ballots@.take(i - 1));
            }
            i -= 1;
        }
        None
    }

    /// Whether poll `poll_id` exists and is in progress.
    pub fn poll_in_progress(&self, poll_id: u64) -> (r: bool)
        ensures
            r == in_progress(self.polls@, poll_id),
    {
        if poll_id == 0 {
            return false;
        }
        let len = self.polls.len();
        if poll_id - 1 >= len as u64 {
            return false;
        }
        let status = self.polls[(poll_id - 1) as usize].status;
        status == PollStatus::InProgress
    }
}

} // verus!
