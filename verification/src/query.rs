//! Read-only views of the governance.
use vstd::prelude::*;
use crate::gov::{account_index, ballot_index, in_progress, share_of, share_weight, Governance};
use crate::staking::live_locks;
use crate::ledger::{balance_of_shares, pool_balance, quoted_balance, underlying_balance};
use crate::seqs::{
    first_n, lemma_filter_grow_back, lemma_filter_grow_front, lemma_first_n_push, lemma_total_covers,
};
use crate::types::{
    Ballot, Config, GovError, OrderBy, Poll, PollStatus, State, VoteOption, VoterInfo,
};

verus! {

/// Page size where none is asked for.
pub const DEFAULT_LIMIT: u32 = 10;

/// Largest page size.
pub const MAX_LIMIT: u32 = 30;

/// A staker's ledger summary.
#[derive(Clone, Debug, PartialEq, Eq)]
pub struct StakerResponse {
    pub balance: u128,
    pub share: u128,
    pub locked_balance: Vec<(u64, VoterInfo)>,
}

/// One line of a poll's voter listing.
#[derive(Clone, Debug, PartialEq, Eq)]
pub struct VotersResponseItem {
    pub voter: String,
    pub vote: VoteOption,
    pub balance: u128,
}

/// The page size in force: the one asked for, or the default, and never more
/// than the largest.
pub open spec fn page_size(limit: Option<u32>) -> nat {
    let asked = match limit {
        Some(l) => l,
        None => DEFAULT_LIMIT,
    };
    if asked < MAX_LIMIT {
        asked as nat
    } else {
        MAX_LIMIT as nat
    }
}

/// Whether a listing runs from the newest entry to the oldest, which it does
/// unless ascending order is asked for.
pub open spec fn runs_descending(order_by: Option<OrderBy>) -> bool {
    order_by != Some(OrderBy::Asc)
}

/// The polls that a listing shows: those of the status asked for, beyond the
/// cursor in the direction of the listing.
pub open spec fn poll_selector(filter: Option<PollStatus>, start_after: Option<u64>, descending: bool) -> spec_fn(
    Poll,
) -> bool {
    |p: Poll|
        (filter is None || filter == Some(p.status)) && (match start_after {
            None => true,
            Some(cursor) => if descending {
                p.id < cursor
            } else {
                p.id > cursor
            },
        })
}

/// The id of a poll.
pub open spec fn id_of() -> spec_fn(Poll) -> u64 {
    |p: Poll| p.id
}

/// A sequence in the direction of a listing.
pub open spec fn directed<T>(s: Seq<T>, descending: bool) -> Seq<T> {
    if descending {
        s.reverse()
    } else {
        s
    }
}

/// The ids that a poll listing shows.
pub open spec fn listed_polls(
    polls: Seq<Poll>,
    filter: Option<PollStatus>,
    start_after: Option<u64>,
    limit: Option<u32>,
    order_by: Option<OrderBy>,
) -> Seq<u64> {
    let descending = runs_descending(order_by);
    first_n(
        directed(polls.filter(poll_selector(filter, start_after, descending)), descending),
        page_size(limit),
    ).map_values(id_of())
}

/// The votes that `who` keeps on record, none without an account.
pub open spec fn locks_of(gov: Governance, who: Seq<char>) -> Seq<(u64, VoterInfo)> {
    match account_index(gov.bank@, who) {
        Some(i) => gov.bank@[i].manager.locked_balance@,
        None => Seq::empty(),
    }
}

/// The ballots cast on poll `poll_id`.
pub open spec fn on_poll(poll_id: u64) -> spec_fn(Ballot) -> bool {
    |b: Ballot| b.poll_id == poll_id
}

/// The ballots among which a voter listing looks: all of them without a
/// cursor; with one, those cast after the cursor's ballot in an ascending
/// listing and those cast before it in a descending one; none where the
/// cursor has no ballot on the poll.
pub open spec fn ballot_range(
    ballots: Seq<Ballot>,
    poll_id: u64,
    start_after: Option<Seq<char>>,
    descending: bool,
) -> (int, int) {
    match start_after {
        None => (0, ballots.len() as int),
        Some(who) => match ballot_index(ballots, poll_id, who) {
            None => (0, 0),
            Some(c) => if descending {
                (0, c)
            } else {
                (c + 1, ballots.len() as int)
            },
        },
    }
}

/// What a listing shows of a ballot: the voter and the vote.
pub open spec fn line_of() -> spec_fn(Ballot) -> (Seq<char>, VoterInfo) {
    |b: Ballot| (b.voter@, b.info)
}

/// The voter and the vote that a line of a listing holds.
pub open spec fn shown() -> spec_fn(VotersResponseItem) -> (Seq<char>, VoterInfo) {
    |v: VotersResponseItem| (v.voter@, VoterInfo { vote: v.vote, balance: v.balance })
}

/// The voters that a listing shows, each with the vote cast: none for a poll
/// that has ended, else the poll's ballots in the order in which they were
/// cast, or the reverse.
pub open spec fn listed_voters(
    gov: Governance,
    poll_id: u64,
    start_after: Option<Seq<char>>,
    limit: Option<u32>,
    order_by: Option<OrderBy>,
) -> Seq<(Seq<char>, VoterInfo)> {
    let descending = runs_descending(order_by);
    let range = ballot_range(gov.ballots@, poll_id, start_after, descending);
    if !in_progress(gov.polls@, poll_id) {
        Seq::empty()
    } else {
        first_n(
            directed(gov.ballots@.subrange(range.0, range.1).filter(on_poll(poll_id)), descending),
            page_size(limit),
        ).map_values(line_of())
    }
}

/// The page size in force.
fn effective_limit(limit: Option<u32>) -> (r: usize)
    ensures
        r == page_size(limit),
{
    let asked = match limit {
        Some(l) => l,
        None => DEFAULT_LIMIT,
    };
    if asked < MAX_LIMIT {
        asked as usize
    } else {
        MAX_LIMIT as usize
    }
}

/// Whether the listing runs from the newest entry to the oldest.
fn is_descending(order_by: Option<OrderBy>) -> (r: bool)
    ensures
        r == runs_descending(order_by),
{
    match order_by {
        Some(OrderBy::Asc) => false,
        _ => true,
    }
}

impl Governance {
    /// The configuration.
    pub fn query_config(&self) -> (r: &Config)
        ensures
            *r == self.config,
    {
        &self.config
    }

    /// The pool's counters.
    pub fn query_state(&self) -> (r: &State)
        ensures
            *r == self.state,
    {
        &self.state
    }

    /// The poll with the id `poll_id`.
    pub fn query_poll(&self, poll_id: u64) -> (r: Result<&Poll, GovError>)
        ensures
            self.has_poll(poll_id) ==> r == Ok::<&Poll, GovError>(&self.poll_at(poll_id)),
            !self.has_poll(poll_id) ==> r == Err::<&Poll, GovError>(GovError::PollNotFound),
    {
        match self.poll_index(poll_id) {
            Some(i) => Ok(&self.polls[i]),
            None => Err(GovError::PollNotFound),
        }
    }

    /// Whether a listing shows the poll at index `i`.
    fn poll_selected(&self, i: usize, filter: Option<PollStatus>, start_after: Option<u64>, descending: bool) -> (r:
        bool)
        requires
            i < self.polls@.len(),
        ensures
            r == poll_selector(filter, start_after, descending)(self.polls@[i as int]),
    {
        let p = &self.polls[i];
        let status_ok = match filter {
            Some(s) => s == p.status,
            None => true,
        };
        let beyond = match start_after {
            None => true,
            Some(cursor) => if descending {
                p.id < cursor
            } else {
                p.id > cursor
            },
        };
        status_ok && beyond
    }

    /// The ids of the polls with the status `filter`, or of all polls, after
    /// the cursor `start_after`, at most a page of them.
    pub fn query_polls(
        &self,
        filter: Option<PollStatus>,
        start_after: Option<u64>,
        limit: Option<u32>,
        order_by: Option<OrderBy>,
    ) -> (ids: Vec<u64>)
        ensures
            ids@ == listed_polls(self.polls@, filter, start_after, limit, order_by),
    {
        let size = effective_limit(limit);
        let descending = is_descending(order_by);
        let ghost pred = poll_selector(filter, start_after, descending);
        let ghost all = self.polls@;
        let len = self.polls.len();
        let mut ids: Vec<u64> = Vec::new();
        proof {
            reveal(Seq::filter);
            assert(all.subrange(0, 0) =~= Seq::<Poll>::empty());
            assert(all.subrange(len as int, len as int) =~= Seq::<Poll>::empty());
            assert(Seq::<Poll>::empty().reverse() =~= Seq::<Poll>::empty());
            assert(Seq::<Poll>::empty().map_values(id_of()) =~= Seq::<u64>::empty());
        }
        if descending {
            let mut i: usize = len;
            while i > 0
                invariant
                    i <= len,
                    len == all.len(),
                    all == self.polls@,
                    pred == poll_selector(filter, start_after, descending),
                    ids@ == first_n(all.subrange(i as int, len as int).filter(pred).reverse(), size as nat).map_values(
                        id_of(),
                    ),
                decreases i,
            {
                let ghost seen = all.subrange(i as int, len as int).filter(pred).reverse();
                proof {
                    lemma_filter_grow_front(all, i as int, len as int, pred);
                    lemma_first_n_push(seen, all[i - 1], size as nat);
                }
                if ids.len() < size && self.poll_selected(i - 1, filter, start_after, descending) {
                    ids.push(self.polls[i - 1].id);
                    proof {
                        assert(first_n(seen, size as nat).push(all[i - 1]).map_values(id_of()) =~= first_n(
                            seen,
                            size as nat,
                        ).map_values(id_of()).push(all[i - 1].id));
                    }
                }
                i -= 1;
            }
            proof {
                assert(all.subrange(0, len as int) =~= all);
            }
        } else {
            let mut i: usize = 0;
            while i < len
                invariant
                    i <= len,
                    len == all.len(),
                    all == self.polls@,
                    pred == poll_selector(filter, start_after, descending),
                    ids@ == first_n(all.subrange(0, i as int).filter(pred), size as nat).map_values(id_of()),
                decreases len - i,
            {
                let ghost seen = all.subrange(0, i as int).filter(pred);
                proof {
                    lemma_filter_grow_back(all, 0, i as int, pred);
                    lemma_first_n_push(seen, all[i as int], size as nat);
                }
                if ids.len() < size && self.poll_selected(i, filter, start_after, descending) {
                    ids.push(self.polls[i].id);
                    proof {
                        assert(first_n(seen, size as nat).push(all[i as int]).map_values(id_of()) =~= first_n(
                            seen,
                            size as nat,
                        ).map_values(id_of()).push(all[i as int].id));
                    }
                }
                i += 1;
            }
            proof {
                assert(all.subrange(0, len as int) =~= all);
            }
        }
        ids
    }

    /// The ledger summary of `address`: the token value of the stake, the
    /// shares, and the votes on polls that are still in progress.
    pub fn query_staker(&self, address: &String, token_balance: u128) -> (r: StakerResponse)
        requires
            self.wf(),
        ensures
            r.share == share_of(self.bank@, address@),
            r.balance == quoted_balance(
                r.share as int,
                self.state.total_share as int,
                pool_balance(token_balance, self.state.total_deposit) as int,
            ),
            r.locked_balance@ == live_locks(locks_of(*self, address@), self.polls@),
    {
        let pool = underlying_balance(token_balance, self.state.total_deposit);
        match self.find_account(address) {
            Some(i) => {
                proof {
                    lemma_total_covers(self.bank@, share_weight(), i as int);
                }
                let share = self.bank[i].manager.share;
                let balance = balance_of_shares(share, self.state.total_share, pool).unwrap();
                let locked_balance = self.live_locks_of(&self.bank[i].manager.locked_balance);
                StakerResponse { balance, share, locked_balance }
            },
            None => {
                let balance = balance_of_shares(0, self.state.total_share, pool).unwrap();
                let none: Vec<(u64, VoterInfo)> = Vec::new();
                let locked_balance = self.live_locks_of(&none);
                proof {
                    assert(none@ =~= Seq::<(u64, VoterInfo)>::empty());
                }
                StakerResponse { balance, share: 0, locked_balance }
            },
        }
    }

    /// The voters of poll `poll_id` with their votes, after the voter
    /// `start_after`, at most a page of them.
    pub fn query_voters(
        &self,
        poll_id: u64,
        start_after: &Option<String>,
        limit: Option<u32>,
        order_by: Option<OrderBy>,
    ) -> (r: Result<Vec<VotersResponseItem>, GovError>)
        ensures
            r is Err <==> !self.has_poll(poll_id),
            r is Err ==> r == Err::<Vec<VotersResponseItem>, GovError>(GovError::PollNotFound),
            r matches Ok(voters) ==> voters@.map_values(shown()) == listed_voters(
                *self,
                poll_id,
                crate::text::text_of(*start_after),
                limit,
                order_by,
            ),
    {
        if self.poll_index(poll_id).is_none() {
            return Err(GovError::PollNotFound);
        }
        let mut voters: Vec<VotersResponseItem> = Vec::new();
        proof {
            assert(voters@.map_values(shown()) =~= Seq::<(Seq<char>, VoterInfo)>::empty());
        }
        if !self.poll_in_progress(poll_id) {
            return Ok(voters);
        }
        let size = effective_limit(limit);
        let descending = is_descending(order_by);
        let len = self.ballots.len();
        let (lo, hi) = match start_after {
            None => (0, len),
            Some(who) => match self.find_ballot(poll_id, who) {
                None => (0, 0),
                Some(c) => if descending {
                    (0, c)
                } else {
                    (c + 1, len)
                },
            },
        };
        let ghost pred = on_poll(poll_id);
        let ghost all = self.ballots@;
        proof {
            reveal(Seq::filter);
            assert(all.subrange(lo as int, lo as int) =~= Seq::<Ballot>::empty());
            assert(all.subrange(hi as int, hi as int) =~= Seq::<Ballot>::empty());
            assert(Seq::<Ballot>::empty().reverse() =~= Seq::<Ballot>::empty());
            assert(Seq::<Ballot>::empty().map_values(line_of()) =~= Seq::<(Seq<char>, VoterInfo)>::empty());
        }
        if descending {
            let mut i: usize = hi;
            while i > lo
                invariant
                    lo <= i <= hi <= len,
                    len == all.len(),
                    all == self.ballots@,
                    pred == on_poll(poll_id),
                    voters@.map_values(shown()) == first_n(
                        all.subrange(i as int, hi as int).filter(pred).reverse(),
                        size as nat,
                    ).map_values(line_of()),
                decreases i,
            {
                let ghost seen = all.subrange(i as int, hi as int).filter(pred).reverse();
                let ghost before = voters@;
                proof {
                    lemma_filter_grow_front(all, i as int, hi as int, pred);
                    lemma_first_n_push(seen, all[i - 1], size as nat);
                }
                if voters.len() < size && self.ballots[i - 1].poll_id == poll_id {
                    let b = &self.ballots[i - 1];
                    let item = VotersResponseItem {
                        voter: b.voter.clone(),
                        vote: b.info.vote,
                        balance: b.info.balance,
                    };
                    voters.push(item);
                    proof {
                        assert(voters@.map_values(shown()) =~= before.map_values(shown()).push(shown()(item)));
                        assert(first_n(seen, size as nat).push(all[i - 1]).map_values(line_of()) =~= first_n(
                            seen,
                            size as nat,
                        ).map_values(line_of()).push(line_of()(all[i - 1])));
                    }
                }
                i -= 1;
            }
        } else {
            let mut i: usize = lo;
            while i < hi
                invariant
                    lo <= i <= hi <= len,
                    len == all.len(),
                    all == self.ballots@,
                    pred == on_poll(poll_id),
                    voters@.map_values(shown()) == first_n(
                        all.subrange(lo as int, i as int).filter(pred),
                        size as nat,
                    ).map_values(line_of()),
                decreases hi - i,
            {
                let ghost seen = all.subrange(lo as int, i as int).filter(pred);
                let ghost before = voters@;
                proof {
                    lemma_filter_grow_back(all, lo as int, i as int, pred);
                    lemma_first_n_push(seen, all[i as int], size as nat);
                }
                if voters.len() < size && self.ballots[i].poll_id == poll_id {
                    let b = &self.ballots[i];
                    let item = VotersResponseItem {
                        voter: b.voter.clone(),
                        vote: b.info.vote,
                        balance: b.info.balance,
                    };
                    voters.push(item);
                    proof {
                        assert(voters@.map_values(shown()) =~= before.map_values(shown()).push(shown()(item)));
                        assert(first_n(seen, size as nat).push(all[i as int]).map_values(line_of()) =~= first_n(
                            seen,
                            size as nat,
                        ).map_values(line_of()).push(line_of()(all[i as int])));
                    }
                }
                i += 1;
            }
        }
        Ok(voters)
    }
}

} // verus!
