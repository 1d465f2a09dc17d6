use anchor_gov::gov::Governance;
use anchor_gov::ledger::underlying_balance;
use anchor_gov::math::{Ratio, DECIMAL_FRACTIONAL};
use anchor_gov::query::VotersResponseItem;
use anchor_gov::schedule::{copy_operations, is_ascending, sort_by_order};
use anchor_gov::tally::resolve;
use anchor_gov::text::validate_fields;
use anchor_gov::types::{
    ConfigUpdate, Cw20HookMsg, EndPollOutcome, ExecuteData, FieldError, GovError, InitMsg, OrderBy,
    PollStatus, Receipt, Rejection, Transfer, VoteOption,
};

const TOKEN: &str = "token";
const OWNER: &str = "owner";
const DEPOSIT: u128 = 100;

fn name(s: &str) -> String {
    s.to_string()
}

fn setup() -> Governance {
    let msg = InitMsg {
        quorum: Ratio::percent(30),
        threshold: Ratio::percent(50),
        voting_period: 1000,
        timelock_period: 100,
        expiration_period: 500,
        proposal_deposit: DEPOSIT,
        snapshot_period: 10,
    };
    let mut gov = Governance::init(name(OWNER), name("gov"), msg).unwrap();
    gov.register_contracts(name(TOKEN)).unwrap();
    gov
}

fn open_poll(gov: &mut Governance, height: u64) -> u64 {
    let r = gov
        .create_poll(&name(TOKEN), name("creator"), DEPOSIT, name("title"), name("description"), None, None, height)
        .unwrap();
    r.0
}

fn op(order: u64, tag: u8) -> ExecuteData {
    ExecuteData { order, contract: name("target"), msg: vec![tag] }
}

fn no_update() -> ConfigUpdate {
    ConfigUpdate {
        owner: None,
        quorum: None,
        threshold: None,
        voting_period: None,
        timelock_period: None,
        expiration_period: None,
        proposal_deposit: None,
        snapshot_period: None,
    }
}

fn share_total(gov: &Governance) -> u128 {
    gov.bank.iter().map(|a| a.manager.share).sum()
}

#[test]
fn ratio_of_percent_and_of_fraction() {
    assert_eq!(Ratio::percent(30).atomics, 300_000_000_000_000_000);
    assert_eq!(Ratio::percent(100), Ratio::one());
    assert_eq!(Ratio::percent(0), Ratio::zero());
    assert_eq!(Ratio::from_ratio(1, 3), Some(Ratio { atomics: 333_333_333_333_333_333 }));
    assert_eq!(Ratio::from_ratio(7, 2), Some(Ratio { atomics: 3_500_000_000_000_000_000 }));
    assert_eq!(Ratio::from_ratio(1, 0), None);
    assert_eq!(Ratio::from_ratio(u128::MAX, 1), None);
    assert!(Ratio::percent(100).is_in_unit_range());
    assert!(!Ratio { atomics: DECIMAL_FRACTIONAL + 1 }.is_in_unit_range());
}

#[test]
fn verdict_needs_quorum_then_more_than_threshold() {
    let q = Ratio::percent(30);
    let t = Ratio::percent(50);
    assert_eq!(resolve(1000, 0, 1000, q, t), None);
    assert_eq!(resolve(10, 0, 1000, q, t), Some(Rejection::QuorumNotReached));
    // quorum met exactly
    assert_eq!(resolve(300, 0, 1000, q, t), None);
    assert_eq!(resolve(299, 0, 1000, q, t), Some(Rejection::QuorumNotReached));
    // the threshold has to be exceeded
    assert_eq!(resolve(500, 500, 1000, q, t), Some(Rejection::ThresholdNotReached));
    assert_eq!(resolve(501, 499, 1000, q, t), None);
    assert_eq!(resolve(0, 1000, 1000, q, t), Some(Rejection::ThresholdNotReached));
    // nothing cast, nothing staked
    assert_eq!(resolve(0, 0, 1000, q, t), Some(Rejection::QuorumNotReached));
    assert_eq!(resolve(0, 0, 1000, Ratio::zero(), Ratio::zero()), Some(Rejection::QuorumNotReached));
    assert_eq!(resolve(10, 0, 0, q, t), Some(Rejection::QuorumNotReached));
    // more votes than the denominator still weighs
    assert_eq!(resolve(u128::MAX, 0, 1, q, t), None);
}

#[test]
fn text_bounds_count_characters() {
    let ok = |n: usize| "x".repeat(n);
    assert_eq!(validate_fields(&ok(4), &ok(4), &None), None);
    assert_eq!(validate_fields(&ok(64), &ok(1024), &Some(ok(128))), None);
    assert_eq!(validate_fields(&ok(4), &ok(4), &Some(ok(12))), None);
    assert_eq!(validate_fields(&ok(3), &ok(4), &None), Some(FieldError::TitleTooShort));
    assert_eq!(validate_fields(&ok(65), &ok(4), &None), Some(FieldError::TitleTooLong));
    assert_eq!(validate_fields(&ok(4), &ok(3), &None), Some(FieldError::DescriptionTooShort));
    assert_eq!(validate_fields(&ok(4), &ok(1025), &None), Some(FieldError::DescriptionTooLong));
    assert_eq!(validate_fields(&ok(4), &ok(4), &Some(ok(11))), Some(FieldError::LinkTooShort));
    assert_eq!(validate_fields(&ok(4), &ok(4), &Some(ok(129))), Some(FieldError::LinkTooLong));
    // the title is looked at first
    assert_eq!(validate_fields(&ok(1), &ok(1), &Some(ok(1))), Some(FieldError::TitleTooShort));
    // four characters in eight bytes
    assert_eq!(validate_fields(&"éééé".to_string(), &ok(4), &None), None);
    assert_eq!(validate_fields(&"ééé".to_string(), &ok(4), &None), Some(FieldError::TitleTooShort));
}

#[test]
fn operations_are_sorted_stably() {
    let given = vec![op(3, 0), op(1, 1), op(2, 2), op(1, 3), op(3, 4), op(1, 5)];
    let sorted = sort_by_order(given);
    assert_eq!(sorted, vec![op(1, 1), op(1, 3), op(1, 5), op(2, 2), op(3, 0), op(3, 4)]);
    assert!(is_ascending(&sorted));
    assert!(!is_ascending(&vec![op(2, 0), op(1, 0)]));
    assert!(is_ascending(&vec![]));
    assert_eq!(copy_operations(&sorted), sorted);
    assert_eq!(sort_by_order(vec![]), vec![]);
}

#[test]
fn single_voter_passes_poll_and_refunds_deposit() {
    let mut gov = setup();
    let id = open_poll(&mut gov, 0);
    // 1000 staked beside the deposit of 100
    assert_eq!(gov.stake(&name("v"), 1000, 1100), Ok(1000));
    assert_eq!(gov.cast_vote(&name("v"), id, VoteOption::Yes, 1000, 5, 1100), Ok(()));
    let outcome = gov.end_poll(id, 1001, 1100).unwrap();
    assert_eq!(
        outcome,
        EndPollOutcome {
            rejection: None,
            refund: Some(Transfer { recipient: name("creator"), amount: DEPOSIT }),
        }
    );
    let poll = gov.query_poll(id).unwrap();
    assert_eq!(poll.status, PollStatus::Passed);
    assert_eq!(poll.total_balance_at_end_poll, Some(1000));
    assert_eq!(gov.query_state().total_deposit, 0);
    assert!(gov.is_well_formed());
}

#[test]
fn low_turnout_rejects_poll_without_refund() {
    let mut gov = setup();
    let id = open_poll(&mut gov, 0);
    assert_eq!(gov.stake(&name("v"), 1000, 1100), Ok(1000));
    assert_eq!(gov.cast_vote(&name("v"), id, VoteOption::Yes, 10, 5, 1100), Ok(()));
    let outcome = gov.end_poll(id, 1001, 1100).unwrap();
    assert_eq!(outcome, EndPollOutcome { rejection: Some(Rejection::QuorumNotReached), refund: None });
    assert_eq!(gov.query_poll(id).unwrap().status, PollStatus::Rejected);
    assert_eq!(gov.query_state().total_deposit, DEPOSIT);
    assert!(gov.is_well_formed());
}

#[test]
fn locked_votes_do_not_hold_back_withdrawal() {
    let mut gov = setup();
    let id = open_poll(&mut gov, 0);
    assert_eq!(gov.stake(&name("v"), 11, 111), Ok(11));
    assert_eq!(gov.cast_vote(&name("v"), id, VoteOption::Yes, 10, 5, 111), Ok(()));
    assert_eq!(gov.withdraw(&name("v"), Some(12), 111), Err(GovError::ExceedsBalance));
    assert_eq!(gov.withdraw(&name("v"), Some(11), 111), Ok(Transfer { recipient: name("v"), amount: 11 }));
    assert_eq!(gov.query_state().total_share, 0);
    // the tally stands as it was recorded
    assert_eq!(gov.query_poll(id).unwrap().yes_votes, 10);
    let i = gov.find_account(&name("v")).unwrap();
    assert_eq!(gov.bank[i].manager.locked_balance.len(), 1);
}

#[test]
fn poll_is_ended_once() {
    let mut gov = setup();
    let id = open_poll(&mut gov, 0);
    gov.stake(&name("v"), 1000, 1100).unwrap();
    gov.cast_vote(&name("v"), id, VoteOption::Yes, 1000, 1000, 1100).unwrap();
    assert!(gov.end_poll(id, 1001, 1100).is_ok());
    assert_eq!(gov.end_poll(id, 1001, 1100), Err(GovError::PollNotInProgress));
    assert_eq!(gov.end_poll(id, 5000, 0), Err(GovError::PollNotInProgress));
    assert_eq!(gov.end_poll(id, 1000, 1100), Err(GovError::VotingNotExpired));
    assert_eq!(gov.end_poll(id + 1, 5000, 0), Err(GovError::PollNotFound));
}

#[test]
fn votes_are_taken_until_the_end_height() {
    let mut gov = setup();
    let id = open_poll(&mut gov, 0);
    gov.stake(&name("a"), 10, 110).unwrap();
    gov.stake(&name("b"), 10, 120).unwrap();
    assert_eq!(gov.cast_vote(&name("a"), id, VoteOption::No, 10, 1000, 120), Ok(()));
    assert_eq!(gov.cast_vote(&name("b"), id, VoteOption::No, 10, 1001, 120), Err(GovError::PollNotInProgress));
    assert_eq!(gov.snapshot_poll(id, 1001, 120), Err(GovError::PollNotInProgress));
    gov.end_poll(id, 1001, 120).unwrap();
    assert_eq!(gov.cast_vote(&name("b"), id, VoteOption::No, 10, 1000, 120), Err(GovError::PollNotInProgress));
    assert_eq!(gov.snapshot_poll(id, 1000, 120), Err(GovError::PollNotInProgress));
    assert_eq!(gov.snapshot_poll(9, 1000, 120), Err(GovError::PollNotFound));
}

#[test]
fn second_vote_is_refused_whatever_it_says() {
    let mut gov = setup();
    let id = open_poll(&mut gov, 0);
    gov.stake(&name("a"), 10, 110).unwrap();
    assert_eq!(gov.cast_vote(&name("a"), id, VoteOption::Yes, 3, 1, 110), Ok(()));
    assert_eq!(gov.cast_vote(&name("a"), id, VoteOption::No, 0, 2, 110), Err(GovError::AlreadyVoted));
    assert_eq!(gov.cast_vote(&name("a"), id, VoteOption::Yes, 1000, 2, 0), Err(GovError::AlreadyVoted));
    // another poll is another ballot
    let second = open_poll(&mut gov, 0);
    assert_eq!(gov.cast_vote(&name("a"), second, VoteOption::No, 10, 2, 210), Ok(()));
    assert!(gov.is_well_formed());
}

#[test]
fn vote_without_stake_weighs_nothing() {
    let mut gov = setup();
    let id = open_poll(&mut gov, 0);
    assert_eq!(gov.cast_vote(&name("x"), id, VoteOption::Yes, 1, 1, 100), Err(GovError::InsufficientStake));
    assert_eq!(gov.cast_vote(&name("x"), id, VoteOption::Yes, 0, 1, 100), Ok(()));
    assert_eq!(gov.query_staker(&name("x"), 100).share, 0);
    assert_eq!(gov.withdraw(&name("x"), None, 100), Ok(Transfer { recipient: name("x"), amount: 0 }));
    assert!(gov.is_well_formed());
}

#[test]
fn total_share_is_the_sum_of_shares() {
    let mut gov = setup();
    let mut balance = 0u128;
    for (who, amount) in [("a", 100u128), ("b", 250), ("a", 7), ("c", 1)] {
        balance += amount;
        gov.stake(&name(who), amount, balance).unwrap();
        assert_eq!(share_total(&gov), gov.query_state().total_share);
    }
    // rewards arrive
    balance += 500;
    gov.stake(&name("b"), 40, balance + 40).unwrap();
    balance += 40;
    assert_eq!(share_total(&gov), gov.query_state().total_share);
    for (who, amount) in [("a", Some(50u128)), ("c", None), ("b", Some(1)), ("a", None)] {
        let paid = gov.withdraw(&name(who), amount, balance).unwrap();
        assert_eq!(paid.recipient, who);
        balance -= paid.amount;
        assert_eq!(share_total(&gov), gov.query_state().total_share);
        assert!(gov.is_well_formed());
    }
}

#[test]
fn stake_never_lowers_the_exchange_rate() {
    let mut gov = setup();
    let mut balance = 0u128;
    let mut last = (1u128, 1u128);
    for amount in [3u128, 10, 1, 999, 7] {
        // a reward of five tokens before every stake
        balance += 5 + amount;
        gov.stake(&name("s"), amount, balance).unwrap();
        let now = (underlying_balance(balance, 0), gov.query_state().total_share);
        assert!(last.0 * now.1 <= now.0 * last.1);
        last = now;
    }
}

#[test]
fn minted_shares_follow_the_pool() {
    let mut gov = setup();
    assert_eq!(gov.stake(&name("a"), 100, 100), Ok(100));
    // the pool doubled before the second stake
    assert_eq!(gov.stake(&name("b"), 100, 300), Ok(50));
    assert_eq!(gov.query_staker(&name("a"), 300).balance, 200);
    assert_eq!(gov.query_staker(&name("b"), 300).balance, 100);
    // a stake too small to buy a share buys none
    assert_eq!(gov.stake(&name("c"), 1, 301), Ok(0));
    assert_eq!(gov.stake(&name("c"), 0, 301), Err(GovError::InsufficientFunds));
    assert_eq!(gov.query_state().total_share, 150);
}

#[test]
fn amounts_out_of_range_are_refused() {
    let mut gov = setup();
    assert_eq!(
        gov.create_poll(&name(TOKEN), name("c"), DEPOSIT, name("title"), name("description"), None, None, u64::MAX),
        Err(GovError::Overflow)
    );
    assert_eq!(gov.query_state().poll_count, 0);
    open_poll(&mut gov, 0);
    assert_eq!(
        gov.create_poll(&name(TOKEN), name("c"), u128::MAX, name("title"), name("description"), None, None, 0),
        Err(GovError::Overflow)
    );
    gov.stake(&name("a"), 2, 102).unwrap();
    // one token left in the pool, two shares: the next stake doubles per token
    assert_eq!(gov.stake(&name("a"), u128::MAX, 101), Err(GovError::Overflow));
    assert_eq!(gov.query_state().total_share, 2);
    assert!(gov.is_well_formed());
}

#[test]
fn create_poll_checks_channel_then_deposit_then_text() {
    let mut gov = setup();
    assert_eq!(
        gov.create_poll(&name("other"), name("c"), 0, name("t"), name("d"), None, None, 0),
        Err(GovError::Unauthorized)
    );
    assert_eq!(
        gov.create_poll(&name(TOKEN), name("c"), DEPOSIT - 1, name("t"), name("d"), None, None, 0),
        Err(GovError::InsufficientDeposit)
    );
    assert_eq!(
        gov.create_poll(&name(TOKEN), name("c"), DEPOSIT, name("t"), name("d"), None, None, 0),
        Err(GovError::InvalidField(FieldError::TitleTooShort))
    );
    let mut fresh = Governance::init(name(OWNER), name("gov"), InitMsg {
        quorum: Ratio::zero(),
        threshold: Ratio::one(),
        voting_period: 1,
        timelock_period: 1,
        expiration_period: 1,
        proposal_deposit: 0,
        snapshot_period: 1,
    })
    .unwrap();
    // no token is registered yet
    assert_eq!(
        fresh.receive(&name(TOKEN), name("c"), 5, Cw20HookMsg::StakeVotingTokens, 0, 5),
        Err(GovError::Unauthorized)
    );
    assert_eq!(gov.receive(&name(TOKEN), name("c"), 5, Cw20HookMsg::StakeVotingTokens, 0, 5), Ok(Receipt::Staked { share: 5 }));
}

#[test]
fn config_update_is_checked_before_it_is_applied() {
    let mut gov = setup();
    let before = gov.query_config().clone();
    let bad_quorum = ConfigUpdate { quorum: Some(Ratio::percent(101)), voting_period: Some(1), ..no_update() };
    assert_eq!(gov.update_config(&name(OWNER), bad_quorum), Err(GovError::InvalidQuorum));
    let bad_threshold = ConfigUpdate { threshold: Some(Ratio::percent(101)), owner: Some(name("z")), ..no_update() };
    assert_eq!(gov.update_config(&name(OWNER), bad_threshold), Err(GovError::InvalidThreshold));
    assert_eq!(gov.query_config(), &before);
    let edge = ConfigUpdate { quorum: Some(Ratio::one()), threshold: Some(Ratio::zero()), ..no_update() };
    assert_eq!(gov.update_config(&name(OWNER), edge), Ok(()));
    assert_eq!(gov.query_config().quorum, Ratio::one());
    assert_eq!(gov.query_config().snapshot_period, before.snapshot_period);
}

#[test]
fn passed_poll_is_executed_or_expires() {
    let mut gov = setup();
    let first = open_poll(&mut gov, 0);
    let second = open_poll(&mut gov, 0);
    gov.stake(&name("v"), 1000, 1200).unwrap();
    gov.cast_vote(&name("v"), first, VoteOption::Yes, 1000, 1, 1200).unwrap();
    gov.cast_vote(&name("v"), second, VoteOption::Yes, 1000, 1, 1200).unwrap();
    gov.end_poll(first, 1001, 1200).unwrap();
    gov.end_poll(second, 1001, 1100).unwrap();
    assert_eq!(gov.execute_poll(first, 1099), Err(GovError::TimelockNotExpired));
    assert_eq!(gov.execute_poll(first, 1100), Ok(vec![]));
    assert_eq!(gov.expire_poll(first, 9999), Err(GovError::PollNotPassed));
    assert_eq!(gov.expire_poll(second, 1499), Err(GovError::ExpirationNotReached));
    assert_eq!(gov.expire_poll(second, 1500), Ok(()));
    assert_eq!(gov.execute_poll(second, 9999), Err(GovError::PollNotPassed));
    assert_eq!(gov.execute_poll(3, 9999), Err(GovError::PollNotFound));
    assert_eq!(gov.expire_poll(0, 9999), Err(GovError::PollNotFound));
    assert!(gov.is_well_formed());
}

#[test]
fn snapshot_window_opens_a_period_before_the_end() {
    let mut gov = setup();
    let id = open_poll(&mut gov, 0);
    assert_eq!(gov.snapshot_poll(id, 989, 600), Err(GovError::SnapshotWindowNotOpen));
    assert_eq!(gov.snapshot_poll(id, 990, 600), Ok(500));
    assert_eq!(gov.snapshot_poll(id, 1000, 900), Err(GovError::SnapshotAlreadyTaken));
    // the frozen weight decides, not the balance at the end
    gov.stake(&name("v"), 200, 800).unwrap();
    gov.cast_vote(&name("v"), id, VoteOption::Yes, 200, 1000, 800).unwrap();
    let outcome = gov.end_poll(id, 1001, 100_000).unwrap();
    assert_eq!(outcome.rejection, None);
    assert_eq!(gov.query_poll(id).unwrap().total_balance_at_end_poll, Some(500));
}

#[test]
fn poll_listing_is_paged() {
    let mut gov = setup();
    for _ in 0..35 {
        open_poll(&mut gov, 0);
    }
    assert_eq!(gov.query_polls(None, None, None, None), (26..=35).rev().collect::<Vec<u64>>());
    assert_eq!(gov.query_polls(None, None, Some(100), Some(OrderBy::Asc)), (1..=30).collect::<Vec<u64>>());
    assert_eq!(gov.query_polls(None, Some(30), Some(100), Some(OrderBy::Asc)), vec![31, 32, 33, 34, 35]);
    assert_eq!(gov.query_polls(None, Some(4), Some(2), Some(OrderBy::Desc)), vec![3, 2]);
    assert_eq!(gov.query_polls(None, Some(1), None, Some(OrderBy::Desc)), Vec::<u64>::new());
    assert_eq!(gov.query_polls(None, None, Some(0), None), Vec::<u64>::new());
    gov.end_poll(7, 1001, 0).unwrap();
    gov.end_poll(9, 1001, 0).unwrap();
    assert_eq!(gov.query_polls(Some(PollStatus::Rejected), None, None, None), vec![9, 7]);
    assert_eq!(gov.query_polls(Some(PollStatus::Rejected), Some(7), None, Some(OrderBy::Asc)), vec![9]);
}

#[test]
fn voter_listing_follows_the_order_of_votes() {
    let mut gov = setup();
    let first = open_poll(&mut gov, 0);
    let second = open_poll(&mut gov, 0);
    let mut balance = 200u128;
    for who in ["a", "b", "c", "d"] {
        balance += 10;
        gov.stake(&name(who), 10, balance).unwrap();
    }
    gov.cast_vote(&name("b"), first, VoteOption::Yes, 1, 1, balance).unwrap();
    gov.cast_vote(&name("a"), second, VoteOption::Yes, 2, 1, balance).unwrap();
    gov.cast_vote(&name("d"), first, VoteOption::No, 3, 1, balance).unwrap();
    gov.cast_vote(&name("a"), first, VoteOption::Yes, 4, 1, balance).unwrap();
    let line = |who: &str, vote: VoteOption, balance: u128| VotersResponseItem { voter: name(who), vote, balance };
    assert_eq!(
        gov.query_voters(first, &None, None, Some(OrderBy::Asc)),
        Ok(vec![line("b", VoteOption::Yes, 1), line("d", VoteOption::No, 3), line("a", VoteOption::Yes, 4)])
    );
    assert_eq!(
        gov.query_voters(first, &None, Some(2), None),
        Ok(vec![line("a", VoteOption::Yes, 4), line("d", VoteOption::No, 3)])
    );
    assert_eq!(
        gov.query_voters(first, &Some(name("b")), None, Some(OrderBy::Asc)),
        Ok(vec![line("d", VoteOption::No, 3), line("a", VoteOption::Yes, 4)])
    );
    assert_eq!(gov.query_voters(first, &Some(name("d")), None, Some(OrderBy::Desc)), Ok(vec![line("b", VoteOption::Yes, 1)]));
    assert_eq!(gov.query_voters(first, &Some(name("c")), None, Some(OrderBy::Asc)), Ok(vec![]));
    assert_eq!(gov.query_voters(second, &None, None, None), Ok(vec![line("a", VoteOption::Yes, 2)]));
    assert_eq!(gov.query_voters(3, &None, None, None), Err(GovError::PollNotFound));
    gov.end_poll(first, 1001, balance).unwrap();
    assert_eq!(gov.query_voters(first, &None, None, None), Ok(vec![]));
}

#[test]
fn inconsistent_values_are_found_out() {
    let mut gov = setup();
    open_poll(&mut gov, 0);
    gov.stake(&name("a"), 10, 110).unwrap();
    gov.cast_vote(&name("a"), 1, VoteOption::Yes, 1, 1, 110).unwrap();
    assert!(gov.is_well_formed());

    let mut wrong = gov.clone();
    wrong.state.total_share = 11;
    assert!(!wrong.is_well_formed());

    let mut wrong = gov.clone();
    wrong.state.total_deposit = 0;
    assert!(!wrong.is_well_formed());

    let mut wrong = gov.clone();
    wrong.state.poll_count = 2;
    assert!(!wrong.is_well_formed());

    let mut wrong = gov.clone();
    wrong.polls[0].id = 2;
    assert!(!wrong.is_well_formed());

    let mut wrong = gov.clone();
    wrong.polls[0].execute_data = vec![op(2, 0), op(1, 0)];
    assert!(!wrong.is_well_formed());

    let mut wrong = gov.clone();
    wrong.polls[0].no_votes = u128::MAX;
    assert!(!wrong.is_well_formed());

    let mut wrong = gov.clone();
    wrong.config.quorum = Ratio::percent(101);
    assert!(!wrong.is_well_formed());

    let mut wrong = gov.clone();
    let mut twin = wrong.bank[0].clone();
    twin.manager.share = 0;
    wrong.bank.push(twin);
    assert!(!wrong.accounts_are_distinct());
    assert!(!wrong.is_well_formed());

    let mut wrong = gov.clone();
    let twin = wrong.ballots[0].clone();
    wrong.ballots.push(twin);
    assert!(!wrong.ballots_are_distinct());
    assert!(!wrong.is_well_formed());

    // a vote on record that the poll never tallied
    let mut wrong = gov.clone();
    wrong.polls[0].yes_votes = 0;
    assert!(!wrong.locks_are_bounded());
    assert!(!wrong.is_well_formed());

    // a ballot that its voter does not know of
    let mut wrong = gov.clone();
    wrong.bank[0].manager.locked_balance.clear();
    assert!(wrong.locks_are_backed());
    assert!(!wrong.ballots_are_on_record());
    assert!(!wrong.is_well_formed());

    // a vote on record without its ballot
    let mut wrong = gov.clone();
    wrong.ballots.clear();
    assert!(wrong.ballots_are_on_record());
    assert!(!wrong.locks_are_backed());
    assert!(!wrong.is_well_formed());

    // a vote on record that differs from its ballot
    let mut wrong = gov.clone();
    wrong.ballots[0].info.vote = VoteOption::No;
    assert!(!wrong.is_well_formed());
}
