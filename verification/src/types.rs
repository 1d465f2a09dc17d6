//! The records that the ledger and the poll store keep.
use vstd::prelude::*;
use crate::math::Ratio;

verus! {

#[derive(Clone, Copy, Debug, PartialEq, Eq, Structural)]
pub enum PollStatus {
    InProgress,
    Passed,
    Rejected,
    Executed,
    Expired,
}

#[derive(Clone, Copy, Debug, PartialEq, Eq, Structural)]
pub enum VoteOption {
    Yes,
    No,
}

#[derive(Clone, Copy, Debug, PartialEq, Eq, Structural)]
pub enum OrderBy {
    Asc,
    Desc,
}

/// Which bound a text field of a poll broke.
#[derive(Clone, Copy, Debug, PartialEq, Eq, Structural)]
pub enum FieldError {
    TitleTooShort,
    TitleTooLong,
    DescriptionTooShort,
    DescriptionTooLong,
    LinkTooShort,
    LinkTooLong,
}

#[derive(Clone, Copy, Debug, PartialEq, Eq, Structural)]
pub enum GovError {
    /// The caller may not perform the operation.
    Unauthorized,
    /// Quorum outside `[0, 1]`.
    InvalidQuorum,
    /// Threshold outside `[0, 1]`.
    InvalidThreshold,
    /// A stake of zero tokens.
    InsufficientFunds,
    /// A withdrawal by someone without an account.
    NothingStaked,
    /// A withdrawal of more than the quoted balance.
    ExceedsBalance,
    /// A poll deposit below the configured one.
    InsufficientDeposit,
    /// Title, description or link out of bounds.
    InvalidField(FieldError),
    PollNotFound,
    PollNotInProgress,
    AlreadyVoted,
    /// A vote heavier than the voter's quoted balance.
    InsufficientStake,
    SnapshotWindowNotOpen,
    SnapshotAlreadyTaken,
    VotingNotExpired,
    PollNotPassed,
    TimelockNotExpired,
    ExpirationNotReached,
    /// A counter or an amount would leave its machine range.
    Overflow,
}

/// Why a poll was rejected.
#[derive(Clone, Copy, Debug, PartialEq, Eq, Structural)]
pub enum Rejection {
    QuorumNotReached,
    ThresholdNotReached,
}

/// A vote as recorded: the option and the weight committed to it.
#[derive(Clone, Copy, Debug, PartialEq, Eq, Structural)]
pub struct VoterInfo {
    pub vote: VoteOption,
    pub balance: u128,
}

/// One delegated operation of a poll: its place in the batch, its target and
/// the payload, which is relayed and never read.
#[derive(Clone, Debug, PartialEq, Eq)]
pub struct ExecuteData {
    pub order: u64,
    pub contract: String,
    pub msg: Vec<u8>,
}

#[derive(Clone, Debug, PartialEq, Eq)]
pub struct Poll {
    pub id: u64,
    pub creator: String,
    pub status: PollStatus,
    pub yes_votes: u128,
    pub no_votes: u128,
    pub end_height: u64,
    pub title: String,
    pub description: String,
    pub link: Option<String>,
    pub execute_data: Vec<ExecuteData>,
    pub deposit_amount: u128,
    /// The weight against which quorum was measured, set at resolution.
    pub total_balance_at_end_poll: Option<u128>,
    /// The pool's weight frozen by a snapshot.
    pub staked_amount: Option<u128>,
}

/// A ballot in the poll store, owned by the poll it names.
#[derive(Clone, Debug, PartialEq, Eq)]
pub struct Ballot {
    pub poll_id: u64,
    pub voter: String,
    pub info: VoterInfo,
}

/// A staker's claim on the pool, with the staker's own list of votes.
#[derive(Clone, Debug, PartialEq, Eq)]
pub struct TokenManager {
    pub share: u128,
    pub locked_balance: Vec<(u64, VoterInfo)>,
}

#[derive(Clone, Debug, PartialEq, Eq)]
pub struct Account {
    pub address: String,
    pub manager: TokenManager,
}

#[derive(Clone, Debug, PartialEq, Eq)]
pub struct Config {
    pub owner: String,
    /// The token whose deposit notifications are accepted; `None` until registered.
    pub anchor_token: Option<String>,
    pub quorum: Ratio,
    pub threshold: Ratio,
    pub voting_period: u64,
    pub timelock_period: u64,
    pub expiration_period: u64,
    pub proposal_deposit: u128,
    pub snapshot_period: u64,
}

impl Config {
    pub open spec fn wf(&self) -> bool {
        self.quorum.in_unit_range() && self.threshold.in_unit_range()
    }
}

/// The parameters that a governance is set up with.
#[derive(Clone, Copy, Debug, PartialEq, Eq, Structural)]
pub struct InitMsg {
    pub quorum: Ratio,
    pub threshold: Ratio,
    pub voting_period: u64,
    pub timelock_period: u64,
    pub expiration_period: u64,
    pub proposal_deposit: u128,
    pub snapshot_period: u64,
}

/// A change of configuration: each field that is present replaces the
/// configured value.
#[derive(Clone, Debug, PartialEq, Eq)]
pub struct ConfigUpdate {
    pub owner: Option<String>,
    pub quorum: Option<Ratio>,
    pub threshold: Option<Ratio>,
    pub voting_period: Option<u64>,
    pub timelock_period: Option<u64>,
    pub expiration_period: Option<u64>,
    pub proposal_deposit: Option<u128>,
    pub snapshot_period: Option<u64>,
}

/// An outbound token transfer.
#[derive(Clone, Debug, PartialEq, Eq)]
pub struct Transfer {
    pub recipient: String,
    pub amount: u128,
}

/// How a poll ended: the reason where it was rejected, and the refund of the
/// deposit where it passed.
#[derive(Clone, Debug, PartialEq, Eq)]
pub struct EndPollOutcome {
    pub rejection: Option<Rejection>,
    pub refund: Option<Transfer>,
}

/// What a deposit notification asks for.
#[derive(Clone, Debug, PartialEq, Eq)]
pub enum Cw20HookMsg {
    StakeVotingTokens,
    CreatePoll {
        title: String,
        description: String,
        link: Option<String>,
        execute_msgs: Option<Vec<ExecuteData>>,
    },
}

/// What a deposit notification did.
#[derive(Clone, Copy, Debug, PartialEq, Eq, Structural)]
pub enum Receipt {
    Staked { share: u128 },
    PollCreated { poll_id: u64, end_height: u64 },
}

#[derive(Clone, Debug, PartialEq, Eq)]
pub struct State {
    pub contract_addr: String,
    pub poll_count: u64,
    pub total_share: u128,
    pub total_deposit: u128,
}

} // verus!
