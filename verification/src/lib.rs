//! Token-weighted governance: a share-based staking ledger, a store of polls
//! with their ballots, and the state machine that carries a poll from creation
//! to resolution, execution or expiry.
//!
//! Every operation takes the block height and the token balance that the token
//! contract reports for the governance contract as plain arguments, changes the
//! [`gov::Governance`] value in place or fails and leaves it as it is, and
//! hands back what has to be sent out.
//!
//! - [`types`]: the records and the errors.
//! - [`math`], [`ledger`], [`tally`], [`text`], [`schedule`]: the rules on
//!   plain values: ratios, share arithmetic, the verdict on a tally, the
//!   bounds on texts, the order of a poll's operations.
//! - [`gov`]: the governance value and its invariant.
//! - [`staking`], [`polls`], [`entry`]: the operations.
//! - [`query`]: the read-only views.
//! - [`laws`]: what holds across operations.
pub mod math;
pub mod seqs;
pub mod types;
pub mod ledger;
pub mod tally;
pub mod text;
pub mod schedule;
pub mod gov;
pub mod staking;
pub mod polls;
pub mod entry;
pub mod query;
pub mod laws;
