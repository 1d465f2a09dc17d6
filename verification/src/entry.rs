//! Configuration changes and the deposit notification, through which stakes
//! and new polls arrive.
use vstd::prelude::*;
use crate::gov::Governance;
use crate::staking::{stake_post, stake_result};
use crate::polls::{create_poll_error, create_poll_post};
use crate::text::text_of;
use crate::types::{Config, ConfigUpdate, Cw20HookMsg, GovError, Receipt};

verus! {

/// Why the configuration cannot be changed, if it cannot.
pub open spec fn update_config_error(pre: Governance, sender: Seq<char>, update: ConfigUpdate) -> Option<
    GovError,
> {
    if pre.config.owner@ != sender {
        Some(GovError::Unauthorized)
    } else if update.quorum is Some && !update.quorum.unwrap().in_unit_range() {
        Some(GovError::InvalidQuorum)
    } else if update.threshold is Some && !update.threshold.unwrap().in_unit_range() {
        Some(GovError::InvalidThreshold)
    } else {
        None
    }
}

/// The configuration with every field that the update holds replaced.
pub open spec fn updated_config(c: Config, u: ConfigUpdate) -> Config {
    Config {
        owner: if u.owner is Some {
            u.owner.unwrap()
        } else {
            c.owner
        },
        anchor_token: c.anchor_token,
        quorum: if u.quorum is Some {
            u.quorum.unwrap()
        } else {
            c.quorum
        },
        threshold: if u.threshold is Some {
            u.threshold.unwrap()
        } else {
            c.threshold
        },
        voting_period: if u.voting_period is Some {
            u.voting_period.unwrap()
        } else {
            c.voting_period
        },
        timelock_period: if u.timelock_period is Some {
            u.timelock_period.unwrap()
        } else {
            c.timelock_period
        },
        expiration_period: if u.expiration_period is Some {
            u.expiration_period.unwrap()
        } else {
            c.expiration_period
        },
        proposal_deposit: if u.proposal_deposit is Some {
            u.proposal_deposit.unwrap()
        } else {
            c.proposal_deposit
        },
        snapshot_period: if u.snapshot_period is Some {
            u.snapshot_period.unwrap()
        } else {
            c.snapshot_period
        },
    }
}

/// What the creation of a poll returns: the id and the end of voting, or the
/// error.
pub open spec fn create_poll_result(
    pre: Governance,
    notifier: Seq<char>,
    deposit: u128,
    title: Seq<char>,
    description: Seq<char>,
    link: Option<Seq<char>>,
    height: u64,
) -> Result<(u64, u64), GovError> {
    match create_poll_error(pre, notifier, deposit, title, description, link, height) {
        Some(e) => Err(e),
        None => Ok(
            ((pre.state.poll_count + 1) as u64, (height + pre.config.voting_period) as u64),
        ),
    }
}

/// The receipt for a stake.
pub open spec fn stake_receipt(r: Result<u128, GovError>) -> Result<Receipt, GovError> {
    match r {
        Ok(share) => Ok(Receipt::Staked { share }),
        Err(e) => Err(e),
    }
}

/// The receipt for a new poll.
pub open spec fn creation_receipt(r: Result<(u64, u64), GovError>) -> Result<Receipt, GovError> {
    match r {
        Ok(created) => Ok(Receipt::PollCreated { poll_id: created.0, end_height: created.1 }),
        Err(e) => Err(e),
    }
}

/// A notification from anyone but the registered token is refused; one from
/// the token stakes the amount for the sender, or creates the sender's poll
/// with the amount as its deposit.
pub open spec fn receive_post(
    pre: Governance,
    post: Governance,
    notifier: Seq<char>,
    sender: String,
    amount: u128,
    hook: Cw20HookMsg,
    height: u64,
    token_balance: u128,
    r: Result<Receipt, GovError>,
) -> bool {
    if !pre.is_token(notifier) {
        r == Err::<Receipt, GovError>(GovError::Unauthorized) && post == pre
    } else {
        match hook {
            Cw20HookMsg::StakeVotingTokens => {
                let staked = stake_result(pre, amount, token_balance);
                r == stake_receipt(staked) && stake_post(pre, post, sender@, amount, token_balance, staked)
            },
            Cw20HookMsg::CreatePoll { title, description, link, execute_msgs } => {
                let created = create_poll_result(
                    pre,
                    notifier,
                    amount,
                    title@,
                    description@,
                    text_of(link),
                    height,
                );
                r == creation_receipt(created) && create_poll_post(
                    pre,
                    post,
                    notifier,
                    sender,
                    amount,
                    title,
                    description,
                    link,
                    execute_msgs,
                    height,
                    created,
                )
            },
        }
    }
}

impl Governance {
    /// Changes the configuration on behalf of `sender`, who must be the owner.
    pub fn update_config(&mut self, sender: &String, update: ConfigUpdate) -> (r: Result<(), GovError>)
        requires
            old(self).wf(),
        ensures
            final(self).wf(),
            r is Err <==> update_config_error(*old(self), sender@, update) is Some,
            r matches Err(e) ==> update_config_error(*old(self), sender@, update) == Some(e) && *final(self)
                == *old(self),
            r is Ok ==> *final(self) == (Governance {
                config: updated_config(old(self).config, update),
                ..*old(self)
            }),
    {
        if self.config.owner != *sender {
            return Err(GovError::Unauthorized);
        }
        match update.quorum {
            Some(q) => {
                if !q.is_in_unit_range() {
                    return Err(GovError::InvalidQuorum);
                }
            },
            None => {},
        }
        match update.threshold {
            Some(t) => {
                if !t.is_in_unit_range() {
                    return Err(GovError::InvalidThreshold);
                }
            },
            None => {},
        }
        match update.owner {
            Some(owner) => {
                self.config.owner = owner;
            },
            None => {},
        }
        match update.quorum {
            Some(q) => {
                self.config.quorum = q;
            },
            None => {},
        }
        match update.threshold {
            Some(t) => {
                self.config.threshold = t;
            },
            None => {},
        }
        match update.voting_period {
            Some(v) => {
                self.config.voting_period = v;
            },
            None => {},
        }
        match update.timelock_period {
            Some(v) => {
                self.config.timelock_period = v;
            },
            None => {},
        }
        match update.expiration_period {
            Some(v) => {
                self.config.expiration_period = v;
            },
            None => {},
        }
        match update.proposal_deposit {
            Some(v) => {
                self.config.proposal_deposit = v;
            },
            None => {},
        }
        match update.snapshot_period {
            Some(v) => {
                self.config.snapshot_period = v;
            },
            None => {},
        }
        Ok(())
    }

    /// Handles a deposit notification: `notifier` reports that `sender` sent
    /// `amount` tokens with the request `hook`.
    pub fn receive(
        &mut self,
        notifier: &String,
        sender: String,
        amount: u128,
        hook: Cw20HookMsg,
        height: u64,
        token_balance: u128,
    ) -> (r: Result<Receipt, GovError>)
        requires
            old(self).wf(),
        ensures
            final(self).wf(),
            receive_post(*old(self), *final(self), notifier@, sender, amount, hook, height, token_balance, r),
    {
        if !self.from_token(notifier) {
            return Err(GovError::Unauthorized);
        }
        match hook {
            Cw20HookMsg::StakeVotingTokens => {
                match self.stake(&sender, amount, token_balance) {
                    Ok(share) => Ok(Receipt::Staked { share }),
                    Err(e) => Err(e),
                }
            },
            Cw20HookMsg::CreatePoll { title, description, link, execute_msgs } => {
                match self.create_poll(
                    notifier,
                    sender,
                    amount,
                    title,
                    description,
                    link,
                    execute_msgs,
                    height,
                ) {
                    Ok(created) => Ok(Receipt::PollCreated { poll_id: created.0, end_height: created.1 }),
                    Err(e) => Err(e),
                }
            },
        }
    }
}

} // verus!
