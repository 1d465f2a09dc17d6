//! Share arithmetic of the staking pool.
//!
//! The pool's underlying balance is what the token contract reports for the
//! governance contract less the deposits held in escrow. A share is worth
//! `underlying / total_share` tokens, and one token where no share exists.
use vstd::prelude::*;
use crate::math::{mul_div, mul_ratio, lemma_mul_div_bounded};

verus! {

/// Reported balance less escrow; zero where the report is below the escrow.
pub open spec fn pool_balance(token_balance: u128, total_deposit: u128) -> u128 {
    if token_balance >= total_deposit {
        (token_balance - total_deposit) as u128
    } else {
        0
    }
}

/// The pool's balance before an incoming `amount` that the report already holds.
pub open spec fn pool_before_deposit(token_balance: u128, total_deposit: u128, amount: u128) -> u128 {
    pool_balance(pool_balance(token_balance, total_deposit), amount)
}

/// Shares minted for `amount` tokens entering a pool of `pool_before` tokens
/// and `total_share` shares.
pub open spec fn minted_share(amount: int, total_share: int, pool_before: int) -> int {
    if total_share == 0 || pool_before == 0 {
        amount
    } else {
        mul_div(amount, total_share, pool_before)
    }
}

/// Token value of `share` shares, floored.
pub open spec fn quoted_balance(share: int, total_share: int, pool: int) -> int {
    if total_share == 0 {
        share
    } else {
        mul_div(share, pool, total_share)
    }
}

/// Shares burned for `amount` tokens leaving the pool, floored.
pub open spec fn burned_share(amount: int, total_share: int, pool: int) -> int {
    if pool == 0 {
        0
    } else {
        mul_div(amount, total_share, pool)
    }
}

pub fn underlying_balance(token_balance: u128, total_deposit: u128) -> (r: u128)
    ensures
        r == pool_balance(token_balance, total_deposit),
{
    if token_balance >= total_deposit {
        token_balance - total_deposit
    } else {
        0
    }
}

/// `None` where the minted share count does not fit in 128 bits.
pub fn shares_for_deposit(amount: u128, total_share: u128, pool_before: u128) -> (r: Option<u128>)
    ensures
        r == (if minted_share(amount as int, total_share as int, pool_before as int) <= u128::MAX {
            Some(minted_share(amount as int, total_share as int, pool_before as int) as u128)
        } else {
            None
        }),
{
    if total_share == 0 || pool_before == 0 {
        Some(amount)
    } else {
        mul_ratio(amount, total_share, pool_before)
    }
}

/// `None` where the value does not fit in 128 bits, which cannot happen while
/// `share <= total_share`.
pub fn balance_of_shares(share: u128, total_share: u128, pool: u128) -> (r: Option<u128>)
    ensures
        r == (if quoted_balance(share as int, total_share as int, pool as int) <= u128::MAX {
            Some(quoted_balance(share as int, total_share as int, pool as int) as u128)
        } else {
            None
        }),
        share <= total_share ==> r is Some && r.unwrap() <= (if total_share == 0 { share } else { pool }),
{
    if total_share == 0 {
        Some(share)
    } else {
        proof {
            if share <= total_share {
                lemma_mul_div_bounded(pool as int, share as int, total_share as int);
                assert(pool * share == share * pool) by (nonlinear_arith);
            }
        }
        mul_ratio(share, pool, total_share)
    }
}

/// `None` where the share count does not fit in 128 bits.
pub fn shares_for_withdrawal(amount: u128, total_share: u128, pool: u128) -> (r: Option<u128>)
    ensures
        r == (if burned_share(amount as int, total_share as int, pool as int) <= u128::MAX {
            Some(burned_share(amount as int, total_share as int, pool as int) as u128)
        } else {
            None
        }),
{
    if pool == 0 {
        Some(0)
    } else {
        mul_ratio(amount, total_share, pool)
    }
}

/// Burning the shares for an amount within the quoted balance never takes more
/// shares than the staker has.
pub proof fn lemma_burn_within_share(amount: int, share: int, total_share: int, pool: int)
    requires
        0 <= amount <= quoted_balance(share, total_share, pool),
        0 <= share <= total_share,
        0 <= pool,
    ensures
        0 <= burned_share(amount, total_share, pool) <= share,
{
    if pool == 0 {
    } else if total_share == 0 {
        assert(amount == 0);
        assert(amount * total_share == 0) by (nonlinear_arith)
            requires
                amount == 0,
        ;
    } else {
        let q = share * pool / total_share;
        crate::math::lemma_floor_times_divisor(share * pool, total_share);
        assert(0 <= share * pool) by (nonlinear_arith)
            requires
                0 <= share,
                0 <= pool,
        ;
        // amount * total_share <= q * total_share <= share * pool
        assert(amount * total_share <= q * total_share) by (nonlinear_arith)
            requires
                0 <= amount <= q,
                0 < total_share,
        ;
        assert(0 <= amount * total_share) by (nonlinear_arith)
            requires
                0 <= amount,
                0 < total_share,
        ;
        assert(share * pool == pool * share) by (nonlinear_arith);
        vstd::arithmetic::div_mod::lemma_div_is_ordered(amount * total_share, pool * share, pool);
        vstd::arithmetic::div_mod::lemma_div_multiples_vanish(share, pool);
        vstd::arithmetic::div_mod::lemma_div_pos_is_pos(amount * total_share, pool);
    }
}

} // verus!
