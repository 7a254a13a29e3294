//! The storage deposit that a call keeps, and what it refunds.

use vstd::prelude::*;

use crate::types::{Balance, ContractError};

verus! {

/// Settles the deposit of a call that used `storage_used` bytes of storage at
/// `byte_cost` each, after `extra_spend` of the deposit was spent otherwise.
/// Fails where the deposit does not cover both; else hands back the refund,
/// where it is more than one unit.
pub fn refund_deposit(storage_used: u64, byte_cost: Balance, attached_deposit: Balance, extra_spend: Balance) -> (r: Result<Option<Balance>, ContractError>)
    ensures
        byte_cost * storage_used + extra_spend > attached_deposit ==> r == Err::<Option<Balance>, ContractError>(
            ContractError::InsufficientPayment),
        byte_cost * storage_used + extra_spend <= attached_deposit ==> {
            let refund = attached_deposit - extra_spend - byte_cost * storage_used;
            &&& refund > 1 ==> r == Ok::<Option<Balance>, ContractError>(Some(refund as Balance))
            &&& refund <= 1 ==> r == Ok::<Option<Balance>, ContractError>(None)
        },
{
    if extra_spend > attached_deposit {
        return Err(ContractError::InsufficientPayment);
    }
    let available = attached_deposit - extra_spend;
    let required_cost = match byte_cost.checked_mul(storage_used as u128) {
        Some(c) => c,
        None => return Err(ContractError::InsufficientPayment),
    };
    if required_cost > available {
        return Err(ContractError::InsufficientPayment);
    }
    let refund = available - required_cost;
    if refund > 1 {
        Ok(Some(refund))
    } else {
        Ok(None)
    }
}

} // verus!
