//! Storage-cost accounting: what a change in the ledger's footprint costs
//! the caller, and what is handed back.

use crate::error::LedgerError;
use vstd::prelude::*;

verus! {

/// The bytes that one account slot takes in contract storage.
pub const ACCOUNT_SLOT_BYTES: u64 = 125;

/// Price of one byte of contract storage, in the smallest currency unit.
pub open spec fn byte_cost() -> nat {
    10_000_000_000_000_000_000
}

/// The fixed storage cost of one account slot.
pub open spec fn slot_cost() -> nat {
    ACCOUNT_SLOT_BYTES as nat * byte_cost()
}

/// What a call pays for the bytes by which it makes the state grow.
pub open spec fn charge(bytes_before: nat, bytes_after: nat) -> nat {
    if bytes_after > bytes_before {
        ((bytes_after - bytes_before) * byte_cost()) as nat
    } else {
        0
    }
}

/// The value of the bytes that a call sets free.
pub open spec fn released(bytes_before: nat, bytes_after: nat) -> nat {
    if bytes_before > bytes_after {
        ((bytes_before - bytes_after) * byte_cost()) as nat
    } else {
        0
    }
}

/// What goes back to the caller when a call is settled.
#[derive(Clone, Copy, Debug, PartialEq, Eq, Structural)]
pub struct Refund {
    /// The part of the attached payment that the call did not need.
    pub unused: u128,
    /// The value of the storage that the call set free.
    pub released: u128,
}

/// Calls `near_sdk::env::storage_byte_cost` and hands its amount back in the
/// smallest currency unit. The contract claims that the call returns the
/// fixed genesis price of ten to the nineteenth per byte.
#[verifier::external_body]
pub(crate) fn storage_byte_cost() -> (cost: u128)
    ensures
        cost == byte_cost(),
{
    near_sdk::env::storage_byte_cost().as_yoctonear()
}

/// The price of one byte of storage.
pub fn cost_per_byte() -> (cost: u128)
    ensures
        cost == byte_cost(),
{
    storage_byte_cost()
}

/// The price of one account slot: the least payment that registers an
/// account.
pub fn account_slot_cost() -> (cost: u128)
    ensures
        cost == slot_cost(),
        cost == 1_250_000_000_000_000_000_000u128,
{
    let per_byte: u128 = storage_byte_cost();
    (ACCOUNT_SLOT_BYTES as u128) * per_byte
}

/// Settles a call that took the state from `bytes_before` to `bytes_after`
/// with `attached` paid in. Growth is charged by the byte and the call is
/// rejected when the payment does not cover it; otherwise the unused payment
/// and the value of any storage set free go back to the caller.
pub fn settle(bytes_before: u64, bytes_after: u64, attached: u128) -> (outcome: Result<
    Refund,
    LedgerError,
>)
    ensures
        match outcome {
            Ok(refund) => {
                &&& attached >= charge(bytes_before as nat, bytes_after as nat)
                &&& refund.unused == attached - charge(bytes_before as nat, bytes_after as nat)
                &&& refund.released == released(bytes_before as nat, bytes_after as nat)
            },
            Err(e) => {
                &&& e == LedgerError::InsufficientStorageDeposit
                &&& attached < charge(bytes_before as nat, bytes_after as nat)
            },
        },
{
    let per_byte: u128 = storage_byte_cost();
    if bytes_after > bytes_before {
        let grown: u64 = bytes_after - bytes_before;
        let due: u128 = (grown as u128) * per_byte;
        if attached < due {
            Err(LedgerError::InsufficientStorageDeposit)
        } else {
            Ok(Refund { unused: attached - due, released: 0 })
        }
    } else {
        let freed: u64 = bytes_before - bytes_after;
        Ok(Refund { unused: attached, released: (freed as u128) * per_byte })
    }
}

} // verus!
