//! The reasons for which an operation on the token is rejected.

use vstd::prelude::*;

verus! {

/// Why a call was rejected. A rejected call leaves the state as it was.
#[derive(Clone, Copy, Debug, PartialEq, Eq, Structural)]
pub enum LedgerError {
    /// The contract state was set up before.
    AlreadyInitialized,
    /// The contract state was never set up.
    NotInitialized,
    /// The token description breaks a rule of the metadata standard.
    InvalidMetadata,
    /// The attached payment does not cover the storage that the call takes.
    InsufficientStorageDeposit,
    /// The account (the sender, in a transfer) holds no slot in the ledger.
    NotRegistered,
    /// The receiver of a transfer holds no slot in the ledger.
    ReceiverNotRegistered,
    /// The account still holds tokens and removal was not forced.
    NonZeroBalance,
    /// The account holds fewer tokens than the call takes from it.
    InsufficientBalance,
    /// A transfer of zero tokens.
    MustBePositive,
    /// Sender and receiver of a transfer are the same account.
    SelfTransfer,
    /// The caller is not on the list of authorised minters.
    Unauthorized,
    /// Minting would push the total supply past the largest 128-bit value.
    SupplyOverflow,
}

} // verus!
