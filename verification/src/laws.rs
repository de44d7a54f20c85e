//! What holds of the ledger and of the contract whatever calls are made.

use crate::contract::ContractView;
use crate::error::LedgerError;
use crate::ledger::{lemma_total_insert, lemma_total_remove, total, LedgerView};
use crate::metadata::Metadata;
use crate::storage::{charge, released};
use vstd::prelude::*;

verus! {

/// A call that changes the ledger.
pub enum LedgerOp {
    Register { id: Seq<char> },
    Unregister { id: Seq<char>, force: bool },
    Transfer { sender: Seq<char>, receiver: Seq<char>, amount: nat },
    Deposit { id: Seq<char>, amount: nat },
    Burn { id: Seq<char>, amount: nat },
}

/// The ledger after a call, or the ledger as it was where the call is
/// rejected.
pub open spec fn or_unchanged(before: LedgerView, outcome: Result<LedgerView, LedgerError>)
    -> LedgerView {
    match outcome {
        Ok(after) => after,
        Err(_) => before,
    }
}

/// The ledger after one call.
pub open spec fn apply(s: LedgerView, op: LedgerOp) -> LedgerView {
    match op {
        LedgerOp::Register { id } => s.register(id),
        LedgerOp::Unregister { id, force } => or_unchanged(s, s.unregister(id, force)),
        LedgerOp::Transfer { sender, receiver, amount } => or_unchanged(
            s,
            s.transfer(sender, receiver, amount),
        ),
        LedgerOp::Deposit { id, amount } => or_unchanged(s, s.deposit(id, amount)),
        LedgerOp::Burn { id, amount } => or_unchanged(s, s.burn(id, amount)),
    }
}

/// The ledger after a sequence of calls on the empty ledger.
pub open spec fn run(ops: Seq<LedgerOp>) -> LedgerView
    decreases ops.len(),
{
    if ops.len() == 0 {
        LedgerView::empty()
    } else {
        apply(run(ops.drop_last()), ops.last())
    }
}

/// No call breaks the rule that the total supply is the sum of the balances
/// of the registered accounts.
pub proof fn lemma_call_keeps_supply_sum(s: LedgerView, op: LedgerOp)
    requires
        s.consistent(),
    ensures
        apply(s, op).consistent(),
{
    let m = s.balances;
    match op {
        LedgerOp::Register { id } => {
            lemma_total_insert(m, id, 0);
        },
        LedgerOp::Unregister { id, force } => {
            if s.registered(id) {
                lemma_total_remove(m, id);
            }
        },
        LedgerOp::Transfer { sender, receiver, amount } => {
            if s.transfer(sender, receiver, amount) is Ok {
                let m1 = m.insert(sender, (m[sender] - amount) as nat);
                lemma_total_remove(m, sender);
                lemma_total_insert(m, sender, (m[sender] - amount) as nat);
                lemma_total_remove(m1, receiver);
                lemma_total_insert(m1, receiver, m[receiver] + amount);
            }
        },
        LedgerOp::Deposit { id, amount } => {
            if s.registered(id) {
                lemma_total_remove(m, id);
                lemma_total_insert(m, id, m[id] + amount);
            }
        },
        LedgerOp::Burn { id, amount } => {
            if s.burn(id, amount) is Ok {
                lemma_total_remove(m, id);
                lemma_total_insert(m, id, (m[id] - amount) as nat);
            }
        },
    }
}

/// In every state that calls can lead to, the total supply is the sum of
/// the balances of the registered accounts.
pub proof fn lemma_supply_is_sum_of_balances(ops: Seq<LedgerOp>)
    ensures
        run(ops).consistent(),
        run(ops).supply == total(run(ops).balances),
    decreases ops.len(),
{
    if ops.len() == 0 {
        assert(total(Map::<Seq<char>, nat>::empty()) == 0);
    } else {
        lemma_supply_is_sum_of_balances(ops.drop_last());
        lemma_call_keeps_supply_sum(run(ops.drop_last()), ops.last());
    }
}

/// No call on the contract breaks what holds of a valid state: the supply
/// stays the sum of the balances, and the description stays in place.
pub proof fn lemma_call_keeps_contract_valid(
    s: ContractView,
    a: Seq<char>,
    b: Seq<char>,
    amount: nat,
    memo: Option<Seq<char>>,
    force: bool,
    metadata: Metadata,
)
    requires
        s.valid(),
    ensures
        s.initialize(a, amount, metadata) matches Ok(after) ==> after.valid(),
        s.transfer(a, b, amount, memo) matches Ok(after) ==> after.valid(),
        s.mint(a, b, amount) matches Ok(after) ==> after.valid(),
        s.burn(a, b, amount) matches Ok(after) ==> after.valid(),
        s.storage_deposit(a, amount) matches Ok(out) ==> out.0.valid(),
        s.storage_unregister(a, force) matches Ok(out) ==> out.0.valid(),
{
    lemma_total_insert(Map::<Seq<char>, nat>::empty(), a, amount);
    assert(total(Map::<Seq<char>, nat>::empty()) == 0);
    lemma_call_keeps_supply_sum(s.ledger, LedgerOp::Transfer { sender: a, receiver: b, amount });
    lemma_call_keeps_supply_sum(s.ledger, LedgerOp::Deposit { id: b, amount });
    lemma_call_keeps_supply_sum(s.ledger, LedgerOp::Burn { id: b, amount });
    lemma_call_keeps_supply_sum(s.ledger, LedgerOp::Register { id: a });
    lemma_call_keeps_supply_sum(s.ledger, LedgerOp::Unregister { id: a, force });
}

/// Once the contract is set up, every further attempt to set it up is
/// rejected as already initialised. The first attempt has to be one that
/// is not turned down for its description.
pub proof fn lemma_second_initialize_fails(
    s: ContractView,
    owner: Seq<char>,
    supply: nat,
    metadata: Metadata,
    owner2: Seq<char>,
    supply2: nat,
    metadata2: Metadata,
)
    requires
        s.initialized || metadata.valid(),
    ensures
        (match s.initialize(owner, supply, metadata) {
            Ok(after) => after,
            Err(_) => s,
        }).initialize(owner2, supply2, metadata2) == Err::<ContractView, LedgerError>(
            LedgerError::AlreadyInitialized,
        ),
{
}

/// A deposit followed by a burn of the same amount from the same account
/// leaves every balance and the total supply as they were. Left out is the
/// deposit that is rejected because the supply would overflow.
pub proof fn lemma_deposit_then_burn_restores(s: LedgerView, id: Seq<char>, amount: nat)
    requires
        !(s.registered(id) && s.supply + amount > u128::MAX),
    ensures
        apply(apply(s, LedgerOp::Deposit { id, amount }), LedgerOp::Burn { id, amount }) == s,
        apply(apply(s, LedgerOp::Deposit { id, amount }), LedgerOp::Burn { id, amount }).balance_of(
            id,
        ) == s.balance_of(id),
        apply(apply(s, LedgerOp::Deposit { id, amount }), LedgerOp::Burn { id, amount }).supply
            == s.supply,
{
    if s.registered(id) {
        let after = apply(apply(s, LedgerOp::Deposit { id, amount }), LedgerOp::Burn { id, amount });
        assert(after.balances =~= s.balances);
    }
}

/// A mint followed by a burn of the same amount from the same account, by
/// the same caller, leaves the ledger as it was.
pub proof fn lemma_mint_then_burn_restores(
    s: ContractView,
    caller: Seq<char>,
    id: Seq<char>,
    amount: nat,
)
    requires
        s.mint(caller, id, amount) is Ok,
    ensures
        s.mint(caller, id, amount).unwrap().burn(caller, id, amount) is Ok,
        s.mint(caller, id, amount).unwrap().burn(caller, id, amount).unwrap().ledger == s.ledger,
{
    lemma_deposit_then_burn_restores(s.ledger, id, amount);
}

/// The description of the token, once set, is never changed by a call, nor
/// is the list of minters.
pub proof fn lemma_description_is_kept(
    s: ContractView,
    a: Seq<char>,
    b: Seq<char>,
    amount: nat,
    memo: Option<Seq<char>>,
    force: bool,
)
    requires
        s.initialized,
    ensures
        s.transfer(a, b, amount, memo) matches Ok(after) ==> after.metadata == s.metadata
            && after.minters == s.minters && after.initialized,
        s.mint(a, b, amount) matches Ok(after) ==> after.metadata == s.metadata && after.minters
            == s.minters && after.initialized,
        s.burn(a, b, amount) matches Ok(after) ==> after.metadata == s.metadata && after.minters
            == s.minters && after.initialized,
        s.storage_deposit(a, amount) matches Ok(out) ==> out.0.metadata == s.metadata
            && out.0.minters == s.minters && out.0.initialized,
        s.storage_unregister(a, force) matches Ok(out) ==> out.0.metadata == s.metadata
            && out.0.minters == s.minters && out.0.initialized,
{
}

/// The log only ever grows at its end: what was logged before a call is
/// still there, in the same order, after it.
pub proof fn lemma_log_is_append_only(
    s: ContractView,
    a: Seq<char>,
    b: Seq<char>,
    amount: nat,
    memo: Option<Seq<char>>,
    force: bool,
)
    ensures
        s.transfer(a, b, amount, memo) matches Ok(after) ==> s.events.is_prefix_of(after.events),
        s.mint(a, b, amount) matches Ok(after) ==> s.events.is_prefix_of(after.events),
        s.burn(a, b, amount) matches Ok(after) ==> s.events.is_prefix_of(after.events),
        s.storage_deposit(a, amount) matches Ok(out) ==> out.0.events == s.events,
        s.storage_unregister(a, force) matches Ok(out) ==> s.events.is_prefix_of(out.0.events),
{
}

/// Transfers, mints and burns leave the number of accounts, and with it the
/// bytes of storage that the ledger takes, as they were: there is nothing
/// to charge or to pay back for them.
pub proof fn lemma_balances_take_no_storage(
    s: ContractView,
    a: Seq<char>,
    b: Seq<char>,
    amount: nat,
    memo: Option<Seq<char>>,
)
    ensures
        s.transfer(a, b, amount, memo) matches Ok(after) ==> after.storage_bytes()
            == s.storage_bytes(),
        s.mint(a, b, amount) matches Ok(after) ==> after.storage_bytes() == s.storage_bytes(),
        s.burn(a, b, amount) matches Ok(after) ==> after.storage_bytes() == s.storage_bytes(),
{
    if let Ok(after) = s.transfer(a, b, amount, memo) {
        assert(after.ledger.balances.dom() =~= s.ledger.balances.dom());
    }
    if let Ok(after) = s.mint(a, b, amount) {
        assert(after.ledger.balances.dom() =~= s.ledger.balances.dom());
    }
    if let Ok(after) = s.burn(a, b, amount) {
        assert(after.ledger.balances.dom() =~= s.ledger.balances.dom());
    }
}

/// A transfer of nothing is always rejected.
pub proof fn lemma_transfer_of_zero_fails(
    s: ContractView,
    sender: Seq<char>,
    receiver: Seq<char>,
    memo: Option<Seq<char>>,
)
    ensures
        s.ledger.transfer(sender, receiver, 0) == Err::<LedgerView, LedgerError>(
            LedgerError::MustBePositive,
        ),
        s.transfer(sender, receiver, 0, memo) is Err,
{
}

/// A transfer of all that the sender holds, to another registered
/// account, goes through and leaves the sender with nothing.
pub proof fn lemma_transfer_of_whole_balance(
    s: LedgerView,
    sender: Seq<char>,
    receiver: Seq<char>,
    amount: nat,
)
    requires
        amount > 0,
        sender != receiver,
        s.registered(sender),
        s.registered(receiver),
        s.balances[sender] == amount,
    ensures
        s.transfer(sender, receiver, amount) is Ok,
        s.transfer(sender, receiver, amount).unwrap().balance_of(sender) == 0,
        s.transfer(sender, receiver, amount).unwrap().balance_of(receiver) == s.balance_of(receiver)
            + amount,
{
}

/// A transfer changes no balance but the sender's and the receiver's, and
/// leaves the total supply as it was.
pub proof fn lemma_transfer_moves_only_between_two(
    s: LedgerView,
    sender: Seq<char>,
    receiver: Seq<char>,
    amount: nat,
    other: Seq<char>,
)
    requires
        s.transfer(sender, receiver, amount) is Ok,
        other != sender,
        other != receiver,
    ensures
        s.transfer(sender, receiver, amount).unwrap().supply == s.supply,
        s.transfer(sender, receiver, amount).unwrap().balance_of(other) == s.balance_of(other),
        s.transfer(sender, receiver, amount).unwrap().registered(other) == s.registered(other),
{
}

/// Registration charges exactly for the bytes by which the ledger grows:
/// the refund is the payment less that charge.
pub proof fn lemma_storage_deposit_is_settled(s: ContractView, id: Seq<char>, attached: nat)
    requires
        s.valid(),
        s.storage_deposit(id, attached) is Ok,
    ensures
        ({
            let (after, changed, refund) = s.storage_deposit(id, attached).unwrap();
            &&& attached >= charge(s.storage_bytes(), after.storage_bytes())
            &&& refund == attached - charge(s.storage_bytes(), after.storage_bytes())
            &&& changed == !s.ledger.registered(id)
        }),
{
}

/// Removal of an account pays back exactly the value of the bytes that it
/// sets free.
pub proof fn lemma_storage_unregister_is_settled(s: ContractView, id: Seq<char>, force: bool)
    requires
        s.valid(),
        s.storage_unregister(id, force) is Ok,
    ensures
        ({
            let (after, refund) = s.storage_unregister(id, force).unwrap();
            refund == released(s.storage_bytes(), after.storage_bytes())
        }),
{
}

} // verus!
