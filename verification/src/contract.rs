//! The token contract: a ledger that is set up once, with its description,
//! its list of authorised minters and its log of events.

use crate::error::LedgerError;
use crate::event::{log_view, memo_view, Event, EventView};
use crate::ledger::{Ledger, LedgerView};
use crate::metadata::Metadata;
use crate::storage::{account_slot_cost, settle, slot_cost, ACCOUNT_SLOT_BYTES};
use vstd::prelude::*;

verus! {

/// The memo of the mint that sets the contract up.
pub open spec fn initial_memo() -> Seq<char> {
    "Initial tokens supply is minted"@
}

/// The memo of every later mint.
pub open spec fn mint_memo() -> Seq<char> {
    "caETH supply is minted"@
}

/// The memo of the burn that a forced removal of an account makes.
pub open spec fn closed_memo() -> Seq<char> {
    "Account closed"@
}

/// The identifiers that a list of strings holds.
pub open spec fn id_set(ids: Seq<String>) -> Set<Seq<char>> {
    Set::new(|k: Seq<char>| exists|i: int| 0 <= i < ids.len() && (#[trigger] ids[i])@ == k)
}

/// What a call on the storage interface did and what goes back to the caller.
#[derive(Clone, Copy, Debug, PartialEq, Eq, Structural)]
pub struct StorageReceipt {
    /// A slot was made, or removed.
    pub changed: bool,
    /// The amount that is paid back.
    pub refund: u128,
}

/// What an account has paid in for storage.
#[derive(Clone, Copy, Debug, PartialEq, Eq, Structural)]
pub struct StorageBalance {
    /// All that was paid in.
    pub total: u128,
    /// The part of it that can be withdrawn.
    pub available: u128,
}

/// The least and the most that an account can pay in for storage.
#[derive(Clone, Copy, Debug, PartialEq, Eq, Structural)]
pub struct StorageBalanceBounds {
    pub min: u128,
    pub max: Option<u128>,
}

/// The contract as a mathematical value.
pub struct ContractView {
    /// The contract was set up.
    pub initialized: bool,
    /// Accounts, balances and supply.
    pub ledger: LedgerView,
    /// The description of the token, once set up.
    pub metadata: Option<Metadata>,
    /// The accounts that may mint and burn.
    pub minters: Set<Seq<char>>,
    /// The log, oldest record first.
    pub events: Seq<EventView>,
}

impl ContractView {
    /// The state before the contract is set up.
    pub open spec fn uninitialized() -> ContractView {
        ContractView {
            initialized: false,
            ledger: LedgerView::empty(),
            metadata: None,
            minters: Set::empty(),
            events: Seq::empty(),
        }
    }

    /// The supply is the sum of the balances; a description is there, and
    /// valid, exactly when the contract was set up; before that the state
    /// is empty.
    pub open spec fn valid(self) -> bool {
        &&& self.ledger.consistent()
        &&& self.initialized == self.metadata.is_some()
        &&& match self.metadata {
            Some(meta) => meta.valid(),
            None => true,
        }
        &&& !self.initialized ==> {
            &&& self.ledger.balances =~= Map::empty()
            &&& self.ledger.supply == 0
            &&& self.minters =~= Set::empty()
            &&& self.events =~= Seq::empty()
        }
    }

    /// The bytes of storage that the accounts take.
    pub open spec fn storage_bytes(self) -> nat {
        self.ledger.balances.dom().len() * (ACCOUNT_SLOT_BYTES as nat)
    }

    /// Sets the contract up: the owner is registered, holds the whole
    /// supply and is the one authorised minter, and the mint is logged.
    pub open spec fn initialize(self, owner: Seq<char>, supply: nat, metadata: Metadata) -> Result<
        ContractView,
        LedgerError,
    > {
        if self.initialized {
            Err(LedgerError::AlreadyInitialized)
        } else if !metadata.valid() {
            Err(LedgerError::InvalidMetadata)
        } else {
            Ok(
                ContractView {
                    initialized: true,
                    ledger: LedgerView {
                        balances: Map::<Seq<char>, nat>::empty().insert(owner, supply),
                        supply,
                    },
                    metadata: Some(metadata),
                    minters: Set::<Seq<char>>::empty().insert(owner),
                    events: Seq::<EventView>::empty().push(
                        EventView::Mint { owner, amount: supply, memo: Some(initial_memo()) },
                    ),
                },
            )
        }
    }

    /// A transfer, with its record in the log.
    pub open spec fn transfer(
        self,
        sender: Seq<char>,
        receiver: Seq<char>,
        amount: nat,
        memo: Option<Seq<char>>,
    ) -> Result<ContractView, LedgerError> {
        if !self.initialized {
            Err(LedgerError::NotInitialized)
        } else {
            match self.ledger.transfer(sender, receiver, amount) {
                Ok(ledger) => Ok(
                    ContractView {
                        ledger,
                        events: self.events.push(
                            EventView::Transfer { sender, receiver, amount, memo },
                        ),
                        ..self
                    },
                ),
                Err(e) => Err(e),
            }
        }
    }

    /// A mint by an authorised caller, with its record in the log.
    pub open spec fn mint(self, caller: Seq<char>, id: Seq<char>, amount: nat) -> Result<
        ContractView,
        LedgerError,
    > {
        if !self.initialized {
            Err(LedgerError::NotInitialized)
        } else if !self.minters.contains(caller) {
            Err(LedgerError::Unauthorized)
        } else {
            match self.ledger.deposit(id, amount) {
                Ok(ledger) => Ok(
                    ContractView {
                        ledger,
                        events: self.events.push(
                            EventView::Mint { owner: id, amount, memo: Some(mint_memo()) },
                        ),
                        ..self
                    },
                ),
                Err(e) => Err(e),
            }
        }
    }

    /// A burn by an authorised caller, with its record in the log.
    pub open spec fn burn(self, caller: Seq<char>, id: Seq<char>, amount: nat) -> Result<
        ContractView,
        LedgerError,
    > {
        if !self.initialized {
            Err(LedgerError::NotInitialized)
        } else if !self.minters.contains(caller) {
            Err(LedgerError::Unauthorized)
        } else {
            match self.ledger.burn(id, amount) {
                Ok(ledger) => Ok(
                    ContractView {
                        ledger,
                        events: self.events.push(EventView::Burn { owner: id, amount, memo: None }),
                        ..self
                    },
                ),
                Err(e) => Err(e),
            }
        }
    }

    /// Registration of an account against a payment: the state after it,
    /// whether a slot was made, and the refund.
    pub open spec fn storage_deposit(self, id: Seq<char>, attached: nat) -> Result<
        (ContractView, bool, nat),
        LedgerError,
    > {
        if !self.initialized {
            Err(LedgerError::NotInitialized)
        } else if attached < slot_cost() {
            Err(LedgerError::InsufficientStorageDeposit)
        } else if self.ledger.registered(id) {
            Ok((self, false, attached))
        } else {
            Ok(
                (
                    ContractView { ledger: self.ledger.register(id), ..self },
                    true,
                    (attached - slot_cost()) as nat,
                ),
            )
        }
    }

    /// A withdrawal from the account's storage balance, of which nothing
    /// is ever available: the balance, or why the call is rejected.
    pub open spec fn storage_withdraw(self, id: Seq<char>, amount: Option<u128>) -> Result<
        StorageBalance,
        LedgerError,
    > {
        if !self.initialized {
            Err(LedgerError::NotInitialized)
        } else if !self.ledger.registered(id) {
            Err(LedgerError::NotRegistered)
        } else if amount.is_some() && amount.unwrap() > 0 {
            Err(LedgerError::InsufficientBalance)
        } else {
            Ok(StorageBalance { total: slot_cost() as u128, available: 0 })
        }
    }

    /// Removal of an account: the state after it and the refund. Tokens
    /// that a forced removal destroys are logged as a burn.
    pub open spec fn storage_unregister(self, id: Seq<char>, force: bool) -> Result<
        (ContractView, nat),
        LedgerError,
    > {
        if !self.initialized {
            Err(LedgerError::NotInitialized)
        } else {
            match self.ledger.unregister(id, force) {
                Ok(ledger) => Ok(
                    (
                        ContractView {
                            ledger,
                            events: if self.ledger.balance_of(id) > 0 {
                                self.events.push(
                                    EventView::Burn {
                                        owner: id,
                                        amount: self.ledger.balance_of(id),
                                        memo: Some(closed_memo()),
                                    },
                                )
                            } else {
                                self.events
                            },
                            ..self
                        },
                        slot_cost(),
                    ),
                ),
                Err(e) => Err(e),
            }
        }
    }
}

/// The token contract.
pub struct Contract {
    initialized: bool,
    token: Ledger,
    metadata: Option<Metadata>,
    minters: Vec<String>,
    events: Vec<Event>,
}

impl View for Contract {
    type V = ContractView;

    closed spec fn view(&self) -> ContractView {
        ContractView {
            initialized: self.initialized,
            ledger: self.token@,
            metadata: self.metadata,
            minters: id_set(self.minters@),
            events: log_view(self.events@),
        }
    }
}

impl Contract {
    /// The ledger inside the contract is well formed.
    pub closed spec fn inv(&self) -> bool {
        self.token.wf()
    }

    /// The contract is well formed: see [`ContractView::valid`].
    pub open spec fn wf(&self) -> bool {
        &&& self.inv()
        &&& self@.valid()
    }

    /// The state before the contract is set up: every call but
    /// `initialize` and the queries is rejected on it.
    pub fn uninitialized() -> (contract: Contract)
        ensures
            contract.wf(),
            contract@ == ContractView::uninitialized(),
    {
        let contract = Contract {
            initialized: false,
            token: Ledger::new(),
            metadata: None,
            minters: Vec::new(),
            events: Vec::new(),
        };
        proof {
            assert(contract@.minters =~= Set::empty());
            assert(contract@.events =~= Seq::empty());
        }
        contract
    }

    /// Sets the contract up, once: a second call is rejected.
    pub fn initialize(&mut self, owner_id: &str, total_supply: u128, metadata: Metadata) -> (done:
        Result<(), LedgerError>)
        requires
            old(self).wf(),
        ensures
            final(self).wf(),
            match done {
                Ok(_) => old(self)@.initialize(owner_id@, total_supply as nat, metadata) == Ok::<
                    ContractView,
                    LedgerError,
                >(final(self)@),
                Err(e) => old(self)@.initialize(owner_id@, total_supply as nat, metadata) == Err::<
                    ContractView,
                    LedgerError,
                >(e) && *final(self) == *old(self),
            },
    {
        if self.initialized {
            return Err(LedgerError::AlreadyInitialized);
        }
        if !metadata.is_valid() {
            return Err(LedgerError::InvalidMetadata);
        }
        self.token.register(owner_id);
        let _minted = self.token.deposit(owner_id, total_supply);
        self.metadata = Some(metadata);
        self.minters.push(owner_id.to_owned());
        self.events.push(
            Event::Mint {
                owner: owner_id.to_owned(),
                amount: total_supply,
                memo: Some("Initial tokens supply is minted".to_owned()),
            },
        );
        self.initialized = true;
        proof {
            let after = old(self)@.initialize(owner_id@, total_supply as nat, metadata).unwrap();
            if old(self).minters@.len() > 0 {
                assert(old(self)@.minters.contains(old(self).minters@[0]@));
            }
            assert(self.minters@[0]@ == owner_id@);
            assert(self@.minters =~= after.minters);
            assert(self@.events =~= after.events);
            assert(self@.ledger.balances =~= after.ledger.balances);
        }
        Ok(())
    }

    /// A contract set up with the given owner, supply and description.
    pub fn new(owner_id: &str, total_supply: u128, metadata: Metadata) -> (made: Result<
        Contract,
        LedgerError,
    >)
        ensures
            match made {
                Ok(contract) => contract.wf() && ContractView::uninitialized().initialize(
                    owner_id@,
                    total_supply as nat,
                    metadata,
                ) == Ok::<ContractView, LedgerError>(contract@),
                Err(e) => e == LedgerError::InvalidMetadata && !metadata.valid(),
            },
    {
        let mut contract = Contract::uninitialized();
        match contract.initialize(owner_id, total_supply, metadata) {
            Ok(_) => Ok(contract),
            Err(e) => Err(e),
        }
    }

    /// A contract set up with the given owner and supply and the default
    /// description.
    pub fn new_default_meta(owner_id: &str, total_supply: u128) -> (contract: Contract)
        ensures
            contract.wf(),
            contract@.metadata.is_some(),
            contract@.metadata.unwrap().is_default(),
            ContractView::uninitialized().initialize(
                owner_id@,
                total_supply as nat,
                contract@.metadata.unwrap(),
            ) == Ok::<ContractView, LedgerError>(contract@),
    {
        let mut contract = Contract::uninitialized();
        let _done = contract.initialize(owner_id, total_supply, Metadata::default_meta());
        contract
    }

    /// A contract that was set up before, put together again from its
    /// ledger, its description and its list of minters, with an empty log.
    pub fn restore(ledger: Ledger, metadata: Metadata, minters: Vec<String>) -> (made: Result<
        Contract,
        LedgerError,
    >)
        requires
            ledger.wf(),
        ensures
            match made {
                Ok(contract) => {
                    &&& contract.wf()
                    &&& metadata.valid()
                    &&& contract@ == (ContractView {
                        initialized: true,
                        ledger: ledger@,
                        metadata: Some(metadata),
                        minters: id_set(minters@),
                        events: Seq::<EventView>::empty(),
                    })
                },
                Err(e) => e == LedgerError::InvalidMetadata && !metadata.valid(),
            },
    {
        if !metadata.is_valid() {
            return Err(LedgerError::InvalidMetadata);
        }
        let contract = Contract {
            initialized: true,
            token: ledger,
            metadata: Some(metadata),
            minters,
            events: Vec::new(),
        };
        proof {
            assert(contract@.events =~= Seq::<EventView>::empty());
        }
        Ok(contract)
    }

    /// The ledger of the contract.
    pub fn ledger(&self) -> (ledger: &Ledger)
        ensures
            ledger@ == self@.ledger,
            self.wf() ==> ledger.wf(),
    {
        &self.token
    }

    /// The accounts that may mint and burn.
    pub fn minters(&self) -> (list: &Vec<String>)
        ensures
            id_set(list@) == self@.minters,
    {
        &self.minters
    }

    /// Whether the contract was set up.
    pub fn is_initialized(&self) -> (initialized: bool)
        ensures
            initialized == self@.initialized,
    {
        self.initialized
    }

    /// The total supply.
    pub fn ft_total_supply(&self) -> (supply: u128)
        ensures
            supply == self@.ledger.supply,
    {
        self.token.total_supply()
    }

    /// What the account holds; zero for an account that is not registered.
    pub fn ft_balance_of(&self, account_id: &str) -> (balance: u128)
        requires
            self.wf(),
        ensures
            balance == self@.ledger.balance_of(account_id@),
    {
        self.token.balance_of(account_id)
    }

    /// The description of the token.
    pub fn ft_metadata(&self) -> (meta: Result<&Metadata, LedgerError>)
        ensures
            match meta {
                Ok(m) => self@.metadata == Some(*m),
                Err(e) => e == LedgerError::NotInitialized && self@.metadata.is_none(),
            },
    {
        match &self.metadata {
            Some(m) => Ok(m),
            None => Err(LedgerError::NotInitialized),
        }
    }

    /// The log of events, oldest first.
    pub fn events(&self) -> (log: &Vec<Event>)
        ensures
            log_view(log@) == self@.events,
    {
        &self.events
    }

    /// Whether the account may mint and burn.
    pub fn is_minter(&self, account_id: &str) -> (allowed: bool)
        ensures
            allowed == self@.minters.contains(account_id@),
    {
        let key = account_id.to_owned();
        let mut i: usize = 0;
        while i < self.minters.len()
            invariant
                i <= self.minters@.len(),
                key@ == account_id@,
                forall|j: int| 0 <= j < i ==> (#[trigger] self.minters@[j])@ != account_id@,
            decreases self.minters@.len() - i,
        {
            if self.minters[i] == key {
                return true;
            }
            i += 1;
        }
        false
    }

    /// Moves tokens from the sender to the receiver and logs the transfer,
    /// or rejects the call and changes nothing.
    pub fn ft_transfer(
        &mut self,
        sender_id: &str,
        receiver_id: &str,
        amount: u128,
        memo: Option<String>,
    ) -> (done: Result<(), LedgerError>)
        requires
            old(self).wf(),
        ensures
            final(self).wf(),
            match done {
                Ok(_) => old(self)@.transfer(
                    sender_id@,
                    receiver_id@,
                    amount as nat,
                    memo_view(memo),
                ) == Ok::<ContractView, LedgerError>(final(self)@),
                Err(e) => old(self)@.transfer(
                    sender_id@,
                    receiver_id@,
                    amount as nat,
                    memo_view(memo),
                ) == Err::<ContractView, LedgerError>(e) && *final(self) == *old(self),
            },
    {
        if !self.initialized {
            return Err(LedgerError::NotInitialized);
        }
        match self.token.transfer(sender_id, receiver_id, amount) {
            Ok(_) => {},
            Err(e) => { return Err(e); },
        }
        self.events.push(
            Event::Transfer {
                sender: sender_id.to_owned(),
                receiver: receiver_id.to_owned(),
                amount,
                memo,
            },
        );
        proof {
            let after = old(self)@.transfer(
                sender_id@,
                receiver_id@,
                amount as nat,
                memo_view(memo),
            ).unwrap();
            assert(self@.events =~= after.events);
        }
        Ok(())
    }

    /// Mints tokens into the account on behalf of an authorised caller and
    /// logs the mint.
    pub fn mint_caeth(&mut self, caller_id: &str, account_id: &str, balance: u128) -> (done: Result<
        (),
        LedgerError,
    >)
        requires
            old(self).wf(),
        ensures
            final(self).wf(),
            match done {
                Ok(_) => old(self)@.mint(caller_id@, account_id@, balance as nat) == Ok::<
                    ContractView,
                    LedgerError,
                >(final(self)@),
                Err(e) => old(self)@.mint(caller_id@, account_id@, balance as nat) == Err::<
                    ContractView,
                    LedgerError,
                >(e) && *final(self) == *old(self),
            },
    {
        if !self.initialized {
            return Err(LedgerError::NotInitialized);
        }
        if !self.is_minter(caller_id) {
            return Err(LedgerError::Unauthorized);
        }
        match self.token.deposit(account_id, balance) {
            Ok(_) => {},
            Err(e) => { return Err(e); },
        }
        self.events.push(
            Event::Mint {
                owner: account_id.to_owned(),
                amount: balance,
                memo: Some("caETH supply is minted".to_owned()),
            },
        );
        proof {
            let after = old(self)@.mint(caller_id@, account_id@, balance as nat).unwrap();
            assert(self@.events =~= after.events);
        }
        Ok(())
    }

    /// Burns tokens of the account on behalf of an authorised caller and
    /// logs the burn.
    pub fn burn(&mut self, caller_id: &str, account_id: &str, amount: u128) -> (done: Result<
        (),
        LedgerError,
    >)
        requires
            old(self).wf(),
        ensures
            final(self).wf(),
            match done {
                Ok(_) => old(self)@.burn(caller_id@, account_id@, amount as nat) == Ok::<
                    ContractView,
                    LedgerError,
                >(final(self)@),
                Err(e) => old(self)@.burn(caller_id@, account_id@, amount as nat) == Err::<
                    ContractView,
                    LedgerError,
                >(e) && *final(self) == *old(self),
            },
    {
        if !self.initialized {
            return Err(LedgerError::NotInitialized);
        }
        if !self.is_minter(caller_id) {
            return Err(LedgerError::Unauthorized);
        }
        match self.token.burn(account_id, amount) {
            Ok(_) => {},
            Err(e) => { return Err(e); },
        }
        self.events.push(Event::Burn { owner: account_id.to_owned(), amount, memo: None });
        proof {
            let after = old(self)@.burn(caller_id@, account_id@, amount as nat).unwrap();
            assert(self@.events =~= after.events);
        }
        Ok(())
    }

    /// Registers the account against the attached payment. A payment under
    /// the price of a slot is rejected; for an account that is registered
    /// the whole payment goes back; else a slot is made and what the
    /// payment exceeds its price by goes back.
    pub fn storage_deposit(&mut self, account_id: &str, attached: u128) -> (done: Result<
        StorageReceipt,
        LedgerError,
    >)
        requires
            old(self).wf(),
        ensures
            final(self).wf(),
            match done {
                Ok(receipt) => old(self)@.storage_deposit(account_id@, attached as nat) == Ok::<
                    (ContractView, bool, nat),
                    LedgerError,
                >((final(self)@, receipt.changed, receipt.refund as nat)),
                Err(e) => old(self)@.storage_deposit(account_id@, attached as nat) == Err::<
                    (ContractView, bool, nat),
                    LedgerError,
                >(e) && *final(self) == *old(self),
            },
    {
        if !self.initialized {
            return Err(LedgerError::NotInitialized);
        }
        if attached < account_slot_cost() {
            return Err(LedgerError::InsufficientStorageDeposit);
        }
        // The call is settled for the bytes by which it makes the ledger grow.
        let grown: u64 = if self.token.is_registered(account_id) {
            0
        } else {
            ACCOUNT_SLOT_BYTES
        };
        let refund = match settle(0, grown, attached) {
            Ok(refund) => refund,
            Err(e) => { return Err(e); },
        };
        let created = self.token.register(account_id);
        Ok(StorageReceipt { changed: created, refund: refund.unused })
    }

    /// Removes the account and pays the price of its slot back. An account
    /// that still holds tokens is removed only by force, and its tokens
    /// are burned.
    pub fn storage_unregister(&mut self, account_id: &str, force: bool) -> (done: Result<
        StorageReceipt,
        LedgerError,
    >)
        requires
            old(self).wf(),
        ensures
            final(self).wf(),
            match done {
                Ok(receipt) => receipt.changed && old(self)@.storage_unregister(account_id@, force)
                    == Ok::<(ContractView, nat), LedgerError>(
                    (final(self)@, receipt.refund as nat),
                ),
                Err(e) => old(self)@.storage_unregister(account_id@, force) == Err::<
                    (ContractView, nat),
                    LedgerError,
                >(e) && *final(self) == *old(self),
            },
    {
        if !self.initialized {
            return Err(LedgerError::NotInitialized);
        }
        // Removal sets the bytes of one slot free; nothing is attached.
        let refund = match settle(ACCOUNT_SLOT_BYTES, 0, 0) {
            Ok(refund) => refund,
            Err(e) => { return Err(e); },
        };
        let burned: u128 = match self.token.unregister(account_id, force) {
            Ok(burned) => burned,
            Err(e) => { return Err(e); },
        };
        if burned > 0 {
            self.events.push(
                Event::Burn {
                    owner: account_id.to_owned(),
                    amount: burned,
                    memo: Some("Account closed".to_owned()),
                },
            );
        }
        proof {
            let after = old(self)@.storage_unregister(account_id@, force).unwrap().0;
            assert(self@.events =~= after.events);
        }
        Ok(StorageReceipt { changed: true, refund: refund.released })
    }

    /// Takes back what the account has paid in beyond the price of its
    /// slot. Nothing ever is available beyond that price, so any positive
    /// amount is more than the account can withdraw; without an amount, or
    /// with zero, the account's storage balance is returned as it stands.
    pub fn storage_withdraw(&self, account_id: &str, amount: Option<u128>) -> (done: Result<
        StorageBalance,
        LedgerError,
    >)
        requires
            self.wf(),
        ensures
            done == self@.storage_withdraw(account_id@, amount),
    {
        if !self.initialized {
            return Err(LedgerError::NotInitialized);
        }
        if !self.token.is_registered(account_id) {
            return Err(LedgerError::NotRegistered);
        }
        match amount {
            Some(wanted) if wanted > 0 => Err(LedgerError::InsufficientBalance),
            _ => Ok(StorageBalance { total: account_slot_cost(), available: 0 }),
        }
    }

    /// The least and the most that registration takes: both are the price
    /// of one slot.
    pub fn storage_balance_bounds(&self) -> (bounds: StorageBalanceBounds)
        ensures
            bounds.min == slot_cost(),
            bounds.max == Some(bounds.min),
    {
        let min: u128 = account_slot_cost();
        StorageBalanceBounds { min, max: Some(min) }
    }

    /// What the account has paid in for storage: the price of its slot if
    /// it is registered, none of it available for withdrawal.
    pub fn storage_balance_of(&self, account_id: &str) -> (balance: Option<StorageBalance>)
        requires
            self.wf(),
        ensures
            balance.is_some() == self@.ledger.registered(account_id@),
            match balance {
                Some(b) => b.total == slot_cost() && b.available == 0,
                None => true,
            },
    {
        if self.token.is_registered(account_id) {
            Some(StorageBalance { total: account_slot_cost(), available: 0 })
        } else {
            None
        }
    }
}

} // verus!
