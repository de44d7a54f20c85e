use caeth_ft::contract::{Contract, StorageBalance, StorageReceipt};
use caeth_ft::error::LedgerError;
use caeth_ft::event::Event;
use caeth_ft::metadata::{Metadata, DATA_IMAGE_SVG_NEAR_ICON};

const TOTAL_SUPPLY: u128 = 1_000_000_000_000_000;
const SLOT_COST: u128 = 1_250_000_000_000_000_000_000;

fn alice_with_million() -> Contract {
    Contract::new_default_meta("alice", 1_000_000)
}

fn alice_and_bob() -> Contract {
    let mut contract = alice_with_million();
    contract.storage_deposit("bob", SLOT_COST).unwrap();
    contract
}

fn sum_of_balances(contract: &Contract, ids: &[&str]) -> u128 {
    let mut sum = 0u128;
    for id in ids {
        sum += contract.ft_balance_of(id);
    }
    sum
}

#[test]
fn test_new() {
    let contract = Contract::new_default_meta("bob", TOTAL_SUPPLY);
    assert_eq!(contract.ft_total_supply(), TOTAL_SUPPLY);
    assert_eq!(contract.ft_balance_of("bob"), TOTAL_SUPPLY);
}

#[test]
fn test_transfer() {
    let mut contract = Contract::new_default_meta("charlie", TOTAL_SUPPLY);
    let min = contract.storage_balance_bounds().min;
    contract.storage_deposit("bob", min).unwrap();
    let transfer_amount = TOTAL_SUPPLY / 3;
    contract.ft_transfer("charlie", "bob", transfer_amount, None).unwrap();
    assert_eq!(contract.ft_balance_of("charlie"), TOTAL_SUPPLY - transfer_amount);
    assert_eq!(contract.ft_balance_of("bob"), transfer_amount);
}

#[test]
fn uninitialized_contract_rejects_calls() {
    let mut contract = Contract::uninitialized();
    assert!(!contract.is_initialized());
    assert_eq!(contract.ft_total_supply(), 0);
    assert_eq!(contract.ft_balance_of("alice"), 0);
    assert_eq!(contract.ft_metadata().err(), Some(LedgerError::NotInitialized));
    assert_eq!(contract.ft_transfer("alice", "bob", 1, None), Err(LedgerError::NotInitialized));
    assert_eq!(contract.mint_caeth("alice", "alice", 1), Err(LedgerError::NotInitialized));
    assert_eq!(contract.burn("alice", "alice", 1), Err(LedgerError::NotInitialized));
    assert_eq!(contract.storage_deposit("alice", SLOT_COST), Err(LedgerError::NotInitialized));
    assert_eq!(contract.storage_unregister("alice", true), Err(LedgerError::NotInitialized));
    assert!(contract.events().is_empty());
}

#[test]
fn initialize_mints_supply_to_owner() {
    let contract = alice_with_million();
    assert!(contract.is_initialized());
    assert_eq!(contract.ft_balance_of("alice"), 1_000_000);
    assert_eq!(contract.ft_total_supply(), 1_000_000);
    assert!(contract.is_minter("alice"));
    assert!(!contract.is_minter("bob"));
    assert_eq!(
        contract.events(),
        &vec![Event::Mint {
            owner: "alice".to_string(),
            amount: 1_000_000,
            memo: Some("Initial tokens supply is minted".to_string()),
        }]
    );
}

#[test]
fn initialize_twice_fails() {
    let mut contract = Contract::uninitialized();
    assert_eq!(contract.initialize("alice", 1_000_000, Metadata::default_meta()), Ok(()));
    assert_eq!(
        contract.initialize("alice", 1_000_000, Metadata::default_meta()),
        Err(LedgerError::AlreadyInitialized)
    );
    assert_eq!(
        contract.initialize("bob", 5, Metadata::default_meta()),
        Err(LedgerError::AlreadyInitialized)
    );
    assert_eq!(contract.ft_balance_of("alice"), 1_000_000);
    assert_eq!(contract.ft_balance_of("bob"), 0);
    assert_eq!(contract.ft_total_supply(), 1_000_000);
    assert_eq!(contract.events().len(), 1);
}

#[test]
fn initialize_after_rejected_metadata_still_works() {
    let mut contract = Contract::uninitialized();
    let mut bad = Metadata::default_meta();
    bad.name = String::new();
    assert_eq!(contract.initialize("alice", 7, bad), Err(LedgerError::InvalidMetadata));
    assert!(!contract.is_initialized());
    assert_eq!(contract.ft_total_supply(), 0);
    assert_eq!(contract.initialize("alice", 7, Metadata::default_meta()), Ok(()));
    assert_eq!(contract.ft_balance_of("alice"), 7);
}

#[test]
fn new_rejects_invalid_metadata() {
    let mut wrong_version = Metadata::default_meta();
    wrong_version.spec = "ft-2.0.0".to_string();
    assert_eq!(Contract::new("alice", 1, wrong_version).err(), Some(LedgerError::InvalidMetadata));

    let mut no_symbol = Metadata::default_meta();
    no_symbol.symbol = String::new();
    assert_eq!(Contract::new("alice", 1, no_symbol).err(), Some(LedgerError::InvalidMetadata));

    let mut link_without_hash = Metadata::default_meta();
    link_without_hash.reference = Some("https://example.com/token.json".to_string());
    assert_eq!(
        Contract::new("alice", 1, link_without_hash).err(),
        Some(LedgerError::InvalidMetadata)
    );

    let mut short_hash = Metadata::default_meta();
    short_hash.reference = Some("https://example.com/token.json".to_string());
    short_hash.reference_hash = Some(vec![0u8; 31]);
    assert_eq!(Contract::new("alice", 1, short_hash).err(), Some(LedgerError::InvalidMetadata));

    let mut full = Metadata::default_meta();
    full.reference = Some("https://example.com/token.json".to_string());
    full.reference_hash = Some(vec![7u8; 32]);
    let contract = Contract::new("alice", 1, full.clone()).unwrap();
    assert_eq!(contract.ft_metadata(), Ok(&full));
}

#[test]
fn default_metadata_fields() {
    let meta = Metadata::default_meta();
    assert!(meta.is_valid());
    assert_eq!(meta.spec, "ft-1.0.0");
    assert_eq!(meta.name, "Chain Abstraction ETH");
    assert_eq!(meta.symbol, "caETH");
    assert_eq!(meta.icon.as_deref(), Some(DATA_IMAGE_SVG_NEAR_ICON));
    assert_eq!(meta.reference, None);
    assert_eq!(meta.reference_hash, None);
    assert_eq!(meta.decimals, 24);
    let contract = Contract::new_default_meta("alice", 1);
    assert_eq!(contract.ft_metadata(), Ok(&meta));
}

#[test]
fn register_twice_refunds_whole_payment() {
    let mut contract = alice_with_million();
    assert_eq!(
        contract.storage_deposit("bob", SLOT_COST),
        Ok(StorageReceipt { changed: true, refund: 0 })
    );
    assert_eq!(
        contract.storage_deposit("bob", SLOT_COST),
        Ok(StorageReceipt { changed: false, refund: SLOT_COST })
    );
    assert_eq!(contract.ft_balance_of("bob"), 0);
    assert_eq!(contract.ft_total_supply(), 1_000_000);
}

#[test]
fn register_refunds_excess_and_rejects_short_payment() {
    let mut contract = alice_with_million();
    assert_eq!(
        contract.storage_deposit("bob", SLOT_COST - 1),
        Err(LedgerError::InsufficientStorageDeposit)
    );
    assert_eq!(contract.storage_balance_of("bob"), None);
    assert_eq!(
        contract.storage_deposit("alice", 0),
        Err(LedgerError::InsufficientStorageDeposit)
    );
    assert_eq!(
        contract.storage_deposit("bob", SLOT_COST + 42),
        Ok(StorageReceipt { changed: true, refund: 42 })
    );
    assert_eq!(
        contract.storage_balance_of("bob"),
        Some(StorageBalance { total: SLOT_COST, available: 0 })
    );
    assert_eq!(
        contract.storage_deposit("carol", u128::MAX),
        Ok(StorageReceipt { changed: true, refund: u128::MAX - SLOT_COST })
    );
}

#[test]
fn storage_bounds_are_the_slot_cost() {
    let contract = alice_with_million();
    let bounds = contract.storage_balance_bounds();
    assert_eq!(bounds.min, SLOT_COST);
    assert_eq!(bounds.max, Some(SLOT_COST));
}

#[test]
fn transfer_moves_tokens_and_keeps_supply() {
    let mut contract = alice_and_bob();
    assert_eq!(contract.ft_transfer("alice", "bob", 300_000, None), Ok(()));
    assert_eq!(contract.ft_balance_of("alice"), 700_000);
    assert_eq!(contract.ft_balance_of("bob"), 300_000);
    assert_eq!(contract.ft_total_supply(), 1_000_000);
    assert_eq!(
        contract.events().last(),
        Some(&Event::Transfer {
            sender: "alice".to_string(),
            receiver: "bob".to_string(),
            amount: 300_000,
            memo: None,
        })
    );
}

#[test]
fn transfer_keeps_memo_in_event() {
    let mut contract = alice_and_bob();
    contract.ft_transfer("alice", "bob", 5, Some("rent".to_string())).unwrap();
    assert_eq!(
        contract.events().last(),
        Some(&Event::Transfer {
            sender: "alice".to_string(),
            receiver: "bob".to_string(),
            amount: 5,
            memo: Some("rent".to_string()),
        })
    );
    assert_eq!(contract.events().len(), 2);
}

#[test]
fn transfer_to_unregistered_receiver_fails() {
    let mut contract = alice_and_bob();
    assert_eq!(
        contract.ft_transfer("alice", "carol", 100, None),
        Err(LedgerError::ReceiverNotRegistered)
    );
    assert_eq!(contract.ft_balance_of("alice"), 1_000_000);
    assert_eq!(contract.ft_balance_of("carol"), 0);
    assert_eq!(contract.ft_total_supply(), 1_000_000);
    assert_eq!(contract.events().len(), 1);
}

#[test]
fn transfer_of_zero_fails() {
    let mut contract = alice_and_bob();
    assert_eq!(contract.ft_transfer("alice", "bob", 0, None), Err(LedgerError::MustBePositive));
    assert_eq!(contract.ft_transfer("alice", "alice", 0, None), Err(LedgerError::MustBePositive));
    assert_eq!(contract.ft_transfer("carol", "dave", 0, None), Err(LedgerError::MustBePositive));
    assert_eq!(contract.ft_balance_of("alice"), 1_000_000);
}

#[test]
fn transfer_of_whole_balance_leaves_zero() {
    let mut contract = alice_and_bob();
    assert_eq!(contract.ft_transfer("alice", "bob", 1_000_000, None), Ok(()));
    assert_eq!(contract.ft_balance_of("alice"), 0);
    assert_eq!(contract.ft_balance_of("bob"), 1_000_000);
    assert_eq!(contract.ft_total_supply(), 1_000_000);
}

#[test]
fn transfer_errors_in_order() {
    let mut contract = alice_and_bob();
    assert_eq!(contract.ft_transfer("alice", "alice", 1, None), Err(LedgerError::SelfTransfer));
    assert_eq!(contract.ft_transfer("carol", "carol", 1, None), Err(LedgerError::SelfTransfer));
    assert_eq!(contract.ft_transfer("carol", "bob", 1, None), Err(LedgerError::NotRegistered));
    assert_eq!(
        contract.ft_transfer("alice", "bob", 1_000_001, None),
        Err(LedgerError::InsufficientBalance)
    );
    assert_eq!(
        contract.ft_transfer("alice", "carol", 1_000_001, None),
        Err(LedgerError::InsufficientBalance)
    );
    assert_eq!(contract.ft_transfer("bob", "alice", 1, None), Err(LedgerError::InsufficientBalance));
    assert_eq!(contract.events().len(), 1);
}

#[test]
fn unregister_with_balance_needs_force() {
    let mut contract = alice_and_bob();
    contract.ft_transfer("alice", "bob", 300_000, None).unwrap();
    assert_eq!(contract.storage_unregister("bob", false), Err(LedgerError::NonZeroBalance));
    assert_eq!(contract.ft_balance_of("bob"), 300_000);
    assert_eq!(contract.ft_balance_of("alice"), 700_000);
    assert_eq!(contract.ft_total_supply(), 1_000_000);
    assert_eq!(contract.events().len(), 2);

    assert_eq!(
        contract.storage_unregister("bob", true),
        Ok(StorageReceipt { changed: true, refund: SLOT_COST })
    );
    assert_eq!(contract.ft_balance_of("bob"), 0);
    assert_eq!(contract.storage_balance_of("bob"), None);
    assert_eq!(contract.ft_total_supply(), 700_000);
    assert_eq!(
        contract.events().last(),
        Some(&Event::Burn {
            owner: "bob".to_string(),
            amount: 300_000,
            memo: Some("Account closed".to_string()),
        })
    );
}

#[test]
fn unregister_empty_account_and_unknown_account() {
    let mut contract = alice_and_bob();
    assert_eq!(contract.storage_unregister("carol", false), Err(LedgerError::NotRegistered));
    assert_eq!(contract.storage_unregister("carol", true), Err(LedgerError::NotRegistered));
    assert_eq!(
        contract.storage_unregister("bob", false),
        Ok(StorageReceipt { changed: true, refund: SLOT_COST })
    );
    assert_eq!(contract.events().len(), 1);
    assert_eq!(contract.ft_total_supply(), 1_000_000);
    assert_eq!(
        contract.ft_transfer("alice", "bob", 1, None),
        Err(LedgerError::ReceiverNotRegistered)
    );
}

#[test]
fn mint_needs_authorised_caller() {
    let mut contract = alice_and_bob();
    assert_eq!(contract.mint_caeth("bob", "bob", 10), Err(LedgerError::Unauthorized));
    assert_eq!(contract.mint_caeth("mallory", "alice", 10), Err(LedgerError::Unauthorized));
    assert_eq!(contract.mint_caeth("alice", "carol", 10), Err(LedgerError::NotRegistered));
    assert_eq!(contract.mint_caeth("alice", "bob", 10), Ok(()));
    assert_eq!(contract.ft_balance_of("bob"), 10);
    assert_eq!(contract.ft_total_supply(), 1_000_010);
    assert_eq!(
        contract.events().last(),
        Some(&Event::Mint {
            owner: "bob".to_string(),
            amount: 10,
            memo: Some("caETH supply is minted".to_string()),
        })
    );
}

#[test]
fn mint_rejects_supply_overflow() {
    let mut contract = Contract::new_default_meta("alice", u128::MAX - 5);
    contract.storage_deposit("bob", SLOT_COST).unwrap();
    assert_eq!(contract.mint_caeth("alice", "bob", 6), Err(LedgerError::SupplyOverflow));
    assert_eq!(contract.ft_balance_of("bob"), 0);
    assert_eq!(contract.mint_caeth("alice", "bob", 5), Ok(()));
    assert_eq!(contract.ft_total_supply(), u128::MAX);
    assert_eq!(contract.ft_balance_of("bob"), 5);
}

#[test]
fn burn_needs_authorised_caller_and_balance() {
    let mut contract = alice_and_bob();
    contract.ft_transfer("alice", "bob", 100, None).unwrap();
    assert_eq!(contract.burn("bob", "bob", 10), Err(LedgerError::Unauthorized));
    assert_eq!(contract.burn("alice", "carol", 10), Err(LedgerError::NotRegistered));
    assert_eq!(contract.burn("alice", "bob", 101), Err(LedgerError::InsufficientBalance));
    assert_eq!(contract.burn("alice", "bob", 100), Ok(()));
    assert_eq!(contract.ft_balance_of("bob"), 0);
    assert_eq!(contract.ft_total_supply(), 999_900);
    assert_eq!(
        contract.events().last(),
        Some(&Event::Burn { owner: "bob".to_string(), amount: 100, memo: None })
    );
}

#[test]
fn mint_then_burn_restores_balance_and_supply() {
    let mut contract = alice_and_bob();
    contract.ft_transfer("alice", "bob", 250, None).unwrap();
    contract.mint_caeth("alice", "bob", 4_000).unwrap();
    assert_eq!(contract.ft_balance_of("bob"), 4_250);
    assert_eq!(contract.ft_total_supply(), 1_004_000);
    contract.burn("alice", "bob", 4_000).unwrap();
    assert_eq!(contract.ft_balance_of("bob"), 250);
    assert_eq!(contract.ft_balance_of("alice"), 999_750);
    assert_eq!(contract.ft_total_supply(), 1_000_000);
}

#[test]
fn supply_is_sum_of_balances_after_many_calls() {
    let ids = ["alice", "bob", "carol", "dave"];
    let mut contract = alice_and_bob();
    contract.storage_deposit("carol", SLOT_COST).unwrap();
    contract.storage_deposit("dave", SLOT_COST).unwrap();
    assert_eq!(sum_of_balances(&contract, &ids), contract.ft_total_supply());
    contract.ft_transfer("alice", "bob", 123_456, None).unwrap();
    contract.ft_transfer("bob", "carol", 23_456, None).unwrap();
    assert_eq!(sum_of_balances(&contract, &ids), contract.ft_total_supply());
    contract.mint_caeth("alice", "dave", 77).unwrap();
    assert_eq!(sum_of_balances(&contract, &ids), 1_000_077);
    assert_eq!(contract.ft_total_supply(), 1_000_077);
    contract.burn("alice", "carol", 456).unwrap();
    assert_eq!(sum_of_balances(&contract, &ids), contract.ft_total_supply());
    let _ = contract.ft_transfer("dave", "alice", 1_000, None);
    assert_eq!(sum_of_balances(&contract, &ids), contract.ft_total_supply());
    contract.storage_unregister("bob", true).unwrap();
    assert_eq!(contract.ft_balance_of("bob"), 0);
    assert_eq!(sum_of_balances(&contract, &ids), contract.ft_total_supply());
    assert_eq!(contract.ft_total_supply(), 1_000_077 - 456 - 100_000);
}

#[test]
fn restore_puts_a_contract_together_again() {
    let mut contract = alice_and_bob();
    contract.ft_transfer("alice", "bob", 10, None).unwrap();
    let ledger = caeth_ft::ledger::Ledger::from_entries(&contract.ledger().entries()).unwrap();
    let meta = contract.ft_metadata().unwrap().clone();
    let mut again = Contract::restore(ledger, meta.clone(), contract.minters().clone()).unwrap();
    assert!(again.is_initialized());
    assert_eq!(again.ft_balance_of("alice"), 999_990);
    assert_eq!(again.ft_balance_of("bob"), 10);
    assert_eq!(again.ft_total_supply(), 1_000_000);
    assert_eq!(again.ft_metadata(), Ok(&meta));
    assert!(again.is_minter("alice"));
    assert!(!again.is_minter("bob"));
    assert!(again.events().is_empty());
    assert_eq!(
        again.initialize("alice", 1, Metadata::default_meta()),
        Err(LedgerError::AlreadyInitialized)
    );
    assert_eq!(again.mint_caeth("alice", "bob", 1), Ok(()));
    assert_eq!(again.events().len(), 1);
}

#[test]
fn restore_rejects_invalid_metadata() {
    let mut bad = Metadata::default_meta();
    bad.spec = String::new();
    let ledger = caeth_ft::ledger::Ledger::new();
    assert_eq!(
        Contract::restore(ledger, bad, Vec::new()).err(),
        Some(LedgerError::InvalidMetadata)
    );
}

#[test]
fn storage_withdraw_has_nothing_to_hand_out() {
    let contract = alice_and_bob();
    let balance = StorageBalance { total: SLOT_COST, available: 0 };
    assert_eq!(contract.storage_withdraw("bob", None), Ok(balance));
    assert_eq!(contract.storage_withdraw("bob", Some(0)), Ok(balance));
    assert_eq!(contract.storage_withdraw("bob", Some(1)), Err(LedgerError::InsufficientBalance));
    assert_eq!(contract.storage_withdraw("carol", None), Err(LedgerError::NotRegistered));
    assert_eq!(contract.storage_withdraw("carol", Some(1)), Err(LedgerError::NotRegistered));
    assert_eq!(
        Contract::uninitialized().storage_withdraw("bob", None),
        Err(LedgerError::NotInitialized)
    );
}
