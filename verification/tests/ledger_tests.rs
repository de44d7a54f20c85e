use caeth_ft::error::LedgerError;
use caeth_ft::ledger::Ledger;

#[test]
fn new_ledger_is_empty() {
    let ledger = Ledger::new();
    assert_eq!(ledger.total_supply(), 0);
    assert_eq!(ledger.account_count(), 0);
    assert_eq!(ledger.balance_of("alice"), 0);
    assert!(!ledger.is_registered("alice"));
}

#[test]
fn register_makes_one_slot_per_account() {
    let mut ledger = Ledger::new();
    assert!(ledger.register("alice"));
    assert!(!ledger.register("alice"));
    assert!(ledger.register("bob"));
    assert_eq!(ledger.account_count(), 2);
    assert!(ledger.is_registered("alice"));
    assert!(ledger.is_registered("bob"));
    assert!(!ledger.is_registered("ali"));
    assert_eq!(ledger.balance_of("alice"), 0);
}

#[test]
fn deposit_and_burn_change_balance_and_supply() {
    let mut ledger = Ledger::new();
    ledger.register("alice");
    assert_eq!(ledger.deposit("bob", 5), Err(LedgerError::NotRegistered));
    assert_eq!(ledger.deposit("alice", 500), Ok(()));
    assert_eq!(ledger.balance_of("alice"), 500);
    assert_eq!(ledger.total_supply(), 500);
    assert_eq!(ledger.burn("alice", 501), Err(LedgerError::InsufficientBalance));
    assert_eq!(ledger.burn("bob", 0), Err(LedgerError::NotRegistered));
    assert_eq!(ledger.burn("alice", 200), Ok(()));
    assert_eq!(ledger.balance_of("alice"), 300);
    assert_eq!(ledger.total_supply(), 300);
    assert_eq!(ledger.deposit("alice", u128::MAX - 299), Err(LedgerError::SupplyOverflow));
    assert_eq!(ledger.deposit("alice", u128::MAX - 300), Ok(()));
    assert_eq!(ledger.balance_of("alice"), u128::MAX);
}

#[test]
fn ledger_transfer_between_accounts() {
    let mut ledger = Ledger::new();
    ledger.register("alice");
    ledger.register("bob");
    ledger.register("carol");
    ledger.deposit("alice", 1_000).unwrap();
    assert_eq!(ledger.transfer("alice", "carol", 400), Ok(()));
    assert_eq!(ledger.transfer("carol", "bob", 150), Ok(()));
    assert_eq!(ledger.balance_of("alice"), 600);
    assert_eq!(ledger.balance_of("bob"), 150);
    assert_eq!(ledger.balance_of("carol"), 250);
    assert_eq!(ledger.total_supply(), 1_000);
    assert_eq!(ledger.transfer("bob", "dave", 150), Err(LedgerError::ReceiverNotRegistered));
    assert_eq!(ledger.transfer("bob", "alice", 151), Err(LedgerError::InsufficientBalance));
    assert_eq!(ledger.balance_of("bob"), 150);
}

#[test]
fn ledger_unregister_removes_slot_and_burns() {
    let mut ledger = Ledger::new();
    ledger.register("alice");
    ledger.register("bob");
    ledger.register("carol");
    ledger.deposit("bob", 70).unwrap();
    ledger.deposit("carol", 30).unwrap();
    assert_eq!(ledger.unregister("dave", true), Err(LedgerError::NotRegistered));
    assert_eq!(ledger.unregister("bob", false), Err(LedgerError::NonZeroBalance));
    assert_eq!(ledger.unregister("alice", false), Ok(0));
    assert_eq!(ledger.unregister("bob", true), Ok(70));
    assert_eq!(ledger.account_count(), 1);
    assert_eq!(ledger.total_supply(), 30);
    assert_eq!(ledger.balance_of("carol"), 30);
    assert_eq!(ledger.balance_of("bob"), 0);
    assert!(ledger.register("bob"));
    assert_eq!(ledger.balance_of("bob"), 0);
}

#[test]
fn entries_list_every_account_once() {
    let mut ledger = Ledger::new();
    ledger.register("alice");
    ledger.register("bob");
    ledger.register("carol");
    ledger.deposit("alice", 9).unwrap();
    ledger.deposit("carol", 4).unwrap();
    ledger.unregister("bob", false).unwrap();
    let mut entries = ledger.entries();
    entries.sort();
    assert_eq!(entries, vec![("alice".to_string(), 9u128), ("carol".to_string(), 4u128)]);
}

#[test]
fn from_entries_rebuilds_the_ledger() {
    let mut ledger = Ledger::new();
    ledger.register("alice");
    ledger.register("bob");
    ledger.deposit("alice", 600).unwrap();
    ledger.deposit("bob", 400).unwrap();
    let rebuilt = Ledger::from_entries(&ledger.entries()).unwrap();
    assert_eq!(rebuilt.total_supply(), 1_000);
    assert_eq!(rebuilt.balance_of("alice"), 600);
    assert_eq!(rebuilt.balance_of("bob"), 400);
    assert_eq!(rebuilt.account_count(), 2);
}

#[test]
fn from_entries_adds_up_repeated_accounts_and_rejects_overflow() {
    let twice = vec![
        ("alice".to_string(), 5u128),
        ("bob".to_string(), 0u128),
        ("alice".to_string(), 7u128),
    ];
    let ledger = Ledger::from_entries(&twice).unwrap();
    assert_eq!(ledger.balance_of("alice"), 12);
    assert!(ledger.is_registered("bob"));
    assert_eq!(ledger.total_supply(), 12);
    assert_eq!(ledger.account_count(), 2);

    let too_much = vec![("alice".to_string(), u128::MAX), ("bob".to_string(), 1u128)];
    assert_eq!(Ledger::from_entries(&too_much).err(), Some(LedgerError::SupplyOverflow));
    let empty: Vec<(String, u128)> = Vec::new();
    assert_eq!(Ledger::from_entries(&empty).unwrap().account_count(), 0);
}
