use nicks::ledger::Ledger;
use nicks::pallet::Pallet;
use nicks::types::{Config, DispatchError, Error, Event};

fn test_config() -> Config {
    Config { reservation_fee: 5, min_length: 2, max_length: 16 }
}

fn migrated_pallet() -> Pallet {
    let mut pallet = Pallet::new(test_config());
    nicks::migrations::migrate(&mut pallet);
    pallet
}

#[test]
fn fresh_pallet_is_at_version_zero_with_no_count() {
    let pallet = Pallet::new(test_config());
    assert_eq!(pallet.storage_version(), 0);
    assert_eq!(pallet.count_for_names(), None);
    assert!(pallet.realname(1).is_none());
    assert!(pallet.old_name(1).is_none());
}

#[test]
fn set_name_stores_exact_record() {
    let mut pallet = migrated_pallet();
    let mut ledger = Ledger::new();
    ledger.set_balance(1, 100, 0);

    let r = pallet.set_name(&mut ledger, 1, b"John".to_vec(), Some(b"Smith".to_vec()));
    assert_eq!(r, Ok(Event::NameSet(1)));

    let reg = pallet.realname(1).expect("record must exist");
    assert_eq!(reg.nickname.first, b"John".to_vec());
    assert_eq!(reg.nickname.last, Some(b"Smith".to_vec()));
    assert_eq!(reg.deposit, 5);
    assert_eq!(ledger.free_balance(1), 95);
    assert_eq!(ledger.reserved_balance(1), 5);
    assert_eq!(pallet.count_for_names(), Some(1));
}

#[test]
fn set_name_without_last_part() {
    let mut pallet = migrated_pallet();
    let mut ledger = Ledger::new();
    ledger.set_balance(2, 10, 0);

    let r = pallet.set_name(&mut ledger, 2, b"Cher".to_vec(), None);
    assert_eq!(r, Ok(Event::NameSet(2)));
    let reg = pallet.realname(2).expect("record must exist");
    assert_eq!(reg.nickname.first, b"Cher".to_vec());
    assert_eq!(reg.nickname.last, None);
}

#[test]
fn too_long_name_is_rejected_without_any_change() {
    let mut pallet = migrated_pallet();
    let mut ledger = Ledger::new();
    ledger.set_balance(1, 100, 0);

    // combined length 17 > max_length 16
    let r = pallet.set_name(&mut ledger, 1, vec![b'a'; 9], Some(vec![b'b'; 8]));
    assert_eq!(r, Err(DispatchError::Module(Error::TooLong)));
    assert!(pallet.realname(1).is_none());
    assert_eq!(pallet.count_for_names(), Some(0));
    assert_eq!(ledger.free_balance(1), 100);
    assert_eq!(ledger.reserved_balance(1), 0);
}

#[test]
fn combined_length_at_maximum_is_accepted() {
    let mut pallet = migrated_pallet();
    let mut ledger = Ledger::new();
    ledger.set_balance(1, 100, 0);

    // combined length exactly 16
    let r = pallet.set_name(&mut ledger, 1, vec![b'a'; 8], Some(vec![b'b'; 8]));
    assert_eq!(r, Ok(Event::NameSet(1)));
}

#[test]
fn current_schema_accepts_a_name_below_the_minimum() {
    // The old schema enforced min_length; the current schema's validation
    // checks the maximum only.
    let mut pallet = migrated_pallet();
    let mut ledger = Ledger::new();
    ledger.set_balance(1, 100, 0);

    let r = pallet.set_name(&mut ledger, 1, b"J".to_vec(), None);
    assert_eq!(r, Ok(Event::NameSet(1)));
}

#[test]
fn deposit_is_reserved_only_once() {
    let mut pallet = migrated_pallet();
    let mut ledger = Ledger::new();
    ledger.set_balance(1, 100, 0);

    let first = pallet.set_name(&mut ledger, 1, b"John".to_vec(), Some(b"Smith".to_vec()));
    assert_eq!(first, Ok(Event::NameSet(1)));
    let reserved_after_first = ledger.reserved_balance(1);

    let second = pallet.set_name(&mut ledger, 1, b"Jane".to_vec(), Some(b"Doe".to_vec()));
    assert_eq!(second, Ok(Event::NameChanged(1)));
    assert_eq!(ledger.reserved_balance(1), reserved_after_first);
    assert_eq!(ledger.free_balance(1), 95);

    let reg = pallet.realname(1).expect("record must exist");
    assert_eq!(reg.nickname.first, b"Jane".to_vec());
    assert_eq!(reg.nickname.last, Some(b"Doe".to_vec()));
    assert_eq!(reg.deposit, 5);
    // updating does not grow the count
    assert_eq!(pallet.count_for_names(), Some(1));
}

#[test]
fn reservation_failure_aborts_with_no_state_change() {
    let mut pallet = migrated_pallet();
    let mut ledger = Ledger::new();
    ledger.set_balance(1, 4, 0); // below the fee of 5

    let r = pallet.set_name(&mut ledger, 1, b"John".to_vec(), None);
    assert_eq!(r, Err(DispatchError::InsufficientBalance));
    assert!(pallet.realname(1).is_none());
    assert_eq!(pallet.count_for_names(), Some(0));
    assert_eq!(ledger.free_balance(1), 4);
    assert_eq!(ledger.reserved_balance(1), 0);
}

#[test]
fn count_at_maximum_rejects_a_new_insertion() {
    let mut pallet = migrated_pallet();
    let mut ledger = Ledger::new();
    ledger.set_balance(1, 100, 0);
    pallet.put_count_for_names(u32::MAX);

    let r = pallet.set_name(&mut ledger, 1, b"John".to_vec(), None);
    assert_eq!(r, Err(DispatchError::Module(Error::StorageOverflow)));
    assert!(pallet.realname(1).is_none());
    assert_eq!(pallet.count_for_names(), Some(u32::MAX));
    assert_eq!(ledger.free_balance(1), 100);
    assert_eq!(ledger.reserved_balance(1), 0);
}

#[test]
fn count_at_maximum_still_allows_updates() {
    let mut pallet = migrated_pallet();
    let mut ledger = Ledger::new();
    ledger.set_balance(1, 100, 0);

    assert_eq!(pallet.set_name(&mut ledger, 1, b"John".to_vec(), None), Ok(Event::NameSet(1)));
    pallet.put_count_for_names(u32::MAX);
    let r = pallet.set_name(&mut ledger, 1, b"Jane".to_vec(), None);
    assert_eq!(r, Ok(Event::NameChanged(1)));
    assert_eq!(pallet.count_for_names(), Some(u32::MAX));
}

#[test]
fn old_schema_rejects_short_and_long_names() {
    let mut pallet = Pallet::new(test_config());
    let mut ledger = Ledger::new();
    ledger.set_balance(1, 100, 0);

    let short = pallet.set_name_v0(&mut ledger, 1, b"J".to_vec());
    assert_eq!(short, Err(DispatchError::Module(Error::TooShort)));
    let long = pallet.set_name_v0(&mut ledger, 1, vec![b'a'; 17]);
    assert_eq!(long, Err(DispatchError::Module(Error::TooLong)));
    assert!(pallet.old_name(1).is_none());
    assert_eq!(ledger.reserved_balance(1), 0);
}

#[test]
fn old_schema_reserves_once_and_updates_in_place() {
    let mut pallet = Pallet::new(test_config());
    let mut ledger = Ledger::new();
    ledger.set_balance(1, 100, 0);

    assert_eq!(
        pallet.set_name_v0(&mut ledger, 1, b"John Smith".to_vec()),
        Ok(Event::NameSet(1))
    );
    assert_eq!(ledger.reserved_balance(1), 5);
    assert_eq!(
        pallet.set_name_v0(&mut ledger, 1, b"Jane Doe".to_vec()),
        Ok(Event::NameChanged(1))
    );
    assert_eq!(ledger.reserved_balance(1), 5);
    let rec = pallet.old_name(1).expect("record must exist");
    assert_eq!(rec.name, b"Jane Doe".to_vec());
    assert_eq!(rec.deposit, 5);
}

#[test]
fn ledger_reserve_moves_free_into_reserved() {
    let mut ledger = Ledger::new();
    ledger.set_balance(9, 7, 1);
    assert!(ledger.can_reserve(9, 7));
    assert!(!ledger.can_reserve(9, 8));
    assert_eq!(ledger.reserve(9, 7), Ok(()));
    assert_eq!(ledger.free_balance(9), 0);
    assert_eq!(ledger.reserved_balance(9), 8);
    assert_eq!(ledger.reserve(9, 1), Err(DispatchError::InsufficientBalance));
    assert_eq!(ledger.free_balance(9), 0);
    assert_eq!(ledger.reserved_balance(9), 8);
}

#[test]
fn unknown_accounts_hold_nothing() {
    let ledger = Ledger::new();
    assert_eq!(ledger.free_balance(42), 0);
    assert_eq!(ledger.reserved_balance(42), 0);
    assert!(ledger.can_reserve(42, 0));
    assert!(!ledger.can_reserve(42, 1));
}
