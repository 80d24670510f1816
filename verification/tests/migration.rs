use nicks::ledger::Ledger;
use nicks::migrations::migrate;
use nicks::pallet::Pallet;
use nicks::types::{split_nickname, Config, Event};

fn test_config() -> Config {
    Config { reservation_fee: 5, min_length: 2, max_length: 32 }
}

#[test]
fn empty_store_migrates_to_count_zero() {
    let mut pallet = Pallet::new(test_config());
    migrate(&mut pallet);
    assert_eq!(pallet.storage_version(), 1);
    assert_eq!(pallet.count_for_names(), Some(0));
    assert!(pallet.realname(1).is_none());
}

#[test]
fn migration_splits_at_the_last_separator() {
    let mut pallet = Pallet::new(test_config());
    let mut ledger = Ledger::new();
    ledger.set_balance(1, 100, 0);
    ledger.set_balance(2, 100, 0);

    assert_eq!(
        pallet.set_name_v0(&mut ledger, 1, b"John Smith".to_vec()),
        Ok(Event::NameSet(1))
    );
    assert_eq!(pallet.set_name_v0(&mut ledger, 2, b"Cher".to_vec()), Ok(Event::NameSet(2)));

    migrate(&mut pallet);

    let john = pallet.realname(1).expect("record must exist");
    assert_eq!(john.nickname.first, b"John".to_vec());
    assert_eq!(john.nickname.last, Some(b"Smith".to_vec()));

    let cher = pallet.realname(2).expect("record must exist");
    assert_eq!(cher.nickname.first, b"Cher".to_vec());
    assert_eq!(cher.nickname.last, None);
}

#[test]
fn migration_counts_records_and_keeps_deposits() {
    let mut pallet = Pallet::new(test_config());
    let mut ledger = Ledger::new();
    for who in 1..=3u64 {
        ledger.set_balance(who, 100, 0);
        let name = format!("Holder {}", who).into_bytes();
        assert_eq!(pallet.set_name_v0(&mut ledger, who, name), Ok(Event::NameSet(who)));
    }

    migrate(&mut pallet);

    assert_eq!(pallet.count_for_names(), Some(3));
    for who in 1..=3u64 {
        // the old region is drained, the record re-keyed under the same
        // identifier with its deposit carried over
        assert!(pallet.old_name(who).is_none());
        let reg = pallet.realname(who).expect("record must exist");
        assert_eq!(reg.deposit, 5);
        assert_eq!(reg.nickname.first, b"Holder".to_vec());
        assert_eq!(reg.nickname.last, Some(who.to_string().into_bytes()));
        // the deposit is still reserved, not re-reserved
        assert_eq!(ledger.reserved_balance(who), 5);
    }
}

#[test]
fn migration_is_idempotent_at_the_version_level() {
    let mut pallet = Pallet::new(test_config());
    let mut ledger = Ledger::new();
    ledger.set_balance(1, 100, 0);
    assert_eq!(
        pallet.set_name_v0(&mut ledger, 1, b"John Smith".to_vec()),
        Ok(Event::NameSet(1))
    );

    migrate(&mut pallet);
    let record_after_first = pallet.realname(1).cloned();
    let count_after_first = pallet.count_for_names();

    migrate(&mut pallet);
    assert_eq!(pallet.storage_version(), 1);
    assert_eq!(pallet.realname(1).cloned(), record_after_first);
    assert_eq!(pallet.count_for_names(), count_after_first);
}

#[test]
fn records_set_after_migration_grow_the_count() {
    let mut pallet = Pallet::new(test_config());
    let mut ledger = Ledger::new();
    ledger.set_balance(1, 100, 0);
    ledger.set_balance(2, 100, 0);
    assert_eq!(pallet.set_name_v0(&mut ledger, 1, b"Old Holder".to_vec()), Ok(Event::NameSet(1)));

    migrate(&mut pallet);
    assert_eq!(pallet.count_for_names(), Some(1));

    assert_eq!(
        pallet.set_name(&mut ledger, 2, b"New".to_vec(), Some(b"Holder".to_vec())),
        Ok(Event::NameSet(2))
    );
    assert_eq!(pallet.count_for_names(), Some(2));
}

#[test]
fn split_takes_the_last_separator_of_several() {
    let nick = split_nickname(b"Anna Maria Jones".to_vec());
    assert_eq!(nick.first, b"Anna Maria".to_vec());
    assert_eq!(nick.last, Some(b"Jones".to_vec()));
}

#[test]
fn split_of_an_empty_name_has_no_last_part() {
    let nick = split_nickname(Vec::new());
    assert_eq!(nick.first, Vec::<u8>::new());
    assert_eq!(nick.last, None);
}

#[test]
fn split_with_a_trailing_separator_yields_an_empty_last_part() {
    let nick = split_nickname(b"John ".to_vec());
    assert_eq!(nick.first, b"John".to_vec());
    assert_eq!(nick.last, Some(Vec::new()));
}

#[test]
fn split_with_a_leading_separator_yields_an_empty_first_part() {
    let nick = split_nickname(b" Smith".to_vec());
    assert_eq!(nick.first, Vec::<u8>::new());
    assert_eq!(nick.last, Some(b"Smith".to_vec()));
}
