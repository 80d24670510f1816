use nicks::storage_map::StorageMap;
use nicks::types::OldRecord;

#[test]
fn insert_replaces_and_take_drains() {
    let mut region: StorageMap<OldRecord> = StorageMap::new();
    assert_eq!(region.len(), 0);
    assert!(!region.contains_key(1));

    region.insert(1, OldRecord { name: b"John".to_vec(), deposit: 5 });
    region.insert(2, OldRecord { name: b"Jane".to_vec(), deposit: 7 });
    region.insert(1, OldRecord { name: b"Joan".to_vec(), deposit: 5 });
    assert_eq!(region.len(), 2);
    assert_eq!(region.get(1).map(|r| r.name.clone()), Some(b"Joan".to_vec()));
    assert_eq!(region.get(2).map(|r| r.deposit), Some(7));
    assert!(region.get(3).is_none());

    let mut keys = region.keys();
    keys.sort();
    assert_eq!(keys, vec![1, 2]);

    let taken = region.take(2).expect("entry must exist");
    assert_eq!(taken.name, b"Jane".to_vec());
    assert!(region.take(2).is_none());
    assert_eq!(region.len(), 1);
}
