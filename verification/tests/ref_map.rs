use tx_executor::metadata::TransactionMetadata;
use tx_executor::ref_map::RefMap;

fn record(unit_sent: u64, signature: u64) -> TransactionMetadata {
    TransactionMetadata { unit_sent, signature }
}

#[test]
fn empty_map_has_nothing() {
    let m: RefMap<TransactionMetadata> = RefMap::new();
    assert_eq!(m.len(), 0);
    assert!(!m.contains_key(1));
    assert_eq!(m.get(1), None);
    assert_eq!(m.keys(), vec![]);
}

#[test]
fn insert_then_get() {
    let mut m: RefMap<TransactionMetadata> = RefMap::new();
    m.insert(1, record(10, 100));
    m.insert(2, record(20, 200));
    assert_eq!(m.len(), 2);
    assert_eq!(m.get(1), Some(record(10, 100)));
    assert_eq!(m.get(2), Some(record(20, 200)));
    assert_eq!(m.get(3), None);
}

#[test]
fn insert_overwrites() {
    let mut m: RefMap<TransactionMetadata> = RefMap::new();
    m.insert(1, record(10, 100));
    m.insert(1, record(11, 101));
    assert_eq!(m.len(), 1);
    assert_eq!(m.get(1), Some(record(11, 101)));
}

#[test]
fn remove_deletes_only_its_key() {
    let mut m: RefMap<TransactionMetadata> = RefMap::new();
    m.insert(1, record(10, 100));
    m.insert(2, record(20, 200));
    m.remove(1);
    assert_eq!(m.len(), 1);
    assert!(!m.contains_key(1));
    assert_eq!(m.get(2), Some(record(20, 200)));
    // Removing an absent key changes nothing.
    m.remove(7);
    assert_eq!(m.len(), 1);
}

#[test]
fn keys_lists_each_key_once() {
    let mut m: RefMap<TransactionMetadata> = RefMap::new();
    m.insert(3, record(1, 1));
    m.insert(1, record(2, 2));
    m.insert(3, record(3, 3));
    let mut ks = m.keys();
    ks.sort();
    assert_eq!(ks, vec![1, 3]);
}
