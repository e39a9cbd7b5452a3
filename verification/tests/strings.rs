use o5m_stream::DecodeError;
use o5m_stream::StringTable;

fn pair_of(i: u32) -> (Vec<u8>, Vec<u8>) {
    (format!("key{}", i).into_bytes(), format!("value{}", i).into_bytes())
}

fn owned(found: Result<(&[u8], &[u8]), DecodeError>) -> Result<(Vec<u8>, Vec<u8>), DecodeError> {
    found.map(|(first, second)| (first.to_vec(), second.to_vec()))
}

#[test]
fn empty_table_has_nothing() {
    let table = StringTable::new();
    assert_eq!(table.len(), 0);
    assert_eq!(owned(table.lookup(1)), Err(DecodeError::StringUnavailable { index: 1 }));
    assert_eq!(owned(table.lookup(0)), Err(DecodeError::StringUnavailable { index: 0 }));
}

#[test]
fn newest_pair_has_index_one() {
    let mut table = StringTable::new();
    table.insert_if_eligible(b"a", b"1");
    table.insert_if_eligible(b"b", b"2");
    table.insert_if_eligible(b"c", b"3");
    assert_eq!(table.len(), 3);
    assert_eq!(owned(table.lookup(1)), Ok((b"c".to_vec(), b"3".to_vec())));
    assert_eq!(owned(table.lookup(2)), Ok((b"b".to_vec(), b"2".to_vec())));
    assert_eq!(owned(table.lookup(3)), Ok((b"a".to_vec(), b"1".to_vec())));
    assert_eq!(owned(table.lookup(4)), Err(DecodeError::StringUnavailable { index: 4 }));
    assert_eq!(
        owned(table.lookup(u64::MAX)),
        Err(DecodeError::StringUnavailable { index: u64::MAX })
    );
}

#[test]
fn pair_of_250_bytes_is_cached() {
    let mut table = StringTable::new();
    let first = vec![b'k'; 100];
    let second = vec![b'v'; 150];
    table.insert_if_eligible(&first, &second);
    assert_eq!(table.len(), 1);
    assert_eq!(owned(table.lookup(1)), Ok((first, second)));
}

#[test]
fn pair_of_251_bytes_is_not_cached() {
    let mut table = StringTable::new();
    let first = vec![b'k'; 100];
    let second = vec![b'v'; 151];
    table.insert_if_eligible(&first, &second);
    assert_eq!(table.len(), 0);
    assert_eq!(owned(table.lookup(1)), Err(DecodeError::StringUnavailable { index: 1 }));
}

#[test]
fn long_pair_leaves_older_pairs_in_place() {
    let mut table = StringTable::new();
    table.insert_if_eligible(b"a", b"1");
    table.insert_if_eligible(&vec![b'x'; 251], b"");
    table.insert_if_eligible(b"", &vec![b'x'; 251]);
    assert_eq!(table.len(), 1);
    assert_eq!(owned(table.lookup(1)), Ok((b"a".to_vec(), b"1".to_vec())));
}

#[test]
fn table_holds_15000_pairs() {
    let mut table = StringTable::new();
    for i in 0..15_000 {
        let (first, second) = pair_of(i);
        table.insert_if_eligible(&first, &second);
    }
    assert_eq!(table.len(), 15_000);
    assert_eq!(owned(table.lookup(15_000)), Ok(pair_of(0)));
    assert_eq!(owned(table.lookup(1)), Ok(pair_of(14_999)));
}

#[test]
fn pair_15001_evicts_the_first() {
    let mut table = StringTable::new();
    for i in 0..15_001 {
        let (first, second) = pair_of(i);
        table.insert_if_eligible(&first, &second);
    }
    assert_eq!(table.len(), 15_000);
    for k in 1..=15_000u32 {
        assert_eq!(owned(table.lookup(k as u64)), Ok(pair_of(15_001 - k)));
    }
    assert_eq!(
        owned(table.lookup(15_001)),
        Err(DecodeError::StringUnavailable { index: 15_001 })
    );
}

#[test]
fn pairs_leave_in_the_order_they_came() {
    let mut table = StringTable::new();
    for i in 0..15_010 {
        let (first, second) = pair_of(i);
        table.insert_if_eligible(&first, &second);
    }
    assert_eq!(table.len(), 15_000);
    assert_eq!(owned(table.lookup(15_000)), Ok(pair_of(10)));
    assert_eq!(owned(table.lookup(1)), Ok(pair_of(15_009)));
}
