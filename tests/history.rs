use cliphist::{
    decode, delete, delete_ids, delete_last, delete_query, list, lookup, store, wipe, Error,
    History, MAX_SIZE,
};

fn ids(h: &History) -> Vec<u64> {
    h.entries().iter().map(|e| e.id).collect()
}

fn payloads(h: &History) -> Vec<Vec<u8>> {
    h.entries().iter().map(|e| e.payload.clone()).collect()
}

#[test]
fn it_works() {
    let result = 4;
    assert_eq!(result, 4);
}

#[test]
fn eviction_keeps_newest_two() {
    let mut h = History::new();
    for p in [b"a", b"b", b"c"] {
        store(&mut h, p, 100, 2).unwrap();
    }
    assert_eq!(ids(&h), vec![2, 3]);
    assert_eq!(payloads(&h), vec![b"b".to_vec(), b"c".to_vec()]);
}

#[test]
fn count_never_exceeds_max_items() {
    let mut h = History::new();
    for i in 0..20u32 {
        store(&mut h, format!("item {}", i).as_bytes(), 100, 5).unwrap();
        assert!(h.len() <= 5);
    }
    assert_eq!(h.len(), 5);
}

#[test]
fn max_size_boundary() {
    let mut h = History::new();
    let exact = vec![b'x'; MAX_SIZE];
    assert_eq!(store(&mut h, &exact, 100, 750), Ok(Some(1)));
    assert_eq!(h.len(), 1);
    let over = vec![b'y'; MAX_SIZE + 1];
    assert_eq!(store(&mut h, &over, 100, 750), Ok(None));
    assert_eq!(h.len(), 1);
    assert_eq!(h.counter(), 1);
}

#[test]
fn whitespace_and_empty_are_skipped() {
    let mut h = History::new();
    assert_eq!(store(&mut h, b" \t\r\n\x0c", 100, 750), Ok(None));
    assert_eq!(store(&mut h, b"", 100, 750), Ok(None));
    assert_eq!(h.len(), 0);
    assert_eq!(h.counter(), 0);
    assert_eq!(store(&mut h, b" a ", 100, 750), Ok(Some(1)));
}

#[test]
fn duplicate_moves_to_newest() {
    let mut h = History::new();
    store(&mut h, b"a", 100, 750).unwrap();
    store(&mut h, b"b", 100, 750).unwrap();
    store(&mut h, b"a", 100, 750).unwrap();
    assert_eq!(ids(&h), vec![2, 3]);
    assert_eq!(payloads(&h), vec![b"b".to_vec(), b"a".to_vec()]);
}

#[test]
fn dedup_scan_covers_one_more_than_bound() {
    // With a bound of 1, two entries are scanned: "a" two back is still found.
    let mut h = History::new();
    store(&mut h, b"a", 1, 750).unwrap();
    store(&mut h, b"b", 1, 750).unwrap();
    store(&mut h, b"a", 1, 750).unwrap();
    assert_eq!(payloads(&h), vec![b"b".to_vec(), b"a".to_vec()]);
    // Three back is out of reach.
    let mut g = History::new();
    for p in [b"a", b"b", b"c", b"a"] {
        store(&mut g, p, 1, 750).unwrap();
    }
    assert_eq!(ids(&g), vec![1, 2, 3, 4]);
}

#[test]
fn ids_grow_after_deletions() {
    let mut h = History::new();
    assert_eq!(store(&mut h, b"one", 100, 750), Ok(Some(1)));
    assert_eq!(store(&mut h, b"two", 100, 750), Ok(Some(2)));
    delete_last(&mut h);
    wipe(&mut h);
    assert_eq!(h.len(), 0);
    assert_eq!(store(&mut h, b"three", 100, 750), Ok(Some(3)));
    assert_eq!(store(&mut h, b"one", 100, 750), Ok(Some(4)));
}

#[test]
fn lookup_after_store() {
    let mut h = History::new();
    let data = b"\x00\x01binary\xff".to_vec();
    let id = store(&mut h, &data, 100, 750).unwrap().unwrap();
    assert_eq!(lookup(&h, id), Ok(data));
    assert_eq!(lookup(&h, id + 1), Err(Error::NotFound(id + 1)));
}

#[test]
fn listing_is_newest_first() {
    let mut h = History::new();
    store(&mut h, b"first", 100, 750).unwrap();
    store(&mut h, b"second", 100, 750).unwrap();
    store(&mut h, b"third   entry", 100, 750).unwrap();
    assert_eq!(
        list(&h, 100),
        vec![
            "3\tthird entry".to_string(),
            "2\tsecond".to_string(),
            "1\tfirst".to_string()
        ]
    );
}

#[test]
fn delete_twice_same_as_once() {
    let mut h = History::new();
    for p in [b"a", b"b", b"c"] {
        store(&mut h, p, 100, 750).unwrap();
    }
    delete_ids(&mut h, &vec![2]);
    let once = ids(&h);
    delete_ids(&mut h, &vec![2]);
    assert_eq!(ids(&h), once);
    assert_eq!(once, vec![1, 3]);
}

#[test]
fn delete_by_lines() {
    let mut h = History::new();
    for p in [b"a", b"b", b"c"] {
        store(&mut h, p, 100, 750).unwrap();
    }
    let lines = vec!["1\ta".to_string(), "3\tc".to_string(), "9\tmissing".to_string()];
    assert_eq!(delete(&mut h, &lines), Ok(()));
    assert_eq!(ids(&h), vec![2]);
    let bad = vec!["2\tb".to_string(), "oops\tx".to_string()];
    assert_eq!(delete(&mut h, &bad), Err(Error::BadId));
    assert_eq!(ids(&h), vec![2]);
}

#[test]
fn empty_query_is_refused() {
    let mut h = History::new();
    store(&mut h, b"hello", 100, 750).unwrap();
    assert_eq!(delete_query(&mut h, b""), Err(Error::EmptyQuery));
    assert_eq!(ids(&h), vec![1]);
}

#[test]
fn query_deletes_matches() {
    let mut h = History::new();
    for p in [&b"hello"[..], b"world", b"yellow"] {
        store(&mut h, p, 100, 750).unwrap();
    }
    assert_eq!(delete_query(&mut h, b"llo"), Ok(()));
    assert_eq!(payloads(&h), vec![b"world".to_vec()]);
}

#[test]
fn delete_last_on_empty_is_noop() {
    let mut h = History::new();
    delete_last(&mut h);
    assert_eq!(h.len(), 0);
    store(&mut h, b"a", 100, 750).unwrap();
    store(&mut h, b"b", 100, 750).unwrap();
    delete_last(&mut h);
    assert_eq!(ids(&h), vec![1]);
}

#[test]
fn decode_line() {
    let mut h = History::new();
    store(&mut h, b"payload", 100, 750).unwrap();
    assert_eq!(decode(&h, "1\tpayload".to_string()), Ok(b"payload".to_vec()));
    assert_eq!(decode(&h, "1".to_string()), Ok(b"payload".to_vec()));
    assert_eq!(decode(&h, "\tpayload".to_string()), Err(Error::MissingId));
    assert_eq!(decode(&h, "x1\tpayload".to_string()), Err(Error::BadId));
    assert_eq!(decode(&h, "5\tpayload".to_string()), Err(Error::NotFound(5)));
}
