use email_checker::checkpoint::{decode, encode, CheckpointStore, Marker};

#[test]
fn encode_decode_round_trip() {
    for cp in [None, Some(Marker::new(0, 0)), Some(Marker::new(1_700_000_000, 42)), Some(Marker::new(u64::MAX, u64::MAX - 1))] {
        let bytes = encode(&cp);
        assert_eq!(decode(&bytes), cp);
    }
    assert_eq!(encode(&None), vec![0u8]);
    assert_eq!(encode(&Some(Marker::new(1, 258))), vec![1, 0, 0, 0, 0, 0, 0, 0, 1, 0, 0, 0, 0, 0, 0, 1, 2]);
}

#[test]
fn corrupt_bytes_read_as_none() {
    assert_eq!(decode(&[]), None);
    assert_eq!(decode(&[1, 2, 3]), None);
    let mut torn = encode(&Some(Marker::new(5, 6)));
    torn.pop();
    assert_eq!(decode(&torn), None);
    let mut wrong_tag = encode(&Some(Marker::new(5, 6)));
    wrong_tag[0] = 9;
    assert_eq!(decode(&wrong_tag), None);
}

#[test]
fn save_then_load_returns_saved() {
    let mut store = CheckpointStore::new();
    assert_eq!(store.load(), None);
    let x = Some(Marker::new(100, 3));
    store.save(&x);
    assert_eq!(store.load(), x);
    let reopened = CheckpointStore::from_bytes(store.bytes().clone());
    assert_eq!(reopened.load(), x);
}

#[test]
fn crash_between_saves_keeps_old_or_new() {
    let mut store = CheckpointStore::new();
    let x = Some(Marker::new(100, 3));
    let y = Some(Marker::new(200, 1));
    store.save(&x);
    store.stage(&y);
    store.crash();
    assert_eq!(store.load(), x);
    store.stage(&y);
    assert_eq!(store.load(), x);
    store.commit();
    store.crash();
    assert_eq!(store.load(), y);
}
