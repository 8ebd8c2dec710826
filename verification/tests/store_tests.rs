use svoote::app_error::AppError;
use svoote::live_poll_store::{parse_short_id, LivePollStore, SHORT_ID_END, SHORT_ID_MIN, SHORT_ID_SMALL_END};

#[test]
fn a_stored_poll_is_found_by_id_and_by_host_session() {
    let mut store: LivePollStore<&str> = LivePollStore::new();
    assert!(store.get(1234).is_none());
    let id = store.insert(9, "quiz").ok().unwrap();
    assert!(SHORT_ID_MIN <= id && id < SHORT_ID_SMALL_END);
    assert_eq!(store.get(id), Some(&"quiz"));
    assert_eq!(store.get_by_session_id(9), Some((id, &"quiz")));
    assert!(store.get_by_session_id(10).is_none());
    let id2 = store.insert(10, "other").ok().unwrap();
    assert_ne!(id, id2);
    assert_eq!(store.get(id), Some(&"quiz"));
    store.remove(9, id);
    assert!(store.get(id).is_none());
    assert!(store.get_by_session_id(9).is_none());
    assert_eq!(store.get(id2), Some(&"other"));
}

#[test]
fn ids_come_from_the_first_range_found() {
    let mut store: LivePollStore<u8> = LivePollStore::new();
    assert_eq!(store.insert_with_ids(1, 10, Some(1500), Some(20000)).ok(), Some(1500));
    assert_eq!(store.insert_with_ids(2, 20, None, Some(20000)).ok(), Some(20000));
    match store.insert_with_ids(3, 30, Some(1600), None) {
        Err(AppError::OtherInternalServerError(m)) => assert_eq!(
            m,
            "Could not find a short id (between 1000 and 999 999 while creating a new live quiz."
        ),
        _ => panic!("expected an internal error"),
    }
    assert!(store.get(1600).is_none());
    assert!(store.get_by_session_id(3).is_none());
    assert_eq!(store.get_by_session_id(2), Some((20000, &20)));
}

#[test]
fn free_ids_are_in_range_and_unused() {
    let mut store: LivePollStore<u8> = LivePollStore::new();
    for k in 0..50u32 {
        store.insert_with_ids(k as u128, 0, Some(SHORT_ID_MIN + k), Some(SHORT_ID_SMALL_END)).ok().unwrap();
    }
    for _ in 0..20 {
        let id = store.find_free_id(SHORT_ID_MIN, SHORT_ID_MIN + 60).unwrap();
        assert!(id >= SHORT_ID_MIN + 50 && id < SHORT_ID_MIN + 60);
    }
    let id = store.find_free_id(SHORT_ID_SMALL_END, SHORT_ID_END).unwrap();
    assert!(id >= SHORT_ID_SMALL_END && id < SHORT_ID_END);
    // a range that is all taken gives nothing
    assert!(store.find_free_id(SHORT_ID_MIN, SHORT_ID_MIN + 50).is_none());
}

#[test]
fn join_codes_are_decimal_numbers() {
    assert_eq!(parse_short_id("1234"), Some(1234));
    assert_eq!(parse_short_id("+42"), Some(42));
    assert_eq!(parse_short_id("007"), Some(7));
    assert_eq!(parse_short_id("4294967295"), Some(u32::MAX));
    assert_eq!(parse_short_id("4294967296"), None);
    assert_eq!(parse_short_id("99999999999999999999"), None);
    assert_eq!(parse_short_id(""), None);
    assert_eq!(parse_short_id("+"), None);
    assert_eq!(parse_short_id("-1"), None);
    assert_eq!(parse_short_id(" 12"), None);
    assert_eq!(parse_short_id("12a"), None);
    assert_eq!(parse_short_id("١٢"), None);
    for s in ["0", "+0", "65535", "123456", "+4294967295", "x", "1 2", "++1"] {
        assert_eq!(parse_short_id(s), s.parse::<u32>().ok());
    }
}

#[test]
fn a_range_without_polls_always_gives_an_id() {
    let store: LivePollStore<u8> = LivePollStore::new();
    assert_eq!(store.find_free_id(1000, 1001), Some(1000));
    let mut store: LivePollStore<u8> = LivePollStore::new();
    store.insert_with_ids(1, 0, Some(5000), Some(20000)).ok().unwrap();
    for _ in 0..20 {
        let id = store.find_free_id(SHORT_ID_MIN, SHORT_ID_MIN + 3).unwrap();
        assert!(id >= SHORT_ID_MIN && id < SHORT_ID_MIN + 3);
    }
}

#[test]
fn an_empty_registry_stores_a_poll_under_four_digits() {
    let mut store: LivePollStore<u8> = LivePollStore::new();
    let id = store.insert(1, 9).ok().unwrap();
    assert!(id >= SHORT_ID_MIN && id < SHORT_ID_SMALL_END);
}
