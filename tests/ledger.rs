use dickgrowerbot::ledger::{GrowthError, GrowthLedger};

const UID: u64 = 12345;
const CHAT_ID: i64 = -123456789;

#[test]
fn test_all() {
    let mut dicks = GrowthLedger::new();
    let chat_id_1 = CHAT_ID;
    let chat_id_2 = CHAT_ID + 1;
    let uid = UID;

    let stats = dicks.get(uid);
    assert_eq!(stats.chats, 0);
    assert_eq!(stats.max_length, 0);
    assert_eq!(stats.total_length, 0);

    dicks.create_or_grow(uid, chat_id_1, 10)
        .expect("couldn't grow the dick in the first chat");
    dicks.create_or_grow(uid, chat_id_2, 20)
        .expect("couldn't grow the dick in the second chat");

    let stats = dicks.get(uid);
    assert_eq!(stats.chats, 2);
    assert_eq!(stats.max_length, 20);
    assert_eq!(stats.total_length, 30);
}

#[test]
fn growths_of_one_pair_add_up_in_either_order() {
    let mut a = GrowthLedger::new();
    assert_eq!(a.create_or_grow(UID, CHAT_ID, 10), Ok(10));
    assert_eq!(a.create_or_grow(UID, CHAT_ID, 20), Ok(30));
    let mut b = GrowthLedger::new();
    assert_eq!(b.create_or_grow(UID, CHAT_ID, 20), Ok(20));
    assert_eq!(b.create_or_grow(UID, CHAT_ID, 10), Ok(30));
    assert_eq!(a.length(UID, CHAT_ID), 30);
    assert_eq!(b.length(UID, CHAT_ID), 30);
    let stats = a.get(UID);
    assert_eq!((stats.chats, stats.max_length, stats.total_length), (1, 30, 30));
}

#[test]
fn stats_follow_every_growth() {
    let mut ledger = GrowthLedger::new();
    ledger.create_or_grow(UID, 1, 5).unwrap();
    let s = ledger.get(UID);
    assert_eq!((s.chats, s.max_length, s.total_length), (1, 5, 5));
    ledger.create_or_grow(UID, 2, 3).unwrap();
    let s = ledger.get(UID);
    assert_eq!((s.chats, s.max_length, s.total_length), (2, 5, 8));
    ledger.create_or_grow(UID, 2, 4).unwrap();
    let s = ledger.get(UID);
    assert_eq!((s.chats, s.max_length, s.total_length), (2, 7, 12));
    ledger.create_or_grow(UID, 3, 0).unwrap();
    let s = ledger.get(UID);
    assert_eq!((s.chats, s.max_length, s.total_length), (3, 7, 12));
}

#[test]
fn other_users_are_not_counted() {
    let mut ledger = GrowthLedger::new();
    ledger.create_or_grow(UID, CHAT_ID, 10).unwrap();
    ledger.create_or_grow(UID + 1, CHAT_ID, 40).unwrap();
    let s = ledger.get(UID);
    assert_eq!((s.chats, s.max_length, s.total_length), (1, 10, 10));
    let s = ledger.get(UID + 1);
    assert_eq!((s.chats, s.max_length, s.total_length), (1, 40, 40));
    let s = ledger.get(UID + 2);
    assert_eq!((s.chats, s.max_length, s.total_length), (0, 0, 0));
    assert_eq!(ledger.length(UID + 2, CHAT_ID), 0);
}

#[test]
fn negative_growth_is_refused() {
    let mut ledger = GrowthLedger::new();
    assert_eq!(ledger.create_or_grow(UID, CHAT_ID, -1), Err(GrowthError::NegativeDelta));
    assert_eq!(ledger.get(UID).chats, 0);
}

#[test]
fn overflowing_growth_is_refused_and_changes_nothing() {
    let mut ledger = GrowthLedger::new();
    assert_eq!(ledger.create_or_grow(UID, CHAT_ID, i64::MAX), Ok(i64::MAX));
    assert_eq!(ledger.create_or_grow(UID, CHAT_ID, 1), Err(GrowthError::LengthOverflow));
    assert_eq!(ledger.length(UID, CHAT_ID), i64::MAX);
    assert_eq!(ledger.create_or_grow(UID, CHAT_ID + 1, i64::MAX), Ok(i64::MAX));
    let s = ledger.get(UID);
    assert_eq!(s.chats, 2);
    assert_eq!(s.max_length, i64::MAX);
    assert_eq!(s.total_length, 2 * (i64::MAX as i128));
}
