use kuhn_cfr::store::{card_str, info_set_key, InformationSetStore};

#[test]
fn card_letters() {
    assert_eq!(card_str(0), "J");
    assert_eq!(card_str(1), "Q");
    assert_eq!(card_str(2), "K");
}

#[test]
fn any_other_card_is_a_king() {
    assert_eq!(card_str(3), "K");
    assert_eq!(card_str(-1), "K");
    assert_eq!(card_str(i32::MAX), "K");
    assert_eq!(card_str(i32::MIN), "K");
}

#[test]
fn a_key_is_the_letter_a_space_and_the_history() {
    assert_eq!(info_set_key(0, "rrcb"), "J rrcb");
    assert_eq!(info_set_key(1, "rr"), "Q rr");
    assert_eq!(info_set_key(2, "rrb"), "K rrb");
    assert_eq!(info_set_key(2, ""), "K ");
    assert_eq!(info_set_key(0, "é"), "J é");
}

#[test]
fn a_new_store_is_empty() {
    let store: InformationSetStore<u32> = InformationSetStore::new();
    assert_eq!(store.len(), 0);
    assert_eq!(store.find(0, "rr"), None);
}

#[test]
fn a_record_is_made_once() {
    let mut store: InformationSetStore<u32> = InformationSetStore::new();
    let first = store.get_or_create(0, "rr", 10);
    assert_eq!(first, 0);
    assert_eq!(store.len(), 1);
    assert_eq!(*store.record(first), 10);
    assert_eq!(store.key(first), "J rr");

    let again = store.get_or_create(0, "rr", 20);
    assert_eq!(again, first);
    assert_eq!(store.len(), 1);
    assert_eq!(*store.record(first), 10);
}

#[test]
fn ids_count_the_records_in_the_order_they_were_made() {
    let mut store: InformationSetStore<&str> = InformationSetStore::new();
    assert_eq!(store.get_or_create(2, "rr", "a"), 0);
    assert_eq!(store.get_or_create(0, "rrc", "b"), 1);
    assert_eq!(store.get_or_create(2, "rrc", "c"), 2);
    assert_eq!(store.get_or_create(0, "rr", "d"), 3);
    assert_eq!(store.get_or_create(0, "rrc", "e"), 1);
    assert_eq!(store.get_or_create(2, "rr", "f"), 0);
    assert_eq!(store.len(), 4);
    assert_eq!(store.key(0), "K rr");
    assert_eq!(store.key(1), "J rrc");
    assert_eq!(store.key(2), "K rrc");
    assert_eq!(store.key(3), "J rr");
    assert_eq!(*store.record(0), "a");
    assert_eq!(*store.record(1), "b");
    assert_eq!(*store.record(2), "c");
    assert_eq!(*store.record(3), "d");
}

#[test]
fn card_and_history_both_tell_records_apart() {
    let mut store: InformationSetStore<u8> = InformationSetStore::new();
    let a = store.get_or_create(0, "rr", 1);
    let b = store.get_or_create(1, "rr", 2);
    let c = store.get_or_create(0, "rrc", 3);
    assert_ne!(a, b);
    assert_ne!(a, c);
    assert_ne!(b, c);
    assert_eq!(store.find(0, "rr"), Some(a));
    assert_eq!(store.find(1, "rr"), Some(b));
    assert_eq!(store.find(0, "rrc"), Some(c));
    assert_eq!(store.find(1, "rrc"), None);
    assert_eq!(store.find(2, "rr"), None);
}

#[test]
fn cards_with_the_same_letter_share_a_record() {
    let mut store: InformationSetStore<u8> = InformationSetStore::new();
    let king = store.get_or_create(2, "rr", 1);
    assert_eq!(store.get_or_create(7, "rr", 2), king);
    assert_eq!(store.find(-3, "rr"), Some(king));
    assert_eq!(store.len(), 1);
}

#[test]
fn find_makes_nothing() {
    let mut store: InformationSetStore<u8> = InformationSetStore::new();
    store.get_or_create(0, "rr", 1);
    assert_eq!(store.find(1, "rr"), None);
    assert_eq!(store.len(), 1);
}

#[test]
fn record_mut_changes_one_record() {
    let mut store: InformationSetStore<Vec<i64>> = InformationSetStore::new();
    let a = store.get_or_create(0, "rr", vec![0, 0]);
    let b = store.get_or_create(1, "rrc", vec![0, 0]);
    store.record_mut(b)[1] += 5;
    *store.record_mut(a) = vec![7, 8];
    store.record_mut(b)[0] -= 2;
    assert_eq!(*store.record(a), vec![7, 8]);
    assert_eq!(*store.record(b), vec![-2, 5]);
    assert_eq!(store.key(a), "J rr");
    assert_eq!(store.key(b), "Q rrc");
    assert_eq!(store.len(), 2);
}
