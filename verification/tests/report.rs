use kuhn_cfr::store::InformationSetStore;

fn filled(order: &[(i32, &str)]) -> InformationSetStore<String> {
    let mut store = InformationSetStore::new();
    for (card, history) in order {
        store.get_or_create(*card, history, format!("{card}/{history}"));
    }
    store
}

fn report(store: &InformationSetStore<String>, player_1: bool) -> Vec<(String, String)> {
    store
        .report_order(player_1)
        .into_iter()
        .map(|id| (store.key(id).to_string(), store.record(id).clone()))
        .collect()
}

const ALL: [(i32, &str); 12] = [
    (0, "rr"), (0, "rrc"), (0, "rrb"), (0, "rrcb"),
    (1, "rr"), (1, "rrc"), (1, "rrb"), (1, "rrcb"),
    (2, "rr"), (2, "rrc"), (2, "rrb"), (2, "rrcb"),
];

#[test]
fn an_empty_store_reports_nothing() {
    let store: InformationSetStore<String> = InformationSetStore::new();
    assert!(store.report_order(true).is_empty());
    assert!(store.report_order(false).is_empty());
}

#[test]
fn each_player_gets_its_own_keys_sorted() {
    let store = filled(&[(2, "rr"), (0, "rrcb"), (1, "rrc"), (0, "rr"), (2, "rrb"), (1, "rrb")]);
    let keys = |player_1: bool| -> Vec<String> {
        report(&store, player_1).into_iter().map(|(key, _)| key).collect()
    };
    assert_eq!(keys(true), vec!["J rr", "J rrcb", "K rr"]);
    assert_eq!(keys(false), vec!["K rrb", "Q rrb", "Q rrc"]);
}

#[test]
fn report_order_gives_ids() {
    let store = filled(&[(2, "rr"), (0, "rrcb"), (1, "rrc"), (0, "rr"), (2, "rrb"), (1, "rrb")]);
    assert_eq!(store.report_order(true), vec![3, 1, 0]);
    assert_eq!(store.report_order(false), vec![4, 5, 2]);
}

#[test]
fn the_whole_game_in_order() {
    let store = filled(&ALL);
    let keys = |player_1: bool| -> Vec<String> {
        report(&store, player_1).into_iter().map(|(key, _)| key).collect()
    };
    assert_eq!(keys(true), vec!["J rr", "J rrcb", "K rr", "K rrcb", "Q rr", "Q rrcb"]);
    assert_eq!(keys(false), vec!["J rrb", "J rrc", "K rrb", "K rrc", "Q rrb", "Q rrc"]);
}

#[test]
fn every_record_is_reported_once() {
    let store = filled(&ALL);
    let mut ids = store.report_order(true);
    ids.extend(store.report_order(false));
    ids.sort();
    assert_eq!(ids, (0..store.len()).collect::<Vec<usize>>());
}

#[test]
fn the_report_does_not_depend_on_the_order_of_making() {
    let forward = filled(&ALL);
    let mut reversed_order = ALL;
    reversed_order.reverse();
    let backward = filled(&reversed_order);
    let mut shuffled_order = ALL;
    shuffled_order.swap(0, 7);
    shuffled_order.swap(3, 10);
    shuffled_order.swap(5, 1);
    let shuffled = filled(&shuffled_order);
    for player_1 in [true, false] {
        assert_eq!(report(&forward, player_1), report(&backward, player_1));
        assert_eq!(report(&forward, player_1), report(&shuffled, player_1));
    }
    assert_ne!(forward.report_order(true), backward.report_order(true));
}

#[test]
fn asking_twice_gives_the_same_report() {
    let store = filled(&ALL);
    assert_eq!(store.report_order(true), store.report_order(true));
    assert_eq!(store.report_order(false), store.report_order(false));
}

#[test]
fn keys_are_told_apart_by_their_length_in_characters() {
    let store = filled(&[(0, "é"), (0, "éé")]);
    assert_eq!(store.report_order(true), vec![1]);
    assert_eq!(store.report_order(false), vec![0]);
}
