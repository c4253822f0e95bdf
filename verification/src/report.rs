//! The order of a report: each player's information sets, sorted by key.

use vstd::prelude::*;
use vstd::string::*;
use crate::game_tree::is_player_1_spec;
use crate::store::{info_set_key_spec, lemma_key_identifies, InformationSetStore};
use crate::text::{lemma_text_lt_asymmetric, lemma_text_lt_total, lemma_text_lt_transitive, text_before, text_lt};

verus! {

/// Whether the information set of `key` is one of player 1. A key and its
/// history have the same parity, so player 1's keys have an even length.
pub open spec fn key_is_player_1(key: Seq<char>) -> bool {
    key.len() % 2 == 0
}

/// The key of an information set is one of player 1 exactly if player 1 is
/// the one to act at its history.
pub proof fn lemma_key_keeps_the_turn(card: int, history: Seq<char>)
    ensures
        key_is_player_1(info_set_key_spec(card, history)) == is_player_1_spec(history),
{
    lemma_key_identifies(card, history, card, history);
}

/// Each text is before every later one.
pub open spec fn strictly_sorted(texts: Seq<Seq<char>>) -> bool {
    forall|i: int, j: int| 0 <= i < j < texts.len() ==> text_lt(#[trigger] texts[i], #[trigger] texts[j])
}

/// The keys of the records `ids`, in the order of `ids`.
pub open spec fn reported_keys(keys: Seq<Seq<char>>, ids: Seq<usize>) -> Seq<Seq<char>> {
    Seq::new(ids.len(), |i: int| keys[ids[i] as int])
}

/// `ids` lists, sorted by key, the ids below `count` whose keys are of the
/// given player, and nothing else.
pub open spec fn is_report_of_first(
    keys: Seq<Seq<char>>,
    count: int,
    ids: Seq<usize>,
    player_1: bool,
) -> bool {
    &&& forall|i: int|
        0 <= i < ids.len() ==> (#[trigger] ids[i]) < count && key_is_player_1(keys[ids[i] as int])
            == player_1
    &&& forall|id: usize|
        id < count && key_is_player_1(#[trigger] keys[id as int]) == player_1 ==> ids.contains(id)
    &&& strictly_sorted(reported_keys(keys, ids))
}

/// `ids` is the report of one player: the ids of all records whose keys are
/// that player's, sorted by key.
pub open spec fn is_report(keys: Seq<Seq<char>>, ids: Seq<usize>, player_1: bool) -> bool {
    &&& keys.len() <= usize::MAX
    &&& is_report_of_first(keys, keys.len() as int, ids, player_1)
}

/// Putting a new id at the place where its key belongs keeps a report a report.
proof fn lemma_insert_keeps_report(
    keys: Seq<Seq<char>>,
    id: usize,
    ids: Seq<usize>,
    place: int,
    player_1: bool,
)
    requires
        keys.no_duplicates(),
        id < keys.len(),
        is_report_of_first(keys, id as int, ids, player_1),
        key_is_player_1(keys[id as int]) == player_1,
        0 <= place <= ids.len(),
        forall|k: int| 0 <= k < place ==> text_lt(keys[#[trigger] ids[k] as int], keys[id as int]),
        place < ids.len() ==> !text_lt(keys[ids[place] as int], keys[id as int]),
    ensures
        is_report_of_first(keys, id + 1, ids.insert(place, id), player_1),
{
    let key = keys[id as int];
    let longer = ids.insert(place, id);
    ids.insert_ensures(place, id);
    let old_keys = reported_keys(keys, ids);
    let new_keys = reported_keys(keys, longer);
    assert forall|k: int| place <= k < ids.len() implies text_lt(key, keys[#[trigger] ids[k] as int]) by {
        let at_place = keys[ids[place] as int];
        assert(ids[place] < id);
        lemma_text_lt_total(at_place, key);
        if place < k {
            assert(text_lt(old_keys[place], old_keys[k]));
            lemma_text_lt_transitive(key, at_place, keys[ids[k] as int]);
        }
    }
    assert forall|i: int, j: int| 0 <= i < j < new_keys.len() implies text_lt(
        #[trigger] new_keys[i],
        #[trigger] new_keys[j],
    ) by {
        if j < place {
            assert(text_lt(old_keys[i], old_keys[j]));
        } else if j == place {
            assert(longer[i] == ids[i]);
        } else if i < place {
            assert(longer[j] == ids[j - 1]);
            assert(text_lt(old_keys[i], old_keys[j - 1]));
        } else if i == place {
            assert(longer[j] == ids[j - 1]);
        } else {
            assert(longer[i] == ids[i - 1]);
            assert(longer[j] == ids[j - 1]);
            assert(text_lt(old_keys[i - 1], old_keys[j - 1]));
        }
    }
    assert forall|x: usize| x < id + 1 && key_is_player_1(#[trigger] keys[x as int]) == player_1 implies longer.contains(
        x,
    ) by {
        if x == id {
            assert(longer[place] == id);
        } else {
            assert(ids.contains(x));
            let at = choose|i: int| 0 <= i < ids.len() && ids[i] == x;
            if at < place {
                assert(longer[at] == x);
            } else {
                assert(longer[at + 1] == x);
            }
        }
    }
    assert forall|i: int| 0 <= i < longer.len() implies (#[trigger] longer[i]) < id + 1 && key_is_player_1(
        keys[longer[i] as int],
    ) == player_1 by {
        if i < place {
            assert(longer[i] == ids[i]);
        } else if i > place {
            assert(longer[i] == ids[i - 1]);
        }
    }
}

impl<R> InformationSetStore<R> {
    /// The ids of one player's records in the order of their keys: player 1's
    /// where `player_1` holds, player 2's where it does not.
    pub fn report_order(&self, player_1: bool) -> (ids: Vec<usize>)
        requires
            self.wf(),
        ensures
            is_report(self.keys(), ids@, player_1),
    {
        let mut ids: Vec<usize> = Vec::new();
        let count = self.len();
        let mut id: usize = 0;
        while id < count
            invariant
                self.wf(),
                count == self.keys().len(),
                id <= count,
                is_report_of_first(self.keys(), id as int, ids@, player_1),
            decreases count - id,
        {
            let key = self.key(id);
            if (key.unicode_len() % 2 == 0) == player_1 {
                let mut place: usize = 0;
                while place < ids.len() && text_before(self.key(ids[place]), key)
                    invariant
                        self.wf(),
                        id < self.keys().len(),
                        key@ == self.keys()[id as int],
                        place <= ids@.len(),
                        forall|i: int| 0 <= i < ids@.len() ==> (#[trigger] ids@[i]) < id,
                        forall|k: int|
                            0 <= k < place ==> text_lt(
                                self.keys()[#[trigger] ids@[k] as int],
                                self.keys()[id as int],
                            ),
                    decreases ids@.len() - place,
                {
                    place += 1;
                }
                proof {
                    lemma_insert_keeps_report(self.keys(), id, ids@, place as int, player_1);
                }
                ids.insert(place, id);
            }
            id += 1;
        }
        ids
    }
}

/// Two sorted lists of texts that hold the same texts are the same list.
pub proof fn lemma_sorted_lists_of_same_texts(a: Seq<Seq<char>>, b: Seq<Seq<char>>)
    requires
        strictly_sorted(a),
        strictly_sorted(b),
        forall|text: Seq<char>| a.contains(text) <==> b.contains(text),
    ensures
        a == b,
    decreases a.len(),
{
    if a.len() == 0 {
        if b.len() > 0 {
            assert(b.contains(b[0]));
        }
        assert(a =~= b);
    } else {
        assert(a.contains(a[0]));
        let j = choose|j: int| 0 <= j < b.len() && b[j] == a[0];
        assert(b.contains(b[0]));
        let i = choose|i: int| 0 <= i < a.len() && a[i] == b[0];
        if j > 0 {
            assert(text_lt(b[0], b[j]));
            if i > 0 {
                assert(text_lt(a[0], a[i]));
            }
            lemma_text_lt_asymmetric(a[0], b[0]);
        }
        assert(a[0] == b[0]);
        let rest_a = a.drop_first();
        let rest_b = b.drop_first();
        assert forall|text: Seq<char>| rest_a.contains(text) <==> rest_b.contains(text) by {
            lemma_text_lt_asymmetric(a[0], text);
            if rest_a.contains(text) {
                let k = choose|k: int| 0 <= k < rest_a.len() && rest_a[k] == text;
                assert(text_lt(a[0], a[k + 1]));
                assert(a.contains(text));
                let m = choose|m: int| 0 <= m < b.len() && b[m] == text;
                assert(rest_b[m - 1] == text);
            }
            if rest_b.contains(text) {
                let k = choose|k: int| 0 <= k < rest_b.len() && rest_b[k] == text;
                assert(text_lt(b[0], b[k + 1]));
                assert(b.contains(text));
                let m = choose|m: int| 0 <= m < a.len() && a[m] == text;
                assert(rest_a[m - 1] == text);
            }
        }
        assert(strictly_sorted(rest_a)) by {
            assert forall|i: int, j: int| 0 <= i < j < rest_a.len() implies text_lt(
                #[trigger] rest_a[i],
                #[trigger] rest_a[j],
            ) by {
                assert(text_lt(a[i + 1], a[j + 1]));
            }
        }
        assert(strictly_sorted(rest_b)) by {
            assert forall|i: int, j: int| 0 <= i < j < rest_b.len() implies text_lt(
                #[trigger] rest_b[i],
                #[trigger] rest_b[j],
            ) by {
                assert(text_lt(b[i + 1], b[j + 1]));
            }
        }
        lemma_sorted_lists_of_same_texts(rest_a, rest_b);
        assert(a =~= seq![a[0]] + rest_a);
        assert(b =~= seq![b[0]] + rest_b);
    }
}

/// The keys of a report, in their order, depend only on which keys there
/// are: not on the ids under which the records were made.
pub proof fn lemma_report_is_determined(
    keys_a: Seq<Seq<char>>,
    ids_a: Seq<usize>,
    keys_b: Seq<Seq<char>>,
    ids_b: Seq<usize>,
    player_1: bool,
)
    requires
        forall|key: Seq<char>| keys_a.contains(key) <==> keys_b.contains(key),
        is_report(keys_a, ids_a, player_1),
        is_report(keys_b, ids_b, player_1),
    ensures
        reported_keys(keys_a, ids_a) == reported_keys(keys_b, ids_b),
{
    let a = reported_keys(keys_a, ids_a);
    let b = reported_keys(keys_b, ids_b);
    assert forall|text: Seq<char>| a.contains(text) <==> b.contains(text) by {
        if a.contains(text) {
            lemma_reported_key_is_everywhere(keys_a, ids_a, keys_b, ids_b, player_1, text);
        }
        if b.contains(text) {
            lemma_reported_key_is_everywhere(keys_b, ids_b, keys_a, ids_a, player_1, text);
        }
    }
    lemma_sorted_lists_of_same_texts(a, b);
}

proof fn lemma_reported_key_is_everywhere(
    keys_a: Seq<Seq<char>>,
    ids_a: Seq<usize>,
    keys_b: Seq<Seq<char>>,
    ids_b: Seq<usize>,
    player_1: bool,
    text: Seq<char>,
)
    requires
        forall|key: Seq<char>| keys_a.contains(key) <==> keys_b.contains(key),
        is_report(keys_a, ids_a, player_1),
        is_report(keys_b, ids_b, player_1),
        reported_keys(keys_a, ids_a).contains(text),
    ensures
        reported_keys(keys_b, ids_b).contains(text),
{
    let a = reported_keys(keys_a, ids_a);
    let b = reported_keys(keys_b, ids_b);
    let i = choose|i: int| 0 <= i < a.len() && a[i] == text;
    assert(ids_a[i] < keys_a.len());
    assert(keys_a.contains(text));
    assert(keys_b.contains(text));
    let at = choose|at: int| 0 <= at < keys_b.len() && keys_b[at] == text;
    let id = at as usize;
    assert(key_is_player_1(keys_b[id as int]) == player_1);
    assert(ids_b.contains(id));
    let j = choose|j: int| 0 <= j < ids_b.len() && ids_b[j] == id;
    assert(b[j] == text);
}

/// A report depends only on what the store holds: two stores with the same
/// records under the same keys report the same keys with the same records in
/// the same order, whatever the order in which the records were made.
pub proof fn lemma_report_depends_on_contents<R>(
    a: InformationSetStore<R>,
    ids_a: Seq<usize>,
    b: InformationSetStore<R>,
    ids_b: Seq<usize>,
    player_1: bool,
)
    requires
        a.wf(),
        b.wf(),
        a@ == b@,
        is_report(a.keys(), ids_a, player_1),
        is_report(b.keys(), ids_b, player_1),
    ensures
        ids_a.len() == ids_b.len(),
        forall|i: int|
            0 <= i < ids_a.len() ==> a.keys()[#[trigger] ids_a[i] as int] == b.keys()[ids_b[i] as int],
        forall|i: int|
            0 <= i < ids_a.len() ==> a.records()[#[trigger] ids_a[i] as int]
                == b.records()[ids_b[i] as int],
{
    assert forall|key: Seq<char>| a.keys().contains(key) <==> b.keys().contains(key) by {
        assert(a@.dom().contains(key) <==> a.keys().contains(key));
        assert(b@.dom().contains(key) <==> b.keys().contains(key));
    }
    lemma_report_is_determined(a.keys(), ids_a, b.keys(), ids_b, player_1);
    let keys_a = reported_keys(a.keys(), ids_a);
    let keys_b = reported_keys(b.keys(), ids_b);
    assert(keys_a.len() == keys_b.len());
    assert forall|i: int| 0 <= i < ids_a.len() implies {
        &&& a.keys()[#[trigger] ids_a[i] as int] == b.keys()[ids_b[i] as int]
        &&& a.records()[ids_a[i] as int] == b.records()[ids_b[i] as int]
    } by {
        let key = keys_a[i];
        assert(key == keys_b[i]);
        assert(ids_a[i] < a.keys().len());
        assert(ids_b[i] < b.keys().len());
        assert(a.keys().contains(key));
        assert(b.keys().contains(key));
        assert(a.keys().index_of(key) == ids_a[i]);
        assert(b.keys().index_of(key) == ids_b[i]);
        assert(a@[key] == a.records()[a.keys().index_of(key)]);
        assert(b@[key] == b.records()[b.keys().index_of(key)]);
    }
}

} // verus!
