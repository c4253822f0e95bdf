//! The information sets of a run: one record for each pair of a player's card
//! and a history, made when the pair is first met and kept from then on.

use vstd::prelude::*;
use vstd::string::*;
use crate::text::same_text;

verus! {

/// The letter of a card: `J` for the lowest, `Q` for the next, `K` for any other.
pub open spec fn card_label(card: int) -> Seq<char> {
    if card == 0 {
        seq!['J']
    } else if card == 1 {
        seq!['Q']
    } else {
        seq!['K']
    }
}

/// The key of the information set of a player who holds `card` at `history`:
/// the card's letter, a space, and the history.
pub open spec fn info_set_key_spec(card: int, history: Seq<char>) -> Seq<char> {
    card_label(card) + seq![' '] + history
}

/// The letter of `card`.
pub fn card_str(card: i32) -> (label: String)
    ensures
        label@ == card_label(card as int),
{
    proof {
        reveal_strlit("J");
        reveal_strlit("Q");
        reveal_strlit("K");
        assert("J"@ =~= seq!['J']);
        assert("Q"@ =~= seq!['Q']);
        assert("K"@ =~= seq!['K']);
    }
    match card {
        0 => String::from_str("J"),
        1 => String::from_str("Q"),
        _ => String::from_str("K"),
    }
}

/// The key of the information set of a player who holds `card` at `history`.
pub fn info_set_key(card: i32, history: &str) -> (key: String)
    ensures
        key@ == info_set_key_spec(card as int, history@),
{
    let mut key = card_str(card);
    key.append(" ");
    key.append(history);
    proof {
        reveal_strlit(" ");
        assert(" "@ =~= seq![' ']);
    }
    key
}

/// A key names one card letter and one history: two keys are the same only
/// if both are. It has two characters more than its history.
pub proof fn lemma_key_identifies(card_a: int, history_a: Seq<char>, card_b: int, history_b: Seq<char>)
    ensures
        info_set_key_spec(card_a, history_a) == info_set_key_spec(card_b, history_b) <==> (
        card_label(card_a) == card_label(card_b) && history_a == history_b),
        info_set_key_spec(card_a, history_a).len() == history_a.len() + 2,
{
    let key_a = info_set_key_spec(card_a, history_a);
    let key_b = info_set_key_spec(card_b, history_b);
    if key_a == key_b {
        assert(key_a[0] == key_b[0]);
        assert(card_label(card_a) =~= card_label(card_b));
        assert(history_a =~= key_a.skip(2));
        assert(history_b =~= key_b.skip(2));
    }
}

/// The records of a run, each under the key of its information set. A record
/// is addressed by its id, the number of records that were made before it.
pub struct InformationSetStore<R> {
    keys: Vec<String>,
    records: Vec<R>,
}

impl<R> InformationSetStore<R> {
    /// The keys in the store, each at the id of its record.
    pub closed spec fn keys(&self) -> Seq<Seq<char>> {
        Seq::new(self.keys@.len(), |i: int| self.keys@[i]@)
    }

    /// The records in the store, each at its id.
    pub closed spec fn records(&self) -> Seq<R> {
        self.records@
    }

    /// Every key has one record, and no key occurs twice.
    pub open spec fn wf(&self) -> bool {
        &&& self.keys().len() == self.records().len()
        &&& self.keys().no_duplicates()
    }

    /// The records by their keys.
    pub open spec fn view(&self) -> Map<Seq<char>, R> {
        Map::new(
            |key: Seq<char>| self.keys().contains(key),
            |key: Seq<char>| self.records()[self.keys().index_of(key)],
        )
    }

    /// A store without records.
    pub fn new() -> (store: Self)
        ensures
            store.wf(),
            store.keys() == Seq::<Seq<char>>::empty(),
            store.records() == Seq::<R>::empty(),
    {
        let store = InformationSetStore { keys: Vec::new(), records: Vec::new() };
        proof {
            assert(store.keys() =~= Seq::<Seq<char>>::empty());
        }
        store
    }

    /// The number of records.
    pub fn len(&self) -> (n: usize)
        requires
            self.wf(),
        ensures
            n == self.keys().len(),
            n == self.records().len(),
    {
        self.records.len()
    }

    /// Whether there is a record for the player who holds `card` at `history`.
    pub open spec fn holds(&self, card: int, history: Seq<char>) -> bool {
        self.keys().contains(info_set_key_spec(card, history))
    }

    /// The id of the record of the player who holds `card` at `history`, if there is one.
    pub fn find(&self, card: i32, history: &str) -> (found: Option<usize>)
        requires
            self.wf(),
        ensures
            found is Some <==> self.holds(card as int, history@),
            found is Some ==> found->0 < self.keys().len(),
            found is Some ==> self.keys()[found->0 as int] == info_set_key_spec(
                card as int,
                history@,
            ),
    {
        let key = info_set_key(card, history);
        self.find_key(&key)
    }

    fn find_key(&self, key: &String) -> (found: Option<usize>)
        requires
            self.wf(),
        ensures
            found is Some <==> self.keys().contains(key@),
            found is Some ==> found->0 < self.keys().len() && self.keys()[found->0 as int] == key@,
    {
        let mut id: usize = 0;
        while id < self.keys.len()
            invariant
                id <= self.keys@.len(),
                forall|k: int| 0 <= k < id ==> self.keys()[k] != key@,
                self.keys().len() == self.keys@.len(),
            decreases self.keys@.len() - id,
        {
            if same_text(self.keys[id].as_str(), key.as_str()) {
                assert(self.keys()[id as int] == key@);
                return Some(id);
            }
            id += 1;
        }
        None
    }

    /// The id of the record of the player who holds `card` at `history`. If
    /// there is none yet, `fresh` becomes that record, after all the others.
    /// No other record changes, and none changes its id.
    pub fn get_or_create(&mut self, card: i32, history: &str, fresh: R) -> (id: usize)
        requires
            old(self).wf(),
        ensures
            final(self).wf(),
            id < final(self).keys().len(),
            final(self).keys()[id as int] == info_set_key_spec(card as int, history@),
            old(self).holds(card as int, history@) ==> final(self).keys() == old(self).keys(),
            old(self).holds(card as int, history@) ==> final(self).records() == old(self).records(),
            !old(self).holds(card as int, history@) ==> id == old(self).keys().len(),
            !old(self).holds(card as int, history@) ==> final(self).keys() == old(self).keys().push(
                info_set_key_spec(card as int, history@),
            ),
            !old(self).holds(card as int, history@) ==> final(self).records()
                == old(self).records().push(fresh),
    {
        let key = info_set_key(card, history);
        match self.find_key(&key) {
            Some(id) => id,
            None => {
                let id = self.records.len();
                self.keys.push(key);
                self.records.push(fresh);
                proof {
                    assert(self.keys() =~= old(self).keys().push(key@));
                }
                id
            },
        }
    }

    /// The key of the record `id`.
    pub fn key(&self, id: usize) -> (key: &str)
        requires
            self.wf(),
            id < self.keys().len(),
        ensures
            key@ == self.keys()[id as int],
    {
        self.keys[id].as_str()
    }

    /// The record `id`.
    pub fn record(&self, id: usize) -> (record: &R)
        requires
            self.wf(),
            id < self.records().len(),
        ensures
            *record == self.records()[id as int],
    {
        &self.records[id]
    }

    /// The record `id`, to be changed in place. Its key and the other records stay.
    pub fn record_mut(&mut self, id: usize) -> (record: &mut R)
        requires
            old(self).wf(),
            id < old(self).records().len(),
        ensures
            *record == old(self).records()[id as int],
            final(self).keys() == old(self).keys(),
            final(self).records() == old(self).records().update(id as int, *final(record)),
            final(self).wf(),
    {
        &mut self.records[id]
    }
}

} // verus!
