//! The game tree of three-card Kuhn poker, addressed by action histories.
//!
//! A history is a text. The empty text is the root, where chance deals one
//! card to each player. The deal is written `rr`; after it the players act in
//! turn, each action adding one token: `c` for check or call, `b` for bet or
//! raise. Player 1 acts where the history has an even number of tokens,
//! player 2 where it has an odd number.

use vstd::prelude::*;
use vstd::string::*;
use crate::text::same_text;

verus! {

/// The number of actions open to a player at a decision node.
pub const N_ACTIONS: usize = 2;

/// The number of cards in the deck. Cards are numbered from 0, lowest first.
pub const N_CARDS: i32 = 3;

/// `rr`: the cards are dealt, player 1 opens.
pub open spec fn opening() -> Seq<char> {
    seq!['r', 'r']
}

/// `rrc`: player 1 has checked, player 2 acts.
pub open spec fn after_check() -> Seq<char> {
    seq!['r', 'r', 'c']
}

/// `rrb`: player 1 has bet, player 2 answers.
pub open spec fn after_bet() -> Seq<char> {
    seq!['r', 'r', 'b']
}

/// `rrcb`: player 1 has checked and player 2 has bet, player 1 answers.
pub open spec fn after_check_bet() -> Seq<char> {
    seq!['r', 'r', 'c', 'b']
}

/// `rrcc`: both players have checked.
pub open spec fn check_check() -> Seq<char> {
    seq!['r', 'r', 'c', 'c']
}

/// `rrbc`: player 1 has bet and player 2 has given up.
pub open spec fn bet_fold() -> Seq<char> {
    seq!['r', 'r', 'b', 'c']
}

/// `rrbb`: player 1 has bet and player 2 has called.
pub open spec fn bet_call() -> Seq<char> {
    seq!['r', 'r', 'b', 'b']
}

/// `rrcbc`: after a check player 2 has bet and player 1 has given up.
pub open spec fn check_bet_fold() -> Seq<char> {
    seq!['r', 'r', 'c', 'b', 'c']
}

/// `rrcbb`: after a check player 2 has bet and player 1 has called.
pub open spec fn check_bet_call() -> Seq<char> {
    seq!['r', 'r', 'c', 'b', 'b']
}

/// The tokens that a player's action adds to a history.
pub open spec fn is_action_token(token: char) -> bool {
    token == 'c' || token == 'b'
}

/// The root of the tree: nothing has happened yet, the cards are still to be dealt.
pub open spec fn is_chance_node_spec(history: Seq<char>) -> bool {
    history.len() == 0
}

/// The hand ended because a bet was not answered.
pub open spec fn is_fold(history: Seq<char>) -> bool {
    history == bet_fold() || history == check_bet_fold()
}

/// The hand ended with the cards shown after a bet was called.
pub open spec fn is_called_showdown(history: Seq<char>) -> bool {
    history == bet_call() || history == check_bet_call()
}

/// The hand is over.
pub open spec fn is_terminal_spec(history: Seq<char>) -> bool {
    is_fold(history) || history == check_check() || is_called_showdown(history)
}

/// A player has to choose an action.
pub open spec fn is_decision_node_spec(history: Seq<char>) -> bool {
    ||| history == opening()
    ||| history == after_check()
    ||| history == after_bet()
    ||| history == after_check_bet()
}

/// Player 1 is the one to act after an even number of tokens.
pub open spec fn is_player_1_spec(history: Seq<char>) -> bool {
    history.len() % 2 == 0
}

/// The histories that play can produce: the root, the deal, and every
/// history that adds one action to an unfinished hand.
pub open spec fn reachable(history: Seq<char>) -> bool
    decreases history.len(),
{
    if history.len() == 0 {
        true
    } else if history.len() <= 2 {
        history == opening()
    } else {
        &&& reachable(history.drop_last())
        &&& !is_terminal_spec(history.drop_last())
        &&& is_action_token(history.last())
    }
}

/// What the player about to act at the end of a finished hand has won, given
/// that player's card and the other's. After a fold it is 1 whatever the
/// cards. At a showdown the stake is 1, or 2 where a bet was called: the
/// player wins it with the higher card and loses it otherwise.
pub open spec fn terminal_payoff(history: Seq<char>, own_card: int, opponent_card: int) -> int
    recommends
        is_terminal_spec(history),
{
    if is_fold(history) {
        1
    } else if history == check_check() {
        if own_card > opponent_card { 1 } else { -1 }
    } else {
        if own_card > opponent_card { 2 } else { -2 }
    }
}

/// The card of the player about to act, where player 1 holds `card_1` and
/// player 2 holds `card_2`.
pub open spec fn acting_card_spec(history: Seq<char>, card_1: int, card_2: int) -> int {
    if is_player_1_spec(history) { card_1 } else { card_2 }
}

/// The card of the player who is not about to act.
pub open spec fn waiting_card_spec(history: Seq<char>, card_1: int, card_2: int) -> int {
    if is_player_1_spec(history) { card_2 } else { card_1 }
}

proof fn lemma_history_literals()
    ensures
        "rr"@ == opening(),
        "rrc"@ == after_check(),
        "rrb"@ == after_bet(),
        "rrcb"@ == after_check_bet(),
        "rrcc"@ == check_check(),
        "rrbc"@ == bet_fold(),
        "rrbb"@ == bet_call(),
        "rrcbc"@ == check_bet_fold(),
        "rrcbb"@ == check_bet_call(),
{
    reveal_strlit("rr");
    reveal_strlit("rrc");
    reveal_strlit("rrb");
    reveal_strlit("rrcb");
    reveal_strlit("rrcc");
    reveal_strlit("rrbc");
    reveal_strlit("rrbb");
    reveal_strlit("rrcbc");
    reveal_strlit("rrcbb");
    assert("rr"@ =~= opening());
    assert("rrc"@ =~= after_check());
    assert("rrb"@ =~= after_bet());
    assert("rrcb"@ =~= after_check_bet());
    assert("rrcc"@ =~= check_check());
    assert("rrbc"@ =~= bet_fold());
    assert("rrbb"@ =~= bet_call());
    assert("rrcbc"@ =~= check_bet_fold());
    assert("rrcbb"@ =~= check_bet_call());
}

/// Whether `history` is the root, where chance deals the cards.
pub fn is_chance_node(history: &str) -> (r: bool)
    ensures
        r == is_chance_node_spec(history@),
{
    history.is_empty()
}

/// Whether the hand is over at `history`.
pub fn is_terminal(history: &str) -> (r: bool)
    ensures
        r == is_terminal_spec(history@),
{
    proof {
        lemma_history_literals();
    }
    same_text(history, "rrcc") || same_text(history, "rrcbc") || same_text(history, "rrcbb")
        || same_text(history, "rrbc") || same_text(history, "rrbb")
}

/// Whether a player has to choose an action at `history`.
pub fn is_decision_node(history: &str) -> (r: bool)
    ensures
        r == is_decision_node_spec(history@),
{
    proof {
        lemma_history_literals();
    }
    same_text(history, "rr") || same_text(history, "rrc") || same_text(history, "rrb")
        || same_text(history, "rrcb")
}

/// Whether player 1 is the one to act at `history`.
pub fn is_player_1(history: &str) -> (r: bool)
    ensures
        r == is_player_1_spec(history@),
{
    history.unicode_len() % 2 == 0
}

/// The card of the player about to act at `history`.
pub fn acting_card(history: &str, card_1: i32, card_2: i32) -> (card: i32)
    ensures
        card == acting_card_spec(history@, card_1 as int, card_2 as int),
{
    if is_player_1(history) { card_1 } else { card_2 }
}

/// The card of the player who waits at `history`.
pub fn waiting_card(history: &str, card_1: i32, card_2: i32) -> (card: i32)
    ensures
        card == waiting_card_spec(history@, card_1 as int, card_2 as int),
{
    if is_player_1(history) { card_2 } else { card_1 }
}

/// The payoff of the finished hand `history` to the player about to act,
/// who holds `own_card` against `opponent_card`.
pub fn terminal_utility(history: &str, own_card: i32, opponent_card: i32) -> (utility: i32)
    requires
        is_terminal_spec(history@),
    ensures
        utility == terminal_payoff(history@, own_card as int, opponent_card as int),
{
    proof {
        lemma_history_literals();
    }
    if same_text(history, "rrcbc") || same_text(history, "rrbc") {
        1
    } else if same_text(history, "rrcc") {
        if own_card > opponent_card { 1 } else { -1 }
    } else {
        if own_card > opponent_card { 2 } else { -2 }
    }
}

/// The payoff of the finished hand `history` to the player about to act,
/// where player 1 holds `card_1` and player 2 holds `card_2`.
pub fn terminal_util(history: &str, card_1: i32, card_2: i32) -> (utility: i32)
    requires
        is_terminal_spec(history@),
    ensures
        utility == terminal_payoff(
            history@,
            acting_card_spec(history@, card_1 as int, card_2 as int),
            waiting_card_spec(history@, card_1 as int, card_2 as int),
        ),
{
    let player_card = acting_card(history, card_1, card_2);
    let opponent_card = waiting_card(history, card_1, card_2);
    terminal_utility(history, player_card, opponent_card)
}

/// What a player can do at a decision node.
#[derive(Clone, Copy, Debug, PartialEq, Eq, Structural)]
pub enum Action {
    /// Check, or decline to answer a bet.
    Check,
    /// Bet, or call a bet.
    Bet,
}

impl Action {
    /// The token that the action adds to the history.
    pub open spec fn token(self) -> char {
        match self {
            Action::Check => 'c',
            Action::Bet => 'b',
        }
    }

    /// The action's place in a strategy: check first, bet second.
    pub open spec fn index_spec(self) -> int {
        match self {
            Action::Check => 0,
            Action::Bet => 1,
        }
    }

    /// The action's place in a strategy, a regret vector or a list of actions.
    pub fn index(self) -> (i: usize)
        ensures
            i == self.index_spec(),
            i < N_ACTIONS,
    {
        match self {
            Action::Check => 0,
            Action::Bet => 1,
        }
    }
}

/// The actions of a decision node, each at its index.
pub open spec fn all_actions() -> Seq<Action> {
    seq![Action::Check, Action::Bet]
}

/// The actions open at every decision node, in the order of their indices.
pub fn actions() -> (list: Vec<Action>)
    ensures
        list@ == all_actions(),
        list@.len() == N_ACTIONS,
        forall|i: int| 0 <= i < list@.len() ==> (#[trigger] list@[i]).index_spec() == i,
{
    let mut list: Vec<Action> = Vec::new();
    list.push(Action::Check);
    list.push(Action::Bet);
    proof {
        assert(list@ =~= all_actions());
    }
    list
}

/// The history after `action` was taken at `history`. From a decision node
/// it is a decision node again or the end of the hand.
pub fn next_history(history: &str, action: Action) -> (next: String)
    ensures
        next@ == history@.push(action.token()),
        is_player_1_spec(next@) != is_player_1_spec(history@),
        is_decision_node_spec(history@) ==> is_decision_node_spec(next@) || is_terminal_spec(next@),
{
    let mut next = String::from_str(history);
    match action {
        Action::Check => next.append("c"),
        Action::Bet => next.append("b"),
    }
    proof {
        reveal_strlit("c");
        reveal_strlit("b");
        assert(next@ =~= history@.push(action.token()));
        if is_decision_node_spec(history@) {
            lemma_child_of_decision_node(history@, action.token());
        }
    }
    next
}

/// The six deals, player 1's card first: every ordered pair of two different cards.
pub open spec fn all_deals() -> Seq<(i32, i32)> {
    seq![(0i32, 1i32), (0i32, 2i32), (1i32, 0i32), (1i32, 2i32), (2i32, 0i32), (2i32, 1i32)]
}

/// The place of a deal among the deals.
pub open spec fn deal_place(card_1: int, card_2: int) -> int {
    2 * card_1 + if card_2 > card_1 { card_2 - 1 } else { card_2 }
}

/// The deals in the order in which a traversal visits them. Each is equally likely.
pub fn deals() -> (list: Vec<(i32, i32)>)
    ensures
        list@ == all_deals(),
{
    let mut list: Vec<(i32, i32)> = Vec::new();
    let mut first: i32 = 0;
    while first < N_CARDS
        invariant
            0 <= first <= N_CARDS,
            list@ =~= all_deals().take(2 * first),
        decreases N_CARDS - first,
    {
        let mut second: i32 = 0;
        while second < N_CARDS
            invariant
                0 <= first < N_CARDS,
                0 <= second <= N_CARDS,
                list@ =~= all_deals().take(deal_place(first as int, second as int)),
            decreases N_CARDS - second,
        {
            if second != first {
                list.push((first, second));
            }
            second += 1;
        }
        first += 1;
    }
    list
}

/// What a traversal meets at a history, and what it has to do there.
pub enum Node {
    /// The root: each of `deals` is played from the history `next`, and all
    /// are equally likely.
    Chance { deals: Vec<(i32, i32)>, next: String },
    /// The hand is over: `utility` is what the player about to act has won.
    Terminal { utility: i32 },
    /// A player chooses. `player_1` says which, `card` is that player's
    /// card, and `children` holds the history after each action, at the
    /// action's index.
    Decision { player_1: bool, card: i32, children: Vec<String> },
}

impl Node {
    /// Whether this is what stands at `history` when player 1 holds `card_1`
    /// and player 2 holds `card_2`.
    pub open spec fn stands_at(self, history: Seq<char>, card_1: int, card_2: int) -> bool {
        match self {
            Node::Chance { deals, next } => {
                &&& is_chance_node_spec(history)
                &&& deals@ == all_deals()
                &&& next@ == opening()
            },
            Node::Terminal { utility } => {
                &&& is_terminal_spec(history)
                &&& utility == terminal_payoff(
                    history,
                    acting_card_spec(history, card_1, card_2),
                    waiting_card_spec(history, card_1, card_2),
                )
            },
            Node::Decision { player_1, card, children } => {
                &&& is_decision_node_spec(history)
                &&& player_1 == is_player_1_spec(history)
                &&& card == acting_card_spec(history, card_1, card_2)
                &&& children@.len() == all_actions().len()
                &&& forall|i: int|
                    0 <= i < children@.len() ==> (#[trigger] children@[i])@ == history.push(
                        all_actions()[i].token(),
                    )
                &&& forall|i: int|
                    0 <= i < children@.len() ==> is_decision_node_spec((#[trigger] children@[i])@)
                        || is_terminal_spec(children@[i]@)
            },
        }
    }
}

/// The node at `history` when player 1 holds `card_1` and player 2 holds
/// `card_2`, or `None` where `history` is no node of the game.
pub fn expand(history: &str, card_1: i32, card_2: i32) -> (node: Option<Node>)
    ensures
        node is Some <==> is_chance_node_spec(history@) || is_terminal_spec(history@)
            || is_decision_node_spec(history@),
        node is Some ==> node->0.stands_at(history@, card_1 as int, card_2 as int),
{
    proof {
        lemma_kinds_exclude_each_other(history@);
    }
    if is_chance_node(history) {
        proof {
            lemma_history_literals();
        }
        Some(Node::Chance { deals: deals(), next: String::from_str("rr") })
    } else if is_terminal(history) {
        Some(Node::Terminal { utility: terminal_util(history, card_1, card_2) })
    } else if is_decision_node(history) {
        let list = actions();
        let mut children: Vec<String> = Vec::new();
        let mut i: usize = 0;
        while i < list.len()
            invariant
                list@ == all_actions(),
                i <= list@.len(),
                children@.len() == i,
                is_decision_node_spec(history@),
                forall|k: int|
                    0 <= k < i ==> (#[trigger] children@[k])@ == history@.push(
                        all_actions()[k].token(),
                    ),
                forall|k: int|
                    0 <= k < i ==> is_decision_node_spec((#[trigger] children@[k])@)
                        || is_terminal_spec(children@[k]@),
            decreases list@.len() - i,
        {
            children.push(next_history(history, list[i]));
            i += 1;
        }
        Some(
            Node::Decision {
                player_1: is_player_1(history),
                card: acting_card(history, card_1, card_2),
                children,
            },
        )
    } else {
        None
    }
}

/// An action at a decision node leads to a decision node or ends the hand.
proof fn lemma_child_of_decision_node(history: Seq<char>, token: char)
    requires
        is_decision_node_spec(history),
        is_action_token(token),
    ensures
        is_decision_node_spec(history.push(token)) || is_terminal_spec(history.push(token)),
        !(is_decision_node_spec(history.push(token)) && is_terminal_spec(history.push(token))),
{
    let next = history.push(token);
    if history == opening() {
        assert(token == 'c' ==> next =~= after_check());
        assert(token == 'b' ==> next =~= after_bet());
    } else if history == after_check() {
        assert(token == 'c' ==> next =~= check_check());
        assert(token == 'b' ==> next =~= after_check_bet());
    } else if history == after_bet() {
        assert(token == 'c' ==> next =~= bet_fold());
        assert(token == 'b' ==> next =~= bet_call());
    } else {
        assert(token == 'c' ==> next =~= check_bet_fold());
        assert(token == 'b' ==> next =~= check_bet_call());
    }
    lemma_kinds_exclude_each_other(next);
}

/// No history is of two kinds.
proof fn lemma_kinds_exclude_each_other(history: Seq<char>)
    ensures
        !(is_chance_node_spec(history) && is_terminal_spec(history)),
        !(is_chance_node_spec(history) && is_decision_node_spec(history)),
        !(is_terminal_spec(history) && is_decision_node_spec(history)),
{
    if is_terminal_spec(history) && is_decision_node_spec(history) {
        assert(history.len() == 4);
        assert(history == after_check_bet());
        assert(history[3] == 'b');
        assert(history[2] == 'c');
    }
}

/// Every history that play can produce is of exactly one kind: the chance
/// node, a decision node, or the end of a hand.
pub proof fn lemma_reachable_is_one_kind(history: Seq<char>)
    requires
        reachable(history),
    ensures
        is_chance_node_spec(history) || is_terminal_spec(history) || is_decision_node_spec(history),
        !(is_chance_node_spec(history) && is_terminal_spec(history)),
        !(is_chance_node_spec(history) && is_decision_node_spec(history)),
        !(is_terminal_spec(history) && is_decision_node_spec(history)),
    decreases history.len(),
{
    lemma_kinds_exclude_each_other(history);
    if history.len() > 2 {
        let parent = history.drop_last();
        lemma_reachable_is_one_kind(parent);
        assert(history =~= parent.push(history.last()));
        lemma_child_of_decision_node(parent, history.last());
    }
}

/// A hand is over after three actions at the latest: no history that play can
/// produce has more than five tokens.
pub proof fn lemma_reachable_is_short(history: Seq<char>)
    requires
        reachable(history),
    ensures
        history.len() <= 5,
{
    lemma_reachable_is_one_kind(history);
}

/// The chance node, the decision nodes and the ends of a hand are all histories
/// that play can produce.
pub proof fn lemma_nodes_are_reachable(history: Seq<char>)
    requires
        is_chance_node_spec(history) || is_terminal_spec(history) || is_decision_node_spec(history),
    ensures
        reachable(history),
    decreases history.len(),
{
    if history.len() > 2 {
        let parent = history.drop_last();
        if history == after_check() || history == after_bet() {
            assert(parent =~= opening());
        } else if history == after_check_bet() || history == check_check() {
            assert(parent =~= after_check());
        } else if history == bet_fold() || history == bet_call() {
            assert(parent =~= after_bet());
        } else {
            assert(parent =~= after_check_bet());
        }
        lemma_kinds_exclude_each_other(parent);
        lemma_nodes_are_reachable(parent);
    }
}

/// A pair of cards is among the deals exactly if both are cards of the deck
/// and they differ, and no deal comes twice.
pub proof fn lemma_deals_are_the_pairs_of_different_cards(card_1: i32, card_2: i32)
    ensures
        all_deals().contains((card_1, card_2)) <==> (0 <= card_1 < N_CARDS && 0 <= card_2 < N_CARDS
            && card_1 != card_2),
        all_deals().no_duplicates(),
        all_deals().len() == N_CARDS * (N_CARDS - 1),
{
    let deals = all_deals();
    if 0 <= card_1 < N_CARDS && 0 <= card_2 < N_CARDS && card_1 != card_2 {
        assert(deals[deal_place(card_1 as int, card_2 as int)] == (card_1, card_2));
    }
}

} // verus!
