//! Rules of three-card Kuhn poker and the bookkeeping that a counterfactual
//! regret minimisation solver keeps about it: which node a history denotes,
//! what a finished hand pays, which information set a player is in, and the
//! order in which the learned strategies are reported.
//!
//! The solver's arithmetic on regrets and probabilities is not part of this
//! library. A solver asks [`expand`] what stands at a history, keeps one
//! record of its own for each information set in an [`InformationSetStore`],
//! and reads the records back in the order of
//! [`InformationSetStore::report_order`].

pub mod game_tree;
pub mod report;
pub mod store;
pub mod text;

pub use game_tree::{
    acting_card, actions, deals, expand, is_chance_node, is_decision_node, is_player_1,
    is_terminal, next_history, terminal_util, terminal_utility, waiting_card, Action, Node,
    N_ACTIONS, N_CARDS,
};
pub use store::{card_str, info_set_key, InformationSetStore};
pub use text::{same_text, text_before};
