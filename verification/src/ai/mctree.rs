//! A search-based planner that exists only as a named stub: it has no
//! algorithm, and is kept out of the planner interface until it gets one.

use crate::ai::SolitaireObserver;
use vstd::prelude::*;

verus! {

/// The stub of the tree-search planner.
pub struct MonteCarloTreeSearchAI {
    current_game_state: (),
}

impl MonteCarloTreeSearchAI {
    pub fn new(_obs: SolitaireObserver) -> (r: Self) {
        MonteCarloTreeSearchAI { current_game_state: () }
    }
}

} // verus!
