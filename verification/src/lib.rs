//! A verified Klondike solitaire core: the card model, the game engine
//! that validates and applies actions, the partial-information view it
//! hands to the planners, two heuristic planners, and the laws that tie
//! them together.

pub mod ai;
pub mod cards;
pub mod game;
pub mod laws;
mod shuffle;
