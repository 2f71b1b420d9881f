//! Tests for the game engine: dealing, move validation, scoring, and the
//! win condition.

use klondike::cards::{Addr, Suit, Value};
use klondike::game::{Action, Card, GameEngine, MoveError, State};

fn v(n: u8) -> Value {
    Value::try_from(n).unwrap()
}

fn card(suit: Suit, n: u8, faceup: bool) -> Card {
    Card { suit, value: v(n), faceup }
}

fn empty_columns() -> Vec<Vec<Card>> {
    vec![vec![], vec![], vec![], vec![], vec![], vec![], vec![]]
}

fn empty_foundations() -> Vec<Vec<Card>> {
    vec![vec![], vec![], vec![], vec![]]
}

#[test]
fn can_only_move_one_from_waste() {
    let mut gs = GameEngine::deal(0);
    let action = Action::Move(Addr::Waste, Addr::Depot3, 2);
    assert!(gs.act(&action).is_err());
}

/// When taking some simplified game state and
/// 1) move card from waste to foundation
/// 2) reveal a card in the tableaux
/// 3) move card from tableaux to foundation
/// make sure the score increases by 10 + 5 + 10 = 25.
#[test]
fn score_when_moving_cards() {
    let mut columns = empty_columns();
    columns[0] = vec![card(Suit::Spades, 2, false)];
    let mut foundations = empty_foundations();
    foundations[1] = vec![card(Suit::Spades, 1, true)];
    let mut gs = GameEngine {
        talon: vec![],
        waste: vec![card(Suit::Hearts, 1, true)],
        columns,
        foundations,
        state: State::Running,
        current_score: 0,
    };
    gs.act(&Action::Move(Addr::Waste, Addr::Foundation1, 1)).unwrap();
    gs.act(&Action::Reveal(Addr::Depot1)).unwrap();
    gs.act(&Action::Move(Addr::Depot1, Addr::Foundation2, 1)).unwrap();
    assert_eq!(gs.score(), 25);
}

/// Test there won't be underflow in scoring when turning the deck over.
#[test]
fn score_when_turning_over() {
    let mut gs = GameEngine {
        talon: vec![],
        waste: vec![card(Suit::Spades, 2, true)],
        columns: empty_columns(),
        foundations: empty_foundations(),
        state: State::Running,
        current_score: 0,
    };
    gs.act(&Action::Turnover)
        .expect("This should be fin. No underflows. No funny business.");
    assert_eq!(gs.score(), 0);
}

#[test]
fn dealing_same_seed_gives_identical_games() {
    let a = GameEngine::deal(42);
    let b = GameEngine::deal(42);
    assert_eq!(a, b);
    let c = GameEngine::deal(43);
    let d = GameEngine::deal(43);
    assert_eq!(c, d);
}

#[test]
fn deal_lays_out_the_whole_deck() {
    let gs = GameEngine::deal(7);
    assert_eq!(gs.talon_len(), 24);
    assert!(gs.waste.is_empty());
    assert!(gs.is_running());
    assert!(!gs.is_won());
    assert_eq!(gs.score(), 0);
    for (i, col) in gs.columns.iter().enumerate() {
        assert_eq!(col.len(), i + 1);
        for (k, c) in col.iter().enumerate() {
            assert_eq!(c.faceup, k == i, "only the last card of a column is face up");
        }
    }
    for f in gs.foundations.iter() {
        assert!(f.is_empty());
    }
    for c in gs.talon.iter() {
        assert!(!c.faceup);
    }
    // all 52 distinct cards are in play
    let mut all: Vec<(Suit, u8)> = Vec::new();
    for col in gs.columns.iter() {
        for c in col.iter() {
            all.push((c.suit, c.value.numeric_value()));
        }
    }
    for c in gs.talon.iter() {
        all.push((c.suit, c.value.numeric_value()));
    }
    assert_eq!(all.len(), 52);
    for i in 0..all.len() {
        for j in 0..i {
            assert_ne!(all[i], all[j], "no card occurs twice");
        }
    }
}

#[test]
fn deal_shuffles_the_deck() {
    // The fixed pre-shuffle order is hearts, clubs, diamonds, spades, each
    // ace to king; a deal whose piles reproduce it card for card would mean
    // the seeded shuffle did nothing.
    let suits = [Suit::Hearts, Suit::Clubs, Suit::Diamonds, Suit::Spades];
    let mut fresh: Vec<(Suit, u8)> = Vec::new();
    for s in suits {
        for n in 1..=13 {
            fresh.push((s, n));
        }
    }
    let gs = GameEngine::deal(0);
    let mut dealt: Vec<(Suit, u8)> = Vec::new();
    for col in gs.columns.iter() {
        for c in col.iter() {
            dealt.push((c.suit, c.value.numeric_value()));
        }
    }
    for c in gs.talon.iter() {
        dealt.push((c.suit, c.value.numeric_value()));
    }
    assert_ne!(dealt, fresh);
}

#[test]
fn take_moves_top_of_talon_to_waste() {
    let mut gs = GameEngine {
        talon: vec![card(Suit::Hearts, 4, false), card(Suit::Clubs, 9, false)],
        waste: vec![],
        columns: empty_columns(),
        foundations: empty_foundations(),
        state: State::Running,
        current_score: 0,
    };
    let r = gs.act(&Action::Take).unwrap();
    assert_eq!(r, Some((Suit::Clubs, v(9))));
    assert_eq!(gs.talon_len(), 1);
    assert_eq!(gs.waste.len(), 1);
    assert!(gs.waste[0].faceup);
    assert_eq!(gs.score(), 0);
}

#[test]
fn turnover_rebuilds_talon_in_reverse() {
    let mut gs = GameEngine {
        talon: vec![],
        waste: vec![
            card(Suit::Hearts, 1, true),
            card(Suit::Clubs, 2, true),
            card(Suit::Diamonds, 3, true),
        ],
        columns: empty_columns(),
        foundations: empty_foundations(),
        state: State::Running,
        current_score: 100,
    };
    gs.act(&Action::Turnover).unwrap();
    assert_eq!(gs.talon_len(), 3);
    assert!(gs.waste.is_empty());
    assert_eq!(gs.score(), 0, "a turnover costs 100 points");
    for c in gs.talon.iter() {
        assert!(!c.faceup);
    }
    // the next card drawn is the card that was at the bottom of the waste
    let r = gs.act(&Action::Take).unwrap();
    assert_eq!(r, Some((Suit::Hearts, v(1))));
}

#[test]
fn errors_keep_state_untouched() {
    let mut gs = GameEngine {
        talon: vec![],
        waste: vec![card(Suit::Hearts, 7, true)],
        columns: empty_columns(),
        foundations: empty_foundations(),
        state: State::Running,
        current_score: 30,
    };
    let before = gs.clone();
    // drawing from an empty talon
    assert!(matches!(gs.act(&Action::Take), Err(MoveError::Unspecified)));
    // moving to the waste
    assert!(matches!(
        gs.act(&Action::Move(Addr::Depot1, Addr::Waste, 1)),
        Err(MoveError::Unspecified)
    ));
    // moving from an empty pile to a foundation
    assert!(matches!(
        gs.act(&Action::Move(Addr::Depot1, Addr::Foundation1, 1)),
        Err(MoveError::NoCardToMove)
    ));
    // revealing outside the tableaux
    assert!(matches!(
        gs.act(&Action::Reveal(Addr::Foundation1)),
        Err(MoveError::WithDescription(_))
    ));
    // a non-ace onto an empty foundation
    assert!(matches!(
        gs.act(&Action::Move(Addr::Waste, Addr::Foundation1, 1)),
        Err(MoveError::WithDescription(_))
    ));
    // a turnover while the talon still has cards
    gs.talon.push(card(Suit::Spades, 9, false));
    assert!(matches!(gs.act(&Action::Turnover), Err(MoveError::Unspecified)));
    gs.talon.pop();
    assert_eq!(gs, before, "a failed act leaves the state bit for bit unchanged");
}

#[test]
fn ace_on_nonempty_foundation_is_rejected() {
    let mut foundations = empty_foundations();
    foundations[0] = vec![card(Suit::Clubs, 1, true)];
    let mut gs = GameEngine {
        talon: vec![],
        waste: vec![card(Suit::Hearts, 1, true)],
        columns: empty_columns(),
        foundations,
        state: State::Running,
        current_score: 0,
    };
    assert!(matches!(
        gs.act(&Action::Move(Addr::Waste, Addr::Foundation1, 1)),
        Err(MoveError::WithDescription(_))
    ));
}

#[test]
fn depot_moves_follow_color_and_rank() {
    let mut columns = empty_columns();
    columns[0] = vec![card(Suit::Hearts, 8, true)];
    columns[1] = vec![card(Suit::Spades, 7, true)];
    columns[2] = vec![card(Suit::Diamonds, 7, true)];
    let mut gs = GameEngine {
        talon: vec![],
        waste: vec![],
        columns,
        foundations: empty_foundations(),
        state: State::Running,
        current_score: 0,
    };
    // red 7 on red 8 is rejected
    assert!(gs.act(&Action::Move(Addr::Depot3, Addr::Depot1, 1)).is_err());
    // black 7 on red 8 is fine
    gs.act(&Action::Move(Addr::Depot2, Addr::Depot1, 1)).unwrap();
    assert_eq!(gs.columns[0].len(), 2);
    assert!(gs.columns[1].is_empty());
    // only a king may move onto an empty column
    assert!(gs.act(&Action::Move(Addr::Depot1, Addr::Depot2, 2)).is_err());
    // a proper two-card run needs both cards face up
    gs.columns[3] = vec![card(Suit::Clubs, 9, true)];
    gs.columns[0][0].faceup = false;
    assert!(gs.act(&Action::Move(Addr::Depot1, Addr::Depot4, 2)).is_err());
    gs.columns[0][0].faceup = true;
    gs.act(&Action::Move(Addr::Depot1, Addr::Depot4, 2)).unwrap();
    assert_eq!(gs.columns[3].len(), 3);
}

#[test]
fn king_run_moves_to_empty_column() {
    let mut columns = empty_columns();
    columns[0] = vec![card(Suit::Hearts, 13, true), card(Suit::Spades, 12, true)];
    let mut gs = GameEngine {
        talon: vec![],
        waste: vec![],
        columns,
        foundations: empty_foundations(),
        state: State::Running,
        current_score: 0,
    };
    gs.act(&Action::Move(Addr::Depot1, Addr::Depot5, 2)).unwrap();
    assert!(gs.columns[0].is_empty());
    assert_eq!(gs.columns[4].len(), 2);
}

#[test]
fn foundation_to_depot_costs_fifteen_floored_at_zero() {
    let mut columns = empty_columns();
    columns[0] = vec![card(Suit::Spades, 6, true)];
    let mut foundations = empty_foundations();
    foundations[0] = vec![
        card(Suit::Hearts, 1, true),
        card(Suit::Hearts, 2, true),
        card(Suit::Hearts, 3, true),
        card(Suit::Hearts, 4, true),
        card(Suit::Hearts, 5, true),
    ];
    let mut gs = GameEngine {
        talon: vec![],
        waste: vec![],
        columns,
        foundations,
        state: State::Running,
        current_score: 4,
    };
    gs.act(&Action::Move(Addr::Foundation1, Addr::Depot1, 1)).unwrap();
    assert_eq!(gs.score(), 0, "the deduction floors at zero");
    assert_eq!(gs.columns[0].len(), 2);
    assert_eq!(gs.foundations[0].len(), 4);
}

#[test]
fn completing_the_foundations_wins() {
    let full = |s: Suit| -> Vec<Card> { (1..=13).map(|n| card(s, n, true)).collect() };
    let mut foundations = empty_foundations();
    foundations[0] = full(Suit::Hearts);
    foundations[1] = full(Suit::Diamonds);
    foundations[2] = full(Suit::Clubs);
    foundations[3] = (1..=12).map(|n| card(Suit::Spades, n, true)).collect();
    let mut gs = GameEngine {
        talon: vec![],
        waste: vec![card(Suit::Spades, 13, true)],
        columns: empty_columns(),
        foundations,
        state: State::Running,
        current_score: 0,
    };
    assert!(!gs.is_won());
    gs.act(&Action::Move(Addr::Waste, Addr::Foundation4, 1)).unwrap();
    assert!(gs.is_won());
    assert!(!gs.is_running());
}

#[test]
fn quit_loses_the_game() {
    let mut gs = GameEngine::deal(1);
    assert!(gs.is_running());
    gs.act(&Action::Quit).unwrap();
    assert!(!gs.is_running());
    assert!(!gs.is_won());
}
