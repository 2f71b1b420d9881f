//! Tests for the partial-information view: what it shows, and how it is
//! advanced from an action and the engine's disclosed result.

use klondike::ai::SolitaireObserver;
use klondike::cards::{Addr, CardView, Suit, Value};
use klondike::game::{Action, Card, GameEngine, State};

fn v(n: u8) -> Value {
    Value::try_from(n).unwrap()
}

fn empty_view() -> SolitaireObserver {
    SolitaireObserver {
        talon_size: 0,
        waste: vec![],
        foundation_tops: vec![None, None, None, None],
        depots: vec![vec![], vec![], vec![], vec![], vec![], vec![], vec![]],
    }
}

#[test]
fn correct_move_counts() {
    let view = SolitaireObserver {
        talon_size: 0,
        waste: vec![],
        foundation_tops: vec![None, None, None, None],
        depots: vec![
            vec![CardView::FaceUp(Suit::Hearts, v(13))],
            vec![CardView::FaceUp(Suit::Clubs, v(12))],
            vec![],
            vec![],
            vec![],
            vec![],
            vec![],
        ],
    };
    assert_eq!(view.n_takeable_cards(&Addr::Depot1), 1);
    assert_eq!(view.n_takeable_cards(&Addr::Depot2), 1);
    assert_eq!(view.n_takeable_cards(&Addr::Waste), 0);
}

#[test]
fn takeable_counts_stop_at_facedown_cards() {
    let mut view = empty_view();
    view.depots[2] = vec![
        CardView::FaceDown,
        CardView::FaceUp(Suit::Hearts, v(9)),
        CardView::FaceUp(Suit::Spades, v(8)),
    ];
    assert_eq!(view.n_takeable_cards(&Addr::Depot3), 2);
    view.waste = vec![(Suit::Clubs, v(4))];
    assert_eq!(view.n_takeable_cards(&Addr::Waste), 1);
    view.foundation_tops[1] = Some((Suit::Hearts, v(1)));
    assert_eq!(view.n_takeable_cards(&Addr::Foundation2), 1);
    assert_eq!(view.n_takeable_cards(&Addr::Foundation1), 0);
}

#[test]
fn card_at_reads_from_the_top() {
    let mut view = empty_view();
    view.depots[0] = vec![CardView::FaceDown, CardView::FaceUp(Suit::Hearts, v(5))];
    view.waste = vec![(Suit::Clubs, v(2)), (Suit::Spades, v(3))];
    assert_eq!(view.card_at(&Addr::Depot1, 1), Some(CardView::FaceUp(Suit::Hearts, v(5))));
    assert_eq!(view.card_at(&Addr::Depot1, 2), Some(CardView::FaceDown));
    assert_eq!(view.card_at(&Addr::Depot1, 3), None);
    assert_eq!(view.card_at(&Addr::Waste, 1), Some(CardView::FaceUp(Suit::Spades, v(3))));
    assert_eq!(view.card_at(&Addr::Waste, 2), None);
    assert_eq!(view.card_at(&Addr::Foundation1, 1), None);
}

#[test]
fn observer_is_won_needs_four_kings() {
    let mut view = empty_view();
    assert!(!view.is_won());
    view.foundation_tops = vec![
        Some((Suit::Hearts, v(13))),
        Some((Suit::Diamonds, v(13))),
        Some((Suit::Clubs, v(12))),
        Some((Suit::Spades, v(13))),
    ];
    assert!(!view.is_won());
    view.foundation_tops[2] = Some((Suit::Clubs, v(13)));
    assert!(view.is_won());
}

#[test]
fn observe_hides_hidden_cards() {
    let mut gs = GameEngine::deal(3);
    let view = gs.observe();
    assert_eq!(view.talon_size, 24);
    assert!(view.waste.is_empty());
    assert_eq!(view.foundation_tops, vec![None, None, None, None]);
    for (i, d) in view.depots.iter().enumerate() {
        assert_eq!(d.len(), i + 1);
        for (k, c) in d.iter().enumerate() {
            if k == i {
                assert!(matches!(c, CardView::FaceUp(..)));
            } else {
                assert_eq!(*c, CardView::FaceDown);
            }
        }
    }
    // the waste shows its cards in full once they are drawn
    let r = gs.act(&Action::Take).unwrap().unwrap();
    let view = gs.observe();
    assert_eq!(view.talon_size, 23);
    assert_eq!(view.waste, vec![r]);
}

#[test]
fn update_tracks_the_engine() {
    let mut gs = GameEngine {
        talon: vec![Card { suit: Suit::Clubs, value: v(7), faceup: false }],
        waste: vec![],
        columns: vec![
            vec![Card { suit: Suit::Spades, value: v(4), faceup: false }],
            vec![],
            vec![],
            vec![],
            vec![],
            vec![],
            vec![],
        ],
        foundations: vec![vec![], vec![], vec![], vec![]],
        state: State::Running,
        current_score: 0,
    };
    let mut view = gs.observe();
    // a take discloses the drawn card and the view follows
    let res = gs.act(&Action::Take).unwrap();
    assert!(view.update(Action::Take, res));
    assert_eq!(view, gs.observe());
    // a reveal discloses the flipped card and the view follows
    let res = gs.act(&Action::Reveal(Addr::Depot1)).unwrap();
    assert!(view.update(Action::Reveal(Addr::Depot1), res));
    assert_eq!(view, gs.observe());
    // a turnover discloses nothing, and still keeps the view in step
    let res = gs.act(&Action::Turnover).unwrap();
    assert!(view.update(Action::Turnover, res));
    assert_eq!(view, gs.observe());
}

#[test]
fn update_moves_cards_between_piles() {
    let mut view = empty_view();
    view.depots[0] = vec![CardView::FaceUp(Suit::Hearts, v(8)), CardView::FaceUp(Suit::Spades, v(7))];
    view.depots[1] = vec![CardView::FaceUp(Suit::Clubs, v(9))];
    // a two-card run from one depot onto another
    assert!(view.update(Action::Move(Addr::Depot1, Addr::Depot2, 2), None));
    assert!(view.depots[0].is_empty());
    assert_eq!(view.depots[1].len(), 3);
    // a waste card onto a foundation
    view.waste = vec![(Suit::Diamonds, v(1))];
    assert!(view.update(Action::Move(Addr::Waste, Addr::Foundation1, 1), None));
    assert!(view.waste.is_empty());
    assert_eq!(view.foundation_tops[0], Some((Suit::Diamonds, v(1))));
    // a foundation card back onto a depot shows the uncovered card
    view.foundation_tops[1] = Some((Suit::Hearts, v(3)));
    assert!(view.update(Action::Move(Addr::Foundation2, Addr::Depot4, 1), None));
    assert_eq!(view.foundation_tops[1], Some((Suit::Hearts, v(2))));
    assert_eq!(view.depots[3], vec![CardView::FaceUp(Suit::Hearts, v(3))]);
}

#[test]
fn update_rejects_inconsistent_results() {
    let mut view = empty_view();
    let before = view.clone();
    // a take needs a disclosed card and a non-empty talon
    assert!(!view.update(Action::Take, None));
    assert!(!view.update(Action::Take, Some((Suit::Hearts, v(2)))));
    // a reveal needs a face-down top card in a depot
    assert!(!view.update(Action::Reveal(Addr::Depot1), Some((Suit::Hearts, v(2)))));
    assert!(!view.update(Action::Reveal(Addr::Waste), Some((Suit::Hearts, v(2)))));
    // moves need their cards in place
    assert!(!view.update(Action::Move(Addr::Waste, Addr::Depot1, 1), None));
    assert!(!view.update(Action::Move(Addr::Waste, Addr::Depot1, 2), None));
    assert!(!view.update(Action::Move(Addr::Foundation1, Addr::Depot1, 1), None));
    assert_eq!(view, before, "a rejected update leaves the view unchanged");
}
