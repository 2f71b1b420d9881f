//! Tests for the two planners: the scenario both must solve, the
//! no-repetition memory, and the termination fallback.

use klondike::ai::{observer_equiv, Ai, SolitaireObserver};
use klondike::ai::greedy::GreedyAi;
use klondike::ai::mctree::MonteCarloTreeSearchAI;
use klondike::ai::simple::SimpleAi;
use klondike::cards::{Addr, CardView, Suit, Value};
use klondike::game::{Action, GameEngine};

fn v(n: u8) -> Value {
    Value::try_from(n).unwrap()
}

fn empty_view() -> SolitaireObserver {
    SolitaireObserver {
        talon_size: 0,
        waste: vec![],
        foundation_tops: vec![None, None, None, None],
        depots: vec![vec![], vec![], vec![], vec![], vec![], vec![], vec![]],
    }
}

fn queen_on_king_view() -> SolitaireObserver {
    let mut view = empty_view();
    view.depots[0] = vec![CardView::FaceUp(Suit::Hearts, v(13))];
    view.depots[1] = vec![CardView::FaceUp(Suit::Clubs, v(12))];
    view
}

#[test]
fn greedy_test_ai_can_win() {
    let ai = GreedyAi::new(queen_on_king_view());
    let actions = ai.suggest_actions();
    assert!(
        actions.contains(&Action::Move(Addr::Depot2, Addr::Depot1, 1)),
        "Should be able to move queen of clubs to king of hearts"
    );
}

#[test]
fn simple_test_ai_can_win() {
    let ai = SimpleAi::new(queen_on_king_view());
    let actions = ai.suggest_actions();
    assert!(
        actions.contains(&Action::Move(Addr::Depot2, Addr::Depot1, 1)),
        "Should be able to move queen of clubs to king of hearts"
    );
}

#[test]
fn deadlocked_position_offers_only_quit() {
    // nothing to draw, reveal or move: the single candidate is to give up
    let greedy = GreedyAi::new(empty_view());
    assert_eq!(greedy.suggest_actions(), vec![Action::Quit]);
    let simple = SimpleAi::new(empty_view());
    assert_eq!(simple.suggest_actions(), vec![Action::Quit]);
}

#[test]
fn planner_eventually_quits_and_then_stops() {
    let mut ai = GreedyAi::new(empty_view());
    assert_eq!(ai.calc_action(), Some(Action::Quit));
    // the (position, Quit) pair is now recorded; nothing is left to offer
    assert_eq!(ai.calc_action(), None);
}

#[test]
fn planner_never_repeats_a_pair() {
    // one card in the talon: the candidates are Take and Quit, best first
    let mut view = empty_view();
    view.talon_size = 1;
    let mut ai = GreedyAi::new(view);
    assert_eq!(ai.calc_action(), Some(Action::Take));
    // without an update the position is unchanged, so Take is not offered
    // again
    assert_eq!(ai.calc_action(), Some(Action::Quit));
    assert_eq!(ai.calc_action(), None);
}

#[test]
fn simple_planner_never_repeats_a_pair() {
    let mut view = empty_view();
    view.talon_size = 1;
    let mut ai = SimpleAi::new(view);
    assert_eq!(ai.calc_action(), Some(Action::Take));
    assert_eq!(ai.calc_action(), Some(Action::Quit));
    assert_eq!(ai.calc_action(), None);
}

#[test]
fn greedy_prefers_foundation_builds() {
    let mut view = empty_view();
    view.talon_size = 3;
    view.waste = vec![(Suit::Hearts, v(1))];
    let mut ai = GreedyAi::new(view);
    // an ace to the foundation outranks drawing a card
    let first = ai.calc_action().unwrap();
    assert!(matches!(first, Action::Move(Addr::Waste, to, 1) if to.is_foundation()));
}

#[test]
fn greedy_turns_over_only_when_stuck() {
    let mut view = empty_view();
    view.waste = vec![(Suit::Hearts, v(9))];
    let mut ai = GreedyAi::new(view);
    // the nine cannot go anywhere; the talon is empty, so the best
    // remaining candidate is to turn the waste over
    assert_eq!(ai.calc_action(), Some(Action::Turnover));
}

#[test]
fn simple_planner_keeps_twos_off_the_columns() {
    let mut view = empty_view();
    view.waste = vec![(Suit::Hearts, v(2))];
    view.depots[0] = vec![CardView::FaceUp(Suit::Spades, v(3))];
    let waste_play = Action::Move(Addr::Waste, Addr::Depot1, 1);
    // the move is legal on the table, and the greedy planner offers it
    let greedy = GreedyAi::new(view.clone());
    assert!(greedy.suggest_actions().contains(&waste_play));
    // the simple planner holds the two back
    let simple = SimpleAi::new(view);
    assert!(!simple.suggest_actions().contains(&waste_play));
}

#[test]
fn simple_planner_holds_low_cards_until_a_pass_is_done() {
    let mut view = empty_view();
    view.waste = vec![(Suit::Hearts, v(4))];
    view.depots[0] = vec![CardView::FaceUp(Suit::Spades, v(5))];
    let waste_play = Action::Move(Addr::Waste, Addr::Depot1, 1);
    let greedy = GreedyAi::new(view.clone());
    assert!(greedy.suggest_actions().contains(&waste_play));
    // before the first completed talon pass, the four stays on the waste
    let simple = SimpleAi::new(view);
    assert!(!simple.suggest_actions().contains(&waste_play));
}

#[test]
fn won_view_offers_only_quit() {
    let mut view = empty_view();
    view.foundation_tops = vec![
        Some((Suit::Hearts, v(13))),
        Some((Suit::Diamonds, v(13))),
        Some((Suit::Clubs, v(13))),
        Some((Suit::Spades, v(13))),
    ];
    assert!(view.is_won());
    let ai = GreedyAi::new(view);
    assert_eq!(ai.suggest_actions(), vec![Action::Quit]);
}

#[test]
fn memory_ignores_column_permutations() {
    // the same two stacks in swapped columns count as the same position
    let a = queen_on_king_view();
    let mut b = empty_view();
    b.depots[0] = vec![CardView::FaceUp(Suit::Clubs, v(12))];
    b.depots[1] = vec![CardView::FaceUp(Suit::Hearts, v(13))];
    assert!(observer_equiv(&a, &b));
    // but the order of cards within one column still matters
    let mut c = empty_view();
    c.depots[0] = vec![
        CardView::FaceUp(Suit::Hearts, v(13)),
        CardView::FaceUp(Suit::Clubs, v(12)),
    ];
    assert!(!observer_equiv(&a, &c));
}

#[test]
fn planners_update_their_view_from_results() {
    let mut view = empty_view();
    view.talon_size = 1;
    let mut ai = GreedyAi::new(view);
    assert!(ai.update_view(Action::Take, Some((Suit::Spades, v(8)))));
    // the drawn eight is on the waste now and the talon is empty, so
    // drawing is no longer a candidate
    let actions = ai.suggest_actions();
    assert!(!actions.contains(&Action::Take));
    assert!(actions.contains(&Action::Turnover));
    // an impossible result is refused and changes nothing
    let mut stuck = GreedyAi::new(empty_view());
    assert!(!stuck.update_view(Action::Take, None));
}

#[test]
fn planners_through_the_shared_interface() {
    let mut gs = GameEngine::deal(5);
    let mut ai: Box<dyn Ai> = Box::new(SimpleAi::new(gs.observe()));
    assert_eq!(ai.name(), "SimpleAi");
    let mut moves = 0usize;
    while gs.is_running() && moves < 200 {
        let action = ai.make_move().expect("a planner always has a fresh candidate here");
        let res = gs.act(&action).expect("the planner only proposes legal moves");
        assert!(ai.update(action, res));
        moves += 1;
    }
    let greedy: Box<dyn Ai> = Box::new(GreedyAi::new(gs.observe()));
    assert_eq!(greedy.name(), "GreedyAi");
}

#[test]
fn mctree_stub_constructs() {
    let _ai = MonteCarloTreeSearchAI::new(empty_view());
}
