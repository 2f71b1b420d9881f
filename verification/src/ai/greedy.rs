//! A planner that plays greedily: every candidate action gets a numeric
//! priority, and the highest-priority action not yet tried against the
//! current position is returned.
//!
//! Quit is deemed worth -200, so the planner gives up only when nothing
//! else is left to try; Turnover costs -100, so it never turns the waste
//! over while any other move remains.

use crate::ai::{
    bump_passes, depot_build_ok, dw_addr, dw_addr_at, foundation_build_ok, is_seen,
    lemma_dw_addr_complete, reveal_ok_view, seen, update_pre, update_step, view_equiv, Ai,
    SolitaireObserver, ViewModel,
};
use crate::cards::{
    depot_addr, foundation_addr, lemma_depot_addr_complete, lemma_foundation_addr_complete,
    spec_depot_addr, spec_foundation_addr, Addr, CardView, Suit, Value,
};
use crate::game::Action;
use vstd::prelude::*;

verus! {

broadcast use vstd::seq_lib::lemma_seq_contains_after_push;

/// Which actions the greedy planner considers in a position: in a won
/// position only Quit; otherwise every foundation build, reveal and depot
/// build the view shows, a draw while the talon has cards, a turnover when
/// it has none, and always Quit.
pub open spec fn greedy_candidate(v: ViewModel, a: Action) -> bool {
    if v.is_won() {
        a == Action::Quit
    } else {
        match a {
            Action::Quit => true,
            Action::Take => v.talon_size != 0,
            Action::Turnover => v.waste.len() > 0 && v.talon_size == 0,
            Action::Reveal(ad) => reveal_ok_view(v, ad),
            Action::Move(from, to, n) => (n == 1 && foundation_build_ok(v, from, to))
                || depot_build_ok(v, from, to, n as int),
        }
    }
}

/// The priority the greedy planner gives a candidate. Ties are returned in
/// a fixed generation order: foundation builds, reveals, waste plays,
/// depot-to-depot moves, draw, turnover, quit.
pub open spec fn greedy_priority(a: Action) -> int {
    match a {
        Action::Quit => -200,
        Action::Take => 0,
        Action::Turnover => -100,
        Action::Reveal(_) => 5,
        Action::Move(from, to, _) => if to.spec_is_foundation() {
            10
        } else if from.spec_is_foundation() {
            -15
        } else if from.spec_is_waste() {
            5
        } else {
            0
        },
    }
}

/// The greedy planner: its own copy of the view, and a memory of every
/// (position, action) pair it has returned, so that it never offers the
/// same move twice from the same position.
pub struct GreedyAi {
    seen_state_action_combos: Vec<(SolitaireObserver, Action)>,
    // how many passes through the deck have we made?
    number_of_passes: u64,
    view: SolitaireObserver,
}

impl GreedyAi {
    /// The recorded (position, action) pairs, oldest first.
    pub closed spec fn memory(&self) -> Seq<(SolitaireObserver, Action)> {
        self.seen_state_action_combos@
    }

    /// The planner's current view of the game.
    pub closed spec fn view_model(&self) -> ViewModel {
        self.view@
    }

    /// Completed talon passes (returned Turnover actions).
    pub closed spec fn passes(&self) -> u64 {
        self.number_of_passes
    }

    pub closed spec fn inv(&self) -> bool {
        self.view@.wf()
    }

    pub fn new(view: SolitaireObserver) -> (r: GreedyAi)
        requires
            view.wf(),
        ensures
            r.inv(),
            r.memory() == Seq::<(SolitaireObserver, Action)>::empty(),
            r.passes() == 0,
            r.view_model() == view@,
    {
        GreedyAi { seen_state_action_combos: Vec::new(), number_of_passes: 0, view }
    }

    /// Provide a single move: the highest-priority candidate not yet
    /// recorded against the current position. The chosen pair is recorded
    /// before it is returned; `None` means every candidate was already
    /// recorded.
    pub fn calc_action(&mut self) -> (r: Option<Action>)
        requires
            old(self).inv(),
        ensures
            final(self).inv(),
            final(self).view_model() == old(self).view_model(),
            match r {
                Some(a) => {
                    &&& greedy_candidate(old(self).view_model(), a)
                    &&& !seen(old(self).memory(), old(self).view_model(), a)
                    &&& forall|b: Action|
                        greedy_candidate(old(self).view_model(), b) && !seen(
                            old(self).memory(),
                            old(self).view_model(),
                            b,
                        ) ==> greedy_priority(b) <= greedy_priority(a)
                    &&& final(self).memory().len() == old(self).memory().len() + 1
                    &&& final(self).memory().subrange(0, old(self).memory().len() as int) == old(
                        self,
                    ).memory()
                    &&& final(self).memory().last().1 == a
                    &&& view_equiv(final(self).memory().last().0@, old(self).view_model())
                    &&& final(self).passes() == bump_passes(
                        old(self).passes(),
                        a == Action::Turnover,
                    )
                },
                None => {
                    &&& forall|b: Action|
                        greedy_candidate(old(self).view_model(), b) ==> seen(
                            old(self).memory(),
                            old(self).view_model(),
                            b,
                        )
                    &&& final(self).memory() == old(self).memory()
                    &&& final(self).passes() == old(self).passes()
                },
            },
            // the termination fallback: with every other candidate already
            // recorded and Quit still fresh, the answer is Quit
            (forall|b: Action|
                greedy_candidate(old(self).view_model(), b) && b != Action::Quit ==> seen(
                    old(self).memory(),
                    old(self).view_model(),
                    b,
                )) && !seen(old(self).memory(), old(self).view_model(), Action::Quit) ==> r
                == Some(Action::Quit),
    {
        let ghost vm = self.view@;
        let actions = self.suggest_actions();
        let mut i: usize = 0;
        while i < actions.len()
            invariant
                i <= actions@.len(),
                self.inv(),
                vm == self.view@,
                *self == *old(self),
                forall|a: Action| #[trigger] actions@.contains(a) <==> greedy_candidate(vm, a),
                forall|m: int, j: int|
                    0 <= m < j < actions@.len() ==> greedy_priority(actions@[m])
                        >= greedy_priority(actions@[j]),
                forall|j: int| 0 <= j < i ==> seen(self.memory(), vm, #[trigger] actions@[j]),
            decreases actions@.len() - i,
        {
            let a = actions[i];
            if !is_seen(&self.seen_state_action_combos, &self.view, &a) {
                let snap = self.view.duplicate();
                self.seen_state_action_combos.push((snap, a));
                if a == Action::Turnover {
                    if self.number_of_passes < u64::MAX {
                        self.number_of_passes += 1;
                    }
                }
                proof {
                    assert(actions@.contains(a));
                    assert forall|b: Action|
                        greedy_candidate(vm, b) && !seen(old(self).memory(), vm, b) implies
                        greedy_priority(b) <= greedy_priority(a) by {
                        assert(actions@.contains(b));
                        let j = choose|j: int| 0 <= j < actions@.len() && actions@[j] == b;
                        if j < i {
                            assert(seen(old(self).memory(), vm, actions@[j]));
                        }
                    }
                    assert(final(self).memory().subrange(0, old(self).memory().len() as int)
                        =~= old(self).memory());
                    if (forall|b: Action|
                        greedy_candidate(vm, b) && b != Action::Quit ==> seen(
                            old(self).memory(),
                            vm,
                            b,
                        )) && !seen(old(self).memory(), vm, Action::Quit) {
                        if a != Action::Quit {
                            assert(seen(old(self).memory(), vm, a));
                        }
                    }
                }
                return Some(a);
            }
            i += 1;
        }
        proof {
            assert forall|b: Action| greedy_candidate(vm, b) implies seen(
                self.memory(),
                vm,
                b,
            ) by {
                assert(actions@.contains(b));
                let j = choose|j: int| 0 <= j < actions@.len() && actions@[j] == b;
                assert(seen(self.memory(), vm, actions@[j]));
            }
            assert(greedy_candidate(vm, Action::Quit));
            assert(seen(self.memory(), vm, Action::Quit));
        }
        None
    }

    /// Produce all moves we would potentially like to make, best first:
    /// exactly the candidates of [`greedy_candidate`], in descending
    /// priority, ties in generation order.
    pub fn suggest_actions(&self) -> (actions: Vec<Action>)
        requires
            self.inv(),
        ensures
            forall|a: Action| #[trigger] actions@.contains(a) <==> greedy_candidate(
                self.view_model(),
                a,
            ),
            forall|i: int, j: int|
                0 <= i < j < actions@.len() ==> greedy_priority(actions@[i]) >= greedy_priority(
                    actions@[j],
                ),
    {
        let ghost vm = self.view@;
        if self.view.is_won() {
            let mut actions: Vec<Action> = Vec::new();
            actions.push(Action::Quit);
            proof {
                assert(actions@[0] == Action::Quit);
                assert forall|a: Action| #[trigger] actions@.contains(a) implies greedy_candidate(
                    vm,
                    a,
                ) by {
                    let j = choose|j: int| 0 <= j < actions@.len() && actions@[j] == a;
                }
            }
            return actions;
        }

        let mut actions: Vec<Action> = Vec::new();

        // Priority 10: build a single card onto a foundation.
        let mut i: usize = 0;
        while i < 8
            invariant
                i <= 8,
                self.inv(),
                vm == self.view@,
                !vm.is_won(),
                forall|m: int|
                    0 <= m < actions@.len() ==> greedy_candidate(vm, #[trigger] actions@[m]),
                forall|m: int, j: int|
                    0 <= m < j < actions@.len() ==> greedy_priority(actions@[m])
                        >= greedy_priority(actions@[j]),
                forall|m: int|
                    0 <= m < actions@.len() ==> greedy_priority(#[trigger] actions@[m]) >= 10,
                forall|k: int, t: int|
                    0 <= k < i && 0 <= t < 4 && foundation_build_ok(
                        vm,
                        dw_addr(k),
                        spec_foundation_addr(t),
                    ) ==> #[trigger] actions@.contains(
                        Action::Move(dw_addr(k), spec_foundation_addr(t), 1),
                    ),
            decreases 8 - i,
        {
            let from = dw_addr_at(i);
            if let Some(CardView::FaceUp(suit, value)) = self.view.card_at(&from, 1) {
                let mut t: usize = 0;
                while t < 4
                    invariant
                        t <= 4,
                        i < 8,
                        self.inv(),
                        vm == self.view@,
                        !vm.is_won(),
                        from == dw_addr(i as int),
                        vm.card_at(from, 1) == Some(CardView::FaceUp(suit, value)),
                        forall|m: int|
                            0 <= m < actions@.len() ==> greedy_candidate(
                                vm,
                                #[trigger] actions@[m],
                            ),
                        forall|m: int, j: int|
                            0 <= m < j < actions@.len() ==> greedy_priority(actions@[m])
                                >= greedy_priority(actions@[j]),
                        forall|m: int|
                            0 <= m < actions@.len() ==> greedy_priority(#[trigger] actions@[m])
                                >= 10,
                        forall|k: int, u: int|
                            0 <= k < i && 0 <= u < 4 && foundation_build_ok(
                                vm,
                                dw_addr(k),
                                spec_foundation_addr(u),
                            ) ==> #[trigger] actions@.contains(
                                Action::Move(dw_addr(k), spec_foundation_addr(u), 1),
                            ),
                        forall|u: int|
                            0 <= u < t && foundation_build_ok(
                                vm,
                                dw_addr(i as int),
                                spec_foundation_addr(u),
                            ) ==> #[trigger] actions@.contains(
                                Action::Move(
                                    dw_addr(i as int),
                                    spec_foundation_addr(u),
                                    1,
                                ),
                            ),
                    decreases 4 - t,
                {
                    let to_addr = foundation_addr(t);
                    match self.view.card_at(&to_addr, 1) {
                        None => {
                            if value.is_ace() {
                                actions.push(Action::Move(from, to_addr, 1));
                            }
                        },
                        Some(CardView::FaceUp(to_suit, to_value)) => {
                            if suit == to_suit
                                && value.numeric_value() as u16
                                    == to_value.numeric_value() as u16 + 1 {
                                actions.push(Action::Move(from, to_addr, 1));
                            }
                        },
                        Some(CardView::FaceDown) => {},
                    }
                    t += 1;
                }
            } else {
                proof {
                    assert forall|u: int|
                        0 <= u < 4 implies !foundation_build_ok(
                        vm,
                        dw_addr(i as int),
                        spec_foundation_addr(u),
                    ) by {}
                }
            }
            i += 1;
        }

        // Priority 5: reveal a column's face-down top card.
        let mut i: usize = 0;
        while i < 7
            invariant
                i <= 7,
                self.inv(),
                vm == self.view@,
                !vm.is_won(),
                forall|m: int|
                    0 <= m < actions@.len() ==> greedy_candidate(vm, #[trigger] actions@[m]),
                forall|m: int, j: int|
                    0 <= m < j < actions@.len() ==> greedy_priority(actions@[m])
                        >= greedy_priority(actions@[j]),
                forall|m: int|
                    0 <= m < actions@.len() ==> greedy_priority(#[trigger] actions@[m]) >= 5,
                forall|k: int, t: int|
                    0 <= k < 8 && 0 <= t < 4 && foundation_build_ok(
                        vm,
                        dw_addr(k),
                        spec_foundation_addr(t),
                    ) ==> #[trigger] actions@.contains(
                        Action::Move(dw_addr(k), spec_foundation_addr(t), 1),
                    ),
                forall|k: int|
                    0 <= k < i && reveal_ok_view(vm, spec_depot_addr(k)) ==> #[trigger] actions@.contains(
                        Action::Reveal(spec_depot_addr(k)),
                    ),
            decreases 7 - i,
        {
            let ad = depot_addr(i);
            let pile = &self.view.depots[i];
            if pile.len() > 0 {
                if let CardView::FaceDown = pile[pile.len() - 1] {
                    actions.push(Action::Reveal(ad));
                }
            }
            i += 1;
        }

        // Priority 5 still: play the waste's top card onto a column.
        let max_from_waste = self.view.n_takeable_cards(&Addr::Waste);
        if max_from_waste >= 1 {
            let mut t: usize = 0;
            while t < 7
                invariant
                    t <= 7,
                    self.inv(),
                    vm == self.view@,
                    !vm.is_won(),
                    vm.n_takeable(Addr::Waste) >= 1,
                    forall|m: int|
                        0 <= m < actions@.len() ==> greedy_candidate(vm, #[trigger] actions@[m]),
                    forall|m: int, j: int|
                        0 <= m < j < actions@.len() ==> greedy_priority(actions@[m])
                            >= greedy_priority(actions@[j]),
                    forall|m: int|
                        0 <= m < actions@.len() ==> greedy_priority(#[trigger] actions@[m]) >= 5,
                    forall|k: int, u: int|
                        0 <= k < 8 && 0 <= u < 4 && foundation_build_ok(
                            vm,
                            dw_addr(k),
                            spec_foundation_addr(u),
                        ) ==> #[trigger] actions@.contains(
                            Action::Move(dw_addr(k), spec_foundation_addr(u), 1),
                        ),
                    forall|k: int|
                        0 <= k < 7 && reveal_ok_view(vm, spec_depot_addr(k)) ==> #[trigger] actions@.contains(
                            Action::Reveal(spec_depot_addr(k)),
                        ),
                    forall|u: int, n: int|
                        0 <= u < t && depot_build_ok(vm, Addr::Waste, spec_depot_addr(u), n)
                            ==> #[trigger] actions@.contains(
                            Action::Move(Addr::Waste, spec_depot_addr(u), n as usize),
                        ),
                decreases 7 - t,
            {
                let to = depot_addr(t);
                match self.view.card_at(&Addr::Waste, 1) {
                    Some(CardView::FaceUp(suit, value)) => {
                        match self.view.card_at(&to, 1) {
                            None => {
                                if value.is_king() {
                                    actions.push(Action::Move(Addr::Waste, to, 1));
                                }
                            },
                            Some(CardView::FaceUp(suit2, value2)) => {
                                if suit.color() != suit2.color()
                                    && value.numeric_value() as u16 + 1
                                        == value2.numeric_value() as u16 {
                                    actions.push(Action::Move(Addr::Waste, to, 1));
                                }
                            },
                            Some(CardView::FaceDown) => {},
                        }
                    },
                    _ => {},
                }
                proof {
                    assert forall|n: int|
                        depot_build_ok(vm, Addr::Waste, spec_depot_addr(t as int), n)
                            implies n == 1 by {}
                }
                t += 1;
            }
        }

        // Priority 0: grow the sequences in the tableaux.
        let mut k: usize = 0;
        while k < 7
            invariant
                k <= 7,
                self.inv(),
                vm == self.view@,
                !vm.is_won(),
                forall|m: int|
                    0 <= m < actions@.len() ==> greedy_candidate(vm, #[trigger] actions@[m]),
                forall|m: int, j: int|
                    0 <= m < j < actions@.len() ==> greedy_priority(actions@[m])
                        >= greedy_priority(actions@[j]),
                forall|m: int|
                    0 <= m < actions@.len() ==> greedy_priority(#[trigger] actions@[m]) >= 0,
                forall|q: int, t: int|
                    0 <= q < 8 && 0 <= t < 4 && foundation_build_ok(
                        vm,
                        dw_addr(q),
                        spec_foundation_addr(t),
                    ) ==> #[trigger] actions@.contains(
                        Action::Move(dw_addr(q), spec_foundation_addr(t), 1),
                    ),
                forall|q: int|
                    0 <= q < 7 && reveal_ok_view(vm, spec_depot_addr(q)) ==> #[trigger] actions@.contains(
                        Action::Reveal(spec_depot_addr(q)),
                    ),
                forall|u: int, n: int|
                    0 <= u < 7 && depot_build_ok(vm, Addr::Waste, spec_depot_addr(u), n)
                        ==> #[trigger] actions@.contains(
                        Action::Move(Addr::Waste, spec_depot_addr(u), n as usize),
                    ),
                forall|q: int, u: int, n: int|
                    0 <= q < k && 0 <= u < 7 && depot_build_ok(
                        vm,
                        spec_depot_addr(q),
                        spec_depot_addr(u),
                        n,
                    ) ==> #[trigger] actions@.contains(
                        Action::Move(spec_depot_addr(q), spec_depot_addr(u), n as usize),
                    ),
            decreases 7 - k,
        {
            let from = depot_addr(k);
            let max_cards_to_move = self.view.n_takeable_cards(&from);
            let mut t: usize = 0;
            while t < 7
                invariant
                    t <= 7,
                    k < 7,
                    self.inv(),
                    vm == self.view@,
                    !vm.is_won(),
                    from == spec_depot_addr(k as int),
                    max_cards_to_move as nat == vm.n_takeable(from),
                    forall|m: int|
                        0 <= m < actions@.len() ==> greedy_candidate(vm, #[trigger] actions@[m]),
                    forall|m: int, j: int|
                        0 <= m < j < actions@.len() ==> greedy_priority(actions@[m])
                            >= greedy_priority(actions@[j]),
                    forall|m: int|
                        0 <= m < actions@.len() ==> greedy_priority(#[trigger] actions@[m]) >= 0,
                    forall|q: int, u: int|
                        0 <= q < 8 && 0 <= u < 4 && foundation_build_ok(
                            vm,
                            dw_addr(q),
                            spec_foundation_addr(u),
                        ) ==> #[trigger] actions@.contains(
                            Action::Move(dw_addr(q), spec_foundation_addr(u), 1),
                        ),
                    forall|q: int|
                        0 <= q < 7 && reveal_ok_view(vm, spec_depot_addr(q)) ==> #[trigger] actions@.contains(
                            Action::Reveal(spec_depot_addr(q)),
                        ),
                    forall|u: int, n: int|
                        0 <= u < 7 && depot_build_ok(vm, Addr::Waste, spec_depot_addr(u), n)
                            ==> #[trigger] actions@.contains(
                            Action::Move(Addr::Waste, spec_depot_addr(u), n as usize),
                        ),
                    forall|q: int, u: int, n: int|
                        0 <= q < k && 0 <= u < 7 && depot_build_ok(
                            vm,
                            spec_depot_addr(q),
                            spec_depot_addr(u),
                            n,
                        ) ==> #[trigger] actions@.contains(
                            Action::Move(
                                spec_depot_addr(q),
                                spec_depot_addr(u),
                                n as usize,
                            ),
                        ),
                    forall|u: int, n: int|
                        0 <= u < t && depot_build_ok(
                            vm,
                            spec_depot_addr(k as int),
                            spec_depot_addr(u),
                            n,
                        ) ==> #[trigger] actions@.contains(
                            Action::Move(
                                spec_depot_addr(k as int),
                                spec_depot_addr(u),
                                n as usize,
                            ),
                        ),
                decreases 7 - t,
            {
                if t != k {
                    let to = depot_addr(t);
                    let mut idx: usize = 0;
                    while idx < max_cards_to_move
                        invariant
                            idx <= max_cards_to_move,
                            t < 7,
                            k < 7,
                            t != k,
                            self.inv(),
                            vm == self.view@,
                            !vm.is_won(),
                            from == spec_depot_addr(k as int),
                            to == spec_depot_addr(t as int),
                            max_cards_to_move as nat == vm.n_takeable(from),
                            forall|m: int|
                                0 <= m < actions@.len() ==> greedy_candidate(
                                    vm,
                                    #[trigger] actions@[m],
                                ),
                            forall|m: int, j: int|
                                0 <= m < j < actions@.len() ==> greedy_priority(actions@[m])
                                    >= greedy_priority(actions@[j]),
                            forall|m: int|
                                0 <= m < actions@.len() ==> greedy_priority(#[trigger] actions@[m])
                                    >= 0,
                            forall|q: int, u: int|
                                0 <= q < 8 && 0 <= u < 4 && foundation_build_ok(
                                    vm,
                                    dw_addr(q),
                                    spec_foundation_addr(u),
                                ) ==> #[trigger] actions@.contains(
                                    Action::Move(
                                        dw_addr(q),
                                        spec_foundation_addr(u),
                                        1,
                                    ),
                                ),
                            forall|q: int|
                                0 <= q < 7 && reveal_ok_view(vm, spec_depot_addr(q))
                                    ==> #[trigger] actions@.contains(
                                    Action::Reveal(spec_depot_addr(q)),
                                ),
                            forall|u: int, nn: int|
                                0 <= u < 7 && depot_build_ok(
                                    vm,
                                    Addr::Waste,
                                    spec_depot_addr(u),
                                    nn,
                                ) ==> #[trigger] actions@.contains(
                                    Action::Move(
                                        Addr::Waste,
                                        spec_depot_addr(u),
                                        nn as usize,
                                    ),
                                ),
                            forall|q: int, u: int, nn: int|
                                0 <= q < k && 0 <= u < 7 && depot_build_ok(
                                    vm,
                                    spec_depot_addr(q),
                                    spec_depot_addr(u),
                                    nn,
                                ) ==> #[trigger] actions@.contains(
                                    Action::Move(
                                        spec_depot_addr(q),
                                        spec_depot_addr(u),
                                        nn as usize,
                                    ),
                                ),
                            forall|u: int, nn: int|
                                0 <= u < t && depot_build_ok(
                                    vm,
                                    spec_depot_addr(k as int),
                                    spec_depot_addr(u),
                                    nn,
                                ) ==> #[trigger] actions@.contains(
                                    Action::Move(
                                        spec_depot_addr(k as int),
                                        spec_depot_addr(u),
                                        nn as usize,
                                    ),
                                ),
                            forall|nn: int|
                                1 <= nn <= idx && depot_build_ok(
                                    vm,
                                    spec_depot_addr(k as int),
                                    spec_depot_addr(t as int),
                                    nn,
                                ) ==> #[trigger] actions@.contains(
                                    Action::Move(
                                        spec_depot_addr(k as int),
                                        spec_depot_addr(t as int),
                                        nn as usize,
                                    ),
                                ),
                        decreases max_cards_to_move - idx,
                    {
                        let n = idx + 1;
                        match self.view.card_at(&from, n) {
                            Some(CardView::FaceUp(suit, value)) => {
                                match self.view.card_at(&to, 1) {
                                    None => {
                                        if value.is_king() {
                                            actions.push(Action::Move(from, to, n));
                                        }
                                    },
                                    Some(CardView::FaceUp(suit2, value2)) => {
                                        if suit.color() != suit2.color()
                                            && value.numeric_value() as u16 + 1
                                                == value2.numeric_value() as u16 {
                                            actions.push(Action::Move(from, to, n));
                                        }
                                    },
                                    Some(CardView::FaceDown) => {},
                                }
                            },
                            _ => {},
                        }
                        idx += 1;
                    }
                }
                t += 1;
            }
            k += 1;
        }

        // Priority 0 still: take from the talon.
        if self.view.talon_size != 0 {
            actions.push(Action::Take);
        }

        // Priority -100: turn the waste over to form a new talon.
        if self.view.waste.len() > 0 && self.view.talon_size == 0 {
            actions.push(Action::Turnover);
        }

        // Priority -200: give up.
        actions.push(Action::Quit);

        proof {
            assert forall|a: Action| greedy_candidate(vm, a) implies #[trigger] actions@.contains(
                a,
            ) by {
                match a {
                    Action::Move(f, t, n) => {
                        if n == 1 && foundation_build_ok(vm, f, t) {
                            lemma_dw_addr_complete(f);
                            lemma_foundation_addr_complete(t);
                            let q = choose|q: int| 0 <= q < 8 && dw_addr(q) == f;
                            assert(actions@.contains(
                                Action::Move(dw_addr(q), spec_foundation_addr(t.spec_index()), 1),
                            ));
                        } else {
                            assert(depot_build_ok(vm, f, t, n as int));
                            lemma_depot_addr_complete(t);
                            if f.spec_is_waste() {
                                assert(actions@.contains(
                                    Action::Move(
                                        Addr::Waste,
                                        spec_depot_addr(t.spec_index()),
                                        (n as int) as usize,
                                    ),
                                ));
                            } else {
                                lemma_depot_addr_complete(f);
                                assert(actions@.contains(
                                    Action::Move(
                                        spec_depot_addr(f.spec_index()),
                                        spec_depot_addr(t.spec_index()),
                                        (n as int) as usize,
                                    ),
                                ));
                            }
                        }
                    },
                    Action::Reveal(ad) => {
                        lemma_depot_addr_complete(ad);
                        assert(actions@.contains(Action::Reveal(spec_depot_addr(ad.spec_index()))));
                    },
                    _ => {
                        assert(actions@.contains(a));
                    },
                }
            }
            assert forall|a: Action| #[trigger] actions@.contains(a) implies greedy_candidate(
                vm,
                a,
            ) by {
                let j = choose|j: int| 0 <= j < actions@.len() && actions@[j] == a;
            }
        }
        actions
    }

    /// Feed the result of an action back into the planner's own view.
    pub fn update_view(&mut self, action: Action, res: Option<(Suit, Value)>) -> (ok: bool)
        requires
            old(self).inv(),
        ensures
            final(self).inv(),
            final(self).memory() == old(self).memory(),
            final(self).passes() == old(self).passes(),
            ok == update_pre(old(self).view_model(), action, res),
            ok ==> final(self).view_model() == update_step(old(self).view_model(), action, res),
            !ok ==> final(self).view_model() == old(self).view_model(),
    {
        self.view.update(action, res)
    }
}

impl Ai for GreedyAi {
    open spec fn wf(&self) -> bool {
        self.inv()
    }

    fn make_move(&mut self) -> (r: Option<Action>) {
        self.calc_action()
    }

    fn name(&self) -> (r: &'static str) {
        "GreedyAi"
    }

    fn update(&mut self, action: Action, res: Option<(Suit, Value)>) -> (ok: bool) {
        self.update_view(action, res)
    }
}

} // verus!
