//! A simple planner: candidates come in a fixed order of categories —
//! foundation builds, reveals, column-sequence builds, draw, turnover,
//! give up — with two extra rules of thumb that hold low waste cards back.

use crate::ai::{
    bump_passes, depot_build_ok, dw_addr, dw_addr_at, foundation_build_ok, is_seen,
    lemma_dw_addr_complete, reveal_ok_view, seen, update_pre, update_step, view_equiv, Ai,
    SolitaireObserver, ViewModel,
};
use crate::cards::{
    depot_addr, foundation_addr, lemma_depot_addr_complete, lemma_foundation_addr_complete,
    spec_depot_addr, spec_foundation_addr, Addr, CardView, Suit, Value,
};
use crate::game::Action;
use vstd::prelude::*;

verus! {

broadcast use vstd::seq_lib::lemma_seq_contains_after_push;

/// The simple planner's extra domain rules, applied to column builds from
/// the waste: never move a two off the waste into a column, and keep waste
/// cards below five back until at least one full talon pass has completed.
pub open spec fn simple_filtered(v: ViewModel, passes: u64, from: Addr) -> bool {
    from.spec_is_waste() && v.waste.len() > 0 && {
        let val = v.waste.last().1.val();
        ||| val == 2
        ||| (val < 5 && passes == 0)
    }
}

/// Which actions the simple planner considers in a position: the greedy
/// planner's candidates, minus the column builds that
/// [`simple_filtered`] holds back.
pub open spec fn simple_candidate(v: ViewModel, passes: u64, a: Action) -> bool {
    if v.is_won() {
        a == Action::Quit
    } else {
        match a {
            Action::Quit => true,
            Action::Take => v.talon_size != 0,
            Action::Turnover => v.waste.len() > 0 && v.talon_size == 0,
            Action::Reveal(ad) => reveal_ok_view(v, ad),
            Action::Move(from, to, n) => (n == 1 && foundation_build_ok(v, from, to)) || (
            depot_build_ok(v, from, to, n as int) && !simple_filtered(v, passes, from)),
        }
    }
}

/// The category order the simple planner returns candidates in.
pub open spec fn simple_rank(a: Action) -> int {
    match a {
        Action::Move(_, to, _) => if to.spec_is_foundation() {
            0
        } else {
            2
        },
        Action::Reveal(_) => 1,
        Action::Take => 3,
        Action::Turnover => 4,
        Action::Quit => 5,
    }
}

/// The simple planner: its own copy of the view, and a memory of every
/// (position, action) pair it has returned, so that it never offers the
/// same move twice from the same position.
pub struct SimpleAi {
    seen_state_action_combos: Vec<(SolitaireObserver, Action)>,
    // how many passes through the deck have we made?
    number_of_passes: u64,
    view: SolitaireObserver,
}

impl SimpleAi {
    /// The recorded (position, action) pairs, oldest first.
    pub closed spec fn memory(&self) -> Seq<(SolitaireObserver, Action)> {
        self.seen_state_action_combos@
    }

    /// The planner's current view of the game.
    pub closed spec fn view_model(&self) -> ViewModel {
        self.view@
    }

    /// Completed talon passes (returned Turnover actions).
    pub closed spec fn passes(&self) -> u64 {
        self.number_of_passes
    }

    pub closed spec fn inv(&self) -> bool {
        self.view@.wf()
    }

    pub fn new(view: SolitaireObserver) -> (r: SimpleAi)
        requires
            view.wf(),
        ensures
            r.inv(),
            r.memory() == Seq::<(SolitaireObserver, Action)>::empty(),
            r.passes() == 0,
            r.view_model() == view@,
    {
        SimpleAi { seen_state_action_combos: Vec::new(), number_of_passes: 0, view }
    }

    /// Produce all moves we would potentially like to make, in the fixed
    /// category order of [`simple_rank`]: exactly the candidates of
    /// [`simple_candidate`].
    pub fn suggest_actions(&self) -> (actions: Vec<Action>)
        requires
            self.inv(),
        ensures
            forall|a: Action| #[trigger] actions@.contains(a) <==> simple_candidate(
                self.view_model(),
                self.passes(),
                a,
            ),
            forall|i: int, j: int|
                0 <= i < j < actions@.len() ==> simple_rank(actions@[i]) <= simple_rank(
                    actions@[j],
                ),
    {
        let ghost vm = self.view@;
        let ghost ps = self.number_of_passes;
        if self.view.is_won() {
            let mut actions: Vec<Action> = Vec::new();
            actions.push(Action::Quit);
            proof {
                assert(actions@[0] == Action::Quit);
                assert forall|a: Action| #[trigger] actions@.contains(a) implies simple_candidate(
                    vm,
                    ps,
                    a,
                ) by {
                    let j = choose|j: int| 0 <= j < actions@.len() && actions@[j] == a;
                }
            }
            return actions;
        }

        let mut actions: Vec<Action> = Vec::new();

        // Build on foundations.
        let mut i: usize = 0;
        while i < 8
            invariant
                i <= 8,
                self.inv(),
                vm == self.view@,
                ps == self.number_of_passes,
                !vm.is_won(),
                forall|m: int|
                    0 <= m < actions@.len() ==> simple_candidate(vm, ps, #[trigger] actions@[m]),
                forall|m: int, j: int|
                    0 <= m < j < actions@.len() ==> simple_rank(actions@[m]) <= simple_rank(
                        actions@[j],
                    ),
                forall|m: int| 0 <= m < actions@.len() ==> simple_rank(#[trigger] actions@[m]) == 0,
                forall|k: int, t: int|
                    0 <= k < i && 0 <= t < 4 && foundation_build_ok(
                        vm,
                        dw_addr(k),
                        spec_foundation_addr(t),
                    ) ==> #[trigger] actions@.contains(
                        Action::Move(dw_addr(k), spec_foundation_addr(t), 1),
                    ),
            decreases 8 - i,
        {
            let from = dw_addr_at(i);
            if let Some(CardView::FaceUp(suit, value)) = self.view.card_at(&from, 1) {
                let mut t: usize = 0;
                while t < 4
                    invariant
                        t <= 4,
                        i < 8,
                        self.inv(),
                        vm == self.view@,
                        ps == self.number_of_passes,
                        !vm.is_won(),
                        from == dw_addr(i as int),
                        vm.card_at(from, 1) == Some(CardView::FaceUp(suit, value)),
                        forall|m: int|
                            0 <= m < actions@.len() ==> simple_candidate(
                                vm,
                                ps,
                                #[trigger] actions@[m],
                            ),
                        forall|m: int, j: int|
                            0 <= m < j < actions@.len() ==> simple_rank(actions@[m]) <= simple_rank(
                                actions@[j],
                            ),
                        forall|m: int|
                            0 <= m < actions@.len() ==> simple_rank(#[trigger] actions@[m]) == 0,
                        forall|k: int, u: int|
                            0 <= k < i && 0 <= u < 4 && foundation_build_ok(
                                vm,
                                dw_addr(k),
                                spec_foundation_addr(u),
                            ) ==> #[trigger] actions@.contains(
                                Action::Move(dw_addr(k), spec_foundation_addr(u), 1),
                            ),
                        forall|u: int|
                            0 <= u < t && foundation_build_ok(
                                vm,
                                dw_addr(i as int),
                                spec_foundation_addr(u),
                            ) ==> #[trigger] actions@.contains(
                                Action::Move(dw_addr(i as int), spec_foundation_addr(u), 1),
                            ),
                    decreases 4 - t,
                {
                    let to_addr = foundation_addr(t);
                    match self.view.card_at(&to_addr, 1) {
                        None => {
                            if value.is_ace() {
                                actions.push(Action::Move(from, to_addr, 1));
                            }
                        },
                        Some(CardView::FaceUp(to_suit, to_value)) => {
                            if suit == to_suit
                                && value.numeric_value() as u16
                                    == to_value.numeric_value() as u16 + 1 {
                                actions.push(Action::Move(from, to_addr, 1));
                            }
                        },
                        Some(CardView::FaceDown) => {},
                    }
                    t += 1;
                }
            } else {
                proof {
                    assert forall|u: int|
                        0 <= u < 4 implies !foundation_build_ok(
                        vm,
                        dw_addr(i as int),
                        spec_foundation_addr(u),
                    ) by {}
                }
            }
            i += 1;
        }

        // Try to reveal a card.
        let mut i: usize = 0;
        while i < 7
            invariant
                i <= 7,
                self.inv(),
                vm == self.view@,
                ps == self.number_of_passes,
                !vm.is_won(),
                forall|m: int|
                    0 <= m < actions@.len() ==> simple_candidate(vm, ps, #[trigger] actions@[m]),
                forall|m: int, j: int|
                    0 <= m < j < actions@.len() ==> simple_rank(actions@[m]) <= simple_rank(
                        actions@[j],
                    ),
                forall|m: int| 0 <= m < actions@.len() ==> simple_rank(#[trigger] actions@[m]) <= 1,
                forall|k: int, t: int|
                    0 <= k < 8 && 0 <= t < 4 && foundation_build_ok(
                        vm,
                        dw_addr(k),
                        spec_foundation_addr(t),
                    ) ==> #[trigger] actions@.contains(
                        Action::Move(dw_addr(k), spec_foundation_addr(t), 1),
                    ),
                forall|k: int|
                    0 <= k < i && reveal_ok_view(vm, spec_depot_addr(k))
                        ==> #[trigger] actions@.contains(Action::Reveal(spec_depot_addr(k))),
            decreases 7 - i,
        {
            let ad = depot_addr(i);
            let pile = &self.view.depots[i];
            if pile.len() > 0 {
                if let CardView::FaceDown = pile[pile.len() - 1] {
                    actions.push(Action::Reveal(ad));
                }
            }
            i += 1;
        }

        // Try to grow the sequences in the tableaux, minus the filters.
        let mut k: usize = 0;
        while k < 8
            invariant
                k <= 8,
                self.inv(),
                vm == self.view@,
                ps == self.number_of_passes,
                !vm.is_won(),
                forall|m: int|
                    0 <= m < actions@.len() ==> simple_candidate(vm, ps, #[trigger] actions@[m]),
                forall|m: int, j: int|
                    0 <= m < j < actions@.len() ==> simple_rank(actions@[m]) <= simple_rank(
                        actions@[j],
                    ),
                forall|m: int| 0 <= m < actions@.len() ==> simple_rank(#[trigger] actions@[m]) <= 2,
                forall|q: int, t: int|
                    0 <= q < 8 && 0 <= t < 4 && foundation_build_ok(
                        vm,
                        dw_addr(q),
                        spec_foundation_addr(t),
                    ) ==> #[trigger] actions@.contains(
                        Action::Move(dw_addr(q), spec_foundation_addr(t), 1),
                    ),
                forall|q: int|
                    0 <= q < 7 && reveal_ok_view(vm, spec_depot_addr(q))
                        ==> #[trigger] actions@.contains(Action::Reveal(spec_depot_addr(q))),
                forall|q: int, u: int, n: int|
                    0 <= q < k && 0 <= u < 7 && depot_build_ok(
                        vm,
                        dw_addr(q),
                        spec_depot_addr(u),
                        n,
                    ) && !simple_filtered(vm, ps, dw_addr(q)) ==> #[trigger] actions@.contains(
                        Action::Move(dw_addr(q), spec_depot_addr(u), n as usize),
                    ),
            decreases 8 - k,
        {
            let from = dw_addr_at(k);
            let max_cards_to_move = self.view.n_takeable_cards(&from);
            let mut filtered = false;
            if from.is_waste() {
                if self.view.waste.len() > 0 {
                    let c = self.view.waste[self.view.waste.len() - 1];
                    // Don't move twos from the hand to the tableaux — they
                    // can only ever block other cards; and don't move low
                    // values over too early.
                    if c.1.numeric_value() == 2 {
                        filtered = true;
                    }
                    if c.1.numeric_value() < 5 && self.number_of_passes == 0 {
                        filtered = true;
                    }
                }
            }
            if max_cards_to_move >= 1 && !filtered {
                let mut t: usize = 0;
                while t < 7
                    invariant
                        t <= 7,
                        k < 8,
                        self.inv(),
                        vm == self.view@,
                        ps == self.number_of_passes,
                        !vm.is_won(),
                        from == dw_addr(k as int),
                        !simple_filtered(vm, ps, from),
                        max_cards_to_move as nat == vm.n_takeable(from),
                        forall|m: int|
                            0 <= m < actions@.len() ==> simple_candidate(
                                vm,
                                ps,
                                #[trigger] actions@[m],
                            ),
                        forall|m: int, j: int|
                            0 <= m < j < actions@.len() ==> simple_rank(actions@[m]) <= simple_rank(
                                actions@[j],
                            ),
                        forall|m: int|
                            0 <= m < actions@.len() ==> simple_rank(#[trigger] actions@[m]) <= 2,
                        forall|q: int, u: int|
                            0 <= q < 8 && 0 <= u < 4 && foundation_build_ok(
                                vm,
                                dw_addr(q),
                                spec_foundation_addr(u),
                            ) ==> #[trigger] actions@.contains(
                                Action::Move(dw_addr(q), spec_foundation_addr(u), 1),
                            ),
                        forall|q: int|
                            0 <= q < 7 && reveal_ok_view(vm, spec_depot_addr(q))
                                ==> #[trigger] actions@.contains(
                                Action::Reveal(spec_depot_addr(q)),
                            ),
                        forall|q: int, u: int, n: int|
                            0 <= q < k && 0 <= u < 7 && depot_build_ok(
                                vm,
                                dw_addr(q),
                                spec_depot_addr(u),
                                n,
                            ) && !simple_filtered(vm, ps, dw_addr(q))
                                ==> #[trigger] actions@.contains(
                                Action::Move(dw_addr(q), spec_depot_addr(u), n as usize),
                            ),
                        forall|u: int, n: int|
                            0 <= u < t && depot_build_ok(vm, dw_addr(k as int), spec_depot_addr(u), n)
                                ==> #[trigger] actions@.contains(
                                Action::Move(dw_addr(k as int), spec_depot_addr(u), n as usize),
                            ),
                    decreases 7 - t,
                {
                    let skip = if k < 7 {
                        t == k
                    } else {
                        false
                    };
                    if !skip {
                        let to = depot_addr(t);
                        let mut idx: usize = 0;
                        while idx < max_cards_to_move
                            invariant
                                idx <= max_cards_to_move,
                                t < 7,
                                k < 8,
                                (k < 7 ==> t != k),
                                self.inv(),
                                vm == self.view@,
                                ps == self.number_of_passes,
                                !vm.is_won(),
                                from == dw_addr(k as int),
                                to == spec_depot_addr(t as int),
                                to != from,
                                !simple_filtered(vm, ps, from),
                                max_cards_to_move as nat == vm.n_takeable(from),
                                forall|m: int|
                                    0 <= m < actions@.len() ==> simple_candidate(
                                        vm,
                                        ps,
                                        #[trigger] actions@[m],
                                    ),
                                forall|m: int, j: int|
                                    0 <= m < j < actions@.len() ==> simple_rank(actions@[m])
                                        <= simple_rank(actions@[j]),
                                forall|m: int|
                                    0 <= m < actions@.len() ==> simple_rank(#[trigger] actions@[m])
                                        <= 2,
                                forall|q: int, u: int|
                                    0 <= q < 8 && 0 <= u < 4 && foundation_build_ok(
                                        vm,
                                        dw_addr(q),
                                        spec_foundation_addr(u),
                                    ) ==> #[trigger] actions@.contains(
                                        Action::Move(dw_addr(q), spec_foundation_addr(u), 1),
                                    ),
                                forall|q: int|
                                    0 <= q < 7 && reveal_ok_view(vm, spec_depot_addr(q))
                                        ==> #[trigger] actions@.contains(
                                        Action::Reveal(spec_depot_addr(q)),
                                    ),
                                forall|q: int, u: int, nn: int|
                                    0 <= q < k && 0 <= u < 7 && depot_build_ok(
                                        vm,
                                        dw_addr(q),
                                        spec_depot_addr(u),
                                        nn,
                                    ) && !simple_filtered(vm, ps, dw_addr(q))
                                        ==> #[trigger] actions@.contains(
                                        Action::Move(dw_addr(q), spec_depot_addr(u), nn as usize),
                                    ),
                                forall|u: int, nn: int|
                                    0 <= u < t && depot_build_ok(
                                        vm,
                                        dw_addr(k as int),
                                        spec_depot_addr(u),
                                        nn,
                                    ) ==> #[trigger] actions@.contains(
                                        Action::Move(
                                            dw_addr(k as int),
                                            spec_depot_addr(u),
                                            nn as usize,
                                        ),
                                    ),
                                forall|nn: int|
                                    1 <= nn <= idx && depot_build_ok(
                                        vm,
                                        dw_addr(k as int),
                                        spec_depot_addr(t as int),
                                        nn,
                                    ) ==> #[trigger] actions@.contains(
                                        Action::Move(
                                            dw_addr(k as int),
                                            spec_depot_addr(t as int),
                                            nn as usize,
                                        ),
                                    ),
                            decreases max_cards_to_move - idx,
                        {
                            let n = idx + 1;
                            match self.view.card_at(&from, n) {
                                Some(CardView::FaceUp(suit, value)) => {
                                    match self.view.card_at(&to, 1) {
                                        None => {
                                            if value.is_king() {
                                                actions.push(Action::Move(from, to, n));
                                            }
                                        },
                                        Some(CardView::FaceUp(suit2, value2)) => {
                                            if suit.color() != suit2.color()
                                                && value.numeric_value() as u16 + 1
                                                    == value2.numeric_value() as u16 {
                                                actions.push(Action::Move(from, to, n));
                                            }
                                        },
                                        Some(CardView::FaceDown) => {},
                                    }
                                },
                                _ => {},
                            }
                            idx += 1;
                        }
                    }
                    t += 1;
                }
            } else {
                proof {
                    assert forall|u: int, n: int|
                        0 <= u < 7 && depot_build_ok(vm, dw_addr(k as int), spec_depot_addr(u), n)
                            implies simple_filtered(vm, ps, dw_addr(k as int)) by {}
                }
            }
            k += 1;
        }

        // Take from the talon.
        if self.view.talon_size != 0 {
            actions.push(Action::Take);
        }

        // Turn over the talon.
        if self.view.waste.len() > 0 && self.view.talon_size == 0 {
            actions.push(Action::Turnover);
        }

        // Give up.
        actions.push(Action::Quit);

        proof {
            assert forall|a: Action| simple_candidate(vm, ps, a) implies #[trigger] actions@
                .contains(a) by {
                match a {
                    Action::Move(f, t, n) => {
                        if n == 1 && foundation_build_ok(vm, f, t) {
                            lemma_dw_addr_complete(f);
                            lemma_foundation_addr_complete(t);
                            let q = choose|q: int| 0 <= q < 8 && dw_addr(q) == f;
                            assert(actions@.contains(
                                Action::Move(dw_addr(q), spec_foundation_addr(t.spec_index()), 1),
                            ));
                        } else {
                            assert(depot_build_ok(vm, f, t, n as int) && !simple_filtered(
                                vm,
                                ps,
                                f,
                            ));
                            lemma_dw_addr_complete(f);
                            lemma_depot_addr_complete(t);
                            let q = choose|q: int| 0 <= q < 8 && dw_addr(q) == f;
                            assert(actions@.contains(
                                Action::Move(
                                    dw_addr(q),
                                    spec_depot_addr(t.spec_index()),
                                    (n as int) as usize,
                                ),
                            ));
                        }
                    },
                    Action::Reveal(ad) => {
                        lemma_depot_addr_complete(ad);
                        assert(actions@.contains(Action::Reveal(spec_depot_addr(ad.spec_index()))));
                    },
                    _ => {
                        assert(actions@.contains(a));
                    },
                }
            }
            assert forall|a: Action| #[trigger] actions@.contains(a) implies simple_candidate(
                vm,
                ps,
                a,
            ) by {
                let j = choose|j: int| 0 <= j < actions@.len() && actions@[j] == a;
            }
        }
        actions
    }

    /// Provide a single move: the first candidate in category order not
    /// yet recorded against the current position. The chosen pair is
    /// recorded before it is returned; `None` means every candidate was
    /// already recorded.
    pub fn calc_action(&mut self) -> (r: Option<Action>)
        requires
            old(self).inv(),
        ensures
            final(self).inv(),
            final(self).view_model() == old(self).view_model(),
            match r {
                Some(a) => {
                    &&& simple_candidate(old(self).view_model(), old(self).passes(), a)
                    &&& !seen(old(self).memory(), old(self).view_model(), a)
                    &&& forall|b: Action|
                        simple_candidate(old(self).view_model(), old(self).passes(), b) && !seen(
                            old(self).memory(),
                            old(self).view_model(),
                            b,
                        ) ==> simple_rank(a) <= simple_rank(b)
                    &&& final(self).memory().len() == old(self).memory().len() + 1
                    &&& final(self).memory().subrange(0, old(self).memory().len() as int) == old(
                        self,
                    ).memory()
                    &&& final(self).memory().last().1 == a
                    &&& view_equiv(final(self).memory().last().0@, old(self).view_model())
                    &&& final(self).passes() == bump_passes(
                        old(self).passes(),
                        a == Action::Turnover,
                    )
                },
                None => {
                    &&& forall|b: Action|
                        simple_candidate(old(self).view_model(), old(self).passes(), b) ==> seen(
                            old(self).memory(),
                            old(self).view_model(),
                            b,
                        )
                    &&& final(self).memory() == old(self).memory()
                    &&& final(self).passes() == old(self).passes()
                },
            },
            // the termination fallback: with every other candidate already
            // recorded and Quit still fresh, the answer is Quit
            (forall|b: Action|
                simple_candidate(old(self).view_model(), old(self).passes(), b) && b
                    != Action::Quit ==> seen(old(self).memory(), old(self).view_model(), b))
                && !seen(old(self).memory(), old(self).view_model(), Action::Quit) ==> r == Some(
                Action::Quit,
            ),
    {
        let ghost vm = self.view@;
        let ghost ps = self.number_of_passes;
        let actions = self.suggest_actions();
        let mut i: usize = 0;
        while i < actions.len()
            invariant
                i <= actions@.len(),
                self.inv(),
                vm == self.view@,
                ps == self.number_of_passes,
                *self == *old(self),
                forall|a: Action| #[trigger] actions@.contains(a) <==> simple_candidate(vm, ps, a),
                forall|m: int, j: int|
                    0 <= m < j < actions@.len() ==> simple_rank(actions@[m]) <= simple_rank(
                        actions@[j],
                    ),
                forall|j: int| 0 <= j < i ==> seen(self.memory(), vm, #[trigger] actions@[j]),
            decreases actions@.len() - i,
        {
            let a = actions[i];
            if !is_seen(&self.seen_state_action_combos, &self.view, &a) {
                let snap = self.view.duplicate();
                self.seen_state_action_combos.push((snap, a));
                if a == Action::Turnover {
                    if self.number_of_passes < u64::MAX {
                        self.number_of_passes += 1;
                    }
                }
                proof {
                    assert(actions@.contains(a));
                    assert forall|b: Action|
                        simple_candidate(vm, ps, b) && !seen(old(self).memory(), vm, b) implies
                        simple_rank(a) <= simple_rank(b) by {
                        assert(actions@.contains(b));
                        let j = choose|j: int| 0 <= j < actions@.len() && actions@[j] == b;
                        if j < i {
                            assert(seen(old(self).memory(), vm, actions@[j]));
                        }
                    }
                    assert(final(self).memory().subrange(0, old(self).memory().len() as int)
                        =~= old(self).memory());
                    if (forall|b: Action|
                        simple_candidate(vm, ps, b) && b != Action::Quit ==> seen(
                            old(self).memory(),
                            vm,
                            b,
                        )) && !seen(old(self).memory(), vm, Action::Quit) {
                        if a != Action::Quit {
                            assert(seen(old(self).memory(), vm, a));
                        }
                    }
                }
                return Some(a);
            }
            i += 1;
        }
        proof {
            assert forall|b: Action| simple_candidate(vm, ps, b) implies seen(
                self.memory(),
                vm,
                b,
            ) by {
                assert(actions@.contains(b));
                let j = choose|j: int| 0 <= j < actions@.len() && actions@[j] == b;
                assert(seen(self.memory(), vm, actions@[j]));
            }
            assert(simple_candidate(vm, ps, Action::Quit));
            assert(seen(self.memory(), vm, Action::Quit));
        }
        None
    }

    /// Feed the result of an action back into the planner's own view.
    pub fn update_view(&mut self, action: Action, res: Option<(Suit, Value)>) -> (ok: bool)
        requires
            old(self).inv(),
        ensures
            final(self).inv(),
            final(self).memory() == old(self).memory(),
            final(self).passes() == old(self).passes(),
            ok == update_pre(old(self).view_model(), action, res),
            ok ==> final(self).view_model() == update_step(old(self).view_model(), action, res),
            !ok ==> final(self).view_model() == old(self).view_model(),
    {
        self.view.update(action, res)
    }
}

impl Ai for SimpleAi {
    open spec fn wf(&self) -> bool {
        self.inv()
    }

    fn make_move(&mut self) -> (r: Option<Action>) {
        self.calc_action()
    }

    fn name(&self) -> (r: &'static str) {
        "SimpleAi"
    }

    fn update(&mut self, action: Action, res: Option<(Suit, Value)>) -> (ok: bool) {
        self.update_view(action, res)
    }
}

} // verus!
