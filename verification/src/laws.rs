//! The engine's general laws, stated and proved over the abstract
//! transition [`step`]: which moves are always rejected, how the score is
//! floored, when the game is won, that every legal action conserves the
//! cards and keeps the piles' invariants, that the planners' view stays in
//! step with the engine on an action's result alone, and that every
//! candidate a planner generates from the true view is legal.

use crate::ai::greedy::greedy_candidate;
use crate::ai::simple::simple_candidate;
use crate::ai::{depot_build_ok, faceup_run, foundation_build_ok, update_pre, update_step};
use crate::cards::{lemma_value_from_int, lemma_value_injective, Addr, CardView, Suit, Value};
use crate::game::{
    action_legal, card_in_range, card_view_of, cards_of, cards_valid, column_ok, columns_ok,
    disclosed, idents_of, lemma_idents_append, lemma_idents_same, lemma_idents_split,
    lemma_multiset_transfer, lemma_piles_exchange, move_err_kind, move_ok, observe_model,
    piles_idents, piles_oriented, step, talon_face_down, Action, Card, GameModel, MoveErrorKind,
    State,
};
use vstd::prelude::*;

verus! {

/// Moving any number of cards but one from the waste is always rejected:
/// the waste (like a foundation) gives up a single card at a time.
pub proof fn lemma_waste_move_needs_single(m: GameModel, to: Addr, n: int)
    requires
        n != 1,
    ensures
        !move_ok(m, Addr::Waste, to, n),
        move_err_kind(m, Addr::Waste, to, n) == MoveErrorKind::Unspecified,
{
}

/// A turnover while the score is below one hundred leaves the score at
/// exactly zero: the deduction floors there and never drives it negative.
pub proof fn lemma_turnover_score_floor(m: GameModel)
    requires
        0 <= m.score < 100,
    ensures
        step(m, Action::Turnover).score == 0,
{
}

/// Out of a running, not-yet-complete position, a legal action wins the
/// game exactly when it leaves all four foundations holding their full
/// thirteen ranks.
///
/// The bound on the foundations' sizes rules out positions no play can
/// reach, such as a foundation already holding fourteen cards.
pub proof fn lemma_won_iff_foundations_complete(m: GameModel, a: Action)
    requires
        m.wf(),
        m.state == State::Running,
        !m.foundations_complete(),
        forall|i: int| 0 <= i < 4 ==> (#[trigger] m.foundations[i]).len() <= 13,
        action_legal(m, a),
    ensures
        step(m, a).state == State::Win <==> step(m, a).foundations_complete(),
{
    let m2 = step(m, a);
    let ghost w = choose|i: int| 0 <= i < 4 && m.foundations[i].len() != 13;
    assert(0 <= w < 4 && m.foundations[w].len() != 13);
    match a {
        Action::Move(from, to, n) => {
            if to.spec_is_foundation() {
                let c = m.pile(from).last();
                let mm1 = m.with_pile(from, m.pile(from).drop_last());
                let mm2 = mm1.with_pile(to, mm1.pile(to).push(c));
                assert(m2.foundations == mm2.foundations);
                assert(mm2.state == State::Running);
                assert(m2.state == (if mm2.foundations_complete() {
                    State::Win
                } else {
                    mm2.state
                }));
            } else {
                if from.spec_is_foundation() {
                    let fi = from.spec_index();
                    assert(m2.foundations[fi].len() < 13);
                    assert(!m2.foundations_complete());
                } else {
                    assert(m2.foundations =~= m.foundations);
                    assert(m2.foundations[w].len() != 13);
                    assert(!m2.foundations_complete());
                }
            }
        },
        _ => {
            assert(m2.foundations =~= m.foundations);
            assert(m2.foundations[w].len() != 13);
            assert(!m2.foundations_complete());
        },
    }
}

/// A legal action moves cards between piles but conserves every card: the
/// multiset of card identities across talon, waste, columns and
/// foundations is exactly what it was. (A rejected action leaves the whole
/// state unchanged; that is part of `act`'s own contract.)
pub proof fn lemma_step_conserves_cards(m: GameModel, a: Action)
    requires
        m.wf(),
        action_legal(m, a),
    ensures
        cards_of(step(m, a)) == cards_of(m),
{
    broadcast use vstd::multiset::group_multiset_axioms;

    let m2 = step(m, a);
    match a {
        Action::Take => {
            let x = m.talon.last();
            lemma_idents_split(m.talon, m.talon.len() - 1);
            assert(m.talon.subrange(0, m.talon.len() - 1) =~= m.talon.drop_last());
            assert(m.talon.subrange(m.talon.len() - 1, m.talon.len() as int) =~= seq![x]);
            assert(m2.waste =~= m.waste + seq![x.face_up()]);
            lemma_idents_append(m.waste, seq![x.face_up()]);
            lemma_idents_same(seq![x], seq![x.face_up()]);
            assert(cards_of(m2) =~= cards_of(m));
        },
        Action::Turnover => {
            let im = |c: Card| c.ident();
            assert(m2.talon.map_values(im) =~= m.waste.map_values(im).reverse());
            m.waste.map_values(im).lemma_reverse_to_multiset();
            assert(idents_of(m2.talon) == idents_of(m.waste));
            assert(m.talon =~= Seq::<Card>::empty());
            assert(m2.waste =~= Seq::<Card>::empty());
            assert(cards_of(m2) =~= cards_of(m));
        },
        Action::Reveal(ad) => {
            let i = ad.spec_index();
            let pile = m.columns[i];
            let pile2 = pile.update(pile.len() - 1, pile.last().face_up());
            lemma_idents_same(pile, pile2);
            lemma_piles_exchange(m.columns, i, pile2);
            assert forall|v: (Suit, Value)|
                piles_idents(m2.columns).count(v) == piles_idents(m.columns).count(v) by {
                assert(piles_idents(m2.columns).add(idents_of(pile)).count(v) == piles_idents(
                    m.columns,
                ).add(idents_of(pile2)).count(v));
            }
            assert(piles_idents(m2.columns) =~= piles_idents(m.columns));
            assert(cards_of(m2) == cards_of(m));
        },
        Action::Move(from, to, nc) => {
            let src = m.pile(from);
            let n: int = if to.spec_is_foundation() {
                1
            } else {
                nc as int
            };
            let cut = src.len() - n;
            let moved = src.subrange(cut, src.len() as int);
            let src2 = src.subrange(0, cut);
            lemma_idents_split(src, cut);
            let x = idents_of(moved);

            let m1 = m.with_pile(from, src2);
            if to.spec_is_foundation() {
                assert(src.drop_last() =~= src2);
            }

            // taking the moved run out: the old state holds the new piles
            // plus the run
            if from.spec_is_waste() {
                assert(cards_of(m) =~= cards_of(m1).add(x));
            } else if from.spec_is_foundation() {
                lemma_piles_exchange(m.foundations, from.spec_index(), src2);
                lemma_multiset_transfer(
                    piles_idents(m1.foundations),
                    piles_idents(m.foundations),
                    idents_of(src),
                    idents_of(src2),
                    x,
                );
                assert(cards_of(m) =~= cards_of(m1).add(x));
            } else {
                lemma_piles_exchange(m.columns, from.spec_index(), src2);
                lemma_multiset_transfer(
                    piles_idents(m1.columns),
                    piles_idents(m.columns),
                    idents_of(src),
                    idents_of(src2),
                    x,
                );
                assert(cards_of(m) =~= cards_of(m1).add(x));
            }

            // putting the run down: the final state holds the intermediate
            // piles plus the run
            let dst1 = m1.pile(to);
            let dst2 = dst1 + moved;
            if to.spec_is_foundation() {
                assert(dst1.push(src.last()) =~= dst2);
            }
            lemma_idents_append(dst1, moved);
            let m2p = m1.with_pile(to, dst2);
            if to.spec_is_foundation() {
                lemma_piles_exchange(m1.foundations, to.spec_index(), dst2);
                lemma_multiset_transfer(
                    piles_idents(m1.foundations),
                    piles_idents(m2p.foundations),
                    idents_of(dst2),
                    idents_of(dst1),
                    x,
                );
                assert(cards_of(m2p) =~= cards_of(m1).add(x));
            } else {
                lemma_piles_exchange(m1.columns, to.spec_index(), dst2);
                lemma_multiset_transfer(
                    piles_idents(m1.columns),
                    piles_idents(m2p.columns),
                    idents_of(dst2),
                    idents_of(dst1),
                    x,
                );
                assert(cards_of(m2p) =~= cards_of(m1).add(x));
            }

            assert(m2.talon == m2p.talon && m2.waste == m2p.waste && m2.columns == m2p.columns
                && m2.foundations == m2p.foundations);
            assert(cards_of(m2) =~= cards_of(m));
        },
        Action::Quit => {
            assert(cards_of(m2) =~= cards_of(m));
        },
    }
}


/// The moves a planner can actually propose. The engine also accepts a few
/// exotic ones — between two foundations, a face-down card onto a
/// foundation, an ace back off a foundation — that a view-driven planner
/// never generates and the view cannot follow.
pub open spec fn plannable(m: GameModel, a: Action) -> bool {
    match a {
        Action::Move(from, to, n) => {
            &&& !(from.spec_is_foundation() && to.spec_is_foundation())
            &&& ((from.spec_is_depot() && to.spec_is_foundation() && m.pile(from).len() > 0)
                ==> m.pile(from).last().faceup)
            &&& ((from.spec_is_foundation() && to.spec_is_depot() && m.pile(from).len() > 0)
                ==> m.pile(from).last().value.val() != 1)
        },
        _ => true,
    }
}

/// Fed a legal, plannable action and exactly the card the engine
/// disclosed, the view advances to the view of the engine's new state: a
/// planner needs nothing but the action and its result to stay in step.
pub proof fn lemma_update_tracks_engine(m: GameModel, a: Action)
    requires
        m.wf(),
        action_legal(m, a),
        piles_oriented(m),
        plannable(m, a),
    ensures
        update_pre(observe_model(m), a, disclosed(m, a)),
        update_step(observe_model(m), a, disclosed(m, a)) == observe_model(step(m, a)),
{
    let om = observe_model(m);
    let m2 = step(m, a);
    let om2 = observe_model(m2);
    let res = disclosed(m, a);
    let upd = update_step(om, a, res);
    match a {
        Action::Take => {
            let x = m.talon.last();
            assert(om2.waste =~= om.waste.push(x.ident()));
            assert(upd.depots =~= om2.depots);
            assert(upd.foundation_tops =~= om2.foundation_tops);
            assert(upd =~= om2);
        },
        Action::Turnover => {
            assert(om2.waste =~= Seq::<(Suit, Value)>::empty());
            assert(upd.depots =~= om2.depots);
            assert(upd.foundation_tops =~= om2.foundation_tops);
            assert(upd =~= om2);
        },
        Action::Quit => {
            assert(upd.depots =~= om2.depots);
            assert(upd.foundation_tops =~= om2.foundation_tops);
            assert(upd.waste =~= om2.waste);
            assert(upd =~= om2);
        },
        Action::Reveal(ad) => {
            let i = ad.spec_index();
            let col = m.columns[i];
            let col2 = m2.columns[i];
            assert(om.depots[i].len() == col.len());
            assert(om.depots[i].last() == card_view_of(col.last()));
            assert(upd.depots[i] =~= om2.depots[i]);
            assert(upd.depots =~= om2.depots);
            assert(upd.foundation_tops =~= om2.foundation_tops);
            assert(upd.waste =~= om2.waste);
            assert(upd =~= om2);
        },
        Action::Move(from, to, nc) => {
            if from.spec_is_depot() && to.spec_is_depot() {
                let fi = from.spec_index();
                let ti = to.spec_index();
                let srcm = m.columns[fi];
                let n = nc as int;
                let cut = srcm.len() - n;
                assert(om.depots[fi].len() == srcm.len());
                // the view cuts the same run the engine cuts
                assert(upd.depots[fi] =~= om2.depots[fi]);
                assert(upd.depots[ti] =~= om2.depots[ti]);
                assert(upd.depots =~= om2.depots);
                assert(upd.foundation_tops =~= om2.foundation_tops);
                assert(upd.waste =~= om2.waste);
                assert(upd =~= om2);
            } else if from.spec_is_depot() && to.spec_is_foundation() {
                let fi = from.spec_index();
                let ti = to.spec_index();
                let srcm = m.columns[fi];
                let top = srcm.last();
                assert(om.depots[fi].len() == srcm.len());
                assert(om.depots[fi].last() == card_view_of(top));
                assert(top.faceup);
                assert(upd.depots[fi] =~= om2.depots[fi]);
                assert(upd.depots =~= om2.depots);
                assert(m2.foundations[ti].last() == top);
                assert(upd.foundation_tops =~= om2.foundation_tops);
                assert(upd.waste =~= om2.waste);
                assert(upd =~= om2);
            } else if from.spec_is_foundation() && to.spec_is_depot() {
                let fi = from.spec_index();
                let ti = to.spec_index();
                let p = m.foundations[fi];
                let top = p.last();
                let lv = top.value.val();
                assert(p[p.len() - 1].value.val() == p.len());
                assert(lv == p.len());
                assert(lv != 1);
                assert(2 <= lv <= 13);
                assert(om.foundation_tops[fi] == Some(top.ident()));
                // the uncovered card is the run's next-lower card of the
                // same suit
                let p2 = m2.foundations[fi];
                assert(p2 =~= p.subrange(0, p.len() - 1));
                assert(p2.len() == lv - 1);
                let under = p[p.len() - 2];
                assert(under.value.val() == lv - 1);
                assert(under.suit == p[0].suit && top.suit == p[0].suit);
                lemma_value_from_int(lv - 1);
                lemma_value_injective(under.value, Value::spec_from_int(lv - 1));
                assert(p2.last() == under);
                assert(upd.foundation_tops[fi] == om2.foundation_tops[fi]);
                assert(upd.foundation_tops =~= om2.foundation_tops);
                assert(top.faceup);
                assert(card_view_of(top) == CardView::FaceUp(top.suit, top.value));
                assert(upd.depots[ti] =~= om2.depots[ti]);
                assert(upd.depots =~= om2.depots);
                assert(upd.waste =~= om2.waste);
                assert(upd =~= om2);
            } else if from.spec_is_waste() && to.spec_is_depot() {
                let ti = to.spec_index();
                let top = m.waste.last();
                assert(top.faceup);
                assert(om.waste.last() == top.ident());
                assert(upd.waste =~= om2.waste);
                assert(card_view_of(top) == CardView::FaceUp(top.suit, top.value));
                assert(upd.depots[ti] =~= om2.depots[ti]);
                assert(upd.depots =~= om2.depots);
                assert(upd.foundation_tops =~= om2.foundation_tops);
                assert(upd =~= om2);
            } else {
                // from the waste to a foundation
                let ti = to.spec_index();
                let top = m.waste.last();
                assert(om.waste.last() == top.ident());
                assert(upd.waste =~= om2.waste);
                assert(m2.foundations[ti].last() == top);
                assert(upd.foundation_tops =~= om2.foundation_tops);
                assert(upd.depots =~= om2.depots);
                assert(upd =~= om2);
            }
        },
    }
}


/// A legal, plannable action keeps the standing invariants: the shape, the
/// card values, the talon face down, the waste and foundations face up,
/// and the foundations ascending same-suit runs.
pub proof fn lemma_step_preserves_orientation(m: GameModel, a: Action)
    requires
        m.wf(),
        action_legal(m, a),
        piles_oriented(m),
        plannable(m, a),
        cards_valid(m),
        talon_face_down(m),
    ensures
        step(m, a).wf(),
        piles_oriented(step(m, a)),
        cards_valid(step(m, a)),
        talon_face_down(step(m, a)),
{
    let m2 = step(m, a);
    match a {
        Action::Take => {
            assert(m2.talon =~= m.talon.subrange(0, m.talon.len() - 1));
        },
        Action::Turnover => {
            assert(m2.waste =~= Seq::<Card>::empty());
        },
        Action::Quit => {},
        Action::Reveal(ad) => {
            let i = ad.spec_index();
            assert forall|q: int, j: int|
                0 <= q < m2.columns.len() && 0 <= j < m2.columns[q].len() implies card_in_range(
                m2.columns[q][j],
            ) by {
                assert(card_in_range(m.columns[q][j]));
            }
        },
        Action::Move(from, to, nc) => {
            let src = m.pile(from);
            let n: int = if to.spec_is_foundation() {
                1
            } else {
                nc as int
            };
            let cut = src.len() - n;
            let src2 = src.subrange(0, cut);
            let m1 = m.with_pile(from, src2);
            if to.spec_is_foundation() {
                assert(src.drop_last() =~= src2);
                let c = src.last();
                let ti = to.spec_index();
                let p = m1.foundations[ti];
                let p2 = m2.foundations[ti];
                assert(p2 =~= p.push(c));
                assert(card_in_range(c));
                assert(c.faceup);
                if c.value.val() == 1 {
                    assert(p.len() == 0);
                    assert forall|j: int| 0 <= j < p2.len() implies {
                        &&& (#[trigger] p2[j]).faceup
                        &&& p2[j].value.val() == j + 1
                        &&& p2[j].suit == p2[0].suit
                    } by {}
                } else {
                    assert(p.len() > 0 && p.last().suit == c.suit && c.value.val() == p.last().value.val() + 1);
                    assert(p[p.len() - 1].value.val() == p.len());
                    assert forall|j: int| 0 <= j < p2.len() implies {
                        &&& (#[trigger] p2[j]).faceup
                        &&& p2[j].value.val() == j + 1
                        &&& p2[j].suit == p2[0].suit
                    } by {
                        if j < p.len() {
                            assert(p2[j] == p[j]);
                        }
                    }
                    assert(p2.len() == c.value.val() <= 13);
                }
            } else {
                // a move to a depot: the waste and the talon only shrink,
                // a source foundation keeps its prefix
                let ti = to.spec_index();
                let moved = src.subrange(cut, src.len() as int);
                assert forall|q: int, j: int|
                    0 <= q < m2.columns.len() && 0 <= j < m2.columns[q].len() implies card_in_range(
                    m2.columns[q][j],
                ) by {
                    if q == ti && j >= m1.columns[ti].len() {
                        assert(m2.columns[q][j] == moved[j - m1.columns[ti].len()]);
                        assert(moved[j - m1.columns[ti].len()] == src[cut + (j - m1.columns[ti].len())]);
                    } else {
                        assert(m2.columns[q][j] == m1.columns[q][j]);
                    }
                }
                if from.spec_is_foundation() {
                    let fi = from.spec_index();
                    assert forall|f: int, j: int|
                        0 <= f < m2.foundations.len() && 0 <= j < m2.foundations[f].len() implies {
                        &&& (#[trigger] m2.foundations[f][j]).faceup
                        &&& m2.foundations[f][j].value.val() == j + 1
                        &&& m2.foundations[f][j].suit == m2.foundations[f][0].suit
                    } by {
                        if f == fi {
                            assert(m2.foundations[f][j] == m.foundations[f][j]);
                            assert(m2.foundations[f][0] == m.foundations[f][0]);
                        }
                    }
                }
            }
        },
    }
}


/// A prefix of a well-formed column is well formed.
proof fn lemma_column_ok_prefix(s: Seq<Card>, k: int)
    requires
        column_ok(s),
        0 <= k <= s.len(),
    ensures
        column_ok(s.subrange(0, k)),
{
    let p = s.subrange(0, k);
    assert forall|j: int| 0 <= j < p.len() - 1 && (#[trigger] p[j]).faceup implies {
        &&& p[j + 1].faceup
        &&& p[j].value.val() == p[j + 1].value.val() + 1
        &&& p[j].suit.spec_color() != p[j + 1].suit.spec_color()
    } by {
        assert(p[j] == s[j] && p[j + 1] == s[j + 1]);
    }
}

/// The columns after a legal reveal: only a face-down top card flips, and
/// nothing lay face up beneath it.
proof fn lemma_columns_after_reveal(m: GameModel, ad: Addr)
    requires
        m.wf(),
        action_legal(m, Action::Reveal(ad)),
        columns_ok(m),
    ensures
        columns_ok(step(m, Action::Reveal(ad))),
{
    let m2 = step(m, Action::Reveal(ad));
    let i = ad.spec_index();
    let col = m.columns[i];
    let col2 = m2.columns[i];
    assert forall|q: int| 0 <= q < m2.columns.len() implies column_ok(
        #[trigger] m2.columns[q],
    ) by {
        if q == i {
            assert forall|j: int|
                0 <= j < col2.len() - 1 && (#[trigger] col2[j]).faceup implies {
                &&& col2[j + 1].faceup
                &&& col2[j].value.val() == col2[j + 1].value.val() + 1
                &&& col2[j].suit.spec_color() != col2[j + 1].suit.spec_color()
            } by {
                assert(col2[j] == col[j]);
                assert(!col[col.len() - 1].faceup);
                if j + 1 < col.len() - 1 {
                    assert(col2[j + 1] == col[j + 1]);
                } else {
                    // a face-up card under the face-down top contradicts
                    // the run shape
                    assert(col[j].faceup && !col[j + 1].faceup);
                    assert(false);
                }
            }
        } else {
            assert(m2.columns[q] == m.columns[q]);
        }
    }
}

/// The columns after a legal move to a foundation: at most one depot
/// shrinks by its top card.
proof fn lemma_columns_after_foundation_move(m: GameModel, from: Addr, to: Addr)
    requires
        m.wf(),
        to.spec_is_foundation(),
        action_legal(m, Action::Move(from, to, 1)),
        columns_ok(m),
    ensures
        columns_ok(step(m, Action::Move(from, to, 1))),
{
    let m2 = step(m, Action::Move(from, to, 1));
    let src = m.pile(from);
    let src2 = src.subrange(0, src.len() - 1);
    assert(src.drop_last() =~= src2);
    if from.spec_is_depot() {
        lemma_column_ok_prefix(src, src.len() - 1);
        assert(m2.columns == m.columns.update(from.spec_index(), src2));
    } else {
        assert(m2.columns == m.columns);
    }
    assert forall|q: int| 0 <= q < m2.columns.len() implies column_ok(
        #[trigger] m2.columns[q],
    ) by {
        if from.spec_is_depot() && q == from.spec_index() {
            assert(m2.columns[q] == src2);
        } else {
            assert(m2.columns[q] == m.columns[q]);
        }
    }
}

/// The run a legal, plannable depot move carries: all face up, descending
/// in alternating colors, and continuing the destination's top card.
#[verifier::rlimit(60)]
proof fn lemma_moved_run_shape(m: GameModel, from: Addr, to: Addr, nc: usize)
    requires
        m.wf(),
        to.spec_is_depot(),
        action_legal(m, Action::Move(from, to, nc)),
        piles_oriented(m),
        columns_ok(m),
    ensures
        ({
            let src = m.pile(from);
            let moved = src.subrange(src.len() - nc, src.len() as int);
            &&& moved.len() == nc >= 1
            &&& forall|j: int| 0 <= j < moved.len() ==> (#[trigger] moved[j]).faceup
            &&& forall|j: int|
                0 <= j < moved.len() - 1 ==> {
                    &&& (#[trigger] moved[j]).value.val() == moved[j + 1].value.val() + 1
                    &&& moved[j].suit.spec_color() != moved[j + 1].suit.spec_color()
                }
            &&& m.pile(to).len() > 0 ==> {
                &&& m.pile(to).last().faceup
                &&& m.pile(to).last().value.val() == moved[0].value.val() + 1
                &&& m.pile(to).last().suit.spec_color() != moved[0].suit.spec_color()
            }
        }),
{
    let src = m.pile(from);
    let n = nc as int;
    let cut = src.len() - n;
    let moved = src.subrange(cut, src.len() as int);
    assert forall|j: int| 0 <= j < moved.len() implies (#[trigger] moved[j]).faceup by {
        if from.spec_is_depot() {
            assert(moved[j] == src[cut + j]);
        } else if from.spec_is_waste() {
            assert(moved[j] == m.waste[m.waste.len() - 1]);
        } else {
            let fi = from.spec_index();
            assert(moved[j] == m.foundations[fi][m.foundations[fi].len() - 1]);
        }
    }
    assert forall|j: int|
        0 <= j < moved.len() - 1 implies {
        &&& (#[trigger] moved[j]).value.val() == moved[j + 1].value.val() + 1
        &&& moved[j].suit.spec_color() != moved[j + 1].suit.spec_color()
    } by {
        // a run longer than one card only comes off a depot
        assert(from.spec_is_depot());
        assert(moved[j] == src[cut + j] && moved[j + 1] == src[cut + j + 1]);
    }
    if m.pile(to).len() > 0 {
        assert(moved[0] == src[cut]);
    }
}

/// The columns after a legal, plannable move to a depot: the destination
/// grows by the moved run, and a depot source keeps its prefix.
#[verifier::rlimit(100)]
proof fn lemma_columns_after_depot_move(m: GameModel, from: Addr, to: Addr, nc: usize)
    requires
        m.wf(),
        to.spec_is_depot(),
        action_legal(m, Action::Move(from, to, nc)),
        piles_oriented(m),
        plannable(m, Action::Move(from, to, nc)),
        columns_ok(m),
    ensures
        columns_ok(step(m, Action::Move(from, to, nc))),
{
    let m2 = step(m, Action::Move(from, to, nc));
    let src = m.pile(from);
    let n = nc as int;
    let cut = src.len() - n;
    let src2 = src.subrange(0, cut);
    let moved = src.subrange(cut, src.len() as int);
    let m1 = m.with_pile(from, src2);
    let ti = to.spec_index();
    let d = m1.columns[ti];
    let d2 = d + moved;
    assert(m2.columns == m1.columns.update(ti, d2));

    lemma_moved_run_shape(m, from, to, nc);
    if from.spec_is_depot() {
        lemma_column_ok_prefix(src, cut);
        if from.spec_index() == ti {
            assert(d == src2);
        } else {
            assert(d == m.columns[ti]);
        }
    } else {
        assert(d == m.columns[ti]);
    }
    assert(column_ok(d));
}

/// A legal, plannable action keeps every tableau column a face-up run of
/// descending rank and alternating color over a face-down base.
pub proof fn lemma_step_preserves_columns(m: GameModel, a: Action)
    requires
        m.wf(),
        action_legal(m, a),
        piles_oriented(m),
        plannable(m, a),
        columns_ok(m),
    ensures
        columns_ok(step(m, a)),
{
    let m2 = step(m, a);
    match a {
        Action::Take => {
            assert(m2.columns =~= m.columns);
        },
        Action::Turnover => {
            assert(m2.columns =~= m.columns);
        },
        Action::Quit => {
            assert(m2.columns =~= m.columns);
        },
        Action::Reveal(ad) => {
            lemma_columns_after_reveal(m, ad);
        },
        Action::Move(from, to, nc) => {
            if to.spec_is_foundation() {
                lemma_columns_after_foundation_move(m, from, to);
            } else {
                lemma_columns_after_depot_move(m, from, to, nc);
            }
        },
    }
}


/// A view never shows more face-up cards than a pile holds.
proof fn lemma_faceup_run_bound(vs: Seq<CardView>)
    ensures
        faceup_run(vs) <= vs.len(),
    decreases vs.len(),
{
    if vs.len() > 0 {
        lemma_faceup_run_bound(vs.drop_last());
    }
}

/// Every card within the face-up run of a view pile shows face up.
proof fn lemma_faceup_run_cards(vs: Seq<CardView>, j: int)
    requires
        vs.len() - faceup_run(vs) <= j < vs.len(),
    ensures
        vs[j] is FaceUp,
    decreases vs.len(),
{
    lemma_faceup_run_bound(vs);
    if j == vs.len() - 1 {
    } else {
        lemma_faceup_run_cards(vs.drop_last(), j);
    }
}

/// Every candidate the greedy planner generates from the engine's own view
/// is legal at the engine: a planner that stays in step never has a move
/// rejected. (The waste invariant matters: the engine insists that moved
/// cards lie face up, which the view cannot see for the waste.)
pub proof fn lemma_greedy_candidates_legal(m: GameModel, a: Action)
    requires
        m.wf(),
        piles_oriented(m),
        cards_valid(m),
        greedy_candidate(observe_model(m), a),
    ensures
        action_legal(m, a),
{
    let v = observe_model(m);
    match a {
        Action::Quit => {},
        Action::Take => {},
        Action::Turnover => {},
        Action::Reveal(ad) => {
            if !v.is_won() {
                let i = ad.spec_index();
                assert(v.depots[i].len() == m.columns[i].len());
                assert(v.depots[i].last() == card_view_of(m.columns[i].last()));
            }
        },
        Action::Move(from, to, n) => {
            if !v.is_won() {
                if n == 1 && foundation_build_ok(v, from, to) {
                    lemma_move_candidate_legal_foundation(m, from, to);
                } else {
                    lemma_move_candidate_legal_depot(m, from, to, n as int);
                }
            }
        },
    }
}

/// The simple planner's candidates are the greedy planner's minus two
/// filters, so they are legal at the engine as well.
pub proof fn lemma_simple_candidates_legal(m: GameModel, passes: u64, a: Action)
    requires
        m.wf(),
        piles_oriented(m),
        cards_valid(m),
        simple_candidate(observe_model(m), passes, a),
    ensures
        action_legal(m, a),
{
    assert(greedy_candidate(observe_model(m), a));
    lemma_greedy_candidates_legal(m, a);
}

/// A foundation build seen on the view is legal at the engine.
proof fn lemma_move_candidate_legal_foundation(m: GameModel, from: Addr, to: Addr)
    requires
        m.wf(),
        cards_valid(m),
        foundation_build_ok(observe_model(m), from, to),
    ensures
        move_ok(m, from, to, 1),
{
    let v = observe_model(m);
    let src = m.pile(from);
    // the card the view shows on top of the source is the source's top card
    if from.spec_is_waste() {
        assert(v.waste.len() == m.waste.len());
        assert(v.waste.last() == m.waste.last().ident());
        assert(v.card_at(from, 1) == Some(CardView::FaceUp(src.last().suit, src.last().value)));
    } else {
        let fi = from.spec_index();
        assert(v.depots[fi].len() == m.columns[fi].len());
        assert(v.depots[fi].last() == card_view_of(m.columns[fi].last()));
        assert(v.card_at(from, 1) == Some(card_view_of(src.last())));
    }
    // and the foundation's shown top is its real top
    let ti = to.spec_index();
    if m.foundations[ti].len() > 0 {
        assert(v.foundation_tops[ti] == Some(m.foundations[ti].last().ident()));
        assert(v.card_at(to, 1) == Some(
            CardView::FaceUp(m.foundations[ti].last().suit, m.foundations[ti].last().value),
        ));
    } else {
        assert(v.foundation_tops[ti] == None::<(Suit, Value)>);
        assert(v.card_at(to, 1) == None::<CardView>);
    }
    assert(crate::game::foundation_move_ok(m, from, to));
}

/// A depot build seen on the view is legal at the engine: the face-up run
/// the view counts is really face up, and the ranks and colors match.
proof fn lemma_move_candidate_legal_depot(m: GameModel, from: Addr, to: Addr, n: int)
    requires
        m.wf(),
        piles_oriented(m),
        depot_build_ok(observe_model(m), from, to, n),
    ensures
        move_ok(m, from, to, n),
{
    let v = observe_model(m);
    let src = m.pile(from);
    let ti = to.spec_index();
    // the destination's shown top is its real top
    assert(v.depots[ti].len() == m.columns[ti].len());
    if m.columns[ti].len() > 0 {
        assert(v.depots[ti].last() == card_view_of(m.columns[ti].last()));
        assert(v.card_at(to, 1) == Some(card_view_of(m.columns[ti].last())));
    } else {
        assert(v.card_at(to, 1) == None::<CardView>);
    }
    if from.spec_is_waste() {
        // only the top card can leave the waste, and it lies face up
        assert(n == 1);
        assert(v.waste.len() == m.waste.len());
        assert(v.waste.last() == m.waste.last().ident());
        assert(v.card_at(from, 1) == Some(CardView::FaceUp(src.last().suit, src.last().value)));
        assert(m.waste[m.waste.len() - 1].faceup);
        assert(crate::game::depot_move_ok(m, from, to, 1));
    } else {
        let fi = from.spec_index();
        let vs = v.depots[fi];
        assert(vs.len() == src.len());
        // the n moved cards all lie face up on the source
        assert forall|j: int| src.len() - n <= j < src.len() implies (#[trigger] src[j]).faceup by {
            assert(vs[j] == card_view_of(src[j]));
            lemma_faceup_run_cards(vs, j);
        }
        // and the run's base is the card the view shows at depth n
        assert(vs[src.len() - n] == card_view_of(src[src.len() - n]));
        assert(v.card_at(from, n) == Some(card_view_of(src[src.len() - n])));
        assert(crate::game::depot_move_ok(m, from, to, n));
    }
}

} // verus!
