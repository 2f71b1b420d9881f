//! The planners' side of the game: the partial-information view that is
//! their only window onto the engine, and the interface they share.

pub mod greedy;
pub mod mctree;
pub mod simple;

pub use greedy::GreedyAi;
pub use simple::SimpleAi;

use crate::cards::{spec_depot_addr, Addr, CardView, Suit, Value};
use crate::game::Action;
use vstd::pervasive::unreached;
use vstd::prelude::*;

verus! {

/// The abstract content of a [`SolitaireObserver`]: the talon reduced to a
/// count, the waste as revealed pairs, the four foundation tops, and the
/// seven depots with face-down cards kept opaque.
#[verifier::ext_equal]
pub ghost struct ViewModel {
    pub talon_size: nat,
    pub waste: Seq<(Suit, Value)>,
    pub foundation_tops: Seq<Option<(Suit, Value)>>,
    pub depots: Seq<Seq<CardView>>,
}

/// How many face-up cards lie on top of a depot pile.
pub open spec fn faceup_run(s: Seq<CardView>) -> nat
    decreases s.len(),
{
    if s.len() == 0 {
        0
    } else {
        match s.last() {
            CardView::FaceUp(_, _) => 1 + faceup_run(s.drop_last()),
            CardView::FaceDown => 0,
        }
    }
}

impl ViewModel {
    /// Shape well-formedness: four foundation tops and seven depots.
    pub open spec fn wf(self) -> bool {
        &&& self.foundation_tops.len() == 4
        &&& self.depots.len() == 7
    }

    /// All four foundations show a king: the game is won.
    pub open spec fn is_won(self) -> bool {
        forall|i: int|
            0 <= i < 4 ==> match #[trigger] self.foundation_tops[i] {
                Some(c) => c.1.val() == 13,
                None => false,
            }
    }

    /// How many cards could be picked up at once from this address.
    pub open spec fn n_takeable(self, a: Addr) -> nat {
        if a.spec_is_waste() {
            if self.waste.len() > 0 {
                1
            } else {
                0
            }
        } else if a.spec_is_foundation() {
            if self.foundation_tops[a.spec_index()] is Some {
                1
            } else {
                0
            }
        } else {
            faceup_run(self.depots[a.spec_index()])
        }
    }

    /// The card `n` positions below the top of the pile at `a`, if the view
    /// shows one there (`n == 1` is the top card).
    pub open spec fn card_at(self, a: Addr, n: int) -> Option<CardView> {
        if a.spec_is_waste() && n == 1 {
            if self.waste.len() > 0 {
                Some(CardView::FaceUp(self.waste.last().0, self.waste.last().1))
            } else {
                None
            }
        } else if a.spec_is_foundation() && n == 1 {
            match self.foundation_tops[a.spec_index()] {
                Some(c) => Some(CardView::FaceUp(c.0, c.1)),
                None => None,
            }
        } else if a.spec_is_depot() {
            let pile = self.depots[a.spec_index()];
            if 1 <= n <= pile.len() {
                Some(pile[pile.len() - n])
            } else {
                None
            }
        } else {
            None
        }
    }
}

/// A planner's pass counter after returning an action: one more completed
/// pass when the action was a Turnover (the counter stops at its maximum
/// rather than wrap).
pub open spec fn bump_passes(p: u64, turned: bool) -> u64 {
    if turned {
        if p == u64::MAX {
            p
        } else {
            (p + 1) as u64
        }
    } else {
        p
    }
}

/// How often `x` occurs in `s`.
pub open spec fn occurrences<A>(s: Seq<A>, x: A) -> nat
    decreases s.len(),
{
    if s.len() == 0 {
        0
    } else {
        occurrences(s.drop_last(), x) + if s.last() == x {
            1nat
        } else {
            0nat
        }
    }
}

/// Two sequences hold the same elements, each the same number of times.
pub open spec fn same_multiset<A>(a: Seq<A>, b: Seq<A>) -> bool {
    forall|x: A| #[trigger] occurrences(a, x) == #[trigger] occurrences(b, x)
}

/// An element that never occurs in a sequence has no occurrences.
pub proof fn lemma_occurrences_absent<A>(s: Seq<A>, x: A)
    requires
        forall|i: int| 0 <= i < s.len() ==> s[i] != x,
    ensures
        occurrences(s, x) == 0,
    decreases s.len(),
{
    if s.len() > 0 {
        lemma_occurrences_absent(s.drop_last(), x);
    }
}

/// Appending one element adds one occurrence of it and none of anything
/// else.
pub proof fn lemma_occurrences_push<A>(s: Seq<A>, y: A, x: A)
    ensures
        occurrences(s.push(y), x) == occurrences(s, x) + if y == x {
            1nat
        } else {
            0nat
        },
{
    assert(s.push(y).drop_last() =~= s);
}

/// When two views count as the same position for the planners' memory:
/// the talon count and the waste must agree exactly, while the columns and
/// the foundation tops may be permuted among their slots — per-column card
/// order still matters, which slot holds a column does not.
pub open spec fn view_equiv(a: ViewModel, b: ViewModel) -> bool {
    &&& a.talon_size == b.talon_size
    &&& a.waste == b.waste
    &&& same_multiset(a.foundation_tops, b.foundation_tops)
    &&& same_multiset(a.depots, b.depots)
}

/// Whether an action and its disclosed result are consistent with the view,
/// so that [`SolitaireObserver::update`] can advance it.
///
/// This asks only what the update itself needs: the cards it moves must be
/// where the action says they are.
pub open spec fn update_pre(v: ViewModel, action: Action, res: Option<(Suit, Value)>) -> bool {
    match action {
        Action::Move(from, to, n) => {
            if from.spec_is_depot() && to.spec_is_depot() {
                true
            } else if from.spec_is_depot() && to.spec_is_foundation() {
                &&& n == 1
                &&& v.depots[from.spec_index()].len() > 0
                &&& v.depots[from.spec_index()].last() is FaceUp
            } else if from.spec_is_foundation() && to.spec_is_depot() {
                match v.foundation_tops[from.spec_index()] {
                    Some(c) => 2 <= c.1.val() <= 13,
                    None => false,
                }
            } else if from.spec_is_waste() && to.spec_is_depot() && n == 1 {
                v.waste.len() > 0
            } else if from.spec_is_waste() && to.spec_is_foundation() && n == 1 {
                v.waste.len() > 0
            } else {
                false
            }
        },
        Action::Take => res is Some && v.talon_size > 0,
        Action::Turnover => true,
        Action::Quit => true,
        Action::Reveal(ad) => {
            &&& res is Some
            &&& ad.spec_is_depot()
            &&& v.depots[ad.spec_index()].len() > 0
            &&& v.depots[ad.spec_index()].last() is FaceDown
        },
    }
}

/// The view after a consistent action: exactly the change the action's
/// semantics describe, using only the disclosed result for what was hidden.
pub open spec fn update_step(v: ViewModel, action: Action, res: Option<(Suit, Value)>) -> ViewModel {
    match action {
        Action::Move(from, to, n) => {
            if from.spec_is_depot() && to.spec_is_depot() {
                let src = v.depots[from.spec_index()];
                let cut = if n > src.len() {
                    0
                } else {
                    src.len() - n
                };
                let moved = src.subrange(cut as int, src.len() as int);
                let d1 = v.depots.update(from.spec_index(), src.subrange(0, cut as int));
                ViewModel {
                    depots: d1.update(to.spec_index(), d1[to.spec_index()] + moved),
                    ..v
                }
            } else if from.spec_is_depot() && to.spec_is_foundation() {
                let src = v.depots[from.spec_index()];
                let top = src.last();
                ViewModel {
                    depots: v.depots.update(from.spec_index(), src.drop_last()),
                    foundation_tops: v.foundation_tops.update(
                        to.spec_index(),
                        match top {
                            CardView::FaceUp(s, val) => Some((s, val)),
                            CardView::FaceDown => None,
                        },
                    ),
                    ..v
                }
            } else if from.spec_is_foundation() && to.spec_is_depot() {
                let c = v.foundation_tops[from.spec_index()].unwrap();
                ViewModel {
                    foundation_tops: v.foundation_tops.update(
                        from.spec_index(),
                        Some((c.0, Value::spec_from_int(c.1.val() - 1))),
                    ),
                    depots: v.depots.update(
                        to.spec_index(),
                        v.depots[to.spec_index()].push(CardView::FaceUp(c.0, c.1)),
                    ),
                    ..v
                }
            } else if from.spec_is_waste() && to.spec_is_depot() {
                let c = v.waste.last();
                ViewModel {
                    waste: v.waste.drop_last(),
                    depots: v.depots.update(
                        to.spec_index(),
                        v.depots[to.spec_index()].push(CardView::FaceUp(c.0, c.1)),
                    ),
                    ..v
                }
            } else {
                let c = v.waste.last();
                ViewModel {
                    waste: v.waste.drop_last(),
                    foundation_tops: v.foundation_tops.update(to.spec_index(), Some(c)),
                    ..v
                }
            }
        },
        Action::Take => ViewModel {
            waste: v.waste.push(res.unwrap()),
            talon_size: (v.talon_size - 1) as nat,
            ..v
        },
        Action::Turnover => ViewModel { talon_size: v.waste.len(), waste: Seq::empty(), ..v },
        Action::Quit => v,
        Action::Reveal(ad) => {
            let pile = v.depots[ad.spec_index()];
            let c = res.unwrap();
            ViewModel {
                depots: v.depots.update(
                    ad.spec_index(),
                    pile.update(pile.len() - 1, CardView::FaceUp(c.0, c.1)),
                ),
                ..v
            }
        },
    }
}

/// The depot and waste addresses a planner draws from, in the order it
/// tries them: the seven depots, then the waste.
pub open spec fn dw_addr(i: int) -> Addr {
    if i < 7 {
        spec_depot_addr(i)
    } else {
        Addr::Waste
    }
}

pub fn dw_addr_at(i: usize) -> (a: Addr)
    requires
        i < 8,
    ensures
        a == dw_addr(i as int),
{
    if i < 7 {
        crate::cards::depot_addr(i)
    } else {
        Addr::Waste
    }
}

/// Every depot or waste address is `dw_addr` of exactly one index below 8.
pub proof fn lemma_dw_addr_complete(a: Addr)
    requires
        a.spec_is_depot() || a.spec_is_waste(),
    ensures
        exists|i: int| 0 <= i < 8 && dw_addr(i) == a,
{
    if a.spec_is_depot() {
        crate::cards::lemma_depot_addr_complete(a);
        assert(dw_addr(a.spec_index()) == a);
    } else {
        assert(dw_addr(7) == a);
    }
}

/// A single card from `from` may build on the foundation `to`, as far as
/// the view shows: an ace onto an empty foundation, or the exact successor
/// of the foundation's top card in the same suit.
pub open spec fn foundation_build_ok(v: ViewModel, from: Addr, to: Addr) -> bool {
    &&& (from.spec_is_depot() || from.spec_is_waste())
    &&& to.spec_is_foundation()
    &&& match v.card_at(from, 1) {
        Some(CardView::FaceUp(s, val)) => match v.card_at(to, 1) {
            None => val.val() == 1,
            Some(CardView::FaceUp(s2, v2)) => s == s2 && val.val() == v2.val() + 1,
            Some(CardView::FaceDown) => false,
        },
        _ => false,
    }
}

/// The view shows a face-down card on top of this depot.
pub open spec fn reveal_ok_view(v: ViewModel, a: Addr) -> bool {
    &&& a.spec_is_depot()
    &&& v.depots[a.spec_index()].len() > 0
    &&& v.depots[a.spec_index()].last() is FaceDown
}

/// A run of `n` face-up cards from `from` may build on the depot `to`, as
/// far as the view shows: a king run onto an empty depot, or an
/// alternating-color run one below the depot's face-up top card.
pub open spec fn depot_build_ok(v: ViewModel, from: Addr, to: Addr, n: int) -> bool {
    &&& (from.spec_is_depot() || from.spec_is_waste())
    &&& to.spec_is_depot()
    &&& to != from
    &&& 1 <= n <= v.n_takeable(from)
    &&& match v.card_at(from, n) {
        Some(CardView::FaceUp(s, val)) => match v.card_at(to, 1) {
            None => val.val() == 13,
            Some(CardView::FaceUp(s2, v2)) => s.spec_color() != s2.spec_color() && val.val()
                == v2.val() - 1,
            Some(CardView::FaceDown) => false,
        },
        _ => false,
    }
}

/// The interface the planners share: produce an action, report a display
/// name, and accept an action with its disclosed result to keep the own
/// view current.
pub trait Ai {
    /// The planner's own well-formedness; its methods keep it.
    spec fn wf(&self) -> bool;

    /// Ask the planner to suggest an action.
    ///
    /// `None` means every candidate for the current position has been
    /// returned before — a fatal condition for the caller, since no further
    /// progress is possible.
    fn make_move(&mut self) -> (r: Option<Action>)
        requires
            old(self).wf(),
        ensures
            final(self).wf(),
    ;

    /// The name of the planner, used for reporting and statistics.
    fn name(&self) -> (r: &'static str);

    /// Update the planner with the result of an action; `false` means the
    /// pair was inconsistent with its view, which is then unchanged.
    fn update(&mut self, action: Action, res: Option<(Suit, Value)>) -> (ok: bool)
        requires
            old(self).wf(),
        ensures
            final(self).wf(),
    ;
}

fn pair_eq(a: (Suit, Value), b: (Suit, Value)) -> (r: bool)
    ensures
        r == (a == b),
{
    a.0 == b.0 && a.1 == b.1
}

fn top_eq(a: &Option<(Suit, Value)>, b: &Option<(Suit, Value)>) -> (r: bool)
    ensures
        r == (*a == *b),
{
    match (a, b) {
        (None, None) => true,
        (Some(x), Some(y)) => pair_eq(*x, *y),
        _ => false,
    }
}

fn waste_eq(a: &Vec<(Suit, Value)>, b: &Vec<(Suit, Value)>) -> (r: bool)
    ensures
        r == (a@ == b@),
{
    if a.len() != b.len() {
        return false;
    }
    let mut i: usize = 0;
    while i < a.len()
        invariant
            i <= a@.len(),
            a@.len() == b@.len(),
            forall|j: int| 0 <= j < i ==> a@[j] == b@[j],
        decreases a@.len() - i,
    {
        if !pair_eq(a[i], b[i]) {
            return false;
        }
        i += 1;
    }
    proof {
        assert(a@ =~= b@);
    }
    true
}

fn column_eq(a: &Vec<CardView>, b: &Vec<CardView>) -> (r: bool)
    ensures
        r == (a@ == b@),
{
    if a.len() != b.len() {
        return false;
    }
    let mut i: usize = 0;
    while i < a.len()
        invariant
            i <= a@.len(),
            a@.len() == b@.len(),
            forall|j: int| 0 <= j < i ==> a@[j] == b@[j],
        decreases a@.len() - i,
    {
        if a[i] != b[i] {
            return false;
        }
        i += 1;
    }
    proof {
        assert(a@ =~= b@);
    }
    true
}

fn count_tops(v: &Vec<Option<(Suit, Value)>>, x: &Option<(Suit, Value)>) -> (r: usize)
    ensures
        r as nat == occurrences(v@, *x),
{
    let mut n: usize = 0;
    let mut i: usize = 0;
    while i < v.len()
        invariant
            i <= v@.len(),
            n <= i,
            n as nat == occurrences(v@.subrange(0, i as int), *x),
        decreases v@.len() - i,
    {
        proof {
            assert(v@.subrange(0, i as int).push(v@[i as int]) =~= v@.subrange(0, i + 1));
            lemma_occurrences_push(v@.subrange(0, i as int), v@[i as int], *x);
        }
        if top_eq(&v[i], x) {
            n += 1;
        }
        i += 1;
    }
    proof {
        assert(v@.subrange(0, v@.len() as int) =~= v@);
    }
    n
}

fn count_columns(ds: &Vec<Vec<CardView>>, x: &Vec<CardView>) -> (r: usize)
    ensures
        r as nat == occurrences(ds@.map_values(|d: Vec<CardView>| d@), x@),
{
    let ghost m = ds@.map_values(|d: Vec<CardView>| d@);
    let mut n: usize = 0;
    let mut i: usize = 0;
    while i < ds.len()
        invariant
            i <= ds@.len(),
            n <= i,
            m == ds@.map_values(|d: Vec<CardView>| d@),
            m.len() == ds@.len(),
            n as nat == occurrences(m.subrange(0, i as int), x@),
        decreases ds@.len() - i,
    {
        proof {
            assert(m.subrange(0, i as int).push(m[i as int]) =~= m.subrange(0, i + 1));
            lemma_occurrences_push(m.subrange(0, i as int), m[i as int], x@);
        }
        if column_eq(&ds[i], x) {
            n += 1;
        }
        i += 1;
    }
    proof {
        assert(m.subrange(0, m.len() as int) =~= m);
    }
    n
}

fn tops_equiv(a: &Vec<Option<(Suit, Value)>>, b: &Vec<Option<(Suit, Value)>>) -> (r: bool)
    ensures
        r == same_multiset(a@, b@),
{
    let mut i: usize = 0;
    while i < a.len()
        invariant
            i <= a@.len(),
            forall|j: int|
                0 <= j < i ==> occurrences(a@, #[trigger] a@[j]) == occurrences(b@, a@[j]),
        decreases a@.len() - i,
    {
        if count_tops(a, &a[i]) != count_tops(b, &a[i]) {
            return false;
        }
        i += 1;
    }
    let mut i: usize = 0;
    while i < b.len()
        invariant
            i <= b@.len(),
            forall|j: int|
                0 <= j < a@.len() ==> occurrences(a@, #[trigger] a@[j]) == occurrences(b@, a@[j]),
            forall|j: int|
                0 <= j < i ==> occurrences(a@, #[trigger] b@[j]) == occurrences(b@, b@[j]),
        decreases b@.len() - i,
    {
        if count_tops(a, &b[i]) != count_tops(b, &b[i]) {
            return false;
        }
        i += 1;
    }
    proof {
        assert forall|x: Option<(Suit, Value)>|
            occurrences(a@, x) == occurrences(b@, x) by {
            if exists|j: int| 0 <= j < a@.len() && a@[j] == x {
            } else if exists|j: int| 0 <= j < b@.len() && b@[j] == x {
            } else {
                lemma_occurrences_absent(a@, x);
                lemma_occurrences_absent(b@, x);
            }
        }
    }
    true
}

fn depots_equiv(a: &Vec<Vec<CardView>>, b: &Vec<Vec<CardView>>) -> (r: bool)
    ensures
        r == same_multiset(
            a@.map_values(|d: Vec<CardView>| d@),
            b@.map_values(|d: Vec<CardView>| d@),
        ),
{
    let ghost ma = a@.map_values(|d: Vec<CardView>| d@);
    let ghost mb = b@.map_values(|d: Vec<CardView>| d@);
    let mut i: usize = 0;
    while i < a.len()
        invariant
            i <= a@.len(),
            ma == a@.map_values(|d: Vec<CardView>| d@),
            mb == b@.map_values(|d: Vec<CardView>| d@),
            forall|j: int| 0 <= j < i ==> occurrences(ma, #[trigger] ma[j]) == occurrences(mb, ma[j]),
        decreases a@.len() - i,
    {
        if count_columns(a, &a[i]) != count_columns(b, &a[i]) {
            return false;
        }
        i += 1;
    }
    let mut i: usize = 0;
    while i < b.len()
        invariant
            i <= b@.len(),
            ma == a@.map_values(|d: Vec<CardView>| d@),
            mb == b@.map_values(|d: Vec<CardView>| d@),
            forall|j: int|
                0 <= j < ma.len() ==> occurrences(ma, #[trigger] ma[j]) == occurrences(mb, ma[j]),
            forall|j: int| 0 <= j < i ==> occurrences(ma, #[trigger] mb[j]) == occurrences(mb, mb[j]),
        decreases b@.len() - i,
    {
        if count_columns(a, &b[i]) != count_columns(b, &b[i]) {
            return false;
        }
        i += 1;
    }
    proof {
        assert forall|x: Seq<CardView>| occurrences(ma, x) == occurrences(mb, x) by {
            if exists|j: int| 0 <= j < ma.len() && ma[j] == x {
            } else if exists|j: int| 0 <= j < mb.len() && mb[j] == x {
            } else {
                lemma_occurrences_absent(ma, x);
                lemma_occurrences_absent(mb, x);
            }
        }
    }
    true
}

/// Do two views count as the same position for the planners' memory?
pub fn observer_equiv(a: &SolitaireObserver, b: &SolitaireObserver) -> (r: bool)
    ensures
        r == view_equiv(a@, b@),
{
    if a.talon_size != b.talon_size {
        return false;
    }
    if !waste_eq(&a.waste, &b.waste) {
        return false;
    }
    if !tops_equiv(&a.foundation_tops, &b.foundation_tops) {
        return false;
    }
    depots_equiv(&a.depots, &b.depots)
}

/// Whether the memory already holds this (position, action) pair, up to
/// [`view_equiv`] on the position.
pub open spec fn seen(mem: Seq<(SolitaireObserver, Action)>, v: ViewModel, a: Action) -> bool {
    exists|i: int| 0 <= i < mem.len() && view_equiv((#[trigger] mem[i]).0@, v) && mem[i].1 == a
}

/// Scan the memory for this (position, action) pair.
pub fn is_seen(mem: &Vec<(SolitaireObserver, Action)>, v: &SolitaireObserver, a: &Action) -> (r:
    bool)
    ensures
        r == seen(mem@, v@, *a),
{
    let mut i: usize = 0;
    while i < mem.len()
        invariant
            i <= mem@.len(),
            forall|j: int|
                0 <= j < i ==> !(view_equiv((#[trigger] mem@[j]).0@, v@) && mem@[j].1 == *a),
        decreases mem@.len() - i,
    {
        let entry = &mem[i];
        if entry.1 == *a && observer_equiv(&entry.0, v) {
            return true;
        }
        i += 1;
    }
    false
}

/// A helper struct for the planners: it holds the known information about
/// the game state, and nothing the engine has not disclosed.
#[derive(Debug, Clone, PartialEq, Eq, Hash)]
pub struct SolitaireObserver {
    /// How many cards remain face down in the talon.
    pub talon_size: usize,
    /// Every card in the waste, bottom first; the last pair is the visible
    /// top.
    pub waste: Vec<(Suit, Value)>,
    /// The top card of each of the four foundations, if any.
    pub foundation_tops: Vec<Option<(Suit, Value)>>,
    /// The seven depots, position for position, with unrevealed cards kept
    /// as opaque face-down markers.
    pub depots: Vec<Vec<CardView>>,
}

impl View for SolitaireObserver {
    type V = ViewModel;

    open spec fn view(&self) -> ViewModel {
        ViewModel {
            talon_size: self.talon_size as nat,
            waste: self.waste@,
            foundation_tops: self.foundation_tops@,
            depots: self.depots@.map_values(|d: Vec<CardView>| d@),
        }
    }
}

impl SolitaireObserver {
    pub open spec fn wf(self) -> bool {
        self@.wf()
    }

    pub fn is_won(&self) -> (r: bool)
        requires
            self.wf(),
        ensures
            r == self@.is_won(),
    {
        let mut i: usize = 0;
        while i < 4
            invariant
                i <= 4,
                self.wf(),
                forall|j: int|
                    0 <= j < i ==> match #[trigger] self@.foundation_tops[j] {
                        Some(c) => c.1.val() == 13,
                        None => false,
                    },
            decreases 4 - i,
        {
            let won_here = match self.foundation_tops[i] {
                Some(c) => c.1.is_king(),
                None => false,
            };
            if !won_here {
                proof {
                    assert(!(match self@.foundation_tops[i as int] {
                        Some(c) => c.1.val() == 13,
                        None => false,
                    }));
                }
                return false;
            }
            i += 1;
        }
        true
    }

    /// For some address, how many face-up cards can we pick?
    pub fn n_takeable_cards(&self, addr: &Addr) -> (r: usize)
        requires
            self.wf(),
        ensures
            r as nat == self@.n_takeable(*addr),
    {
        if addr.is_waste() {
            if self.waste.len() > 0 {
                1
            } else {
                0
            }
        } else if addr.is_foundation() {
            if self.foundation_tops[addr.index()].is_some() {
                1
            } else {
                0
            }
        } else {
            let pile = &self.depots[addr.index()];
            let ghost s = pile@;
            let mut n: usize = 0;
            let mut i: usize = pile.len();
            proof {
                assert(s.subrange(0, s.len() as int) =~= s);
            }
            while i > 0
                invariant_except_break
                    i <= s.len(),
                    s.len() <= usize::MAX,
                    s == pile@,
                    n == s.len() - i,
                    faceup_run(s) == n + faceup_run(s.subrange(0, i as int)),
                ensures
                    n as nat == faceup_run(s),
                decreases i,
            {
                match pile[i - 1] {
                    CardView::FaceUp(_, _) => {
                        proof {
                            let p = s.subrange(0, i as int);
                            assert(p.drop_last() =~= s.subrange(0, i - 1));
                            assert(faceup_run(p) == 1 + faceup_run(s.subrange(0, i - 1)));
                        }
                        n += 1;
                        i -= 1;
                    },
                    CardView::FaceDown => {
                        proof {
                            assert(faceup_run(s.subrange(0, i as int)) == 0);
                            assert(s.subrange(0, s.len() as int) =~= s);
                        }
                        break;
                    },
                }
            }
            proof {
                assert(s.subrange(0, s.len() as int) =~= s);
            }
            n
        }
    }

    /// Check what card the view shows at some given address and depth.
    pub fn card_at(&self, addr: &Addr, n: usize) -> (r: Option<CardView>)
        requires
            self.wf(),
        ensures
            r == self@.card_at(*addr, n as int),
    {
        if addr.is_waste() && n == 1 {
            if self.waste.len() > 0 {
                let c = self.waste[self.waste.len() - 1];
                Some(CardView::FaceUp(c.0, c.1))
            } else {
                None
            }
        } else if addr.is_foundation() && n == 1 {
            match self.foundation_tops[addr.index()] {
                Some(c) => Some(CardView::FaceUp(c.0, c.1)),
                None => None,
            }
        } else if addr.is_depot() {
            let pile = &self.depots[addr.index()];
            if 1 <= n && n <= pile.len() {
                Some(pile[pile.len() - n])
            } else {
                None
            }
        } else {
            None
        }
    }

    /// A copy of the view whose content is known to match this one,
    /// field for field.
    pub fn duplicate(&self) -> (r: SolitaireObserver)
        ensures
            r@ == self@,
    {
        let mut waste: Vec<(Suit, Value)> = Vec::new();
        let mut i: usize = 0;
        while i < self.waste.len()
            invariant
                i <= self.waste@.len(),
                waste@ =~= self.waste@.subrange(0, i as int),
            decreases self.waste@.len() - i,
        {
            waste.push(self.waste[i]);
            i += 1;
        }
        let mut foundation_tops: Vec<Option<(Suit, Value)>> = Vec::new();
        let mut i: usize = 0;
        while i < self.foundation_tops.len()
            invariant
                i <= self.foundation_tops@.len(),
                foundation_tops@ =~= self.foundation_tops@.subrange(0, i as int),
            decreases self.foundation_tops@.len() - i,
        {
            foundation_tops.push(self.foundation_tops[i]);
            i += 1;
        }
        let mut depots: Vec<Vec<CardView>> = Vec::new();
        let mut i: usize = 0;
        while i < self.depots.len()
            invariant
                i <= self.depots@.len(),
                depots@.len() == i,
                forall|j: int| 0 <= j < i ==> #[trigger] depots@[j]@ == self.depots@[j]@,
            decreases self.depots@.len() - i,
        {
            let col = &self.depots[i];
            let mut d: Vec<CardView> = Vec::new();
            let mut k: usize = 0;
            while k < col.len()
                invariant
                    k <= col@.len(),
                    d@ =~= col@.subrange(0, k as int),
                decreases col@.len() - k,
            {
                d.push(col[k]);
                k += 1;
            }
            proof {
                assert(d@ =~= col@);
            }
            depots.push(d);
            i += 1;
        }
        let r = SolitaireObserver {
            talon_size: self.talon_size,
            waste,
            foundation_tops,
            depots,
        };
        proof {
            assert(r@.waste =~= self@.waste);
            assert(r@.foundation_tops =~= self@.foundation_tops);
            assert(r@.depots =~= self@.depots);
            assert(r@ =~= self@);
        }
        r
    }

    /// Update the view with the result of an action.
    ///
    /// Returns whether the action and its disclosed result were consistent
    /// with the view ([`update_pre`]); an inconsistent pair leaves the view
    /// unchanged.
    pub fn update(&mut self, action: Action, res: Option<(Suit, Value)>) -> (ok: bool)
        requires
            old(self).wf(),
        ensures
            ok == update_pre(old(self)@, action, res),
            ok ==> final(self)@ == update_step(old(self)@, action, res),
            !ok ==> final(self)@ == old(self)@,
            final(self).wf(),
    {
        match action {
            Action::Move(from, to, n) => {
                if from.is_depot() && to.is_depot() {
                    let fi = from.index();
                    let ti = to.index();
                    let src_len = self.depots[fi].len();
                    let cut = if n > src_len {
                        0
                    } else {
                        src_len - n
                    };
                    let col = &mut self.depots[fi];
                    let mut moved = col.split_off(cut);
                    let dst = &mut self.depots[ti];
                    dst.append(&mut moved);
                    true
                } else if from.is_depot() && to.is_foundation() {
                    if n != 1 {
                        return false;
                    }
                    let fi = from.index();
                    let col_len = self.depots[fi].len();
                    if col_len == 0 {
                        return false;
                    }
                    match self.depots[fi][col_len - 1] {
                        CardView::FaceUp(s, val) => {
                            let col = &mut self.depots[fi];
                            col.pop();
                            self.foundation_tops.set(to.index(), Some((s, val)));
                            true
                        },
                        CardView::FaceDown => false,
                    }
                } else if from.is_foundation() && to.is_depot() {
                    let fi = from.index();
                    match self.foundation_tops[fi] {
                        Some(c) => {
                            let nv = c.1.numeric_value();
                            if nv < 2 || nv > 13 {
                                return false;
                            }
                            let lower = match Value::try_from(nv - 1) {
                                Ok(v2) => v2,
                                Err(_) => unreached(),
                            };
                            self.foundation_tops.set(fi, Some((c.0, lower)));
                            let dst = &mut self.depots[to.index()];
                            dst.push(CardView::FaceUp(c.0, c.1));
                            true
                        },
                        None => false,
                    }
                } else if from.is_waste() && to.is_depot() && n == 1 {
                    match self.waste.pop() {
                        Some(c) => {
                            let dst = &mut self.depots[to.index()];
                            dst.push(CardView::FaceUp(c.0, c.1));
                            true
                        },
                        None => false,
                    }
                } else if from.is_waste() && to.is_foundation() && n == 1 {
                    match self.waste.pop() {
                        Some(c) => {
                            self.foundation_tops.set(to.index(), Some(c));
                            true
                        },
                        None => false,
                    }
                } else {
                    false
                }
            },
            Action::Take => {
                match res {
                    Some(c) => {
                        if self.talon_size == 0 {
                            return false;
                        }
                        self.waste.push(c);
                        self.talon_size -= 1;
                        true
                    },
                    None => false,
                }
            },
            Action::Turnover => {
                self.talon_size = self.waste.len();
                self.waste.clear();
                true
            },
            Action::Quit => true,
            Action::Reveal(ad) => {
                if !ad.is_depot() {
                    return false;
                }
                match res {
                    Some(c) => {
                        let di = ad.index();
                        let len = self.depots[di].len();
                        if len == 0 {
                            return false;
                        }
                        match self.depots[di][len - 1] {
                            CardView::FaceDown => {
                                let col = &mut self.depots[di];
                                col.set(len - 1, CardView::FaceUp(c.0, c.1));
                                true
                            },
                            CardView::FaceUp(_, _) => false,
                        }
                    },
                    None => false,
                }
            },
        }
    }
}

} // verus!
