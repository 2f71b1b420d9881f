//! The game engine: it owns the piles, validates and applies one action at a
//! time, updates the score, and detects the win condition.
//!
//! Every transition is specified by the pure functions [`action_legal`],
//! [`step`] and [`disclosed`] over the abstract state [`GameModel`]: a
//! successful `act` moves the engine to exactly `step` of its old state, and
//! a failed one leaves it untouched.

use crate::ai::{SolitaireObserver, ViewModel};
use crate::cards::{Addr, CardView, Suit, Value};
use vstd::multiset::Multiset;
use vstd::pervasive::unreached;
use vstd::prelude::*;

verus! {

/// A card in play: suit, value, and whether it lies face up.
#[derive(Debug, Clone, Copy, PartialEq, Eq, Structural, Hash)]
pub struct Card {
    pub suit: Suit,
    pub value: Value,
    pub faceup: bool,
}

impl Card {
    /// The identity of the card, without its orientation.
    pub open spec fn ident(self) -> (Suit, Value) {
        (self.suit, self.value)
    }

    /// The same card turned face up.
    pub open spec fn face_up(self) -> Card {
        Card { faceup: true, ..self }
    }

    /// The same card turned face down.
    pub open spec fn face_down(self) -> Card {
        Card { faceup: false, ..self }
    }

    pub fn turn_up(&mut self)
        ensures
            *final(self) == old(self).face_up(),
    {
        self.faceup = true;
    }

    pub fn numeric_value(&self) -> (r: u8)
        ensures
            r as int == self.value.val(),
    {
        self.value.numeric_value()
    }
}

/// The different actions that can be taken in the game.
///
/// A kind of command pattern, decoupled from the methods on the engine;
/// designed to be used with [`GameEngine::act`].
#[derive(Debug, Clone, Copy, PartialEq, Eq, Structural, Hash)]
pub enum Action {
    /// Take the top card of the talon and place it on the waste pile face up.
    Take,
    /// Move cards from one pile to another: source, destination, and how many
    /// cards (more than one only between depots).
    Move(Addr, Addr, usize),
    /// Turn the waste over to form a new talon.
    Turnover,
    /// Reveal the face-down top card of a depot.
    Reveal(Addr),
    /// Stop playing the game.
    Quit,
}

/// Is the game running, and if not, was it a win or a loss?
#[derive(Debug, Clone, Copy, PartialEq, Eq, Structural, Hash)]
pub enum State {
    Running,
    Fail,
    Win,
}

/// Errors that can occur when trying to make a move.
#[derive(Debug)]
pub enum MoveError {
    /// An error with some textual explanation.
    WithDescription(String),
    /// Tried to move a card from a position with no movable card.
    NoCardToMove,
    /// The catch-all error.
    Unspecified,
}

/// The variant of a [`MoveError`], for contracts that pin down which error
/// an illegal action produces without fixing the descriptive text.
#[derive(Debug, Clone, Copy, PartialEq, Eq, Structural)]
pub enum MoveErrorKind {
    WithDescription,
    NoCardToMove,
    Unspecified,
}

impl MoveError {
    pub open spec fn kind(self) -> MoveErrorKind {
        match self {
            MoveError::WithDescription(_) => MoveErrorKind::WithDescription,
            MoveError::NoCardToMove => MoveErrorKind::NoCardToMove,
            MoveError::Unspecified => MoveErrorKind::Unspecified,
        }
    }
}

/// The abstract state of a game: each pile as a sequence of cards
/// (last = top), the run state, and the score.
#[verifier::ext_equal]
pub ghost struct GameModel {
    pub talon: Seq<Card>,
    pub waste: Seq<Card>,
    pub columns: Seq<Seq<Card>>,
    pub foundations: Seq<Seq<Card>>,
    pub state: State,
    pub score: int,
}

impl GameModel {
    /// Shape well-formedness: seven columns and four foundations.
    pub open spec fn wf(self) -> bool {
        &&& self.columns.len() == 7
        &&& self.foundations.len() == 4
    }

    /// The pile at an address (last element = accessible top card).
    pub open spec fn pile(self, a: Addr) -> Seq<Card> {
        if a.spec_is_waste() {
            self.waste
        } else if a.spec_is_foundation() {
            self.foundations[a.spec_index()]
        } else {
            self.columns[a.spec_index()]
        }
    }

    /// The same state with the pile at `a` replaced by `s`.
    pub open spec fn with_pile(self, a: Addr, s: Seq<Card>) -> GameModel {
        if a.spec_is_waste() {
            GameModel { waste: s, ..self }
        } else if a.spec_is_foundation() {
            GameModel { foundations: self.foundations.update(a.spec_index(), s), ..self }
        } else {
            GameModel { columns: self.columns.update(a.spec_index(), s), ..self }
        }
    }

    /// All four foundations hold a full run of thirteen cards.
    pub open spec fn foundations_complete(self) -> bool {
        forall|i: int| 0 <= i < 4 ==> (#[trigger] self.foundations[i]).len() == 13
    }
}

/// Adding to the score stops at the largest representable value.
pub open spec fn sat_add(s: int, d: int) -> int {
    if s + d > u32::MAX {
        u32::MAX as int
    } else {
        s + d
    }
}

/// Subtracting from the score floors at zero; it never goes negative.
pub open spec fn sat_sub(s: int, d: int) -> int {
    if s - d < 0 {
        0
    } else {
        s - d
    }
}

/// The score after a successful action: waste-to-foundation and
/// depot-to-foundation give 10, waste-to-depot 5, foundation-to-depot
/// takes 15, a reveal gives 5, a turnover takes 100; take and quit change
/// nothing.
pub open spec fn score_after(s: int, a: Action) -> int {
    match a {
        Action::Take => s,
        Action::Move(from, to, _) => {
            if from.spec_is_waste() && to.spec_is_foundation() {
                sat_add(s, 10)
            } else if from.spec_is_waste() && to.spec_is_depot() {
                sat_add(s, 5)
            } else if from.spec_is_depot() && to.spec_is_foundation() {
                sat_add(s, 10)
            } else if from.spec_is_foundation() && to.spec_is_depot() {
                sat_sub(s, 15)
            } else {
                s
            }
        },
        Action::Reveal(_) => sat_add(s, 5),
        Action::Turnover => sat_sub(s, 100),
        Action::Quit => s,
    }
}

/// A `Take` needs a non-empty talon.
pub open spec fn take_ok(m: GameModel) -> bool {
    m.talon.len() > 0
}

/// A `Turnover` needs an exhausted talon and a non-empty waste.
pub open spec fn turnover_ok(m: GameModel) -> bool {
    m.talon.len() == 0 && m.waste.len() > 0
}

/// A `Reveal` needs a depot whose top card exists and lies face down.
pub open spec fn reveal_ok(m: GameModel, a: Addr) -> bool {
    &&& a.spec_is_depot()
    &&& m.pile(a).len() > 0
    &&& !m.pile(a).last().faceup
}

/// A single card may go to a foundation if it is an ace onto an empty
/// foundation, or exactly one rank above the foundation's top card of the
/// same suit.
pub open spec fn foundation_move_ok(m: GameModel, from: Addr, to: Addr) -> bool {
    &&& m.pile(from).len() > 0
    &&& {
        let c = m.pile(from).last();
        if c.value.val() == 1 {
            m.pile(to).len() == 0
        } else {
            &&& m.pile(to).len() > 0
            &&& m.pile(to).last().suit == c.suit
            &&& c.value.val() == m.pile(to).last().value.val() + 1
        }
    }
}

/// The top `n` cards of `from` may go to the depot `to` if they are all face
/// up and their bottom card is a king onto an empty depot, or the opposite
/// color of, and one rank below, the depot's face-up top card.
pub open spec fn depot_move_ok(m: GameModel, from: Addr, to: Addr, n: int) -> bool {
    let src = m.pile(from);
    &&& 1 <= n <= src.len()
    &&& (forall|i: int| src.len() - n <= i < src.len() ==> (#[trigger] src[i]).faceup)
    &&& {
        let base = src[src.len() - n];
        if m.pile(to).len() == 0 {
            base.value.val() == 13
        } else {
            let t = m.pile(to).last();
            &&& base.suit.spec_color() != t.suit.spec_color()
            &&& base.value.val() == t.value.val() - 1
            &&& t.faceup
        }
    }
}

/// Whether `Move(from, to, n)` is legal: the waste and the foundations give
/// up only one card at a time, nothing may move to the waste, and the
/// destination rules above decide the rest.
pub open spec fn move_ok(m: GameModel, from: Addr, to: Addr, n: int) -> bool {
    if (from.spec_is_waste() || from.spec_is_foundation()) && n != 1 {
        false
    } else if to.spec_is_waste() {
        false
    } else if to.spec_is_foundation() {
        n == 1 && foundation_move_ok(m, from, to)
    } else {
        depot_move_ok(m, from, to, n)
    }
}

/// Which error an illegal move produces.
pub open spec fn move_err_kind(m: GameModel, from: Addr, to: Addr, n: int) -> MoveErrorKind {
    if (from.spec_is_waste() || from.spec_is_foundation()) && n != 1 {
        MoveErrorKind::Unspecified
    } else if to.spec_is_waste() {
        MoveErrorKind::Unspecified
    } else if to.spec_is_foundation() {
        if n != 1 {
            MoveErrorKind::Unspecified
        } else if m.pile(from).len() == 0 {
            MoveErrorKind::NoCardToMove
        } else {
            MoveErrorKind::WithDescription
        }
    } else {
        MoveErrorKind::Unspecified
    }
}

/// Whether an action is legal in the given state.
pub open spec fn action_legal(m: GameModel, a: Action) -> bool {
    match a {
        Action::Take => take_ok(m),
        Action::Move(from, to, n) => move_ok(m, from, to, n as int),
        Action::Turnover => turnover_ok(m),
        Action::Reveal(ad) => reveal_ok(m, ad),
        Action::Quit => true,
    }
}

/// Which error an illegal action produces.
pub open spec fn action_err_kind(m: GameModel, a: Action) -> MoveErrorKind {
    match a {
        Action::Take => MoveErrorKind::Unspecified,
        Action::Move(from, to, n) => move_err_kind(m, from, to, n as int),
        Action::Turnover => MoveErrorKind::Unspecified,
        Action::Reveal(ad) => if !ad.spec_is_depot() {
            MoveErrorKind::WithDescription
        } else {
            MoveErrorKind::Unspecified
        },
        Action::Quit => MoveErrorKind::Unspecified,
    }
}

/// Every card of the sequence turned face down.
pub open spec fn face_down_all(s: Seq<Card>) -> Seq<Card> {
    s.map_values(|c: Card| c.face_down())
}

/// The piles and run state after a legal action, before scoring.
pub open spec fn apply_action(m: GameModel, a: Action) -> GameModel {
    match a {
        Action::Take => GameModel {
            talon: m.talon.drop_last(),
            waste: m.waste.push(m.talon.last().face_up()),
            ..m
        },
        Action::Turnover => GameModel {
            talon: face_down_all(m.waste).reverse(),
            waste: Seq::empty(),
            ..m
        },
        Action::Reveal(ad) => m.with_pile(
            ad,
            m.pile(ad).update(m.pile(ad).len() - 1, m.pile(ad).last().face_up()),
        ),
        Action::Move(from, to, n) => {
            if to.spec_is_foundation() {
                let c = m.pile(from).last();
                let m1 = m.with_pile(from, m.pile(from).drop_last());
                let m2 = m1.with_pile(to, m1.pile(to).push(c));
                GameModel {
                    state: if m2.foundations_complete() {
                        State::Win
                    } else {
                        m2.state
                    },
                    ..m2
                }
            } else {
                let src = m.pile(from);
                let moved = src.subrange(src.len() - n, src.len() as int);
                let m1 = m.with_pile(from, src.subrange(0, src.len() - n));
                m1.with_pile(to, m1.pile(to) + moved)
            }
        },
        Action::Quit => GameModel { state: State::Fail, ..m },
    }
}

/// The complete state after a legal action: the piles and run state of
/// [`apply_action`], with the score updated.
pub open spec fn step(m: GameModel, a: Action) -> GameModel {
    GameModel { score: score_after(m.score, a), ..apply_action(m, a) }
}

/// The card an action discloses: the taken card for `Take`, the flipped card
/// for `Reveal`, nothing otherwise.
pub open spec fn disclosed(m: GameModel, a: Action) -> Option<(Suit, Value)> {
    match a {
        Action::Take => Some(m.talon.last().ident()),
        Action::Reveal(ad) => Some(m.pile(ad).last().ident()),
        _ => None,
    }
}

/// The orientation invariants real play maintains: waste and foundation
/// cards lie face up, and each foundation is an ascending same-suit run of
/// at most thirteen cards.
pub open spec fn piles_oriented(m: GameModel) -> bool {
    &&& forall|j: int| 0 <= j < m.waste.len() ==> (#[trigger] m.waste[j]).faceup
    &&& forall|f: int, j: int|
        0 <= f < m.foundations.len() && 0 <= j < m.foundations[f].len() ==> {
            &&& (#[trigger] m.foundations[f][j]).faceup
            &&& m.foundations[f][j].value.val() == j + 1
            &&& m.foundations[f][j].suit == m.foundations[f][0].suit
        }
    &&& forall|f: int| 0 <= f < m.foundations.len() ==> (#[trigger] m.foundations[f]).len() <= 13
}

/// A tableau column as play keeps it: the face-up cards sit on top, and
/// read from the exposed top downward they ascend one rank at a time in
/// alternating colors until a face-down or missing card is reached.
pub open spec fn column_ok(s: Seq<Card>) -> bool {
    forall|j: int|
        #![trigger s[j], s[j + 1]]
        0 <= j < s.len() - 1 && s[j].faceup ==> {
            &&& s[j + 1].faceup
            &&& s[j].value.val() == s[j + 1].value.val() + 1
            &&& s[j].suit.spec_color() != s[j + 1].suit.spec_color()
        }
}

/// Every tableau column satisfies [`column_ok`].
pub open spec fn columns_ok(m: GameModel) -> bool {
    forall|i: int| 0 <= i < m.columns.len() ==> column_ok(#[trigger] m.columns[i])
}

/// Every card in the talon lies face down.
pub open spec fn talon_face_down(m: GameModel) -> bool {
    forall|j: int| 0 <= j < m.talon.len() ==> !(#[trigger] m.talon[j]).faceup
}

/// A card whose value a real deck can hold.
pub open spec fn card_in_range(c: Card) -> bool {
    1 <= c.value.val() <= 13
}

/// Every card anywhere in the game has a value a real deck can hold.
pub open spec fn cards_valid(m: GameModel) -> bool {
    &&& forall|j: int| 0 <= j < m.talon.len() ==> card_in_range(#[trigger] m.talon[j])
    &&& forall|j: int| 0 <= j < m.waste.len() ==> card_in_range(#[trigger] m.waste[j])
    &&& forall|i: int, j: int|
        0 <= i < m.columns.len() && 0 <= j < m.columns[i].len() ==> card_in_range(
            #[trigger] m.columns[i][j],
        )
    &&& forall|i: int, j: int|
        0 <= i < m.foundations.len() && 0 <= j < m.foundations[i].len() ==> card_in_range(
            #[trigger] m.foundations[i][j],
        )
}

/// The identity of every card in a pile, as a multiset.
pub open spec fn idents_of(s: Seq<Card>) -> Multiset<(Suit, Value)> {
    s.map_values(|c: Card| c.ident()).to_multiset()
}

/// The identities across a group of piles.
pub open spec fn piles_idents(ps: Seq<Seq<Card>>) -> Multiset<(Suit, Value)>
    decreases ps.len(),
{
    if ps.len() == 0 {
        Multiset::empty()
    } else {
        piles_idents(ps.drop_last()).add(idents_of(ps.last()))
    }
}

/// Every card in the game, by identity, wherever it lies.
pub open spec fn cards_of(m: GameModel) -> Multiset<(Suit, Value)> {
    idents_of(m.talon).add(idents_of(m.waste)).add(piles_idents(m.columns)).add(
        piles_idents(m.foundations),
    )
}

/// Concatenating piles adds their identities.
pub proof fn lemma_idents_append(a: Seq<Card>, b: Seq<Card>)
    ensures
        idents_of(a + b) == idents_of(a).add(idents_of(b)),
{
    assert((a + b).map_values(|c: Card| c.ident()) =~= a.map_values(|c: Card| c.ident())
        + b.map_values(|c: Card| c.ident()));
    vstd::seq_lib::lemma_multiset_commutative(
        a.map_values(|c: Card| c.ident()),
        b.map_values(|c: Card| c.ident()),
    );
}

/// Splitting a pile splits its identities.
pub proof fn lemma_idents_split(s: Seq<Card>, k: int)
    requires
        0 <= k <= s.len(),
    ensures
        idents_of(s) == idents_of(s.subrange(0, k)).add(
            idents_of(s.subrange(k, s.len() as int)),
        ),
{
    assert(s =~= s.subrange(0, k) + s.subrange(k, s.len() as int));
    lemma_idents_append(s.subrange(0, k), s.subrange(k, s.len() as int));
}

/// Piles that agree card for card on identities have the same identity
/// multiset: turning cards over moves nothing.
pub proof fn lemma_idents_same(a: Seq<Card>, b: Seq<Card>)
    requires
        a.len() == b.len(),
        forall|i: int| 0 <= i < a.len() ==> (#[trigger] a[i]).ident() == b[i].ident(),
    ensures
        idents_of(a) == idents_of(b),
{
    assert(a.map_values(|c: Card| c.ident()) =~= b.map_values(|c: Card| c.ident()));
}

/// Replacing one pile in a group exchanges exactly its identities.
pub proof fn lemma_piles_exchange(ps: Seq<Seq<Card>>, i: int, s: Seq<Card>)
    requires
        0 <= i < ps.len(),
    ensures
        piles_idents(ps.update(i, s)).add(idents_of(ps[i])) == piles_idents(ps).add(idents_of(s)),
    decreases ps.len(),
{
    broadcast use vstd::multiset::group_multiset_axioms;

    let ps2 = ps.update(i, s);
    assert(piles_idents(ps2) == piles_idents(ps2.drop_last()).add(idents_of(ps2.last())));
    assert(piles_idents(ps) == piles_idents(ps.drop_last()).add(idents_of(ps.last())));
    if i == ps.len() - 1 {
        assert(ps2.drop_last() =~= ps.drop_last());
        assert(ps2.last() == s);
        assert(piles_idents(ps2).add(idents_of(ps[i])) =~= piles_idents(ps).add(idents_of(s)));
    } else {
        let d = ps.drop_last();
        lemma_piles_exchange(d, i, s);
        assert(ps2.drop_last() =~= d.update(i, s));
        assert(piles_idents(ps2) == piles_idents(d.update(i, s)).add(idents_of(ps.last())));
        assert(d[i] == ps[i]);
        assert forall|x: (Suit, Value)|
            piles_idents(ps2).add(idents_of(ps[i])).count(x) == piles_idents(ps).add(
                idents_of(s),
            ).count(x) by {
            assert(piles_idents(d.update(i, s)).add(idents_of(d[i])).count(x) == piles_idents(
                d,
            ).add(idents_of(s)).count(x));
            assert(piles_idents(d.update(i, s)).count(x) + idents_of(d[i]).count(x)
                == piles_idents(d).count(x) + idents_of(s).count(x));
        }
        assert(piles_idents(ps2).add(idents_of(ps[i])) =~= piles_idents(ps).add(idents_of(s)));
    }
}

/// Any card of a deck that holds exactly a fresh deck's cards lies face
/// down and carries a real card value.
proof fn lemma_shuffled_card_properties(dm: Seq<Card>, idx: int)
    requires
        dm.to_multiset() == base_deck().to_multiset(),
        0 <= idx < dm.len(),
    ensures
        !dm[idx].faceup,
        card_in_range(dm[idx]),
{
    broadcast use vstd::multiset::group_multiset_axioms;

    dm.to_multiset_ensures();
    base_deck().to_multiset_ensures();
    assert(dm.contains(dm[idx]));
    assert(base_deck().to_multiset().count(dm[idx]) > 0);
    assert(base_deck().contains(dm[idx]));
    let q = choose|q: int| 0 <= q < base_deck().len() && base_deck()[q] == dm[idx];
    crate::cards::lemma_value_from_int(1 + q % 13);
}

/// A group of empty piles holds no identities.
pub proof fn lemma_piles_idents_empty(ps: Seq<Seq<Card>>)
    requires
        forall|i: int| 0 <= i < ps.len() ==> (#[trigger] ps[i]).len() == 0,
    ensures
        piles_idents(ps) == Multiset::<(Suit, Value)>::empty(),
    decreases ps.len(),
{
    broadcast use vstd::multiset::group_multiset_axioms;

    if ps.len() > 0 {
        lemma_piles_idents_empty(ps.drop_last());
        ps.last().map_values(|c: Card| c.ident()).to_multiset_ensures();
        assert(idents_of(ps.last()).len() == 0);
        assert(piles_idents(ps) =~= Multiset::<(Suit, Value)>::empty());
    }
}

/// Piles that hold the same cards in any order hold the same identities:
/// a permutation carries over to the identity multiset.
pub proof fn lemma_idents_permutation(a: Seq<Card>, b: Seq<Card>)
    requires
        a.to_multiset() == b.to_multiset(),
    ensures
        idents_of(a) == idents_of(b),
    decreases a.len(),
{
    broadcast use vstd::multiset::group_multiset_axioms;

    let im = |c: Card| c.ident();
    a.to_multiset_ensures();
    b.to_multiset_ensures();
    a.map_values(im).to_multiset_ensures();
    b.map_values(im).to_multiset_ensures();
    if a.len() == 0 {
        assert(b.len() == 0);
        assert(a.map_values(im) =~= b.map_values(im));
    } else {
        let x = a.last();
        let j = a.len() - 1;
        assert(a[j] == x);
        assert(a.contains(x));
        assert(b.to_multiset().count(x) > 0);
        assert(b.contains(x));
        let i = choose|i: int| 0 <= i < b.len() && b[i] == x;
        assert(a.remove(j).to_multiset() == a.to_multiset().remove(x));
        assert(b.remove(i).to_multiset() == b.to_multiset().remove(x));
        lemma_idents_permutation(a.remove(j), b.remove(i));
        assert(a.remove(j).map_values(im) =~= a.map_values(im).remove(j));
        assert(b.remove(i).map_values(im) =~= b.map_values(im).remove(i));
        assert(a.map_values(im).remove(j).to_multiset() == a.map_values(im).to_multiset().remove(
            im(x),
        ));
        assert(b.map_values(im).remove(i).to_multiset() == b.map_values(im).to_multiset().remove(
            im(x),
        ));
        assert(a.map_values(im).to_multiset().count(im(x)) > 0);
        assert(b.map_values(im).to_multiset().count(im(x)) > 0);
        assert forall|y: (Suit, Value)| idents_of(a).count(y) == idents_of(b).count(y) by {
            assert(idents_of(a).remove(im(x)).count(y) == idents_of(b).remove(im(x)).count(y));
        }
        assert(idents_of(a) =~= idents_of(b));
    }
}

/// Moving a bundle `x` from one side of an exchange to the other: from
/// `rest + a == whole + b` and `a == b + x` follows `whole == rest + x`.
pub proof fn lemma_multiset_transfer<V>(
    rest: Multiset<V>,
    whole: Multiset<V>,
    a: Multiset<V>,
    b: Multiset<V>,
    x: Multiset<V>,
)
    requires
        rest.add(a) == whole.add(b),
        a == b.add(x),
    ensures
        whole == rest.add(x),
{
    broadcast use vstd::multiset::group_multiset_axioms;

    assert forall|v: V| whole.count(v) == rest.add(x).count(v) by {
        assert(rest.add(a).count(v) == whole.add(b).count(v));
        assert(rest.add(a).count(v) == rest.count(v) + a.count(v));
        assert(whole.add(b).count(v) == whole.count(v) + b.count(v));
        assert(a.count(v) == b.add(x).count(v));
        assert(b.add(x).count(v) == b.count(v) + x.count(v));
        assert(rest.add(x).count(v) == rest.count(v) + x.count(v));
    }
    assert(whole =~= rest.add(x));
}

/// How a card in play shows up in a view: identified when face up, opaque
/// when face down.
pub open spec fn card_view_of(c: Card) -> CardView {
    if c.faceup {
        CardView::FaceUp(c.suit, c.value)
    } else {
        CardView::FaceDown
    }
}

/// The partial view of a game state: the talon reduced to its size, the
/// waste as revealed pairs, the foundation tops, and each column position
/// for position with face-down cards kept opaque.
pub open spec fn observe_model(m: GameModel) -> ViewModel {
    ViewModel {
        talon_size: m.talon.len(),
        waste: m.waste.map_values(|c: Card| c.ident()),
        foundation_tops: Seq::new(
            4,
            |i: int|
                if m.foundations[i].len() == 0 {
                    None
                } else {
                    Some(m.foundations[i].last().ident())
                },
        ),
        depots: Seq::new(7, |i: int| m.columns[i].map_values(|c: Card| card_view_of(c))),
    }
}

/// The suit of the b-th block of thirteen cards in a fresh deck.
pub open spec fn spec_suit_of_block(b: int) -> Suit {
    if b == 0 {
        Suit::Hearts
    } else if b == 1 {
        Suit::Clubs
    } else if b == 2 {
        Suit::Diamonds
    } else {
        Suit::Spades
    }
}

/// A fresh 52-card deck in fixed order: for each suit thirteen values from
/// ace to king, all face down.
pub open spec fn base_deck() -> Seq<Card> {
    Seq::new(
        52,
        |i: int|
            Card {
                suit: spec_suit_of_block(i / 13),
                value: Value::spec_from_int(1 + i % 13),
                faceup: false,
            },
    )
}

/// Where column `i` starts in the dealt deck: the columns before it take
/// 1 + 2 + ... + i cards.
pub open spec fn column_offset(i: int) -> int {
    i * (i + 1) / 2
}

/// Column `i` of a fresh deal: the next `i + 1` cards of the deck, with only
/// the last turned face up.
pub open spec fn dealt_column(deck: Seq<Card>, i: int) -> Seq<Card> {
    let col = deck.subrange(column_offset(i), column_offset(i) + i + 1);
    col.update(i, col[i].face_up())
}

/// The full initial state for a seed: the shuffled deck dealt into columns
/// of length one to seven, the rest forming the talon, score zero, running.
pub open spec fn deal_model(seed: u64) -> GameModel {
    let deck = crate::shuffle::shuffle_of(base_deck(), seed);
    GameModel {
        talon: deck.subrange(28, 52),
        waste: Seq::empty(),
        columns: Seq::new(7, |i: int| dealt_column(deck, i)),
        foundations: Seq::new(4, |i: int| Seq::<Card>::empty()),
        state: State::Running,
        score: 0,
    }
}

/// A fresh deck in the fixed order of [`base_deck`].
fn fresh_deck() -> (d: Vec<Card>)
    ensures
        d@ == base_deck(),
{
    let mut d: Vec<Card> = Vec::new();
    let mut b: usize = 0;
    while b < 4
        invariant
            b <= 4,
            d@.len() == 13 * b,
            forall|j: int| 0 <= j < d@.len() ==> d@[j] == base_deck()[j],
        decreases 4 - b,
    {
        let suit = match b {
            0 => Suit::Hearts,
            1 => Suit::Clubs,
            2 => Suit::Diamonds,
            _ => Suit::Spades,
        };
        let mut v: u8 = 1;
        while v <= 13
            invariant
                1 <= v <= 14,
                b < 4,
                suit == spec_suit_of_block(b as int),
                d@.len() == 13 * b + (v - 1),
                forall|j: int| 0 <= j < d@.len() ==> d@[j] == base_deck()[j],
            decreases 14 - v,
        {
            let value = match Value::try_from(v) {
                Ok(value) => value,
                Err(_) => unreached(),
            };
            d.push(Card { suit, value, faceup: false });
            proof {
                let j = d@.len() - 1;
                assert(j / 13 == b && 1 + j % 13 == v) by (nonlinear_arith)
                    requires
                        j == 13 * b + (v - 1),
                        0 <= b < 4,
                        1 <= v <= 13,
                ;
                assert(d@[j] == base_deck()[j]);
            }
            v += 1;
        }
        b += 1;
    }
    proof {
        assert(d@ =~= base_deck());
    }
    d
}

/// A deck of cards in seeded shuffled order: 52 cards of 4 suits and 13
/// values each.
fn shuffled_deck(seed: u64) -> (d: Vec<Card>)
    ensures
        d@ == crate::shuffle::shuffle_of(base_deck(), seed),
        d@.to_multiset() == base_deck().to_multiset(),
        d@.len() == 52,
{
    let mut d = fresh_deck();
    crate::shuffle::shuffle_cards(&mut d, seed);
    d
}

/// The game state. It has methods to observe the state (create a solitaire
/// view) and to act.
///
/// The fields are public so that a caller can lay out a position directly;
/// every method asks only for the shape invariant [`GameModel::wf`] (seven
/// columns, four foundations), which [`GameEngine::deal`] establishes.
#[derive(Debug, Clone, PartialEq, Eq, Hash)]
pub struct GameEngine {
    /// The face-down draw pile; the last element is drawn next.
    pub talon: Vec<Card>,
    /// The pile drawn cards land on face up; the last element is visible and
    /// playable.
    pub waste: Vec<Card>,
    /// The seven tableau columns; the last element of each is the accessible
    /// top card.
    pub columns: Vec<Vec<Card>>,
    /// The four foundations where the ace piles are built.
    pub foundations: Vec<Vec<Card>>,
    /// Whether the game is running, won, or lost.
    pub state: State,
    /// The current score.
    pub current_score: u32,
}

impl View for GameEngine {
    type V = GameModel;

    open spec fn view(&self) -> GameModel {
        GameModel {
            talon: self.talon@,
            waste: self.waste@,
            columns: self.columns@.map_values(|v: Vec<Card>| v@),
            foundations: self.foundations@.map_values(|v: Vec<Card>| v@),
            state: self.state,
            score: self.current_score as int,
        }
    }
}

impl GameEngine {
    pub open spec fn wf(self) -> bool {
        self@.wf()
    }

    pub fn score(&self) -> (r: u32)
        ensures
            r as int == self@.score,
    {
        self.current_score
    }

    /// Are we still playing?
    pub fn is_running(&self) -> (r: bool)
        ensures
            r == (self@.state == State::Running),
    {
        self.state == State::Running
    }

    /// Have we won?
    pub fn is_won(&self) -> (r: bool)
        ensures
            r == (self@.state == State::Win),
    {
        self.state == State::Win
    }

    pub fn talon_len(&self) -> (r: usize)
        ensures
            r as int == self@.talon.len(),
    {
        self.talon.len()
    }

    /// Deal a new game.
    ///
    /// The result is a function of the seed alone: two deals with the same
    /// seed produce identical games, card for card.
    pub fn deal(seed: u64) -> (game: GameEngine)
        ensures
            game.wf(),
            game@ == deal_model(seed),
            cards_of(game@) == idents_of(base_deck()),
            piles_oriented(game@),
            cards_valid(game@),
            talon_face_down(game@),
            columns_ok(game@),
    {
        let deck = shuffled_deck(seed);
        let ghost dm = deck@;

        // Deal the columns: column i takes i + 1 cards, the last face up.
        let mut columns: Vec<Vec<Card>> = Vec::new();
        let mut pos: usize = 0;
        let mut i: usize = 0;
        proof {
            assert(columns@.map_values(|v: Vec<Card>| v@) =~= Seq::<Seq<Card>>::empty());
            lemma_idents_same(dm.subrange(0, 0), Seq::empty());
            lemma_piles_idents_empty(Seq::<Seq<Card>>::empty());
            assert(Seq::<Card>::empty().map_values(|c: Card| c.ident()).to_multiset().len() == 0)
                by {
                Seq::<Card>::empty().map_values(|c: Card| c.ident()).to_multiset_ensures();
            }
            assert(idents_of(dm.subrange(0, 0)) =~= Multiset::<(Suit, Value)>::empty());
        }
        while i < 7
            invariant
                i <= 7,
                deck@ == dm,
                dm.len() == 52,
                columns@.len() == i,
                pos == column_offset(i as int),
                0 <= pos <= 28,
                forall|j: int| 0 <= j < i ==> #[trigger] columns@[j]@ == dealt_column(dm, j),
                piles_idents(columns@.map_values(|v: Vec<Card>| v@)) == idents_of(
                    dm.subrange(0, pos as int),
                ),
            decreases 7 - i,
        {
            let ghost off = pos as int;
            let len = i + 1;
            let mut col: Vec<Card> = Vec::new();
            let mut k: usize = 0;
            proof {
                assert(off + len <= 28) by (nonlinear_arith)
                    requires
                        off == column_offset(i as int),
                        len == i + 1,
                        0 <= i < 7,
                ;
            }
            while k + 1 < len
                invariant
                    k < len,
                    len <= 7,
                    deck@ == dm,
                    dm.len() == 52,
                    pos == off + k,
                    0 <= off,
                    off + len <= 28,
                    col@ == dm.subrange(off, off + k),
                decreases len - k,
            {
                col.push(deck[pos]);
                proof {
                    assert(col@ =~= dm.subrange(off, off + k + 1));
                }
                pos += 1;
                k += 1;
            }
            let mut c = deck[pos];
            c.faceup = true;
            col.push(c);
            pos += 1;
            proof {
                assert(col@ =~= dealt_column(dm, i as int));
            }
            let ghost prevm = columns@.map_values(|v: Vec<Card>| v@);
            columns.push(col);
            proof {
                broadcast use vstd::multiset::group_multiset_axioms;

                assert(column_offset(i + 1 as int) == off + len) by (nonlinear_arith)
                    requires
                        off == column_offset(i as int),
                        len == i + 1,
                        0 <= i < 7,
                ;
                // the new column's identities are its slice of the deck
                let cm = columns@.map_values(|v: Vec<Card>| v@);
                assert(cm.drop_last() =~= prevm);
                assert(cm.last() == col@);
                assert(piles_idents(cm) == piles_idents(cm.drop_last()).add(idents_of(cm.last())));
                let slice = dm.subrange(off, off + len);
                assert(col@.len() == slice.len());
                assert(forall|q: int|
                    0 <= q < col@.len() ==> (#[trigger] col@[q]).ident() == slice[q].ident());
                lemma_idents_same(col@, slice);
                lemma_idents_split(dm.subrange(0, off + len), off);
                assert(dm.subrange(0, off + len).subrange(0, off) =~= dm.subrange(0, off));
                assert(dm.subrange(0, off + len).subrange(off, off + len) =~= slice);
                assert(piles_idents(cm) =~= idents_of(dm.subrange(0, off + len)));
            }
            i += 1;
        }

        // The rest of the deck becomes the talon, in deck order.
        let mut talon: Vec<Card> = Vec::new();
        while pos < 52
            invariant
                28 <= pos <= 52,
                deck@ == dm,
                dm.len() == 52,
                talon@ == dm.subrange(28, pos as int),
            decreases 52 - pos,
        {
            talon.push(deck[pos]);
            proof {
                assert(talon@ =~= dm.subrange(28, pos + 1 as int));
            }
            pos += 1;
        }

        let mut foundations: Vec<Vec<Card>> = Vec::new();
        foundations.push(Vec::new());
        foundations.push(Vec::new());
        foundations.push(Vec::new());
        foundations.push(Vec::new());

        let game = GameEngine {
            talon,
            waste: Vec::new(),
            columns,
            foundations,
            state: State::Running,
            current_score: 0,
        };
        proof {
            broadcast use vstd::multiset::group_multiset_axioms;

            assert(game@.columns =~= deal_model(seed).columns);
            assert(game@.foundations =~= deal_model(seed).foundations);
            assert(game@.waste =~= deal_model(seed).waste);
            assert(game@ =~= deal_model(seed));
            // the dealt piles partition the shuffled deck, which holds
            // exactly the cards of a fresh one
            assert(game@.waste.map_values(|c: Card| c.ident()).to_multiset().len() == 0) by {
                game@.waste.map_values(|c: Card| c.ident()).to_multiset_ensures();
            }
            assert(idents_of(game@.waste) =~= Multiset::<(Suit, Value)>::empty());
            lemma_piles_idents_empty(game@.foundations);
            assert(game@.talon == dm.subrange(28, 52));
            lemma_idents_split(dm, 28);
            assert(dm.subrange(0, 52) =~= dm);
            lemma_idents_permutation(dm, base_deck());
            assert(cards_of(game@) =~= idents_of(base_deck()));
            // every pile of the fresh deal keeps the invariants of play
            assert forall|j: int| 0 <= j < game@.talon.len() implies !(#[trigger] game@.talon[j]).faceup
                && card_in_range(game@.talon[j]) by {
                lemma_shuffled_card_properties(dm, 28 + j);
            }
            assert forall|i: int, j: int|
                0 <= i < game@.columns.len() && 0 <= j < game@.columns[i].len() implies card_in_range(
                #[trigger] game@.columns[i][j],
            ) by {
                assert(dm == crate::shuffle::shuffle_of(base_deck(), seed));
                assert(game@.columns == deal_model(seed).columns);
                assert(deal_model(seed).columns[i] == dealt_column(dm, i));
                assert(0 <= column_offset(i) && column_offset(i) + i + 1 <= 28) by (
                nonlinear_arith)
                    requires
                        0 <= i < 7,
                ;
                assert(game@.columns[i].len() == i + 1);
                lemma_shuffled_card_properties(dm, column_offset(i) + j);
            }
            // only the last card of each dealt column is face up, so the
            // alternation rule holds vacuously
            assert forall|i: int| 0 <= i < game@.columns.len() implies column_ok(
                #[trigger] game@.columns[i],
            ) by {
                assert(dm == crate::shuffle::shuffle_of(base_deck(), seed));
                assert(game@.columns == deal_model(seed).columns);
                assert(deal_model(seed).columns[i] == dealt_column(dm, i));
                assert(0 <= column_offset(i) && column_offset(i) + i + 1 <= 28) by (
                nonlinear_arith)
                    requires
                        0 <= i < 7,
                ;
                let col = game@.columns[i];
                assert forall|j: int| 0 <= j < col.len() - 1 implies !(#[trigger] col[j]).faceup by {
                    lemma_shuffled_card_properties(dm, column_offset(i) + j);
                }
            }
        }
        game
    }

    /// Produce the current partial view: what a planner is allowed to see.
    pub fn observe(&self) -> (obs: SolitaireObserver)
        requires
            self.wf(),
        ensures
            obs.wf(),
            obs@ == observe_model(self@),
    {
        let mut waste: Vec<(Suit, Value)> = Vec::new();
        let mut i: usize = 0;
        while i < self.waste.len()
            invariant
                i <= self.waste@.len(),
                waste@.len() == i,
                forall|j: int| 0 <= j < i ==> waste@[j] == (#[trigger] self.waste@[j]).ident(),
            decreases self.waste@.len() - i,
        {
            let c = self.waste[i];
            waste.push((c.suit, c.value));
            i += 1;
        }

        let mut foundation_tops: Vec<Option<(Suit, Value)>> = Vec::new();
        let mut i: usize = 0;
        while i < 4
            invariant
                i <= 4,
                self.wf(),
                foundation_tops@.len() == i,
                forall|j: int|
                    0 <= j < i ==> foundation_tops@[j] == (if self@.foundations[j].len() == 0 {
                        None
                    } else {
                        Some((#[trigger] self@.foundations[j]).last().ident())
                    }),
            decreases 4 - i,
        {
            let f = &self.foundations[i];
            if f.len() == 0 {
                foundation_tops.push(None);
            } else {
                let c = f[f.len() - 1];
                foundation_tops.push(Some((c.suit, c.value)));
            }
            i += 1;
        }

        let mut depots: Vec<Vec<CardView>> = Vec::new();
        let mut i: usize = 0;
        while i < 7
            invariant
                i <= 7,
                self.wf(),
                depots@.len() == i,
                forall|j: int|
                    0 <= j < i ==> #[trigger] depots@[j]@ == self@.columns[j].map_values(
                        |c: Card| card_view_of(c),
                    ),
            decreases 7 - i,
        {
            let col = &self.columns[i];
            let mut d: Vec<CardView> = Vec::new();
            let mut k: usize = 0;
            while k < col.len()
                invariant
                    k <= col@.len(),
                    d@.len() == k,
                    forall|j: int| 0 <= j < k ==> d@[j] == card_view_of(#[trigger] col@[j]),
                decreases col@.len() - k,
            {
                let c = col[k];
                if c.faceup {
                    d.push(CardView::FaceUp(c.suit, c.value));
                } else {
                    d.push(CardView::FaceDown);
                }
                k += 1;
            }
            proof {
                assert(d@ =~= col@.map_values(|c: Card| card_view_of(c)));
                assert(col@ == self@.columns[i as int]);
            }
            depots.push(d);
            i += 1;
        }

        let obs = SolitaireObserver { talon_size: self.talon.len(), waste, foundation_tops, depots };
        proof {
            assert(obs@.waste =~= observe_model(self@).waste);
            assert(obs@.foundation_tops =~= observe_model(self@).foundation_tops);
            assert(obs@.depots =~= observe_model(self@).depots);
            assert(obs@ =~= observe_model(self@));
        }
        obs
    }

    /// Update the score for a successful action.
    fn score_action(&mut self, action: &Action)
        ensures
            *final(self) == (GameEngine {
                current_score: final(self).current_score,
                ..*old(self)
            }),
            final(self).current_score as int == score_after(old(self).current_score as int, *action),
    {
        match action {
            Action::Take => {},
            Action::Move(from, to, _) => {
                if from.is_waste() && to.is_foundation() {
                    self.current_score = self.current_score.saturating_add(10);
                } else if from.is_waste() && to.is_depot() {
                    self.current_score = self.current_score.saturating_add(5);
                } else if from.is_depot() && to.is_foundation() {
                    self.current_score = self.current_score.saturating_add(10);
                } else if from.is_foundation() && to.is_depot() {
                    self.current_score = self.current_score.saturating_sub(15);
                }
            },
            Action::Reveal(_) => {
                self.current_score = self.current_score.saturating_add(5);
            },
            Action::Turnover => {
                self.current_score = self.current_score.saturating_sub(100);
            },
            Action::Quit => {},
        }
    }

    /// Return the pile at the given address.
    fn pile(&self, addr: &Addr) -> (p: &Vec<Card>)
        requires
            self.wf(),
        ensures
            p@ == self@.pile(*addr),
    {
        match addr {
            Addr::Waste => &self.waste,
            Addr::Depot1 => &self.columns[0],
            Addr::Depot2 => &self.columns[1],
            Addr::Depot3 => &self.columns[2],
            Addr::Depot4 => &self.columns[3],
            Addr::Depot5 => &self.columns[4],
            Addr::Depot6 => &self.columns[5],
            Addr::Depot7 => &self.columns[6],
            Addr::Foundation1 => &self.foundations[0],
            Addr::Foundation2 => &self.foundations[1],
            Addr::Foundation3 => &self.foundations[2],
            Addr::Foundation4 => &self.foundations[3],
        }
    }

    /// Return the pile at the given address, for writing.
    fn pile_mut(&mut self, addr: &Addr) -> (p: &mut Vec<Card>)
        requires
            old(self).wf(),
        ensures
            p@ == old(self)@.pile(*addr),
            final(self)@ == old(self)@.with_pile(*addr, final(p)@),
    {
        match addr {
            Addr::Waste => &mut self.waste,
            Addr::Depot1 => &mut self.columns[0],
            Addr::Depot2 => &mut self.columns[1],
            Addr::Depot3 => &mut self.columns[2],
            Addr::Depot4 => &mut self.columns[3],
            Addr::Depot5 => &mut self.columns[4],
            Addr::Depot6 => &mut self.columns[5],
            Addr::Depot7 => &mut self.columns[6],
            Addr::Foundation1 => &mut self.foundations[0],
            Addr::Foundation2 => &mut self.foundations[1],
            Addr::Foundation3 => &mut self.foundations[2],
            Addr::Foundation4 => &mut self.foundations[3],
        }
    }

    /// Take the topmost card from the talon and place it on the waste pile.
    fn take(&mut self) -> (r: Result<(Suit, Value), MoveError>)
        requires
            old(self).wf(),
        ensures
            take_ok(old(self)@) ==> {
                &&& final(self)@ == apply_action(old(self)@, Action::Take)
                &&& r matches Ok(c) && Some(c) == disclosed(old(self)@, Action::Take)
            },
            !take_ok(old(self)@) ==> {
                &&& final(self)@ == old(self)@
                &&& r matches Err(e) && e.kind() == MoveErrorKind::Unspecified
            },
    {
        if let Some(c) = self.talon.pop() {
            proof {
                assert(take_ok(old(self)@));
            }
            let mut up = c;
            up.faceup = true;
            self.waste.push(up);
            Ok((c.suit, c.value))
        } else {
            Err(MoveError::Unspecified)
        }
    }

    /// If the talon is empty, we may turn over the waste pile.
    fn turnover(&mut self) -> (r: Result<(), MoveError>)
        requires
            old(self).wf(),
        ensures
            turnover_ok(old(self)@) ==> {
                &&& final(self)@ == apply_action(old(self)@, Action::Turnover)
                &&& r is Ok
            },
            !turnover_ok(old(self)@) ==> {
                &&& final(self)@ == old(self)@
                &&& r matches Err(e) && e.kind() == MoveErrorKind::Unspecified
            },
    {
        if self.talon.len() > 0 {
            return Err(MoveError::Unspecified);
        }
        if self.waste.len() == 0 {
            return Err(MoveError::Unspecified);
        }
        let ghost w = self.waste@;
        let ghost target = face_down_all(w).reverse();
        while self.waste.len() > 0
            invariant
                self.waste@ == w.subrange(0, self.waste@.len() as int),
                self.waste@.len() <= w.len(),
                target == face_down_all(w).reverse(),
                self.talon@ == target.subrange(0, w.len() - self.waste@.len()),
                self.columns == old(self).columns,
                self.foundations == old(self).foundations,
                self.state == old(self).state,
                self.current_score == old(self).current_score,
            decreases self.waste.len(),
        {
            let ghost wl = self.waste@.len() as int;
            let c = self.waste.pop().unwrap();
            let mut down = c;
            down.faceup = false;
            self.talon.push(down);
            proof {
                let k = w.len() - wl;
                assert(c == w[wl - 1]);
                assert(target[k] == w[wl - 1].face_down());
                assert(self.talon@ =~= target.subrange(0, k + 1));
            }
        }
        proof {
            assert(self.talon@ =~= target);
            assert(self.waste@ =~= Seq::<Card>::empty());
        }
        Ok(())
    }

    /// Reveal the topmost card in a depot, if there is a face-down one.
    fn reveal_top(&mut self, addr: &Addr) -> (r: Result<(Suit, Value), MoveError>)
        requires
            old(self).wf(),
        ensures
            reveal_ok(old(self)@, *addr) ==> {
                &&& final(self)@ == apply_action(old(self)@, Action::Reveal(*addr))
                &&& r matches Ok(c) && Some(c) == disclosed(old(self)@, Action::Reveal(*addr))
            },
            !reveal_ok(old(self)@, *addr) ==> {
                &&& final(self)@ == old(self)@
                &&& r matches Err(e) && e.kind() == action_err_kind(
                    old(self)@,
                    Action::Reveal(*addr),
                )
            },
    {
        if !addr.is_depot() {
            return Err(MoveError::WithDescription("Cannot reveal cards in this pile".to_string()));
        }
        let i = addr.index();
        let col = &mut self.columns[i];
        if col.len() == 0 {
            return Err(MoveError::Unspecified);
        }
        let k = col.len() - 1;
        let c = col[k];
        if c.faceup {
            return Err(MoveError::Unspecified);
        }
        let mut up = c;
        up.faceup = true;
        col.set(k, up);
        Ok((c.suit, c.value))
    }

    fn quit(&mut self)
        ensures
            *final(self) == (GameEngine { state: State::Fail, ..*old(self) }),
    {
        self.state = State::Fail;
    }

    /// Do all four foundations hold their full run of thirteen cards?
    fn foundations_all_full(&self) -> (r: bool)
        requires
            self.wf(),
        ensures
            r == self@.foundations_complete(),
    {
        let mut i: usize = 0;
        while i < 4
            invariant
                i <= 4,
                self.wf(),
                forall|j: int| 0 <= j < i ==> (#[trigger] self@.foundations[j]).len() == 13,
            decreases 4 - i,
        {
            if self.foundations[i].len() != 13 {
                proof {
                    assert(self@.foundations[i as int].len() != 13);
                }
                return false;
            }
            i += 1;
        }
        true
    }

    fn move_to_foundation(&mut self, from: &Addr, to: &Addr) -> (r: Result<(), MoveError>)
        requires
            old(self).wf(),
            to.spec_is_foundation(),
        ensures
            foundation_move_ok(old(self)@, *from, *to) ==> {
                &&& final(self)@ == apply_action(old(self)@, Action::Move(*from, *to, 1))
                &&& r is Ok
            },
            !foundation_move_ok(old(self)@, *from, *to) ==> {
                &&& final(self)@ == old(self)@
                &&& r matches Err(e) && e.kind() == (if old(self)@.pile(*from).len() == 0 {
                    MoveErrorKind::NoCardToMove
                } else {
                    MoveErrorKind::WithDescription
                })
            },
    {
        let src = self.pile(from);
        let src_len = src.len();
        if src_len == 0 {
            return Err(MoveError::NoCardToMove);
        }
        let card_to_move = src[src_len - 1];

        // Place an ace on an empty slot.
        if card_to_move.numeric_value() == 1 {
            if self.pile(to).len() == 0 {
                let card = self.pile_mut(from).pop().unwrap();
                self.pile_mut(to).push(card);
                proof {
                    // A foundation that just received its ace holds one card,
                    // so this move cannot complete the game.
                    assert(self@.foundations[to.spec_index()].len() == 1);
                    assert(!self@.foundations_complete());
                }
                return Ok(());
            } else {
                return Err(MoveError::WithDescription(
                    "Cannot place ace on non-empty slot".to_string(),
                ));
            }
        }

        // Place a card on top of the same suit one lower, possibly ending
        // the game.
        let dst = self.pile(to);
        let dst_len = dst.len();
        if dst_len > 0 {
            let c = dst[dst_len - 1];
            if c.suit == card_to_move.suit
                && card_to_move.numeric_value() as u16 == c.numeric_value() as u16 + 1 {
                let card = self.pile_mut(from).pop().unwrap();
                self.pile_mut(to).push(card);
                if self.foundations_all_full() {
                    self.state = State::Win;
                }
                Ok(())
            } else {
                Err(MoveError::WithDescription(
                    "Cannot place card on top of non-matching suit or non-one-lower value".to_string(),
                ))
            }
        } else {
            Err(MoveError::WithDescription("Cannot place non-ace on empty slot".to_string()))
        }
    }

    fn move_to_depot(&mut self, from: &Addr, to: &Addr, n: usize) -> (r: Result<(), MoveError>)
        requires
            old(self).wf(),
            to.spec_is_depot(),
        ensures
            depot_move_ok(old(self)@, *from, *to, n as int) ==> {
                &&& final(self)@ == apply_action(old(self)@, Action::Move(*from, *to, n))
                &&& r is Ok
            },
            !depot_move_ok(old(self)@, *from, *to, n as int) ==> {
                &&& final(self)@ == old(self)@
                &&& r matches Err(e) && e.kind() == MoveErrorKind::Unspecified
            },
    {
        // A move of no cards has no card to check against the destination.
        if n == 0 {
            return Err(MoveError::Unspecified);
        }

        // Are there enough cards to move?
        let src_len = self.pile(from).len();
        if src_len < n {
            return Err(MoveError::Unspecified);
        }
        let n_skip = src_len - n;

        // All face up?
        let src = self.pile(from);
        let mut i = n_skip;
        while i < src_len
            invariant
                n_skip <= i <= src_len,
                src_len == src@.len(),
                src@ == old(self)@.pile(*from),
                n_skip == src_len - n,
                1 <= n <= src_len,
                forall|j: int| n_skip <= j < i ==> (#[trigger] src@[j]).faceup,
            decreases src_len - i,
        {
            if !src[i].faceup {
                proof {
                    assert(!old(self)@.pile(*from)[i as int].faceup);
                    assert(!depot_move_ok(old(self)@, *from, *to, n as int));
                }
                return Err(MoveError::Unspecified);
            }
            i += 1;
        }
        let base_card = src[n_skip];

        let dst = self.pile(to);
        let dst_len = dst.len();
        if dst_len == 0 {
            // Only a king-starting run may move to an empty slot.
            if !base_card.value.is_king() {
                return Err(MoveError::Unspecified);
            }
        } else {
            // Red on black or vice versa, one lower, and the destination's
            // top face up.
            let c = dst[dst_len - 1];
            let colors_differ = base_card.suit.color() != c.suit.color();
            let one_lower = base_card.numeric_value() as u16 + 1 == c.numeric_value() as u16;
            if !(colors_differ && one_lower && c.faceup) {
                return Err(MoveError::Unspecified);
            }
        }

        let mut cards_to_move = self.pile_mut(from).split_off(n_skip);
        self.pile_mut(to).append(&mut cards_to_move);
        Ok(())
    }

    fn move_cards(&mut self, from: &Addr, to: &Addr, n: usize) -> (r: Result<(), MoveError>)
        requires
            old(self).wf(),
        ensures
            move_ok(old(self)@, *from, *to, n as int) ==> {
                &&& final(self)@ == apply_action(old(self)@, Action::Move(*from, *to, n))
                &&& r is Ok
            },
            !move_ok(old(self)@, *from, *to, n as int) ==> {
                &&& final(self)@ == old(self)@
                &&& r matches Err(e) && e.kind() == move_err_kind(old(self)@, *from, *to, n as int)
            },
    {
        if (from.is_waste() || from.is_foundation()) && n != 1 {
            return Err(MoveError::Unspecified);
        }
        if to.is_waste() {
            return Err(MoveError::Unspecified);
        }
        if to.is_foundation() {
            if n != 1 {
                return Err(MoveError::Unspecified);
            }
            self.move_to_foundation(from, to)
        } else {
            self.move_to_depot(from, to, n)
        }
    }

    /// Validate and apply exactly one action.
    ///
    /// On success the engine steps to exactly [`step`] of its old state and
    /// the disclosed card, if any, is returned; on failure the state and the
    /// score are untouched and the error's kind is [`action_err_kind`].
    pub fn act(&mut self, action: &Action) -> (r: Result<Option<(Suit, Value)>, MoveError>)
        requires
            old(self).wf(),
        ensures
            final(self).wf(),
            action_legal(old(self)@, *action) ==> {
                &&& final(self)@ == step(old(self)@, *action)
                &&& r matches Ok(d) && d == disclosed(old(self)@, *action)
            },
            !action_legal(old(self)@, *action) ==> {
                &&& final(self)@ == old(self)@
                &&& r matches Err(e) && e.kind() == action_err_kind(old(self)@, *action)
            },
    {
        let moveres = match action {
            Action::Take => match self.take() {
                Ok(c) => Ok(Some(c)),
                Err(e) => Err(e),
            },
            Action::Move(a1, a2, k) => match self.move_cards(a1, a2, *k) {
                Ok(()) => Ok(None),
                Err(e) => Err(e),
            },
            Action::Reveal(a) => match self.reveal_top(a) {
                Ok(c) => Ok(Some(c)),
                Err(e) => Err(e),
            },
            Action::Quit => {
                self.quit();
                Ok(None)
            },
            Action::Turnover => match self.turnover() {
                Ok(()) => Ok(None),
                Err(e) => Err(e),
            },
        };
        if moveres.is_ok() {
            self.score_action(action);
        }
        moveres
    }
}

} // verus!
