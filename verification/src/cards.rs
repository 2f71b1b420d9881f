//! Core card types for a game of solitaire: suits, colors, card values,
//! and the addresses of the piles on the table.

use vstd::prelude::*;

verus! {

/// The suits in a 52-card deck: hearts, diamonds, clubs and spades.
#[derive(Debug, Clone, Copy, PartialEq, Eq, Structural, Hash)]
pub enum Suit {
    Hearts,
    Diamonds,
    Clubs,
    Spades,
}

/// Color of a card: red or black.
#[derive(Debug, Clone, Copy, PartialEq, Eq, Structural)]
pub enum Color {
    Red,
    Black,
}

impl Suit {
    /// The color this suit is printed in.
    pub open spec fn spec_color(self) -> Color {
        match self {
            Suit::Hearts => Color::Red,
            Suit::Diamonds => Color::Red,
            Suit::Clubs => Color::Black,
            Suit::Spades => Color::Black,
        }
    }

    pub fn color(&self) -> (c: Color)
        ensures
            c == self.spec_color(),
    {
        match self {
            Suit::Hearts => Color::Red,
            Suit::Diamonds => Color::Red,
            Suit::Clubs => Color::Black,
            Suit::Spades => Color::Black,
        }
    }
}

/// Names of all individually addressable piles in a game of solitaire.
///
/// The talon is not addressable: it is only drawn from (`Take`) or rebuilt
/// wholesale (`Turnover`).
#[derive(Debug, Clone, Copy, PartialEq, Eq, Structural, Hash)]
pub enum Addr {
    /// The pile of cards turned over from the talon; its top card is playable.
    Waste,
    /// The four piles built up from ace to king, one suit each.
    Foundation1,
    Foundation2,
    Foundation3,
    Foundation4,
    /// The seven tableau columns, built down in alternating colors.
    Depot1,
    Depot2,
    Depot3,
    Depot4,
    Depot5,
    Depot6,
    Depot7,
}

impl Addr {
    pub open spec fn spec_is_depot(self) -> bool {
        match self {
            Addr::Depot1
            | Addr::Depot2
            | Addr::Depot3
            | Addr::Depot4
            | Addr::Depot5
            | Addr::Depot6
            | Addr::Depot7 => true,
            _ => false,
        }
    }

    pub open spec fn spec_is_foundation(self) -> bool {
        match self {
            Addr::Foundation1 | Addr::Foundation2 | Addr::Foundation3 | Addr::Foundation4 => true,
            _ => false,
        }
    }

    pub open spec fn spec_is_waste(self) -> bool {
        self == Addr::Waste
    }

    /// The index of this address into its own group's storage.
    pub open spec fn spec_index(self) -> int {
        match self {
            Addr::Waste => 1,
            Addr::Foundation1 => 0,
            Addr::Foundation2 => 1,
            Addr::Foundation3 => 2,
            Addr::Foundation4 => 3,
            Addr::Depot1 => 0,
            Addr::Depot2 => 1,
            Addr::Depot3 => 2,
            Addr::Depot4 => 3,
            Addr::Depot5 => 4,
            Addr::Depot6 => 5,
            Addr::Depot7 => 6,
        }
    }

    pub fn is_depot(&self) -> (r: bool)
        ensures
            r == self.spec_is_depot(),
    {
        match self {
            Addr::Depot1
            | Addr::Depot2
            | Addr::Depot3
            | Addr::Depot4
            | Addr::Depot5
            | Addr::Depot6
            | Addr::Depot7 => true,
            Addr::Foundation1
            | Addr::Foundation2
            | Addr::Foundation3
            | Addr::Foundation4
            | Addr::Waste => false,
        }
    }

    pub fn is_foundation(&self) -> (r: bool)
        ensures
            r == self.spec_is_foundation(),
    {
        match self {
            Addr::Foundation1 | Addr::Foundation2 | Addr::Foundation3 | Addr::Foundation4 => true,
            Addr::Depot1
            | Addr::Depot2
            | Addr::Depot3
            | Addr::Depot4
            | Addr::Depot5
            | Addr::Depot6
            | Addr::Depot7
            | Addr::Waste => false,
        }
    }

    pub fn is_waste(&self) -> (r: bool)
        ensures
            r == self.spec_is_waste(),
    {
        match self {
            Addr::Waste => true,
            Addr::Foundation1
            | Addr::Foundation2
            | Addr::Foundation3
            | Addr::Foundation4
            | Addr::Depot1
            | Addr::Depot2
            | Addr::Depot3
            | Addr::Depot4
            | Addr::Depot5
            | Addr::Depot6
            | Addr::Depot7 => false,
        }
    }

    /// Return the index of the address into its own array.
    pub fn index(&self) -> (r: usize)
        ensures
            r == self.spec_index(),
    {
        match self {
            Addr::Waste => 1,
            Addr::Foundation1 => 0,
            Addr::Foundation2 => 1,
            Addr::Foundation3 => 2,
            Addr::Foundation4 => 3,
            Addr::Depot1 => 0,
            Addr::Depot2 => 1,
            Addr::Depot3 => 2,
            Addr::Depot4 => 3,
            Addr::Depot5 => 4,
            Addr::Depot6 => 5,
            Addr::Depot7 => 6,
        }
    }
}

/// The depot address with the given storage index.
pub open spec fn spec_depot_addr(i: int) -> Addr {
    if i == 0 {
        Addr::Depot1
    } else if i == 1 {
        Addr::Depot2
    } else if i == 2 {
        Addr::Depot3
    } else if i == 3 {
        Addr::Depot4
    } else if i == 4 {
        Addr::Depot5
    } else if i == 5 {
        Addr::Depot6
    } else {
        Addr::Depot7
    }
}

pub fn depot_addr(i: usize) -> (a: Addr)
    requires
        i < 7,
    ensures
        a == spec_depot_addr(i as int),
        a.spec_is_depot(),
        a.spec_index() == i,
{
    match i {
        0 => Addr::Depot1,
        1 => Addr::Depot2,
        2 => Addr::Depot3,
        3 => Addr::Depot4,
        4 => Addr::Depot5,
        5 => Addr::Depot6,
        _ => Addr::Depot7,
    }
}

/// The foundation address with the given storage index.
pub open spec fn spec_foundation_addr(i: int) -> Addr {
    if i == 0 {
        Addr::Foundation1
    } else if i == 1 {
        Addr::Foundation2
    } else if i == 2 {
        Addr::Foundation3
    } else {
        Addr::Foundation4
    }
}

pub fn foundation_addr(i: usize) -> (a: Addr)
    requires
        i < 4,
    ensures
        a == spec_foundation_addr(i as int),
        a.spec_is_foundation(),
        a.spec_index() == i,
{
    match i {
        0 => Addr::Foundation1,
        1 => Addr::Foundation2,
        2 => Addr::Foundation3,
        _ => Addr::Foundation4,
    }
}

/// Every depot address is `spec_depot_addr` of its own index.
pub proof fn lemma_depot_addr_complete(a: Addr)
    requires
        a.spec_is_depot(),
    ensures
        0 <= a.spec_index() < 7,
        spec_depot_addr(a.spec_index()) == a,
{
}

/// Every foundation address is `spec_foundation_addr` of its own index.
pub proof fn lemma_foundation_addr_complete(a: Addr)
    requires
        a.spec_is_foundation(),
    ensures
        0 <= a.spec_index() < 4,
        spec_foundation_addr(a.spec_index()) == a,
{
}

/// Numerical value on a card: ace = 1, 2, 3 ... 10, jack, queen, king = 13.
///
/// A value outside [1, 13] cannot be constructed.
#[derive(Debug, Clone, Copy, PartialEq, Eq, Structural, Hash)]
pub struct Value(u8);

impl Value {
    /// The numeric value as a mathematical integer.
    pub closed spec fn val(self) -> int {
        self.0 as int
    }

    /// The (unique) card value with the given number; meaningful for 1 <= n <= 13.
    pub closed spec fn spec_from_int(n: int) -> Value {
        Value(n as u8)
    }

    pub fn is_king(&self) -> (r: bool)
        ensures
            r == (self.val() == 13),
    {
        self.0 == 13
    }

    pub fn is_ace(&self) -> (r: bool)
        ensures
            r == (self.val() == 1),
    {
        self.0 == 1
    }

    pub fn numeric_value(&self) -> (r: u8)
        ensures
            r as int == self.val(),
    {
        self.0
    }

    /// Construct a value, rejecting numbers outside the range of a card.
    pub fn try_from(v: u8) -> (r: Result<Value, &'static str>)
        ensures
            1 <= v <= 13 ==> r == Ok::<Value, &'static str>(Value::spec_from_int(v as int)),
            1 <= v <= 13 ==> (r matches Ok(x) && x.val() == v),
            !(1 <= v <= 13) ==> r.is_err(),
    {
        if v < 1 || v > 13 {
            Err("Value not in range 1-13")
        } else {
            Ok(Value(v))
        }
    }
}

/// `spec_from_int` carries its number, within the range a `u8` can hold.
pub proof fn lemma_value_from_int(n: int)
    requires
        0 <= n <= 255,
    ensures
        Value::spec_from_int(n).val() == n,
{
}

/// The numeric value determines the card value.
pub proof fn lemma_value_injective(a: Value, b: Value)
    requires
        a.val() == b.val(),
    ensures
        a == b,
{
}

/// A card as seen from outside: either face up with known suit and value,
/// or an opaque face-down marker.
#[derive(Debug, Clone, Copy, PartialEq, Eq, Structural, Hash)]
pub enum CardView {
    FaceUp(Suit, Value),
    FaceDown,
}

} // verus!
