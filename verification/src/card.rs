//! Playing cards for blackjack: a suit, a rank, and the blackjack score.

use vstd::prelude::*;
use vstd::string::StringExecFns;

verus! {

/// Bit mask identifying the diamonds suit in the packed card encoding.
pub const DIAMONDS: u32 = 0b0001_0000;

/// Bit mask identifying the hearts suit in the packed card encoding.
pub const HEARTS: u32 = 0b0010_0000;

/// Bit mask identifying the clubs suit in the packed card encoding.
pub const CLUBS: u32 = 0b0100_0000;

/// Bit mask identifying the spades suit in the packed card encoding.
pub const SPADES: u32 = 0b1000_0000;

/// Bit mask covering the suit bits of a packed card.
pub const SUIT: u32 = 0b1111_0000;

/// Bit mask covering the rank bits of a packed card.
pub const VALUE: u32 = 0b0000_1111;

/// The four suits of a standard deck.
#[allow(non_camel_case_types)]
#[derive(Copy, Clone, Debug, PartialEq, Eq, Structural)]
pub enum Symbol {
    DIAMONDS,
    HEARTS,
    CLUBS,
    SPADES,
}

/// One playing card: a rank in 1..=13 and a suit.
#[derive(Copy, Clone, Debug, PartialEq, Eq, Structural)]
pub struct Card {
    pub value: u32,
    pub symbol: Symbol,
}

/// A card is valid when its rank lies in 1..=13 (ace through king).
pub open spec fn valid_card(c: Card) -> bool {
    1 <= c.value <= 13
}

impl Symbol {
    /// The suit's bit mask in the packed card encoding.
    pub open spec fn val_spec(self) -> u32 {
        match self {
            Symbol::DIAMONDS => DIAMONDS,
            Symbol::HEARTS => HEARTS,
            Symbol::CLUBS => CLUBS,
            Symbol::SPADES => SPADES,
        }
    }

    /// The suit's display name.
    pub open spec fn name_spec(self) -> Seq<char> {
        match self {
            Symbol::DIAMONDS => "Diamonds"@,
            Symbol::HEARTS => "Hearts"@,
            Symbol::CLUBS => "Clubs"@,
            Symbol::SPADES => "Spades"@,
        }
    }

    pub fn val(&self) -> (r: u32)
        ensures
            r == self.val_spec(),
    {
        match self {
            Symbol::DIAMONDS => DIAMONDS,
            Symbol::HEARTS => HEARTS,
            Symbol::CLUBS => CLUBS,
            Symbol::SPADES => SPADES,
        }
    }

    pub fn name(&self) -> (r: &'static str)
        ensures
            r@ == self.name_spec(),
    {
        match self {
            Symbol::DIAMONDS => "Diamonds",
            Symbol::HEARTS => "Hearts",
            Symbol::CLUBS => "Clubs",
            Symbol::SPADES => "Spades",
        }
    }
}

impl Card {
    /// The blackjack score of the card: an ace counts 11 before any
    /// soft-ace reduction, face cards count 10, the rest count their rank.
    pub open spec fn score_spec(self) -> u32 {
        if self.value == 1 {
            11
        } else if 11 <= self.value <= 13 {
            10
        } else {
            self.value
        }
    }

    /// The packed single-integer encoding: suit mask or-ed with the rank.
    pub open spec fn to_u32_spec(self) -> u32 {
        self.symbol.val_spec() | self.value
    }

    /// The rank's display name.
    pub open spec fn value_str_spec(self) -> Seq<char> {
        if self.value == 1 {
            "Ace"@
        } else if self.value == 2 {
            "Two"@
        } else if self.value == 3 {
            "Three"@
        } else if self.value == 4 {
            "Four"@
        } else if self.value == 5 {
            "Five"@
        } else if self.value == 6 {
            "Six"@
        } else if self.value == 7 {
            "Seven"@
        } else if self.value == 8 {
            "Eight"@
        } else if self.value == 9 {
            "Nine"@
        } else if self.value == 10 {
            "Ten"@
        } else if self.value == 11 {
            "Jack"@
        } else if self.value == 12 {
            "Queen"@
        } else if self.value == 13 {
            "King"@
        } else {
            "Joker"@
        }
    }

    pub fn new(value: u32, symbol: Symbol) -> (c: Card)
        requires
            1 <= value <= 13,
        ensures
            c == (Card { value, symbol }),
            valid_card(c),
    {
        Card { value, symbol }
    }

    pub fn to_u32(&self) -> (r: u32)
        ensures
            r == self.to_u32_spec(),
    {
        self.symbol.val() | self.value
    }

    /// Every valid card scores in 2..=11, and an ace always scores 11.
    pub fn score(&self) -> (r: u32)
        ensures
            r == self.score_spec(),
            valid_card(*self) ==> 2 <= r <= 11,
            self.value == 1 ==> r == 11,
    {
        if self.value == 1 {
            11
        } else if 11 <= self.value && self.value <= 13 {
            10
        } else {
            self.value
        }
    }

    /// The human-readable form "Rank of Suit".
    pub fn to_string(&self) -> (r: String)
        ensures
            r@ == self.value_str_spec() + " of "@ + self.symbol.name_spec(),
    {
        let mut s = self.value_to_string().to_owned();
        s.append(" of ");
        s.append(self.symbol.name());
        s
    }

    pub fn value_to_string(&self) -> (r: &'static str)
        ensures
            r@ == self.value_str_spec(),
    {
        if self.value == 1 {
            "Ace"
        } else if self.value == 2 {
            "Two"
        } else if self.value == 3 {
            "Three"
        } else if self.value == 4 {
            "Four"
        } else if self.value == 5 {
            "Five"
        } else if self.value == 6 {
            "Six"
        } else if self.value == 7 {
            "Seven"
        } else if self.value == 8 {
            "Eight"
        } else if self.value == 9 {
            "Nine"
        } else if self.value == 10 {
            "Ten"
        } else if self.value == 11 {
            "Jack"
        } else if self.value == 12 {
            "Queen"
        } else if self.value == 13 {
            "King"
        } else {
            "Joker"
        }
    }
}

} // verus!
