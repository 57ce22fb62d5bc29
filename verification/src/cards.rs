use vstd::prelude::*;

verus! {

/// One of the four suits of a standard deck.
#[derive(Clone, Copy, Debug, PartialEq, Eq, Hash, Structural)]
pub enum Suit {
    Clubs,
    Diamonds,
    Hearts,
    Spades,
}

/// A playing card: a rank from 2 to 14 (14 is the Ace) and a suit.
/// Two cards are equal exactly when both rank and suit agree.
#[derive(Clone, Copy, Debug, PartialEq, Eq, Hash, Structural)]
pub struct Card {
    pub rank: u8,
    pub suit: Suit,
}

/// The ranks a card may carry: 2 through 14, with 14 standing for the Ace.
pub open spec fn valid_rank(r: u8) -> bool {
    2 <= r <= 14
}

pub open spec fn valid_card(c: Card) -> bool {
    valid_rank(c.rank)
}

/// The characters that name a rank: "2" .. "10", "J", "Q", "K", "A".
pub open spec fn spec_rank_chars(r: u8) -> Seq<char> {
    if r == 14 {
        "A"@
    } else if r == 13 {
        "K"@
    } else if r == 12 {
        "Q"@
    } else if r == 11 {
        "J"@
    } else if r == 10 {
        "10"@
    } else if r == 9 {
        "9"@
    } else if r == 8 {
        "8"@
    } else if r == 7 {
        "7"@
    } else if r == 6 {
        "6"@
    } else if r == 5 {
        "5"@
    } else if r == 4 {
        "4"@
    } else if r == 3 {
        "3"@
    } else {
        "2"@
    }
}

/// The character that names a suit: "C", "D", "H" or "S".
pub open spec fn spec_suit_chars(s: Suit) -> Seq<char> {
    match s {
        Suit::Clubs => "C"@,
        Suit::Diamonds => "D"@,
        Suit::Hearts => "H"@,
        Suit::Spades => "S"@,
    }
}

/// The short label of a card, rank first then suit, as in "AS" or "10C".
pub open spec fn spec_card_chars(c: Card) -> Seq<char> {
    spec_rank_chars(c.rank) + spec_suit_chars(c.suit)
}

impl Card {
    /// The short textual label of the card, e.g. "AS" for the ace of spades.
    pub fn to_string(&self) -> (r: String)
        requires
            valid_card(*self),
        ensures
            r@ == spec_card_chars(*self),
    {
        let mut s = String::new();
        let rank_part: &str = match self.rank {
            14 => "A",
            13 => "K",
            12 => "Q",
            11 => "J",
            10 => "10",
            9 => "9",
            8 => "8",
            7 => "7",
            6 => "6",
            5 => "5",
            4 => "4",
            3 => "3",
            _ => "2",
        };
        let suit_part: &str = match self.suit {
            Suit::Clubs => "C",
            Suit::Diamonds => "D",
            Suit::Hearts => "H",
            Suit::Spades => "S",
        };
        s.append(rank_part);
        s.append(suit_part);
        assert(s@ == spec_card_chars(*self));
        s
    }
}

} // verus!
