use vstd::prelude::*;

verus! {

/// A card's suit. The order of the variants is only an enumeration order;
/// it never decides the strength of a hand.
#[derive(Clone, Copy, Debug, PartialEq, Eq, Structural, Hash, PartialOrd, Ord)]
pub enum Suit {
    Clubs,
    Diamonds,
    Hearts,
    Spades,
}

impl Suit {
    /// Position of the suit in the enumeration order, 0 to 3.
    pub open spec fn spec_index(self) -> int {
        match self {
            Suit::Clubs => 0,
            Suit::Diamonds => 1,
            Suit::Hearts => 2,
            Suit::Spades => 3,
        }
    }

    /// The suit at position `i` of the enumeration order.
    pub open spec fn spec_from_index(i: int) -> Suit {
        if i == 0 {
            Suit::Clubs
        } else if i == 1 {
            Suit::Diamonds
        } else if i == 2 {
            Suit::Hearts
        } else {
            Suit::Spades
        }
    }

    pub fn index(self) -> (r: usize)
        ensures
            r == self.spec_index(),
            r < 4,
    {
        match self {
            Suit::Clubs => 0,
            Suit::Diamonds => 1,
            Suit::Hearts => 2,
            Suit::Spades => 3,
        }
    }

    pub fn from_index(i: usize) -> (r: Suit)
        requires
            i < 4,
        ensures
            r == Suit::spec_from_index(i as int),
            r.spec_index() == i,
    {
        if i == 0 {
            Suit::Clubs
        } else if i == 1 {
            Suit::Diamonds
        } else if i == 2 {
            Suit::Hearts
        } else {
            Suit::Spades
        }
    }
}

/// A card's rank, from Two up to Ace.
#[derive(Clone, Copy, Debug, PartialEq, Eq, Structural, Hash, PartialOrd, Ord)]
pub enum Rank {
    Two,
    Three,
    Four,
    Five,
    Six,
    Seven,
    Eight,
    Nine,
    Ten,
    Jack,
    Queen,
    King,
    Ace,
}

impl Rank {
    /// The rank's score: Two is 1, and each rank scores one more than the
    /// rank below it, up to Ace at 13.
    pub open spec fn spec_score(self) -> int {
        match self {
            Rank::Two => 1,
            Rank::Three => 2,
            Rank::Four => 3,
            Rank::Five => 4,
            Rank::Six => 5,
            Rank::Seven => 6,
            Rank::Eight => 7,
            Rank::Nine => 8,
            Rank::Ten => 9,
            Rank::Jack => 10,
            Rank::Queen => 11,
            Rank::King => 12,
            Rank::Ace => 13,
        }
    }

    /// The rank whose score is `s`; meaningful for `1 <= s <= 13`.
    pub open spec fn spec_id(s: int) -> Rank
        recommends
            1 <= s <= 13,
    {
        if s <= 1 {
            Rank::Two
        } else if s == 2 {
            Rank::Three
        } else if s == 3 {
            Rank::Four
        } else if s == 4 {
            Rank::Five
        } else if s == 5 {
            Rank::Six
        } else if s == 6 {
            Rank::Seven
        } else if s == 7 {
            Rank::Eight
        } else if s == 8 {
            Rank::Nine
        } else if s == 9 {
            Rank::Ten
        } else if s == 10 {
            Rank::Jack
        } else if s == 11 {
            Rank::Queen
        } else if s == 12 {
            Rank::King
        } else {
            Rank::Ace
        }
    }

    pub fn score(self) -> (r: u8)
        ensures
            r == self.spec_score(),
            1 <= r <= 13,
    {
        match self {
            Rank::Two => 1,
            Rank::Three => 2,
            Rank::Four => 3,
            Rank::Five => 4,
            Rank::Six => 5,
            Rank::Seven => 6,
            Rank::Eight => 7,
            Rank::Nine => 8,
            Rank::Ten => 9,
            Rank::Jack => 10,
            Rank::Queen => 11,
            Rank::King => 12,
            Rank::Ace => 13,
        }
    }

    /// The rank with the given score. A score outside 1 to 13 names no rank,
    /// so callers must stay inside that range.
    pub fn id(score: u8) -> (r: Rank)
        requires
            1 <= score <= 13,
        ensures
            r == Rank::spec_id(score as int),
            r.spec_score() == score,
    {
        match score {
            1 => Rank::Two,
            2 => Rank::Three,
            3 => Rank::Four,
            4 => Rank::Five,
            5 => Rank::Six,
            6 => Rank::Seven,
            7 => Rank::Eight,
            8 => Rank::Nine,
            9 => Rank::Ten,
            10 => Rank::Jack,
            11 => Rank::Queen,
            12 => Rank::King,
            _ => Rank::Ace,
        }
    }
}

/// Scores name ranks one to one.
pub proof fn lemma_score_id(r: Rank)
    ensures
        1 <= r.spec_score() <= 13,
        Rank::spec_id(r.spec_score()) == r,
{
}

/// Each score from 1 to 13 names the rank with that score.
pub proof fn lemma_id_score(s: int)
    requires
        1 <= s <= 13,
    ensures
        Rank::spec_id(s).spec_score() == s,
{
}

/// An immutable playing card.
#[derive(Clone, Copy, Debug, PartialEq, Eq, Structural, Hash, PartialOrd, Ord)]
pub struct Card {
    pub rank: Rank,
    pub suit: Suit,
}

impl Card {
    pub fn new(rank: Rank, suit: Suit) -> (c: Card)
        ensures
            c == (Card { rank, suit }),
    {
        Card { rank, suit }
    }

    /// The score of the card's rank.
    pub open spec fn spec_score(self) -> int {
        self.rank.spec_score()
    }

    pub fn score(&self) -> (r: u8)
        ensures
            r == self.spec_score(),
            1 <= r <= 13,
    {
        self.rank.score()
    }
}

} // verus!
