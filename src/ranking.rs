//! The strength of a hand: ten categories, each with the payload that
//! breaks ties inside it.
use crate::card::Rank;
use std::cmp::Ordering;
use vstd::prelude::*;
use vstd::std_specs::cmp::PartialOrdSpec;

verus! {

/// The outcome of classifying a hand, weakest category first. Kicker masks
/// hold one bit per rank score (bit 12 for the King, bit 13 for the Ace), so
/// a larger mask is a stronger set of kickers.
#[derive(Clone, Copy, Debug, PartialEq, Eq, Structural)]
pub enum HandRanking {
    HighCard(u16),
    OnePair(Rank, u16),
    TwoPair(Rank, Rank, Rank),
    Trips(Rank, u16),
    Straight(Rank),
    Flush(u16),
    FullHouse(Rank, Rank),
    Quads(Rank, Rank),
    StraightFlush(Rank),
    RoyalFlush,
}

/// Lexicographic comparison of two keys.
pub open spec fn key_cmp(x: (int, int, int, int), y: (int, int, int, int)) -> Ordering {
    if x.0 != y.0 {
        if x.0 < y.0 { Ordering::Less } else { Ordering::Greater }
    } else if x.1 != y.1 {
        if x.1 < y.1 { Ordering::Less } else { Ordering::Greater }
    } else if x.2 != y.2 {
        if x.2 < y.2 { Ordering::Less } else { Ordering::Greater }
    } else if x.3 != y.3 {
        if x.3 < y.3 { Ordering::Less } else { Ordering::Greater }
    } else {
        Ordering::Equal
    }
}

impl HandRanking {
    /// Position of the category in the order of strength, 0 (high card) to
    /// 9 (royal flush).
    pub open spec fn category(self) -> int {
        match self {
            HandRanking::HighCard(..) => 0,
            HandRanking::OnePair(..) => 1,
            HandRanking::TwoPair(..) => 2,
            HandRanking::Trips(..) => 3,
            HandRanking::Straight(..) => 4,
            HandRanking::Flush(..) => 5,
            HandRanking::FullHouse(..) => 6,
            HandRanking::Quads(..) => 7,
            HandRanking::StraightFlush(..) => 8,
            HandRanking::RoyalFlush => 9,
        }
    }

    /// The category followed by the payload fields in declared order: a rank
    /// by its score, a kicker mask by its value, and 0 where a category has
    /// fewer fields.
    pub open spec fn key(self) -> (int, int, int, int) {
        match self {
            HandRanking::HighCard(k) => (0, k as int, 0, 0),
            HandRanking::OnePair(p, k) => (1, p.spec_score(), k as int, 0),
            HandRanking::TwoPair(h, l, k) => (2, h.spec_score(), l.spec_score(), k.spec_score()),
            HandRanking::Trips(s, k) => (3, s.spec_score(), k as int, 0),
            HandRanking::Straight(h) => (4, h.spec_score(), 0, 0),
            HandRanking::Flush(k) => (5, k as int, 0, 0),
            HandRanking::FullHouse(t, p) => (6, t.spec_score(), p.spec_score(), 0),
            HandRanking::Quads(q, k) => (7, q.spec_score(), k.spec_score(), 0),
            HandRanking::StraightFlush(h) => (8, h.spec_score(), 0, 0),
            HandRanking::RoyalFlush => (9, 0, 0, 0),
        }
    }

    /// How `self` compares with `other` in strength.
    pub open spec fn compare(self, other: HandRanking) -> Ordering {
        key_cmp(self.key(), other.key())
    }

    fn exec_key(&self) -> (r: (u8, u16, u16, u16))
        ensures
            (r.0 as int, r.1 as int, r.2 as int, r.3 as int) == self.key(),
    {
        match *self {
            HandRanking::HighCard(k) => (0, k, 0, 0),
            HandRanking::OnePair(p, k) => (1, p.score() as u16, k, 0),
            HandRanking::TwoPair(h, l, k) => (2, h.score() as u16, l.score() as u16, k.score() as u16),
            HandRanking::Trips(s, k) => (3, s.score() as u16, k, 0),
            HandRanking::Straight(h) => (4, h.score() as u16, 0, 0),
            HandRanking::Flush(k) => (5, k, 0, 0),
            HandRanking::FullHouse(t, p) => (6, t.score() as u16, p.score() as u16, 0),
            HandRanking::Quads(q, k) => (7, q.score() as u16, k.score() as u16, 0),
            HandRanking::StraightFlush(h) => (8, h.score() as u16, 0, 0),
            HandRanking::RoyalFlush => (9, 0, 0, 0),
        }
    }
}

impl PartialOrd for HandRanking {
    /// Category first; inside a category, the payload fields left to right.
    fn partial_cmp(&self, other: &HandRanking) -> (r: Option<Ordering>)
        ensures
            r == Some(self.compare(*other)),
    {
        let a = self.exec_key();
        let b = other.exec_key();
        if a.0 != b.0 {
            if a.0 < b.0 { Some(Ordering::Less) } else { Some(Ordering::Greater) }
        } else if a.1 != b.1 {
            if a.1 < b.1 { Some(Ordering::Less) } else { Some(Ordering::Greater) }
        } else if a.2 != b.2 {
            if a.2 < b.2 { Some(Ordering::Less) } else { Some(Ordering::Greater) }
        } else if a.3 != b.3 {
            if a.3 < b.3 { Some(Ordering::Less) } else { Some(Ordering::Greater) }
        } else {
            Some(Ordering::Equal)
        }
    }
}

impl vstd::std_specs::cmp::PartialOrdSpecImpl for HandRanking {
    open spec fn obeys_partial_cmp_spec() -> bool {
        true
    }

    open spec fn partial_cmp_spec(&self, other: &HandRanking) -> Option<Ordering> {
        Some(self.compare(*other))
    }
}

/// Hand strengths are totally ordered: for any two, exactly one of `<`,
/// `==`, `>` holds; the order is antisymmetric and transitive; and a
/// stronger category beats a weaker one whatever either payload holds.
pub proof fn lemma_total_order(a: HandRanking, b: HandRanking, c: HandRanking)
    ensures
        a.partial_cmp_spec(&b) is Some,
        (a.partial_cmp_spec(&b) == Some(Ordering::Less)) as int + (a == b) as int
            + (a.partial_cmp_spec(&b) == Some(Ordering::Greater)) as int == 1,
        a.partial_cmp_spec(&b) == Some(Ordering::Equal) <==> a == b,
        a.partial_cmp_spec(&b) == Some(Ordering::Less) <==> b.partial_cmp_spec(&a) == Some(
            Ordering::Greater,
        ),
        a.partial_cmp_spec(&b) == Some(Ordering::Less) && b.partial_cmp_spec(&c) == Some(
            Ordering::Less,
        ) ==> a.partial_cmp_spec(&c) == Some(Ordering::Less),
        a.category() < b.category() ==> a.partial_cmp_spec(&b) == Some(Ordering::Less),
{
    crate::card::lemma_score_id(Rank::Two);
    assert(a.key() == b.key() ==> a == b) by {
        if a.key() == b.key() {
            match a {
                HandRanking::HighCard(..) => {},
                HandRanking::OnePair(p, _) => {
                    crate::card::lemma_score_id(p);
                    crate::card::lemma_score_id(b->OnePair_0);
                },
                HandRanking::TwoPair(h, l, k) => {
                    crate::card::lemma_score_id(h);
                    crate::card::lemma_score_id(l);
                    crate::card::lemma_score_id(k);
                    crate::card::lemma_score_id(b->TwoPair_0);
                    crate::card::lemma_score_id(b->TwoPair_1);
                    crate::card::lemma_score_id(b->TwoPair_2);
                },
                HandRanking::Trips(s, _) => {
                    crate::card::lemma_score_id(s);
                    crate::card::lemma_score_id(b->Trips_0);
                },
                HandRanking::Straight(h) => {
                    crate::card::lemma_score_id(h);
                    crate::card::lemma_score_id(b->Straight_0);
                },
                HandRanking::Flush(..) => {},
                HandRanking::FullHouse(t, p) => {
                    crate::card::lemma_score_id(t);
                    crate::card::lemma_score_id(p);
                    crate::card::lemma_score_id(b->FullHouse_0);
                    crate::card::lemma_score_id(b->FullHouse_1);
                },
                HandRanking::Quads(q, k) => {
                    crate::card::lemma_score_id(q);
                    crate::card::lemma_score_id(k);
                    crate::card::lemma_score_id(b->Quads_0);
                    crate::card::lemma_score_id(b->Quads_1);
                },
                HandRanking::StraightFlush(h) => {
                    crate::card::lemma_score_id(h);
                    crate::card::lemma_score_id(b->StraightFlush_0);
                },
                HandRanking::RoyalFlush => {},
            }
        }
    }
}

/// With the category and the primary ranks fixed, a strictly larger kicker
/// mask (as an unsigned integer) gives a strictly stronger hand, and so does
/// a strictly higher single kicker rank.
pub proof fn lemma_kicker_monotone(p: Rank, q: Rank, k1: u16, k2: u16, r1: Rank, r2: Rank)
    requires
        k1 < k2,
        r1.spec_score() < r2.spec_score(),
    ensures
        HandRanking::HighCard(k1).partial_cmp_spec(&HandRanking::HighCard(k2)) == Some(
            Ordering::Less,
        ),
        HandRanking::OnePair(p, k1).partial_cmp_spec(&HandRanking::OnePair(p, k2)) == Some(
            Ordering::Less,
        ),
        HandRanking::Trips(p, k1).partial_cmp_spec(&HandRanking::Trips(p, k2)) == Some(
            Ordering::Less,
        ),
        HandRanking::Flush(k1).partial_cmp_spec(&HandRanking::Flush(k2)) == Some(Ordering::Less),
        HandRanking::TwoPair(p, q, r1).partial_cmp_spec(&HandRanking::TwoPair(p, q, r2)) == Some(
            Ordering::Less,
        ),
        HandRanking::Quads(p, r1).partial_cmp_spec(&HandRanking::Quads(p, r2)) == Some(
            Ordering::Less,
        ),
{
}

} // verus!
