//! Classification of seven cards into a `HandRanking`.
use crate::bits::{
    bit, clear_bit, count_bits, kickers, lemma_bits_ext, lemma_clear_bit, lemma_clear_low, lemma_count_agree,
    lemma_count_split, lemma_msb, lemma_set_bit, lemma_set_low, lemma_top_bits, lemma_zero,
    msb, straight_from, straight_high,
};
use crate::card::{Card, Rank, Suit};
use crate::ranking::HandRanking;
use vstd::prelude::*;

verus! {

/// How many of `cards` have rank score `s`.
pub open spec fn count_rank(cards: Seq<Card>, s: int) -> nat
    decreases cards.len(),
{
    if cards.len() == 0 {
        0
    } else {
        count_rank(cards.drop_last(), s) + (if cards.last().spec_score() == s { 1nat } else { 0nat })
    }
}

/// How many of `cards` have suit `suit`.
pub open spec fn count_suit(cards: Seq<Card>, suit: Suit) -> nat
    decreases cards.len(),
{
    if cards.len() == 0 {
        0
    } else {
        count_suit(cards.drop_last(), suit) + (if cards.last().suit == suit { 1nat } else { 0nat })
    }
}

/// `m` with the bit of `c`'s rank set, and bit 0 as well for an Ace.
pub open spec fn with_card(m: u16, c: Card) -> u16 {
    let m1 = m | (1u16 << (c.spec_score() as u16));
    if c.spec_score() == 13 {
        m1 | 1u16
    } else {
        m1
    }
}

/// The presence mask of the ranks in `cards`.
pub open spec fn rank_mask(cards: Seq<Card>) -> u16
    decreases cards.len(),
{
    if cards.len() == 0 {
        0
    } else {
        with_card(rank_mask(cards.drop_last()), cards.last())
    }
}

/// The presence mask of the ranks of the cards of suit `suit`.
pub open spec fn suit_mask(cards: Seq<Card>, suit: Suit) -> u16
    decreases cards.len(),
{
    if cards.len() == 0 {
        0
    } else if cards.last().suit == suit {
        with_card(suit_mask(cards.drop_last(), suit), cards.last())
    } else {
        suit_mask(cards.drop_last(), suit)
    }
}

/// The highest score `s < hi` of which `cards` hold exactly `c` cards, or 0.
pub open spec fn top_with_count(cards: Seq<Card>, c: nat, hi: int) -> int
    decreases hi,
{
    if hi <= 1 {
        0
    } else if count_rank(cards, hi - 1) == c {
        hi - 1
    } else {
        top_with_count(cards, c, hi - 1)
    }
}

/// The first suit, in enumeration order from position `i`, of which `cards`
/// hold five or more.
pub open spec fn flush_suit_from(cards: Seq<Card>, i: int) -> Option<Suit>
    decreases 4 - i,
{
    if i < 0 || i >= 4 {
        None
    } else if count_suit(cards, Suit::spec_from_index(i)) >= 5 {
        Some(Suit::spec_from_index(i))
    } else {
        flush_suit_from(cards, i + 1)
    }
}

/// The flush, straight flush or royal flush that `cards` make, if any.
pub open spec fn flush_ranking(cards: Seq<Card>) -> Option<HandRanking> {
    match flush_suit_from(cards, 0) {
        None => None,
        Some(suit) => {
            let fm = suit_mask(cards, suit);
            match straight_high(fm) {
                Some(h) => if h == 13 {
                    Some(HandRanking::RoyalFlush)
                } else {
                    Some(HandRanking::StraightFlush(Rank::spec_id(h)))
                },
                None => Some(HandRanking::Flush(kickers(fm, 5))),
            }
        },
    }
}

/// The best hand that `cards` make. Quads first; then a full house, from
/// two sets or from a set and the highest pair; then the flushes; then a
/// straight; then a set, two pair, one pair and high card, each with the
/// kickers left once its own ranks are taken out of the presence mask.
pub open spec fn classify(cards: Seq<Card>) -> HandRanking {
    let m = rank_mask(cards);
    let quad = top_with_count(cards, 4, 14);
    let set1 = top_with_count(cards, 3, 14);
    let set2 = top_with_count(cards, 3, set1);
    let pair1 = top_with_count(cards, 2, 14);
    let pair2 = top_with_count(cards, 2, pair1);
    if quad > 0 {
        HandRanking::Quads(Rank::spec_id(quad), Rank::spec_id(msb(clear_bit(m, quad), 16)))
    } else if set2 > 0 {
        HandRanking::FullHouse(Rank::spec_id(set1), Rank::spec_id(set2))
    } else if set1 > 0 && pair1 > 0 {
        HandRanking::FullHouse(Rank::spec_id(set1), Rank::spec_id(pair1))
    } else if flush_ranking(cards) is Some {
        flush_ranking(cards)->0
    } else if straight_high(m) is Some {
        HandRanking::Straight(Rank::spec_id(straight_high(m)->0))
    } else if set1 > 0 {
        HandRanking::Trips(Rank::spec_id(set1), kickers(clear_bit(m, set1), 2))
    } else if pair2 > 0 {
        HandRanking::TwoPair(
            Rank::spec_id(pair1),
            Rank::spec_id(pair2),
            Rank::spec_id(msb(clear_bit(clear_bit(m, pair1), pair2), 16)),
        )
    } else if pair1 > 0 {
        HandRanking::OnePair(Rank::spec_id(pair1), kickers(clear_bit(m, pair1), 3))
    } else {
        HandRanking::HighCard(kickers(m, 5))
    }
}

proof fn lemma_with_card(m: u16, c: Card, j: int)
    ensures
        bit(with_card(m, c), j) == (bit(m, j) || j == c.spec_score() || (j == 0
            && c.spec_score() == 13)),
{
    crate::card::lemma_score_id(c.rank);
    let m1 = m | (1u16 << (c.spec_score() as u16));
    lemma_set_bit(m, c.spec_score(), j);
    lemma_set_low(m1, j);
}

/// Bit `j` of the presence mask is set exactly when a card of score `j` is
/// present, bit 0 standing for the Ace as well.
pub proof fn lemma_rank_mask(cards: Seq<Card>, j: int)
    ensures
        bit(rank_mask(cards), j) == ((1 <= j <= 13 && count_rank(cards, j) > 0) || (j == 0
            && count_rank(cards, 13) > 0)),
    decreases cards.len(),
{
    if cards.len() == 0 {
        lemma_zero(j);
    } else {
        lemma_rank_mask(cards.drop_last(), j);
        lemma_with_card(rank_mask(cards.drop_last()), cards.last(), j);
        crate::card::lemma_score_id(cards.last().rank);
    }
}

/// The number of cards whose score is neither `a` nor `b`.
spec fn count_other(cards: Seq<Card>, a: int, b: int) -> nat
    decreases cards.len(),
{
    if cards.len() == 0 {
        0
    } else {
        count_other(cards.drop_last(), a, b) + (if cards.last().spec_score() != a
            && cards.last().spec_score() != b { 1nat } else { 0nat })
    }
}

proof fn lemma_count_other(cards: Seq<Card>, a: int, b: int)
    ensures
        cards.len() == count_other(cards, a, b) + count_rank(cards, a) + (if a != b {
            count_rank(cards, b)
        } else {
            0
        }),
    decreases cards.len(),
{
    if cards.len() > 0 {
        lemma_count_other(cards.drop_last(), a, b);
    }
}

/// Where the cards of scores `a` and `b` do not make up all of `cards`, some
/// other score is present.
proof fn lemma_other_rank(cards: Seq<Card>, a: int, b: int) -> (s: int)
    requires
        count_other(cards, a, b) > 0,
    ensures
        1 <= s <= 13,
        s != a,
        s != b,
        count_rank(cards, s) > 0,
    decreases cards.len(),
{
    let last = cards.last();
    crate::card::lemma_score_id(last.rank);
    if last.spec_score() != a && last.spec_score() != b {
        last.spec_score()
    } else {
        let s = lemma_other_rank(cards.drop_last(), a, b);
        s
    }
}

proof fn lemma_top_with_count(cards: Seq<Card>, c: nat, hi: int)
    requires
        hi <= 14,
    ensures
        0 <= top_with_count(cards, c, hi) <= 13,
        top_with_count(cards, c, hi) > 0 ==> top_with_count(cards, c, hi) < hi && count_rank(
            cards,
            top_with_count(cards, c, hi),
        ) == c,
    decreases hi,
{
    if hi > 1 && count_rank(cards, hi - 1) != c {
        lemma_top_with_count(cards, c, hi - 1);
    }
}

/// A hand of seven cards. The counts and the presence mask are computed once,
/// when the hand is built.
#[derive(Debug)]
pub struct Hand {
    cards: Vec<Card>,
    bitmask: u16,
    suit_counts: [u8; 4],
    rank_counts: [u8; 13],
}

impl View for Hand {
    type V = Seq<Card>;

    closed spec fn view(&self) -> Seq<Card> {
        self.cards@
    }
}

impl Hand {
    /// The cached tables agree with the cards.
    pub closed spec fn wf(&self) -> bool {
        &&& self.cards@.len() == 7
        &&& self.bitmask == rank_mask(self.cards@)
        &&& forall|k: int| 0 <= k < 4 ==> self.suit_counts@[k] == count_suit(self.cards@, Suit::spec_from_index(k))
        &&& forall|s: int| 1 <= s <= 13 ==> self.rank_counts@[s - 1] == count_rank(self.cards@, s)
    }

    /// The seven cards, hole cards first.
    pub fn cards(&self) -> (r: &[Card])
        ensures
            r@ == self@,
    {
        self.cards.as_slice()
    }

    /// The hand of the hole cards and the board cards, seven in all.
    pub fn new(hole_cards: &[Card], board_cards: &[Card]) -> (h: Hand)
        requires
            hole_cards@.len() + board_cards@.len() == 7,
        ensures
            h.wf(),
            h@ == hole_cards@ + board_cards@,
    {
        let mut cards: Vec<Card> = Vec::with_capacity(7);
        let mut i: usize = 0;
        while i < hole_cards.len()
            invariant
                i <= hole_cards@.len(),
                cards@ == hole_cards@.take(i as int),
            decreases hole_cards@.len() - i,
        {
            cards.push(hole_cards[i]);
            i += 1;
            assert(cards@ =~= hole_cards@.take(i as int));
        }
        let mut i: usize = 0;
        while i < board_cards.len()
            invariant
                i <= board_cards@.len(),
                cards@ == hole_cards@ + board_cards@.take(i as int),
            decreases board_cards@.len() - i,
        {
            cards.push(board_cards[i]);
            i += 1;
            assert(cards@ =~= hole_cards@ + board_cards@.take(i as int));
        }
        assert(board_cards@.take(board_cards@.len() as int) =~= board_cards@);

        let mut suit_counts: [u8; 4] = [0u8; 4];
        let mut rank_counts: [u8; 13] = [0u8; 13];
        let mut bitmask: u16 = 0;
        let mut i: usize = 0;
        assert(cards@.take(0) =~= Seq::<Card>::empty());
        while i < cards.len()
            invariant
                cards@.len() == 7,
                i <= 7,
                bitmask == rank_mask(cards@.take(i as int)),
                forall|k: int| 0 <= k < 4 ==> suit_counts@[k] == count_suit(cards@.take(i as int), Suit::spec_from_index(k)),
                forall|s: int| 1 <= s <= 13 ==> rank_counts@[s - 1] == count_rank(cards@.take(i as int), s),
                forall|k: int| 0 <= k < 4 ==> suit_counts@[k] <= i,
                forall|k: int| 0 <= k < 13 ==> rank_counts@[k] <= i,
            decreases 7 - i,
        {
            let card = cards[i];
            let si = card.suit.index();
            suit_counts[si] = suit_counts[si] + 1;
            let score = card.score();
            let ri = (score - 1) as usize;
            rank_counts[ri] = rank_counts[ri] + 1;
            bitmask = bitmask | (1u16 << (score as u16));
            if score == 13 {
                // The Ace also counts below the Two.
                bitmask = bitmask | 0x01;
            }
            proof {
                let prev = cards@.take(i as int);
                let next = cards@.take(i + 1);
                assert(next.drop_last() =~= prev);
                assert(next.last() == card);
                assert forall|k: int| 0 <= k < 4 implies suit_counts@[k] == count_suit(next, Suit::spec_from_index(k)) by {
                    assert(Suit::spec_from_index(k).spec_index() == k);
                }
                assert forall|s: int| 1 <= s <= 13 implies rank_counts@[s - 1] == count_rank(next, s) by {
                    assert(count_rank(next, s) == count_rank(prev, s) + (if card.spec_score() == s { 1nat } else { 0nat }));
                }
            }
            i += 1;
        }
        assert(cards@.take(7) =~= cards@);
        Hand { cards, bitmask, suit_counts, rank_counts }
    }

    /// The rank of the top card of the best straight in `bitmask`, looking
    /// at the ten runs of five from the highest down.
    fn best_straight(&self, bitmask: u16) -> (r: Option<Rank>)
        ensures
            r is Some <==> straight_high(bitmask) is Some,
            r is Some ==> 4 <= straight_high(bitmask)->0 <= 13 && r->0 == Rank::spec_id(
                straight_high(bitmask)->0,
            ),
    {
        let mut i: u16 = 10;
        while i > 0
            invariant
                i <= 10,
                straight_high(bitmask) == straight_from(bitmask, i as int),
            decreases i,
        {
            let window: u16 = 0x1F << (i - 1);
            if bitmask & window == window {
                return Some(Rank::id((i - 1 + 4) as u8));
            }
            i -= 1;
        }
        None
    }

    /// The `bits_needed` highest ranks of `bitmask`, the Ace mirror left
    /// out: the lowest set bits are cleared, one after another, until no
    /// more than `bits_needed` remain.
    fn highcards(&self, bitmask: u16, bits_needed: u8) -> (r: u16)
        ensures
            r == kickers(bitmask, bits_needed as nat),
    {
        let ghost n = bits_needed as nat;
        let ghost start: u16 = bitmask & !1u16;
        let mut m: u16 = bitmask & !1u16;
        let mut count: u8 = self.bits_set(m);
        proof {
            assert forall|j: int| 1 <= j < 16 implies bit(start, j) == bit(bitmask, j) by {
                lemma_clear_low(bitmask, j);
            }
            lemma_clear_low(bitmask, 0);
            lemma_count_agree(start, bitmask, 1, 16);
        }
        let mut i: u16 = 1;
        while count > bits_needed
            invariant
                n == bits_needed as nat,
                1 <= i <= 16,
                count == count_bits(bitmask, i as int, 16),
                forall|j: int| 0 <= j < 16 ==> bit(m, j) == (j >= i && bit(bitmask, j)),
                forall|j: int|
                    1 <= j < i && bit(bitmask, j) ==> count_bits(bitmask, j + 1, 16) >= n,
            decreases 16 - i,
        {
            assert(i < 16);
            let ghost old_m = m;
            assert(count_bits(bitmask, i as int, 16) == (if bit(bitmask, i as int) { 1nat } else { 0nat })
                + count_bits(bitmask, i + 1, 16));
            if (m >> i) & 1 == 1 {
                assert(bit(old_m, i as int));
                m = m & !(1u16 << i);
                assert forall|j: int| 0 <= j < 16 implies bit(m, j) == (j >= i + 1 && bit(bitmask, j)) by {
                    lemma_clear_bit(old_m, i as int, j);
                }
                count -= 1;
            } else {
                assert(!bit(old_m, i as int));
            }
            i += 1;
        }
        proof {
            assert forall|j: int| 0 <= j < 16 implies bit(m, j) == bit(kickers(bitmask, n), j) by {
                lemma_top_bits(bitmask, n, 16, j);
                if j >= i && bit(bitmask, j) {
                    lemma_count_split(bitmask, i as int, j, 16);
                }
            }
            lemma_bits_ext(m, kickers(bitmask, n));
        }
        m
    }

    /// The number of set bits in `bitmask`.
    fn bits_set(&self, bitmask: u16) -> (r: u8)
        ensures
            r == count_bits(bitmask, 0, 16),
    {
        let mut count: u8 = 0;
        let mut i: u16 = 16;
        while i > 0
            invariant
                i <= 16,
                count == count_bits(bitmask, i as int, 16),
                count <= 16 - i,
            decreases i,
        {
            i -= 1;
            if (bitmask >> i) & 1 == 1 {
                count += 1;
            }
        }
        count
    }

    /// The position of the highest set bit of `bitmask`.
    fn highest_bit(&self, bitmask: u16) -> (r: u8)
        requires
            msb(bitmask, 16) >= 0,
        ensures
            r == msb(bitmask, 16),
    {
        let mut i: u16 = 15;
        while (bitmask >> i) & 1 != 1
            invariant
                i < 16,
                msb(bitmask, 16) == msb(bitmask, i + 1),
                msb(bitmask, 16) >= 0,
            decreases i,
        {
            assert(!bit(bitmask, i as int));
            assert(msb(bitmask, i + 1) == msb(bitmask, i as int));
            i -= 1;
        }
        assert(bit(bitmask, i as int));
        i as u8
    }

    /// The first suit, in enumeration order, of which the hand holds five or
    /// more cards.
    fn flush_suit(&self) -> (r: Option<Suit>)
        requires
            self.wf(),
        ensures
            r == flush_suit_from(self@, 0),
    {
        let mut k: usize = 0;
        while k < 4
            invariant
                self.wf(),
                k <= 4,
                flush_suit_from(self@, 0) == flush_suit_from(self@, k as int),
            decreases 4 - k,
        {
            if self.suit_counts[k] >= 5 {
                return Some(Suit::from_index(k));
            }
            k += 1;
        }
        None
    }

    /// The flush the hand makes, if any: a royal flush or a straight flush
    /// where the cards of the flush suit run five in a row, else a flush with
    /// the five highest ranks of that suit as kickers.
    pub fn check_flush(&self) -> (r: Option<HandRanking>)
        requires
            self.wf(),
        ensures
            r == flush_ranking(self@),
    {
        match self.flush_suit() {
            None => None,
            Some(suit) => {
                let mut bitmask: u16 = 0;
                let mut i: usize = 0;
                assert(self.cards@.take(0) =~= Seq::<Card>::empty());
                while i < self.cards.len()
                    invariant
                        self.wf(),
                        i <= self.cards@.len(),
                        bitmask == suit_mask(self.cards@.take(i as int), suit),
                    decreases self.cards@.len() - i,
                {
                    let card = self.cards[i];
                    if card.suit == suit {
                        let score = card.score();
                        bitmask = bitmask | (1u16 << (score as u16));
                        if score == 13 {
                            bitmask = bitmask | 0x01;
                        }
                    }
                    assert(self.cards@.take(i + 1).drop_last() =~= self.cards@.take(i as int));
                    i += 1;
                }
                assert(self.cards@.take(self.cards@.len() as int) =~= self.cards@);
                match self.best_straight(bitmask) {
                    Some(card) => {
                        if card == Rank::Ace {
                            Some(HandRanking::RoyalFlush)
                        } else {
                            proof {
                                crate::card::lemma_score_id(card);
                            }
                            Some(HandRanking::StraightFlush(card))
                        }
                    },
                    None => Some(HandRanking::Flush(self.highcards(bitmask, 5))),
                }
            },
        }
    }

    /// The best hand that the seven cards make.
    pub fn best(&self) -> (r: HandRanking)
        requires
            self.wf(),
        ensures
            r == classify(self@),
    {
        let ghost cards = self@;
        // The two highest ranks held three times, and twice; the rank held
        // four times. Zero stands for none.
        let mut quad: u8 = 0;
        let mut set1: u8 = 0;
        let mut set2: u8 = 0;
        let mut pair1: u8 = 0;
        let mut pair2: u8 = 0;
        let mut s: u8 = 1;
        while s <= 13
            invariant
                self.wf(),
                cards == self@,
                1 <= s <= 14,
                quad == top_with_count(cards, 4, s as int),
                set1 == top_with_count(cards, 3, s as int),
                set2 == top_with_count(cards, 3, set1 as int),
                pair1 == top_with_count(cards, 2, s as int),
                pair2 == top_with_count(cards, 2, pair1 as int),
            decreases 14 - s,
        {
            let count = self.rank_counts[(s - 1) as usize];
            if count == 4 {
                quad = s;
            } else if count == 3 {
                set2 = set1;
                set1 = s;
            } else if count == 2 {
                pair2 = pair1;
                pair1 = s;
            }
            s += 1;
        }
        proof {
            lemma_top_with_count(cards, 4, 14);
            lemma_top_with_count(cards, 3, 14);
            lemma_top_with_count(cards, 3, set1 as int);
            lemma_top_with_count(cards, 2, 14);
            lemma_top_with_count(cards, 2, pair1 as int);
            lemma_count_other(cards, quad as int, quad as int);
            lemma_count_other(cards, pair1 as int, pair2 as int);
        }
        let m = self.bitmask;

        if quad > 0 {
            let rest = m & !(1u16 << (quad as u16));
            proof {
                let o = lemma_other_rank(cards, quad as int, quad as int);
                lemma_rank_mask(cards, o);
                lemma_clear_bit(m, quad as int, o);
                lemma_msb(rest, 16, o);
                lemma_rank_mask(cards, msb(rest, 16));
                lemma_clear_bit(m, quad as int, msb(rest, 16));
            }
            let kicker = self.highest_bit(rest);
            return HandRanking::Quads(Rank::id(quad), Rank::id(kicker));
        }

        if set2 > 0 {
            return HandRanking::FullHouse(Rank::id(set1), Rank::id(set2));
        }
        if set1 > 0 && pair1 > 0 {
            return HandRanking::FullHouse(Rank::id(set1), Rank::id(pair1));
        }

        if let Some(flush) = self.check_flush() {
            return flush;
        }

        if let Some(card) = self.best_straight(m) {
            return HandRanking::Straight(card);
        }

        if set1 > 0 {
            let rest = m & !(1u16 << (set1 as u16));
            return HandRanking::Trips(Rank::id(set1), self.highcards(rest, 2));
        }

        if pair2 > 0 {
            let rest1 = m & !(1u16 << (pair1 as u16));
            let rest = rest1 & !(1u16 << (pair2 as u16));
            proof {
                let o = lemma_other_rank(cards, pair1 as int, pair2 as int);
                lemma_rank_mask(cards, o);
                lemma_clear_bit(m, pair1 as int, o);
                lemma_clear_bit(rest1, pair2 as int, o);
                lemma_msb(rest, 16, o);
                let h = msb(rest, 16);
                lemma_rank_mask(cards, h);
                lemma_clear_bit(m, pair1 as int, h);
                lemma_clear_bit(rest1, pair2 as int, h);
            }
            let kicker = self.highest_bit(rest);
            return HandRanking::TwoPair(Rank::id(pair1), Rank::id(pair2), Rank::id(kicker));
        }

        if pair1 > 0 {
            let rest = m & !(1u16 << (pair1 as u16));
            return HandRanking::OnePair(Rank::id(pair1), self.highcards(rest, 3));
        }

        HandRanking::HighCard(self.highcards(m, 5))
    }
}

} // verus!
