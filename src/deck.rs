//! The card supply: undealt cards, drawn from the top, and dealt cards,
//! which together always make up the standard 52-card deck.
use crate::card::{Card, Rank, Suit};
use rand::rngs::StdRng;
use rand::seq::SliceRandom;
use vstd::multiset::Multiset;
use vstd::prelude::*;

verus! {

broadcast use vstd::seq_lib::group_to_multiset_ensures, vstd::seq_lib::lemma_multiset_commutative;

#[verifier::external_type_specification]
#[verifier::external_body]
pub struct ExStdRng(StdRng);

/// Relies on rand's `SliceRandom::shuffle`: it permutes the slice in place,
/// only swapping its elements.
#[verifier::external_body]
fn shuffle_cards(cards: &mut Vec<Card>, rng: &mut StdRng)
    ensures
        final(cards)@.to_multiset() == old(cards)@.to_multiset(),
{
    cards.shuffle(rng);
}

/// The 52 cards in canonical order: by rank from Two up, and within a rank
/// by suit in enumeration order.
pub open spec fn standard_deck() -> Seq<Card> {
    Seq::new(
        52,
        |i: int| Card { rank: Rank::spec_id(i / 4 + 1), suit: Suit::spec_from_index(i % 4) },
    )
}

/// A draw asked for more cards than remain undealt.
#[derive(Clone, Copy, Debug, PartialEq, Eq, Structural)]
pub enum DeckError {
    SupplyExhausted,
}

/// A deck of cards: the undealt cards, whose last card is the top, and the
/// cards dealt so far, in the order they were drawn.
#[derive(Debug)]
pub struct Deck {
    cards: Vec<Card>,
    dealt: Vec<Card>,
}

impl Deck {
    /// The undealt cards; the last one is the top of the deck.
    pub closed spec fn undealt(&self) -> Seq<Card> {
        self.cards@
    }

    /// The cards dealt so far, in the order they were drawn.
    pub closed spec fn dealt(&self) -> Seq<Card> {
        self.dealt@
    }

    /// Undealt and dealt cards together are the standard deck, each card once.
    pub open spec fn wf(&self) -> bool {
        (self.undealt() + self.dealt()).to_multiset() == standard_deck().to_multiset()
    }

    /// The full deck in canonical order, nothing dealt.
    pub fn new() -> (d: Deck)
        ensures
            d.wf(),
            d.undealt() == standard_deck(),
            d.dealt() == Seq::<Card>::empty(),
    {
        let mut cards: Vec<Card> = Vec::with_capacity(52);
        let dealt: Vec<Card> = Vec::with_capacity(25);
        let mut r: u8 = 1;
        while r <= 13
            invariant
                1 <= r <= 14,
                cards@ == standard_deck().take(4 * (r - 1)),
            decreases 14 - r,
        {
            let mut k: usize = 0;
            while k < 4
                invariant
                    1 <= r <= 13,
                    k <= 4,
                    cards@ == standard_deck().take(4 * (r - 1) + k),
                decreases 4 - k,
            {
                let ghost i = 4 * (r - 1) + k;
                assert(i / 4 == r - 1 && i % 4 == k) by (nonlinear_arith)
                    requires
                        i == 4 * (r - 1) + k,
                        0 <= k < 4,
                        r >= 1,
                ;
                cards.push(Card::new(Rank::id(r), Suit::from_index(k)));
                k += 1;
                assert(cards@ =~= standard_deck().take(i + 1));
            }
            r += 1;
        }
        assert(cards@ =~= standard_deck());
        assert(cards@ + dealt@ =~= cards@);
        Deck { cards, dealt }
    }

    /// Puts the undealt cards in a random order drawn from `rng`; the dealt
    /// cards stay as they are.
    pub fn shuffle(&mut self, rng: &mut StdRng)
        ensures
            final(self).undealt().to_multiset() == old(self).undealt().to_multiset(),
            final(self).dealt() == old(self).dealt(),
            old(self).wf() ==> final(self).wf(),
    {
        shuffle_cards(&mut self.cards, rng);
    }

    /// Takes `nr` cards off the top of the deck, hands them out in the order
    /// they were taken and records them as dealt. Where fewer than `nr`
    /// cards remain, nothing is taken and the deck is left as it was.
    pub fn draw(&mut self, nr: u8) -> (r: Result<Vec<Card>, DeckError>)
        ensures
            r is Err <==> nr > old(self).undealt().len(),
            r is Err ==> r == Err::<Vec<Card>, DeckError>(DeckError::SupplyExhausted)
                && final(self).undealt() == old(self).undealt() && final(self).dealt() == old(
                self,
            ).dealt(),
            r is Ok ==> ({
                let len = old(self).undealt().len();
                let drawn = r->Ok_0@;
                &&& drawn.len() == nr
                &&& forall|i: int| 0 <= i < nr ==> drawn[i] == old(self).undealt()[len - 1 - i]
                &&& final(self).undealt() == old(self).undealt().take(len - nr)
                &&& final(self).dealt() == old(self).dealt() + drawn
            }),
            old(self).wf() ==> final(self).wf(),
    {
        if nr as usize > self.cards.len() {
            return Err(DeckError::SupplyExhausted);
        }
        let ghost start = self.cards@;
        let ghost start_dealt = self.dealt@;
        let ghost len = start.len();
        let mut drawn: Vec<Card> = Vec::new();
        let mut k: u8 = 0;
        assert(start.take(len as int) =~= start);
        while k < nr
            invariant
                len == start.len(),
                nr <= len,
                k <= nr,
                self.cards@ == start.take(len - k),
                drawn@.len() == k,
                forall|i: int| 0 <= i < k ==> drawn@[i] == start[len - 1 - i],
                self.dealt@ == start_dealt + drawn@,
                (self.cards@ + self.dealt@).to_multiset() == (start + start_dealt).to_multiset(),
            decreases nr - k,
        {
            let ghost before = self.cards@;
            let card = self.cards.pop().unwrap();
            proof {
                assert(self.cards@ =~= start.take(len - k - 1));
                assert(before =~= self.cards@.push(card));
                assert((self.cards@ + self.dealt@.push(card)).to_multiset() =~= (before
                    + self.dealt@).to_multiset());
            }
            self.dealt.push(card);
            drawn.push(card);
            k += 1;
        }
        Ok(drawn)
    }

    /// The undealt cards; the last one is the top of the deck.
    pub fn undealt_cards(&self) -> (r: &[Card])
        ensures
            r@ == self.undealt(),
    {
        self.cards.as_slice()
    }

    /// The cards dealt so far, in the order they were drawn.
    pub fn dealt_cards(&self) -> (r: &[Card])
        ensures
            r@ == self.dealt(),
    {
        self.dealt.as_slice()
    }

    /// Moves every dealt card back under the undealt ones. The order is not
    /// shuffled again.
    pub fn reset(&mut self)
        ensures
            final(self).undealt() == old(self).undealt() + old(self).dealt(),
            final(self).dealt() == Seq::<Card>::empty(),
            old(self).wf() ==> final(self).wf(),
    {
        self.cards.append(&mut self.dealt);
        assert(self.cards@ + self.dealt@ =~= self.cards@);
    }
}

impl Default for Deck {
    fn default() -> (d: Deck)
        ensures
            d.wf(),
            d.undealt() == standard_deck(),
            d.dealt() == Seq::<Card>::empty(),
    {
        Deck::new()
    }
}

/// No card occurs twice in the standard deck.
pub proof fn lemma_standard_deck_distinct()
    ensures
        standard_deck().no_duplicates(),
{
    assert forall|i: int, j: int|
        0 <= i < 52 && 0 <= j < 52 && i != j implies standard_deck()[i] != standard_deck()[j] by {
        crate::card::lemma_id_score(i / 4 + 1);
        crate::card::lemma_id_score(j / 4 + 1);
        if standard_deck()[i] == standard_deck()[j] {
            assert(i / 4 == j / 4);
            assert(i % 4 == j % 4);
            assert(i == j) by (nonlinear_arith)
                requires
                    i / 4 == j / 4,
                    i % 4 == j % 4,
            ;
        }
    }
}

/// Whatever draws, resets and shuffles a deck has gone through since it was
/// built, its undealt and dealt cards number 52 together and share no card.
pub proof fn lemma_partition(d: Deck)
    requires
        d.wf(),
    ensures
        d.undealt().len() + d.dealt().len() == 52,
        forall|c: Card| !(d.undealt().contains(c) && d.dealt().contains(c)),
{
    lemma_standard_deck_distinct();
    standard_deck().lemma_multiset_has_no_duplicates();
    assert((d.undealt() + d.dealt()).to_multiset().len() == 52);
    assert forall|c: Card| !(d.undealt().contains(c) && d.dealt().contains(c)) by {
        if d.undealt().contains(c) && d.dealt().contains(c) {
            assert(d.undealt().to_multiset().count(c) > 0);
            assert(d.dealt().to_multiset().count(c) > 0);
            assert((d.undealt() + d.dealt()).to_multiset().count(c) >= 2);
            assert(standard_deck().to_multiset().contains(c));
        }
    }
}

} // verus!
