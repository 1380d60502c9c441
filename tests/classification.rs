use holdem_eval::{Card, Deck, Hand, HandRanking, Rank, Suit};
use std::cmp::Ordering;

fn c(rank: Rank, suit: Suit) -> Card {
    Card::new(rank, suit)
}

#[test]
fn flush_scenario_through_best() {
    let hole = [c(Rank::Seven, Suit::Hearts), c(Rank::Eight, Suit::Hearts)];
    let board = [
        c(Rank::King, Suit::Hearts),
        c(Rank::Five, Suit::Hearts),
        c(Rank::Nine, Suit::Hearts),
        c(Rank::Two, Suit::Hearts),
        c(Rank::Nine, Suit::Clubs),
    ];
    let hand = Hand::new(&hole, &board);
    assert_eq!(hand.best(), HandRanking::Flush(0b0001_0001_1101_0000));
}

#[test]
fn royal_flush_scenario_through_best() {
    let hole = [c(Rank::Ten, Suit::Hearts), c(Rank::Jack, Suit::Hearts)];
    let board = [
        c(Rank::King, Suit::Hearts),
        c(Rank::Five, Suit::Hearts),
        c(Rank::Four, Suit::Hearts),
        c(Rank::Ace, Suit::Hearts),
        c(Rank::Queen, Suit::Hearts),
    ];
    assert_eq!(Hand::new(&hole, &board).best(), HandRanking::RoyalFlush);
}

#[test]
fn hand_keeps_hole_cards_first() {
    let hole = [c(Rank::Ace, Suit::Clubs), c(Rank::Two, Suit::Diamonds)];
    let board = [
        c(Rank::Four, Suit::Hearts),
        c(Rank::Six, Suit::Spades),
        c(Rank::Eight, Suit::Clubs),
        c(Rank::Ten, Suit::Diamonds),
        c(Rank::Queen, Suit::Hearts),
    ];
    let hand = Hand::new(&hole, &board);
    assert_eq!(hand.cards()[..2], hole[..]);
    assert_eq!(hand.cards()[2..], board[..]);
}

#[test]
fn high_card_leaves_out_the_low_ace() {
    let hole = [c(Rank::Ace, Suit::Clubs), c(Rank::Two, Suit::Diamonds)];
    let board = [
        c(Rank::Four, Suit::Hearts),
        c(Rank::Six, Suit::Spades),
        c(Rank::Eight, Suit::Clubs),
        c(Rank::Ten, Suit::Diamonds),
        c(Rank::Queen, Suit::Hearts),
    ];
    assert_eq!(
        Hand::new(&hole, &board).best(),
        HandRanking::HighCard(0b10_1010_1010_0000)
    );
}

#[test]
fn trips_with_two_kickers() {
    let hole = [c(Rank::Seven, Suit::Clubs), c(Rank::Seven, Suit::Diamonds)];
    let board = [
        c(Rank::Seven, Suit::Hearts),
        c(Rank::King, Suit::Spades),
        c(Rank::Two, Suit::Clubs),
        c(Rank::Nine, Suit::Diamonds),
        c(Rank::Four, Suit::Hearts),
    ];
    assert_eq!(
        Hand::new(&hole, &board).best(),
        HandRanking::Trips(Rank::Seven, 0b01_0001_0000_0000)
    );
}

#[test]
fn three_pairs_make_two_pair_with_best_kicker() {
    let hole = [c(Rank::King, Suit::Clubs), c(Rank::King, Suit::Diamonds)];
    let board = [
        c(Rank::Queen, Suit::Hearts),
        c(Rank::Queen, Suit::Spades),
        c(Rank::Five, Suit::Clubs),
        c(Rank::Five, Suit::Diamonds),
        c(Rank::Ace, Suit::Hearts),
    ];
    assert_eq!(
        Hand::new(&hole, &board).best(),
        HandRanking::TwoPair(Rank::King, Rank::Queen, Rank::Ace)
    );
}

#[test]
fn pair_of_aces_kicker_is_not_the_low_ace() {
    let hole = [c(Rank::Ace, Suit::Clubs), c(Rank::Ace, Suit::Diamonds)];
    let board = [
        c(Rank::Queen, Suit::Hearts),
        c(Rank::Queen, Suit::Spades),
        c(Rank::Three, Suit::Clubs),
        c(Rank::Nine, Suit::Diamonds),
        c(Rank::Seven, Suit::Hearts),
    ];
    assert_eq!(
        Hand::new(&hole, &board).best(),
        HandRanking::TwoPair(Rank::Ace, Rank::Queen, Rank::Nine)
    );
}

#[test]
fn quad_aces_take_the_highest_other_rank() {
    let hole = [c(Rank::Ace, Suit::Clubs), c(Rank::Ace, Suit::Diamonds)];
    let board = [
        c(Rank::Ace, Suit::Hearts),
        c(Rank::Ace, Suit::Spades),
        c(Rank::Three, Suit::Clubs),
        c(Rank::Three, Suit::Diamonds),
        c(Rank::Two, Suit::Hearts),
    ];
    assert_eq!(
        Hand::new(&hole, &board).best(),
        HandRanking::Quads(Rank::Ace, Rank::Three)
    );
}

#[test]
fn one_pair_with_three_kickers() {
    let hole = [c(Rank::Jack, Suit::Clubs), c(Rank::Jack, Suit::Diamonds)];
    let board = [
        c(Rank::Two, Suit::Hearts),
        c(Rank::Five, Suit::Spades),
        c(Rank::Nine, Suit::Clubs),
        c(Rank::King, Suit::Diamonds),
        c(Rank::Three, Suit::Hearts),
    ];
    assert_eq!(
        Hand::new(&hole, &board).best(),
        HandRanking::OnePair(Rank::Jack, 0b01_0001_0001_0000)
    );
}

#[test]
fn straight_outranks_trips_in_one_hand() {
    let hole = [c(Rank::Seven, Suit::Clubs), c(Rank::Seven, Suit::Diamonds)];
    let board = [
        c(Rank::Seven, Suit::Hearts),
        c(Rank::Eight, Suit::Spades),
        c(Rank::Nine, Suit::Clubs),
        c(Rank::Ten, Suit::Diamonds),
        c(Rank::Jack, Suit::Hearts),
    ];
    assert_eq!(
        Hand::new(&hole, &board).best(),
        HandRanking::Straight(Rank::Jack)
    );
}

#[test]
fn flush_outranks_straight_in_one_hand() {
    let hole = [c(Rank::Two, Suit::Hearts), c(Rank::Six, Suit::Hearts)];
    let board = [
        c(Rank::Three, Suit::Hearts),
        c(Rank::Four, Suit::Hearts),
        c(Rank::Five, Suit::Clubs),
        c(Rank::Nine, Suit::Hearts),
        c(Rank::King, Suit::Hearts),
    ];
    let hand = Hand::new(&hole, &board);
    assert_eq!(hand.best(), HandRanking::Flush(0b01_0001_0010_1100));
    assert_eq!(hand.check_flush(), Some(HandRanking::Flush(0b01_0001_0010_1100)));
}

#[test]
fn no_flush_without_five_of_a_suit() {
    let hole = [c(Rank::Two, Suit::Hearts), c(Rank::Six, Suit::Hearts)];
    let board = [
        c(Rank::Three, Suit::Hearts),
        c(Rank::Four, Suit::Hearts),
        c(Rank::Five, Suit::Clubs),
        c(Rank::Nine, Suit::Spades),
        c(Rank::King, Suit::Diamonds),
    ];
    let hand = Hand::new(&hole, &board);
    assert_eq!(hand.check_flush(), None);
    assert_eq!(hand.best(), HandRanking::Straight(Rank::Six));
}

#[test]
fn dealt_hand_classifies() {
    let mut deck = Deck::new();
    let hole = deck.draw(2).unwrap();
    let board = deck.draw(5).unwrap();
    // The top seven cards: four Aces, then Kings of Spades, Hearts, Diamonds.
    assert_eq!(
        Hand::new(&hole, &board).best(),
        HandRanking::Quads(Rank::Ace, Rank::King)
    );
}

#[test]
fn categories_outrank_any_payload() {
    let ladder = [
        HandRanking::HighCard(u16::MAX),
        HandRanking::OnePair(Rank::Ace, u16::MAX),
        HandRanking::TwoPair(Rank::Ace, Rank::King, Rank::Queen),
        HandRanking::Trips(Rank::Ace, u16::MAX),
        HandRanking::Straight(Rank::Ace),
        HandRanking::Flush(u16::MAX),
        HandRanking::FullHouse(Rank::Ace, Rank::King),
        HandRanking::Quads(Rank::Ace, Rank::King),
        HandRanking::StraightFlush(Rank::King),
        HandRanking::RoyalFlush,
    ];
    let bottom = [
        HandRanking::HighCard(0),
        HandRanking::OnePair(Rank::Two, 0),
        HandRanking::TwoPair(Rank::Three, Rank::Two, Rank::Two),
        HandRanking::Trips(Rank::Two, 0),
        HandRanking::Straight(Rank::Five),
        HandRanking::Flush(0),
        HandRanking::FullHouse(Rank::Two, Rank::Three),
        HandRanking::Quads(Rank::Two, Rank::Three),
        HandRanking::StraightFlush(Rank::Five),
        HandRanking::RoyalFlush,
    ];
    for i in 0..ladder.len() {
        for j in (i + 1)..ladder.len() {
            assert!(ladder[i] < bottom[j]);
            assert!(bottom[j] > ladder[i]);
        }
    }
}

#[test]
fn exactly_one_of_less_equal_greater() {
    let values = [
        HandRanking::HighCard(0b11_0001_1010_0000),
        HandRanking::HighCard(0b11_0001_1100_0000),
        HandRanking::OnePair(Rank::Ace, 0b01_0001_0000_0010),
        HandRanking::Trips(Rank::Two, 6),
        HandRanking::Flush(0b01_0001_1101_0000),
        HandRanking::RoyalFlush,
    ];
    for a in values.iter() {
        for b in values.iter() {
            let lt = a < b;
            let eq = a == b;
            let gt = a > b;
            assert_eq!(lt as u8 + eq as u8 + gt as u8, 1);
            assert_eq!(a.partial_cmp(b) == Some(Ordering::Equal), eq);
        }
    }
}

#[test]
fn larger_kickers_compare_greater() {
    assert!(HandRanking::HighCard(0b10_0000_0000_0000) < HandRanking::HighCard(0b10_0000_0000_0001));
    assert!(HandRanking::OnePair(Rank::Nine, 0x0070) < HandRanking::OnePair(Rank::Nine, 0x0080));
    assert!(HandRanking::Trips(Rank::Nine, 0x0300) < HandRanking::Trips(Rank::Nine, 0x0500));
    assert!(HandRanking::Flush(0x11D0) < HandRanking::Flush(0x11E0));
    assert!(
        HandRanking::TwoPair(Rank::Ten, Rank::Four, Rank::Two)
            < HandRanking::TwoPair(Rank::Ten, Rank::Four, Rank::Three)
    );
    assert!(HandRanking::Quads(Rank::Six, Rank::Two) < HandRanking::Quads(Rank::Six, Rank::Ace));
    assert!(HandRanking::OnePair(Rank::Nine, 0x1C00) < HandRanking::OnePair(Rank::Ten, 0x0007));
}

#[test]
fn rank_scores_round_trip() {
    assert_eq!(Rank::Two.score(), 1);
    assert_eq!(Rank::Ace.score(), 13);
    for s in 1u8..=13 {
        assert_eq!(Rank::id(s).score(), s);
    }
    assert_eq!(Rank::id(12), Rank::King);
    assert_eq!(c(Rank::Nine, Suit::Spades).score(), 8);
    assert_eq!(Suit::from_index(2), Suit::Hearts);
    assert_eq!(Suit::Spades.index(), 3);
}
