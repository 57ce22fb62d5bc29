use poker_core::cards::{Card, Suit};
use poker_core::deck::{
    deal_flop, deal_hole_cards, deal_river, deal_turn, new_deck, shuffle_deck,
};

#[test]
fn new_deck_holds_all_fifty_two_cards_once() {
    let deck = new_deck();
    assert_eq!(deck.len(), 52);
    for i in 0..deck.len() {
        for j in (i + 1)..deck.len() {
            assert_ne!(deck[i], deck[j]);
        }
    }
    for suit in [Suit::Clubs, Suit::Diamonds, Suit::Hearts, Suit::Spades] {
        for rank in 2u8..=14 {
            assert!(deck.contains(&Card { rank, suit }));
        }
    }
}

#[test]
fn shuffle_keeps_exactly_the_same_cards() {
    let mut deck = new_deck();
    let before = deck.clone();
    shuffle_deck(&mut deck);
    assert_eq!(deck.len(), 52);
    for card in &before {
        assert!(deck.contains(card));
    }
    for i in 0..deck.len() {
        for j in (i + 1)..deck.len() {
            assert_ne!(deck[i], deck[j]);
        }
    }
}

#[test]
fn seventeen_cards_dealt_from_one_deck_are_pairwise_distinct() {
    let mut deck = new_deck();
    shuffle_deck(&mut deck);
    let mut drawn: Vec<Card> = Vec::new();

    let holes = deal_hole_cards(&mut deck, 6);
    assert_eq!(holes.len(), 6);
    for h in &holes {
        let (a, b) = h.expect("every seat receives two cards");
        drawn.push(a);
        drawn.push(b);
    }
    let flop = deal_flop(&mut deck);
    assert_eq!(flop.len(), 3);
    drawn.extend_from_slice(&flop);
    drawn.push(deal_turn(&mut deck).expect("a turn card is left"));
    drawn.push(deal_river(&mut deck).expect("a river card is left"));

    assert_eq!(drawn.len(), 17);
    for i in 0..drawn.len() {
        for j in (i + 1)..drawn.len() {
            assert_ne!(drawn[i], drawn[j]);
        }
    }
    assert_eq!(deck.len(), 52 - 17);
}

#[test]
fn hole_cards_come_in_order_from_the_front() {
    let mut deck = new_deck();
    let expected: Vec<Card> = deck[0..4].to_vec();
    let holes = deal_hole_cards(&mut deck, 2);
    assert_eq!(holes.len(), 2);
    assert_eq!(holes[0], Some((expected[0], expected[1])));
    assert_eq!(holes[1], Some((expected[2], expected[3])));
    assert_eq!(deck.len(), 48);
    assert_eq!(deck[0], Card { rank: 6, suit: Suit::Clubs });
}

#[test]
fn flop_turn_river_consume_the_front() {
    let mut deck = new_deck();
    let first_five: Vec<Card> = deck[0..5].to_vec();
    let flop = deal_flop(&mut deck);
    assert_eq!(flop, first_five[0..3].to_vec());
    assert_eq!(deal_turn(&mut deck), Some(first_five[3]));
    assert_eq!(deal_river(&mut deck), Some(first_five[4]));
    assert_eq!(deck.len(), 47);
}

#[test]
fn short_deck_yields_no_flop_and_no_turn() {
    let mut deck = new_deck();
    deck.truncate(2);
    let kept = deck.clone();
    let flop = deal_flop(&mut deck);
    assert!(flop.is_empty());
    assert_eq!(deck, kept);
    deck.truncate(0);
    assert_eq!(deal_turn(&mut deck), None);
    assert_eq!(deal_river(&mut deck), None);
}

#[test]
fn card_labels() {
    assert_eq!(Card { rank: 14, suit: Suit::Spades }.to_string(), "AS");
    assert_eq!(Card { rank: 13, suit: Suit::Hearts }.to_string(), "KH");
    assert_eq!(Card { rank: 12, suit: Suit::Diamonds }.to_string(), "QD");
    assert_eq!(Card { rank: 11, suit: Suit::Clubs }.to_string(), "JC");
    assert_eq!(Card { rank: 10, suit: Suit::Clubs }.to_string(), "10C");
    assert_eq!(Card { rank: 2, suit: Suit::Spades }.to_string(), "2S");
}
