use poker_core::cards::{Card, Suit};
use poker_core::deck::{new_deck, shuffle_deck};
use poker_core::eval::{evaluate_best_of_seven, evaluate_five};
use poker_core::rank::HandRank;

fn c(rank: u8, suit: Suit) -> Card {
    Card { rank, suit }
}

fn five(a: Card, b: Card, cc: Card, d: Card, e: Card) -> [Card; 5] {
    [a, b, cc, d, e]
}

#[test]
fn royal_flush_is_top_category() {
    let r = evaluate_five(&five(
        c(10, Suit::Spades),
        c(11, Suit::Spades),
        c(12, Suit::Spades),
        c(13, Suit::Spades),
        c(14, Suit::Spades),
    ));
    assert_eq!(r.category, 8);
    assert_eq!(r.tiebreakers, vec![14]);
}

#[test]
fn wheel_straight_top_card_is_five() {
    let r = evaluate_five(&five(
        c(14, Suit::Clubs),
        c(2, Suit::Diamonds),
        c(3, Suit::Hearts),
        c(4, Suit::Spades),
        c(5, Suit::Clubs),
    ));
    assert_eq!(r.category, 4);
    assert_eq!(r.tiebreakers, vec![5]);
}

#[test]
fn wheel_straight_flush() {
    let r = evaluate_five(&five(
        c(14, Suit::Hearts),
        c(2, Suit::Hearts),
        c(3, Suit::Hearts),
        c(4, Suit::Hearts),
        c(5, Suit::Hearts),
    ));
    assert_eq!(r.category, 8);
    assert_eq!(r.tiebreakers, vec![5]);
}

#[test]
fn four_of_a_kind_quad_then_kicker() {
    let r = evaluate_five(&five(
        c(9, Suit::Clubs),
        c(9, Suit::Diamonds),
        c(9, Suit::Hearts),
        c(9, Suit::Spades),
        c(13, Suit::Clubs),
    ));
    assert_eq!(r.category, 7);
    assert_eq!(r.tiebreakers, vec![9, 13]);
}

#[test]
fn full_house_triple_then_pair() {
    let r = evaluate_five(&five(
        c(4, Suit::Clubs),
        c(4, Suit::Diamonds),
        c(4, Suit::Hearts),
        c(11, Suit::Spades),
        c(11, Suit::Clubs),
    ));
    assert_eq!(r.category, 6);
    assert_eq!(r.tiebreakers, vec![4, 11]);
}

#[test]
fn flush_all_ranks_descending() {
    let r = evaluate_five(&five(
        c(2, Suit::Diamonds),
        c(8, Suit::Diamonds),
        c(11, Suit::Diamonds),
        c(5, Suit::Diamonds),
        c(13, Suit::Diamonds),
    ));
    assert_eq!(r.category, 5);
    assert_eq!(r.tiebreakers, vec![13, 11, 8, 5, 2]);
}

#[test]
fn straight_top_card_only() {
    let r = evaluate_five(&five(
        c(6, Suit::Clubs),
        c(7, Suit::Diamonds),
        c(8, Suit::Hearts),
        c(9, Suit::Spades),
        c(10, Suit::Clubs),
    ));
    assert_eq!(r.category, 4);
    assert_eq!(r.tiebreakers, vec![10]);
}

#[test]
fn three_of_a_kind_triple_then_kickers() {
    let r = evaluate_five(&five(
        c(7, Suit::Clubs),
        c(7, Suit::Diamonds),
        c(7, Suit::Hearts),
        c(12, Suit::Spades),
        c(3, Suit::Clubs),
    ));
    assert_eq!(r.category, 3);
    assert_eq!(r.tiebreakers, vec![7, 12, 3]);
}

#[test]
fn two_pair_high_low_kicker() {
    let r = evaluate_five(&five(
        c(10, Suit::Clubs),
        c(10, Suit::Diamonds),
        c(6, Suit::Hearts),
        c(6, Suit::Spades),
        c(14, Suit::Clubs),
    ));
    assert_eq!(r.category, 2);
    assert_eq!(r.tiebreakers, vec![10, 6, 14]);
}

#[test]
fn one_pair_pair_then_kickers() {
    let r = evaluate_five(&five(
        c(8, Suit::Clubs),
        c(8, Suit::Diamonds),
        c(14, Suit::Hearts),
        c(5, Suit::Spades),
        c(2, Suit::Clubs),
    ));
    assert_eq!(r.category, 1);
    assert_eq!(r.tiebreakers, vec![8, 14, 5, 2]);
}

#[test]
fn high_card_all_ranks_descending() {
    let r = evaluate_five(&five(
        c(2, Suit::Clubs),
        c(9, Suit::Diamonds),
        c(13, Suit::Hearts),
        c(5, Suit::Spades),
        c(11, Suit::Clubs),
    ));
    assert_eq!(r.category, 0);
    assert_eq!(r.tiebreakers, vec![13, 11, 9, 5, 2]);
}

/// One representative hand of each category, strongest first.
fn category_ladder() -> Vec<HandRank> {
    vec![
        evaluate_five(&five(
            c(10, Suit::Spades),
            c(11, Suit::Spades),
            c(12, Suit::Spades),
            c(13, Suit::Spades),
            c(14, Suit::Spades),
        )),
        evaluate_five(&five(
            c(9, Suit::Clubs),
            c(9, Suit::Diamonds),
            c(9, Suit::Hearts),
            c(9, Suit::Spades),
            c(13, Suit::Clubs),
        )),
        evaluate_five(&five(
            c(4, Suit::Clubs),
            c(4, Suit::Diamonds),
            c(4, Suit::Hearts),
            c(11, Suit::Spades),
            c(11, Suit::Clubs),
        )),
        evaluate_five(&five(
            c(2, Suit::Diamonds),
            c(8, Suit::Diamonds),
            c(11, Suit::Diamonds),
            c(5, Suit::Diamonds),
            c(13, Suit::Diamonds),
        )),
        evaluate_five(&five(
            c(6, Suit::Clubs),
            c(7, Suit::Diamonds),
            c(8, Suit::Hearts),
            c(9, Suit::Spades),
            c(10, Suit::Clubs),
        )),
        evaluate_five(&five(
            c(7, Suit::Clubs),
            c(7, Suit::Diamonds),
            c(7, Suit::Hearts),
            c(12, Suit::Spades),
            c(3, Suit::Clubs),
        )),
        evaluate_five(&five(
            c(10, Suit::Clubs),
            c(10, Suit::Diamonds),
            c(6, Suit::Hearts),
            c(6, Suit::Spades),
            c(14, Suit::Clubs),
        )),
        evaluate_five(&five(
            c(8, Suit::Clubs),
            c(8, Suit::Diamonds),
            c(14, Suit::Hearts),
            c(5, Suit::Spades),
            c(2, Suit::Clubs),
        )),
        evaluate_five(&five(
            c(2, Suit::Clubs),
            c(9, Suit::Diamonds),
            c(13, Suit::Hearts),
            c(5, Suit::Spades),
            c(11, Suit::Clubs),
        )),
    ]
}

#[test]
fn full_category_ordering_eight_down_to_zero() {
    let ladder = category_ladder();
    assert_eq!(ladder.len(), 9);
    for i in 0..ladder.len() {
        assert_eq!(ladder[i].category, 8 - i as u8);
        for j in (i + 1)..ladder.len() {
            assert!(ladder[i].beats(&ladder[j]));
            assert!(!ladder[j].beats(&ladder[i]));
            assert!(ladder[j] < ladder[i]);
        }
    }
}

#[test]
fn ordering_is_total_and_transitive_on_random_hands() {
    // Hands drawn from freshly shuffled decks.
    let mut hands: Vec<HandRank> = Vec::new();
    for _ in 0..4 {
        let mut deck = new_deck();
        shuffle_deck(&mut deck);
        while deck.len() >= 5 && hands.len() < 16 {
            let h = [deck[0], deck[1], deck[2], deck[3], deck[4]];
            deck.drain(0..5);
            hands.push(evaluate_five(&h));
        }
    }
    assert!(hands.len() >= 12);
    for a in &hands {
        for b in &hands {
            // Totality: exactly one of beats, is-beaten, equal.
            let ab = a.beats(b);
            let ba = b.beats(a);
            if ab {
                assert!(!ba);
                assert!(b < a);
            } else if !ba {
                assert_eq!(a, b);
            }
            for cc in &hands {
                // Transitivity through the strict order.
                if a.beats(b) && b.beats(cc) {
                    assert!(a.beats(cc));
                }
            }
        }
    }
}

#[test]
fn best_of_seven_equals_max_over_all_five_card_subsets() {
    let cards = vec![
        c(14, Suit::Spades),
        c(13, Suit::Spades),
        c(7, Suit::Hearts),
        c(7, Suit::Clubs),
        c(12, Suit::Spades),
        c(11, Suit::Spades),
        c(10, Suit::Spades),
    ];
    let best = evaluate_best_of_seven(&cards);
    // A royal flush hides among the seven.
    assert_eq!(best.category, 8);
    assert_eq!(best.tiebreakers, vec![14]);

    let mut max: Option<HandRank> = None;
    let mut subsets = 0;
    let n = cards.len();
    for a in 0..n {
        for b in (a + 1)..n {
            for cc in (b + 1)..n {
                for d in (cc + 1)..n {
                    for e in (d + 1)..n {
                        subsets += 1;
                        let hand = [cards[a], cards[b], cards[cc], cards[d], cards[e]];
                        let r = evaluate_five(&hand);
                        max = match max {
                            None => Some(r),
                            Some(m) => {
                                if r.beats(&m) {
                                    Some(r)
                                } else {
                                    Some(m)
                                }
                            },
                        };
                    }
                }
            }
        }
    }
    assert_eq!(subsets, 21);
    assert_eq!(max.unwrap(), best);
}

#[test]
fn best_of_seven_on_random_decks_matches_subset_maximum() {
    for _ in 0..5 {
        let mut deck = new_deck();
        shuffle_deck(&mut deck);
        let cards: Vec<Card> = deck[0..7].to_vec();
        let best = evaluate_best_of_seven(&cards);
        let n = cards.len();
        let mut max: Option<HandRank> = None;
        for a in 0..n {
            for b in (a + 1)..n {
                for cc in (b + 1)..n {
                    for d in (cc + 1)..n {
                        for e in (d + 1)..n {
                            let hand = [cards[a], cards[b], cards[cc], cards[d], cards[e]];
                            let r = evaluate_five(&hand);
                            max = match max {
                                None => Some(r),
                                Some(m) => {
                                    if r.beats(&m) {
                                        Some(r)
                                    } else {
                                        Some(m)
                                    }
                                },
                            };
                        }
                    }
                }
            }
        }
        assert_eq!(max.unwrap(), best);
    }
}

#[test]
fn best_of_five_exact_input() {
    let cards = vec![
        c(2, Suit::Clubs),
        c(5, Suit::Diamonds),
        c(9, Suit::Hearts),
        c(9, Suit::Spades),
        c(13, Suit::Clubs),
    ];
    let best = evaluate_best_of_seven(&cards);
    assert_eq!(best.category, 1);
    assert_eq!(best.tiebreakers, vec![9, 13, 5, 2]);
}
