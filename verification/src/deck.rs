use vstd::prelude::*;

use crate::cards::{Card, Suit};
use rand::seq::SliceRandom;
use rand::{RngCore, SeedableRng};

verus! {

/// The suit that the fresh deck lays out in block `k` (of 13 cards each).
pub open spec fn spec_suit_of_block(k: int) -> Suit {
    if k == 0 {
        Suit::Clubs
    } else if k == 1 {
        Suit::Diamonds
    } else if k == 2 {
        Suit::Hearts
    } else {
        Suit::Spades
    }
}

/// The card at position `i` of a fresh, unshuffled deck: suits in blocks
/// of thirteen, ranks 2 through 14 inside each block.
pub open spec fn spec_deck_card(i: int) -> Card {
    Card { rank: (2 + i % 13) as u8, suit: spec_suit_of_block(i / 13) }
}

/// An ordered deck of all 52 distinct cards.
pub fn new_deck() -> (deck: Vec<Card>)
    ensures
        deck@.len() == 52,
        forall|i: int| 0 <= i < 52 ==> deck@[i] == spec_deck_card(i),
        deck@.no_duplicates(),
        forall|i: int| 0 <= i < 52 ==> crate::cards::valid_card(#[trigger] deck@[i]),
{
    let mut deck: Vec<Card> = Vec::new();
    let mut s: usize = 0;
    while s < 4
        invariant
            s <= 4,
            deck@.len() == 13 * s,
            forall|i: int| 0 <= i < deck@.len() ==> deck@[i] == spec_deck_card(i),
        decreases 4 - s,
    {
        let suit = if s == 0 {
            Suit::Clubs
        } else if s == 1 {
            Suit::Diamonds
        } else if s == 2 {
            Suit::Hearts
        } else {
            Suit::Spades
        };
        let mut r: u8 = 2;
        while r <= 14
            invariant
                s < 4,
                2 <= r <= 15,
                (if s == 0 {
                    suit == Suit::Clubs
                } else if s == 1 {
                    suit == Suit::Diamonds
                } else if s == 2 {
                    suit == Suit::Hearts
                } else {
                    suit == Suit::Spades
                }),
                deck@.len() == 13 * s + (r - 2),
                forall|i: int| 0 <= i < deck@.len() ==> deck@[i] == spec_deck_card(i),
            decreases 15 - r,
        {
            proof {
                let i = deck@.len() as int;
                vstd::arithmetic::div_mod::lemma_fundamental_div_mod_converse(
                    i,
                    13,
                    s as int,
                    r - 2,
                );
                assert(i / 13 == s && i % 13 == r - 2);
            }
            deck.push(Card { rank: r, suit });
            r += 1;
        }
        s += 1;
    }
    proof {
        assert forall|i: int, j: int| 0 <= i < 52 && 0 <= j < 52 && i != j implies spec_deck_card(
            i,
        ) != spec_deck_card(j) by {
            if spec_deck_card(i) == spec_deck_card(j) {
                assert(i % 13 == j % 13);
                assert(i / 13 == j / 13);
                vstd::arithmetic::div_mod::lemma_fundamental_div_mod(i, 13);
                vstd::arithmetic::div_mod::lemma_fundamental_div_mod(j, 13);
            }
        }
        assert forall|i: int, j: int|
            0 <= i < deck@.len() && 0 <= j < deck@.len() && i != j implies deck@[i]
            != deck@[j] by {
            assert(deck@[i] == spec_deck_card(i));
            assert(deck@[j] == spec_deck_card(j));
        }
        assert(deck@.no_duplicates());
        assert forall|i: int| 0 <= i < 52 implies crate::cards::valid_card(
            #[trigger] deck@[i],
        ) by {
            assert(deck@[i] == spec_deck_card(i));
            assert(0 <= i % 13 < 13);
        }
    }
    deck
}

/// Permutes the deck in place with a cryptographically seeded generator.
///
/// Relies on rand's `SliceRandom::shuffle` (driven by a `StdRng` seeded
/// from `OsRng`): it reorders the slice purely by swapping elements, so
/// the cards afterwards are exactly the cards before, rearranged.
#[verifier::external_body]
pub fn shuffle_deck(deck: &mut Vec<Card>)
    ensures
        final(deck)@.len() == old(deck)@.len(),
        final(deck)@.to_multiset() == old(deck)@.to_multiset(),
{
    let mut seed = [0u8; 32];
    rand::rngs::OsRng.fill_bytes(&mut seed);
    let mut rng = rand::rngs::StdRng::from_seed(seed);
    deck.shuffle(&mut rng);
}

/// A permutation of a duplicate-free sequence is itself duplicate-free:
/// shuffling a deck never creates a second copy of a card.
pub proof fn lemma_permutation_preserves_no_duplicates(a: Seq<Card>, b: Seq<Card>)
    requires
        a.no_duplicates(),
        a.to_multiset() == b.to_multiset(),
    ensures
        b.no_duplicates(),
{
    a.lemma_multiset_has_no_duplicates();
    b.lemma_multiset_has_no_duplicates_conv();
}

/// Dealing from the front of a duplicate-free deck never repeats a
/// card: however many cards have been dealt, the dealt cards are
/// pairwise distinct, the remaining deck is, and no dealt card is still
/// in the deck.
pub proof fn lemma_dealing_never_repeats(deck: Seq<Card>, k: int)
    requires
        deck.no_duplicates(),
        0 <= k <= deck.len(),
    ensures
        deck.take(k).no_duplicates(),
        deck.skip(k).no_duplicates(),
        forall|i: int, j: int|
            0 <= i < k && 0 <= j < deck.len() - k ==> deck.take(k)[i] != deck.skip(k)[j],
{
    assert forall|i: int, j: int|
        0 <= i < k && 0 <= j < deck.len() - k implies deck.take(k)[i] != deck.skip(k)[j] by {
        assert(deck.take(k)[i] == deck[i]);
        assert(deck.skip(k)[j] == deck[k + j]);
    }
}

/// Removes the first `n` cards of the deck, front first.
fn take_from_front(deck: &mut Vec<Card>, n: usize)
    requires
        n <= old(deck)@.len(),
    ensures
        final(deck)@ == old(deck)@.skip(n as int),
{
    let mut k: usize = 0;
    proof {
        assert(old(deck)@.skip(0) =~= old(deck)@);
    }
    while k < n
        invariant
            k <= n,
            n <= old(deck)@.len(),
            deck@ == old(deck)@.skip(k as int),
        decreases n - k,
    {
        proof {
            assert(deck@.remove(0) =~= old(deck)@.skip(k + 1));
        }
        deck.remove(0);
        k += 1;
    }
}

/// Deals two hole cards to each of `seats` seats, consumed from the
/// front of the deck: seat `i` receives the cards at positions `2i` and
/// `2i + 1`, and the deck afterwards is the undealt remainder.
pub fn deal_hole_cards(deck: &mut Vec<Card>, seats: usize) -> (out: Vec<Option<(Card, Card)>>)
    requires
        2 * seats <= old(deck)@.len(),
    ensures
        out@.len() == seats,
        forall|i: int|
            0 <= i < seats ==> out@[i] == Some((old(deck)@[2 * i], old(deck)@[2 * i + 1])),
        final(deck)@ == old(deck)@.skip(2 * seats as int),
{
    let n = deck.len();
    let mut out: Vec<Option<(Card, Card)>> = Vec::new();
    let mut i: usize = 0;
    while i < seats
        invariant
            i <= seats,
            n == deck@.len(),
            2 * seats <= n,
            deck@ == old(deck)@,
            out@.len() == i,
            forall|j: int| 0 <= j < i ==> out@[j] == Some((deck@[2 * j], deck@[2 * j + 1])),
        decreases seats - i,
    {
        out.push(Some((deck[2 * i], deck[2 * i + 1])));
        i += 1;
    }
    take_from_front(deck, 2 * seats);
    out
}

/// Deals the three flop cards from the front of the deck; a deck with
/// fewer than three cards is left untouched and yields no flop.
pub fn deal_flop(deck: &mut Vec<Card>) -> (out: Vec<Card>)
    ensures
        old(deck)@.len() >= 3 ==> out@ == old(deck)@.take(3) && final(deck)@ == old(deck)@.skip(3),
        old(deck)@.len() < 3 ==> out@.len() == 0 && final(deck)@ == old(deck)@,
{
    let mut out: Vec<Card> = Vec::new();
    if deck.len() >= 3 {
        out.push(deck[0]);
        out.push(deck[1]);
        out.push(deck[2]);
        take_from_front(deck, 3);
        proof {
            assert(out@ =~= old(deck)@.take(3));
        }
    }
    out
}

/// Deals the turn card from the front of the deck, if one is left.
pub fn deal_turn(deck: &mut Vec<Card>) -> (out: Option<Card>)
    ensures
        old(deck)@.len() == 0 ==> out is None && final(deck)@ == old(deck)@,
        old(deck)@.len() > 0 ==> out == Some(old(deck)@[0]) && final(deck)@ == old(deck)@.skip(1),
{
    if deck.len() == 0 {
        return None;
    }
    let c = deck.remove(0);
    proof {
        assert(old(deck)@.remove(0) =~= old(deck)@.skip(1));
    }
    Some(c)
}

/// Deals the river card from the front of the deck, if one is left.
pub fn deal_river(deck: &mut Vec<Card>) -> (out: Option<Card>)
    ensures
        old(deck)@.len() == 0 ==> out is None && final(deck)@ == old(deck)@,
        old(deck)@.len() > 0 ==> out == Some(old(deck)@[0]) && final(deck)@ == old(deck)@.skip(1),
{
    if deck.len() == 0 {
        return None;
    }
    let c = deck.remove(0);
    proof {
        assert(old(deck)@.remove(0) =~= old(deck)@.skip(1));
    }
    Some(c)
}

} // verus!
