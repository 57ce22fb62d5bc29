use vstd::prelude::*;

use crate::cards::Card;
use crate::rank::{rank_le, rank_lt, HandRank};

verus! {

// ---------------------------------------------------------------------------
// The mathematical model of a five-card hand.
// ---------------------------------------------------------------------------

/// The ranks of a sequence of cards, in order.
pub open spec fn ranks_of(cs: Seq<Card>) -> Seq<u8> {
    cs.map_values(|c: Card| c.rank)
}

/// How many entries of `s` equal `r`.
pub open spec fn count_eq(s: Seq<u8>, r: u8) -> nat
    decreases s.len(),
{
    if s.len() == 0 {
        0
    } else {
        count_eq(s.drop_last(), r) + (if s.last() == r {
            1nat
        } else {
            0nat
        })
    }
}

/// Whether rank `r` occurs in `s`.
pub open spec fn has_rank(s: Seq<u8>, r: u8) -> bool {
    count_eq(s, r) > 0
}

/// `s` with `x` placed before the first entry it is not below; on a
/// descending sequence this keeps the order.
pub open spec fn insert_desc(x: u8, s: Seq<u8>) -> Seq<u8>
    decreases s.len(),
{
    if s.len() == 0 {
        seq![x]
    } else if x >= s[0] {
        seq![x] + s
    } else {
        seq![s[0]] + insert_desc(x, s.drop_first())
    }
}

/// `s` rearranged into descending order, by repeated insertion.
pub open spec fn sort_desc(s: Seq<u8>) -> Seq<u8>
    decreases s.len(),
{
    if s.len() == 0 {
        Seq::empty()
    } else {
        insert_desc(s.last(), sort_desc(s.drop_last()))
    }
}

/// `s` with every occurrence of `bad` removed, order kept.
pub open spec fn remove_all(s: Seq<u8>, bad: u8) -> Seq<u8>
    decreases s.len(),
{
    if s.len() == 0 {
        Seq::empty()
    } else {
        remove_all(s.drop_last(), bad) + (if s.last() == bad {
            Seq::<u8>::empty()
        } else {
            seq![s.last()]
        })
    }
}

/// Whether the five ranks needed for a straight topped by `t` are all
/// present; a top of 5 is the wheel, where the Ace plays low.
pub open spec fn run_at(rs: Seq<u8>, t: int) -> bool {
    if t == 5 {
        has_rank(rs, 14) && has_rank(rs, 5) && has_rank(rs, 4) && has_rank(rs, 3) && has_rank(
            rs,
            2,
        )
    } else {
        has_rank(rs, t as u8) && has_rank(rs, (t - 1) as u8) && has_rank(rs, (t - 2) as u8)
            && has_rank(rs, (t - 3) as u8) && has_rank(rs, (t - 4) as u8)
    }
}

/// The highest straight top at or below `t`, if any.
pub open spec fn straight_top_from(rs: Seq<u8>, t: int) -> Option<u8>
    decreases t,
{
    if t < 5 {
        None
    } else if run_at(rs, t) {
        Some(t as u8)
    } else {
        straight_top_from(rs, t - 1)
    }
}

/// The top card of the best straight the ranks contain, if they contain
/// one; the wheel (Ace, 2, 3, 4, 5) counts as a straight topped by 5.
pub open spec fn spec_straight_top(rs: Seq<u8>) -> Option<u8> {
    straight_top_from(rs, 14)
}

/// Whether all cards share one suit.
pub open spec fn spec_is_flush(cs: Seq<Card>) -> bool {
    forall|i: int| 0 <= i < cs.len() ==> #[trigger] cs[i].suit == cs[0].suit
}

/// Whether some rank occurs exactly `c` times.
pub open spec fn has_count(rs: Seq<u8>, c: nat) -> bool {
    exists|r: u8| count_eq(rs, r) == c
}

/// The rank that occurs exactly `c` times (meaningful where unique).
pub open spec fn rank_with_count(rs: Seq<u8>, c: nat) -> u8 {
    choose|r: u8| count_eq(rs, r) == c
}

/// Whether `r` is the rank of a pair.
pub open spec fn is_pair_rank(rs: Seq<u8>, r: u8) -> bool {
    count_eq(rs, r) == 2
}

/// The highest rank that forms a pair.
pub open spec fn top_pair(rs: Seq<u8>) -> u8 {
    choose|r: u8|
        is_pair_rank(rs, r) && (forall|q: u8| is_pair_rank(rs, q) ==> q <= r)
}

/// The rank of the second, lower pair of a two-pair hand.
pub open spec fn second_pair(rs: Seq<u8>) -> u8 {
    choose|r: u8| is_pair_rank(rs, r) && r != top_pair(rs)
}

/// Whether the ranks hold two pairs of different ranks.
pub open spec fn has_two_pairs(rs: Seq<u8>) -> bool {
    exists|r1: u8, r2: u8| r1 != r2 && is_pair_rank(rs, r1) && is_pair_rank(rs, r2)
}

/// The strength of a five-card hand: category first (8 = straight
/// flush, 7 = four of a kind, 6 = full house, 5 = flush, 4 = straight,
/// 3 = three of a kind, 2 = two pair, 1 = one pair, 0 = high card),
/// then the category's tiebreaker ranks in decreasing significance.
pub open spec fn spec_eval5(cs: Seq<Card>) -> (u8, Seq<u8>) {
    let rs = ranks_of(cs);
    let st = spec_straight_top(rs);
    if spec_is_flush(cs) && st is Some {
        (8u8, seq![st.unwrap()])
    } else if has_count(rs, 4) {
        (7u8, seq![rank_with_count(rs, 4), rank_with_count(rs, 1)])
    } else if has_count(rs, 3) && has_count(rs, 2) {
        (6u8, seq![rank_with_count(rs, 3), top_pair(rs)])
    } else if spec_is_flush(cs) {
        (5u8, sort_desc(rs))
    } else if st is Some {
        (4u8, seq![st.unwrap()])
    } else if has_count(rs, 3) {
        (3u8, seq![rank_with_count(rs, 3)] + sort_desc(remove_all(rs, rank_with_count(rs, 3))))
    } else if has_two_pairs(rs) {
        (2u8, seq![top_pair(rs), second_pair(rs), rank_with_count(rs, 1)])
    } else if has_count(rs, 2) {
        (1u8, seq![top_pair(rs)] + sort_desc(remove_all(rs, top_pair(rs))))
    } else {
        (0u8, sort_desc(rs))
    }
}

// ---------------------------------------------------------------------------
// Counting lemmas.
// ---------------------------------------------------------------------------

proof fn lemma_count_le_len(s: Seq<u8>, r: u8)
    ensures
        count_eq(s, r) <= s.len(),
    decreases s.len(),
{
    if s.len() > 0 {
        lemma_count_le_len(s.drop_last(), r);
    }
}

proof fn lemma_count_two(s: Seq<u8>, r1: u8, r2: u8)
    requires
        r1 != r2,
    ensures
        count_eq(s, r1) + count_eq(s, r2) <= s.len(),
    decreases s.len(),
{
    if s.len() > 0 {
        lemma_count_two(s.drop_last(), r1, r2);
    }
}

proof fn lemma_count_three(s: Seq<u8>, r1: u8, r2: u8, r3: u8)
    requires
        r1 != r2,
        r1 != r3,
        r2 != r3,
    ensures
        count_eq(s, r1) + count_eq(s, r2) + count_eq(s, r3) <= s.len(),
    decreases s.len(),
{
    if s.len() > 0 {
        lemma_count_three(s.drop_last(), r1, r2, r3);
    }
}

proof fn lemma_count_four(s: Seq<u8>, r1: u8, r2: u8, r3: u8, r4: u8)
    requires
        r1 != r2,
        r1 != r3,
        r1 != r4,
        r2 != r3,
        r2 != r4,
        r3 != r4,
    ensures
        count_eq(s, r1) + count_eq(s, r2) + count_eq(s, r3) + count_eq(s, r4) <= s.len(),
    decreases s.len(),
{
    if s.len() > 0 {
        lemma_count_four(s.drop_last(), r1, r2, r3, r4);
    }
}

proof fn lemma_count_pos_exists(s: Seq<u8>, r: u8)
    requires
        count_eq(s, r) > 0,
    ensures
        exists|j: int| 0 <= j < s.len() && s[j] == r,
    decreases s.len(),
{
    if s.last() == r {
        assert(s[s.len() - 1] == r);
    } else {
        lemma_count_pos_exists(s.drop_last(), r);
        let j = choose|j: int| 0 <= j < s.drop_last().len() && s.drop_last()[j] == r;
        assert(s[j] == r);
    }
}

proof fn lemma_index_count_pos(s: Seq<u8>, j: int)
    requires
        0 <= j < s.len(),
    ensures
        count_eq(s, s[j]) > 0,
    decreases s.len(),
{
    if j == s.len() - 1 {
    } else {
        lemma_index_count_pos(s.drop_last(), j);
    }
}

proof fn lemma_count_lt_exists_other(s: Seq<u8>, q: u8)
    requires
        count_eq(s, q) < s.len(),
    ensures
        exists|j: int| 0 <= j < s.len() && s[j] != q,
    decreases s.len(),
{
    if s.last() != q {
        assert(s[s.len() - 1] != q);
    } else {
        lemma_count_lt_exists_other(s.drop_last(), q);
        let j = choose|j: int| 0 <= j < s.drop_last().len() && s.drop_last()[j] != q;
        assert(s[j] != q);
    }
}

proof fn lemma_count_two_lt_exists_other(s: Seq<u8>, q1: u8, q2: u8)
    requires
        q1 != q2,
        count_eq(s, q1) + count_eq(s, q2) < s.len(),
    ensures
        exists|j: int| 0 <= j < s.len() && s[j] != q1 && s[j] != q2,
    decreases s.len(),
{
    if s.last() != q1 && s.last() != q2 {
        assert(s[s.len() - 1] != q1 && s[s.len() - 1] != q2);
    } else {
        lemma_count_two_lt_exists_other(s.drop_last(), q1, q2);
        let j = choose|j: int|
            0 <= j < s.drop_last().len() && s.drop_last()[j] != q1 && s.drop_last()[j] != q2;
        assert(s[j] != q1 && s[j] != q2);
    }
}

proof fn lemma_count_six(s: Seq<u8>, r1: u8, r2: u8, r3: u8, r4: u8, r5: u8, r6: u8)
    requires
        r1 != r2 && r1 != r3 && r1 != r4 && r1 != r5 && r1 != r6,
        r2 != r3 && r2 != r4 && r2 != r5 && r2 != r6,
        r3 != r4 && r3 != r5 && r3 != r6,
        r4 != r5 && r4 != r6,
        r5 != r6,
    ensures
        count_eq(s, r1) + count_eq(s, r2) + count_eq(s, r3) + count_eq(s, r4) + count_eq(s, r5)
            + count_eq(s, r6) <= s.len(),
    decreases s.len(),
{
    if s.len() > 0 {
        lemma_count_six(s.drop_last(), r1, r2, r3, r4, r5, r6);
    }
}

/// The wheel: five cards whose ranks are exactly Ace, 5, 4, 3 and 2
/// make a straight whose top card is the 5 — the Ace plays low, never
/// high — so the hand is ranked `(4, [5])`, or `(8, [5])` when the five
/// cards also share a suit.
pub proof fn lemma_wheel_straight(cs: Seq<Card>)
    requires
        cs.len() == 5,
        count_eq(ranks_of(cs), 14) == 1,
        count_eq(ranks_of(cs), 5) == 1,
        count_eq(ranks_of(cs), 4) == 1,
        count_eq(ranks_of(cs), 3) == 1,
        count_eq(ranks_of(cs), 2) == 1,
    ensures
        spec_straight_top(ranks_of(cs)) == Some(5u8),
        spec_eval5(cs) == (if spec_is_flush(cs) {
            (8u8, seq![5u8])
        } else {
            (4u8, seq![5u8])
        }),
{
    let rs = ranks_of(cs);
    assert(rs.len() == 5);
    assert forall|x: u8| x != 14 && x != 5 && x != 4 && x != 3 && x != 2 implies count_eq(
        rs,
        x,
    ) == 0 by {
        lemma_count_six(rs, 14, 5, 4, 3, 2, x);
    }
    assert(!run_at(rs, 14) && !run_at(rs, 13) && !run_at(rs, 12) && !run_at(rs, 11) && !run_at(
        rs,
        10,
    ) && !run_at(rs, 9) && !run_at(rs, 8) && !run_at(rs, 7) && !run_at(rs, 6));
    assert(run_at(rs, 5));
    assert(straight_top_from(rs, 14) == straight_top_from(rs, 13));
    assert(straight_top_from(rs, 13) == straight_top_from(rs, 12));
    assert(straight_top_from(rs, 12) == straight_top_from(rs, 11));
    assert(straight_top_from(rs, 11) == straight_top_from(rs, 10));
    assert(straight_top_from(rs, 10) == straight_top_from(rs, 9));
    assert(straight_top_from(rs, 9) == straight_top_from(rs, 8));
    assert(straight_top_from(rs, 8) == straight_top_from(rs, 7));
    assert(straight_top_from(rs, 7) == straight_top_from(rs, 6));
    assert(straight_top_from(rs, 6) == straight_top_from(rs, 5));
    assert(straight_top_from(rs, 5) == Some(5u8));
    assert forall|c: nat| 2 <= c <= 4 implies !has_count(rs, c) by {
        assert forall|r: u8| count_eq(rs, r) != c by {
            if r != 14 && r != 5 && r != 4 && r != 3 && r != 2 {
                assert(count_eq(rs, r) == 0);
            }
        }
    }
    assert(!has_two_pairs(rs));
    assert(spec_eval5(cs) == (if spec_is_flush(cs) {
        (8u8, seq![5u8])
    } else {
        (4u8, seq![5u8])
    }));
}

// ---------------------------------------------------------------------------
// Verified executable helpers over the model.
// ---------------------------------------------------------------------------

/// How many entries of `rs` equal `r`.
fn count_rank(rs: &Vec<u8>, r: u8) -> (c: usize)
    ensures
        c == count_eq(rs@, r),
{
    let mut c: usize = 0;
    let mut i: usize = 0;
    proof {
        assert(rs@.take(0) =~= Seq::<u8>::empty());
    }
    while i < rs.len()
        invariant
            i <= rs@.len(),
            c <= i,
            c == count_eq(rs@.take(i as int), r),
        decreases rs@.len() - i,
    {
        proof {
            assert(rs@.take(i + 1).drop_last() =~= rs@.take(i as int));
            assert(rs@.take(i + 1).last() == rs@[i as int]);
        }
        if rs[i] == r {
            c += 1;
        }
        i += 1;
    }
    proof {
        assert(rs@.take(rs@.len() as int) =~= rs@);
    }
    c
}

/// Whether rank `r` occurs in `rs`.
fn contains_rank(rs: &Vec<u8>, r: u8) -> (b: bool)
    ensures
        b == has_rank(rs@, r),
{
    let c = count_rank(rs, r);
    c > 0
}

/// Some rank of `rs` occurring exactly `c` times, if one does.
fn find_count(rs: &Vec<u8>, c: usize) -> (out: Option<u8>)
    requires
        c > 0,
    ensures
        match out {
            Some(r) => count_eq(rs@, r) == c,
            None => forall|r: u8| count_eq(rs@, r) != c,
        },
{
    let mut i: usize = 0;
    while i < rs.len()
        invariant
            i <= rs@.len(),
            forall|j: int| 0 <= j < i ==> count_eq(rs@, #[trigger] rs@[j]) != c,
        decreases rs@.len() - i,
    {
        if count_rank(rs, rs[i]) == c {
            return Some(rs[i]);
        }
        i += 1;
    }
    proof {
        assert forall|r: u8| count_eq(rs@, r) != c by {
            if count_eq(rs@, r) == c {
                lemma_count_pos_exists(rs@, r);
                let j = choose|j: int| 0 <= j < rs@.len() && rs@[j] == r;
                assert(count_eq(rs@, rs@[j]) != c);
            }
        }
    }
    None
}

/// The highest rank of `rs` that forms a pair, if any rank does.
fn find_top_pair(rs: &Vec<u8>) -> (out: Option<u8>)
    ensures
        match out {
            Some(r) => is_pair_rank(rs@, r) && forall|q: u8| is_pair_rank(rs@, q) ==> q <= r,
            None => forall|q: u8| !is_pair_rank(rs@, q),
        },
{
    let mut best: Option<u8> = None;
    let mut i: usize = 0;
    while i < rs.len()
        invariant
            i <= rs@.len(),
            match best {
                Some(b) => is_pair_rank(rs@, b) && forall|j: int|
                    0 <= j < i && is_pair_rank(rs@, #[trigger] rs@[j]) ==> rs@[j] <= b,
                None => forall|j: int| 0 <= j < i ==> !is_pair_rank(rs@, #[trigger] rs@[j]),
            },
        decreases rs@.len() - i,
    {
        let r = rs[i];
        if count_rank(rs, r) == 2 {
            match best {
                None => {
                    best = Some(r);
                },
                Some(b) => {
                    if r > b {
                        best = Some(r);
                    }
                },
            }
        }
        i += 1;
    }
    proof {
        match best {
            Some(b) => {
                assert forall|q: u8| is_pair_rank(rs@, q) implies q <= b by {
                    lemma_count_pos_exists(rs@, q);
                    let j = choose|j: int| 0 <= j < rs@.len() && rs@[j] == q;
                    assert(is_pair_rank(rs@, rs@[j]));
                }
            },
            None => {
                assert forall|q: u8| !is_pair_rank(rs@, q) by {
                    if is_pair_rank(rs@, q) {
                        lemma_count_pos_exists(rs@, q);
                        let j = choose|j: int| 0 <= j < rs@.len() && rs@[j] == q;
                        assert(!is_pair_rank(rs@, rs@[j]));
                    }
                }
            },
        }
    }
    best
}

/// A pair rank other than `top`, if one exists.
fn find_second_pair(rs: &Vec<u8>, top: u8) -> (out: Option<u8>)
    ensures
        match out {
            Some(r) => is_pair_rank(rs@, r) && r != top,
            None => forall|q: u8| is_pair_rank(rs@, q) ==> q == top,
        },
{
    let mut i: usize = 0;
    while i < rs.len()
        invariant
            i <= rs@.len(),
            forall|j: int|
                0 <= j < i && is_pair_rank(rs@, #[trigger] rs@[j]) ==> rs@[j] == top,
        decreases rs@.len() - i,
    {
        let r = rs[i];
        if r != top && count_rank(rs, r) == 2 {
            return Some(r);
        }
        i += 1;
    }
    proof {
        assert forall|q: u8| is_pair_rank(rs@, q) implies q == top by {
            lemma_count_pos_exists(rs@, q);
            let j = choose|j: int| 0 <= j < rs@.len() && rs@[j] == q;
            assert(is_pair_rank(rs@, rs@[j]));
        }
    }
    None
}

proof fn lemma_insert_desc_at(x: u8, s: Seq<u8>, p: int)
    requires
        0 <= p <= s.len(),
        forall|j: int| 0 <= j < p ==> x < s[j],
        p < s.len() ==> x >= s[p],
    ensures
        insert_desc(x, s) == s.take(p) + seq![x] + s.skip(p),
    decreases p,
{
    if p == 0 {
        if s.len() == 0 {
            assert(insert_desc(x, s) =~= s.take(0) + seq![x] + s.skip(0));
        } else {
            assert(x >= s[0]);
            assert(insert_desc(x, s) =~= s.take(0) + seq![x] + s.skip(0));
        }
    } else {
        assert(x < s[0]);
        lemma_insert_desc_at(x, s.drop_first(), p - 1);
        assert(s.drop_first().take(p - 1) =~= s.take(p).drop_first());
        assert(s.drop_first().skip(p - 1) =~= s.skip(p));
        assert(seq![s[0]] + insert_desc(x, s.drop_first()) =~= s.take(p) + seq![x] + s.skip(p));
    }
}

/// Places `x` into the (descending) vector where the order admits it.
fn insert_sorted(out: &mut Vec<u8>, x: u8)
    ensures
        final(out)@ == insert_desc(x, old(out)@),
{
    let mut p: usize = 0;
    while p < out.len() && x < out[p]
        invariant
            p <= out@.len(),
            out@ == old(out)@,
            forall|j: int| 0 <= j < p ==> x < out@[j],
        decreases out@.len() - p,
    {
        p += 1;
    }
    proof {
        lemma_insert_desc_at(x, out@, p as int);
        assert(out@.insert(p as int, x) =~= out@.take(p as int) + seq![x] + out@.skip(p as int));
    }
    out.insert(p, x);
}

/// `v` rearranged into descending order.
fn sort_desc_exec(v: &Vec<u8>) -> (out: Vec<u8>)
    ensures
        out@ == sort_desc(v@),
{
    let mut out: Vec<u8> = Vec::new();
    let mut i: usize = 0;
    proof {
        assert(v@.take(0) =~= Seq::<u8>::empty());
    }
    while i < v.len()
        invariant
            i <= v@.len(),
            out@ == sort_desc(v@.take(i as int)),
        decreases v@.len() - i,
    {
        proof {
            assert(v@.take(i + 1).drop_last() =~= v@.take(i as int));
            assert(v@.take(i + 1).last() == v@[i as int]);
        }
        insert_sorted(&mut out, v[i]);
        i += 1;
    }
    proof {
        assert(v@.take(v@.len() as int) =~= v@);
    }
    out
}

/// `v` with every occurrence of `bad` dropped.
fn remove_all_exec(v: &Vec<u8>, bad: u8) -> (out: Vec<u8>)
    ensures
        out@ == remove_all(v@, bad),
{
    let mut out: Vec<u8> = Vec::new();
    let mut i: usize = 0;
    proof {
        assert(v@.take(0) =~= Seq::<u8>::empty());
    }
    while i < v.len()
        invariant
            i <= v@.len(),
            out@ == remove_all(v@.take(i as int), bad),
        decreases v@.len() - i,
    {
        proof {
            assert(v@.take(i + 1).drop_last() =~= v@.take(i as int));
            assert(v@.take(i + 1).last() == v@[i as int]);
        }
        if v[i] != bad {
            out.push(v[i]);
        }
        i += 1;
    }
    proof {
        assert(v@.take(v@.len() as int) =~= v@);
    }
    out
}

/// The top of the best straight in `rs`, if the ranks contain one.
fn straight_top_exec(rs: &Vec<u8>) -> (out: Option<u8>)
    ensures
        out == spec_straight_top(rs@),
{
    let mut t: u8 = 14;
    while t >= 5
        invariant
            4 <= t <= 14,
            spec_straight_top(rs@) == straight_top_from(rs@, t as int),
        decreases t,
    {
        let found = if t == 5 {
            contains_rank(rs, 14) && contains_rank(rs, 5) && contains_rank(rs, 4) && contains_rank(
                rs,
                3,
            ) && contains_rank(rs, 2)
        } else {
            contains_rank(rs, t) && contains_rank(rs, t - 1) && contains_rank(rs, t - 2)
                && contains_rank(rs, t - 3) && contains_rank(rs, t - 4)
        };
        if found {
            assert(run_at(rs@, t as int));
            return Some(t);
        }
        assert(!run_at(rs@, t as int));
        t -= 1;
    }
    None
}

// ---------------------------------------------------------------------------
// The five-card evaluator.
// ---------------------------------------------------------------------------

/// Classifies a five-card hand into its category and tiebreakers; the
/// result is exactly the strength `spec_eval5` assigns to the hand.
pub fn evaluate_five(cards: &[Card; 5]) -> (r: HandRank)
    ensures
        r@ == spec_eval5(cards@),
{
    let mut rs: Vec<u8> = Vec::new();
    let mut i: usize = 0;
    while i < 5
        invariant
            i <= 5,
            rs@.len() == i,
            forall|j: int| 0 <= j < i ==> rs@[j] == cards@[j].rank,
        decreases 5 - i,
    {
        rs.push(cards[i].rank);
        i += 1;
    }
    proof {
        assert(rs@ =~= ranks_of(cards@));
    }
    let ghost grs = rs@;

    let flush = cards[0].suit == cards[1].suit && cards[0].suit == cards[2].suit && cards[0].suit
        == cards[3].suit && cards[0].suit == cards[4].suit;
    proof {
        if flush {
            assert forall|j: int| 0 <= j < cards@.len() implies #[trigger] cards@[j].suit
                == cards@[0].suit by {
                assert(cards@[1].suit == cards@[0].suit);
                assert(cards@[2].suit == cards@[0].suit);
                assert(cards@[3].suit == cards@[0].suit);
                assert(cards@[4].suit == cards@[0].suit);
            }
        }
        assert(flush == spec_is_flush(cards@));
    }

    let st = straight_top_exec(&rs);

    // Straight flush.
    if flush && st.is_some() {
        let t = st.unwrap();
        let r = HandRank { category: 8, tiebreakers: vec![t] };
        proof {
            assert(r.tiebreakers@ =~= seq![t]);
        }
        return r;
    }

    // Four of a kind.
    let quad = find_count(&rs, 4);
    if let Some(q) = quad {
        proof {
            assert(has_count(grs, 4));
            lemma_count_le_len(grs, q);
            lemma_count_lt_exists_other(grs, q);
            let j = choose|j: int| 0 <= j < grs.len() && grs[j] != q;
            lemma_index_count_pos(grs, j);
            lemma_count_two(grs, q, grs[j]);
            assert(count_eq(grs, grs[j]) == 1);
        }
        match find_count(&rs, 1) {
            Some(k) => {
                proof {
                    let cq = rank_with_count(grs, 4);
                    assert(count_eq(grs, cq) == 4);
                    if cq != q {
                        lemma_count_two(grs, cq, q);
                    }
                    let ck = rank_with_count(grs, 1);
                    assert(count_eq(grs, ck) == 1);
                    if ck != k {
                        lemma_count_three(grs, q, ck, k);
                    }
                }
                let r = HandRank { category: 7, tiebreakers: vec![q, k] };
                proof {
                    assert(r.tiebreakers@ =~= seq![q, k]);
                }
                return r;
            },
            None => {
                return vstd::pervasive::unreached();
            },
        }
    }

    let trip = find_count(&rs, 3);
    let pair_top = find_top_pair(&rs);

    // Full house.
    if trip.is_some() && pair_top.is_some() {
        let t = trip.unwrap();
        let p = pair_top.unwrap();
        proof {
            assert(has_count(grs, 3));
            assert(has_count(grs, 2));
            let ct = rank_with_count(grs, 3);
            assert(count_eq(grs, ct) == 3);
            if ct != t {
                lemma_count_two(grs, ct, t);
            }
            let cp = top_pair(grs);
            assert(is_pair_rank(grs, cp) && (forall|q: u8| is_pair_rank(grs, q) ==> q <= cp));
            assert(cp <= p && p <= cp);
        }
        let r = HandRank { category: 6, tiebreakers: vec![t, p] };
        proof {
            assert(r.tiebreakers@ =~= seq![t, p]);
        }
        return r;
    }
    proof {
        if pair_top is None {
            assert forall|c: u8| count_eq(grs, c) != 2 by {
                assert(!is_pair_rank(grs, c));
            }
        }
    }

    // Flush.
    if flush {
        let tb = sort_desc_exec(&rs);
        return HandRank { category: 5, tiebreakers: tb };
    }

    // Straight.
    if let Some(t) = st {
        let r = HandRank { category: 4, tiebreakers: vec![t] };
        proof {
            assert(r.tiebreakers@ =~= seq![t]);
        }
        return r;
    }

    // Three of a kind.
    if let Some(t) = trip {
        proof {
            assert(has_count(grs, 3));
            let ct = rank_with_count(grs, 3);
            assert(count_eq(grs, ct) == 3);
            if ct != t {
                lemma_count_two(grs, ct, t);
            }
        }
        let mut tb: Vec<u8> = Vec::new();
        tb.push(t);
        let rest = remove_all_exec(&rs, t);
        let mut rest_sorted = sort_desc_exec(&rest);
        tb.append(&mut rest_sorted);
        proof {
            assert(tb@ =~= seq![t] + sort_desc(remove_all(grs, t)));
        }
        return HandRank { category: 3, tiebreakers: tb };
    }

    // Two pair and one pair.
    if let Some(p) = pair_top {
        proof {
            assert(has_count(grs, 2));
            let cp = top_pair(grs);
            assert(is_pair_rank(grs, cp) && (forall|q: u8| is_pair_rank(grs, q) ==> q <= cp));
            assert(cp <= p && p <= cp);
        }
        match find_second_pair(&rs, p) {
            Some(sp) => {
                proof {
                    assert(has_two_pairs(grs));
                    let csp = second_pair(grs);
                    assert(is_pair_rank(grs, csp) && csp != top_pair(grs));
                    if csp != sp {
                        lemma_count_three(grs, p, sp, csp);
                    }
                    lemma_count_two_lt_exists_other(grs, p, sp);
                    let j = choose|j: int| 0 <= j < grs.len() && grs[j] != p && grs[j] != sp;
                    lemma_index_count_pos(grs, j);
                    lemma_count_three(grs, p, sp, grs[j]);
                    assert(count_eq(grs, grs[j]) == 1);
                }
                match find_count(&rs, 1) {
                    Some(k) => {
                        proof {
                            let ck = rank_with_count(grs, 1);
                            assert(count_eq(grs, ck) == 1);
                            if ck != k {
                                lemma_count_four(grs, p, sp, ck, k);
                            }
                        }
                        let r = HandRank { category: 2, tiebreakers: vec![p, sp, k] };
                        proof {
                            assert(r.tiebreakers@ =~= seq![p, sp, k]);
                        }
                        return r;
                    },
                    None => {
                        return vstd::pervasive::unreached();
                    },
                }
            },
            None => {
                proof {
                    assert(!has_two_pairs(grs));
                }
                let mut tb: Vec<u8> = Vec::new();
                tb.push(p);
                let rest = remove_all_exec(&rs, p);
                let mut rest_sorted = sort_desc_exec(&rest);
                tb.append(&mut rest_sorted);
                proof {
                    assert(tb@ =~= seq![p] + sort_desc(remove_all(grs, p)));
                }
                return HandRank { category: 1, tiebreakers: tb };
            },
        }
    }

    // High card.
    let tb = sort_desc_exec(&rs);
    HandRank { category: 0, tiebreakers: tb }
}

// ---------------------------------------------------------------------------
// The best-of-seven search.
// ---------------------------------------------------------------------------

/// Whether `a < b < c < d < e` pick five distinct positions of `n` cards.
pub open spec fn valid_choice(n: int, a: int, b: int, c: int, d: int, e: int) -> bool {
    0 <= a < b && b < c && c < d && d < e && e < n
}

/// The strength of the five cards at positions `a < b < c < d < e`.
pub open spec fn choice_rank(cs: Seq<Card>, a: int, b: int, c: int, d: int, e: int) -> (
    u8,
    Seq<u8>,
) {
    spec_eval5(seq![cs[a], cs[b], cs[c], cs[d], cs[e]])
}

/// Whether `v` is the strength of some five-card choice from `cs`.
pub open spec fn is_choice_rank(cs: Seq<Card>, v: (u8, Seq<u8>)) -> bool {
    exists|a: int, b: int, c: int, d: int, e: int|
        valid_choice(cs.len() as int, a, b, c, d, e) && v == #[trigger] choice_rank(
            cs,
            a,
            b,
            c,
            d,
            e,
        )
}

spec fn covered_a(cs: Seq<Card>, a: int, v: (u8, Seq<u8>)) -> bool {
    forall|x0: int, x1: int, x2: int, x3: int, x4: int|
        valid_choice(cs.len() as int, x0, x1, x2, x3, x4) && x0 < a ==> rank_le(
            #[trigger] choice_rank(cs, x0, x1, x2, x3, x4),
            v,
        )
}

spec fn covered_b(cs: Seq<Card>, a: int, b: int, v: (u8, Seq<u8>)) -> bool {
    forall|x1: int, x2: int, x3: int, x4: int|
        valid_choice(cs.len() as int, a, x1, x2, x3, x4) && x1 < b ==> rank_le(
            #[trigger] choice_rank(cs, a, x1, x2, x3, x4),
            v,
        )
}

spec fn covered_c(cs: Seq<Card>, a: int, b: int, c: int, v: (u8, Seq<u8>)) -> bool {
    forall|x2: int, x3: int, x4: int|
        valid_choice(cs.len() as int, a, b, x2, x3, x4) && x2 < c ==> rank_le(
            #[trigger] choice_rank(cs, a, b, x2, x3, x4),
            v,
        )
}

spec fn covered_d(cs: Seq<Card>, a: int, b: int, c: int, d: int, v: (u8, Seq<u8>)) -> bool {
    forall|x3: int, x4: int|
        valid_choice(cs.len() as int, a, b, c, x3, x4) && x3 < d ==> rank_le(
            #[trigger] choice_rank(cs, a, b, c, x3, x4),
            v,
        )
}

spec fn covered_e(cs: Seq<Card>, a: int, b: int, c: int, d: int, e: int, v: (u8, Seq<u8>)) -> bool {
    forall|x4: int|
        valid_choice(cs.len() as int, a, b, c, d, x4) && x4 < e ==> rank_le(
            #[trigger] choice_rank(cs, a, b, c, d, x4),
            v,
        )
}

proof fn lemma_le_transfer(old_v: (u8, Seq<u8>), new_v: (u8, Seq<u8>))
    requires
        rank_le(old_v, new_v),
    ensures
        forall|x: (u8, Seq<u8>)| #[trigger] rank_le(x, old_v) ==> rank_le(x, new_v),
{
    assert forall|x: (u8, Seq<u8>)| #[trigger] rank_le(x, old_v) implies rank_le(x, new_v) by {
        if x != old_v && old_v != new_v {
            crate::rank::lemma_rank_order_transitive(x, old_v, new_v);
        }
    }
}

/// The five cards of `cards` at positions `a < b < c < d < e`, evaluated.
fn eval_choice_at(cards: &Vec<Card>, a: usize, b: usize, c: usize, d: usize, e: usize) -> (r:
    HandRank)
    requires
        a < b && b < c && c < d && d < e && e < cards@.len(),
    ensures
        r@ == choice_rank(cards@, a as int, b as int, c as int, d as int, e as int),
{
    let mut hand: Vec<Card> = Vec::new();
    hand.push(cards[a]);
    hand.push(cards[b]);
    hand.push(cards[c]);
    hand.push(cards[d]);
    hand.push(cards[e]);
    let arr: [Card; 5] = [hand[0], hand[1], hand[2], hand[3], hand[4]];
    proof {
        assert(arr@ =~= seq![
            cards@[a as int],
            cards@[b as int],
            cards@[c as int],
            cards@[d as int],
            cards@[e as int],
        ]);
    }
    evaluate_five(&arr)
}

/// The best strength among every five-card subset of the given cards:
/// at seven cards, the maximum of all twenty-one ways to pick five.
pub fn evaluate_best_of_seven(cards: &Vec<Card>) -> (r: HandRank)
    requires
        5 <= cards@.len() <= 7,
    ensures
        is_choice_rank(cards@, r@),
        forall|a: int, b: int, c: int, d: int, e: int|
            valid_choice(cards@.len() as int, a, b, c, d, e) ==> rank_le(
                #[trigger] choice_rank(cards@, a, b, c, d, e),
                r@,
            ),
{
    let n = cards.len();
    let mut best = eval_choice_at(cards, 0, 1, 2, 3, 4);
    proof {
        assert(valid_choice(cards@.len() as int, 0, 1, 2, 3, 4));
        assert(is_choice_rank(cards@, best@));
    }
    let mut a: usize = 0;
    while a < n
        invariant
            5 <= cards@.len() <= 7,
            n == cards@.len(),
            a <= n,
            is_choice_rank(cards@, best@),
            covered_a(cards@, a as int, best@),
        decreases n - a,
    {
        let mut b: usize = a + 1;
        while b < n
            invariant
                5 <= cards@.len() <= 7,
                n == cards@.len(),
                a < n,
                a < b <= n,
                is_choice_rank(cards@, best@),
                covered_a(cards@, a as int, best@),
                covered_b(cards@, a as int, b as int, best@),
            decreases n - b,
        {
            let mut c: usize = b + 1;
            while c < n
                invariant
                    5 <= cards@.len() <= 7,
                    n == cards@.len(),
                    a < b && b < n,
                    b < c <= n,
                    is_choice_rank(cards@, best@),
                    covered_a(cards@, a as int, best@),
                    covered_b(cards@, a as int, b as int, best@),
                    covered_c(cards@, a as int, b as int, c as int, best@),
                decreases n - c,
            {
                let mut d: usize = c + 1;
                while d < n
                    invariant
                        5 <= cards@.len() <= 7,
                        n == cards@.len(),
                        a < b && b < c && c < n,
                        c < d <= n,
                        is_choice_rank(cards@, best@),
                        covered_a(cards@, a as int, best@),
                        covered_b(cards@, a as int, b as int, best@),
                        covered_c(cards@, a as int, b as int, c as int, best@),
                        covered_d(cards@, a as int, b as int, c as int, d as int, best@),
                    decreases n - d,
                {
                    let mut e: usize = d + 1;
                    while e < n
                        invariant
                            5 <= cards@.len() <= 7,
                            n == cards@.len(),
                            a < b && b < c && c < d && d < n,
                            d < e <= n,
                            is_choice_rank(cards@, best@),
                            covered_a(cards@, a as int, best@),
                            covered_b(cards@, a as int, b as int, best@),
                            covered_c(cards@, a as int, b as int, c as int, best@),
                            covered_d(cards@, a as int, b as int, c as int, d as int, best@),
                            covered_e(
                                cards@,
                                a as int,
                                b as int,
                                c as int,
                                d as int,
                                e as int,
                                best@,
                            ),
                        decreases n - e,
                    {
                        let cand = eval_choice_at(cards, a, b, c, d, e);
                        let ghost prev = best@;
                        if cand.beats(&best) {
                            best = cand;
                        }
                        proof {
                            crate::rank::lemma_rank_order_total(prev, cand@);
                            assert(rank_le(prev, best@) && rank_le(cand@, best@));
                            lemma_le_transfer(prev, best@);
                            assert(valid_choice(
                                cards@.len() as int,
                                a as int,
                                b as int,
                                c as int,
                                d as int,
                                e as int,
                            ));
                        }
                        e += 1;
                    }
                    proof {
                        assert forall|x3: int, x4: int|
                            valid_choice(cards@.len() as int, a as int, b as int, c as int, x3, x4)
                                && x3 < d + 1 implies rank_le(
                            #[trigger] choice_rank(cards@, a as int, b as int, c as int, x3, x4),
                            best@,
                        ) by {
                            if x3 == d {
                                assert(x4 < e);
                            }
                        }
                    }
                    d += 1;
                }
                proof {
                    assert forall|x2: int, x3: int, x4: int|
                        valid_choice(cards@.len() as int, a as int, b as int, x2, x3, x4) && x2 < c
                            + 1 implies rank_le(
                        #[trigger] choice_rank(cards@, a as int, b as int, x2, x3, x4),
                        best@,
                    ) by {
                        if x2 == c {
                            assert(x3 < d);
                        }
                    }
                }
                c += 1;
            }
            proof {
                assert forall|x1: int, x2: int, x3: int, x4: int|
                    valid_choice(cards@.len() as int, a as int, x1, x2, x3, x4) && x1 < b
                        + 1 implies rank_le(
                    #[trigger] choice_rank(cards@, a as int, x1, x2, x3, x4),
                    best@,
                ) by {
                    if x1 == b {
                        assert(x2 < c);
                    }
                }
            }
            b += 1;
        }
        proof {
            assert forall|x0: int, x1: int, x2: int, x3: int, x4: int|
                valid_choice(cards@.len() as int, x0, x1, x2, x3, x4) && x0 < a + 1 implies rank_le(
                #[trigger] choice_rank(cards@, x0, x1, x2, x3, x4),
                best@,
            ) by {
                if x0 == a {
                    assert(x1 < b);
                }
            }
        }
        a += 1;
    }
    best
}

} // verus!
