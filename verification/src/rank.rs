use vstd::prelude::*;

verus! {

/// The strength of one five-card hand: a category (0 = high card up to
/// 8 = straight flush) and a tiebreaker sequence, ranks in decreasing
/// significance, whose length and meaning depend on the category.
#[derive(Clone, Debug)]
pub struct HandRank {
    pub category: u8,
    pub tiebreakers: Vec<u8>,
}

impl View for HandRank {
    type V = (u8, Seq<u8>);

    open spec fn view(&self) -> (u8, Seq<u8>) {
        (self.category, self.tiebreakers@)
    }
}

/// Strict lexicographic order on byte sequences, the order `Vec<u8>`
/// carries in std: a proper prefix comes before its extensions.
pub open spec fn seq_lt(a: Seq<u8>, b: Seq<u8>) -> bool
    decreases a.len(),
{
    if a.len() == 0 {
        b.len() > 0
    } else if b.len() == 0 {
        false
    } else if a[0] < b[0] {
        true
    } else if a[0] > b[0] {
        false
    } else {
        seq_lt(a.drop_first(), b.drop_first())
    }
}

/// Strict order on hand strengths: category first, then the tiebreaker
/// sequences lexicographically.
pub open spec fn rank_lt(a: (u8, Seq<u8>), b: (u8, Seq<u8>)) -> bool {
    a.0 < b.0 || (a.0 == b.0 && seq_lt(a.1, b.1))
}

/// Non-strict companion of `rank_lt`.
pub open spec fn rank_le(a: (u8, Seq<u8>), b: (u8, Seq<u8>)) -> bool {
    rank_lt(a, b) || a == b
}

proof fn lemma_seq_lt_asymmetric(a: Seq<u8>, b: Seq<u8>)
    requires
        seq_lt(a, b),
    ensures
        !seq_lt(b, a),
    decreases a.len(),
{
    if a.len() > 0 && b.len() > 0 && a[0] == b[0] {
        lemma_seq_lt_asymmetric(a.drop_first(), b.drop_first());
    }
}

proof fn lemma_seq_lt_connected(a: Seq<u8>, b: Seq<u8>)
    requires
        !seq_lt(a, b),
        !seq_lt(b, a),
    ensures
        a == b,
    decreases a.len(),
{
    if a.len() == 0 {
        assert(b.len() == 0);
        assert(a =~= b);
    } else {
        assert(b.len() > 0);
        assert(a[0] == b[0]);
        lemma_seq_lt_connected(a.drop_first(), b.drop_first());
        assert(a =~= seq![a[0]] + a.drop_first());
        assert(b =~= seq![b[0]] + b.drop_first());
    }
}

proof fn lemma_seq_lt_transitive(a: Seq<u8>, b: Seq<u8>, c: Seq<u8>)
    requires
        seq_lt(a, b),
        seq_lt(b, c),
    ensures
        seq_lt(a, c),
    decreases a.len(),
{
    if a.len() > 0 && b.len() > 0 && c.len() > 0 && a[0] == b[0] && b[0] == c[0] {
        lemma_seq_lt_transitive(a.drop_first(), b.drop_first(), c.drop_first());
    }
}

/// The order on hand strengths is total: two strengths that neither
/// precede nor follow one another are the same strength.
pub proof fn lemma_rank_order_total(a: (u8, Seq<u8>), b: (u8, Seq<u8>))
    ensures
        rank_lt(a, b) || rank_lt(b, a) || a == b,
        rank_lt(a, b) ==> !rank_lt(b, a),
{
    if !rank_lt(a, b) && !rank_lt(b, a) {
        lemma_seq_lt_connected(a.1, b.1);
    }
    if rank_lt(a, b) && a.0 == b.0 {
        lemma_seq_lt_asymmetric(a.1, b.1);
    }
}

/// The order on hand strengths is transitive.
pub proof fn lemma_rank_order_transitive(a: (u8, Seq<u8>), b: (u8, Seq<u8>), c: (u8, Seq<u8>))
    requires
        rank_lt(a, b),
        rank_lt(b, c),
    ensures
        rank_lt(a, c),
{
    if a.0 == b.0 && b.0 == c.0 {
        lemma_seq_lt_transitive(a.1, b.1, c.1);
    }
}

/// Non-strict order chains through itself.
pub proof fn lemma_rank_le_trans(a: (u8, Seq<u8>), b: (u8, Seq<u8>), c: (u8, Seq<u8>))
    requires
        rank_le(a, b),
        rank_le(b, c),
    ensures
        rank_le(a, c),
{
    if a != b && b != c {
        lemma_rank_order_transitive(a, b, c);
    }
}

/// Non-strict order followed by strict order is strict.
pub proof fn lemma_rank_le_lt_trans(a: (u8, Seq<u8>), b: (u8, Seq<u8>), c: (u8, Seq<u8>))
    requires
        rank_le(a, b),
        rank_lt(b, c),
    ensures
        rank_lt(a, c),
{
    if a != b {
        lemma_rank_order_transitive(a, b, c);
    }
}

/// A hand of a lower category never reaches one of a higher category,
/// whatever the tiebreakers: a straight flush beats four of a kind,
/// four of a kind beats a full house, and so on down to high card.
pub proof fn lemma_category_dominates(a: (u8, Seq<u8>), b: (u8, Seq<u8>))
    requires
        a.0 < b.0,
    ensures
        rank_lt(a, b),
        !rank_lt(b, a),
{
}

impl PartialEq for HandRank {
    /// Two strengths are equal exactly when category and the whole
    /// tiebreaker sequence agree.
    fn eq(&self, other: &Self) -> (r: bool) {
        let r = self.category == other.category && self.tiebreakers == other.tiebreakers;
        proof {
            if r {
                assert(self.tiebreakers@ =~= other.tiebreakers@);
            }
        }
        r
    }
}

impl vstd::std_specs::cmp::PartialEqSpecImpl for HandRank {
    open spec fn obeys_eq_spec() -> bool {
        true
    }

    open spec fn eq_spec(&self, other: &Self) -> bool {
        self@ == other@
    }
}

impl PartialOrd for HandRank {
    /// Hand strengths are totally ordered: category first, then the
    /// tiebreakers lexicographically.
    fn partial_cmp(&self, other: &Self) -> (r: Option<core::cmp::Ordering>) {
        if other.beats(self) {
            Some(core::cmp::Ordering::Less)
        } else if self.beats(other) {
            proof {
                lemma_rank_order_total(self@, other@);
            }
            Some(core::cmp::Ordering::Greater)
        } else {
            proof {
                lemma_rank_order_total(self@, other@);
            }
            Some(core::cmp::Ordering::Equal)
        }
    }
}

impl vstd::std_specs::cmp::PartialOrdSpecImpl for HandRank {
    open spec fn obeys_partial_cmp_spec() -> bool {
        true
    }

    open spec fn partial_cmp_spec(&self, other: &Self) -> Option<core::cmp::Ordering> {
        if rank_lt(self@, other@) {
            Some(core::cmp::Ordering::Less)
        } else if rank_lt(other@, self@) {
            Some(core::cmp::Ordering::Greater)
        } else {
            Some(core::cmp::Ordering::Equal)
        }
    }
}

impl HandRank {
    /// Whether `self` is strictly stronger than `other`, by category
    /// first and then by the tiebreakers lexicographically.
    pub fn beats(&self, other: &HandRank) -> (r: bool)
        ensures
            r == rank_lt(other@, self@),
    {
        if self.category != other.category {
            return self.category > other.category;
        }
        let a = &other.tiebreakers;
        let b = &self.tiebreakers;
        let mut i: usize = 0;
        proof {
            assert(a@.skip(0) =~= a@);
            assert(b@.skip(0) =~= b@);
        }
        loop
            invariant
                self.category == other.category,
                a@ == other.tiebreakers@,
                b@ == self.tiebreakers@,
                i <= a.len(),
                i <= b.len(),
                seq_lt(a@, b@) == seq_lt(a@.skip(i as int), b@.skip(i as int)),
            decreases a.len() - i,
        {
            proof {
                let ga = a@.skip(i as int);
                let gb = b@.skip(i as int);
                if i < a.len() && i < b.len() {
                    assert(ga.drop_first() =~= a@.skip(i + 1));
                    assert(gb.drop_first() =~= b@.skip(i + 1));
                }
            }
            if i >= a.len() {
                proof {
                    assert(a@.skip(i as int).len() == 0);
                    assert(seq_lt(a@.skip(i as int), b@.skip(i as int)) == (b@.skip(
                        i as int,
                    ).len() > 0));
                }
                return i < b.len();
            }
            if i >= b.len() {
                proof {
                    assert(b@.skip(i as int).len() == 0);
                    assert(a@.skip(i as int).len() > 0);
                    assert(!seq_lt(a@.skip(i as int), b@.skip(i as int)));
                }
                return false;
            }
            if a[i] < b[i] {
                return true;
            }
            if a[i] > b[i] {
                return false;
            }
            i += 1;
        }
    }
}

} // verus!
