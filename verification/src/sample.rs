//! The sample type: a fixed-point chart value.
//!
//! A finite sample counts millionths of a unit, so `2_500_000` stands for the
//! value two and a half.  The three non-finite variants mirror the values a
//! floating-point feed can carry; they are never drawn and never contribute
//! to an automatic range.

use vstd::prelude::*;

verus! {

/// Number of fixed-point steps per whole unit of a finite sample.
pub const STEPS_PER_UNIT: i64 = 1_000_000;

/// One chart value: a fixed-point number or a non-finite marker.
#[derive(Clone, Copy, Debug, PartialEq, Eq, Structural)]
pub enum Sample {
    /// A finite value, in millionths of a unit.
    Finite(i64),
    /// Not a number: skipped when drawing, rejected as an explicit bound.
    Nan,
    /// Positive infinity: skipped when drawing, rejected as an explicit bound.
    PosInf,
    /// Negative infinity: skipped when drawing, rejected as an explicit bound.
    NegInf,
}

impl Sample {
    /// Whether this sample carries a finite value.
    pub open spec fn spec_is_finite(self) -> bool {
        self is Finite
    }

    /// The fixed-point value of a finite sample.
    pub open spec fn spec_value(self) -> int {
        match self {
            Sample::Finite(m) => m as int,
            _ => 0,
        }
    }

    /// Whether this sample carries a finite value.
    #[verifier::when_used_as_spec(spec_is_finite)]
    pub fn is_finite(self) -> (r: bool)
        ensures
            r == self.spec_is_finite(),
    {
        match self {
            Sample::Finite(_) => true,
            _ => false,
        }
    }
}

/// The ordering test an explicit bound pair is validated with: `a >= b` with
/// floating-point comparison semantics, where any comparison against
/// not-a-number is false.
pub open spec fn sample_ge(a: Sample, b: Sample) -> bool {
    match (a, b) {
        (Sample::Nan, _) => false,
        (_, Sample::Nan) => false,
        (Sample::PosInf, _) => true,
        (_, Sample::PosInf) => false,
        (_, Sample::NegInf) => true,
        (Sample::NegInf, _) => false,
        (Sample::Finite(x), Sample::Finite(y)) => x >= y,
    }
}

/// Executable form of [`sample_ge`].
pub fn sample_ge_exec(a: Sample, b: Sample) -> (r: bool)
    ensures
        r == sample_ge(a, b),
{
    match (a, b) {
        (Sample::Nan, _) => false,
        (_, Sample::Nan) => false,
        (Sample::PosInf, _) => true,
        (_, Sample::PosInf) => false,
        (_, Sample::NegInf) => true,
        (Sample::NegInf, _) => false,
        (Sample::Finite(x), Sample::Finite(y)) => x >= y,
    }
}

/// The fixed-point values of the finite samples of a series, in order.
pub open spec fn finite_values(s: Seq<Sample>) -> Seq<int>
    decreases s.len(),
{
    if s.len() == 0 {
        Seq::empty()
    } else {
        finite_values(s.drop_last()) + match s.last() {
            Sample::Finite(m) => seq![m as int],
            _ => Seq::empty(),
        }
    }
}

/// Appending one sample extends the finite values by at most that sample.
pub proof fn lemma_finite_values_push(s: Seq<Sample>, x: Sample)
    ensures
        finite_values(s.push(x)) == finite_values(s) + match x {
            Sample::Finite(m) => seq![m as int],
            _ => Seq::<int>::empty(),
        },
{
    assert(s.push(x).drop_last() =~= s);
    assert(s.push(x).last() == x);
}

/// A series with a finite sample has a finite value, and conversely.
pub proof fn lemma_finite_values_member(s: Seq<Sample>, i: int)
    requires
        0 <= i < s.len(),
        s[i] is Finite,
    ensures
        finite_values(s).len() > 0,
    decreases s.len(),
{
    if i == s.len() - 1 {
    } else {
        lemma_finite_values_member(s.drop_last(), i);
    }
}

/// A series without finite samples has no finite values.
pub proof fn lemma_finite_values_none(s: Seq<Sample>)
    requires
        forall|i: int| 0 <= i < s.len() ==> !(#[trigger] s[i] is Finite),
    ensures
        finite_values(s).len() == 0,
    decreases s.len(),
{
    if s.len() > 0 {
        lemma_finite_values_none(s.drop_last());
    }
}

/// Over an all-finite series, the finite values are exactly the sample
/// values, in place.
pub proof fn lemma_finite_values_all(s: Seq<Sample>)
    requires
        forall|i: int| 0 <= i < s.len() ==> (#[trigger] s[i]) is Finite,
    ensures
        finite_values(s).len() == s.len(),
        forall|i: int| 0 <= i < s.len() ==> finite_values(s)[i] == (#[trigger] s[i]).spec_value(),
    decreases s.len(),
{
    if s.len() > 0 {
        lemma_finite_values_all(s.drop_last());
        assert forall|i: int| 0 <= i < s.len() implies finite_values(s)[i] == (
        #[trigger] s[i]).spec_value() by {
            if i < s.len() - 1 {
                assert(s.drop_last()[i] == s[i]);
                assert(finite_values(s)[i] == finite_values(s.drop_last())[i]);
            }
        }
    }
}

/// Least element of a non-empty sequence of integers.
pub open spec fn seq_min(s: Seq<int>) -> int
    decreases s.len(),
{
    if s.len() <= 1 {
        s[0]
    } else if s.last() < seq_min(s.drop_last()) {
        s.last()
    } else {
        seq_min(s.drop_last())
    }
}

/// Greatest element of a non-empty sequence of integers.
pub open spec fn seq_max(s: Seq<int>) -> int
    decreases s.len(),
{
    if s.len() <= 1 {
        s[0]
    } else if s.last() > seq_max(s.drop_last()) {
        s.last()
    } else {
        seq_max(s.drop_last())
    }
}

/// How the least and greatest element move when a value is appended.
pub proof fn lemma_seq_min_max_push(s: Seq<int>, x: int)
    ensures
        seq_min(s.push(x)) == if s.len() == 0 || x < seq_min(s) {
            x
        } else {
            seq_min(s)
        },
        seq_max(s.push(x)) == if s.len() == 0 || x > seq_max(s) {
            x
        } else {
            seq_max(s)
        },
{
    assert(s.push(x).drop_last() =~= s);
    assert(s.push(x).last() == x);
    assert(s.push(x).len() == s.len() + 1);
    if s.len() == 0 {
        assert(seq_min(s.push(x)) == s.push(x)[0]);
        assert(seq_max(s.push(x)) == s.push(x)[0]);
    }
}

/// Least and greatest element of a concatenation.
pub proof fn lemma_seq_min_max_concat(a: Seq<int>, b: Seq<int>)
    requires
        b.len() > 0,
    ensures
        seq_min(a + b) == if a.len() == 0 || seq_min(b) < seq_min(a) {
            seq_min(b)
        } else {
            seq_min(a)
        },
        seq_max(a + b) == if a.len() == 0 || seq_max(b) > seq_max(a) {
            seq_max(b)
        } else {
            seq_max(a)
        },
    decreases b.len(),
{
    if b.len() == 1 {
        assert(a + b =~= a.push(b[0]));
        lemma_seq_min_max_push(a, b[0]);
    } else {
        lemma_seq_min_max_concat(a, b.drop_last());
        assert(a + b =~= (a + b.drop_last()).push(b.last()));
        lemma_seq_min_max_push(a + b.drop_last(), b.last());
        assert(b =~= b.drop_last().push(b.last()));
        lemma_seq_min_max_push(b.drop_last(), b.last());
    }
}

/// The least element never exceeds the greatest.
pub proof fn lemma_seq_min_le_max(s: Seq<int>)
    requires
        s.len() > 0,
    ensures
        seq_min(s) <= seq_max(s),
    decreases s.len(),
{
    if s.len() > 1 {
        lemma_seq_min_le_max(s.drop_last());
    }
}

/// The least and the greatest element are themselves elements.
pub proof fn lemma_seq_min_max_member(s: Seq<int>)
    requires
        s.len() > 0,
    ensures
        exists|i: int| 0 <= i < s.len() && s[i] == seq_min(s),
        exists|j: int| 0 <= j < s.len() && s[j] == seq_max(s),
    decreases s.len(),
{
    if s.len() == 1 {
        assert(s[0] == seq_min(s));
        assert(s[0] == seq_max(s));
    } else {
        lemma_seq_min_max_member(s.drop_last());
        let i = choose|i: int| 0 <= i < s.drop_last().len() && s.drop_last()[i] == seq_min(
            s.drop_last(),
        );
        let j = choose|j: int| 0 <= j < s.drop_last().len() && s.drop_last()[j] == seq_max(
            s.drop_last(),
        );
        if s.last() < seq_min(s.drop_last()) {
            assert(s[s.len() - 1] == seq_min(s));
        } else {
            assert(s[i] == seq_min(s));
        }
        if s.last() > seq_max(s.drop_last()) {
            assert(s[s.len() - 1] == seq_max(s));
        } else {
            assert(s[j] == seq_max(s));
        }
    }
}

/// Every element lies between the least and the greatest.
pub proof fn lemma_seq_min_max_bounds(s: Seq<int>, i: int)
    requires
        0 <= i < s.len(),
    ensures
        seq_min(s) <= s[i] <= seq_max(s),
    decreases s.len(),
{
    if i == s.len() - 1 {
        if s.len() > 1 {
            lemma_seq_min_le_max(s.drop_last());
        }
    } else {
        lemma_seq_min_max_bounds(s.drop_last(), i);
    }
}

} // verus!
