use vstd::prelude::*;

verus! {

/// The arithmetic on samples that the transforms need.
///
/// Nothing is asked of an implementation but that every operation returns.
/// The contracts of this library speak of an operation's result through the
/// predicates below: "`total` is a value that `sum` may return for `a` and `b`".
pub trait Arithmetic {
    /// One sample of one channel.
    type Sample: Copy;

    /// A place in a stream, between two samples or on one.
    type Position: Copy;

    /// The sample that stands for the count `n`; silence is `from_count(0)`.
    fn from_count(&self, n: usize) -> Self::Sample;

    /// The count that a sample stands for, rounded towards zero.
    fn to_count(&self, x: Self::Sample) -> usize;

    /// `a + b`
    fn sum(&self, a: Self::Sample, b: Self::Sample) -> Self::Sample;

    /// `a - b`
    fn difference(&self, a: Self::Sample, b: Self::Sample) -> Self::Sample;

    /// `a * b`
    fn product(&self, a: Self::Sample, b: Self::Sample) -> Self::Sample;

    /// `a / b`
    fn quotient(&self, a: Self::Sample, b: Self::Sample) -> Self::Sample;

    /// `a <= b`
    fn at_most(&self, a: Self::Sample, b: Self::Sample) -> bool;

    /// `a < b`
    fn below(&self, a: Self::Sample, b: Self::Sample) -> bool;

    /// `a == b`
    fn same(&self, a: Self::Sample, b: Self::Sample) -> bool;

    /// The sine of `x`, an angle in radians.
    fn sine(&self, x: Self::Sample) -> Self::Sample;

    /// The cosine of `x`, an angle in radians.
    fn cosine(&self, x: Self::Sample) -> Self::Sample;

    /// The ratio of a circle's circumference to its diameter.
    fn pi(&self) -> Self::Sample;

    /// The place of the first sample.
    fn origin(&self) -> Self::Position;

    /// The place `by` samples after `position`.
    fn advance(&self, position: Self::Position, by: Self::Sample) -> Self::Position;

    /// The number of the last sample at or before `position`.
    fn index(&self, position: Self::Position) -> usize;

    /// How far `position` lies beyond that sample, as a part of the way to the next one.
    fn fraction(&self, position: Self::Position) -> Self::Sample;
}

/// `z` is a sample that `from_count(n)` may return.
pub open spec fn counts<A: Arithmetic>(m: &A, n: usize, z: A::Sample) -> bool {
    call_ensures(A::from_count, (m, n), z)
}

/// `n` is a count that `to_count(x)` may return.
pub open spec fn truncates<A: Arithmetic>(m: &A, x: A::Sample, n: usize) -> bool {
    call_ensures(A::to_count, (m, x), n)
}

/// `total` is a sample that `sum(a, b)` may return.
pub open spec fn sums<A: Arithmetic>(m: &A, a: A::Sample, b: A::Sample, total: A::Sample) -> bool {
    call_ensures(A::sum, (m, a, b), total)
}

/// `rest` is a sample that `difference(a, b)` may return.
pub open spec fn differs<A: Arithmetic>(m: &A, a: A::Sample, b: A::Sample, rest: A::Sample) -> bool {
    call_ensures(A::difference, (m, a, b), rest)
}

/// `scaled` is a sample that `product(a, b)` may return.
pub open spec fn multiplies<A: Arithmetic>(
    m: &A,
    a: A::Sample,
    b: A::Sample,
    scaled: A::Sample,
) -> bool {
    call_ensures(A::product, (m, a, b), scaled)
}

/// `ratio` is a sample that `quotient(a, b)` may return.
pub open spec fn divides<A: Arithmetic>(m: &A, a: A::Sample, b: A::Sample, ratio: A::Sample) -> bool {
    call_ensures(A::quotient, (m, a, b), ratio)
}

/// `answer` is what `at_most(a, b)` may return.
pub open spec fn compares<A: Arithmetic>(m: &A, a: A::Sample, b: A::Sample, answer: bool) -> bool {
    call_ensures(A::at_most, (m, a, b), answer)
}

/// `answer` is what `below(a, b)` may return.
pub open spec fn precedes<A: Arithmetic>(m: &A, a: A::Sample, b: A::Sample, answer: bool) -> bool {
    call_ensures(A::below, (m, a, b), answer)
}

/// `y` is a sample that `sine(x)` may return.
pub open spec fn sines<A: Arithmetic>(m: &A, x: A::Sample, y: A::Sample) -> bool {
    call_ensures(A::sine, (m, x), y)
}

/// `y` is a sample that `cosine(x)` may return.
pub open spec fn cosines<A: Arithmetic>(m: &A, x: A::Sample, y: A::Sample) -> bool {
    call_ensures(A::cosine, (m, x), y)
}

/// `y` is a sample that `pi()` may return.
pub open spec fn circles<A: Arithmetic>(m: &A, y: A::Sample) -> bool {
    call_ensures(A::pi, (m,), y)
}

/// `position` is a place that `origin()` may return.
pub open spec fn starts<A: Arithmetic>(m: &A, position: A::Position) -> bool {
    call_ensures(A::origin, (m,), position)
}

/// `moved` is a place that `advance(position, by)` may return.
pub open spec fn advances<A: Arithmetic>(
    m: &A,
    position: A::Position,
    by: A::Sample,
    moved: A::Position,
) -> bool {
    call_ensures(A::advance, (m, position, by), moved)
}

/// `index` is a number that `index(position)` may return.
pub open spec fn indexes<A: Arithmetic>(m: &A, position: A::Position, index: usize) -> bool {
    call_ensures(A::index, (m, position), index)
}

/// `t` is a sample that `fraction(position)` may return.
pub open spec fn fractions<A: Arithmetic>(m: &A, position: A::Position, t: A::Sample) -> bool {
    call_ensures(A::fraction, (m, position), t)
}

/// `answer` is what `same(a, b)` may return.
pub open spec fn equates<A: Arithmetic>(m: &A, a: A::Sample, b: A::Sample, answer: bool) -> bool {
    call_ensures(A::same, (m, a, b), answer)
}

/// `total` is what adding up `terms` from left to right may give: the first
/// term alone, or a sum of what the terms before the last may give and the last.
pub open spec fn totals<A: Arithmetic>(m: &A, terms: Seq<A::Sample>, total: A::Sample) -> bool
    decreases terms.len(),
{
    if terms.len() == 0 {
        false
    } else if terms.len() == 1 {
        total == terms[0]
    } else {
        exists|partial: A::Sample|
            totals(m, terms.drop_last(), partial) && #[trigger] sums(
                m,
                partial,
                terms.last(),
                total,
            )
    }
}

/// Adding one more term to a running total.
pub proof fn lemma_totals_push<A: Arithmetic>(
    m: &A,
    terms: Seq<A::Sample>,
    partial: A::Sample,
    term: A::Sample,
    total: A::Sample,
)
    requires
        totals(m, terms, partial),
        sums(m, partial, term, total),
    ensures
        totals(m, terms.push(term), total),
{
    assert(terms.push(term).drop_last() =~= terms);
    assert(terms.push(term).last() == term);
}

} // verus!
