use crate::arithmetic::{
    circles, cosines, counts, differs, divides, multiplies, sines, sums, Arithmetic,
};
use crate::sharing::share;
use std::sync::Arc;
use vstd::prelude::*;

verus! {

/// `w0` is what the angle that `frequency` turns through in one sample at
/// the rate `sample_rate` may come to: `2 * pi * frequency / sample_rate`.
pub open spec fn angle_of<A: Arithmetic>(
    m: &A,
    sample_rate: usize,
    frequency: usize,
    w0: A::Sample,
) -> bool {
    exists|
        two: A::Sample,
        pi: A::Sample,
        f: A::Sample,
        rate: A::Sample,
        two_pi: A::Sample,
        turns: A::Sample,
    |
        {
            &&& #[trigger] counts(m, 2, two)
            &&& #[trigger] circles(m, pi)
            &&& #[trigger] counts(m, frequency, f)
            &&& #[trigger] counts(m, sample_rate, rate)
            &&& #[trigger] multiplies(m, two, pi, two_pi)
            &&& #[trigger] multiplies(m, two_pi, f, turns)
            &&& divides(m, turns, rate, w0)
        }
}

/// `alpha` is what `sin(w0) / (2 * q)` may come to for the quality `q` of
/// one half, and `cos` what `cos(w0)` may come to.
pub open spec fn damping_of<A: Arithmetic>(
    m: &A,
    w0: A::Sample,
    alpha: A::Sample,
    cos: A::Sample,
) -> bool {
    exists|one: A::Sample, two: A::Sample, q: A::Sample, q_twice: A::Sample, sin: A::Sample|
        {
            &&& #[trigger] counts(m, 1, one)
            &&& #[trigger] counts(m, 2, two)
            &&& #[trigger] divides(m, one, two, q)
            &&& #[trigger] multiplies(m, two, q, q_twice)
            &&& #[trigger] sines(m, w0, sin)
            &&& divides(m, sin, q_twice, alpha)
            &&& cosines(m, w0, cos)
        }
}

/// `c` are what the five coefficients of the filter may come to, in the
/// order b0, b1, b2, a1, a2 and each divided by `a0 = 1 + alpha`:
/// `b1 = 1 - cos`, `b0 = b2 = b1 / 2`, `a1 = -2 * cos`, `a2 = 1 - alpha`.
pub open spec fn normalised<A: Arithmetic>(
    m: &A,
    alpha: A::Sample,
    cos: A::Sample,
    c: [A::Sample; 5],
) -> bool {
    exists|
        zero: A::Sample,
        one: A::Sample,
        two: A::Sample,
        b1: A::Sample,
        b0: A::Sample,
        a0: A::Sample,
        minus_two: A::Sample,
        a1: A::Sample,
        a2: A::Sample,
    |
        {
            &&& #[trigger] counts(m, 0, zero)
            &&& #[trigger] counts(m, 1, one)
            &&& #[trigger] counts(m, 2, two)
            &&& #[trigger] differs(m, one, cos, b1)
            &&& #[trigger] divides(m, b1, two, b0)
            &&& #[trigger] sums(m, one, alpha, a0)
            &&& #[trigger] differs(m, zero, two, minus_two)
            &&& #[trigger] multiplies(m, minus_two, cos, a1)
            &&& #[trigger] differs(m, one, alpha, a2)
            &&& divides(m, b0, a0, c[0])
            &&& divides(m, b1, a0, c[1])
            &&& divides(m, b0, a0, c[2])
            &&& divides(m, a1, a0, c[3])
            &&& divides(m, a2, a0, c[4])
        }
}

/// `c` are what the coefficients of a second-order low-pass filter with
/// the threshold `frequency` may come to for a stream at `sample_rate`.
pub open spec fn coefficients_of<A: Arithmetic>(
    m: &A,
    sample_rate: usize,
    frequency: usize,
    c: [A::Sample; 5],
) -> bool {
    exists|w0: A::Sample, alpha: A::Sample, cos: A::Sample|
        {
            &&& #[trigger] angle_of(m, sample_rate, frequency, w0)
            &&& #[trigger] damping_of(m, w0, alpha, cos)
            &&& normalised(m, alpha, cos, c)
        }
}

/// The least sample rate at which a filter with the threshold
/// `threshold_frequency` gets coefficients: twice the threshold, below
/// which the filter would not settle, and a margin.
pub open spec fn minimum_sample_rate(threshold_frequency: usize) -> int {
    threshold_frequency * 2 + 10
}

/// `row` holds, for the sample rate `sample_rate`, an entry for each
/// threshold frequency from zero to `max_threshold_frequency`: its
/// coefficients if the sample rate is the minimum for that threshold or
/// more, and nothing if it is less.
pub open spec fn row_of<A: Arithmetic>(
    m: &A,
    sample_rate: usize,
    max_threshold_frequency: usize,
    row: Seq<Option<[A::Sample; 5]>>,
) -> bool {
    &&& row.len() == max_threshold_frequency + 1
    &&& forall|frequency: int|
        0 <= frequency <= max_threshold_frequency ==> match #[trigger] row[frequency] {
            Some(c) => sample_rate >= minimum_sample_rate(frequency as usize) && coefficients_of(
                m,
                sample_rate,
                frequency as usize,
                c,
            ),
            None => sample_rate < minimum_sample_rate(frequency as usize),
        }
}

/// The coefficients of low-pass filters, worked out once for the sample
/// rates and threshold frequencies that will be used, and shared by the
/// filters: none is worked out while a stream plays.
pub struct LowPassCoefficients<T> {
    pub precomputed: Arc<Vec<(usize, Vec<Option<[T; 5]>>)>>,
}

impl<T: Copy> LowPassCoefficients<T> {
    /// The sample rates of the table, in its order.
    pub open spec fn rates(&self) -> Seq<usize> {
        Seq::new(self.precomputed@.len(), |i: int| self.precomputed@[i].0)
    }

    /// The entries for the sample rate at `sample_rate_index`, by threshold frequency.
    pub open spec fn row(&self, sample_rate_index: int) -> Seq<Option<[T; 5]>> {
        self.precomputed@[sample_rate_index].1@
    }

    /// Every sample rate of the table has an entry for the threshold zero at least.
    pub open spec fn wf(&self) -> bool {
        forall|i: int| 0 <= i < self.precomputed@.len() ==> (#[trigger] self.row(i)).len() > 0
    }

    /// The first place of `sample_rate` in the table.
    pub fn index_for_sample_rate(&self, sample_rate: usize) -> (index: usize)
        requires
            self.rates().contains(sample_rate),
        ensures
            index < self.rates().len(),
            self.rates()[index as int] == sample_rate,
            forall|i: int| 0 <= i < index ==> self.rates()[i] != sample_rate,
    {
        let len = self.precomputed.len();
        let mut index: usize = 0;
        loop
            invariant
                self.rates().contains(sample_rate),
                len == self.precomputed@.len(),
                index <= self.precomputed@.len(),
                forall|i: int| 0 <= i < index ==> self.rates()[i] != sample_rate,
            decreases self.precomputed@.len() - index,
        {
            proof {
                let at = choose|at: int|
                    0 <= at < self.rates().len() && self.rates()[at] == sample_rate;
            }
            if self.precomputed[index].0 == sample_rate {
                return index;
            }
            index += 1;
        }
    }

    /// The entries for the sample rate at `sample_rate_index`.
    pub fn for_sample_rate_index(&self, sample_rate_index: usize) -> (row: &Vec<Option<[T; 5]>>)
        requires
            sample_rate_index < self.rates().len(),
        ensures
            row@ == self.row(sample_rate_index as int),
    {
        &self.precomputed[sample_rate_index].1
    }

    /// A second owner of the same table.
    pub fn clone_arc(&self) -> (shared: Self)
        ensures
            shared == *self,
    {
        Self { precomputed: share(&self.precomputed) }
    }
}

impl<T: Copy> LowPassCoefficients<T> {
    /// The table for the sample rates in `sample_rates` and the threshold
    /// frequencies up to `max_threshold_frequency`.
    pub fn new<A: Arithmetic<Sample = T>>(
        sample_rates: Vec<usize>,
        max_threshold_frequency: usize,
        math: &A,
    ) -> (table: Self)
        requires
            minimum_sample_rate(max_threshold_frequency) <= usize::MAX,
        ensures
            table.wf(),
            table.rates() == sample_rates@,
            forall|i: int|
                0 <= i < sample_rates@.len() ==> row_of(
                    math,
                    sample_rates@[i],
                    max_threshold_frequency,
                    #[trigger] table.row(i),
                ),
    {
        let mut precomputed: Vec<(usize, Vec<Option<[T; 5]>>)> = Vec::new();
        let mut i: usize = 0;
        while i < sample_rates.len()
            invariant
                minimum_sample_rate(max_threshold_frequency) <= usize::MAX,
                i <= sample_rates@.len(),
                precomputed@.len() == i,
                forall|j: int|
                    0 <= j < i ==> (#[trigger] precomputed@[j]).0 == sample_rates@[j] && row_of(
                        math,
                        sample_rates@[j],
                        max_threshold_frequency,
                        precomputed@[j].1@,
                    ),
            decreases sample_rates@.len() - i,
        {
            let rate = sample_rates[i];
            let row = Self::coefficients_for_each_threshold_frequency(
                rate,
                max_threshold_frequency,
                math,
            );
            precomputed.push((rate, row));
            i += 1;
        }
        let table = Self { precomputed: Arc::new(precomputed) };
        proof {
            assert forall|j: int| 0 <= j < sample_rates@.len() implies row_of(
                math,
                sample_rates@[j],
                max_threshold_frequency,
                #[trigger] table.row(j),
            ) by {
            }
        }
        table
    }

    /// The entries for one sample rate: for each threshold frequency up to
    /// `max_threshold_frequency` its coefficients, or nothing where the
    /// sample rate is under the minimum for that threshold.
    pub fn coefficients_for_each_threshold_frequency<A: Arithmetic<Sample = T>>(
        sample_rate: usize,
        max_threshold_frequency: usize,
        math: &A,
    ) -> (row: Vec<Option<[T; 5]>>)
        requires
            minimum_sample_rate(max_threshold_frequency) <= usize::MAX,
        ensures
            row_of(math, sample_rate, max_threshold_frequency, row@),
    {
        let mut row: Vec<Option<[T; 5]>> = Vec::new();
        let mut frequency: usize = 0;
        while frequency <= max_threshold_frequency
            invariant
                minimum_sample_rate(max_threshold_frequency) <= usize::MAX,
                frequency <= max_threshold_frequency + 1,
                row@.len() == frequency,
                forall|f: int|
                    0 <= f < frequency ==> match #[trigger] row@[f] {
                        Some(c) => sample_rate >= minimum_sample_rate(f as usize)
                            && coefficients_of(math, sample_rate, f as usize, c),
                        None => sample_rate < minimum_sample_rate(f as usize),
                    },
            decreases max_threshold_frequency + 1 - frequency,
        {
            // Under twice the threshold the filter would run away: no
            // coefficients, and the samples pass as they are.
            let minimum_sample_rate = frequency * 2 + 10;
            if sample_rate < minimum_sample_rate {
                row.push(None);
            } else {
                row.push(Some(Self::coefficients(sample_rate, frequency, math)));
            }
            frequency += 1;
        }
        row
    }

    /// The coefficients for one sample rate and one threshold frequency.
    fn coefficients<A: Arithmetic<Sample = T>>(sample_rate: usize, frequency: usize, math: &A) -> (c:
        [T; 5])
        ensures
            coefficients_of(math, sample_rate, frequency, c),
    {
        let zero = math.from_count(0);
        let one = math.from_count(1);
        let two = math.from_count(2);
        let pi = math.pi();
        let f = math.from_count(frequency);
        let rate = math.from_count(sample_rate);
        let two_pi = math.product(two, pi);
        let turns = math.product(two_pi, f);
        let w0 = math.quotient(turns, rate);
        proof {
            assert(counts(math, 2, two) && circles(math, pi) && counts(math, frequency, f));
            assert(counts(math, sample_rate, rate) && multiplies(math, two, pi, two_pi));
            assert(multiplies(math, two_pi, f, turns));
            assert(angle_of(math, sample_rate, frequency, w0));
        }
        let q = math.quotient(one, two);
        let q_twice = math.product(two, q);
        let sin = math.sine(w0);
        let alpha = math.quotient(sin, q_twice);
        let cos = math.cosine(w0);
        proof {
            assert(counts(math, 1, one) && divides(math, one, two, q));
            assert(multiplies(math, two, q, q_twice) && sines(math, w0, sin));
            assert(damping_of(math, w0, alpha, cos));
        }
        let b1 = math.difference(one, cos);
        let b0 = math.quotient(b1, two);
        let a0 = math.sum(one, alpha);
        let minus_two = math.difference(zero, two);
        let a1 = math.product(minus_two, cos);
        let a2 = math.difference(one, alpha);
        let c = [
            math.quotient(b0, a0),
            math.quotient(b1, a0),
            math.quotient(b0, a0),
            math.quotient(a1, a0),
            math.quotient(a2, a0),
        ];
        proof {
            assert(counts(math, 0, zero) && differs(math, one, cos, b1));
            assert(divides(math, b1, two, b0) && sums(math, one, alpha, a0));
            assert(differs(math, zero, two, minus_two) && multiplies(math, minus_two, cos, a1));
            assert(differs(math, one, alpha, a2));
        }
        c
    }
}

} // verus!
