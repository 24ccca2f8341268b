use crate::arithmetic::{counts, differs, multiplies, sums, Arithmetic};
use crate::dynamic_controls::MaybeDynamic;
use crate::low_pass_coefficients::{minimum_sample_rate, row_of, LowPassCoefficients};
use crate::sample_stream::{pulls, SampleStream};
use vstd::prelude::*;
use vstd::wrapping::usize_specs::wrapping_add;

verus! {

/// For how many channels a filter keeps a history.
pub const MAX_CHANNELS: usize = 128;

/// `y` is what the filter with the coefficients `c` may hand out for the
/// sample `x` after the history `h`, which holds the two samples before
/// `x`, the newer first, and then what was handed out for them:
/// `c[0] * x + c[1] * h[0] + c[2] * h[1] - c[3] * h[2] - c[4] * h[3]`.
pub open spec fn filters<A: Arithmetic>(
    m: &A,
    c: [A::Sample; 5],
    x: A::Sample,
    h: [A::Sample; 4],
    y: A::Sample,
) -> bool {
    exists|
        now: A::Sample,
        once: A::Sample,
        twice: A::Sample,
        fed_once: A::Sample,
        fed_twice: A::Sample,
        two: A::Sample,
        three: A::Sample,
        four: A::Sample,
    |
        {
            &&& #[trigger] multiplies(m, c[0], x, now)
            &&& #[trigger] multiplies(m, c[1], h[0], once)
            &&& #[trigger] multiplies(m, c[2], h[1], twice)
            &&& #[trigger] multiplies(m, c[3], h[2], fed_once)
            &&& #[trigger] multiplies(m, c[4], h[3], fed_twice)
            &&& #[trigger] sums(m, now, once, two)
            &&& #[trigger] sums(m, two, twice, three)
            &&& #[trigger] differs(m, three, fed_once, four)
            &&& differs(m, four, fed_twice, y)
        }
}

/// Filters one sample.
pub fn filter<A: Arithmetic>(math: &A, c: &[A::Sample; 5], x: A::Sample, h: &[A::Sample; 4]) -> (y:
    A::Sample)
    ensures
        filters(math, *c, x, *h, y),
{
    let now = math.product(c[0], x);
    let once = math.product(c[1], h[0]);
    let twice = math.product(c[2], h[1]);
    let fed_once = math.product(c[3], h[2]);
    let fed_twice = math.product(c[4], h[3]);
    let two = math.sum(now, once);
    let three = math.sum(two, twice);
    let four = math.difference(three, fed_once);
    let y = math.difference(four, fed_twice);
    proof {
        assert(multiplies(math, c[0], x, now) && multiplies(math, c[1], h[0], once));
        assert(multiplies(math, c[2], h[1], twice) && multiplies(math, c[3], h[2], fed_once));
        assert(multiplies(math, c[4], h[3], fed_twice) && sums(math, now, once, two));
        assert(sums(math, two, twice, three) && differs(math, three, fed_once, four));
    }
    y
}

/// A second-order low-pass filter over a stream of any number of channels,
/// whose threshold frequency may change while the stream plays.
///
/// The coefficients are looked up, never worked out. Where the table has
/// none for the threshold, the samples pass as they are.
pub struct LowPassFilter<S, F, C, A: Arithmetic> {
    pub threshold_frequency: F,
    pub channels: C,
    pub source: S,
    pub coefficients: LowPassCoefficients<A::Sample>,
    /// The place of the stream's sample rate in the table.
    pub index: usize,
    /// The history of each channel.
    pub previous: Vec<[A::Sample; 4]>,
    /// The samples that went through the filter so far, wrapping round.
    pub counter: usize,
    /// The highest threshold frequency that the table has an entry for.
    pub max: usize,
    pub math: A,
}

impl<
    S: SampleStream<A::Sample>,
    F: MaybeDynamic<usize>,
    C: MaybeDynamic<usize>,
    A: Arithmetic,
> LowPassFilter<S, F, C, A> {
    /// The entries of the table for the stream's sample rate.
    pub open spec fn row(&self) -> Seq<Option<[A::Sample; 5]>> {
        self.coefficients.row(self.index as int)
    }

    /// The coefficients for the threshold `threshold`, if the table has any.
    pub open spec fn entry(&self, threshold: usize) -> Option<[A::Sample; 5]> {
        if threshold < self.row().len() {
            self.row()[threshold as int]
        } else {
            None
        }
    }

    /// The channel of the current sample in a stream of `width` channels,
    /// if the filter keeps a history for it.
    pub open spec fn slot(&self, width: usize) -> Option<int> {
        if width > 0 && self.counter % width < self.previous@.len() {
            Some((self.counter % width) as int)
        } else {
            None
        }
    }

    /// What a pull never changes.
    pub open spec fn same_setup(&self, after: &Self) -> bool {
        &&& after.coefficients == self.coefficients
        &&& after.index == self.index
        &&& after.max == self.max
        &&& after.math == self.math
    }

    /// The filter leaves its histories, its count and the channel control alone.
    pub open spec fn untouched(&self, after: &Self) -> bool {
        &&& after.channels == self.channels
        &&& after.previous == self.previous
        &&& after.counter == self.counter
    }

    /// What the filter does with the sample `sample` of the source once the
    /// threshold is read as `threshold`: the sample is counted. Without
    /// coefficients for the threshold it passes. With them the number of
    /// channels is read; the sample is filtered with the history of its
    /// channel, which then holds it and what was handed out for it. A sample
    /// on a channel without a history passes.
    pub open spec fn filtered(
        &self,
        after: &Self,
        threshold: usize,
        sample: A::Sample,
        out: A::Sample,
    ) -> bool {
        &&& after.counter == wrapping_add(self.counter, 1)
        &&& match self.entry(threshold) {
            None => {
                &&& out == sample
                &&& after.channels == self.channels
                &&& after.previous == self.previous
            },
            Some(c) => exists|width: usize| #[trigger]
                self.channels.reads(&after.channels, width) && match self.slot(width) {
                    None => out == sample && after.previous == self.previous,
                    Some(channel) => {
                        let h = self.previous@[channel];
                        &&& filters(&self.math, c, sample, h, out)
                        &&& after.previous@.len() == self.previous@.len()
                        &&& forall|other: int|
                            0 <= other < self.previous@.len() && other != channel
                                ==> #[trigger] after.previous@[other] == self.previous@[other]
                        &&& after.previous@[channel][0] == sample
                        &&& after.previous@[channel][1] == h[0]
                        &&& after.previous@[channel][2] == out
                        &&& after.previous@[channel][3] == h[2]
                    },
                },
        }
    }

    /// A filter of `source`, a stream at the rate `sample_rate`, which takes
    /// its coefficients from `coefficients`. The table has to hold the rate.
    pub fn new(
        threshold_frequency: F,
        channels: C,
        sample_rate: usize,
        source: S,
        coefficients: LowPassCoefficients<A::Sample>,
        math: A,
    ) -> (stream: Self)
        requires
            threshold_frequency.ready(),
            channels.ready(),
            source.ready(),
            coefficients.wf(),
            coefficients.rates().contains(sample_rate),
        ensures
            stream.ready(),
            stream.threshold_frequency == threshold_frequency,
            stream.channels == channels,
            stream.source == source,
            stream.coefficients == coefficients,
            stream.math == math,
            stream.index < coefficients.rates().len(),
            coefficients.rates()[stream.index as int] == sample_rate,
            forall|i: int| 0 <= i < stream.index ==> coefficients.rates()[i] != sample_rate,
            stream.max == stream.row().len() - 1,
            stream.counter == 0,
            stream.previous@.len() == MAX_CHANNELS,
            exists|zero: A::Sample| #[trigger]
                counts(&math, 0, zero) && forall|channel: int, i: int|
                    0 <= channel < MAX_CHANNELS && 0 <= i < 4 ==> #[trigger] stream.previous@[channel][i]
                        == zero,
    {
        let zero = math.from_count(0);
        let mut previous: Vec<[A::Sample; 4]> = Vec::new();
        let mut channel: usize = 0;
        while channel < MAX_CHANNELS
            invariant
                channel <= MAX_CHANNELS,
                previous@.len() == channel,
                forall|at: int, i: int|
                    0 <= at < channel && 0 <= i < 4 ==> #[trigger] previous@[at][i] == zero,
            decreases MAX_CHANNELS - channel,
        {
            previous.push([zero, zero, zero, zero]);
            channel += 1;
        }
        let index = coefficients.index_for_sample_rate(sample_rate);
        let max = coefficients.for_sample_rate_index(index).len() - 1;
        let stream = Self {
            threshold_frequency,
            channels,
            source,
            coefficients,
            index,
            max,
            previous,
            counter: 0,
            math,
        };
        proof {
            assert(counts(&stream.math, 0, zero));
        }
        stream
    }

    /// A sample that comes at a threshold for which the sample rate is
    /// under the minimum passes as it is, and leaves the histories alone.
    pub proof fn lemma_sample_passes_below_minimum_rate(
        self,
        after: Self,
        threshold: usize,
        sample: A::Sample,
        out: A::Sample,
        sample_rate: usize,
        max_threshold_frequency: usize,
    )
        requires
            row_of(&self.math, sample_rate, max_threshold_frequency, self.row()),
            sample_rate < minimum_sample_rate(threshold),
            self.filtered(&after, threshold, sample, out),
        ensures
            out == sample,
            after.previous == self.previous,
            after.channels == self.channels,
    {
        if threshold < self.row().len() {
            assert(self.row()[threshold as int] is None);
        }
    }
}

impl<S: SampleStream<A::Sample>, C: MaybeDynamic<usize>, A: Arithmetic> LowPassFilter<
    S,
    usize,
    C,
    A,
> {
    /// A filter whose threshold is a plain value for which the sample rate
    /// is under the minimum hands out the samples of its source as they
    /// are: each of its pulls is a pull of the source.
    pub proof fn lemma_passes_below_minimum_rate(
        self,
        after: Self,
        out: Option<A::Sample>,
        sample_rate: usize,
        max_threshold_frequency: usize,
    )
        requires
            row_of(&self.math, sample_rate, max_threshold_frequency, self.row()),
            sample_rate < minimum_sample_rate(self.threshold_frequency),
            self.step(&after, out),
        ensures
            self.source.step(&after.source, out),
            self.same_setup(&after),
            after.threshold_frequency == self.threshold_frequency,
    {
        let threshold = self.threshold_frequency;
        if threshold < self.row().len() {
            assert(self.row()[threshold as int] is None);
        }
        assert(self.entry(threshold) is None);
    }

    /// So it is for a whole run of pulls: what the filter hands out is
    /// what the source hands out, sample by sample.
    pub proof fn lemma_passes_every_sample_below_minimum_rate(
        start: Self,
        end: Self,
        got: Seq<Option<A::Sample>>,
        sample_rate: usize,
        max_threshold_frequency: usize,
    )
        requires
            row_of(&start.math, sample_rate, max_threshold_frequency, start.row()),
            sample_rate < minimum_sample_rate(start.threshold_frequency),
            pulls(start, end, got),
        ensures
            pulls(start.source, end.source, got),
            start.same_setup(&end),
            end.threshold_frequency == start.threshold_frequency,
        decreases got.len(),
    {
        if got.len() > 0 {
            let mid = choose|mid: Self|
                pulls(start, mid, got.drop_last()) && #[trigger] mid.step(&end, got.last());
            Self::lemma_passes_every_sample_below_minimum_rate(
                start,
                mid,
                got.drop_last(),
                sample_rate,
                max_threshold_frequency,
            );
            mid.lemma_passes_below_minimum_rate(
                end,
                got.last(),
                sample_rate,
                max_threshold_frequency,
            );
        }
    }
}

impl<
    S: SampleStream<A::Sample>,
    F: MaybeDynamic<usize>,
    C: MaybeDynamic<usize>,
    A: Arithmetic,
> SampleStream<A::Sample> for LowPassFilter<S, F, C, A> {
    open spec fn ready(&self) -> bool {
        &&& self.threshold_frequency.ready()
        &&& self.channels.ready()
        &&& self.source.ready()
        &&& self.index < self.coefficients.rates().len()
    }

    /// The threshold is read. At the table's highest threshold or above it
    /// the source's sample passes, and the filter stays as it is. Below it
    /// the source is pulled; for a sample the threshold is read once more
    /// and the sample filtered; without one the stream ends.
    open spec fn step(&self, after: &Self, out: Option<A::Sample>) -> bool {
        &&& self.same_setup(after)
        &&& exists|threshold: usize, read: F| #[trigger]
            self.threshold_frequency.reads(&read, threshold) && if threshold >= self.max {
                &&& after.threshold_frequency == read
                &&& self.untouched(after)
                &&& self.source.step(&after.source, out)
            } else {
                exists|pulled: Option<A::Sample>| #[trigger]
                    self.source.step(&after.source, pulled) && match pulled {
                        None => {
                            &&& out is None
                            &&& after.threshold_frequency == read
                            &&& self.untouched(after)
                        },
                        Some(sample) => {
                            &&& out is Some
                            &&& exists|again: usize| #[trigger]
                                read.reads(&after.threshold_frequency, again) && self.filtered(
                                    after,
                                    again,
                                    sample,
                                    out.unwrap(),
                                )
                        },
                    }
            }
    }

    fn next(&mut self) -> (out: Option<A::Sample>) {
        let threshold = self.threshold_frequency.get();
        let ghost read = self.threshold_frequency;
        if threshold >= self.max {
            return self.source.next();
        }
        let pulled = self.source.next();
        let sample = match pulled {
            Some(sample) => sample,
            None => {
                return None;
            },
        };
        let again = self.threshold_frequency.get();
        let scoped = self.coefficients.for_sample_rate_index(self.index);
        let entry = if again < scoped.len() {
            scoped[again]
        } else {
            None
        };
        let ghost mut seen: Option<usize> = None;
        let out = match entry {
            Some(c) => {
                let width = self.channels.get();
                proof {
                    seen = Some(width);
                }
                if width > 0 && self.counter % width < self.previous.len() {
                    let channel = self.counter % width;
                    let h = self.previous[channel];
                    let output = filter(&self.math, &c, sample, &h);
                    let history = [sample, h[0], output, h[2]];
                    self.previous.set(channel, history);
                    output
                } else {
                    sample
                }
            },
            None => sample,
        };
        self.counter = self.counter.wrapping_add(1);
        proof {
            if let Some(width) = seen {
                assert(old(self).channels.reads(&self.channels, width));
                if let Some(channel) = old(self).slot(width) {
                }
            }
            assert(read.reads(&self.threshold_frequency, again));
            assert(old(self).source.step(&self.source, pulled));
        }
        Some(out)
    }
}

} // verus!
