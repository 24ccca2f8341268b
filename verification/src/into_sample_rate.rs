use crate::arithmetic::{
    advances, counts, differs, divides, equates, fractions, indexes, multiplies, starts, sums,
    Arithmetic,
};
use crate::dynamic_controls::{DynamicUsize, MaybeDynamic};
use crate::sample_stream::{complete, lemma_pulls_push, pulls, stops_at_end, SampleStream};
use vstd::arithmetic::div_mod::lemma_fundamental_div_mod_converse;
use vstd::prelude::*;

verus! {

/// The two rates of a conversion, as far as a converter needs them.
pub enum SampleRates<T> {
    /// Both rates are fixed; `scale` is the input rate over the output rate.
    Static { scale: T },
    /// The input rate is read from `from` for every sample; `to` is the output rate.
    Dynamic { from: DynamicUsize, to: T },
}

/// How a rate converter produces its samples.
pub enum RateStrategy {
    /// The rates agree and cannot change: every sample passes.
    Noop,
    /// One channel: each pull interpolates between two samples.
    SampleBased,
    /// Several channels: a pull on the first channel interpolates between two
    /// frames; the pulls on the other channels hand out the rest of the result.
    FrameBased,
}

impl<T: Copy> SampleRates<T> {
    /// The rates whose control, if they have one, can be read.
    pub open spec fn wf(&self) -> bool {
        match *self {
            SampleRates::Static { scale } => true,
            SampleRates::Dynamic { from, to } => from.wf(),
        }
    }

    /// Reading the input rate of `self` may give `from` and leave the rates
    /// as `after`. Fixed rates keep no input rate and give the sample for
    /// zero; rates with a control read the control.
    pub open spec fn rated<A: Arithmetic<Sample = T>>(&self, after: &Self, m: &A, from: T) -> bool {
        match *self {
            SampleRates::Static { scale } => *after == *self && counts(m, 0, from),
            SampleRates::Dynamic { from: control, to } => exists|rate: usize, read: DynamicUsize|
                {
                    &&& #[trigger] control.may_get(&read, rate)
                    &&& *after == (SampleRates::Dynamic { from: read, to })
                    &&& counts(m, rate, from)
                },
        }
    }

    /// `noop` on `self` may return `answer` and leave the rates as `after`:
    /// the input rate is read; fixed rates answer no, and rates with a
    /// control answer whether the input rate equals the output rate.
    pub open spec fn queries<A: Arithmetic<Sample = T>>(
        &self,
        after: &Self,
        m: &A,
        answer: (bool, T),
    ) -> bool {
        &&& self.rated(after, m, answer.1)
        &&& match *self {
            SampleRates::Static { scale } => !answer.0,
            SampleRates::Dynamic { from, to } => equates(m, answer.1, to, answer.0),
        }
    }

    /// `scale(from)` on `self` may return `scale`: the fixed scale, or
    /// `from` over the output rate.
    pub open spec fn scales<A: Arithmetic<Sample = T>>(&self, from: T, m: &A, scale: T) -> bool {
        match *self {
            SampleRates::Static { scale: fixed } => scale == fixed,
            SampleRates::Dynamic { from: control, to } => divides(m, from, to, scale),
        }
    }

    /// The input rate at this moment.
    pub fn rate<A: Arithmetic<Sample = T>>(&mut self, math: &A) -> (from: T)
        requires
            old(self).wf(),
        ensures
            final(self).wf(),
            old(self).rated(final(self), math, from),
    {
        match self {
            SampleRates::Static { .. } => math.from_count(0),
            SampleRates::Dynamic { from, to } => {
                let ghost before = *from;
                let rate = from.get();
                proof {
                    assert(before.may_get(from, rate));
                }
                math.from_count(rate)
            },
        }
    }

    /// Whether the input rate equals the output rate at this moment, and the
    /// input rate. Fixed rates never say that they are equal.
    pub fn noop<A: Arithmetic<Sample = T>>(&mut self, math: &A) -> (answer: (bool, T))
        requires
            old(self).wf(),
        ensures
            final(self).wf(),
            old(self).queries(final(self), math, answer),
    {
        let from = self.rate(math);
        let equal = match self {
            SampleRates::Static { .. } => false,
            SampleRates::Dynamic { to, .. } => math.same(from, *to),
        };
        (equal, from)
    }

    /// By how many input samples one output sample moves the position on.
    pub fn scale<A: Arithmetic<Sample = T>>(&self, from: T, math: &A) -> (scale: T)
        ensures
            self.scales(from, math, scale),
    {
        match self {
            SampleRates::Static { scale } => *scale,
            SampleRates::Dynamic { to, .. } => math.quotient(from, *to),
        }
    }
}

/// An input rate: a plain number, or a control that changes the pitch while
/// the stream plays.
pub trait IntoSampleRates<A: Arithmetic>: MaybeDynamic<usize> {
    /// Whether rates of this kind are fixed.
    open spec fn fixed() -> bool {
        false
    }

    /// `sample_rates(to)` on `self` may return `rates`.
    open spec fn becomes(self, to: usize, m: &A, rates: SampleRates<A::Sample>) -> bool {
        true
    }

    /// The rates of a conversion from this rate to the rate `to`.
    fn sample_rates(self, to: usize, math: &A) -> (rates: SampleRates<A::Sample>)
        requires
            self.ready(),
        ensures
            rates.wf(),
            rates is Static <==> Self::fixed(),
            self.becomes(to, math, rates),
    ;
}

impl<A: Arithmetic> IntoSampleRates<A> for usize {
    open spec fn fixed() -> bool {
        true
    }

    /// Fixed rates, with the scale `self / to`.
    open spec fn becomes(self, to: usize, m: &A, rates: SampleRates<A::Sample>) -> bool {
        &&& rates is Static
        &&& exists|from_rate: A::Sample, to_rate: A::Sample|
            {
                &&& #[trigger] counts(m, self, from_rate)
                &&& #[trigger] counts(m, to, to_rate)
                &&& divides(m, from_rate, to_rate, rates->scale)
            }
    }

    fn sample_rates(self, to: usize, math: &A) -> (rates: SampleRates<A::Sample>) {
        let from_rate = math.from_count(self);
        let to_rate = math.from_count(to);
        let scale = math.quotient(from_rate, to_rate);
        proof {
            assert(counts(math, self, from_rate) && counts(math, to, to_rate));
        }
        SampleRates::Static { scale }
    }
}

impl<A: Arithmetic> IntoSampleRates<A> for DynamicUsize {
    open spec fn fixed() -> bool {
        false
    }

    /// Rates that read this control on every sample, whatever cache time it had.
    open spec fn becomes(self, to: usize, m: &A, rates: SampleRates<A::Sample>) -> bool {
        &&& rates is Dynamic
        &&& self.with_cache_time(&rates->from, 0)
        &&& counts(m, to, rates->to)
    }

    fn sample_rates(self, to: usize, math: &A) -> (rates: SampleRates<A::Sample>) {
        SampleRates::Dynamic { from: DynamicUsize::set_cache_time(self, 0), to: math.from_count(to) }
    }
}

/// `out` is what interpolating between `before` and `after` may give at the
/// part `t` of the way: `before + t * (after - before)`.
pub open spec fn interpolates<A: Arithmetic>(
    m: &A,
    before: A::Sample,
    after: A::Sample,
    t: A::Sample,
    out: A::Sample,
) -> bool {
    exists|delta: A::Sample, part: A::Sample|
        {
            &&& #[trigger] differs(m, after, before, delta)
            &&& #[trigger] multiplies(m, t, delta, part)
            &&& sums(m, before, part, out)
        }
}

/// Interpolates between `before` and `after`.
pub fn interpolate<A: Arithmetic>(math: &A, before: A::Sample, after: A::Sample, t: A::Sample) -> (out:
    A::Sample)
    ensures
        interpolates(math, before, after, t, out),
{
    let delta = math.difference(after, before);
    let part = math.product(t, delta);
    let out = math.sum(before, part);
    proof {
        assert(differs(math, after, before, delta) && multiplies(math, t, delta, part));
    }
    out
}

/// How many samples, or frames, a converter whose newest one has the number
/// `after_index - 1` has to pull to hold the one with the number `index + 1`.
pub open spec fn needed(index: usize, after_index: usize) -> int {
    if index >= after_index {
        index - after_index + 1
    } else {
        0
    }
}

/// The two samples that a converter holds after the pulls `got`, the older
/// first: each sample found pushes the older of the two out; a pull that
/// finds nothing leaves the two exchanged.
pub open spec fn window<T>(before: T, after: T, got: Seq<Option<T>>) -> (T, T)
    decreases got.len(),
{
    if got.len() == 0 {
        (before, after)
    } else {
        let held = window(before, after, got.drop_last());
        match got.last() {
            Some(s) => (held.1, s),
            None => (held.1, held.0),
        }
    }
}

/// The two frames that a converter of `channels` channels holds after the
/// pulls `got`, the older first: the pull for the first channel exchanges
/// the two, and each sample found takes its channel's place in the newer.
pub open spec fn frames<T>(before: Seq<T>, after: Seq<T>, channels: int, got: Seq<Option<T>>) -> (
    Seq<T>,
    Seq<T>,
)
    decreases got.len(),
{
    if got.len() == 0 {
        (before, after)
    } else {
        let held = frames(before, after, channels, got.drop_last());
        let channel = (got.len() - 1) % channels;
        let turned = if channel == 0 {
            (held.1, held.0)
        } else {
            held
        };
        match got.last() {
            Some(s) => (turned.0, turned.1.update(channel, s)),
            None => turned,
        }
    }
}

/// The strategy of a converter: passing through where the rates are fixed
/// and agree, else by samples for one channel and by frames for more.
pub open spec fn rate_strategy(fixed_and_equal: bool, channels: usize) -> RateStrategy {
    if fixed_and_equal {
        RateStrategy::Noop
    } else if channels == 1 {
        RateStrategy::SampleBased
    } else {
        RateStrategy::FrameBased
    }
}

/// A frame of `channels` samples, each of them `sample`.
pub fn frame_of<T: Copy>(sample: T, channels: usize) -> (frame: Vec<T>)
    ensures
        frame@ == Seq::new(channels as nat, |i: int| sample),
{
    let mut frame = Vec::new();
    let mut i: usize = 0;
    while i < channels
        invariant
            i <= channels,
            frame@ == Seq::new(i as nat, |j: int| sample),
        decreases channels - i,
    {
        frame.push(sample);
        i += 1;
    }
    frame
}

/// Converts a stream from one sample rate to another by linear interpolation.
///
/// The first interpolation starts from silence, and the last part of a
/// sample at the end of the source is not handed out.
pub struct IntoSampleRate<S, A: Arithmetic> {
    pub sample_rates: SampleRates<A::Sample>,
    pub channels: usize,
    pub source: S,
    pub strategy: RateStrategy,
    /// The place in the source of the next output sample, or frame.
    pub position: A::Position,
    /// The number of samples, or frames, pulled from the source so far.
    pub after_index: usize,
    pub sample_before: A::Sample,
    pub sample_after: A::Sample,
    pub frame_before: Vec<A::Sample>,
    pub frame_after: Vec<A::Sample>,
    pub output_samples: Vec<A::Sample>,
    /// The channel of the next output sample, when converting frames.
    pub sample_count: usize,
    pub silence: A::Sample,
    pub math: A,
}

impl<S: SampleStream<A::Sample>, A: Arithmetic> IntoSampleRate<S, A> {
    /// What a pull never changes.
    pub open spec fn same_setup(&self, after: &Self) -> bool {
        &&& after.channels == self.channels
        &&& after.strategy == self.strategy
        &&& after.silence == self.silence
        &&& after.math == self.math
    }

    /// Passing through: the pull is the source's pull.
    pub open spec fn noop_step(&self, after: &Self, out: Option<A::Sample>) -> bool {
        &&& self.same_setup(after)
        &&& after.sample_rates == self.sample_rates
        &&& after.position == self.position
        &&& after.after_index == self.after_index
        &&& after.sample_before == self.sample_before
        &&& after.sample_after == self.sample_after
        &&& after.frame_before == self.frame_before
        &&& after.frame_after == self.frame_after
        &&& after.output_samples == self.output_samples
        &&& after.sample_count == self.sample_count
        &&& self.source.step(&after.source, out)
    }

    /// What a pull of one channel does once the input rate `from` is read
    /// and the position is split into `index` and `t`, with `got` pulled
    /// from the source.
    ///
    /// The converter pulls until it holds the samples `index` and
    /// `index + 1`, hands out what lies between them at `t`, and moves the
    /// position on by the scale. If the source ends before that, it hands
    /// out nothing and the position stays. A position beyond all indices
    /// ends the stream at once.
    pub open spec fn sampled(
        &self,
        after: &Self,
        from: A::Sample,
        index: usize,
        t: A::Sample,
        got: Seq<Option<A::Sample>>,
        out: Option<A::Sample>,
    ) -> bool {
        let n = needed(index, self.after_index);
        if index == usize::MAX {
            &&& got.len() == 0
            &&& out is None
            &&& after.position == self.position
            &&& after.after_index == self.after_index
            &&& after.sample_before == self.sample_before
            &&& after.sample_after == self.sample_after
        } else {
            &&& stops_at_end(got, n)
            &&& (after.sample_before, after.sample_after) == window(
                self.sample_before,
                self.sample_after,
                got,
            )
            &&& if complete(got, n) {
                &&& after.after_index == self.after_index + n
                &&& out is Some
                &&& interpolates(
                    &self.math,
                    after.sample_before,
                    after.sample_after,
                    t,
                    out.unwrap(),
                )
                &&& exists|scale: A::Sample| #[trigger]
                    after.sample_rates.scales(from, &self.math, scale) && advances(
                        &self.math,
                        self.position,
                        scale,
                        after.position,
                    )
            } else {
                &&& after.after_index == self.after_index + got.len() - 1
                &&& out is None
                &&& after.position == self.position
            }
        }
    }

    /// A pull of one channel.
    pub open spec fn sample_step(&self, after: &Self, out: Option<A::Sample>) -> bool {
        &&& self.same_setup(after)
        &&& after.frame_before == self.frame_before
        &&& after.frame_after == self.frame_after
        &&& after.output_samples == self.output_samples
        &&& after.sample_count == self.sample_count
        &&& exists|from: A::Sample, index: usize, t: A::Sample, got: Seq<Option<A::Sample>>|
            {
                &&& #[trigger] self.sample_rates.rated(&after.sample_rates, &self.math, from)
                &&& #[trigger] indexes(&self.math, self.position, index)
                &&& #[trigger] fractions(&self.math, self.position, t)
                &&& #[trigger] pulls(self.source, after.source, got)
                &&& self.sampled(after, from, index, t, got, out)
            }
    }

    /// What a pull on the first channel does once the input rate `from` is
    /// read and the position is split into `index` and `t`, with `got` pulled
    /// from the source.
    ///
    /// The converter pulls whole frames until it holds the frames `index`
    /// and `index + 1`, keeps what lies between them at `t` on each channel,
    /// hands out the first channel of that, and moves the position on by the
    /// scale. If the source ends before that, it hands out nothing and the
    /// position stays. A position beyond all indices ends the stream at once.
    pub open spec fn framed(
        &self,
        after: &Self,
        from: A::Sample,
        index: usize,
        t: A::Sample,
        got: Seq<Option<A::Sample>>,
        out: Option<A::Sample>,
    ) -> bool {
        let n = needed(index, self.after_index) * self.channels;
        if index == usize::MAX {
            &&& got.len() == 0
            &&& out is None
            &&& after.position == self.position
            &&& after.after_index == self.after_index
            &&& after.frame_before == self.frame_before
            &&& after.frame_after == self.frame_after
            &&& after.output_samples == self.output_samples
        } else {
            &&& stops_at_end(got, n)
            &&& (after.frame_before@, after.frame_after@) == frames(
                self.frame_before@,
                self.frame_after@,
                self.channels as int,
                got,
            )
            &&& if complete(got, n) {
                &&& after.after_index == self.after_index + needed(index, self.after_index)
                &&& after.output_samples@.len() == self.channels
                &&& forall|channel: int|
                    0 <= channel < self.channels ==> interpolates(
                        &self.math,
                        after.frame_before@[channel],
                        after.frame_after@[channel],
                        t,
                        #[trigger] after.output_samples@[channel],
                    )
                &&& out == Some(after.output_samples@[0])
                &&& exists|scale: A::Sample| #[trigger]
                    after.sample_rates.scales(from, &self.math, scale) && advances(
                        &self.math,
                        self.position,
                        scale,
                        after.position,
                    )
            } else {
                &&& after.after_index == self.after_index + (got.len() - 1) / (self.channels as int)
                &&& after.output_samples == self.output_samples
                &&& out is None
                &&& after.position == self.position
            }
        }
    }

    /// A pull of one of several channels: the input rate is read; on the
    /// first channel a frame is interpolated, on the others the sample kept
    /// for the channel is handed out.
    pub open spec fn frame_step(&self, after: &Self, out: Option<A::Sample>) -> bool {
        &&& self.same_setup(after)
        &&& after.sample_before == self.sample_before
        &&& after.sample_after == self.sample_after
        &&& after.sample_count == (self.sample_count + 1) % (self.channels as int)
        &&& exists|from: A::Sample| #[trigger]
            self.sample_rates.rated(&after.sample_rates, &self.math, from)
                && if self.sample_count != 0 {
                &&& after.source == self.source
                &&& after.position == self.position
                &&& after.after_index == self.after_index
                &&& after.frame_before == self.frame_before
                &&& after.frame_after == self.frame_after
                &&& after.output_samples == self.output_samples
                &&& out == Some(self.output_samples@[self.sample_count as int])
            } else {
                exists|index: usize, t: A::Sample, got: Seq<Option<A::Sample>>|
                    {
                        &&& #[trigger] indexes(&self.math, self.position, index)
                        &&& #[trigger] fractions(&self.math, self.position, t)
                        &&& #[trigger] pulls(self.source, after.source, got)
                        &&& self.framed(after, from, index, t, got, out)
                    }
            }
    }

    /// Whether a converter from the rate `from` to the rate `to` passes its
    /// source through: the rates are fixed and equal.
    pub open spec fn passes<R: IntoSampleRates<A>>(from: R, to: usize) -> bool {
        R::fixed() && forall|read: R, rate: usize| #[trigger] from.reads(&read, rate) ==> rate == to
    }

    /// A converter of `source`, which has `channels` channels, from the rate
    /// `from` to the rate `to`.
    ///
    /// The strategy is chosen here, once. The converter starts at the
    /// source's first sample, holding silence. Only a converter that passes
    /// its source through can do with a source of no channels.
    pub fn new<R: IntoSampleRates<A>>(
        from: R,
        to: usize,
        channels: usize,
        source: S,
        math: A,
    ) -> (converter: Self)
        requires
            from.ready(),
            source.ready(),
            channels > 0 || Self::passes(from, to),
        ensures
            converter.ready(),
            converter.channels == channels,
            converter.source == source,
            converter.math == math,
            exists|read: R, from_rate: usize| #[trigger]
                from.reads(&read, from_rate) && read.becomes(to, &math, converter.sample_rates)
                    && converter.strategy == rate_strategy(
                    converter.sample_rates is Static && from_rate == to,
                    channels,
                ),
            starts(&math, converter.position),
            converter.after_index == 0,
            converter.sample_count == 0,
            counts(&math, 0, converter.silence),
            converter.sample_before == converter.silence,
            converter.sample_after == converter.silence,
            converter.frame_before@ == Seq::new(channels as nat, |i: int| converter.silence),
            converter.frame_after@ == converter.frame_before@,
            converter.output_samples@ == converter.frame_before@,
    {
        let mut from = from;
        let from_rate = from.get();
        let sample_rates = from.sample_rates(to, &math);
        let fixed = match sample_rates {
            SampleRates::Static { .. } => true,
            SampleRates::Dynamic { .. } => false,
        };
        let strategy = if fixed && from_rate == to {
            RateStrategy::Noop
        } else if channels == 1 {
            RateStrategy::SampleBased
        } else {
            RateStrategy::FrameBased
        };
        let silence = math.from_count(0);
        let position = math.origin();
        let converter = Self {
            sample_rates,
            channels,
            source,
            strategy,
            position,
            after_index: 0,
            sample_before: silence,
            sample_after: silence,
            frame_before: frame_of(silence, channels),
            frame_after: frame_of(silence, channels),
            output_samples: frame_of(silence, channels),
            sample_count: 0,
            silence,
            math,
        };
        converter
    }

    /// A converter between fixed and equal rates changes nothing: what a
    /// run of pulls hands out is what the same run of pulls hands out of its
    /// source, sample by sample.
    pub proof fn lemma_equal_rates_pass_through(
        start: Self,
        end: Self,
        got: Seq<Option<A::Sample>>,
    )
        requires
            start.strategy is Noop,
            pulls(start, end, got),
        ensures
            pulls(start.source, end.source, got),
            start.same_setup(&end),
        decreases got.len(),
    {
        if got.len() > 0 {
            let mid = choose|mid: Self|
                pulls(start, mid, got.drop_last()) && #[trigger] mid.step(&end, got.last());
            Self::lemma_equal_rates_pass_through(start, mid, got.drop_last());
        }
    }

    fn noop(&mut self) -> (out: Option<A::Sample>)
        requires
            old(self).ready(),
        ensures
            final(self).ready(),
            old(self).noop_step(final(self), out),
    {
        self.source.next()
    }

    fn sample_based_linear_interpolation(&mut self) -> (out: Option<A::Sample>)
        requires
            old(self).ready(),
        ensures
            final(self).ready(),
            old(self).sample_step(final(self), out),
    {
        // The rate is read for every sample, so that a change is heard at once.
        let from = self.sample_rates.rate(&self.math);
        let index = self.math.index(self.position);
        let t = self.math.fraction(self.position);
        let ghost mut got = Seq::<Option<A::Sample>>::empty();
        let ghost n = needed(index, old(self).after_index);
        proof {
            assert(pulls(old(self).source, self.source, got));
            assert(indexes(&self.math, self.position, index));
            assert(fractions(&self.math, self.position, t));
        }
        if index == usize::MAX {
            return None;
        }
        while index >= self.after_index
            invariant
                self.ready(),
                old(self).same_setup(self),
                self.frame_before == old(self).frame_before,
                self.frame_after == old(self).frame_after,
                self.output_samples == old(self).output_samples,
                self.sample_count == old(self).sample_count,
                self.position == old(self).position,
                old(self).sample_rates.rated(&self.sample_rates, &self.math, from),
                indexes(&self.math, self.position, index),
                fractions(&self.math, self.position, t),
                index < usize::MAX,
                n == needed(index, old(self).after_index),
                pulls(old(self).source, self.source, got),
                got.len() <= n,
                forall|i: int| 0 <= i < got.len() ==> (#[trigger] got[i]) is Some,
                self.after_index == old(self).after_index + got.len(),
                (self.sample_before, self.sample_after) == window(
                    old(self).sample_before,
                    old(self).sample_after,
                    got,
                ),
            decreases index - self.after_index + 1,
        {
            let ghost before = self.source;
            let held = self.sample_before;
            self.sample_before = self.sample_after;
            self.sample_after = held;
            let pulled = self.source.next();
            proof {
                lemma_pulls_push(old(self).source, before, self.source, got, pulled);
                assert(got.push(pulled).drop_last() =~= got);
                got = got.push(pulled);
            }
            match pulled {
                Some(sample) => {
                    self.sample_after = sample;
                },
                None => {
                    return None;
                },
            }
            self.after_index += 1;
        }
        let sample = interpolate(&self.math, self.sample_before, self.sample_after, t);
        let scale = self.sample_rates.scale(from, &self.math);
        self.position = self.math.advance(self.position, scale);
        proof {
            assert(pulls(old(self).source, self.source, got));
        }
        Some(sample)
    }

    fn frame_based_linear_interpolation(&mut self) -> (out: Option<A::Sample>)
        requires
            old(self).ready(),
            old(self).strategy is FrameBased,
        ensures
            final(self).ready(),
            old(self).frame_step(final(self), out),
    {
        let channel = self.sample_count;
        self.sample_count = (self.sample_count + 1) % self.channels;
        // The rate is read for every sample, so that a change is heard at once.
        let from = self.sample_rates.rate(&self.math);
        if channel != 0 {
            let kept = self.output_samples[channel];
            return Some(kept);
        }
        let index = self.math.index(self.position);
        let t = self.math.fraction(self.position);
        let ghost mut got = Seq::<Option<A::Sample>>::empty();
        let ghost wanted = needed(index, old(self).after_index);
        let ghost n = wanted * self.channels;
        let ghost mut done: int = 0;
        proof {
            assert(pulls(old(self).source, self.source, got));
            assert(indexes(&self.math, self.position, index));
            assert(fractions(&self.math, self.position, t));
        }
        if index == usize::MAX {
            return None;
        }
        while index >= self.after_index
            invariant
                self.ready(),
                self.strategy is FrameBased,
                old(self).same_setup(self),
                self.sample_before == old(self).sample_before,
                self.sample_after == old(self).sample_after,
                self.output_samples == old(self).output_samples,
                self.sample_count == (old(self).sample_count + 1) % (self.channels as int),
                old(self).sample_count == 0,
                self.position == old(self).position,
                old(self).sample_rates.rated(&self.sample_rates, &self.math, from),
                indexes(&self.math, self.position, index),
                fractions(&self.math, self.position, t),
                index < usize::MAX,
                wanted == needed(index, old(self).after_index),
                n == wanted * self.channels,
                pulls(old(self).source, self.source, got),
                0 <= done <= wanted,
                got.len() == done * self.channels,
                forall|i: int| 0 <= i < got.len() ==> (#[trigger] got[i]) is Some,
                self.after_index == old(self).after_index + done,
                (self.frame_before@, self.frame_after@) == frames(
                    old(self).frame_before@,
                    old(self).frame_after@,
                    self.channels as int,
                    got,
                ),
            decreases index - self.after_index + 1,
        {
            std::mem::swap(&mut self.frame_before, &mut self.frame_after);
            let mut i: usize = 0;
            while i < self.channels
                invariant
                    self.ready(),
                    self.strategy is FrameBased,
                    old(self).same_setup(self),
                    self.sample_before == old(self).sample_before,
                    self.sample_after == old(self).sample_after,
                    self.output_samples == old(self).output_samples,
                    self.sample_count == (old(self).sample_count + 1) % (self.channels as int),
                    old(self).sample_count == 0,
                    self.position == old(self).position,
                    old(self).sample_rates.rated(&self.sample_rates, &self.math, from),
                    indexes(&self.math, self.position, index),
                    fractions(&self.math, self.position, t),
                    index < usize::MAX,
                    index >= self.after_index,
                    wanted == needed(index, old(self).after_index),
                    n == wanted * self.channels,
                    pulls(old(self).source, self.source, got),
                    0 <= done < wanted,
                    i <= self.channels,
                    got.len() == done * self.channels + i,
                    forall|j: int| 0 <= j < got.len() ==> (#[trigger] got[j]) is Some,
                    self.after_index == old(self).after_index + done,
                    ({
                        let held = frames(
                            old(self).frame_before@,
                            old(self).frame_after@,
                            self.channels as int,
                            got,
                        );
                        (self.frame_before@, self.frame_after@) == if i == 0 {
                            (held.1, held.0)
                        } else {
                            held
                        }
                    }),
                decreases self.channels - i,
            {
                let ghost before = self.source;
                let pulled = self.source.next();
                proof {
                    lemma_pulls_push(old(self).source, before, self.source, got, pulled);
                    assert(got.push(pulled).drop_last() =~= got);
                    lemma_fundamental_div_mod_converse(
                        got.len() as int,
                        self.channels as int,
                        done,
                        i as int,
                    );
                    lemma_run_fits(done, wanted, self.channels as int, i as int);
                    got = got.push(pulled);
                }
                match pulled {
                    Some(sample) => {
                        self.frame_after.set(i, sample);
                    },
                    None => {
                        return None;
                    },
                }
                i += 1;
            }
            self.after_index += 1;
            proof {
                assert((done + 1) * self.channels == done * self.channels + self.channels)
                    by (nonlinear_arith);
                done = done + 1;
            }
        }
        let mut i: usize = 0;
        while i < self.channels
            invariant
                self.ready(),
                self.strategy is FrameBased,
                old(self).same_setup(self),
                self.sample_before == old(self).sample_before,
                self.sample_after == old(self).sample_after,
                self.sample_count == (old(self).sample_count + 1) % (self.channels as int),
                old(self).sample_count == 0,
                self.position == old(self).position,
                old(self).sample_rates.rated(&self.sample_rates, &self.math, from),
                indexes(&self.math, self.position, index),
                fractions(&self.math, self.position, t),
                index < usize::MAX,
                wanted == needed(index, old(self).after_index),
                n == wanted * self.channels,
                pulls(old(self).source, self.source, got),
                done == wanted,
                got.len() == done * self.channels,
                forall|j: int| 0 <= j < got.len() ==> (#[trigger] got[j]) is Some,
                self.after_index == old(self).after_index + done,
                (self.frame_before@, self.frame_after@) == frames(
                    old(self).frame_before@,
                    old(self).frame_after@,
                    self.channels as int,
                    got,
                ),
                i <= self.channels,
                self.frame_before@.len() == self.channels,
                self.frame_after@.len() == self.channels,
                self.output_samples@.len() == self.channels,
                forall|channel: int|
                    0 <= channel < i ==> interpolates(
                        &self.math,
                        self.frame_before@[channel],
                        self.frame_after@[channel],
                        t,
                        #[trigger] self.output_samples@[channel],
                    ),
            decreases self.channels - i,
        {
            let value = interpolate(&self.math, self.frame_before[i], self.frame_after[i], t);
            self.output_samples.set(i, value);
            i += 1;
        }
        let scale = self.sample_rates.scale(from, &self.math);
        self.position = self.math.advance(self.position, scale);
        let first = self.output_samples[0];
        proof {
            assert(pulls(old(self).source, self.source, got));
        }
        Some(first)
    }
}

/// A run of `done` whole frames and `extra` more samples, one frame short
/// of `wanted` frames at least, still lacks a sample of those frames.
proof fn lemma_run_fits(done: int, wanted: int, channels: int, extra: int)
    requires
        0 <= done < wanted,
        0 <= extra < channels,
    ensures
        done * channels + extra < wanted * channels,
        done * channels >= 0,
{
    assert(done * channels + channels <= wanted * channels) by (nonlinear_arith)
        requires
            done + 1 <= wanted,
            channels > 0,
    ;
    assert(done * channels >= 0) by (nonlinear_arith)
        requires
            done >= 0,
            channels > 0,
    ;
}

impl<S: SampleStream<A::Sample>, A: Arithmetic> SampleStream<A::Sample> for IntoSampleRate<S, A> {
    open spec fn ready(&self) -> bool {
        &&& self.source.ready()
        &&& self.sample_rates.wf()
        &&& self.strategy is FrameBased ==> {
            &&& self.channels > 0
            &&& self.sample_count < self.channels
            &&& self.frame_before@.len() == self.channels
            &&& self.frame_after@.len() == self.channels
            &&& self.output_samples@.len() == self.channels
        }
    }

    open spec fn step(&self, after: &Self, out: Option<A::Sample>) -> bool {
        match self.strategy {
            RateStrategy::Noop => self.noop_step(after, out),
            RateStrategy::SampleBased => self.sample_step(after, out),
            RateStrategy::FrameBased => self.frame_step(after, out),
        }
    }

    fn next(&mut self) -> (out: Option<A::Sample>) {
        match self.strategy {
            RateStrategy::Noop => self.noop(),
            RateStrategy::SampleBased => self.sample_based_linear_interpolation(),
            RateStrategy::FrameBased => self.frame_based_linear_interpolation(),
        }
    }
}

} // verus!
