use crate::arithmetic::{counts, differs, lemma_totals_push, totals, Arithmetic};
use crate::sample_stream::{
    lemma_pulls_join, lemma_pulls_one, lemma_pulls_push, pulls, SampleStream,
};
use vstd::arithmetic::div_mod::{
    lemma_fundamental_div_mod, lemma_fundamental_div_mod_converse, lemma_mod_add_multiples_vanish,
    lemma_mod_bound, lemma_mod_self_0, lemma_small_mod,
};
use vstd::prelude::*;

verus! {

/// How a channel mapper turns frames of one width into frames of another.
pub enum ChannelStrategy {
    /// The widths agree: every sample passes.
    Noop,
    /// A single input channel is repeated on every output channel.
    Duplicate,
    /// All input channels are added into a single output channel.
    Combine,
    /// The input channels are followed by silent ones.
    Pad,
    /// The input channels beyond the output width are dropped.
    Discard,
}

/// The strategy for a stream of `from` channels that is to have `to` channels.
pub open spec fn strategy_for(from: usize, to: usize) -> ChannelStrategy {
    if from == to {
        ChannelStrategy::Noop
    } else if from == 1 {
        ChannelStrategy::Duplicate
    } else if to == 1 {
        ChannelStrategy::Combine
    } else if from < to {
        ChannelStrategy::Pad
    } else {
        ChannelStrategy::Discard
    }
}

/// A pulled sample, or silence where the source had none left.
pub open spec fn or_silence<T>(pulled: Option<T>, silence: T) -> T {
    match pulled {
        Some(s) => s,
        None => silence,
    }
}

/// The pulled samples, with silence where the source had none left.
pub open spec fn filled<T>(got: Seq<Option<T>>, silence: T) -> Seq<T> {
    Seq::new(got.len(), |i: int| or_silence(got[i], silence))
}

/// Converts a stream of `from` channels into one of `to` channels.
pub struct IntoChannels<S, A: Arithmetic> {
    pub from: usize,
    pub to: usize,
    pub source: S,
    pub strategy: ChannelStrategy,
    /// The channel that the next sample belongs to: an output channel when
    /// duplicating or padding, an input channel when discarding.
    pub counter: usize,
    /// The last sample pulled, while duplicating.
    pub previous: A::Sample,
    pub silence: A::Sample,
    pub math: A,
}

impl<S: SampleStream<A::Sample>, A: Arithmetic> IntoChannels<S, A> {
    /// What a pull never changes.
    pub open spec fn same_setup(&self, after: &Self) -> bool {
        &&& after.from == self.from
        &&& after.to == self.to
        &&& after.strategy == self.strategy
        &&& after.silence == self.silence
        &&& after.math == self.math
    }

    /// Passing through: the pull is the source's pull.
    pub open spec fn noop_step(&self, after: &Self, out: Option<A::Sample>) -> bool {
        &&& self.same_setup(after)
        &&& after.counter == self.counter
        &&& after.previous == self.previous
        &&& self.source.step(&after.source, out)
    }

    /// Duplicating: on the first output channel the source is pulled and the
    /// sample kept; on the others the kept sample is handed out again.
    pub open spec fn duplicate_step(&self, after: &Self, out: Option<A::Sample>) -> bool {
        &&& self.same_setup(after)
        &&& after.counter == (self.counter + 1) % (self.to as int)
        &&& if self.counter == 0 {
            &&& self.source.step(&after.source, out)
            &&& after.previous == or_silence(out, self.previous)
        } else {
            &&& after.source == self.source
            &&& after.previous == self.previous
            &&& out == Some(self.previous)
        }
    }

    /// The samples of one input frame as they were pulled, and what combining
    /// hands out for them: nothing if the source had nothing left at the start
    /// of the frame, else a total of the frame, with silence for each sample
    /// that the source no longer had.
    pub open spec fn combined(&self, got: Seq<Option<A::Sample>>, out: Option<A::Sample>) -> bool {
        &&& got.len() >= 1
        &&& if got[0] is None {
            got.len() == 1 && out is None
        } else {
            &&& got.len() == if self.from == 0 { 1 } else { self.from as int }
            &&& out is Some
            &&& totals(&self.math, filled(got, self.silence), out.unwrap())
        }
    }

    /// Combining: one input frame is pulled and added up.
    pub open spec fn combine_step(&self, after: &Self, out: Option<A::Sample>) -> bool {
        &&& self.same_setup(after)
        &&& after.counter == self.counter
        &&& after.previous == self.previous
        &&& exists|got: Seq<Option<A::Sample>>| #[trigger]
            pulls(self.source, after.source, got) && self.combined(got, out)
    }

    /// Padding: an input channel hands out the source's sample, or silence
    /// where the source ended inside the frame; the channels after them hand
    /// out silence. A source that ends between two frames ends the stream.
    pub open spec fn pad_step(&self, after: &Self, out: Option<A::Sample>) -> bool {
        &&& self.same_setup(after)
        &&& after.counter == (self.counter + 1) % (self.to as int)
        &&& after.previous == self.previous
        &&& if self.counter < self.from {
            exists|pulled: Option<A::Sample>| #[trigger]
                self.source.step(&after.source, pulled) && out == if pulled is None
                    && self.counter != 0 {
                    Some(self.silence)
                } else {
                    pulled
                }
        } else {
            &&& after.source == self.source
            &&& out == Some(self.silence)
        }
    }

    /// How often discarding pulls the source for one output sample: once on
    /// a channel that is kept, else to the end of the frame and once more.
    pub open spec fn discard_pulls(&self) -> int {
        if self.counter < self.to {
            1
        } else {
            self.from - self.counter + 1
        }
    }

    /// Discarding: the source is pulled up to the next channel that is kept,
    /// and that channel's sample handed out.
    pub open spec fn discard_step(&self, after: &Self, out: Option<A::Sample>) -> bool {
        &&& self.same_setup(after)
        &&& after.counter == (self.counter + self.discard_pulls()) % (self.from as int)
        &&& after.previous == self.previous
        &&& exists|got: Seq<Option<A::Sample>>| #[trigger]
            pulls(self.source, after.source, got) && got.len() == self.discard_pulls() && out
                == got.last()
    }

    /// A mapper for a `source` of `from` channels whose output has `to` channels.
    ///
    /// The strategy is chosen here, once. No mapper has zero output channels,
    /// unless its source has none either.
    pub fn new(from: usize, to: usize, source: S, math: A) -> (mapper: Self)
        requires
            from == to || to > 0,
            source.ready(),
        ensures
            mapper.ready(),
            mapper.from == from,
            mapper.to == to,
            mapper.source == source,
            mapper.math == math,
            mapper.strategy == strategy_for(from, to),
            mapper.counter == 0,
            counts(&math, 0, mapper.silence),
            exists|one: A::Sample| #[trigger]
                counts(&math, 1, one) && differs(&math, mapper.silence, one, mapper.previous),
    {
        let strategy = if from == to {
            ChannelStrategy::Noop
        } else if from == 1 {
            ChannelStrategy::Duplicate
        } else if to == 1 {
            ChannelStrategy::Combine
        } else if from < to {
            ChannelStrategy::Pad
        } else {
            ChannelStrategy::Discard
        };
        let silence = math.from_count(0);
        let one = math.from_count(1);
        let previous = math.difference(silence, one);
        proof {
            assert(counts(&math, 1, one) && differs(&math, silence, one, previous));
        }
        Self { from, to, source, strategy, counter: 0, previous, silence, math }
    }

    /// A mapper between equal numbers of channels, whatever the number,
    /// changes nothing: what a run of pulls hands out is what the same run
    /// of pulls hands out of its source, sample by sample.
    pub proof fn lemma_equal_widths_pass_through(
        start: Self,
        end: Self,
        got: Seq<Option<A::Sample>>,
    )
        requires
            start.ready(),
            start.from == start.to,
            pulls(start, end, got),
        ensures
            pulls(start.source, end.source, got),
            start.same_setup(&end),
        decreases got.len(),
    {
        if got.len() > 0 {
            let mid = choose|mid: Self|
                pulls(start, mid, got.drop_last()) && #[trigger] mid.step(&end, got.last());
            Self::lemma_equal_widths_pass_through(start, mid, got.drop_last());
        }
    }

    /// A mapper that duplicates or pads finishes every frame that it has
    /// begun: from inside a frame, each pull up to the end of the frame
    /// hands out a sample, whether or not the source has ended.
    pub proof fn lemma_frames_are_finished(start: Self, end: Self, got: Seq<Option<A::Sample>>)
        requires
            start.ready(),
            start.strategy is Duplicate || start.strategy is Pad,
            start.counter > 0,
            got.len() <= start.to - start.counter,
            pulls(start, end, got),
        ensures
            forall|i: int| 0 <= i < got.len() ==> (#[trigger] got[i]) is Some,
            end.counter == (start.counter + got.len()) % (start.to as int),
            start.same_setup(&end),
        decreases got.len(),
    {
        if got.len() == 0 {
            lemma_small_mod(start.counter as nat, start.to as nat);
        } else {
            let mid = choose|mid: Self|
                pulls(start, mid, got.drop_last()) && #[trigger] mid.step(&end, got.last());
            Self::lemma_frames_are_finished(start, mid, got.drop_last());
            lemma_small_mod((start.counter + got.len() - 1) as nat, start.to as nat);
            assert forall|i: int| 0 <= i < got.len() implies (#[trigger] got[i]) is Some by {
                if i < got.len() - 1 {
                    assert(got[i] == got.drop_last()[i]);
                }
            }
        }
    }

    fn noop(&mut self) -> (out: Option<A::Sample>)
        requires
            old(self).ready(),
        ensures
            final(self).ready(),
            old(self).noop_step(final(self), out),
    {
        self.source.next()
    }

    fn duplicate(&mut self) -> (out: Option<A::Sample>)
        requires
            old(self).ready(),
            old(self).strategy is Duplicate,
        ensures
            final(self).ready(),
            old(self).duplicate_step(final(self), out),
    {
        let sample = if self.counter == 0 {
            let pulled = self.source.next();
            if let Some(s) = pulled {
                self.previous = s;
            }
            pulled
        } else {
            Some(self.previous)
        };
        self.counter = (self.counter + 1) % self.to;
        sample
    }

    fn combine(&mut self) -> (out: Option<A::Sample>)
        requires
            old(self).ready(),
            old(self).strategy is Combine,
        ensures
            final(self).ready(),
            old(self).combine_step(final(self), out),
    {
        let first = self.source.next();
        proof {
            lemma_pulls_one(old(self).source, self.source, first);
        }
        let mut sum = match first {
            Some(s) => s,
            None => {
                return None;
            },
        };
        let ghost mut got = seq![first];
        let ghost mut terms = seq![sum];
        let mut i: usize = 1;
        while i < self.from
            invariant
                self.ready(),
                old(self).same_setup(self),
                self.counter == old(self).counter,
                self.previous == old(self).previous,
                1 <= i,
                self.from == 0 ==> i == 1,
                self.from > 0 ==> i <= self.from,
                got.len() == i,
                got[0] is Some,
                pulls(old(self).source, self.source, got),
                terms == filled(got, self.silence),
                totals(&self.math, terms, sum),
            decreases self.from - i,
        {
            let ghost before = self.source;
            let pulled = self.source.next();
            let term = match pulled {
                Some(s) => s,
                None => self.silence,
            };
            let total = self.math.sum(sum, term);
            proof {
                lemma_pulls_push(old(self).source, before, self.source, got, pulled);
                lemma_totals_push(&self.math, terms, sum, term, total);
                got = got.push(pulled);
                terms = terms.push(term);
            }
            sum = total;
            i += 1;
        }
        Some(sum)
    }

    fn pad(&mut self) -> (out: Option<A::Sample>)
        requires
            old(self).ready(),
            old(self).strategy is Pad,
        ensures
            final(self).ready(),
            old(self).pad_step(final(self), out),
    {
        let ghost mut witness = None;
        let sample = if self.counter < self.from {
            let pulled = self.source.next();
            proof {
                witness = pulled;
            }
            if pulled.is_none() && self.counter != 0 {
                Some(self.silence)
            } else {
                pulled
            }
        } else {
            Some(self.silence)
        };
        self.counter = (self.counter + 1) % self.to;
        proof {
            if old(self).counter < self.from {
                assert(old(self).source.step(&self.source, witness));
            }
        }
        sample
    }

    fn discard(&mut self) -> (out: Option<A::Sample>)
        requires
            old(self).ready(),
            old(self).strategy is Discard,
        ensures
            final(self).ready(),
            old(self).discard_step(final(self), out),
    {
        let ghost mut got = Seq::<Option<A::Sample>>::empty();
        let ghost start = old(self).counter;
        loop
            invariant
                self.ready(),
                old(self).same_setup(self),
                self.strategy is Discard,
                self.previous == old(self).previous,
                start == old(self).counter,
                pulls(old(self).source, self.source, got),
                got.len() == 0 ==> self.counter == start,
                got.len() > 0 ==> start >= self.to && start + got.len() <= self.from
                    && self.counter == if start + got.len() == self.from {
                    0
                } else {
                    start + got.len()
                },
            decreases self.from - got.len(),
        {
            let ghost before = self.source;
            let sample = self.source.next();
            let keep = self.counter < self.to;
            proof {
                lemma_pulls_push(old(self).source, before, self.source, got, sample);
                got = got.push(sample);
                if self.counter + 1 == self.from {
                    lemma_mod_self_0(self.from as int);
                } else {
                    lemma_small_mod((self.counter + 1) as nat, self.from as nat);
                }
                if keep && start >= self.to {
                    lemma_mod_add_multiples_vanish(1, self.from as int);
                }
            }
            self.counter = (self.counter + 1) % self.from;
            if keep {
                proof {
                    assert(pulls(old(self).source, self.source, got));
                }
                return sample;
            }
        }
    }
}

impl<S: SampleStream<A::Sample>, A: Arithmetic> SampleStream<A::Sample> for IntoChannels<S, A> {
    open spec fn ready(&self) -> bool {
        &&& self.source.ready()
        &&& self.from == self.to || self.to > 0
        &&& self.strategy == strategy_for(self.from, self.to)
        &&& self.strategy is Duplicate || self.strategy is Pad ==> self.counter < self.to
        &&& self.strategy is Discard ==> self.counter < self.from
    }

    open spec fn step(&self, after: &Self, out: Option<A::Sample>) -> bool {
        match self.strategy {
            ChannelStrategy::Noop => self.noop_step(after, out),
            ChannelStrategy::Duplicate => self.duplicate_step(after, out),
            ChannelStrategy::Combine => self.combine_step(after, out),
            ChannelStrategy::Pad => self.pad_step(after, out),
            ChannelStrategy::Discard => self.discard_step(after, out),
        }
    }

    fn next(&mut self) -> (out: Option<A::Sample>) {
        match self.strategy {
            ChannelStrategy::Noop => self.noop(),
            ChannelStrategy::Duplicate => self.duplicate(),
            ChannelStrategy::Combine => self.combine(),
            ChannelStrategy::Pad => self.pad(),
            ChannelStrategy::Discard => self.discard(),
        }
    }
}

/// The place after the place `m`, in frames of `width` places: the next
/// place of the same frame, or the first place of the next frame.
pub proof fn lemma_next_place(m: int, width: int)
    requires
        m >= 0,
        width > 0,
    ensures
        0 <= m % width < width,
        m % width + 1 < width ==> (m + 1) % width == m % width + 1 && (m + 1) / width == m / width,
        m % width + 1 == width ==> (m + 1) % width == 0 && (m + 1) / width == m / width + 1,
{
    lemma_fundamental_div_mod(m, width);
    lemma_mod_bound(m, width);
    let q = m / width;
    let r = m % width;
    assert(width * q == q * width) by (nonlinear_arith);
    if r + 1 < width {
        lemma_fundamental_div_mod_converse(m + 1, width, q, r + 1);
    } else {
        assert((q + 1) * width == q * width + width) by (nonlinear_arith);
        lemma_fundamental_div_mod_converse(m + 1, width, q + 1, 0);
    }
}

/// How many samples of its source a mapper that pads has pulled after
/// `n` output samples: `from` for each whole output frame, and one for each
/// input channel of the frame it is in.
pub open spec fn padding_takes(from: int, to: int, n: int) -> int {
    n / to * from + if n % to < from {
        n % to
    } else {
        from
    }
}

/// How many samples of its source a mapper that discards has pulled after
/// `n` output samples: all up to the one that it handed out last.
pub open spec fn discarding_takes(from: int, to: int, n: int) -> int {
    if n == 0 {
        0
    } else {
        (n - 1) / to * from + (n - 1) % to + 1
    }
}

/// How many samples of its source a mapper that duplicates has pulled
/// after `n` output samples: one for each output frame that it has begun.
pub open spec fn duplicating_takes(to: int, n: int) -> int {
    if n == 0 {
        0
    } else {
        (n - 1) / to + 1
    }
}

impl<S: SampleStream<A::Sample>, A: Arithmetic> IntoChannels<S, A> {
    /// What a mapper that pads hands out, from the start of a frame on: the
    /// output sample `i` is on the channel `i % to` of the frame `i / to`.
    /// On an input channel it is that channel's sample of the source's frame
    /// of the same number, or silence where the source has ended inside the
    /// frame; on the channels after them it is silence. The source is
    /// pulled for nothing else.
    pub proof fn lemma_padding_keeps_the_frames(
        start: Self,
        end: Self,
        got: Seq<Option<A::Sample>>,
    ) -> (taken: Seq<Option<A::Sample>>)
        requires
            start.ready(),
            start.strategy is Pad,
            start.counter == 0,
            pulls(start, end, got),
        ensures
            start.same_setup(&end),
            end.counter == (got.len() as int) % (start.to as int),
            pulls(start.source, end.source, taken),
            taken.len() == padding_takes(start.from as int, start.to as int, got.len() as int),
            forall|i: int|
                0 <= i < got.len() ==> #[trigger] got[i] == {
                    let channel = i % (start.to as int);
                    let at = i / (start.to as int) * start.from + channel;
                    if channel >= start.from {
                        Some(start.silence)
                    } else if channel > 0 && taken[at] is None {
                        Some(start.silence)
                    } else {
                        taken[at]
                    }
                },
        decreases got.len(),
    {
        let from = start.from as int;
        let to = start.to as int;
        if got.len() == 0 {
            lemma_small_mod(0, to as nat);
            assert(0int / to == 0) by (nonlinear_arith)
                requires
                    to > 0,
            ;
            assert(0int * from == 0);
            Seq::empty()
        } else {
            let mid = choose|mid: Self|
                pulls(start, mid, got.drop_last()) && #[trigger] mid.step(&end, got.last());
            let before = Self::lemma_padding_keeps_the_frames(start, mid, got.drop_last());
            let m = got.len() - 1;
            lemma_next_place(m, to);
            let channel = m % to;
            if channel + 1 < to {
                lemma_small_mod((channel + 1) as nat, to as nat);
            } else {
                lemma_mod_self_0(to);
            }
            assert((m / to + 1) * from == m / to * from + from) by (nonlinear_arith);
            let taken = if channel < from {
                let pulled = choose|pulled: Option<A::Sample>| #[trigger]
                    mid.source.step(&end.source, pulled) && got.last() == if pulled is None
                        && mid.counter != 0 {
                        Some(mid.silence)
                    } else {
                        pulled
                    };
                lemma_pulls_push(start.source, mid.source, end.source, before, pulled);
                before.push(pulled)
            } else {
                before
            };
            assert forall|i: int| 0 <= i < got.len() implies #[trigger] got[i] == {
                let channel = i % to;
                let at = i / to * from + channel;
                if channel >= from {
                    Some(start.silence)
                } else if channel > 0 && taken[at] is None {
                    Some(start.silence)
                } else {
                    taken[at]
                }
            } by {
                if i < m {
                    assert(got[i] == got.drop_last()[i]);
                    if i % to < from {
                        lemma_place_is_taken(from, to, i, m);
                        assert(taken[i / to * from + i % to] == before[i / to * from + i % to]);
                    }
                }
            }
            taken
        }
    }
}

/// The sample that the output sample `i` of a mapper that pads shows, where
/// it shows one, is pulled before the output sample `m` after it is begun.
pub proof fn lemma_place_is_taken(from: int, to: int, i: int, m: int)
    requires
        0 <= from < to,
        0 <= i < m,
        i % to < from,
    ensures
        0 <= i / to * from + i % to < padding_takes(from, to, m),
{
    lemma_fundamental_div_mod(i, to);
    lemma_fundamental_div_mod(m, to);
    lemma_mod_bound(i, to);
    lemma_mod_bound(m, to);
    let qi = i / to;
    let qm = m / to;
    assert(to * qi == qi * to && to * qm == qm * to) by (nonlinear_arith);
    assert(qi >= 0 && qm >= 0) by (nonlinear_arith)
        requires
            i >= 0,
            m >= 0,
            to > 0,
            i == qi * to + i % to,
            m == qm * to + m % to,
            0 <= i % to < to,
            0 <= m % to < to,
    ;
    assert(qi <= qm) by (nonlinear_arith)
        requires
            i < m,
            to > 0,
            i == qi * to + i % to,
            m == qm * to + m % to,
            0 <= i % to < to,
            0 <= m % to < to,
    ;
    assert(qi * from >= 0) by (nonlinear_arith)
        requires
            qi >= 0,
            from >= 0,
    ;
    if qi < qm {
        assert(qi * from + from <= qm * from) by (nonlinear_arith)
            requires
                qi + 1 <= qm,
                from >= 0,
        ;
    } else {
        assert(i % to < m % to);
    }
}

impl<S: SampleStream<A::Sample>, A: Arithmetic> IntoChannels<S, A> {
    /// What a mapper that discards hands out, from the start of a frame
    /// on: the output sample `i` is the sample of the channel `i % to` of
    /// the source's frame `i / to`, and nothing if the source has ended
    /// there. The samples of the source's other channels are pulled and
    /// dropped, each when the first sample after it is asked for.
    pub proof fn lemma_discarding_keeps_the_first_channels(
        start: Self,
        end: Self,
        got: Seq<Option<A::Sample>>,
    ) -> (taken: Seq<Option<A::Sample>>)
        requires
            start.ready(),
            start.strategy is Discard,
            start.counter == 0,
            pulls(start, end, got),
        ensures
            start.same_setup(&end),
            end.counter == if got.len() == 0 {
                0
            } else {
                (got.len() - 1) % (start.to as int) + 1
            },
            pulls(start.source, end.source, taken),
            taken.len() == discarding_takes(start.from as int, start.to as int, got.len() as int),
            forall|i: int|
                0 <= i < got.len() ==> #[trigger] got[i] == taken[i / (start.to as int) * start.from
                    + i % (start.to as int)],
        decreases got.len(),
    {
        let from = start.from as int;
        let to = start.to as int;
        if got.len() == 0 {
            Seq::empty()
        } else {
            let mid = choose|mid: Self|
                pulls(start, mid, got.drop_last()) && #[trigger] mid.step(&end, got.last());
            let before = Self::lemma_discarding_keeps_the_first_channels(
                start,
                mid,
                got.drop_last(),
            );
            let m = got.len() - 1;
            let more = choose|more: Seq<Option<A::Sample>>| #[trigger]
                pulls(mid.source, end.source, more) && more.len() == mid.discard_pulls()
                    && got.last() == more.last();
            lemma_pulls_join(start.source, mid.source, end.source, before, more);
            let taken = before + more;
            lemma_mod_bound(m, to);
            if m == 0 {
                lemma_small_mod(0, to as nat);
                lemma_small_mod(1, from as nat);
                assert(0int / to == 0) by (nonlinear_arith)
                    requires
                        to > 0,
                ;
                assert(0int * from == 0);
            } else {
                lemma_next_place(m - 1, to);
                assert(((m - 1) / to + 1) * from == (m - 1) / to * from + from)
                    by (nonlinear_arith);
                if mid.counter < to {
                    lemma_small_mod((mid.counter + 1) as nat, from as nat);
                } else {
                    lemma_mod_add_multiples_vanish(1, from);
                    lemma_small_mod(1, from as nat);
                }
            }
            assert forall|i: int| 0 <= i < got.len() implies #[trigger] got[i] == taken[i / to
                * from + i % to] by {
                if i < m {
                    assert(got[i] == got.drop_last()[i]);
                    lemma_places_rise(from, to, i, m - 1);
                    assert(taken[i / to * from + i % to] == before[i / to * from + i % to]);
                }
            }
            taken
        }
    }

    /// What a mapper that duplicates hands out, from the start of a frame
    /// on and as long as the source has a sample for every frame: each
    /// sample of the source, on every channel of the frame of its number.
    /// The source is pulled once for each frame, when the frame begins.
    pub proof fn lemma_duplicating_repeats_each_sample(
        start: Self,
        end: Self,
        got: Seq<Option<A::Sample>>,
    ) -> (taken: Seq<Option<A::Sample>>)
        requires
            start.ready(),
            start.strategy is Duplicate,
            start.counter == 0,
            pulls(start, end, got),
            forall|i: int| 0 <= i < got.len() && i % (start.to as int) == 0 ==> (#[trigger] got[i]) is Some,
        ensures
            start.same_setup(&end),
            end.counter == (got.len() as int) % (start.to as int),
            pulls(start.source, end.source, taken),
            taken.len() == duplicating_takes(start.to as int, got.len() as int),
            forall|i: int| 0 <= i < got.len() ==> #[trigger] got[i] == taken[i / (start.to as int)],
            got.len() > 0 ==> taken.last() == Some(end.previous),
        decreases got.len(),
    {
        let to = start.to as int;
        if got.len() == 0 {
            lemma_small_mod(0, to as nat);
            Seq::empty()
        } else {
            let mid = choose|mid: Self|
                pulls(start, mid, got.drop_last()) && #[trigger] mid.step(&end, got.last());
            assert forall|i: int|
                0 <= i < got.drop_last().len() && i % to == 0 implies (#[trigger] got.drop_last()[i]) is Some by {
                assert(got.drop_last()[i] == got[i]);
            }
            let before = Self::lemma_duplicating_repeats_each_sample(start, mid, got.drop_last());
            let m = got.len() - 1;
            lemma_next_place(m, to);
            if m % to + 1 < to {
                lemma_small_mod((m % to + 1) as nat, to as nat);
            } else {
                lemma_mod_self_0(to);
            }
            if m > 0 {
                lemma_next_place(m - 1, to);
            } else {
                assert(0int / to == 0) by (nonlinear_arith)
                    requires
                        to > 0,
                ;
            }
            let taken = if m % to == 0 {
                assert(got[m] is Some);
                lemma_pulls_push(start.source, mid.source, end.source, before, got.last());
                before.push(got.last())
            } else {
                before
            };
            assert forall|i: int| 0 <= i < got.len() implies #[trigger] got[i] == taken[i / to] by {
                if i < m {
                    assert(got[i] == got.drop_last()[i]);
                    lemma_frames_rise(to, i, m - 1);
                    assert(taken[i / to] == before[i / to]);
                }
            }
            taken
        }
    }
}

/// Of two output samples the later is not of an earlier frame.
pub proof fn lemma_frames_rise(to: int, i: int, j: int)
    requires
        0 < to,
        0 <= i <= j,
    ensures
        0 <= i / to <= j / to,
{
    lemma_fundamental_div_mod(i, to);
    lemma_fundamental_div_mod(j, to);
    lemma_mod_bound(i, to);
    lemma_mod_bound(j, to);
    let qi = i / to;
    let qj = j / to;
    assert(to * qi == qi * to && to * qj == qj * to) by (nonlinear_arith);
    assert(0 <= qi <= qj) by (nonlinear_arith)
        requires
            0 <= i <= j,
            to > 0,
            i == qi * to + i % to,
            j == qj * to + j % to,
            0 <= i % to < to,
            0 <= j % to < to,
    ;
}

/// Of two output samples of a mapper that discards, the later shows a
/// sample of the source that is not earlier.
pub proof fn lemma_places_rise(from: int, to: int, i: int, j: int)
    requires
        0 < to <= from,
        0 <= i <= j,
    ensures
        0 <= i / to * from + i % to <= j / to * from + j % to,
{
    lemma_frames_rise(to, i, j);
    lemma_fundamental_div_mod(i, to);
    lemma_fundamental_div_mod(j, to);
    lemma_mod_bound(i, to);
    lemma_mod_bound(j, to);
    let qi = i / to;
    let qj = j / to;
    assert(to * qi == qi * to && to * qj == qj * to) by (nonlinear_arith);
    assert(qi * from >= 0) by (nonlinear_arith)
        requires
            qi >= 0,
            from >= 0,
    ;
    if qi < qj {
        assert(qi * from + from <= qj * from) by (nonlinear_arith)
            requires
                qi + 1 <= qj,
                from >= 0,
        ;
    }
}

/// The number of samples in a frame of a source of `from` channels, as a
/// mapper that combines pulls it: a source of no channels gives one sample.
pub open spec fn combined_width(from: usize) -> int {
    if from == 0 {
        1
    } else {
        from as int
    }
}

impl<S: SampleStream<A::Sample>, A: Arithmetic> IntoChannels<S, A> {
    /// What a mapper that combines hands out as long as it has not ended:
    /// the output sample `k` is a total of the source's frame `k`, with
    /// silence for the samples that the source no longer had, and the frame
    /// begins with a sample. The source is pulled for whole frames only.
    pub proof fn lemma_combining_adds_up_each_frame(
        start: Self,
        end: Self,
        got: Seq<Option<A::Sample>>,
    ) -> (taken: Seq<Option<A::Sample>>)
        requires
            start.ready(),
            start.strategy is Combine,
            pulls(start, end, got),
            forall|k: int| 0 <= k < got.len() ==> (#[trigger] got[k]) is Some,
        ensures
            start.same_setup(&end),
            pulls(start.source, end.source, taken),
            taken.len() == got.len() * combined_width(start.from),
            forall|k: int|
                0 <= k < got.len() ==> {
                    let width = combined_width(start.from);
                    let frame = taken.subrange(k * width, k * width + width);
                    &&& frame[0] is Some
                    &&& totals(&start.math, filled(frame, start.silence), (#[trigger] got[k]).unwrap())
                },
        decreases got.len(),
    {
        let width = combined_width(start.from);
        if got.len() == 0 {
            assert(0 * width == 0);
            Seq::empty()
        } else {
            let mid = choose|mid: Self|
                pulls(start, mid, got.drop_last()) && #[trigger] mid.step(&end, got.last());
            assert forall|k: int| 0 <= k < got.drop_last().len() implies (
            #[trigger] got.drop_last()[k]) is Some by {
                assert(got.drop_last()[k] == got[k]);
            }
            let before = Self::lemma_combining_adds_up_each_frame(start, mid, got.drop_last());
            let m = got.len() - 1;
            assert(got[m] is Some);
            let more = choose|more: Seq<Option<A::Sample>>| #[trigger]
                pulls(mid.source, end.source, more) && mid.combined(more, got.last());
            lemma_pulls_join(start.source, mid.source, end.source, before, more);
            let taken = before + more;
            assert((m + 1) * width == m * width + width) by (nonlinear_arith);
            assert forall|k: int| 0 <= k < got.len() implies {
                let frame = taken.subrange(k * width, k * width + width);
                &&& frame[0] is Some
                &&& totals(&start.math, filled(frame, start.silence), (#[trigger] got[k]).unwrap())
            } by {
                if k < m {
                    assert(got[k] == got.drop_last()[k]);
                    assert(0 <= k * width && k * width + width <= m * width) by (nonlinear_arith)
                        requires
                            0 <= k < m,
                            width > 0,
                    ;
                    assert(taken.subrange(k * width, k * width + width) =~= before.subrange(
                        k * width,
                        k * width + width,
                    ));
                } else {
                    assert(taken.subrange(k * width, k * width + width) =~= more);
                }
            }
            taken
        }
    }
}

} // verus!
