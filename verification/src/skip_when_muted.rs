use crate::arithmetic::{compares, counts, multiplies, truncates, Arithmetic};
use crate::dynamic_controls::{DynamicUsize, MaybeDynamic};
use crate::sample_stream::{complete, lemma_pulls_push, pulls, stops_at_end, SampleStream};
use vstd::arithmetic::div_mod::lemma_mod_decreases;
use vstd::prelude::*;
use vstd::wrapping::usize_specs::wrapping_add;

verus! {

/// Whether a muted stream looks at its source from time to time.
pub enum SkipStrategy {
    /// The source is left alone while the stream is muted.
    WithoutPeeking,
    /// Every `peek` muted samples the seek control is moved on and one frame
    /// is pulled from the source, so that a source that has ended is noticed.
    WithPeeking,
}

/// Lets a stream that replays a buffer run on unheard while its volume is
/// zero or less: it hands out silence without pulling, and when the volume
/// comes back it moves the buffer's seek control on by what was skipped.
pub struct SkipWhenMuted<V, S, A: Arithmetic> {
    pub volume: V,
    pub source: S,
    pub seek: DynamicUsize,
    /// How many samples of the buffer go by for one sample of this stream.
    pub seek_ratio: A::Sample,
    pub peek: usize,
    pub channels: usize,
    pub strategy: SkipStrategy,
    pub is_muted: bool,
    /// The silent samples handed out since the seek control was last moved.
    pub num_skipped: usize,
    pub silence: A::Sample,
    pub math: A,
}

impl<V: MaybeDynamic<A::Sample>, S: SampleStream<A::Sample>, A: Arithmetic> SkipWhenMuted<V, S, A> {
    /// What a pull never changes.
    pub open spec fn same_setup(&self, after: &Self) -> bool {
        &&& after.seek_ratio == self.seek_ratio
        &&& after.peek == self.peek
        &&& after.channels == self.channels
        &&& after.strategy == self.strategy
        &&& after.silence == self.silence
        &&& after.math == self.math
    }

    /// Moving the seek control on leaves it as `seek`: the skipped samples
    /// times the seek ratio, rounded down to a count and then to whole
    /// frames, are added to it.
    pub open spec fn sought(&self, seek: &DynamicUsize) -> bool {
        exists|count: A::Sample, scaled: A::Sample, raw: usize, previous: usize|
            {
                &&& #[trigger] counts(&self.math, self.num_skipped, count)
                &&& #[trigger] multiplies(&self.math, count, self.seek_ratio, scaled)
                &&& #[trigger] truncates(&self.math, scaled, raw)
                &&& #[trigger] self.seek.adds(
                    seek,
                    (raw - raw % self.channels) as usize,
                    previous,
                )
            }
    }

    /// Whether a pull that finds the stream muted or not looks at the source.
    pub open spec fn peeks(&self, muted: bool) -> bool {
        self.strategy is WithPeeking && muted && self.num_skipped % self.peek == 0
    }

    /// What a pull does once the volume is read and found muted or not,
    /// with `got` pulled from the source.
    ///
    /// The seek control is moved on when the volume has come back, and when
    /// the stream peeks. A stream that peeks pulls one frame and ends if the
    /// source has ended. A muted stream hands out silence and counts it;
    /// one that is not muted hands out the source's sample.
    pub open spec fn skipped(
        &self,
        after: &Self,
        muted: bool,
        got: Seq<Option<A::Sample>>,
        out: Option<A::Sample>,
    ) -> bool {
        let seek_ahead = (self.is_muted && !muted) || self.peeks(muted);
        let base = if seek_ahead {
            0
        } else {
            self.num_skipped
        };
        &&& if seek_ahead {
            self.sought(&after.seek)
        } else {
            after.seek == self.seek
        }
        &&& if self.peeks(muted) {
            &&& stops_at_end(got, self.channels as int)
            &&& if complete(got, self.channels as int) {
                out == Some(self.silence) && after.num_skipped == 1
            } else {
                out is None && after.num_skipped == 0
            }
        } else if muted {
            &&& got.len() == 0
            &&& out == Some(self.silence)
            &&& after.num_skipped == wrapping_add(base, 1)
        } else {
            &&& got.len() == 1
            &&& out == got[0]
            &&& after.num_skipped == base
        }
    }

    /// The stream `source`, which has `channels` channels and replays a
    /// buffer whose seek control is `seek`, skipped while `volume` is zero
    /// or less. With a `peek` other than zero it peeks every `peek` samples.
    pub fn new(
        volume: V,
        seek: DynamicUsize,
        seek_ratio: A::Sample,
        peek: usize,
        channels: usize,
        source: S,
        math: A,
    ) -> (stream: Self)
        requires
            volume.ready(),
            source.ready(),
            channels > 0,
        ensures
            stream.ready(),
            stream.seek == seek,
            stream.seek_ratio == seek_ratio,
            stream.peek == peek,
            stream.channels == channels,
            stream.source == source,
            stream.math == math,
            stream.num_skipped == 0,
            stream.strategy is WithPeeking <==> peek != 0,
            counts(&math, 0, stream.silence),
            exists|value: A::Sample| #[trigger]
                volume.reads(&stream.volume, value) && compares(
                    &math,
                    value,
                    stream.silence,
                    stream.is_muted,
                ),
    {
        let mut volume = volume;
        let ghost start = volume;
        let strategy = if peek == 0 {
            SkipStrategy::WithoutPeeking
        } else {
            SkipStrategy::WithPeeking
        };
        let silence = math.from_count(0);
        let value = volume.get();
        let is_muted = math.at_most(value, silence);
        let stream = Self {
            volume,
            source,
            seek,
            seek_ratio,
            peek,
            channels,
            strategy,
            is_muted,
            num_skipped: 0,
            silence,
            math,
        };
        proof {
            assert(start.reads(&stream.volume, value));
        }
        stream
    }

    /// Moves the seek control on by what was skipped, and starts counting anew.
    fn seek_ahead(&mut self)
        requires
            old(self).channels > 0,
        ensures
            old(self).sought(&final(self).seek),
            final(self).num_skipped == 0,
            final(self).volume == old(self).volume,
            final(self).source == old(self).source,
            final(self).is_muted == old(self).is_muted,
            old(self).same_setup(final(self)),
    {
        let count = self.math.from_count(self.num_skipped);
        let scaled = self.math.product(count, self.seek_ratio);
        let raw = self.math.to_count(scaled);
        proof {
            lemma_mod_decreases(raw as nat, self.channels as nat);
        }
        let seek_by = raw - raw % self.channels;
        let previous = self.seek.add(seek_by);
        self.num_skipped = 0;
        proof {
            assert(counts(&self.math, old(self).num_skipped, count));
            assert(multiplies(&self.math, count, self.seek_ratio, scaled));
            assert(truncates(&self.math, scaled, raw));
            assert(old(self).seek.adds(&self.seek, seek_by, previous));
        }
    }

    fn skip_without_peeking(&mut self) -> (out: Option<A::Sample>)
        requires
            old(self).ready(),
            old(self).strategy is WithoutPeeking,
        ensures
            final(self).ready(),
            old(self).step(final(self), out),
    {
        let previously_muted = self.is_muted;
        let volume = self.volume.get();
        let currently_muted = self.math.at_most(volume, self.silence);
        let seek_ahead = previously_muted && !currently_muted;
        self.is_muted = currently_muted;
        if seek_ahead {
            self.seek_ahead();
        }
        let ghost mut got = Seq::<Option<A::Sample>>::empty();
        let out = if currently_muted {
            self.num_skipped = self.num_skipped.wrapping_add(1);
            Some(self.silence)
        } else {
            let ghost before = self.source;
            let sample = self.source.next();
            proof {
                lemma_pulls_push(old(self).source, before, self.source, got, sample);
                got = got.push(sample);
            }
            sample
        };
        proof {
            assert(old(self).volume.reads(&self.volume, volume));
            assert(pulls(old(self).source, self.source, got));
        }
        out
    }

    fn skip_with_peeking(&mut self) -> (out: Option<A::Sample>)
        requires
            old(self).ready(),
            old(self).strategy is WithPeeking,
        ensures
            final(self).ready(),
            old(self).step(final(self), out),
    {
        let previously_muted = self.is_muted;
        let volume = self.volume.get();
        let currently_muted = self.math.at_most(volume, self.silence);
        let peek_now = currently_muted && self.num_skipped % self.peek == 0;
        let seek_ahead = previously_muted && !currently_muted || peek_now;
        self.is_muted = currently_muted;
        let ghost mut got = Seq::<Option<A::Sample>>::empty();
        if seek_ahead {
            self.seek_ahead();
            if peek_now {
                let mut i: usize = 0;
                while i < self.channels
                    invariant
                        self.ready(),
                        old(self).same_setup(self),
                        self.volume.ready(),
                        old(self).volume.reads(&self.volume, volume),
                        compares(&self.math, volume, self.silence, currently_muted),
                        self.is_muted == currently_muted,
                        currently_muted,
                        old(self).peeks(currently_muted),
                        old(self).sought(&self.seek),
                        self.num_skipped == 0,
                        pulls(old(self).source, self.source, got),
                        i <= self.channels,
                        got.len() == i,
                        forall|j: int| 0 <= j < got.len() ==> (#[trigger] got[j]) is Some,
                    decreases self.channels - i,
                {
                    let ghost before = self.source;
                    let pulled = self.source.next();
                    proof {
                        lemma_pulls_push(old(self).source, before, self.source, got, pulled);
                        got = got.push(pulled);
                    }
                    if pulled.is_none() {
                        proof {
                            assert(old(self).sought(&self.seek));
                            assert(old(self).skipped(self, currently_muted, got, None));
                            assert(old(self).volume.reads(&self.volume, volume));
                            assert(pulls(old(self).source, self.source, got));
                        }
                        return None;
                    }
                    i += 1;
                }
            }
        }
        let out = if currently_muted {
            self.num_skipped = self.num_skipped.wrapping_add(1);
            Some(self.silence)
        } else {
            let ghost before = self.source;
            let sample = self.source.next();
            proof {
                lemma_pulls_push(old(self).source, before, self.source, got, sample);
                got = got.push(sample);
            }
            sample
        };
        proof {
            assert(old(self).volume.reads(&self.volume, volume));
            assert(pulls(old(self).source, self.source, got));
        }
        out
    }
}

impl<V: MaybeDynamic<A::Sample>, S: SampleStream<A::Sample>, A: Arithmetic> SampleStream<
    A::Sample,
> for SkipWhenMuted<V, S, A> {
    open spec fn ready(&self) -> bool {
        &&& self.volume.ready()
        &&& self.source.ready()
        &&& self.channels > 0
        &&& self.strategy is WithPeeking ==> self.peek > 0
    }

    /// The volume is read and compared with silence; the rest follows
    /// from whether the stream is muted now and was before.
    open spec fn step(&self, after: &Self, out: Option<A::Sample>) -> bool {
        &&& self.same_setup(after)
        &&& exists|volume: A::Sample, got: Seq<Option<A::Sample>>|
            {
                &&& #[trigger] self.volume.reads(&after.volume, volume)
                &&& compares(&self.math, volume, self.silence, after.is_muted)
                &&& #[trigger] pulls(self.source, after.source, got)
                &&& self.skipped(after, after.is_muted, got, out)
            }
    }

    fn next(&mut self) -> (out: Option<A::Sample>) {
        match self.strategy {
            SkipStrategy::WithoutPeeking => self.skip_without_peeking(),
            SkipStrategy::WithPeeking => self.skip_with_peeking(),
        }
    }
}

} // verus!
