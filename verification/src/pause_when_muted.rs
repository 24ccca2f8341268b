use crate::arithmetic::{compares, counts, Arithmetic};
use crate::dynamic_controls::MaybeDynamic;
use crate::sample_stream::{lemma_pulls_push, pulls, stops_at_end, SampleStream};
use vstd::arithmetic::div_mod::{lemma_mod_self_0, lemma_small_mod};
use vstd::prelude::*;

verus! {

/// Holds a stream where it is while its volume is zero or less, and hands
/// out silence meanwhile. When the volume comes back, the stream goes on at
/// the start of its next frame.
pub struct PauseWhenMuted<V, S, A: Arithmetic> {
    pub volume: V,
    pub channels: usize,
    pub source: S,
    pub is_muted: bool,
    /// The channel that the next silent sample stands on: the number of
    /// samples handed out or skipped since the source stood at the start of
    /// a frame, counted within a frame.
    pub num_paused: usize,
    pub silence: A::Sample,
    pub math: A,
}

/// How many samples of its source a stream that comes back on the channel
/// `num_paused` skips to stand at the start of a frame.
pub open spec fn to_frame_start(num_paused: usize, channels: usize) -> int {
    if num_paused == 0 {
        0
    } else {
        channels - num_paused
    }
}

impl<V: MaybeDynamic<A::Sample>, S: SampleStream<A::Sample>, A: Arithmetic> PauseWhenMuted<V, S, A> {
    /// What a pull does once the volume is read and found muted or not,
    /// with `got` pulled from the source.
    ///
    /// Muted, the stream hands out silence, leaves the source alone and
    /// counts the sample. Not muted, it hands out the source's sample; if
    /// it was muted before, it first skips to the start of the next frame.
    /// Where the source ends, the stream ends.
    pub open spec fn paused(
        &self,
        after: &Self,
        muted: bool,
        got: Seq<Option<A::Sample>>,
        out: Option<A::Sample>,
    ) -> bool {
        let skipped = if self.is_muted {
            to_frame_start(self.num_paused, self.channels)
        } else {
            0
        };
        if muted {
            &&& got.len() == 0
            &&& out == Some(self.silence)
            &&& after.num_paused == (self.num_paused + 1) % (self.channels as int)
        } else {
            &&& stops_at_end(got, skipped + 1)
            &&& got.len() > 0
            &&& out == got.last()
            &&& after.num_paused == if !self.is_muted {
                self.num_paused as int
            } else if got.len() == skipped + 1 {
                0
            } else {
                self.num_paused + got.len() - 1
            }
        }
    }

    /// The stream `source`, which has `channels` channels, held while
    /// `volume` is zero or less.
    pub fn new(volume: V, channels: usize, source: S, math: A) -> (stream: Self)
        requires
            volume.ready(),
            source.ready(),
            channels > 0,
        ensures
            stream.ready(),
            stream.channels == channels,
            stream.source == source,
            stream.math == math,
            stream.num_paused == 0,
            counts(&math, 0, stream.silence),
            exists|value: A::Sample| #[trigger]
                volume.reads(&stream.volume, value) && compares(
                    &math,
                    value,
                    stream.silence,
                    stream.is_muted,
                ),
    {
        let mut volume = volume;
        let silence = math.from_count(0);
        let value = volume.get();
        let is_muted = math.at_most(value, silence);
        let stream = Self { volume, channels, source, is_muted, num_paused: 0, silence, math };
        stream
    }
}

impl<V: MaybeDynamic<A::Sample>, S: SampleStream<A::Sample>, A: Arithmetic> SampleStream<
    A::Sample,
> for PauseWhenMuted<V, S, A> {
    open spec fn ready(&self) -> bool {
        &&& self.volume.ready()
        &&& self.source.ready()
        &&& self.num_paused < self.channels
    }

    /// The volume is read and compared with silence; the rest follows
    /// from whether the stream is muted now and was before.
    open spec fn step(&self, after: &Self, out: Option<A::Sample>) -> bool {
        &&& after.channels == self.channels
        &&& after.silence == self.silence
        &&& after.math == self.math
        &&& exists|volume: A::Sample, got: Seq<Option<A::Sample>>|
            {
                &&& #[trigger] self.volume.reads(&after.volume, volume)
                &&& compares(&self.math, volume, self.silence, after.is_muted)
                &&& #[trigger] pulls(self.source, after.source, got)
                &&& self.paused(after, after.is_muted, got, out)
            }
    }

    fn next(&mut self) -> (out: Option<A::Sample>) {
        let previously_muted = self.is_muted;
        let volume = self.volume.get();
        let currently_muted = self.math.at_most(volume, self.silence);
        let unpause = previously_muted && !currently_muted;
        self.is_muted = currently_muted;
        let ghost mut got = Seq::<Option<A::Sample>>::empty();
        let ghost skipped = if previously_muted {
            to_frame_start(old(self).num_paused, self.channels)
        } else {
            0
        };
        if unpause {
            while self.num_paused != 0
                invariant
                    self.ready(),
                    self.channels == old(self).channels,
                    self.silence == old(self).silence,
                    self.math == old(self).math,
                    self.is_muted == currently_muted,
                    old(self).is_muted,
                    !currently_muted,
                    old(self).volume.reads(&self.volume, volume),
                    compares(&self.math, volume, self.silence, currently_muted),
                    skipped == to_frame_start(old(self).num_paused, self.channels),
                    pulls(old(self).source, self.source, got),
                    got.len() <= skipped,
                    forall|i: int| 0 <= i < got.len() ==> (#[trigger] got[i]) is Some,
                    self.num_paused == if got.len() == skipped {
                        0
                    } else {
                        old(self).num_paused + got.len()
                    },
                decreases skipped - got.len(),
            {
                let ghost before = self.source;
                let pulled = self.source.next();
                proof {
                    lemma_pulls_push(old(self).source, before, self.source, got, pulled);
                    got = got.push(pulled);
                    if self.num_paused + 1 == self.channels {
                        lemma_mod_self_0(self.channels as int);
                    } else {
                        lemma_small_mod((self.num_paused + 1) as nat, self.channels as nat);
                    }
                }
                if pulled.is_none() {
                    return None;
                }
                self.num_paused = (self.num_paused + 1) % self.channels;
            }
        }
        if currently_muted {
            self.num_paused = (self.num_paused + 1) % self.channels;
            proof {
                assert(old(self).volume.reads(&self.volume, volume));
                assert(pulls(old(self).source, self.source, got));
            }
            Some(self.silence)
        } else {
            let ghost before = self.source;
            let sample = self.source.next();
            proof {
                lemma_pulls_push(old(self).source, before, self.source, got, sample);
                got = got.push(sample);
                assert(old(self).volume.reads(&self.volume, volume));
            }
            sample
        }
    }
}

} // verus!
