use crate::arithmetic::{counts, Arithmetic};
use crate::dynamic_controls::MaybeDynamic;
use crate::sample_stream::SampleStream;
use vstd::prelude::*;

verus! {

/// How a stream that can be paused decides what to hand out.
pub enum PauseStrategy {
    /// The flag is a plain value that says pause: silence, for ever.
    AlwaysEmitSilence,
    /// The flag is a plain value that says play: every sample passes.
    Noop,
    /// The flag is read at the start of every frame.
    EmitSilenceWhenPaused,
}

/// The strategy for a flag that is a plain value or not, and says pause at
/// construction or not.
pub open spec fn pause_strategy(fixed: bool, pause: bool) -> PauseStrategy {
    if !fixed {
        PauseStrategy::EmitSilenceWhenPaused
    } else if pause {
        PauseStrategy::AlwaysEmitSilence
    } else {
        PauseStrategy::Noop
    }
}

/// Hands out silence instead of the source's samples while a flag says
/// pause. A paused stream never ends: silence is a sample.
pub struct PausableAudio<P, S, A: Arithmetic> {
    pub is_paused: bool,
    pub should_pause: P,
    pub channels: usize,
    pub source: S,
    pub strategy: PauseStrategy,
    /// The channel of the next sample.
    pub counter: usize,
    pub silence: A::Sample,
    pub math: A,
}

impl<P: MaybeDynamic<bool>, S: SampleStream<A::Sample>, A: Arithmetic> PausableAudio<P, S, A> {
    /// What a pull never changes.
    pub open spec fn same_setup(&self, after: &Self) -> bool {
        &&& after.channels == self.channels
        &&& after.strategy == self.strategy
        &&& after.silence == self.silence
        &&& after.math == self.math
    }

    /// A pull of a stream that is paused for good: silence, and no change.
    pub open spec fn silent_step(&self, after: &Self, out: Option<A::Sample>) -> bool {
        out == Some(self.silence) && *after == *self
    }

    /// A pull of a stream that is never paused: the source's pull.
    pub open spec fn noop_step(&self, after: &Self, out: Option<A::Sample>) -> bool {
        &&& self.same_setup(after)
        &&& after.is_paused == self.is_paused
        &&& after.should_pause == self.should_pause
        &&& after.counter == self.counter
        &&& self.source.step(&after.source, out)
    }

    /// A pull of a stream whose flag may change: at the start of a frame
    /// the flag is read and followed; within a frame the stream stays as it
    /// is. Paused, it hands out silence and leaves the source alone; else
    /// it hands out the source's sample.
    pub open spec fn pausing_step(&self, after: &Self, out: Option<A::Sample>) -> bool {
        &&& self.same_setup(after)
        &&& after.counter == (self.counter + 1) % (self.channels as int)
        &&& if self.counter == 0 {
            self.should_pause.reads(&after.should_pause, after.is_paused)
        } else {
            after.should_pause == self.should_pause && after.is_paused == self.is_paused
        }
        &&& if after.is_paused {
            out == Some(self.silence) && after.source == self.source
        } else {
            self.source.step(&after.source, out)
        }
    }

    /// The stream `source`, which has `channels` channels, silent while
    /// `should_pause` says pause.
    ///
    /// A plain flag is looked at here, once. A flag in a shared cell is
    /// read at the start of every frame, so that a frame is never cut.
    pub fn new(should_pause: P, channels: usize, source: S, math: A) -> (stream: Self)
        requires
            should_pause.ready(),
            source.ready(),
            channels > 0 || !P::dynamic(),
        ensures
            stream.ready(),
            stream.channels == channels,
            stream.source == source,
            stream.math == math,
            stream.counter == 0,
            counts(&math, 0, stream.silence),
            exists|pause: bool, read: P| #[trigger]
                should_pause.reads(&read, pause) && read.reads(
                    &stream.should_pause,
                    stream.is_paused,
                ) && stream.strategy == pause_strategy(!P::dynamic(), pause),
    {
        let mut should_pause = should_pause;
        let fixed = P::is_static();
        let pause = should_pause.get();
        let strategy = if !fixed {
            PauseStrategy::EmitSilenceWhenPaused
        } else if pause {
            PauseStrategy::AlwaysEmitSilence
        } else {
            PauseStrategy::Noop
        };
        let is_paused = should_pause.get();
        let silence = math.from_count(0);
        let stream = Self {
            is_paused,
            should_pause,
            channels,
            source,
            strategy,
            counter: 0,
            silence,
            math,
        };
        stream
    }

    fn always_emit_silence(&mut self) -> (out: Option<A::Sample>)
        ensures
            old(self).silent_step(final(self), out),
    {
        Some(self.silence)
    }

    fn noop(&mut self) -> (out: Option<A::Sample>)
        requires
            old(self).ready(),
        ensures
            final(self).ready(),
            old(self).noop_step(final(self), out),
    {
        self.source.next()
    }

    fn emit_silence_when_paused(&mut self) -> (out: Option<A::Sample>)
        requires
            old(self).ready(),
            old(self).strategy is EmitSilenceWhenPaused,
        ensures
            final(self).ready(),
            old(self).pausing_step(final(self), out),
    {
        if self.counter == 0 {
            let pause = self.should_pause.get();
            if self.is_paused != pause {
                self.is_paused = !self.is_paused;
            }
        }
        self.counter = (self.counter + 1) % self.channels;
        if self.is_paused {
            Some(self.silence)
        } else {
            self.source.next()
        }
    }
}

impl<P: MaybeDynamic<bool>, S: SampleStream<A::Sample>, A: Arithmetic> SampleStream<
    A::Sample,
> for PausableAudio<P, S, A> {
    open spec fn ready(&self) -> bool {
        &&& self.should_pause.ready()
        &&& self.source.ready()
        &&& self.strategy is EmitSilenceWhenPaused ==> self.counter < self.channels
    }

    open spec fn step(&self, after: &Self, out: Option<A::Sample>) -> bool {
        match self.strategy {
            PauseStrategy::AlwaysEmitSilence => self.silent_step(after, out),
            PauseStrategy::Noop => self.noop_step(after, out),
            PauseStrategy::EmitSilenceWhenPaused => self.pausing_step(after, out),
        }
    }

    fn next(&mut self) -> (out: Option<A::Sample>) {
        match self.strategy {
            PauseStrategy::AlwaysEmitSilence => self.always_emit_silence(),
            PauseStrategy::Noop => self.noop(),
            PauseStrategy::EmitSilenceWhenPaused => self.emit_silence_when_paused(),
        }
    }
}

} // verus!
