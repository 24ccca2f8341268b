use crate::arithmetic::{compares, counts, Arithmetic};
use crate::dynamic_controls::MaybeDynamic;
use crate::sample_stream::SampleStream;
use vstd::prelude::*;

verus! {

/// How a stream that can be stopped decides what to hand out.
pub enum FuseStrategy {
    /// The stream has ended and hands out nothing, ever.
    AlwaysEmitNone,
    /// The control is a plain value that lets the stream play: every sample passes.
    Noop,
    /// The control is read after every sample; once it says stop, or the
    /// source ends, the stream has ended.
    CheckThenFuse,
}

/// The strategy for a control that is a plain value or not, and says stop
/// at construction or not.
pub open spec fn fuse_strategy(fixed: bool, stop: bool) -> FuseStrategy {
    if !fixed {
        FuseStrategy::CheckThenFuse
    } else if stop {
        FuseStrategy::AlwaysEmitNone
    } else {
        FuseStrategy::Noop
    }
}

/// Ends a stream for good as soon as its volume is zero or less.
pub struct StopWhenMuted<V, S, A: Arithmetic> {
    pub volume: V,
    pub source: S,
    pub strategy: FuseStrategy,
    pub silence: A::Sample,
    pub math: A,
}

impl<V: MaybeDynamic<A::Sample>, S: SampleStream<A::Sample>, A: Arithmetic> StopWhenMuted<V, S, A> {
    /// What a pull never changes.
    pub open spec fn same_setup(&self, after: &Self) -> bool {
        &&& after.silence == self.silence
        &&& after.math == self.math
    }

    /// A pull of a stream that has ended.
    pub open spec fn ended_step(&self, after: &Self, out: Option<A::Sample>) -> bool {
        out is None && *after == *self
    }

    /// A pull that passes the source's sample on.
    pub open spec fn noop_step(&self, after: &Self, out: Option<A::Sample>) -> bool {
        &&& self.same_setup(after)
        &&& after.volume == self.volume
        &&& after.strategy == self.strategy
        &&& self.source.step(&after.source, out)
    }

    /// A pull that checks: the source's sample is handed out. If the source
    /// had none, the stream has ended. If it had one, the volume is read,
    /// and at zero or less the stream has ended after this sample.
    pub open spec fn check_step(&self, after: &Self, out: Option<A::Sample>) -> bool {
        &&& self.same_setup(after)
        &&& self.source.step(&after.source, out)
        &&& if out is None {
            &&& after.volume == self.volume
            &&& after.strategy is AlwaysEmitNone
        } else {
            exists|volume: A::Sample, muted: bool| #[trigger]
                self.volume.reads(&after.volume, volume) && #[trigger] compares(
                    &self.math,
                    volume,
                    self.silence,
                    muted,
                ) && after.strategy == if muted {
                    FuseStrategy::AlwaysEmitNone
                } else {
                    self.strategy
                }
        }
    }

    /// The stream `source`, which ends when `volume` is zero or less.
    ///
    /// A plain volume is looked at here, once: the stream is ended from the
    /// start or never stopped. A volume in a shared cell is read after
    /// every sample.
    pub fn new(volume: V, source: S, math: A) -> (stream: Self)
        requires
            volume.ready(),
            source.ready(),
        ensures
            stream.ready(),
            stream.source == source,
            stream.math == math,
            counts(&math, 0, stream.silence),
            exists|value: A::Sample, muted: bool| #[trigger]
                volume.reads(&stream.volume, value) && #[trigger] compares(
                    &math,
                    value,
                    stream.silence,
                    muted,
                ) && stream.strategy == fuse_strategy(!V::dynamic(), muted),
    {
        let mut volume = volume;
        let ghost start = volume;
        let silence = math.from_count(0);
        let fixed = V::is_static();
        let value = volume.get();
        let muted = math.at_most(value, silence);
        let strategy = if !fixed {
            FuseStrategy::CheckThenFuse
        } else if muted {
            FuseStrategy::AlwaysEmitNone
        } else {
            FuseStrategy::Noop
        };
        let stream = Self { volume, source, strategy, silence, math };
        proof {
            assert(start.reads(&stream.volume, value) && compares(
                &stream.math,
                value,
                stream.silence,
                muted,
            ));
        }
        stream
    }

    fn always_emit_none(&mut self) -> (out: Option<A::Sample>)
        ensures
            old(self).ended_step(final(self), out),
    {
        None
    }

    fn noop(&mut self) -> (out: Option<A::Sample>)
        requires
            old(self).ready(),
        ensures
            final(self).ready(),
            old(self).noop_step(final(self), out),
    {
        self.source.next()
    }

    fn check_when_muted_or_ended_then_fuse(&mut self) -> (out: Option<A::Sample>)
        requires
            old(self).ready(),
        ensures
            final(self).ready(),
            old(self).check_step(final(self), out),
    {
        let sample = self.source.next();
        if sample.is_none() {
            self.strategy = FuseStrategy::AlwaysEmitNone;
        } else {
            let volume = self.volume.get();
            let muted = self.math.at_most(volume, self.silence);
            if muted {
                self.strategy = FuseStrategy::AlwaysEmitNone;
            }
            proof {
                assert(old(self).volume.reads(&self.volume, volume) && compares(
                    &self.math,
                    volume,
                    self.silence,
                    muted,
                ));
            }
        }
        sample
    }
}

impl<V: MaybeDynamic<A::Sample>, S: SampleStream<A::Sample>, A: Arithmetic> SampleStream<
    A::Sample,
> for StopWhenMuted<V, S, A> {
    open spec fn ready(&self) -> bool {
        self.volume.ready() && self.source.ready()
    }

    open spec fn step(&self, after: &Self, out: Option<A::Sample>) -> bool {
        match self.strategy {
            FuseStrategy::AlwaysEmitNone => self.ended_step(after, out),
            FuseStrategy::Noop => self.noop_step(after, out),
            FuseStrategy::CheckThenFuse => self.check_step(after, out),
        }
    }

    fn next(&mut self) -> (out: Option<A::Sample>) {
        match self.strategy {
            FuseStrategy::AlwaysEmitNone => self.always_emit_none(),
            FuseStrategy::Noop => self.noop(),
            FuseStrategy::CheckThenFuse => self.check_when_muted_or_ended_then_fuse(),
        }
    }
}

} // verus!
