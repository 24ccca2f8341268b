use crate::dynamic_controls::MaybeDynamic;
use crate::sample_stream::SampleStream;
use crate::stop_when_muted::{fuse_strategy, FuseStrategy};
use vstd::prelude::*;

verus! {

/// Ends a stream for good as soon as a flag says so, and raises the flag
/// when the stream ends by itself.
pub struct StoppableAudio<X, S> {
    pub stopped: X,
    pub source: S,
    pub strategy: FuseStrategy,
}

impl<X: MaybeDynamic<bool>, S> StoppableAudio<X, S> {
    /// A pull of a stream that has ended.
    pub open spec fn ended_step<T>(&self, after: &Self, out: Option<T>) -> bool {
        out is None && *after == *self
    }

    /// What the flag goes through when a pull finds the source's answer
    /// `out`: after a sample it is read; if it then says stop, or if the
    /// source had nothing, it is set.
    pub open spec fn flagged<T>(&self, after: &Self, out: Option<T>) -> bool {
        if out is None {
            &&& self.stopped.writes(&after.stopped, true)
            &&& after.strategy is AlwaysEmitNone
        } else {
            exists|stop: bool, read: X| #[trigger]
                self.stopped.reads(&read, stop) && if stop {
                    &&& read.writes(&after.stopped, true)
                    &&& after.strategy is AlwaysEmitNone
                } else {
                    &&& after.stopped == read
                    &&& after.strategy == self.strategy
                }
        }
    }
}

impl<X: MaybeDynamic<bool>, S> StoppableAudio<X, S> {
    /// The stream `source`, which ends when `stopped` says so.
    ///
    /// A plain flag is looked at here, once: the stream is ended from the
    /// start or never stopped. A flag in a shared cell is read after every
    /// sample.
    pub fn new(stopped: X, source: S) -> (stream: Self)
        requires
            stopped.ready(),
        ensures
            stream.stopped.ready(),
            stream.source == source,
            exists|stop: bool| #[trigger]
                stopped.reads(&stream.stopped, stop) && stream.strategy == fuse_strategy(
                    !X::dynamic(),
                    stop,
                ),
    {
        let mut stopped = stopped;
        let ghost start = stopped;
        let fixed = X::is_static();
        let stop = stopped.get();
        let strategy = if !fixed {
            FuseStrategy::CheckThenFuse
        } else if stop {
            FuseStrategy::AlwaysEmitNone
        } else {
            FuseStrategy::Noop
        };
        let stream = Self { stopped, source, strategy };
        proof {
            assert(start.reads(&stream.stopped, stop));
        }
        stream
    }
}

impl<T, X: MaybeDynamic<bool>, S: SampleStream<T>> SampleStream<T> for StoppableAudio<X, S> {
    open spec fn ready(&self) -> bool {
        self.stopped.ready() && self.source.ready()
    }

    /// A stream that has ended hands out nothing. One that is never stopped
    /// passes the source's sample on. One that checks hands out the source's
    /// sample and then looks at the flag.
    open spec fn step(&self, after: &Self, out: Option<T>) -> bool {
        match self.strategy {
            FuseStrategy::AlwaysEmitNone => self.ended_step(after, out),
            FuseStrategy::Noop => {
                &&& after.stopped == self.stopped
                &&& after.strategy == self.strategy
                &&& self.source.step(&after.source, out)
            },
            FuseStrategy::CheckThenFuse => {
                &&& self.source.step(&after.source, out)
                &&& self.flagged(after, out)
            },
        }
    }

    fn next(&mut self) -> (out: Option<T>) {
        match self.strategy {
            FuseStrategy::AlwaysEmitNone => None,
            FuseStrategy::Noop => self.source.next(),
            FuseStrategy::CheckThenFuse => {
                let sample = self.source.next();
                if sample.is_none() {
                    self.stopped.set(true);
                    self.strategy = FuseStrategy::AlwaysEmitNone;
                } else {
                    let stop = self.stopped.get();
                    if stop {
                        self.stopped.set(true);
                        self.strategy = FuseStrategy::AlwaysEmitNone;
                    }
                }
                sample
            },
        }
    }
}

} // verus!
