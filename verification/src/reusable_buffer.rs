use crate::dynamic_controls::MaybeDynamic;
use crate::sample_stream::{pulls, SampleStream};
use crate::sharing::share;
use std::sync::Arc;
use vstd::prelude::*;

verus! {

/// How a handle of a reusable buffer finds its next sample.
pub enum ReplayStrategy {
    /// The place is read from the seek control on every pull.
    WithSeeking,
    /// The place is the handle's own counter.
    WithoutSeeking,
    /// The handle has reached the end and stays there.
    AlwaysEmitNone,
}

/// Whether a cursor of type `K` can always be moved on by one sample.
pub open spec fn steps_freely<K: MaybeDynamic<usize>>() -> bool {
    forall|k: K| #[trigger] k.can_add(1)
}

/// Recorded samples that any number of handles replay, each from its own
/// place. The handles share the samples and nothing else.
pub struct ReusableBuffer<T, K> {
    pub seek: K,
    pub source: Arc<Vec<T>>,
    pub counter: usize,
    pub strategy: ReplayStrategy,
}

impl<T: Copy, K: MaybeDynamic<usize>> ReusableBuffer<T, K> {
    /// The recorded samples.
    pub open spec fn data(&self) -> Seq<T> {
        self.source@
    }

    /// The strategy of a handle whose cursor is of type `K`.
    pub open spec fn strategy_of_cursor() -> ReplayStrategy {
        if K::dynamic() {
            ReplayStrategy::WithSeeking
        } else {
            ReplayStrategy::WithoutSeeking
        }
    }

    /// A pull with seeking: the place is read from the seek control; if a
    /// sample is recorded there, it is handed out and the control moved on
    /// by one; if not, nothing is handed out and the control stays.
    pub open spec fn seeking_step(&self, after: &Self, out: Option<T>) -> bool {
        &&& after.source == self.source
        &&& after.counter == self.counter
        &&& after.strategy == self.strategy
        &&& exists|at: usize, read: K| #[trigger]
            self.seek.reads(&read, at) && if at < self.data().len() {
                &&& out == Some(self.data()[at as int])
                &&& exists|previous: usize| #[trigger] read.adds(&after.seek, 1, previous)
            } else {
                &&& out is None
                &&& after.seek == read
            }
    }

    /// A pull without seeking: the sample at the counter is handed out and
    /// the counter moved on by one; past the last sample nothing is handed
    /// out, and the handle never hands out anything again.
    pub open spec fn plain_step(&self, after: &Self, out: Option<T>) -> bool {
        &&& after.source == self.source
        &&& after.seek == self.seek
        &&& if self.counter < self.data().len() {
            &&& out == Some(self.data()[self.counter as int])
            &&& after.counter == self.counter + 1
            &&& after.strategy == self.strategy
        } else {
            &&& out is None
            &&& after.counter == self.counter
            &&& after.strategy is AlwaysEmitNone
        }
    }

    /// A pull at the end: nothing is handed out, nothing changes.
    pub open spec fn ended_step(&self, after: &Self, out: Option<T>) -> bool {
        out is None && *after == *self
    }

    /// A buffer of the samples in `source`, and a first handle to it that
    /// starts at the place that `seek` gives.
    pub fn new(seek: K, source: Vec<T>) -> (buffer: Self)
        requires
            seek.ready(),
            K::dynamic() ==> steps_freely::<K>(),
        ensures
            buffer.ready(),
            buffer.data() == source@,
            seek.reads(&buffer.seek, buffer.counter),
            buffer.strategy == Self::strategy_of_cursor(),
    {
        let mut seek = seek;
        let source = Arc::new(source);
        let counter = seek.get();
        let strategy = if K::is_static() {
            ReplayStrategy::WithoutSeeking
        } else {
            ReplayStrategy::WithSeeking
        };
        Self { seek, source, counter, strategy }
    }

    /// Another handle to the same samples, which starts at the place that
    /// `seek` gives, wherever this handle stands.
    pub fn reuse_from<J: MaybeDynamic<usize>>(&self, seek: J) -> (handle: ReusableBuffer<T, J>)
        requires
            seek.ready(),
            J::dynamic() ==> steps_freely::<J>(),
        ensures
            handle.ready(),
            handle.data() == self.data(),
            seek.reads(&handle.seek, handle.counter),
            handle.strategy == ReusableBuffer::<T, J>::strategy_of_cursor(),
    {
        let mut seek = seek;
        let source = share(&self.source);
        let counter = seek.get();
        let strategy = if J::is_static() {
            ReplayStrategy::WithoutSeeking
        } else {
            ReplayStrategy::WithSeeking
        };
        ReusableBuffer { seek, source, counter, strategy }
    }

    /// The number of recorded samples.
    pub fn len(&self) -> (len: usize)
        ensures
            len == self.data().len(),
    {
        self.source.len()
    }

    /// Whether the cursor, read at a place where a sample is recorded, can
    /// be moved on by one sample. A plain cursor always can: the place after
    /// a recorded sample is a number of the machine.
    pub open spec fn can_step(&self) -> bool {
        forall|read: K, at: usize| #[trigger]
            self.seek.reads(&read, at) && at < self.data().len() && at < usize::MAX
                ==> read.can_add(1)
    }

    /// Pulls the sample at the place that the seek control names.
    pub fn with_seeking(&mut self) -> (out: Option<T>)
        requires
            old(self).seek.ready(),
            old(self).can_step(),
        ensures
            final(self).seek.ready(),
            old(self).seeking_step(final(self), out),
    {
        let at = self.seek.get();
        let ghost read = self.seek;
        proof {
            assert(old(self).seek.reads(&read, at));
        }
        if at < self.source.len() {
            let sample = self.source[at];
            let previous = self.seek.add(1);
            proof {
                assert(read.adds(&self.seek, 1, previous));
            }
            Some(sample)
        } else {
            None
        }
    }

    /// Pulls the sample at the handle's own counter.
    pub fn without_seeking(&mut self) -> (out: Option<T>)
        ensures
            old(self).plain_step(final(self), out),
    {
        if self.counter < self.source.len() {
            let sample = self.source[self.counter];
            self.counter += 1;
            Some(sample)
        } else {
            self.strategy = ReplayStrategy::AlwaysEmitNone;
            None
        }
    }

    /// Pulls nothing.
    pub fn always_emit_none(&mut self) -> (out: Option<T>)
        ensures
            old(self).ended_step(final(self), out),
    {
        None
    }

    /// What the pull after `ahead` pulls hands out, for a handle that does
    /// not seek: the samples from its counter on, then nothing.
    pub open spec fn replayed(&self, ahead: int) -> Option<T> {
        if self.strategy is WithoutSeeking && self.counter + ahead < self.data().len() {
            Some(self.data()[self.counter + ahead])
        } else {
            None
        }
    }

    /// A handle that does not seek hands out the recorded samples from its
    /// counter on, each once and in order, and nothing after the last,
    /// however often it is pulled.
    pub proof fn lemma_replays_recording(start: Self, end: Self, got: Seq<Option<T>>)
        requires
            !(start.strategy is WithSeeking),
            pulls(start, end, got),
        ensures
            end.data() == start.data(),
            end.seek == start.seek,
            !(end.strategy is WithSeeking),
            forall|ahead: int| 0 <= ahead < got.len() ==> got[ahead] == start.replayed(ahead),
            forall|ahead: int| ahead >= 0 ==> end.replayed(ahead) == start.replayed(got.len() + ahead),
        decreases got.len(),
    {
        if got.len() > 0 {
            let mid = choose|mid: Self|
                pulls(start, mid, got.drop_last()) && #[trigger] mid.step(&end, got.last());
            Self::lemma_replays_recording(start, mid, got.drop_last());
            assert(mid.replayed(0) == start.replayed(got.len() - 1));
            assert forall|ahead: int| 0 <= ahead < got.len() implies got[ahead] == start.replayed(
                ahead,
            ) by {
                if ahead < got.len() - 1 {
                    assert(got[ahead] == got.drop_last()[ahead]);
                } else {
                }
            }
            assert forall|ahead: int| ahead >= 0 implies end.replayed(ahead) == start.replayed(
                got.len() + ahead,
            ) by {
                assert(mid.replayed(ahead + 1) == start.replayed(got.len() - 1 + ahead + 1));
            }
        }
    }

    /// Two handles to the same samples that do not seek and stand at the same
    /// place hand out the same samples, whatever was pulled from the other in
    /// between: a run of pulls from one depends on nothing but that handle.
    pub proof fn lemma_handles_are_independent<J: MaybeDynamic<usize>>(
        one: Self,
        one_end: Self,
        one_got: Seq<Option<T>>,
        other: ReusableBuffer<T, J>,
        other_end: ReusableBuffer<T, J>,
        other_got: Seq<Option<T>>,
    )
        requires
            one.data() == other.data(),
            one.strategy is WithoutSeeking,
            other.strategy is WithoutSeeking,
            one.counter == other.counter,
            pulls(one, one_end, one_got),
            pulls(other, other_end, other_got),
            one_got.len() == other_got.len(),
        ensures
            one_got == other_got,
    {
        Self::lemma_replays_recording(one, one_end, one_got);
        ReusableBuffer::<T, J>::lemma_replays_recording(other, other_end, other_got);
        assert forall|i: int| 0 <= i < one_got.len() implies one_got[i] == other_got[i] by {
        }
    }
}

impl<T: Copy, K: MaybeDynamic<usize>> SampleStream<T> for ReusableBuffer<T, K> {
    open spec fn ready(&self) -> bool {
        &&& self.seek.ready()
        &&& self.strategy is WithSeeking ==> steps_freely::<K>()
    }

    open spec fn step(&self, after: &Self, out: Option<T>) -> bool {
        match self.strategy {
            ReplayStrategy::WithSeeking => self.seeking_step(after, out),
            ReplayStrategy::WithoutSeeking => self.plain_step(after, out),
            ReplayStrategy::AlwaysEmitNone => self.ended_step(after, out),
        }
    }

    fn next(&mut self) -> (out: Option<T>) {
        match self.strategy {
            ReplayStrategy::WithSeeking => self.with_seeking(),
            ReplayStrategy::WithoutSeeking => self.without_seeking(),
            ReplayStrategy::AlwaysEmitNone => self.always_emit_none(),
        }
    }
}

} // verus!
