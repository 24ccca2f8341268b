use crate::sample_stream::{complete, lemma_pulls_push, pulls, stops_at_end, SampleStream};
use vstd::prelude::*;

verus! {

/// The samples that a run of pulls found, in their order.
pub open spec fn found<T>(got: Seq<Option<T>>) -> Seq<T>
    decreases got.len(),
{
    if got.len() == 0 {
        Seq::empty()
    } else {
        match got.last() {
            Some(sample) => found(got.drop_last()).push(sample),
            None => found(got.drop_last()),
        }
    }
}

/// The samples of a source, recorded as far as they were asked for.
///
/// Whoever replays the recording reads what is recorded and pulls the
/// source only for what is not: no sample is pulled twice. Once the
/// source has ended, the recording has its final length.
pub struct Recording<T, S> {
    /// The samples recorded so far, from the source's first on.
    pub samples: Vec<T>,
    pub source: S,
    /// Whether the source has ended.
    pub ended: bool,
}

impl<T: Copy, S: SampleStream<T>> Recording<T, S> {
    /// The recordings whose source may be pulled.
    pub open spec fn ready(&self) -> bool {
        self.source.ready()
    }

    /// What asking for the sample at `index` does, with `got` pulled from
    /// the source.
    ///
    /// A sample that is recorded is handed out, and the source left alone.
    /// So it is after the source has ended, with nothing to hand out. Else
    /// the source is pulled once for each sample from the first that is not
    /// recorded to the one at `index`, and each is recorded; if the source
    /// ends before, the recording has ended and nothing is handed out.
    pub open spec fn fills(
        &self,
        after: &Self,
        index: usize,
        got: Seq<Option<T>>,
        out: Option<T>,
    ) -> bool {
        if index < self.samples@.len() {
            &&& got.len() == 0
            &&& after.samples == self.samples
            &&& after.ended == self.ended
            &&& out == Some(self.samples@[index as int])
        } else if self.ended {
            &&& got.len() == 0
            &&& after.samples == self.samples
            &&& after.ended
            &&& out is None
        } else {
            let missing = index - self.samples@.len() + 1;
            &&& stops_at_end(got, missing)
            &&& after.samples@ == self.samples@ + found(got)
            &&& after.ended == !complete(got, missing)
            &&& out == if complete(got, missing) {
                got.last()
            } else {
                None
            }
        }
    }

    /// A recording of `source`, of which nothing is recorded yet.
    pub fn new(source: S) -> (recording: Self)
        requires
            source.ready(),
        ensures
            recording.ready(),
            recording.samples@.len() == 0,
            recording.source == source,
            !recording.ended,
    {
        Self { samples: Vec::new(), source, ended: false }
    }

    /// The number of samples recorded so far.
    pub fn len(&self) -> (len: usize)
        ensures
            len == self.samples@.len(),
    {
        self.samples.len()
    }

    /// The sample at `index`, if it is recorded.
    pub fn get(&self, index: usize) -> (out: Option<T>)
        ensures
            out == if index < self.samples@.len() {
                Some(self.samples@[index as int])
            } else {
                None
            },
    {
        if index < self.samples.len() {
            Some(self.samples[index])
        } else {
            None
        }
    }

    /// The sample at `index`, pulled from the source if it is not recorded.
    pub fn fill(&mut self, index: usize) -> (out: Option<T>)
        requires
            old(self).ready(),
        ensures
            final(self).ready(),
            exists|got: Seq<Option<T>>| #[trigger]
                pulls(old(self).source, final(self).source, got) && old(self).fills(
                    final(self),
                    index,
                    got,
                    out,
                ),
    {
        let ghost mut got = Seq::<Option<T>>::empty();
        proof {
            assert(pulls(old(self).source, self.source, got));
        }
        if index < self.samples.len() {
            return Some(self.samples[index]);
        }
        if self.ended {
            return None;
        }
        let ghost missing = index - self.samples@.len() + 1;
        let mut last = None;
        while self.samples.len() <= index
            invariant
                self.ready(),
                !old(self).ended,
                !self.ended,
                old(self).samples@.len() <= index,
                missing == index - old(self).samples@.len() + 1,
                pulls(old(self).source, self.source, got),
                got.len() <= missing,
                forall|i: int| 0 <= i < got.len() ==> (#[trigger] got[i]) is Some,
                self.samples@ == old(self).samples@ + found(got),
                self.samples@.len() == old(self).samples@.len() + got.len(),
                got.len() > 0 ==> last == got.last(),
            decreases index - self.samples@.len() + 1,
        {
            let ghost before = self.source;
            let pulled = self.source.next();
            proof {
                lemma_pulls_push(old(self).source, before, self.source, got, pulled);
                assert(got.push(pulled).drop_last() =~= got);
                got = got.push(pulled);
            }
            match pulled {
                Some(sample) => {
                    self.samples.push(sample);
                    last = pulled;
                },
                None => {
                    self.ended = true;
                    proof {
                        assert(pulls(old(self).source, self.source, got));
                    }
                    return None;
                },
            }
        }
        last
    }

    /// A recording only grows: what is recorded stays recorded, at its
    /// place. And asking for a sample pulls the source at most once for
    /// each sample up to it that is not recorded yet, and not at all for
    /// one that is.
    pub proof fn lemma_no_sample_is_pulled_twice(
        self,
        after: Self,
        index: usize,
        got: Seq<Option<T>>,
        out: Option<T>,
    )
        requires
            self.fills(&after, index, got, out),
        ensures
            after.samples@.len() >= self.samples@.len(),
            after.samples@.subrange(0, self.samples@.len() as int) == self.samples@,
            index < self.samples@.len() ==> got.len() == 0,
            got.len() <= index + 1 - self.samples@.len() || got.len() == 0,
            self.ended ==> got.len() == 0 && after.samples == self.samples,
    {
        if index >= self.samples@.len() && !self.ended {
        } else {
        }
    }
}

} // verus!
