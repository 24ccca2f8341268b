use vstd::prelude::*;

verus! {

/// A pull-based producer of channel-interleaved samples.
///
/// A stream is described by its transitions: `step` says which sample a pull
/// may hand out from a state, and in which state the pull leaves the stream.
/// Handing out nothing ends the stream.
pub trait SampleStream<T> {
    /// The states from which the stream may be pulled. A stream that says
    /// nothing else may always be pulled.
    open spec fn ready(&self) -> bool {
        true
    }

    /// One pull from `self` may hand out `out` and leave the stream as
    /// `after`. Of a stream that says nothing else, any pull may hand out
    /// anything.
    open spec fn step(&self, after: &Self, out: Option<T>) -> bool {
        true
    }

    /// Pulls the next sample.
    fn next(&mut self) -> (out: Option<T>)
        requires
            old(self).ready(),
        ensures
            final(self).ready(),
            old(self).step(final(self), out),
    ;
}

/// Pulling `got.len()` times from `start` may hand out `got`, in this order,
/// and leave the stream as `end`.
pub open spec fn pulls<T, S: SampleStream<T>>(start: S, end: S, got: Seq<Option<T>>) -> bool
    decreases got.len(),
{
    if got.len() == 0 {
        start == end
    } else {
        exists|mid: S| pulls(start, mid, got.drop_last()) && #[trigger] mid.step(&end, got.last())
    }
}

/// `got` is a run of pulls that goes on until `n` samples are there, and
/// stops before that at the first pull that finds nothing.
pub open spec fn stops_at_end<T>(got: Seq<Option<T>>, n: int) -> bool {
    &&& got.len() <= n
    &&& forall|i: int| 0 <= i < got.len() - 1 ==> (#[trigger] got[i]) is Some
    &&& got.len() < n ==> got.len() > 0 && got.last() is None
}

/// The run `got` found all `n` samples.
pub open spec fn complete<T>(got: Seq<Option<T>>, n: int) -> bool {
    got.len() == n && (n > 0 ==> got.last() is Some)
}

/// One more pull after a run of pulls.
pub proof fn lemma_pulls_push<T, S: SampleStream<T>>(
    start: S,
    mid: S,
    end: S,
    got: Seq<Option<T>>,
    out: Option<T>,
)
    requires
        pulls(start, mid, got),
        mid.step(&end, out),
    ensures
        pulls(start, end, got.push(out)),
{
    assert(got.push(out).drop_last() =~= got);
    assert(got.push(out).last() == out);
}

/// Two runs of pulls, one after the other, are one run.
pub proof fn lemma_pulls_join<T, S: SampleStream<T>>(
    start: S,
    mid: S,
    end: S,
    first: Seq<Option<T>>,
    second: Seq<Option<T>>,
)
    requires
        pulls(start, mid, first),
        pulls(mid, end, second),
    ensures
        pulls(start, end, first + second),
    decreases second.len(),
{
    if second.len() == 0 {
        assert(first + second =~= first);
    } else {
        let before = choose|before: S|
            pulls(mid, before, second.drop_last()) && #[trigger] before.step(&end, second.last());
        lemma_pulls_join(start, mid, before, first, second.drop_last());
        lemma_pulls_push(start, before, end, first + second.drop_last(), second.last());
        assert((first + second.drop_last()).push(second.last()) =~= first + second);
    }
}

/// A single pull is a run of one.
pub proof fn lemma_pulls_one<T, S: SampleStream<T>>(start: S, end: S, out: Option<T>)
    requires
        start.step(&end, out),
    ensures
        pulls(start, end, seq![out]),
{
    lemma_pulls_push(start, start, end, Seq::<Option<T>>::empty(), out);
}

} // verus!
