use crate::arithmetic::{counts, lemma_totals_push, totals, Arithmetic};
use crate::into_channels::lemma_next_place;
use crate::sample_stream::{lemma_pulls_push, pulls, SampleStream};
use vstd::arithmetic::div_mod::lemma_small_mod;
use vstd::prelude::*;
use vstd::wrapping::usize_specs::wrapping_add;

verus! {

/// Each of `streams` is pulled once: the stream at `i` hands out `outs[i]`
/// and is left as `afters[i]`.
pub open spec fn polled<T, S: SampleStream<T>>(
    streams: Seq<S>,
    afters: Seq<S>,
    outs: Seq<Option<T>>,
) -> bool {
    &&& afters.len() == streams.len()
    &&& outs.len() == streams.len()
    &&& forall|i: int| 0 <= i < streams.len() ==> (#[trigger] streams[i]).step(&afters[i], outs[i])
}

/// The streams that handed out a sample, as the poll left them and in
/// their order: a stream that hands out nothing is dropped.
pub open spec fn kept<T, S>(afters: Seq<S>, outs: Seq<Option<T>>) -> Seq<S>
    decreases afters.len(),
{
    if afters.len() == 0 || outs.len() != afters.len() {
        Seq::empty()
    } else {
        let before = kept(afters.drop_last(), outs.drop_last());
        if outs.last() is Some {
            before.push(afters.last())
        } else {
            before
        }
    }
}

/// The samples that a poll handed out, in the order of the streams.
pub open spec fn heard<T>(outs: Seq<Option<T>>) -> Seq<T>
    decreases outs.len(),
{
    if outs.len() == 0 {
        Seq::empty()
    } else {
        let before = heard(outs.drop_last());
        match outs.last() {
            Some(sample) => before.push(sample),
            None => before,
        }
    }
}

/// The counts of the streams from the place `from` on that a pull has not
/// polled yet: one less than they will be.
pub open spec fn unpolled(counts: Seq<nat>, from: int) -> Seq<nat> {
    Seq::new((counts.len() - from) as nat, |j: int| (counts[from + j] - 1) as nat)
}

/// How many samples a mixer at the count `sample_count` hands out until its
/// count is a multiple of `channels`: the rest of the frame, or less where
/// the count wraps round to zero before.
pub open spec fn to_boundary(sample_count: usize, channels: usize) -> int {
    if sample_count % channels == 0 {
        0
    } else if channels - sample_count % channels <= usize::MAX - sample_count {
        channels - sample_count % channels
    } else {
        usize::MAX - sample_count + 1
    }
}

/// The mixing engine: the streams that play, summed sample by sample.
///
/// A stream that is added waits in `pending` and starts to play with the
/// next frame, so that the channels of all streams stay in step. A stream
/// is dropped by the pull in which it hands out nothing.
pub struct AudioMixer<S, A: Arithmetic> {
    pub channels: usize,
    pub sample_rate: usize,
    /// The samples handed out so far, wrapping round.
    pub sample_count: usize,
    pub pending: Vec<S>,
    pub playing: Vec<S>,
    /// How often each stream that plays has been pulled, in their order.
    pub polls: Ghost<Seq<nat>>,
    pub paused: bool,
    pub silence: A::Sample,
    pub math: A,
}

impl<S: SampleStream<A::Sample>, A: Arithmetic> AudioMixer<S, A> {
    /// What a pull never changes.
    pub open spec fn same_setup(&self, after: &Self) -> bool {
        &&& after.channels == self.channels
        &&& after.sample_rate == self.sample_rate
        &&& after.paused == self.paused
        &&& after.silence == self.silence
        &&& after.math == self.math
    }

    /// Whether the next sample starts a frame.
    pub open spec fn in_sync(&self) -> bool {
        self.sample_count % self.channels == 0
    }

    /// The streams that the next pull polls: those that play, and at the
    /// start of a frame those that wait, after them.
    pub open spec fn polling(&self) -> Seq<S> {
        if self.in_sync() {
            self.playing@ + self.pending@
        } else {
            self.playing@
        }
    }

    /// How often the streams that the next pull polls will have been
    /// pulled when it is done: once more than before, and once for each
    /// stream that begins to play.
    pub open spec fn polling_counts(&self) -> Seq<nat> {
        Seq::new(
            self.polling().len(),
            |i: int|
                if i < self.polls@.len() {
                    self.polls@[i] + 1
                } else {
                    1nat
                },
        )
    }

    /// Every stream that plays is in step with the mixer: it has been
    /// pulled for whole frames and for as many samples more as the mixer has
    /// handed out of its current frame.
    pub open spec fn in_phase(&self) -> bool {
        forall|i: int|
            0 <= i < self.polls@.len() ==> (#[trigger] self.polls@[i]) % (self.channels as nat) == (
            self.sample_count as nat) % (self.channels as nat)
    }

    /// Whether a stream waits or plays.
    pub open spec fn has_streams(&self) -> bool {
        self.pending@.len() > 0 || self.playing@.len() > 0
    }

    /// A mixer without streams for an output of `channels` channels at
    /// `sample_rate`. It is not paused.
    pub fn new(channels: usize, sample_rate: usize, math: A) -> (mixer: Self)
        requires
            channels > 0,
        ensures
            mixer.ready(),
            mixer.channels == channels,
            mixer.sample_rate == sample_rate,
            mixer.sample_count == 0,
            mixer.math == math,
            !mixer.paused,
            !mixer.has_streams(),
            mixer.in_phase(),
            counts(&math, 0, mixer.silence),
    {
        let silence = math.from_count(0);
        Self {
            channels,
            sample_rate,
            sample_count: 0,
            pending: Vec::new(),
            playing: Vec::new(),
            polls: Ghost(Seq::empty()),
            paused: false,
            silence,
            math,
        }
    }

    /// Adds a stream. It waits for the next frame to start.
    pub fn add(&mut self, source: S)
        requires
            old(self).ready(),
            source.ready(),
        ensures
            final(self).ready(),
            final(self).pending@ == old(self).pending@.push(source),
            final(self).playing == old(self).playing,
            final(self).polls == old(self).polls,
            final(self).sample_count == old(self).sample_count,
            old(self).same_setup(final(self)),
            final(self).has_streams(),
    {
        self.pending.push(source);
    }

    /// Whether a stream waits or plays.
    pub fn is_playing(&self) -> (answer: bool)
        ensures
            answer == self.has_streams(),
    {
        !self.pending.is_empty() || !self.playing.is_empty()
    }

    /// The number of output channels.
    pub fn channels(&self) -> (channels: usize)
        ensures
            channels == self.channels,
    {
        self.channels
    }

    /// The output's sample rate.
    pub fn sample_rate(&self) -> (sample_rate: usize)
        ensures
            sample_rate == self.sample_rate,
    {
        self.sample_rate
    }

    /// Pauses the mixer: it hands out silence and leaves its streams where
    /// they are.
    pub fn pause(&mut self)
        ensures
            final(self).paused,
            final(self).channels == old(self).channels,
            final(self).sample_rate == old(self).sample_rate,
            final(self).sample_count == old(self).sample_count,
            final(self).pending == old(self).pending,
            final(self).playing == old(self).playing,
            final(self).polls == old(self).polls,
            final(self).silence == old(self).silence,
            final(self).math == old(self).math,
    {
        self.paused = true;
    }

    /// Lets a paused mixer play again.
    pub fn play(&mut self)
        ensures
            !final(self).paused,
            final(self).channels == old(self).channels,
            final(self).sample_rate == old(self).sample_rate,
            final(self).sample_count == old(self).sample_count,
            final(self).pending == old(self).pending,
            final(self).playing == old(self).playing,
            final(self).polls == old(self).polls,
            final(self).silence == old(self).silence,
            final(self).math == old(self).math,
    {
        self.paused = false;
    }

    /// Fills `out` with the next samples, one pull for each place and in
    /// their order: what the device asks for at one time.
    pub fn fill(&mut self, out: &mut Vec<A::Sample>)
        requires
            old(self).ready(),
        ensures
            final(self).ready(),
            final(out)@.len() == old(out)@.len(),
            exists|got: Seq<Option<A::Sample>>| #[trigger]
                pulls(*old(self), *final(self), got) && got.len() == final(out)@.len() && forall|
                    i: int,
                |
                    0 <= i < got.len() ==> got[i] == Some(#[trigger] final(out)@[i]),
    {
        let ghost mut got = Seq::<Option<A::Sample>>::empty();
        let len = out.len();
        let mut i: usize = 0;
        while i < len
            invariant
                self.ready(),
                len == out@.len(),
                out@.len() == old(out)@.len(),
                i <= len,
                got.len() == i,
                pulls(*old(self), *self, got),
                forall|j: int| 0 <= j < i ==> got[j] == Some(#[trigger] out@[j]),
            decreases len - i,
        {
            let ghost before = *self;
            let pulled = self.next();
            proof {
                lemma_pulls_push(*old(self), before, *self, got, pulled);
                got = got.push(pulled);
            }
            match pulled {
                Some(sample) => {
                    out.set(i, sample);
                },
                None => {},
            }
            i += 1;
        }
    }

    /// Hands out samples, which are lost, until the sample count is a
    /// multiple of `channels`: what a mixer does before its output moves to
    /// a device of that many channels.
    pub fn finish_frame(&mut self, channels: usize)
        requires
            old(self).ready(),
            channels > 0,
        ensures
            final(self).ready(),
            final(self).sample_count % channels == 0,
            exists|got: Seq<Option<A::Sample>>| #[trigger]
                pulls(*old(self), *final(self), got) && got.len() == to_boundary(
                    old(self).sample_count,
                    channels,
                ),
    {
        let ghost mut got = Seq::<Option<A::Sample>>::empty();
        while self.sample_count % channels != 0
            invariant
                self.ready(),
                channels > 0,
                pulls(*old(self), *self, got),
                got.len() + to_boundary(self.sample_count, channels) == to_boundary(
                    old(self).sample_count,
                    channels,
                ),
            decreases to_boundary(self.sample_count, channels),
        {
            let ghost before = *self;
            let out = self.next();
            proof {
                lemma_pulls_push(*old(self), before, *self, got, out);
                got = got.push(out);
                lemma_boundary_nears(before.sample_count, channels);
            }
        }
    }

    /// A stream that is added inside a frame does not play before the next
    /// frame starts: a pull inside a frame leaves the streams that wait as
    /// they are and polls none but those that already play.
    pub proof fn lemma_waiting_streams_start_with_a_frame(
        self,
        after: Self,
        out: Option<A::Sample>,
    )
        requires
            !self.paused,
            !self.in_sync(),
            self.step(&after, out),
        ensures
            after.pending@ == self.pending@,
            exists|afters: Seq<S>, outs: Seq<Option<A::Sample>>| #[trigger]
                polled(self.playing@, afters, outs) && after.playing@ == kept(afters, outs),
    {
    }

    /// However many samples are pulled inside a frame, the streams that
    /// wait go on waiting: they are there, unchanged, until the sample
    /// count comes to a multiple of the channels.
    pub proof fn lemma_waiting_streams_wait_for_the_frame(
        start: Self,
        end: Self,
        got: Seq<Option<A::Sample>>,
    )
        requires
            !start.paused,
            start.sample_count + got.len() <= usize::MAX,
            forall|ahead: int|
                0 <= ahead < got.len() ==> #[trigger] ((start.sample_count + ahead) % (
                start.channels as int)) != 0,
            pulls(start, end, got),
        ensures
            end.pending@ == start.pending@,
            end.sample_count == start.sample_count + got.len(),
            start.same_setup(&end),
        decreases got.len(),
    {
        if got.len() > 0 {
            let mid = choose|mid: Self|
                pulls(start, mid, got.drop_last()) && #[trigger] mid.step(&end, got.last());
            Self::lemma_waiting_streams_wait_for_the_frame(start, mid, got.drop_last());
            assert((start.sample_count + (got.len() - 1)) % (start.channels as int) != 0);
        }
    }

    /// At the start of a frame every stream that waits begins to play: the
    /// pull polls it, after the streams that played before, and none is
    /// left waiting.
    pub proof fn lemma_a_frame_starts_every_waiting_stream(
        self,
        after: Self,
        out: Option<A::Sample>,
    )
        requires
            !self.paused,
            self.in_sync(),
            self.step(&after, out),
        ensures
            after.pending@.len() == 0,
            exists|afters: Seq<S>, outs: Seq<Option<A::Sample>>| #[trigger]
                polled(self.playing@ + self.pending@, afters, outs) && after.playing@ == kept(
                    afters,
                    outs,
                ),
    {
    }

    /// The streams that play stay in step with the mixer and with each
    /// other: if each has been pulled for whole frames and as many samples
    /// more as the mixer has handed out of its frame, so it is after a pull,
    /// for those that played before and for those that begin with this pull.
    /// A pull of a paused mixer, which counts a sample and pulls no stream,
    /// is left out, and so is the pull with which the count wraps round.
    pub proof fn lemma_streams_stay_in_phase(self, after: Self, out: Option<A::Sample>)
        requires
            self.channels > 0,
            self.polls@.len() == self.playing@.len(),
            self.in_phase(),
            !self.paused,
            self.sample_count < usize::MAX,
            self.step(&after, out),
        ensures
            after.in_phase(),
    {
        let channels = self.channels as int;
        let phase = (self.sample_count + 1) % channels;
        let outs = choose|outs: Seq<Option<A::Sample>>|
            outs.len() == self.polling().len() && after.polls@ == kept(
                self.polling_counts(),
                outs,
            );
        let counts = self.polling_counts();
        lemma_next_place(self.sample_count as int, channels);
        assert forall|j: int| 0 <= j < counts.len() implies (#[trigger] counts[j]) % (
        channels as nat) == phase by {
            if j < self.polls@.len() {
                assert(self.polls@[j] % (channels as nat) == (self.sample_count as nat) % (
                channels as nat));
                lemma_next_place(self.polls@[j] as int, channels);
            } else {
                lemma_next_place(0, channels);
                lemma_small_mod(0, channels as nat);
            }
        }
        lemma_kept_keeps_the_phase(counts, outs, channels as nat, phase as nat);
    }

    /// A stream is gone with the pull in which it hands out nothing: as
    /// many streams play on as samples were handed out. So when every
    /// stream that was polled has ended, none plays any more.
    pub proof fn lemma_ended_streams_are_dropped(afters: Seq<S>, outs: Seq<Option<A::Sample>>)
        requires
            afters.len() == outs.len(),
        ensures
            kept(afters, outs).len() == heard(outs).len(),
            heard(outs).len() <= outs.len(),
            (forall|i: int| 0 <= i < outs.len() ==> (#[trigger] outs[i]) is None) ==> kept(
                afters,
                outs,
            ).len() == 0,
        decreases afters.len(),
    {
        if afters.len() > 0 {
            Self::lemma_ended_streams_are_dropped(afters.drop_last(), outs.drop_last());
            if forall|i: int| 0 <= i < outs.len() ==> (#[trigger] outs[i]) is None {
                assert forall|i: int| 0 <= i < outs.drop_last().len() implies (
                #[trigger] outs.drop_last()[i]) is None by {
                }
            }
        }
    }
}

/// One more sample brings a mixer one sample nearer to the start of a frame.
pub proof fn lemma_boundary_nears(sample_count: usize, channels: usize)
    requires
        channels > 0,
        sample_count % channels != 0,
    ensures
        to_boundary(wrapping_add(sample_count, 1), channels) == to_boundary(sample_count, channels)
            - 1,
{
    let c = channels as int;
    let x = sample_count as int;
    if sample_count == usize::MAX {
        assert(0int % c == 0) by (nonlinear_arith)
            requires
                c > 0,
        ;
    } else {
        assert((x + 1) % c == if x % c + 1 == c {
            0
        } else {
            x % c + 1
        }) by (nonlinear_arith)
            requires
                c > 0,
                x >= 0,
        ;
        assert(0 < x % c < c) by (nonlinear_arith)
            requires
                c > 0,
                x >= 0,
                x % c != 0,
        ;
    }
}

/// The counts that are kept have the phase that all the counts have.
pub proof fn lemma_kept_keeps_the_phase<T>(
    counts: Seq<nat>,
    outs: Seq<Option<T>>,
    channels: nat,
    phase: nat,
)
    requires
        channels > 0,
        forall|j: int| 0 <= j < counts.len() ==> (#[trigger] counts[j]) % channels == phase,
    ensures
        forall|i: int|
            0 <= i < kept(counts, outs).len() ==> (#[trigger] kept(counts, outs)[i]) % channels
                == phase,
    decreases counts.len(),
{
    if counts.len() > 0 && outs.len() == counts.len() {
        assert forall|j: int| 0 <= j < counts.drop_last().len() implies (
        #[trigger] counts.drop_last()[j]) % channels == phase by {
            assert(counts.drop_last()[j] == counts[j]);
        }
        lemma_kept_keeps_the_phase(counts.drop_last(), outs.drop_last(), channels, phase);
        let before = kept(counts.drop_last(), outs.drop_last());
        assert forall|i: int| 0 <= i < kept(counts, outs).len() implies (#[trigger] kept(
            counts,
            outs,
        )[i]) % channels == phase by {
            if i < before.len() {
                assert(kept(counts, outs)[i] == before[i]);
            } else {
                assert(kept(counts, outs)[i] == counts[counts.len() - 1]);
            }
        }
    }
}

/// A poll that went one stream further.
pub proof fn lemma_kept_push<T, S>(afters: Seq<S>, outs: Seq<Option<T>>, after: S, out: Option<T>)
    requires
        afters.len() == outs.len(),
    ensures
        kept(afters.push(after), outs.push(out)) == if out is Some {
            kept(afters, outs).push(after)
        } else {
            kept(afters, outs)
        },
        heard(outs.push(out)) == match out {
            Some(sample) => heard(outs).push(sample),
            None => heard(outs),
        },
{
    assert(afters.push(after).drop_last() =~= afters);
    assert(outs.push(out).drop_last() =~= outs);
}

impl<S: SampleStream<A::Sample>, A: Arithmetic> SampleStream<A::Sample> for AudioMixer<S, A> {
    open spec fn ready(&self) -> bool {
        &&& self.channels > 0
        &&& forall|i: int| 0 <= i < self.pending@.len() ==> (#[trigger] self.pending@[i]).ready()
        &&& forall|i: int| 0 <= i < self.playing@.len() ==> (#[trigger] self.playing@[i]).ready()
        &&& self.polls@.len() == self.playing@.len()
    }

    /// A pull counts one sample. A paused mixer hands out silence and
    /// leaves its streams alone. Else, at the start of a frame, the streams
    /// that wait begin to play; every stream that plays is pulled once, in
    /// order; those that hand out nothing are dropped; the mixer hands out
    /// the total of silence and the samples of the others, added up in their
    /// order. A mixer never ends.
    open spec fn step(&self, after: &Self, out: Option<A::Sample>) -> bool {
        &&& self.same_setup(after)
        &&& after.sample_count == wrapping_add(self.sample_count, 1)
        &&& out is Some
        &&& if self.paused {
            &&& out == Some(self.silence)
            &&& after.pending == self.pending
            &&& after.playing == self.playing
            &&& after.polls == self.polls
        } else {
            &&& after.pending@ == if self.in_sync() {
                Seq::empty()
            } else {
                self.pending@
            }
            &&& exists|afters: Seq<S>, outs: Seq<Option<A::Sample>>| #[trigger]
                polled(self.polling(), afters, outs) && after.playing@ == kept(afters, outs)
                    && after.polls@ == kept(self.polling_counts(), outs) && totals(
                    &self.math,
                    seq![self.silence] + heard(outs),
                    out.unwrap(),
                )
        }
    }

    fn next(&mut self) -> (out: Option<A::Sample>) {
        if self.paused {
            self.sample_count = self.sample_count.wrapping_add(1);
            return Some(self.silence);
        }
        let in_sync = self.sample_count % self.channels == 0;
        let ghost counts = self.polling_counts();
        if in_sync {
            self.playing.append(&mut self.pending);
        }
        self.polls = Ghost(unpolled(counts, 0));
        let ghost streams = self.playing@;
        let ghost mut afters = Seq::<S>::empty();
        let ghost mut outs = Seq::<Option<A::Sample>>::empty();
        let mut total = self.silence;
        proof {
            assert(self.polls@ =~= kept(counts.subrange(0, 0), outs) + unpolled(counts, 0));
        }
        let mut i: usize = 0;
        while i < self.playing.len()
            invariant
                self.ready(),
                old(self).same_setup(self),
                self.sample_count == old(self).sample_count,
                self.pending@ == if old(self).in_sync() {
                    Seq::empty()
                } else {
                    old(self).pending@
                },
                streams == old(self).polling(),
                counts == old(self).polling_counts(),
                afters.len() == outs.len(),
                afters.len() <= streams.len(),
                i == kept(afters, outs).len(),
                self.polls@ == kept(counts.subrange(0, afters.len() as int), outs) + unpolled(
                    counts,
                    afters.len() as int,
                ),
                self.playing@ == kept(afters, outs) + streams.subrange(
                    afters.len() as int,
                    streams.len() as int,
                ),
                forall|j: int|
                    0 <= j < afters.len() ==> (#[trigger] streams[j]).step(&afters[j], outs[j]),
                totals(&self.math, seq![self.silence] + heard(outs), total),
            decreases streams.len() - afters.len(),
        {
            let ghost done = afters.len() as int;
            let stream = &mut self.playing[i];
            let out = stream.next();
            let ghost after = self.playing@[i as int];
            proof {
                lemma_kept_push(afters, outs, after, out);
                lemma_kept_push(counts.subrange(0, done), outs, counts[done], out);
                assert(counts.subrange(0, done).push(counts[done]) =~= counts.subrange(
                    0,
                    done + 1,
                ));
            }
            match out {
                Some(sample) => {
                    let sum = self.math.sum(total, sample);
                    proof {
                        lemma_totals_push(
                            &self.math,
                            seq![self.silence] + heard(outs),
                            total,
                            sample,
                            sum,
                        );
                    }
                    total = sum;
                    self.polls = Ghost(self.polls@.update(i as int, counts[done]));
                    proof {
                        assert(self.polls@ =~= kept(counts.subrange(0, done), outs).push(
                            counts[done],
                        ) + unpolled(counts, done + 1));
                    }
                    i += 1;
                },
                None => {
                    self.playing.remove(i);
                    self.polls = Ghost(self.polls@.remove(i as int));
                    proof {
                        assert(self.polls@ =~= kept(counts.subrange(0, done), outs) + unpolled(
                            counts,
                            done + 1,
                        ));
                    }
                },
            }
            proof {
                afters = afters.push(after);
                outs = outs.push(out);
            }
        }
        self.sample_count = self.sample_count.wrapping_add(1);
        proof {
            assert(polled(old(self).polling(), afters, outs));
            assert(counts.subrange(0, afters.len() as int) =~= counts);
            assert(self.polls@ =~= kept(counts, outs));
        }
        Some(total)
    }
}

} // verus!
