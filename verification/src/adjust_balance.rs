use crate::arithmetic::{counts, differs, equates, multiplies, precedes, sums, Arithmetic};
use crate::dynamic_controls::MaybeDynamic;
use crate::sample_stream::{complete, lemma_pulls_push, pulls, stops_at_end, SampleStream};
use vstd::prelude::*;

verus! {

/// `r` is what keeping `x` between `low` and `high` may give: `low` where
/// `x` is below it, else `high` where `x` is above it, else `x`.
pub open spec fn clamps<A: Arithmetic>(
    m: &A,
    x: A::Sample,
    low: A::Sample,
    high: A::Sample,
    r: A::Sample,
) -> bool {
    exists|under: bool| #[trigger]
        precedes(m, x, low, under) && if under {
            r == low
        } else {
            exists|over: bool| #[trigger]
                precedes(m, high, x, over) && r == if over {
                    high
                } else {
                    x
                }
        }
}

/// Keeps `x` between `low` and `high`.
pub fn clamp<A: Arithmetic>(math: &A, x: A::Sample, low: A::Sample, high: A::Sample) -> (r:
    A::Sample)
    ensures
        clamps(math, x, low, high, r),
{
    let under = math.below(x, low);
    if under {
        proof {
            assert(precedes(math, x, low, under));
        }
        low
    } else {
        let over = math.below(high, x);
        proof {
            assert(precedes(math, high, x, over));
            assert(precedes(math, x, low, under));
        }
        if over {
            high
        } else {
            x
        }
    }
}

/// The four volumes of a balance: of the left channel in the left output,
/// of the right channel in the right output, and what each loses, which
/// goes to the other side.
pub struct BalanceVolumes<T> {
    pub left: T,
    pub right: T,
    pub inv_left: T,
    pub inv_right: T,
}

/// `volumes` are what the balance `balance` may give, where 0 is fully
/// left, 0.5 the middle and 1 fully right:
/// `left = clamp((1 - balance) * 2, 0, 1)`, `right = clamp(balance * 2, 0, 1)`,
/// `inv_left = 1 - left`, `inv_right = 1 - right`.
pub open spec fn balances<A: Arithmetic>(
    m: &A,
    balance: A::Sample,
    volumes: BalanceVolumes<A::Sample>,
) -> bool {
    exists|
        zero: A::Sample,
        one: A::Sample,
        two: A::Sample,
        from_left: A::Sample,
        left_twice: A::Sample,
        right_twice: A::Sample,
    |
        {
            &&& #[trigger] counts(m, 0, zero)
            &&& #[trigger] counts(m, 1, one)
            &&& #[trigger] counts(m, 2, two)
            &&& #[trigger] differs(m, one, balance, from_left)
            &&& #[trigger] multiplies(m, from_left, two, left_twice)
            &&& clamps(m, left_twice, zero, one, volumes.left)
            &&& #[trigger] multiplies(m, balance, two, right_twice)
            &&& clamps(m, right_twice, zero, one, volumes.right)
            &&& differs(m, one, volumes.left, volumes.inv_left)
            &&& differs(m, one, volumes.right, volumes.inv_right)
        }
}

/// The volumes of a balance.
pub fn left_right_volumes<A: Arithmetic>(math: &A, balance: A::Sample) -> (volumes: BalanceVolumes<
    A::Sample,
>)
    ensures
        balances(math, balance, volumes),
{
    let zero = math.from_count(0);
    let one = math.from_count(1);
    let two = math.from_count(2);
    let from_left = math.difference(one, balance);
    let left_twice = math.product(from_left, two);
    let left = clamp(math, left_twice, zero, one);
    let right_twice = math.product(balance, two);
    let right = clamp(math, right_twice, zero, one);
    let inv_left = math.difference(one, left);
    let inv_right = math.difference(one, right);
    proof {
        assert(counts(math, 0, zero) && counts(math, 1, one) && counts(math, 2, two));
        assert(differs(math, one, balance, from_left));
        assert(multiplies(math, from_left, two, left_twice));
        assert(multiplies(math, balance, two, right_twice));
    }
    BalanceVolumes { left, right, inv_left, inv_right }
}

/// `mixed` is what the frame `(left, right)` may become under `volumes`:
/// each side keeps its own channel at its volume and takes what the other
/// side lost: `left * volumes.left + right * volumes.inv_right` and
/// `right * volumes.right + left * volumes.inv_left`.
pub open spec fn blends<A: Arithmetic>(
    m: &A,
    left: A::Sample,
    right: A::Sample,
    volumes: BalanceVolumes<A::Sample>,
    mixed: (A::Sample, A::Sample),
) -> bool {
    exists|kept_left: A::Sample, from_right: A::Sample, kept_right: A::Sample, from_left: A::Sample|
        {
            &&& #[trigger] multiplies(m, left, volumes.left, kept_left)
            &&& #[trigger] multiplies(m, right, volumes.inv_right, from_right)
            &&& sums(m, kept_left, from_right, mixed.0)
            &&& #[trigger] multiplies(m, right, volumes.right, kept_right)
            &&& #[trigger] multiplies(m, left, volumes.inv_left, from_left)
            &&& sums(m, kept_right, from_left, mixed.1)
        }
}

/// Mixes one stereo frame under `volumes`.
pub fn blend<A: Arithmetic>(
    math: &A,
    left: A::Sample,
    right: A::Sample,
    volumes: &BalanceVolumes<A::Sample>,
) -> (mixed: (A::Sample, A::Sample))
    ensures
        blends(math, left, right, *volumes, mixed),
{
    let kept_left = math.product(left, volumes.left);
    let from_right = math.product(right, volumes.inv_right);
    let new_left = math.sum(kept_left, from_right);
    let kept_right = math.product(right, volumes.right);
    let from_left = math.product(left, volumes.inv_left);
    let new_right = math.sum(kept_right, from_left);
    proof {
        assert(multiplies(math, left, volumes.left, kept_left));
        assert(multiplies(math, right, volumes.inv_right, from_right));
        assert(multiplies(math, right, volumes.right, kept_right));
        assert(multiplies(math, left, volumes.inv_left, from_left));
    }
    (new_left, new_right)
}

/// Moves a stereo stream between its left and its right channel. What a
/// side loses is added to the other, so nothing of the sound is lost.
///
/// The source has to be stereo.
pub struct AdjustBalance<B, S, A: Arithmetic> {
    pub balance: B,
    pub source: S,
    pub volumes: BalanceVolumes<A::Sample>,
    /// The right sample of a frame whose left sample was handed out.
    pub next_sample: Option<A::Sample>,
    /// The balance that `volumes` belong to.
    pub prev_balance: A::Sample,
    pub math: A,
}

impl<B: MaybeDynamic<A::Sample>, S: SampleStream<A::Sample>, A: Arithmetic> AdjustBalance<B, S, A> {
    /// What a pull for a left sample does, with `got` pulled from the source.
    ///
    /// A whole frame is pulled; if the source ends within it, the stream
    /// ends and nothing else changes. Else the balance is read; if it
    /// differs from the one before, the volumes are set anew. The frame is
    /// mixed, its left sample handed out and its right sample kept.
    pub open spec fn mixed(
        &self,
        after: &Self,
        got: Seq<Option<A::Sample>>,
        out: Option<A::Sample>,
    ) -> bool {
        &&& stops_at_end(got, 2)
        &&& if complete(got, 2) {
            exists|balance: A::Sample, same: bool|
                {
                    &&& #[trigger] self.balance.reads(&after.balance, balance)
                    &&& #[trigger] equates(&self.math, balance, self.prev_balance, same)
                    &&& if same {
                        after.volumes == self.volumes && after.prev_balance == self.prev_balance
                    } else {
                        balances(&self.math, balance, after.volumes) && after.prev_balance
                            == balance
                    }
                    &&& out is Some
                    &&& after.next_sample is Some
                    &&& blends(
                        &self.math,
                        got[0].unwrap(),
                        got[1].unwrap(),
                        after.volumes,
                        (out.unwrap(), after.next_sample.unwrap()),
                    )
                }
        } else {
            &&& out is None
            &&& after.balance == self.balance
            &&& after.volumes == self.volumes
            &&& after.prev_balance == self.prev_balance
            &&& after.next_sample is None
        }
    }

    /// The stereo stream `source` at the balance that `balance` gives.
    pub fn new(balance: B, source: S, math: A) -> (adjusted: Self)
        requires
            balance.ready(),
            source.ready(),
        ensures
            adjusted.ready(),
            adjusted.source == source,
            adjusted.math == math,
            adjusted.next_sample is None,
            balance.reads(&adjusted.balance, adjusted.prev_balance),
            balances(&math, adjusted.prev_balance, adjusted.volumes),
    {
        let mut balance = balance;
        let prev_balance = balance.get();
        let volumes = left_right_volumes(&math, prev_balance);
        Self { balance, source, volumes, next_sample: None, prev_balance, math }
    }
}

impl<B: MaybeDynamic<A::Sample>, S: SampleStream<A::Sample>, A: Arithmetic> SampleStream<
    A::Sample,
> for AdjustBalance<B, S, A> {
    open spec fn ready(&self) -> bool {
        self.balance.ready() && self.source.ready()
    }

    /// A kept right sample is handed out, and nothing else happens. With
    /// none kept, a frame is pulled and mixed.
    open spec fn step(&self, after: &Self, out: Option<A::Sample>) -> bool {
        &&& after.math == self.math
        &&& match self.next_sample {
            Some(kept) => {
                &&& out == Some(kept)
                &&& after.next_sample is None
                &&& after.balance == self.balance
                &&& after.source == self.source
                &&& after.volumes == self.volumes
                &&& after.prev_balance == self.prev_balance
            },
            None => exists|got: Seq<Option<A::Sample>>| #[trigger]
                pulls(self.source, after.source, got) && self.mixed(after, got, out),
        }
    }

    fn next(&mut self) -> (out: Option<A::Sample>) {
        match self.next_sample {
            Some(kept) => {
                self.next_sample = None;
                return Some(kept);
            },
            None => {},
        }
        let ghost mut got = Seq::<Option<A::Sample>>::empty();
        let ghost start = self.source;
        let first = self.source.next();
        proof {
            lemma_pulls_push(old(self).source, start, self.source, got, first);
            got = got.push(first);
        }
        let left_sample = match first {
            Some(sample) => sample,
            None => {
                return None;
            },
        };
        let ghost middle = self.source;
        let second = self.source.next();
        proof {
            lemma_pulls_push(old(self).source, middle, self.source, got, second);
            got = got.push(second);
        }
        let right_sample = match second {
            Some(sample) => sample,
            None => {
                return None;
            },
        };
        let balance = self.balance.get();
        let same = self.math.same(balance, self.prev_balance);
        if !same {
            self.volumes = left_right_volumes(&self.math, balance);
            self.prev_balance = balance;
        }
        let (new_left_sample, new_right_sample) = blend(
            &self.math,
            left_sample,
            right_sample,
            &self.volumes,
        );
        self.next_sample = Some(new_right_sample);
        proof {
            assert(old(self).balance.reads(&self.balance, balance));
            assert(equates(&self.math, balance, old(self).prev_balance, same));
            assert(old(self).mixed(self, got, Some(new_left_sample)));
        }
        Some(new_left_sample)
    }
}

/// The arithmetic is exact where a balance at either end needs it: `zero`,
/// `one` and `two` are the samples for 0, 1 and 2; `1 - 0 = 1`, `1 - 1 = 0`,
/// `1 * 2 = 2`, `0 * 2 = 0`, `0 + 0 = 0`; 2 and 1 are not below 0, 0 is not
/// below itself, and 1 is below 2; and every sample that is handed to it
/// gives `zero` when multiplied by `zero`.
pub open spec fn exact_at_the_ends<A: Arithmetic>(
    m: &A,
    zero: A::Sample,
    one: A::Sample,
    two: A::Sample,
) -> bool {
    &&& forall|z: A::Sample| #[trigger] counts(m, 0, z) ==> z == zero
    &&& forall|z: A::Sample| #[trigger] counts(m, 1, z) ==> z == one
    &&& forall|z: A::Sample| #[trigger] counts(m, 2, z) ==> z == two
    &&& forall|r: A::Sample| #[trigger] differs(m, one, zero, r) ==> r == one
    &&& forall|r: A::Sample| #[trigger] differs(m, one, one, r) ==> r == zero
    &&& forall|r: A::Sample| #[trigger] multiplies(m, one, two, r) ==> r == two
    &&& forall|r: A::Sample| #[trigger] multiplies(m, zero, two, r) ==> r == zero
    &&& forall|x: A::Sample, r: A::Sample| #[trigger] multiplies(m, x, zero, r) ==> r == zero
    &&& forall|r: A::Sample| #[trigger] sums(m, zero, zero, r) ==> r == zero
    &&& forall|a: bool| #[trigger] precedes(m, two, zero, a) ==> !a
    &&& forall|a: bool| #[trigger] precedes(m, one, two, a) ==> a
    &&& forall|a: bool| #[trigger] precedes(m, zero, zero, a) ==> !a
    &&& forall|a: bool| #[trigger] precedes(m, one, zero, a) ==> !a
}

/// The control `control` reads as `value`, whenever it is read, and stays
/// as it is: so does every plain value.
pub open spec fn steady<T, B: MaybeDynamic<T>>(control: B, value: T) -> bool {
    forall|read: B, v: T| #[trigger] control.reads(&read, v) ==> v == value && read == control
}

/// With exact arithmetic, the balance 0 gives the left channel its full
/// volume and the right channel none, and the balance 1 the reverse.
pub proof fn lemma_volumes_at_the_ends<A: Arithmetic>(
    m: &A,
    balance: A::Sample,
    volumes: BalanceVolumes<A::Sample>,
    zero: A::Sample,
    one: A::Sample,
    two: A::Sample,
)
    requires
        exact_at_the_ends(m, zero, one, two),
        balances(m, balance, volumes),
        balance == zero || balance == one,
    ensures
        balance == zero ==> volumes == (BalanceVolumes {
            left: one,
            right: zero,
            inv_left: zero,
            inv_right: one,
        }),
        balance == one ==> volumes == (BalanceVolumes {
            left: zero,
            right: one,
            inv_left: one,
            inv_right: zero,
        }),
{
}

/// With exact arithmetic, a side that has no volume and is given none of
/// the other side's stays silent, whatever the frame.
pub proof fn lemma_a_side_without_volume_is_silent<A: Arithmetic>(
    m: &A,
    left: A::Sample,
    right: A::Sample,
    volumes: BalanceVolumes<A::Sample>,
    mixed: (A::Sample, A::Sample),
    zero: A::Sample,
    one: A::Sample,
    two: A::Sample,
)
    requires
        exact_at_the_ends(m, zero, one, two),
        blends(m, left, right, volumes, mixed),
    ensures
        volumes.right == zero && volumes.inv_left == zero ==> mixed.1 == zero,
        volumes.left == zero && volumes.inv_right == zero ==> mixed.0 == zero,
{
}

impl<B: MaybeDynamic<A::Sample>, S: SampleStream<A::Sample>, A: Arithmetic> AdjustBalance<B, S, A> {
    /// The stream is held at the balance `balance`: its control reads as
    /// that, and its volumes are those of that balance.
    pub open spec fn held_at(&self, balance: A::Sample) -> bool {
        &&& steady(self.balance, balance)
        &&& self.prev_balance == balance
        &&& balances(&self.math, balance, self.volumes)
    }

    /// With exact arithmetic, a balance fully to the left silences the
    /// right channel, and a balance fully to the right the left channel: as
    /// long as the stream has not ended, every second sample that it hands
    /// out, the right one of each frame or the left one, is `zero`.
    pub proof fn lemma_an_end_silences_the_other_side(
        start: Self,
        end: Self,
        got: Seq<Option<A::Sample>>,
        zero: A::Sample,
        one: A::Sample,
        two: A::Sample,
        fully_right: bool,
    )
        requires
            exact_at_the_ends(&start.math, zero, one, two),
            start.held_at(
                if fully_right {
                    one
                } else {
                    zero
                },
            ),
            start.next_sample is None,
            pulls(start, end, got),
            forall|i: int| 0 <= i < got.len() ==> (#[trigger] got[i]) is Some,
        ensures
            end.math == start.math,
            end.held_at(
                if fully_right {
                    one
                } else {
                    zero
                },
            ),
            end.next_sample is Some <==> got.len() % 2 == 1,
            end.next_sample is Some && !fully_right ==> end.next_sample == Some(zero),
            forall|i: int|
                0 <= i < got.len() && i % 2 == (if fully_right {
                    0int
                } else {
                    1int
                }) ==> #[trigger] got[i] == Some(zero),
        decreases got.len(),
    {
        let balance = if fully_right {
            one
        } else {
            zero
        };
        if got.len() > 0 {
            let mid = choose|mid: Self|
                pulls(start, mid, got.drop_last()) && #[trigger] mid.step(&end, got.last());
            assert forall|i: int| 0 <= i < got.drop_last().len() implies (
            #[trigger] got.drop_last()[i]) is Some by {
                assert(got.drop_last()[i] == got[i]);
            }
            Self::lemma_an_end_silences_the_other_side(
                start,
                mid,
                got.drop_last(),
                zero,
                one,
                two,
                fully_right,
            );
            let m = got.len() - 1;
            assert(got[m] is Some);
            if mid.next_sample is None {
                let frame = choose|frame: Seq<Option<A::Sample>>| #[trigger]
                    pulls(mid.source, end.source, frame) && mid.mixed(&end, frame, got.last());
                assert(complete(frame, 2));
                let (read, same) = choose|read: A::Sample, same: bool|
                    {
                        &&& #[trigger] mid.balance.reads(&end.balance, read)
                        &&& #[trigger] equates(&mid.math, read, mid.prev_balance, same)
                        &&& if same {
                            end.volumes == mid.volumes && end.prev_balance == mid.prev_balance
                        } else {
                            balances(&mid.math, read, end.volumes) && end.prev_balance == read
                        }
                        &&& end.next_sample is Some
                        &&& blends(
                            &mid.math,
                            frame[0].unwrap(),
                            frame[1].unwrap(),
                            end.volumes,
                            (got.last().unwrap(), end.next_sample.unwrap()),
                        )
                    };
                lemma_volumes_at_the_ends(&mid.math, balance, end.volumes, zero, one, two);
                lemma_a_side_without_volume_is_silent(
                    &mid.math,
                    frame[0].unwrap(),
                    frame[1].unwrap(),
                    end.volumes,
                    (got.last().unwrap(), end.next_sample.unwrap()),
                    zero,
                    one,
                    two,
                );
            } else {
                lemma_volumes_at_the_ends(&mid.math, balance, mid.volumes, zero, one, two);
            }
            assert forall|i: int|
                0 <= i < got.len() && i % 2 == (if fully_right {
                    0int
                } else {
                    1int
                }) implies #[trigger] got[i] == Some(zero) by {
                if i < m {
                    assert(got[i] == got.drop_last()[i]);
                }
            }
        }
    }
}

} // verus!
