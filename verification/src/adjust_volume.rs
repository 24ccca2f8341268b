use crate::arithmetic::{multiplies, Arithmetic};
use crate::dynamic_controls::MaybeDynamic;
use crate::sample_stream::SampleStream;
use vstd::prelude::*;

verus! {

/// Multiplies every sample of a stream by a volume.
pub struct AdjustVolume<V, S, A> {
    pub volume: V,
    pub source: S,
    pub math: A,
}

impl<V: MaybeDynamic<A::Sample>, S: SampleStream<A::Sample>, A: Arithmetic> AdjustVolume<V, S, A> {
    /// The stream `source` at the volume that `volume` gives.
    pub fn new(volume: V, source: S, math: A) -> (adjusted: Self)
        requires
            volume.ready(),
            source.ready(),
        ensures
            adjusted.ready(),
            adjusted.volume == volume,
            adjusted.source == source,
            adjusted.math == math,
    {
        Self { volume, source, math }
    }
}

impl<V: MaybeDynamic<A::Sample>, S: SampleStream<A::Sample>, A: Arithmetic> SampleStream<
    A::Sample,
> for AdjustVolume<V, S, A> {
    open spec fn ready(&self) -> bool {
        self.volume.ready() && self.source.ready()
    }

    /// The source is pulled. If it hands out a sample, the volume is read
    /// and their product handed out; if not, the volume is left alone.
    open spec fn step(&self, after: &Self, out: Option<A::Sample>) -> bool {
        &&& after.math == self.math
        &&& exists|pulled: Option<A::Sample>| #[trigger]
            self.source.step(&after.source, pulled) && match pulled {
                Some(sample) => {
                    &&& out is Some
                    &&& exists|volume: A::Sample| #[trigger]
                        self.volume.reads(&after.volume, volume) && multiplies(
                            &self.math,
                            sample,
                            volume,
                            out.unwrap(),
                        )
                },
                None => out is None && after.volume == self.volume,
            }
    }

    fn next(&mut self) -> (out: Option<A::Sample>) {
        let pulled = self.source.next();
        match pulled {
            Some(sample) => {
                let volume = self.volume.get();
                let scaled = self.math.product(sample, volume);
                Some(scaled)
            },
            None => None,
        }
    }
}

} // verus!
