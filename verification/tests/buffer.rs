use audio_mixer::{
    Arithmetic, DynamicUsize, MaybeDynamic, Recording, ReusableBuffer, SampleStream,
};

struct Ieee;

impl Arithmetic for Ieee {
    type Sample = f32;
    type Position = f64;

    fn from_count(&self, n: usize) -> f32 {
        n as f32
    }

    fn to_count(&self, x: f32) -> usize {
        x as usize
    }

    fn sum(&self, a: f32, b: f32) -> f32 {
        a + b
    }

    fn difference(&self, a: f32, b: f32) -> f32 {
        a - b
    }

    fn product(&self, a: f32, b: f32) -> f32 {
        a * b
    }

    fn quotient(&self, a: f32, b: f32) -> f32 {
        a / b
    }

    fn at_most(&self, a: f32, b: f32) -> bool {
        a <= b
    }

    fn below(&self, a: f32, b: f32) -> bool {
        a < b
    }

    fn same(&self, a: f32, b: f32) -> bool {
        a == b
    }

    fn sine(&self, x: f32) -> f32 {
        x.sin()
    }

    fn cosine(&self, x: f32) -> f32 {
        x.cos()
    }

    fn pi(&self) -> f32 {
        std::f32::consts::PI
    }

    fn origin(&self) -> f64 {
        0.
    }

    fn advance(&self, position: f64, by: f32) -> f64 {
        position + by as f64
    }

    fn index(&self, position: f64) -> usize {
        position as usize
    }

    fn fraction(&self, position: f64) -> f32 {
        position.fract() as f32
    }
}

fn samples(data: &[f32]) -> ReusableBuffer<f32, usize> {
    ReusableBuffer::new(0, data.to_vec())
}

fn collect<S: SampleStream<f32>>(mut stream: S) -> Vec<f32> {
    let mut output = vec![];
    while let Some(sample) = stream.next() {
        output.push(sample);
    }
    output
}

#[test]
fn two_handles_replay_the_whole_recording_whatever_the_order_of_their_pulls() {
    let buffer = samples(&[1., 2., 3.]);
    let mut one = buffer.reuse_from(0_usize);
    let mut other = buffer.reuse_from(0_usize);

    assert_eq!(one.next(), Some(1.));
    assert_eq!(other.next(), Some(1.));
    assert_eq!(other.next(), Some(2.));
    assert_eq!(other.next(), Some(3.));
    assert_eq!(one.next(), Some(2.));
    assert_eq!(other.next(), None);
    assert_eq!(one.next(), Some(3.));
    assert_eq!(one.next(), None);
    assert_eq!(other.next(), None);

    assert_eq!(collect(buffer), vec![1., 2., 3.]);
}

#[test]
fn a_handle_starts_at_the_place_it_is_given() {
    let buffer = samples(&[1., 2., 3., 4.]);
    assert_eq!(buffer.len(), 4);
    assert_eq!(collect(buffer.reuse_from(2_usize)), vec![3., 4.]);
    assert_eq!(collect(buffer.reuse_from(4_usize)), vec![]);
    assert_eq!(collect(buffer.reuse_from(9_usize)), vec![]);
    assert_eq!(collect(ReusableBuffer::new(1_usize, vec![1., 2.])), vec![2.]);
    assert_eq!(buffer.reuse_from(0_usize).len(), 4);
}

#[test]
fn a_handle_without_a_seek_control_stays_at_its_end() {
    let mut handle = samples(&[1.]);
    assert_eq!(handle.without_seeking(), Some(1.));
    assert_eq!(handle.without_seeking(), None);
    handle.counter = 0;
    assert_eq!(handle.next(), None);
    assert_eq!(handle.always_emit_none(), None);
}

#[test]
fn a_handle_with_a_seek_control_follows_it() {
    let mut seek = DynamicUsize::new(1).set_cache_time(0);
    let mut handle = ReusableBuffer::new(seek.clone(), vec![1., 2., 3.]);
    assert_eq!(handle.next(), Some(2.));
    assert_eq!(seek.get(), 2);
    assert_eq!(handle.next(), Some(3.));
    assert_eq!(handle.next(), None);
    assert_eq!(seek.get(), 3);

    seek.set(0);
    assert_eq!(handle.with_seeking(), Some(1.));
    assert_eq!(handle.next(), Some(2.));
    seek.set(7);
    assert_eq!(handle.next(), None);
    assert_eq!(seek.get(), 7);
}

#[test]
fn handles_that_share_a_seek_control_share_their_place() {
    let seek = DynamicUsize::new(0).set_cache_time(0);
    let mut one = ReusableBuffer::new(seek.clone(), vec![1., 2., 3., 4.]);
    let mut other = one.reuse_from(seek.clone());
    assert_eq!(one.next(), Some(1.));
    assert_eq!(other.next(), Some(2.));
    assert_eq!(one.next(), Some(3.));
    assert_eq!(other.next(), Some(4.));
    assert_eq!(one.next(), None);
    assert_eq!(<DynamicUsize as MaybeDynamic<usize>>::is_dynamic(), true);
}

struct Counted {
    data: Vec<f32>,
    pulls: usize,
}

impl SampleStream<f32> for Counted {
    fn next(&mut self) -> Option<f32> {
        let sample = self.data.get(self.pulls).copied();
        self.pulls += 1;
        sample
    }
}

#[test]
fn a_recording_pulls_its_source_once_for_each_sample() {
    let mut recording = Recording::new(Counted { data: vec![1., 2., 3., 4.], pulls: 0 });
    assert_eq!(recording.len(), 0);
    assert_eq!(recording.get(0), None);

    assert_eq!(recording.fill(2), Some(3.));
    assert_eq!(recording.source.pulls, 3);
    assert_eq!(recording.samples, vec![1., 2., 3.]);

    assert_eq!(recording.fill(0), Some(1.));
    assert_eq!(recording.fill(2), Some(3.));
    assert_eq!(recording.get(1), Some(2.));
    assert_eq!(recording.source.pulls, 3);

    assert_eq!(recording.fill(3), Some(4.));
    assert_eq!(recording.source.pulls, 4);
    assert_eq!(recording.len(), 4);
}

#[test]
fn a_recording_whose_source_has_ended_has_its_final_length() {
    let mut recording = Recording::new(Counted { data: vec![1., 2.], pulls: 0 });
    assert_eq!(recording.fill(5), None);
    assert_eq!(recording.ended, true);
    assert_eq!(recording.samples, vec![1., 2.]);
    assert_eq!(recording.source.pulls, 3);

    assert_eq!(recording.fill(5), None);
    assert_eq!(recording.fill(2), None);
    assert_eq!(recording.fill(1), Some(2.));
    assert_eq!(recording.source.pulls, 3);
    assert_eq!(recording.len(), 2);
}

#[test]
fn a_handle_with_a_control_at_the_default_cache_time_replays_in_order() {
    let seek = DynamicUsize::new(0);
    let mut handle = ReusableBuffer::new(seek.clone(), vec![1., 2., 3.]);
    assert_eq!(handle.next(), Some(1.));
    assert_eq!(handle.next(), Some(2.));
    assert_eq!(handle.next(), Some(3.));
    assert_eq!(seek.clone().get(), 3);
    assert_eq!(handle.next(), None);
    assert_eq!(handle.next(), None);
    assert_eq!(seek.clone().get(), 3);
}

#[test]
fn a_plain_cursor_can_seek_too() {
    let mut handle = ReusableBuffer::new(1_usize, vec![1., 2., 3.]);
    assert_eq!(handle.with_seeking(), Some(2.));
    assert_eq!(handle.with_seeking(), Some(3.));
    assert_eq!(handle.with_seeking(), None);
    assert_eq!(handle.seek, 3);
}
