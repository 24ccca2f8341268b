use audio_mixer::{Arithmetic, DynamicBool, DynamicUsize, Fixed, MaybeDynamic, PausableAudio, PauseWhenMuted, ReusableBuffer, SampleStream, SkipWhenMuted, StopWhenMuted, StoppableAudio};

struct Ieee;

impl Arithmetic for Ieee {
    type Sample = f32;
    type Position = f64;

    fn from_count(&self, n: usize) -> f32 {
        n as f32
    }

    fn to_count(&self, x: f32) -> usize {
        x as usize
    }

    fn sum(&self, a: f32, b: f32) -> f32 {
        a + b
    }

    fn difference(&self, a: f32, b: f32) -> f32 {
        a - b
    }

    fn product(&self, a: f32, b: f32) -> f32 {
        a * b
    }

    fn quotient(&self, a: f32, b: f32) -> f32 {
        a / b
    }

    fn at_most(&self, a: f32, b: f32) -> bool {
        a <= b
    }

    fn below(&self, a: f32, b: f32) -> bool {
        a < b
    }

    fn same(&self, a: f32, b: f32) -> bool {
        a == b
    }

    fn sine(&self, x: f32) -> f32 {
        x.sin()
    }

    fn cosine(&self, x: f32) -> f32 {
        x.cos()
    }

    fn pi(&self) -> f32 {
        std::f32::consts::PI
    }

    fn origin(&self) -> f64 {
        0.
    }

    fn advance(&self, position: f64, by: f32) -> f64 {
        position + by as f64
    }

    fn index(&self, position: f64) -> usize {
        position as usize
    }

    fn fraction(&self, position: f64) -> f32 {
        position.fract() as f32
    }
}

fn samples(data: &[f32]) -> ReusableBuffer<f32, usize> {
    ReusableBuffer::new(0, data.to_vec())
}

fn collect<S: SampleStream<f32>>(mut stream: S) -> Vec<f32> {
    let mut output = vec![];
    while let Some(sample) = stream.next() {
        output.push(sample);
    }
    output
}

#[derive(Clone, Default)]
struct Dial {
    value: std::rc::Rc<std::cell::Cell<f32>>,
    reads: std::rc::Rc<std::cell::Cell<usize>>,
}

impl Dial {
    fn new(value: f32) -> Self {
        let dial = Dial::default();
        dial.value.set(value);
        dial
    }

    fn turn(&self, value: f32) {
        self.value.set(value);
    }

    fn reads(&self) -> usize {
        self.reads.get()
    }
}

impl MaybeDynamic<f32> for Dial {
    fn get(&mut self) -> f32 {
        self.reads.set(self.reads.get() + 1);
        self.value.get()
    }

    fn set(&mut self, new_value: f32) {
        self.value.set(new_value);
    }

    fn add(&mut self, amount: f32) -> f32 {
        let previous = self.value.get();
        self.value.set(previous + amount);
        previous
    }

    fn is_dynamic() -> bool {
        true
    }

    fn set_cache_time(self, _cache_time: usize) -> Self {
        self
    }
}

fn first<S: SampleStream<f32>>(stream: &mut S, n: usize) -> Vec<Option<f32>> {
    let mut output = vec![];
    for _ in 0..n {
        output.push(stream.next());
    }
    output
}

#[test]
fn a_stream_with_a_plain_volume_of_zero_is_stopped_from_the_start() {
    let output = collect(StopWhenMuted::new(Fixed(0.), samples(&[1., 2.]), Ieee));
    assert_eq!(output, vec![]);

    let output = collect(StopWhenMuted::new(Fixed(-1.), samples(&[1., 2.]), Ieee));
    assert_eq!(output, vec![]);
}

#[test]
fn a_stream_with_a_plain_volume_above_zero_is_never_stopped() {
    let output = collect(StopWhenMuted::new(Fixed(0.25), samples(&[1., 2.]), Ieee));
    assert_eq!(output, vec![1., 2.]);
}

#[test]
fn a_stream_stops_for_good_after_the_sample_at_which_it_is_muted() {
    let dial = Dial::new(1.);
    let mut stream = StopWhenMuted::new(dial.clone(), samples(&[1., 2., 3., 4.]), Ieee);
    assert_eq!(stream.next(), Some(1.));
    dial.turn(0.);
    assert_eq!(stream.next(), Some(2.));
    dial.turn(1.);
    assert_eq!(first(&mut stream, 3), vec![None, None, None]);
}

#[test]
fn a_stream_that_stops_when_muted_ends_with_its_source() {
    let dial = Dial::new(1.);
    let mut stream = StopWhenMuted::new(dial.clone(), samples(&[1.]), Ieee);
    assert_eq!(first(&mut stream, 3), vec![Some(1.), None, None]);
}

#[test]
fn a_plain_flag_stops_a_stream_from_the_start_or_never() {
    let output = collect(StoppableAudio::new(true, samples(&[1., 2.])));
    assert_eq!(output, vec![]);

    let output = collect(StoppableAudio::new(false, samples(&[1., 2.])));
    assert_eq!(output, vec![1., 2.]);
}

#[test]
fn a_raised_flag_stops_a_stream_for_good() {
    let mut flag = DynamicBool::new(false).set_cache_time(0);
    let mut stream = StoppableAudio::new(flag.clone(), samples(&[1., 2., 3., 4.]));
    assert_eq!(stream.next(), Some(1.));
    flag.set(true);
    assert_eq!(stream.next(), Some(2.));
    flag.set(false);
    assert_eq!(first(&mut stream, 2), vec![None, None]);
}

#[test]
fn a_stream_that_ends_by_itself_raises_its_flag() {
    let mut flag = DynamicBool::new(false).set_cache_time(0);
    let mut stream = StoppableAudio::new(flag.clone(), samples(&[1.]));
    assert_eq!(stream.next(), Some(1.));
    assert_eq!(flag.get(), false);
    assert_eq!(stream.next(), None);
    assert_eq!(flag.get(), true);
}

#[test]
fn a_stream_paused_by_a_plain_flag_is_silent_and_never_ends() {
    let mut stream = PausableAudio::new(true, 2, samples(&[1.]), Ieee);
    assert_eq!(first(&mut stream, 4), vec![Some(0.), Some(0.), Some(0.), Some(0.)]);

    let output = collect(PausableAudio::new(false, 2, samples(&[1., 2.]), Ieee));
    assert_eq!(output, vec![1., 2.]);
}

#[test]
fn a_pause_starts_and_ends_between_two_frames() {
    let mut pause = DynamicBool::new(false).set_cache_time(0);
    let mut stream = PausableAudio::new(pause.clone(), 2, samples(&[1., 2., 3., 4.]), Ieee);
    assert_eq!(stream.next(), Some(1.));
    pause.set(true);
    assert_eq!(stream.next(), Some(2.));
    assert_eq!(first(&mut stream, 3), vec![Some(0.), Some(0.), Some(0.)]);
    pause.set(false);
    assert_eq!(stream.next(), Some(0.));
    assert_eq!(first(&mut stream, 3), vec![Some(3.), Some(4.), None]);
}

#[test]
fn a_muted_stream_is_held_and_goes_on_at_the_start_of_a_frame() {
    let dial = Dial::new(1.);
    let mut stream = PauseWhenMuted::new(dial.clone(), 2, samples(&[1., 2., 3., 4., 5., 6.]), Ieee);
    assert_eq!(stream.next(), Some(1.));
    dial.turn(0.);
    assert_eq!(stream.next(), Some(0.));
    dial.turn(1.);
    assert_eq!(first(&mut stream, 5), vec![Some(3.), Some(4.), Some(5.), Some(6.), None]);
}

#[test]
fn a_stream_muted_from_the_start_comes_back_on_the_channel_it_is_on() {
    let dial = Dial::new(0.);
    let mut stream = PauseWhenMuted::new(dial.clone(), 2, samples(&[1., 2., 3., 4.]), Ieee);
    assert_eq!(first(&mut stream, 3), vec![Some(0.), Some(0.), Some(0.)]);
    dial.turn(0.5);
    assert_eq!(first(&mut stream, 4), vec![Some(2.), Some(3.), Some(4.), None]);
}

#[test]
fn a_stream_that_comes_back_after_whole_frames_skips_nothing() {
    let dial = Dial::new(0.);
    let mut stream = PauseWhenMuted::new(dial.clone(), 2, samples(&[1., 2.]), Ieee);
    assert_eq!(first(&mut stream, 4), vec![Some(0.), Some(0.), Some(0.), Some(0.)]);
    dial.turn(1.);
    assert_eq!(first(&mut stream, 3), vec![Some(1.), Some(2.), None]);
}

#[test]
fn a_held_stream_whose_source_ends_while_it_skips_ends() {
    let dial = Dial::new(1.);
    let mut stream = PauseWhenMuted::new(dial.clone(), 3, samples(&[1., 2.]), Ieee);
    assert_eq!(stream.next(), Some(1.));
    dial.turn(0.);
    assert_eq!(stream.next(), Some(0.));
    dial.turn(1.);
    assert_eq!(stream.next(), None);
}

#[test]
fn a_skipped_stream_moves_the_seek_control_on_by_whole_frames() {
    let dial = Dial::new(0.);
    let seek = DynamicUsize::new(0);
    let source = samples(&[1., 2., 3.]);
    let mut stream = SkipWhenMuted::new(dial.clone(), seek.clone(), 1., 0, 2, source, Ieee);
    assert_eq!(first(&mut stream, 5), vec![Some(0.); 5]);
    assert_eq!(seek.clone().get(), 0);
    dial.turn(1.);
    assert_eq!(stream.next(), Some(1.));
    assert_eq!(seek.clone().get(), 4);
    assert_eq!(stream.next(), Some(2.));
    assert_eq!(seek.clone().get(), 4);
}

#[test]
fn a_seek_ratio_scales_what_is_skipped() {
    let dial = Dial::new(0.);
    let seek = DynamicUsize::new(10);
    let source = samples(&[1., 2., 3.]);
    let mut stream = SkipWhenMuted::new(dial.clone(), seek.clone(), 2.5, 0, 2, source, Ieee);
    assert_eq!(first(&mut stream, 3), vec![Some(0.); 3]);
    dial.turn(1.);
    assert_eq!(stream.next(), Some(1.));
    assert_eq!(seek.clone().get(), 16);
}

#[test]
fn a_skipped_replay_goes_on_where_it_would_have_been() {
    let dial = Dial::new(1.);
    let seek = DynamicUsize::new(0).set_cache_time(0);
    let buffer = ReusableBuffer::new(seek.clone(), vec![10., 11., 12., 13., 14., 15., 16., 17.]);
    let mut stream = SkipWhenMuted::new(dial.clone(), seek.clone(), 1., 0, 2, buffer, Ieee);
    assert_eq!(first(&mut stream, 2), vec![Some(10.), Some(11.)]);
    dial.turn(0.);
    assert_eq!(first(&mut stream, 4), vec![Some(0.); 4]);
    dial.turn(1.);
    assert_eq!(first(&mut stream, 3), vec![Some(16.), Some(17.), None]);
}

#[test]
fn a_muted_stream_that_peeks_ends_when_its_source_has_ended() {
    let dial = Dial::new(0.);
    let seek = DynamicUsize::new(0);
    let source = samples(&[1., 2., 3.]);
    let mut stream = SkipWhenMuted::new(dial.clone(), seek.clone(), 1., 3, 2, source, Ieee);
    assert_eq!(first(&mut stream, 4), vec![Some(0.), Some(0.), Some(0.), None]);
    assert_eq!(seek.clone().get(), 2);
}

#[test]
fn a_muted_stream_that_does_not_peek_outlives_its_source() {
    let dial = Dial::new(0.);
    let seek = DynamicUsize::new(0);
    let mut stream = SkipWhenMuted::new(dial.clone(), seek.clone(), 1., 0, 2, samples(&[]), Ieee);
    assert_eq!(first(&mut stream, 6), vec![Some(0.); 6]);
    dial.turn(1.);
    assert_eq!(stream.next(), None);
}

#[test]
fn a_stream_that_comes_back_moves_the_cursor_once_by_whole_frames() {
    let dial = Dial::new(0.);
    let mut seek = DynamicUsize::new(0).set_cache_time(0);
    let source = samples(&[1., 2.]);
    let mut stream = SkipWhenMuted::new(dial.clone(), seek.clone(), 1., 0, 2, source, Ieee);
    assert_eq!(first(&mut stream, 3), vec![Some(0.); 3]);
    assert_eq!(stream.source.counter, 0);
    dial.turn(1.);
    assert_eq!(stream.next(), Some(1.));
    assert_eq!(seek.get(), 2);
    assert_eq!(stream.next(), Some(2.));
    assert_eq!(seek.get(), 2);
}
