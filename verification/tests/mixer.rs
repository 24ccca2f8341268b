use audio_mixer::{
    Arithmetic, AudioMixer, AudioRecorder, IntoChannels, ReusableBuffer, SampleStream,
};

struct Ieee;

impl Arithmetic for Ieee {
    type Sample = f32;
    type Position = f64;

    fn from_count(&self, n: usize) -> f32 {
        n as f32
    }

    fn to_count(&self, x: f32) -> usize {
        x as usize
    }

    fn sum(&self, a: f32, b: f32) -> f32 {
        a + b
    }

    fn difference(&self, a: f32, b: f32) -> f32 {
        a - b
    }

    fn product(&self, a: f32, b: f32) -> f32 {
        a * b
    }

    fn quotient(&self, a: f32, b: f32) -> f32 {
        a / b
    }

    fn at_most(&self, a: f32, b: f32) -> bool {
        a <= b
    }

    fn below(&self, a: f32, b: f32) -> bool {
        a < b
    }

    fn same(&self, a: f32, b: f32) -> bool {
        a == b
    }

    fn sine(&self, x: f32) -> f32 {
        x.sin()
    }

    fn cosine(&self, x: f32) -> f32 {
        x.cos()
    }

    fn pi(&self) -> f32 {
        std::f32::consts::PI
    }

    fn origin(&self) -> f64 {
        0.
    }

    fn advance(&self, position: f64, by: f32) -> f64 {
        position + by as f64
    }

    fn index(&self, position: f64) -> usize {
        position as usize
    }

    fn fraction(&self, position: f64) -> f32 {
        position.fract() as f32
    }
}

fn samples(data: &[f32]) -> ReusableBuffer<f32, usize> {
    ReusableBuffer::new(0, data.to_vec())
}

fn collect<S: SampleStream<f32>>(mut stream: S) -> Vec<f32> {
    let mut output = vec![];
    while let Some(sample) = stream.next() {
        output.push(sample);
    }
    output
}

#[test]
fn a_mixer_plays_nothing_until_a_stream_is_added() {
    let mut mixer: AudioMixer<ReusableBuffer<f32, usize>, Ieee> = AudioMixer::new(2, 44100, Ieee);
    assert_eq!(mixer.is_playing(), false);
    assert_eq!(mixer.next(), Some(0.));
    assert_eq!(mixer.channels(), 2);
    assert_eq!(mixer.sample_rate(), 44100);

    mixer.add(samples(&[1., 2.]));
    assert_eq!(mixer.is_playing(), true);
}

#[test]
fn a_mixer_adds_up_the_streams_that_play() {
    let mut mixer = AudioMixer::new(2, 44100, Ieee);
    mixer.add(samples(&[1., 2., 3., 4.]));
    mixer.add(samples(&[10., 20.]));
    assert_eq!(mixer.next(), Some(11.));
    assert_eq!(mixer.next(), Some(22.));
    assert_eq!(mixer.playing.len(), 2);
    assert_eq!(mixer.next(), Some(3.));
    assert_eq!(mixer.playing.len(), 1);
    assert_eq!(mixer.next(), Some(4.));
    assert_eq!(mixer.is_playing(), true);
    assert_eq!(mixer.next(), Some(0.));
    assert_eq!(mixer.is_playing(), false);
    assert_eq!(mixer.next(), Some(0.));
}

#[test]
fn a_stream_added_inside_a_frame_starts_with_the_next_frame() {
    let mut mixer = AudioMixer::new(2, 44100, Ieee);
    mixer.add(samples(&[1., 2., 3., 4.]));
    assert_eq!(mixer.next(), Some(1.));

    mixer.add(samples(&[10., 20., 30., 40.]));
    assert_eq!(mixer.is_playing(), true);
    assert_eq!(mixer.pending.len(), 1);
    assert_eq!(mixer.next(), Some(2.));
    assert_eq!(mixer.pending.len(), 1);

    assert_eq!(mixer.next(), Some(13.));
    assert_eq!(mixer.pending.len(), 0);
    assert_eq!(mixer.next(), Some(24.));
    assert_eq!(mixer.next(), Some(30.));
    assert_eq!(mixer.next(), Some(40.));
    assert_eq!(mixer.next(), Some(0.));
    assert_eq!(mixer.is_playing(), false);
}

#[test]
fn a_stream_that_ends_inside_a_frame_is_dropped_at_once() {
    let mut mixer = AudioMixer::new(2, 44100, Ieee);
    mixer.add(samples(&[1., 2., 3.]));
    mixer.add(samples(&[10., 20., 30., 40.]));
    assert_eq!(mixer.next(), Some(11.));
    assert_eq!(mixer.next(), Some(22.));
    assert_eq!(mixer.next(), Some(33.));
    assert_eq!(mixer.next(), Some(40.));
    assert_eq!(mixer.playing.len(), 1);
    assert_eq!(mixer.next(), Some(0.));
    assert_eq!(mixer.is_playing(), false);
}

#[test]
fn a_paused_mixer_is_silent_and_keeps_its_streams() {
    let mut mixer = AudioMixer::new(1, 8000, Ieee);
    mixer.add(samples(&[1., 2.]));
    assert_eq!(mixer.next(), Some(1.));
    mixer.pause();
    assert_eq!(mixer.next(), Some(0.));
    assert_eq!(mixer.next(), Some(0.));
    assert_eq!(mixer.is_playing(), true);
    assert_eq!(mixer.sample_count, 3);
    mixer.play();
    assert_eq!(mixer.next(), Some(2.));
    assert_eq!(mixer.next(), Some(0.));
    assert_eq!(mixer.is_playing(), false);
}

#[test]
fn a_mixer_finishes_its_frame_before_its_output_moves() {
    let mut mixer = AudioMixer::new(2, 44100, Ieee);
    mixer.add(samples(&[1., 2., 3., 4., 5., 6., 7.]));
    assert_eq!(mixer.next(), Some(1.));
    mixer.finish_frame(3);
    assert_eq!(mixer.sample_count, 3);
    assert_eq!(mixer.next(), Some(4.));
    mixer.finish_frame(4);
    assert_eq!(mixer.sample_count, 4);
    mixer.finish_frame(5);
    assert_eq!(mixer.sample_count, 5);
    assert_eq!(mixer.next(), Some(6.));
}

#[test]
fn a_mixer_fills_a_buffer_with_its_next_samples() {
    let mut mixer = AudioMixer::new(2, 44100, Ieee);
    mixer.add(samples(&[1., 2., 3., 4., 5.]));
    let mut buffer = vec![9.; 4];
    mixer.fill(&mut buffer);
    assert_eq!(buffer, vec![1., 2., 3., 4.]);
    mixer.fill(&mut buffer);
    assert_eq!(buffer, vec![5., 0., 0., 0.]);
    assert_eq!(mixer.sample_count, 8);

    let mut nothing = vec![];
    mixer.fill(&mut nothing);
    assert_eq!(mixer.sample_count, 8);
}

#[test]
fn a_mixer_plays_transformed_streams() {
    let mut mixer = AudioMixer::new(2, 44100, Ieee);
    mixer.add(IntoChannels::new(1, 2, samples(&[1., 2.]), Ieee));
    mixer.add(IntoChannels::new(1, 2, samples(&[10.]), Ieee));
    let output: Vec<_> = (0..5).map(|_| mixer.next().unwrap()).collect();
    assert_eq!(output, vec![11., 11., 2., 2., 0.]);
    assert_eq!(mixer.is_playing(), false);
}

#[test]
fn a_recording_numbers_its_buffers_and_keeps_its_first_time() {
    let mut recorder = AudioRecorder::new();
    assert_eq!(recorder.record(100_u64), (1, 100));
    assert_eq!(recorder.record(250_u64), (2, 100));
    assert_eq!(recorder.record(90_u64), (3, 100));

    assert_eq!(recorder.frame_number, 3);
    assert_eq!(recorder.start_time, Some(100));
}
