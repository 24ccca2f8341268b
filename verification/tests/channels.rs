use audio_mixer::{Arithmetic, ChannelStrategy, IntoChannels, ReusableBuffer, SampleStream};

struct Ieee;

impl Arithmetic for Ieee {
    type Sample = f32;
    type Position = f64;

    fn from_count(&self, n: usize) -> f32 {
        n as f32
    }

    fn to_count(&self, x: f32) -> usize {
        x as usize
    }

    fn sum(&self, a: f32, b: f32) -> f32 {
        a + b
    }

    fn difference(&self, a: f32, b: f32) -> f32 {
        a - b
    }

    fn product(&self, a: f32, b: f32) -> f32 {
        a * b
    }

    fn quotient(&self, a: f32, b: f32) -> f32 {
        a / b
    }

    fn at_most(&self, a: f32, b: f32) -> bool {
        a <= b
    }

    fn below(&self, a: f32, b: f32) -> bool {
        a < b
    }

    fn same(&self, a: f32, b: f32) -> bool {
        a == b
    }

    fn sine(&self, x: f32) -> f32 {
        x.sin()
    }

    fn cosine(&self, x: f32) -> f32 {
        x.cos()
    }

    fn pi(&self) -> f32 {
        std::f32::consts::PI
    }

    fn origin(&self) -> f64 {
        0.
    }

    fn advance(&self, position: f64, by: f32) -> f64 {
        position + by as f64
    }

    fn index(&self, position: f64) -> usize {
        position as usize
    }

    fn fraction(&self, position: f64) -> f32 {
        position.fract() as f32
    }
}

fn samples(data: &[f32]) -> ReusableBuffer<f32, usize> {
    ReusableBuffer::new(0, data.to_vec())
}

fn collect<S: SampleStream<f32>>(mut stream: S) -> Vec<f32> {
    let mut output = vec![];
    while let Some(sample) = stream.next() {
        output.push(sample);
    }
    output
}

#[test]
fn it_does_nothing_when_converting_from_and_to_the_same_number_of_channels() {
    let input = samples(&[1., 2., 3.]);
    let output = collect(IntoChannels::new(1, 1, input, Ieee));
    assert_eq!(output, vec![1., 2., 3.]);

    let input = samples(&[1., 2., 3.]);
    let output = collect(IntoChannels::new(5, 5, input, Ieee));
    assert_eq!(output, vec![1., 2., 3.]);
}

#[test]
fn it_combines_samples_into_mono_samples_when_converting_to_one_channel() {
    let input = samples(&[1., 2., 3., 4., 5., 6.]);
    let output = collect(IntoChannels::new(2, 1, input, Ieee));
    assert_eq!(output, vec![1. + 2., 3. + 4., 5. + 6.]);

    let input = samples(&[1., 2., 3., 4., 5., 6.]);
    let output = collect(IntoChannels::new(3, 1, input, Ieee));
    assert_eq!(output, vec![1. + 2. + 3., 4. + 5. + 6.]);

    let input = samples(&[1., 2., 3., 4., 5., 6.]);
    let output = collect(IntoChannels::new(4, 1, input, Ieee));
    assert_eq!(output, vec![1. + 2. + 3. + 4., 5. + 6.]);
}

#[test]
fn it_duplicates_each_sample_across_all_channels_when_converting_from_mono() {
    let input = samples(&[1., 2.]);
    let output = collect(IntoChannels::new(1, 2, input, Ieee));
    assert_eq!(output, vec![1., 1., 2., 2.]);

    let input = samples(&[1., 2.]);
    let output = collect(IntoChannels::new(1, 3, input, Ieee));
    assert_eq!(output, vec![1., 1., 1., 2., 2., 2.]);
}

#[test]
fn it_pads_additional_output_channels_with_zeroes_so_they_are_silent() {
    let input = samples(&[1., 2., 3., 4.]);
    let output = collect(IntoChannels::new(2, 3, input, Ieee));
    assert_eq!(output, vec![1., 2., 0., 3., 4., 0.]);

    let input = samples(&[1., 2., 3., 4., 5.]);
    let output = collect(IntoChannels::new(3, 5, input, Ieee));
    assert_eq!(output, vec![1., 2., 3., 0., 0., 4., 5., 0., 0., 0.]);
}

#[test]
fn it_discards_additional_input_channels_if_there_arent_enough_output_channels() {
    let input = samples(&[1., 2., 3., 4., 5., 6.]);
    let output = collect(IntoChannels::new(3, 2, input, Ieee));
    assert_eq!(output, vec![1., 2., 4., 5.]);

    let input = samples(&[1., 2., 3., 4., 5.]);
    let output = collect(IntoChannels::new(3, 2, input, Ieee));
    assert_eq!(output, vec![1., 2., 4., 5.]);

    let input = samples(&[1., 2., 3., 4., 5.]);
    let output = collect(IntoChannels::new(4, 2, input, Ieee));
    assert_eq!(output, vec![1., 2., 5.]);
}

#[test]
fn a_source_that_ends_between_two_frames_gets_no_silence_after_it() {
    let output = collect(IntoChannels::new(2, 4, samples(&[1., 2.]), Ieee));
    assert_eq!(output, vec![1., 2., 0., 0.]);

    let output = collect(IntoChannels::new(2, 4, samples(&[]), Ieee));
    assert_eq!(output, vec![]);
}

#[test]
fn a_source_that_ends_inside_a_frame_has_the_frame_filled_with_silence() {
    let output = collect(IntoChannels::new(2, 3, samples(&[1., 2., 3.]), Ieee));
    assert_eq!(output, vec![1., 2., 0., 3., 0., 0.]);
}

#[test]
fn a_frame_that_ends_early_is_added_up_as_far_as_it_goes() {
    let output = collect(IntoChannels::new(3, 1, samples(&[1., 2., 3., 4.]), Ieee));
    assert_eq!(output, vec![6., 4.]);
}

#[test]
fn the_strategy_is_chosen_by_the_two_widths() {
    assert!(matches!(IntoChannels::new(2, 2, samples(&[]), Ieee).strategy, ChannelStrategy::Noop));
    assert!(matches!(IntoChannels::new(1, 1, samples(&[]), Ieee).strategy, ChannelStrategy::Noop));
    assert!(matches!(IntoChannels::new(1, 6, samples(&[]), Ieee).strategy, ChannelStrategy::Duplicate));
    assert!(matches!(IntoChannels::new(6, 1, samples(&[]), Ieee).strategy, ChannelStrategy::Combine));
    assert!(matches!(IntoChannels::new(2, 6, samples(&[]), Ieee).strategy, ChannelStrategy::Pad));
    assert!(matches!(IntoChannels::new(6, 2, samples(&[]), Ieee).strategy, ChannelStrategy::Discard));
}
