use audio_mixer::{
    Arithmetic, DynamicUsize, IntoSampleRate, IntoSampleRates, RateStrategy, ReusableBuffer,
    SampleRates, SampleStream,
};

struct Ieee;

impl Arithmetic for Ieee {
    type Sample = f32;
    type Position = f64;

    fn from_count(&self, n: usize) -> f32 {
        n as f32
    }

    fn to_count(&self, x: f32) -> usize {
        x as usize
    }

    fn sum(&self, a: f32, b: f32) -> f32 {
        a + b
    }

    fn difference(&self, a: f32, b: f32) -> f32 {
        a - b
    }

    fn product(&self, a: f32, b: f32) -> f32 {
        a * b
    }

    fn quotient(&self, a: f32, b: f32) -> f32 {
        a / b
    }

    fn at_most(&self, a: f32, b: f32) -> bool {
        a <= b
    }

    fn below(&self, a: f32, b: f32) -> bool {
        a < b
    }

    fn same(&self, a: f32, b: f32) -> bool {
        a == b
    }

    fn sine(&self, x: f32) -> f32 {
        x.sin()
    }

    fn cosine(&self, x: f32) -> f32 {
        x.cos()
    }

    fn pi(&self) -> f32 {
        std::f32::consts::PI
    }

    fn origin(&self) -> f64 {
        0.
    }

    fn advance(&self, position: f64, by: f32) -> f64 {
        position + by as f64
    }

    fn index(&self, position: f64) -> usize {
        position as usize
    }

    fn fraction(&self, position: f64) -> f32 {
        position.fract() as f32
    }
}

fn samples(data: &[f32]) -> ReusableBuffer<f32, usize> {
    ReusableBuffer::new(0, data.to_vec())
}

fn collect<S: SampleStream<f32>>(mut stream: S) -> Vec<f32> {
    let mut output = vec![];
    while let Some(sample) = stream.next() {
        output.push(sample);
    }
    output
}

#[test]
fn it_can_upsample_a_mono_source() {
    let input = samples(&[1., 2., 3.]);
    let output = collect(IntoSampleRate::new(1, 2, 1, input, Ieee));
    assert_eq!(output, vec![0., 0.5, 1., 1.5, 2., 2.5]);

    let input = samples(&[7., 5., 3.]);
    let output = collect(IntoSampleRate::new(1, 2, 1, input, Ieee));
    assert_eq!(output, vec![0., 3.5, 7., 6., 5., 4.]);
}

#[test]
fn it_can_upsample_a_non_mono_source() {
    let input = samples(&[1., 7., 2., 5., 3., 3.]);
    let output = collect(IntoSampleRate::new(1, 2, 2, input, Ieee));
    assert_eq!(output, vec![0., 0., 0.5, 3.5, 1., 7., 1.5, 6., 2., 5., 2.5, 4.]);
}

#[test]
fn it_can_downsample_a_mono_source() {
    let input = samples(&[1., 2., 3., 4., 5., 6., 7.]);
    let output = collect(IntoSampleRate::new(3, 2, 1, input, Ieee));
    assert_eq!(output, vec![0., 1.5, 3., 4.5, 6.]);

    let input = samples(&[13., 11., 9., 7., 5., 3., 1.]);
    let output = collect(IntoSampleRate::new(3, 2, 1, input, Ieee));
    assert_eq!(output, vec![0., 12., 9., 6., 3.]);
}

#[test]
fn it_can_downsample_a_stereo_source() {
    let input = samples(&[1., 13., 2., 11., 3., 9., 4., 7., 5., 5., 6., 3., 7., 1.]);
    let output = collect(IntoSampleRate::new(3, 2, 2, input, Ieee));
    assert_eq!(output, vec![0., 0., 1.5, 12., 3., 9., 4.5, 6., 6., 3.]);
}

#[test]
fn it_can_dynamically_change_the_input_rate_to_control_the_pitch() {
    let input = samples(&[1., 2., 3., 4., 5., 6., 7., 8.]);
    let mut input_rate = DynamicUsize::new(1);

    let mut output = IntoSampleRate::new(input_rate.clone(), 1, 1, input, Ieee);

    assert_eq!(output.next(), Some(0.));
    assert_eq!(output.next(), Some(1.));
    assert_eq!(output.next(), Some(2.));

    input_rate.set(2);

    assert_eq!(output.next(), Some(3.));
    assert_eq!(output.next(), Some(5.));
    assert_eq!(output.next(), Some(7.));
    assert_eq!(output.next(), None);
}

#[test]
fn it_passes_samples_through_when_the_fixed_rates_agree() {
    let input = samples(&[1., 2., 3.]);
    let output = collect(IntoSampleRate::new(44100, 44100, 2, input, Ieee));
    assert_eq!(output, vec![1., 2., 3.]);
}

#[test]
fn a_rate_control_that_equals_the_output_rate_still_interpolates() {
    let input = samples(&[1., 2., 3.]);
    let rate = DynamicUsize::new(2);
    let mut output = IntoSampleRate::new(rate, 2, 1, input, Ieee);
    assert!(matches!(output.strategy, RateStrategy::SampleBased));
    assert_eq!(output.next(), Some(0.));
    assert_eq!(output.next(), Some(1.));
    assert_eq!(output.next(), Some(2.));
    assert_eq!(output.next(), None);
}

#[test]
fn the_strategy_is_chosen_by_the_rates_and_the_channels() {
    assert!(matches!(IntoSampleRate::new(5, 5, 3, samples(&[]), Ieee).strategy, RateStrategy::Noop));
    assert!(matches!(
        IntoSampleRate::new(5, 6, 1, samples(&[]), Ieee).strategy,
        RateStrategy::SampleBased
    ));
    assert!(matches!(
        IntoSampleRate::new(5, 6, 2, samples(&[]), Ieee).strategy,
        RateStrategy::FrameBased
    ));
}

#[test]
fn fixed_rates_have_a_scale_and_never_say_that_they_are_equal() {
    let mut rates = 3_usize.sample_rates(2, &Ieee);
    assert_eq!(rates.noop(&Ieee), (false, 0.));
    assert_eq!(rates.rate(&Ieee), 0.);
    assert_eq!(rates.scale(7., &Ieee), 1.5);

    let mut rates = 2_usize.sample_rates(2, &Ieee);
    assert_eq!(rates.noop(&Ieee), (false, 0.));
    assert_eq!(rates.scale(7., &Ieee), 1.);
}

#[test]
fn a_source_of_no_channels_passes_where_the_fixed_rates_agree() {
    let output = collect(IntoSampleRate::new(8000, 8000, 0, samples(&[1., 2.]), Ieee));
    assert_eq!(output, vec![1., 2.]);
}

#[test]
fn rates_with_a_control_follow_it() {
    let mut control = DynamicUsize::new(4);
    let mut rates: SampleRates<f32> = control.clone().sample_rates(4, &Ieee);
    assert_eq!(rates.noop(&Ieee), (true, 4.));
    assert_eq!(rates.scale(4., &Ieee), 1.);
    control.set(2);
    assert_eq!(rates.noop(&Ieee), (false, 2.));
    assert_eq!(rates.scale(2., &Ieee), 0.5);
    control.set(6);
    assert_eq!(rates.rate(&Ieee), 6.);
}

#[test]
fn a_stereo_source_that_ends_inside_a_frame_ends_the_converted_stream() {
    let input = samples(&[1., 7., 2.]);
    let output = collect(IntoSampleRate::new(1, 2, 2, input, Ieee));
    assert_eq!(output, vec![0., 0., 0.5, 3.5]);
}
