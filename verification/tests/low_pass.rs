use audio_mixer::{
    Arithmetic, DynamicUsize, LowPassCoefficients, LowPassFilter, ReusableBuffer, SampleStream,
};

struct Ieee;

impl Arithmetic for Ieee {
    type Sample = f32;
    type Position = f64;

    fn from_count(&self, n: usize) -> f32 {
        n as f32
    }

    fn to_count(&self, x: f32) -> usize {
        x as usize
    }

    fn sum(&self, a: f32, b: f32) -> f32 {
        a + b
    }

    fn difference(&self, a: f32, b: f32) -> f32 {
        a - b
    }

    fn product(&self, a: f32, b: f32) -> f32 {
        a * b
    }

    fn quotient(&self, a: f32, b: f32) -> f32 {
        a / b
    }

    fn at_most(&self, a: f32, b: f32) -> bool {
        a <= b
    }

    fn below(&self, a: f32, b: f32) -> bool {
        a < b
    }

    fn same(&self, a: f32, b: f32) -> bool {
        a == b
    }

    fn sine(&self, x: f32) -> f32 {
        x.sin()
    }

    fn cosine(&self, x: f32) -> f32 {
        x.cos()
    }

    fn pi(&self) -> f32 {
        std::f32::consts::PI
    }

    fn origin(&self) -> f64 {
        0.
    }

    fn advance(&self, position: f64, by: f32) -> f64 {
        position + by as f64
    }

    fn index(&self, position: f64) -> usize {
        position as usize
    }

    fn fraction(&self, position: f64) -> f32 {
        position.fract() as f32
    }
}

fn samples(data: &[f32]) -> ReusableBuffer<f32, usize> {
    ReusableBuffer::new(0, data.to_vec())
}

fn collect<S: SampleStream<f32>>(mut stream: S) -> Vec<f32> {
    let mut output = vec![];
    while let Some(sample) = stream.next() {
        output.push(sample);
    }
    output
}

fn expected_coefficients(sample_rate: usize, frequency: usize) -> [f32; 5] {
    let w0 = 2.0 * std::f32::consts::PI * frequency as f32 / sample_rate as f32;
    let q = 0.5;

    let alpha = w0.sin() / (2.0 * q);
    let b1 = 1.0 - w0.cos();
    let b0 = b1 / 2.0;
    let b2 = b0;
    let a0 = 1.0 + alpha;
    let a1 = -2.0 * w0.cos();
    let a2 = 1.0 - alpha;

    [b0 / a0, b1 / a0, b2 / a0, a1 / a0, a2 / a0]
}

#[test]
fn the_table_has_coefficients_for_every_threshold_at_a_high_enough_rate() {
    let row = LowPassCoefficients::coefficients_for_each_threshold_frequency(44100, 60, &Ieee);
    assert_eq!(row.len(), 61);
    for frequency in 0..=60 {
        assert_eq!(row[frequency], Some(expected_coefficients(44100, frequency)));
    }
    assert_eq!(row[0], Some([0., 0., 0., -2., 1.]));
}

#[test]
fn the_coefficients_at_a_quarter_of_the_rate_are_those_of_the_formula() {
    let row = LowPassCoefficients::coefficients_for_each_threshold_frequency(4000, 1000, &Ieee);
    let c = row[1000].unwrap();
    let w0 = 2.0 * std::f32::consts::PI * 1000. / 4000.;
    assert_eq!(c[1], (1.0 - w0.cos()) / (1.0 + w0.sin()));
    assert_eq!(c[0], c[2]);
    assert!((c[0] - 0.25).abs() < 1e-6);
    assert!((c[1] - 0.5).abs() < 1e-6);
    assert!(c[3].abs() < 1e-6);
    assert!(c[4].abs() < 1e-6);
}

#[test]
fn an_entry_is_empty_where_the_rate_is_under_the_minimum_for_its_threshold() {
    let row = LowPassCoefficients::coefficients_for_each_threshold_frequency(100, 50, &Ieee);
    assert_eq!(row.len(), 51);
    assert_eq!(row[48], None);
    assert_eq!(row[10], Some(expected_coefficients(100, 10)));
    for frequency in 0..=50 {
        assert_eq!(row[frequency].is_none(), 100 < 2 * frequency + 10);
    }
    assert_eq!(row[45], Some(expected_coefficients(100, 45)));
    assert_eq!(row[46], None);
}

#[test]
fn a_rate_at_the_minimum_has_coefficients() {
    let row = LowPassCoefficients::coefficients_for_each_threshold_frequency(129, 60, &Ieee);
    assert_eq!(row[59], Some(expected_coefficients(129, 59)));
    assert_eq!(row[60], None);

    let row = LowPassCoefficients::coefficients_for_each_threshold_frequency(130, 60, &Ieee);
    assert_eq!(row.len(), 61);
    assert!(row.iter().all(|c| c.is_some()));

    let row = LowPassCoefficients::coefficients_for_each_threshold_frequency(9, 3, &Ieee);
    assert_eq!(row, vec![None; 4]);
}

#[test]
fn the_table_is_found_by_sample_rate() {
    let table = LowPassCoefficients::new(vec![44100, 48000, 40, 48000], 20, &Ieee);
    assert_eq!(table.index_for_sample_rate(44100), 0);
    assert_eq!(table.index_for_sample_rate(48000), 1);
    assert_eq!(table.index_for_sample_rate(40), 2);
    assert_eq!(table.for_sample_rate_index(1)[7], Some(expected_coefficients(48000, 7)));
    assert_eq!(table.for_sample_rate_index(2)[15], Some(expected_coefficients(40, 15)));
    assert_eq!(table.for_sample_rate_index(2)[16..], vec![None; 5]);

    let shared = table.clone_arc();
    assert_eq!(shared.for_sample_rate_index(0), table.for_sample_rate_index(0));
}

#[test]
fn a_filter_under_the_minimum_rate_passes_every_sample_unchanged() {
    let table = LowPassCoefficients::new(vec![100], 60, &Ieee);
    let input = [0.1, -0.7, 0.3, 1.5, -2.25, 1e-20, 7e19];
    let filter = LowPassFilter::new(46_usize, 2_usize, 100, samples(&input), table, Ieee);
    let output = collect(filter);
    let bits = |samples: &[f32]| samples.iter().map(|s| s.to_bits()).collect::<Vec<_>>();
    assert_eq!(bits(&output), bits(&input));
}

#[test]
fn a_filter_at_the_minimum_rate_for_its_threshold_filters() {
    let table = LowPassCoefficients::new(vec![100], 60, &Ieee);
    let filter = LowPassFilter::new(45_usize, 1_usize, 100, samples(&[1., 0.]), table, Ieee);
    let [b0, b1, _, a1, _] = expected_coefficients(100, 45);
    assert_eq!(collect(filter), vec![b0, b1 - a1 * b0]);
}

#[test]
fn a_filter_at_the_highest_threshold_of_its_table_passes_every_sample() {
    let table = LowPassCoefficients::new(vec![44100], 60, &Ieee);
    let filter = LowPassFilter::new(60_usize, 1_usize, 44100, samples(&[1., 2., 3.]), table, Ieee);
    assert_eq!(collect(filter), vec![1., 2., 3.]);
}

#[test]
fn a_filter_keeps_a_history_for_each_channel() {
    let table = LowPassCoefficients::new(vec![4000], 1500, &Ieee);
    let [b0, b1, b2, a1, a2] = expected_coefficients(4000, 1000);
    let input = [1., 10., 2., 20., 3., 30.];
    let filter = LowPassFilter::new(1000_usize, 2_usize, 4000, samples(&input), table, Ieee);
    let output = collect(filter);

    let mut expected = vec![];
    let mut history = [[0_f32; 4]; 2];
    for (i, sample) in input.iter().enumerate() {
        let [x_n1, x_n2, y_n1, y_n2] = history[i % 2];
        let y = b0 * sample + b1 * x_n1 + b2 * x_n2 - a1 * y_n1 - a2 * y_n2;
        history[i % 2] = [*sample, x_n1, y, y_n1];
        expected.push(y);
    }
    assert_eq!(output, expected);
    assert_eq!(output[0], b0);
    assert_eq!(output[1], b0 * 10.);
    assert_eq!(output[2], b0 * 2. + b1 * 1. + b2 * 0. - a1 * b0 - a2 * 0.);
}

#[test]
fn a_filter_follows_its_threshold() {
    let table = LowPassCoefficients::new(vec![4000], 1500, &Ieee);
    let mut threshold = DynamicUsize::new(1500).set_cache_time(0);
    let source = samples(&[1., 1., 1.]);
    let mut filter = LowPassFilter::new(threshold.clone(), 1_usize, 4000, source, table, Ieee);
    assert_eq!(filter.next(), Some(1.));
    threshold.set(1000);
    assert_eq!(filter.next(), Some(expected_coefficients(4000, 1000)[0]));
    threshold.set(9000);
    assert_eq!(filter.next(), Some(1.));
    assert_eq!(filter.next(), None);
}

#[test]
fn a_sample_on_a_channel_without_a_history_passes() {
    let table = LowPassCoefficients::new(vec![4000], 1500, &Ieee);
    let filter = LowPassFilter::new(1000_usize, 0_usize, 4000, samples(&[1., 2.]), table, Ieee);
    assert_eq!(collect(filter), vec![1., 2.]);
}
