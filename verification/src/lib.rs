//! A real-time audio mixing engine: sample streams, the transforms that sit
//! between a source and the mixer, and the mixer that sums them.
//!
//! Samples are opaque values of the type that an [`Arithmetic`] names. The
//! library decides which samples are pulled, combined, replaced by silence
//! or dropped, and in which order; the arithmetic on them is the caller's.
//!
//! Every stream is a [`SampleStream`], described by the relation `step`
//! between its state before a pull, its state after it, and the sample
//! handed out. A transform's `step` is stated over the `step` of its
//! source, over what its controls may read, and over what the arithmetic
//! may return: it says exactly which pulls, reads and operations make up
//! one pull of the transform. `pulls` chains steps into runs; the lemmas of
//! each module state what holds of whole runs.

pub mod adjust_balance;
pub mod adjust_volume;
pub mod arithmetic;
pub mod audio_mixer;
pub mod audio_recorder;
pub mod dynamic_controls;
pub mod into_channels;
pub mod into_sample_rate;
pub mod low_pass_coefficients;
pub mod low_pass_filter;
pub mod pausable_audio;
pub mod pause_when_muted;
pub mod recording;
pub mod reusable_buffer;
pub mod sample_stream;
mod sharing;
pub mod skip_when_muted;
pub mod stop_when_muted;
pub mod stoppable_audio;

pub use adjust_balance::AdjustBalance;
pub use adjust_volume::AdjustVolume;
pub use arithmetic::Arithmetic;
pub use audio_mixer::AudioMixer;
pub use audio_recorder::{AudioFrame, AudioRecorder};
pub use dynamic_controls::{DynamicBool, DynamicUsize, Fixed, MaybeDynamic};
pub use into_channels::{ChannelStrategy, IntoChannels};
pub use into_sample_rate::{IntoSampleRate, IntoSampleRates, RateStrategy, SampleRates};
pub use low_pass_coefficients::LowPassCoefficients;
pub use low_pass_filter::LowPassFilter;
pub use pausable_audio::{PausableAudio, PauseStrategy};
pub use pause_when_muted::PauseWhenMuted;
pub use recording::Recording;
pub use reusable_buffer::{ReplayStrategy, ReusableBuffer};
pub use sample_stream::SampleStream;
pub use skip_when_muted::{SkipStrategy, SkipWhenMuted};
pub use stop_when_muted::{FuseStrategy, StopWhenMuted};
pub use stoppable_audio::StoppableAudio;
