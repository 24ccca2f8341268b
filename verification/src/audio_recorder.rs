use vstd::prelude::*;

verus! {

/// What a recording is handed for one buffer of output.
pub struct AudioFrame<T, D> {
    /// The samples of the buffer, interleaved as they were played.
    pub audio_data: Vec<T>,
    pub channels: usize,
    pub sample_rate: usize,
    /// The number of the buffer, counted from one.
    pub frame_number: usize,
    /// The time of playback since the first buffer was asked for.
    pub elapsed_time: D,
}

/// The bookkeeping of a recording: it numbers the buffers and keeps the
/// time at which the first was asked for, against which playback is timed.
pub struct AudioRecorder<I> {
    pub start_time: Option<I>,
    pub frame_number: usize,
}

impl<I: Copy> AudioRecorder<I> {
    /// A recording that has seen no buffer yet.
    pub fn new() -> (recorder: Self)
        ensures
            recorder.start_time is None,
            recorder.frame_number == 0,
    {
        Self { start_time: None, frame_number: 0 }
    }

    /// Counts one buffer, asked for at `callback_time`, and returns its
    /// number and the time that the recording started: `callback_time` for
    /// the first buffer, and the same time for every buffer after it.
    pub fn record(&mut self, callback_time: I) -> (frame: (usize, I))
        requires
            old(self).frame_number < usize::MAX,
        ensures
            final(self).frame_number == old(self).frame_number + 1,
            frame.0 == final(self).frame_number,
            frame.1 == match old(self).start_time {
                Some(start) => start,
                None => callback_time,
            },
            final(self).start_time == Some(frame.1),
    {
        self.frame_number += 1;
        let start = match self.start_time {
            Some(start) => start,
            None => {
                self.start_time = Some(callback_time);
                callback_time
            },
        };
        (self.frame_number, start)
    }
}

} // verus!
