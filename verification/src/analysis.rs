//! Assembling the analysis of a buffer from the magnitude spectra of its
//! frames.
//!
//! Each frame becomes a time and a list of peaks. A peak names its bin, the
//! frequency that the bin stands for, the magnitude found there and, in the
//! banded mode, how that magnitude compares with the strongest of the frame.

use vstd::prelude::*;
use crate::band::{
    channel_limit,
    channel_limit_of,
    eligible,
    frequency,
    frequency_of,
    Frequency,
    Mode,
};
use crate::framing::{chunk_size, chunk_size_of, frame_time, MIN_CHUNK};
use crate::peaks::{
    bins_of,
    is_selection,
    max_magnitude,
    max_magnitude_of,
    select_peaks,
};

verus! {

/// A peak's magnitude relative to the strongest eligible bin of its frame.
#[derive(Clone, Copy, Debug, PartialEq, Eq, Structural)]
pub enum Amplitude {
    /// The frame is silent: the amplitude is zero.
    Zero,
    /// The peak is as strong as the strongest bin: the amplitude is one.
    Full,
    /// The peak is weaker than the strongest bin: the amplitude is the square
    /// root of the peak's magnitude over the frame's greatest.
    Partial,
}

/// One dominant frequency of a frame.
#[derive(Clone, Copy, Debug, PartialEq, Eq)]
pub struct Peak {
    /// The bin of the spectrum.
    pub bin: usize,
    /// The frequency that the bin stands for.
    pub frequency: Frequency,
    /// The magnitude found in the bin.
    pub magnitude: u32,
    /// The amplitude, in the banded mode.
    pub amplitude: Option<Amplitude>,
}

/// The analysis of one frame.
#[derive(Clone, Debug, PartialEq, Eq)]
pub struct AnalysisFrame {
    /// The frame's place in the buffer, counted from zero.
    pub index: usize,
    /// Whole seconds from the start of the buffer to the start of the frame.
    pub seconds: usize,
    /// Milliseconds past the whole seconds.
    pub millis: u16,
    /// The greatest magnitude among the frame's eligible bins.
    pub max_magnitude: u32,
    /// The peaks, from the lowest frequency to the highest.
    pub peaks: Vec<Peak>,
}

/// How a bin of magnitude `magnitude` compares with the frame's greatest
/// magnitude `max`: no amplitude in the unbanded mode, zero in a silent
/// frame, one for a bin that reaches the greatest magnitude.
pub open spec fn amplitude_of(mode: Mode, magnitude: u32, max: u32) -> Option<Amplitude> {
    match mode {
        Mode::Unbanded => None,
        Mode::Banded => Some(
            if max == 0 {
                Amplitude::Zero
            } else if magnitude >= max {
                Amplitude::Full
            } else {
                Amplitude::Partial
            },
        ),
    }
}

/// The peak at bin `bin` of `spectrum`.
pub open spec fn peak_of(mode: Mode, sample_rate: u32, spectrum: Seq<u32>, bin: usize) -> Peak {
    let chunk = chunk_size_of(sample_rate);
    Peak {
        bin,
        frequency: frequency_of(sample_rate, chunk, bin as int),
        magnitude: spectrum[bin as int],
        amplitude: amplitude_of(
            mode,
            spectrum[bin as int],
            max_magnitude_of(spectrum, mode, sample_rate, chunk),
        ),
    }
}

impl AnalysisFrame {
    /// The bins of the frame's peaks, in the order of the peaks.
    pub open spec fn bins(&self) -> Seq<usize> {
        Seq::new(self.peaks@.len(), |i: int| self.peaks@[i].bin)
    }

    /// Whether this is the analysis of frame `index`, whose magnitudes are
    /// `spectrum`, at `sample_rate` samples per second with `requested`
    /// peaks asked for.
    pub open spec fn describes(
        &self,
        mode: Mode,
        sample_rate: u32,
        requested: u8,
        index: usize,
        spectrum: Seq<u32>,
    ) -> bool {
        let chunk = chunk_size_of(sample_rate);
        &&& self.index == index
        &&& self.seconds as int == index as int / 8
        &&& self.millis as int == (index as int % 8) * 125
        &&& self.max_magnitude == max_magnitude_of(spectrum, mode, sample_rate, chunk)
        &&& is_selection(
            self.bins(),
            spectrum,
            mode,
            sample_rate,
            chunk,
            channel_limit_of(mode, requested),
        )
        &&& forall|i: int|
            0 <= i < self.peaks@.len() ==> #[trigger] self.peaks@[i] == peak_of(
                mode,
                sample_rate,
                spectrum,
                self.peaks@[i].bin,
            )
    }

    /// The time at which the frame starts, in milliseconds.
    pub open spec fn time_millis(&self) -> int {
        self.seconds as int * 1000 + self.millis as int
    }
}

/// Whether `frames` is the analysis of the buffer whose frames have the
/// magnitudes `spectra`: one frame for each spectrum, in their order, and
/// none where the rate leaves fewer than two samples to a frame.
pub open spec fn is_analysis(
    frames: Seq<AnalysisFrame>,
    mode: Mode,
    sample_rate: u32,
    requested: u8,
    spectra: Seq<Vec<u32>>,
) -> bool {
    &&& frames.len() == if chunk_size_of(sample_rate) < 2 {
        0
    } else {
        spectra.len()
    }
    &&& forall|i: int|
        0 <= i < frames.len() ==> (#[trigger] frames[i]).describes(
            mode,
            sample_rate,
            requested,
            i as usize,
            spectra[i]@,
        )
}

/// How a bin of magnitude `magnitude` compares with the frame's greatest
/// magnitude `max`.
pub fn amplitude(mode: Mode, magnitude: u32, max: u32) -> (amplitude: Option<Amplitude>)
    ensures
        amplitude == amplitude_of(mode, magnitude, max),
{
    match mode {
        Mode::Unbanded => None,
        Mode::Banded => {
            if max == 0 {
                Some(Amplitude::Zero)
            } else if magnitude >= max {
                Some(Amplitude::Full)
            } else {
                Some(Amplitude::Partial)
            }
        },
    }
}

/// The analysis of frame `index` from the magnitudes of its spectrum: the
/// frame's time, and its strongest eligible bins as peaks in ascending order
/// of frequency, at most as many as the mode allows of `requested`.
pub fn analyze_frame(
    mode: Mode,
    sample_rate: u32,
    requested: u8,
    index: usize,
    spectrum: &Vec<u32>,
) -> (frame: AnalysisFrame)
    ensures
        frame.describes(mode, sample_rate, requested, index, spectrum@),
        frame.peaks@.len() <= channel_limit_of(mode, requested),
{
    let chunk: usize = chunk_size(sample_rate);
    let limit: usize = channel_limit(mode, requested);
    let max: u32 = max_magnitude(spectrum, mode, sample_rate, chunk);
    let picked: Vec<usize> = select_peaks(spectrum, mode, sample_rate, chunk, limit);
    let mut peaks: Vec<Peak> = Vec::new();
    let mut at: usize = 0;
    while at < picked.len()
        invariant
            at <= picked.len(),
            peaks@.len() == at,
            chunk as int == chunk_size_of(sample_rate),
            max == max_magnitude_of(spectrum@, mode, sample_rate, chunk as int),
            is_selection(
                picked@,
                spectrum@,
                mode,
                sample_rate,
                chunk as int,
                limit as int,
            ),
            forall|i: int|
                0 <= i < at ==> #[trigger] peaks@[i] == peak_of(
                    mode,
                    sample_rate,
                    spectrum@,
                    picked@[i],
                ),
        decreases picked.len() - at,
    {
        let bin: usize = picked[at];
        assert(eligible(
            mode,
            sample_rate,
            chunk as int,
            bins_of(spectrum@.len() as int, chunk as int),
            picked@[at as int] as int,
        ));
        let magnitude: u32 = spectrum[bin];
        peaks.push(
            Peak {
                bin,
                frequency: frequency(sample_rate, chunk, bin),
                magnitude,
                amplitude: amplitude(mode, magnitude, max),
            },
        );
        at = at + 1;
    }
    let time: (usize, u16) = frame_time(index);
    let frame = AnalysisFrame { index, seconds: time.0, millis: time.1, max_magnitude: max, peaks };
    assert(frame.bins() =~= picked@);
    frame
}

/// The analysis of a buffer from the spectra of its frames, in their order:
/// one frame of the result for each spectrum, and none where the rate leaves
/// fewer than two samples to a frame.
pub fn analyze(mode: Mode, sample_rate: u32, requested: u8, spectra: &Vec<Vec<u32>>) -> (frames:
    Vec<AnalysisFrame>)
    ensures
        is_analysis(frames@, mode, sample_rate, requested, spectra@),
        sample_rate == 0 ==> frames@.len() == 0,
        chunk_size_of(sample_rate) >= 2 ==> frames@.len() == spectra@.len(),
{
    let mut frames: Vec<AnalysisFrame> = Vec::new();
    if chunk_size(sample_rate) < MIN_CHUNK {
        return frames;
    }
    let mut index: usize = 0;
    while index < spectra.len()
        invariant
            index <= spectra.len(),
            frames@.len() == index,
            forall|i: int|
                0 <= i < index ==> (#[trigger] frames@[i]).describes(
                    mode,
                    sample_rate,
                    requested,
                    i as usize,
                    spectra@[i]@,
                ),
        decreases spectra.len() - index,
    {
        let frame: AnalysisFrame = analyze_frame(
            mode,
            sample_rate,
            requested,
            index,
            &spectra[index],
        );
        frames.push(frame);
        index = index + 1;
    }
    frames
}

/// The banded analysis of a buffer from the spectra of its frames: the
/// audible band only, between one and sixteen peaks to a frame, each with
/// its amplitude.
pub fn convert_audio(spectra: &Vec<Vec<u32>>, sample_rate: u32, num_channels: u8) -> (frames: Vec<
    AnalysisFrame,
>)
    ensures
        is_analysis(frames@, Mode::Banded, sample_rate, num_channels, spectra@),
        sample_rate == 0 ==> frames@.len() == 0,
        chunk_size_of(sample_rate) >= 2 ==> frames@.len() == spectra@.len(),
{
    analyze(Mode::Banded, sample_rate, num_channels, spectra)
}

} // verus!
