use rats_music_converter::analysis::{
    amplitude, analyze, analyze_frame, convert_audio, Amplitude, AnalysisFrame, Peak,
};
use rats_music_converter::band::{Frequency, Mode};

// At 800 samples a second a frame has 100 samples and a bin is eight hertz
// wide, so that the band starts at bin 3.
fn sample_spectrum() -> Vec<u32> {
    let mut spectrum: Vec<u32> = vec![0; 50];
    spectrum[1] = 1000;
    spectrum[2] = 999;
    spectrum[3] = 10;
    spectrum[7] = 40;
    spectrum[20] = 40;
    spectrum[49] = 5;
    spectrum
}

fn banded_peak(bin: usize, magnitude: u32, amplitude: Amplitude) -> Peak {
    Peak {
        bin,
        frequency: Frequency { numerator: bin as u128 * 800, denominator: 100 },
        magnitude,
        amplitude: Some(amplitude),
    }
}

#[test]
fn amplitude_compares_with_the_greatest_magnitude() {
    assert_eq!(amplitude(Mode::Banded, 0, 0), Some(Amplitude::Zero));
    assert_eq!(amplitude(Mode::Banded, 40, 40), Some(Amplitude::Full));
    assert_eq!(amplitude(Mode::Banded, 41, 40), Some(Amplitude::Full));
    assert_eq!(amplitude(Mode::Banded, 39, 40), Some(Amplitude::Partial));
    assert_eq!(amplitude(Mode::Banded, 0, 40), Some(Amplitude::Partial));
    assert_eq!(amplitude(Mode::Banded, 5, 0), Some(Amplitude::Zero));
    assert_eq!(amplitude(Mode::Unbanded, 40, 40), None);
    assert_eq!(amplitude(Mode::Unbanded, 0, 0), None);
}

#[test]
fn banded_frame_lists_peaks_with_amplitudes() {
    let frame = analyze_frame(Mode::Banded, 800, 3, 9, &sample_spectrum());
    assert_eq!(
        frame,
        AnalysisFrame {
            index: 9,
            seconds: 1,
            millis: 125,
            max_magnitude: 40,
            peaks: vec![
                banded_peak(3, 10, Amplitude::Partial),
                banded_peak(7, 40, Amplitude::Full),
                banded_peak(20, 40, Amplitude::Full),
            ],
        }
    );
}

#[test]
fn strongest_peak_of_a_banded_frame_has_full_amplitude() {
    for requested in [0u8, 1, 2, 5, 16, 255] {
        let frame = analyze_frame(Mode::Banded, 800, requested, 0, &sample_spectrum());
        assert_eq!(frame.max_magnitude, 40);
        assert!(frame
            .peaks
            .iter()
            .any(|peak| peak.bin == 7 && peak.amplitude == Some(Amplitude::Full)));
        for peak in &frame.peaks {
            assert!(peak.magnitude <= frame.max_magnitude);
        }
    }
}

#[test]
fn banded_request_is_held_between_one_and_sixteen() {
    let spectrum = sample_spectrum();
    assert_eq!(analyze_frame(Mode::Banded, 800, 0, 0, &spectrum).peaks.len(), 1);
    assert_eq!(analyze_frame(Mode::Banded, 800, 1, 0, &spectrum).peaks.len(), 1);
    assert_eq!(analyze_frame(Mode::Banded, 800, 16, 0, &spectrum).peaks.len(), 16);
    assert_eq!(analyze_frame(Mode::Banded, 800, 200, 0, &spectrum).peaks.len(), 16);
    assert_eq!(
        analyze_frame(Mode::Banded, 800, 0, 0, &spectrum).peaks,
        vec![banded_peak(7, 40, Amplitude::Full)]
    );
}

#[test]
fn unbanded_frame_lists_frequencies_only() {
    let frame = analyze_frame(Mode::Unbanded, 800, 3, 2, &sample_spectrum());
    assert_eq!(frame.index, 2);
    assert_eq!((frame.seconds, frame.millis), (0, 250));
    assert_eq!(frame.max_magnitude, 1000);
    assert_eq!(
        frame.peaks,
        vec![
            Peak {
                bin: 1,
                frequency: Frequency { numerator: 800, denominator: 100 },
                magnitude: 1000,
                amplitude: None,
            },
            Peak {
                bin: 2,
                frequency: Frequency { numerator: 1600, denominator: 100 },
                magnitude: 999,
                amplitude: None,
            },
            Peak {
                bin: 7,
                frequency: Frequency { numerator: 5600, denominator: 100 },
                magnitude: 40,
                amplitude: None,
            },
        ]
    );
}

#[test]
fn unbanded_request_is_taken_as_it_is() {
    let spectrum = sample_spectrum();
    assert_eq!(analyze_frame(Mode::Unbanded, 800, 0, 0, &spectrum).peaks.len(), 0);
    assert_eq!(analyze_frame(Mode::Unbanded, 800, 17, 0, &spectrum).peaks.len(), 17);
    assert_eq!(analyze_frame(Mode::Unbanded, 800, 49, 0, &spectrum).peaks.len(), 49);
    assert_eq!(analyze_frame(Mode::Unbanded, 800, 200, 0, &spectrum).peaks.len(), 49);
}

#[test]
fn unbanded_frame_with_fifty_bins_gives_fifty_peaks() {
    // At 816 samples a second a frame has 102 samples: 51 bins, 50 without
    // the first.
    let spectrum: Vec<u32> = (0u32..51).map(|bin| 1000 - bin).collect();
    let frame = analyze_frame(Mode::Unbanded, 816, 200, 0, &spectrum);
    assert_eq!(frame.peaks.len(), 50);
    let bins: Vec<usize> = frame.peaks.iter().map(|peak| peak.bin).collect();
    assert_eq!(bins, (1usize..=50).collect::<Vec<usize>>());
    let banded = analyze_frame(Mode::Banded, 816, 200, 0, &spectrum);
    assert_eq!(banded.peaks.len(), 16);
}

#[test]
fn silent_frame_has_amplitude_zero() {
    let spectrum: Vec<u32> = vec![0; 2756];
    let frame = analyze_frame(Mode::Banded, 44100, 4, 0, &spectrum);
    assert_eq!(frame.max_magnitude, 0);
    let bins: Vec<usize> = frame.peaks.iter().map(|peak| peak.bin).collect();
    assert_eq!(bins, vec![3, 4, 5, 6]);
    for peak in &frame.peaks {
        assert_eq!(peak.magnitude, 0);
        assert_eq!(peak.amplitude, Some(Amplitude::Zero));
    }
}

#[test]
fn peaks_of_a_frame_ascend_in_frequency() {
    let spectrum: Vec<u32> = (0u32..2756).map(|bin| (bin * 7919) % 1013).collect();
    for mode in [Mode::Banded, Mode::Unbanded] {
        let frame = analyze_frame(mode, 44100, 16, 0, &spectrum);
        assert_eq!(frame.peaks.len(), 16);
        for pair in frame.peaks.windows(2) {
            assert!(pair[0].bin < pair[1].bin);
            assert!(
                pair[0].frequency.numerator * pair[1].frequency.denominator
                    < pair[1].frequency.numerator * pair[0].frequency.denominator
            );
        }
    }
}

#[test]
fn frame_without_spectrum_has_no_peak() {
    let frame = analyze_frame(Mode::Banded, 44100, 4, 3, &Vec::new());
    assert_eq!(
        frame,
        AnalysisFrame { index: 3, seconds: 0, millis: 375, max_magnitude: 0, peaks: Vec::new() }
    );
}

#[test]
fn analysis_has_one_frame_for_each_spectrum() {
    let spectra: Vec<Vec<u32>> = vec![sample_spectrum(), vec![0; 50], sample_spectrum()];
    let frames = analyze(Mode::Banded, 800, 2, &spectra);
    assert_eq!(frames.len(), 3);
    for (index, frame) in frames.iter().enumerate() {
        assert_eq!(*frame, analyze_frame(Mode::Banded, 800, 2, index, &spectra[index]));
        assert_eq!(frame.index, index);
    }
    assert_eq!(frames[0].peaks, frames[2].peaks);
    assert_eq!(
        frames[1].peaks,
        vec![banded_peak(3, 0, Amplitude::Zero), banded_peak(4, 0, Amplitude::Zero)]
    );
}

#[test]
fn analysis_times_step_by_one_eighth_of_a_second() {
    let spectra: Vec<Vec<u32>> = vec![sample_spectrum(); 20];
    let frames = analyze(Mode::Unbanded, 800, 1, &spectra);
    assert_eq!(frames.len(), 20);
    for (index, frame) in frames.iter().enumerate() {
        assert_eq!(frame.seconds as u64 * 1000 + frame.millis as u64, index as u64 * 125);
    }
    assert_eq!((frames[8].seconds, frames[8].millis), (1, 0));
    assert_eq!((frames[19].seconds, frames[19].millis), (2, 375));
}

#[test]
fn analysis_at_rate_zero_is_empty() {
    let spectra: Vec<Vec<u32>> = vec![sample_spectrum(), sample_spectrum()];
    assert_eq!(analyze(Mode::Banded, 0, 4, &spectra), Vec::<AnalysisFrame>::new());
    assert_eq!(analyze(Mode::Unbanded, 0, 4, &spectra), Vec::<AnalysisFrame>::new());
    assert_eq!(convert_audio(&spectra, 0, 4), Vec::<AnalysisFrame>::new());
}

#[test]
fn analysis_below_two_samples_a_frame_is_empty() {
    let spectra: Vec<Vec<u32>> = vec![sample_spectrum()];
    for rate in 1u32..16 {
        assert_eq!(analyze(Mode::Banded, rate, 4, &spectra), Vec::<AnalysisFrame>::new());
    }
    assert_eq!(analyze(Mode::Banded, 16, 4, &spectra).len(), 1);
}

#[test]
fn analysis_of_no_spectra_is_empty() {
    assert_eq!(analyze(Mode::Banded, 44100, 4, &Vec::new()), Vec::<AnalysisFrame>::new());
    assert_eq!(convert_audio(&Vec::new(), 44100, 4), Vec::<AnalysisFrame>::new());
}

#[test]
fn convert_audio_is_the_banded_analysis() {
    let spectra: Vec<Vec<u32>> = vec![sample_spectrum(), vec![3; 50]];
    for requested in [0u8, 1, 4, 16, 200] {
        assert_eq!(
            convert_audio(&spectra, 800, requested),
            analyze(Mode::Banded, 800, requested, &spectra)
        );
    }
    let frames = convert_audio(&spectra, 800, 3);
    assert_eq!(
        frames[0].peaks,
        vec![
            banded_peak(3, 10, Amplitude::Partial),
            banded_peak(7, 40, Amplitude::Full),
            banded_peak(20, 40, Amplitude::Full),
        ]
    );
    assert_eq!(
        frames[1].peaks,
        vec![
            banded_peak(3, 3, Amplitude::Full),
            banded_peak(4, 3, Amplitude::Full),
            banded_peak(5, 3, Amplitude::Full),
        ]
    );
}

#[test]
fn analysis_is_the_same_on_every_call() {
    let spectra: Vec<Vec<u32>> = vec![sample_spectrum(), vec![3; 50], sample_spectrum()];
    assert_eq!(convert_audio(&spectra, 800, 4), convert_audio(&spectra, 800, 4));
    assert_eq!(
        analyze(Mode::Unbanded, 800, 200, &spectra),
        analyze(Mode::Unbanded, 800, 200, &spectra)
    );
}
