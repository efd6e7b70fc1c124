//! What holds of every analysis, whatever the spectra.

use vstd::prelude::*;
use crate::analysis::{is_analysis, Amplitude, AnalysisFrame};
use crate::band::{
    channel_limit_of,
    eligible,
    eligible_count,
    lemma_eligible_counted,
    lemma_frequency_ascends,
    lemma_unbanded_count,
    Mode,
};
use crate::framing::chunk_size_of;
use crate::peaks::{
    ascending,
    bins_of,
    holds,
    is_selection,
    lemma_max_magnitude_below,
    max_magnitude_of,
    outranks,
};

verus! {

/// Two ascending lists of equal length, each holding every bin of the other,
/// agree below `upto`.
proof fn lemma_ascending_agree(first: Seq<usize>, second: Seq<usize>, upto: int)
    requires
        ascending(first),
        ascending(second),
        first.len() == second.len(),
        forall|i: int| 0 <= i < first.len() ==> holds(second, #[trigger] first[i] as int),
        forall|i: int| 0 <= i < second.len() ==> holds(first, #[trigger] second[i] as int),
        0 <= upto <= first.len(),
    ensures
        forall|i: int| 0 <= i < upto ==> first[i] == second[i],
    decreases upto,
{
    if upto > 0 {
        lemma_ascending_agree(first, second, upto - 1);
        let i = upto - 1;
        if first[i] < second[i] {
            let j = choose|j: int| 0 <= j < second.len() && second[j] as int == first[i] as int;
            if j < i {
                assert(first[j] < first[i]);
            } else if j > i {
                assert(second[i] < second[j]);
            }
            assert(false);
        } else if second[i] < first[i] {
            let j = choose|j: int| 0 <= j < first.len() && first[j] as int == second[i] as int;
            if j < i {
                assert(second[j] < second[i]);
            } else if j > i {
                assert(first[i] < first[j]);
            }
            assert(false);
        }
    }
}

/// A spectrum has one choice of peaks and no other: two lists that both are
/// the choice for the same spectrum, mode, rate, frame length and limit are
/// the same list.
pub proof fn lemma_selection_unique(
    first: Seq<usize>,
    second: Seq<usize>,
    spectrum: Seq<u32>,
    mode: Mode,
    sample_rate: u32,
    chunk: int,
    limit: int,
)
    requires
        is_selection(first, spectrum, mode, sample_rate, chunk, limit),
        is_selection(second, spectrum, mode, sample_rate, chunk, limit),
    ensures
        first == second,
{
    broadcast use vstd::seq_lib::seq_to_set_is_finite;

    let bins = bins_of(spectrum.len() as int, chunk);
    let s1 = first.to_set();
    let s2 = second.to_set();
    assert(first.no_duplicates());
    assert(second.no_duplicates());
    first.unique_seq_to_set();
    second.unique_seq_to_set();
    assert forall|x: usize| s1.contains(x) <==> holds(first, x as int) by {
        if s1.contains(x) {
            let i = choose|i: int| 0 <= i < first.len() && first[i] == x;
            assert(first[i] as int == x as int);
        }
        if holds(first, x as int) {
            let i = choose|i: int| 0 <= i < first.len() && first[i] as int == x as int;
            assert(first[i] == x);
            assert(first.contains(x));
        }
    }
    assert forall|x: usize| s2.contains(x) <==> holds(second, x as int) by {
        if s2.contains(x) {
            let i = choose|i: int| 0 <= i < second.len() && second[i] == x;
            assert(second[i] as int == x as int);
        }
        if holds(second, x as int) {
            let i = choose|i: int| 0 <= i < second.len() && second[i] as int == x as int;
            assert(second[i] == x);
            assert(second.contains(x));
        }
    }
    if !s1.subset_of(s2) && !s2.subset_of(s1) {
        let x = choose|x: usize| s1.contains(x) && !s2.contains(x);
        let y = choose|y: usize| s2.contains(y) && !s1.contains(y);
        let i = choose|i: int| 0 <= i < first.len() && first[i] as int == x as int;
        let j = choose|j: int| 0 <= j < second.len() && second[j] as int == y as int;
        assert(eligible(mode, sample_rate, chunk, bins, first[i] as int));
        assert(eligible(mode, sample_rate, chunk, bins, second[j] as int));
        assert(outranks(spectrum, first[i] as int, y as int));
        assert(outranks(spectrum, second[j] as int, x as int));
        assert(false);
    }
    if s1.subset_of(s2) {
        vstd::set_lib::lemma_subset_equality(s1, s2);
    } else {
        vstd::set_lib::lemma_subset_equality(s2, s1);
    }
    assert forall|i: int| 0 <= i < first.len() implies holds(
        second,
        #[trigger] first[i] as int,
    ) by {
        assert(holds(first, first[i] as int));
        assert(s1.contains(first[i]));
    }
    assert forall|i: int| 0 <= i < second.len() implies holds(
        first,
        #[trigger] second[i] as int,
    ) by {
        assert(holds(second, second[i] as int));
        assert(s2.contains(second[i]));
    }
    lemma_ascending_agree(first, second, first.len() as int);
    assert(first =~= second);
}

/// A frame has one analysis and no other: two analyses of the same frame
/// agree in their time, in the greatest magnitude and in every peak.
pub proof fn lemma_frame_unique(
    first: AnalysisFrame,
    second: AnalysisFrame,
    mode: Mode,
    sample_rate: u32,
    requested: u8,
    index: usize,
    spectrum: Seq<u32>,
)
    requires
        first.describes(mode, sample_rate, requested, index, spectrum),
        second.describes(mode, sample_rate, requested, index, spectrum),
    ensures
        first.index == second.index,
        first.seconds == second.seconds,
        first.millis == second.millis,
        first.max_magnitude == second.max_magnitude,
        first.peaks@ == second.peaks@,
{
    lemma_selection_unique(
        first.bins(),
        second.bins(),
        spectrum,
        mode,
        sample_rate,
        chunk_size_of(sample_rate),
        channel_limit_of(mode, requested),
    );
    assert forall|i: int| 0 <= i < first.peaks@.len() implies first.peaks@[i]
        == second.peaks@[i] by {
        assert(first.bins()[i] == second.bins()[i]);
    }
    assert(first.peaks@ =~= second.peaks@);
}

/// A buffer has one analysis and no other: two analyses of the same spectra
/// have the same number of frames and agree frame by frame.
pub proof fn lemma_analysis_unique(
    first: Seq<AnalysisFrame>,
    second: Seq<AnalysisFrame>,
    mode: Mode,
    sample_rate: u32,
    requested: u8,
    spectra: Seq<Vec<u32>>,
)
    requires
        is_analysis(first, mode, sample_rate, requested, spectra),
        is_analysis(second, mode, sample_rate, requested, spectra),
    ensures
        first.len() == second.len(),
        forall|i: int|
            0 <= i < first.len() ==> {
                &&& (#[trigger] first[i]).index == second[i].index
                &&& first[i].seconds == second[i].seconds
                &&& first[i].millis == second[i].millis
                &&& first[i].max_magnitude == second[i].max_magnitude
                &&& first[i].peaks@ == second[i].peaks@
            },
{
    assert forall|i: int| 0 <= i < first.len() implies {
        &&& (#[trigger] first[i]).index == second[i].index
        &&& first[i].seconds == second[i].seconds
        &&& first[i].millis == second[i].millis
        &&& first[i].max_magnitude == second[i].max_magnitude
        &&& first[i].peaks@ == second[i].peaks@
    } by {
        lemma_frame_unique(
            first[i],
            second[i],
            mode,
            sample_rate,
            requested,
            i as usize,
            spectra[i]@,
        );
    }
}

/// A frame carries no more peaks than the mode allows of the number asked
/// for, and its peaks stand in strictly ascending order of bin and of
/// frequency, so that no bin occurs twice.
pub proof fn lemma_peaks_ordered(
    frame: AnalysisFrame,
    mode: Mode,
    sample_rate: u32,
    requested: u8,
    index: usize,
    spectrum: Seq<u32>,
)
    requires
        frame.describes(mode, sample_rate, requested, index, spectrum),
    ensures
        frame.peaks@.len() <= channel_limit_of(mode, requested),
        mode == Mode::Banded ==> frame.peaks@.len() <= 16,
        forall|i: int, j: int|
            0 <= i < j < frame.peaks@.len() ==> {
                &&& (#[trigger] frame.peaks@[i]).bin < (#[trigger] frame.peaks@[j]).bin
                &&& frame.peaks@[i].frequency.below(frame.peaks@[j].frequency)
            },
{
    let chunk = chunk_size_of(sample_rate);
    let bins = bins_of(spectrum.len() as int, chunk);
    assert forall|i: int, j: int| 0 <= i < j < frame.peaks@.len() implies {
        &&& (#[trigger] frame.peaks@[i]).bin < (#[trigger] frame.peaks@[j]).bin
        &&& frame.peaks@[i].frequency.below(frame.peaks@[j].frequency)
    } by {
        let low = frame.peaks@[i].bin;
        let high = frame.peaks@[j].bin;
        assert(frame.bins()[i] == low && frame.bins()[j] == high);
        assert(low < high);
        assert(eligible(mode, sample_rate, chunk, bins, frame.bins()[i] as int));
        lemma_frequency_ascends(sample_rate, chunk, low as int, high as int);
    }
}

/// A frame carries as many peaks as the mode allows of the number asked
/// for, or every eligible bin where there are fewer. In the unbanded mode
/// those are all the bins read but the first.
pub proof fn lemma_peak_count(
    frame: AnalysisFrame,
    mode: Mode,
    sample_rate: u32,
    requested: u8,
    index: usize,
    spectrum: Seq<u32>,
)
    requires
        frame.describes(mode, sample_rate, requested, index, spectrum),
    ensures
        ({
            let chunk = chunk_size_of(sample_rate);
            let bins = bins_of(spectrum.len() as int, chunk);
            let offered = eligible_count(mode, sample_rate, chunk, bins, bins) as int;
            let limit = channel_limit_of(mode, requested);
            &&& frame.peaks@.len() == if limit < offered {
                limit
            } else {
                offered
            }
            &&& mode == Mode::Unbanded && bins >= 1 ==> offered == bins - 1
            &&& mode == Mode::Unbanded && bins >= 1 && requested >= bins - 1 ==> frame.peaks@.len()
                == bins - 1
        }),
{
    let chunk = chunk_size_of(sample_rate);
    let bins = bins_of(spectrum.len() as int, chunk);
    if mode == Mode::Unbanded && bins >= 1 {
        lemma_unbanded_count(sample_rate, chunk, bins, bins);
    }
}

/// In the banded mode no peak is stronger than the frame's greatest
/// magnitude. In a silent frame every peak has the amplitude zero. In any
/// other frame a peak has the full amplitude exactly when it reaches the
/// greatest magnitude, and some peak does.
pub proof fn lemma_strongest_peak_full(
    frame: AnalysisFrame,
    sample_rate: u32,
    requested: u8,
    index: usize,
    spectrum: Seq<u32>,
)
    requires
        frame.describes(Mode::Banded, sample_rate, requested, index, spectrum),
    ensures
        forall|i: int|
            0 <= i < frame.peaks@.len() ==> {
                &&& (#[trigger] frame.peaks@[i]).magnitude <= frame.max_magnitude
                &&& frame.max_magnitude == 0 ==> frame.peaks@[i].amplitude == Some(Amplitude::Zero)
                &&& frame.max_magnitude > 0 ==> (frame.peaks@[i].amplitude == Some(Amplitude::Full)
                    <==> frame.peaks@[i].magnitude == frame.max_magnitude)
                &&& frame.max_magnitude > 0 ==> (frame.peaks@[i].amplitude == Some(
                    Amplitude::Partial,
                ) <==> frame.peaks@[i].magnitude < frame.max_magnitude)
            },
        frame.max_magnitude > 0 ==> exists|i: int|
            0 <= i < frame.peaks@.len() && (#[trigger] frame.peaks@[i]).magnitude
                == frame.max_magnitude && frame.peaks@[i].amplitude == Some(Amplitude::Full),
{
    let mode = Mode::Banded;
    let chunk = chunk_size_of(sample_rate);
    let bins = bins_of(spectrum.len() as int, chunk);
    let max = max_magnitude_of(spectrum, mode, sample_rate, chunk);
    let picked = frame.bins();
    lemma_max_magnitude_below(spectrum, mode, sample_rate, chunk, bins);
    assert forall|i: int| 0 <= i < frame.peaks@.len() implies (#[trigger] frame.peaks@[i]).magnitude
        <= max by {
        assert(eligible(mode, sample_rate, chunk, bins, picked[i] as int));
        assert(spectrum[picked[i] as int] <= max);
    }
    if max > 0 {
        let b = choose|b: int|
            0 <= b < bins && eligible(mode, sample_rate, chunk, bins, b) && #[trigger] spectrum[b]
                == max;
        lemma_eligible_counted(mode, sample_rate, chunk, bins, bins, b);
        assert(picked.len() >= 1);
        if holds(picked, b) {
            let i = choose|i: int| 0 <= i < picked.len() && picked[i] as int == b;
            assert(frame.peaks@[i].magnitude == max);
        } else {
            assert(outranks(spectrum, picked[0] as int, b));
            assert(eligible(mode, sample_rate, chunk, bins, picked[0] as int));
            assert(spectrum[picked[0] as int] <= max);
            assert(frame.peaks@[0].magnitude == max);
        }
    }
}

/// The frames of an analysis are numbered from zero in their order, and
/// each starts one eighth of a second after the one before it.
pub proof fn lemma_times_step(
    frames: Seq<AnalysisFrame>,
    mode: Mode,
    sample_rate: u32,
    requested: u8,
    spectra: Seq<Vec<u32>>,
)
    requires
        is_analysis(frames, mode, sample_rate, requested, spectra),
        spectra.len() <= usize::MAX,
    ensures
        forall|i: int|
            0 <= i < frames.len() ==> (#[trigger] frames[i]).index == i && frames[i].time_millis()
                == i * 125,
        forall|i: int|
            0 <= i < frames.len() - 1 ==> (#[trigger] frames[i + 1]).time_millis()
                == frames[i].time_millis() + 125,
{
    assert forall|i: int| 0 <= i < frames.len() implies (#[trigger] frames[i]).index == i
        && frames[i].time_millis() == i * 125 by {
        assert(frames[i].describes(mode, sample_rate, requested, i as usize, spectra[i]@));
    }
}

} // verus!
