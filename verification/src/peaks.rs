//! Choosing the strongest bins of one frame's magnitude spectrum.
//!
//! A spectrum is a vector of magnitudes, one per bin, each given as an
//! unsigned integer that grows with the magnitude and is zero for silence.
//! The bit pattern of a non-negative binary32 number is such an integer, and
//! `magnitude_code` makes one of any bit pattern. Only the bins below half
//! the frame's length are read. Of two bins the one with the greater
//! magnitude ranks first; of two bins of equal magnitude, the lower one.

use vstd::prelude::*;
use crate::band::{eligible, eligible_count, is_eligible, Mode};

verus! {

/// The bit pattern of positive infinity in binary32: the greatest pattern
/// that stands for a magnitude. The patterns above it are those that are not
/// a number and those with the sign set.
pub const MAX_MAGNITUDE_BITS: u32 = 0x7f80_0000;

/// The magnitude that the binary32 bit pattern `bits` counts as: itself where
/// it is a non-negative number or positive infinity, and silence otherwise.
pub open spec fn magnitude_code_of(bits: u32) -> u32 {
    if bits <= 0x7f80_0000 {
        bits
    } else {
        0
    }
}

/// How many bins of a spectrum of `len` magnitudes are read for a frame of
/// `chunk` samples: those below half the frame's length.
pub open spec fn bins_of(len: int, chunk: int) -> int {
    if len < chunk / 2 {
        len
    } else {
        chunk / 2
    }
}

/// Whether bin `a` ranks before bin `b`.
pub open spec fn outranks(spectrum: Seq<u32>, a: int, b: int) -> bool {
    spectrum[a] > spectrum[b] || (spectrum[a] == spectrum[b] && a < b)
}

/// Whether `picked` lists bins in strictly ascending order.
pub open spec fn ascending(picked: Seq<usize>) -> bool {
    forall|i: int, j: int| 0 <= i < j < picked.len() ==> picked[i] < picked[j]
}

/// Whether `bin` is one of `picked`.
pub open spec fn holds(picked: Seq<usize>, bin: int) -> bool {
    exists|i: int| 0 <= i < picked.len() && picked[i] as int == bin
}

/// Whether `picked` is the choice of peaks for `spectrum`: the eligible bins
/// that rank first, as many as `limit` allows and the spectrum offers, listed
/// from the lowest bin to the highest.
pub open spec fn is_selection(
    picked: Seq<usize>,
    spectrum: Seq<u32>,
    mode: Mode,
    sample_rate: u32,
    chunk: int,
    limit: int,
) -> bool {
    let bins = bins_of(spectrum.len() as int, chunk);
    let offered = eligible_count(mode, sample_rate, chunk, bins, bins) as int;
    &&& ascending(picked)
    &&& picked.len() as int == if limit < offered {
        limit
    } else {
        offered
    }
    &&& forall|i: int|
        0 <= i < picked.len() ==> eligible(
            mode,
            sample_rate,
            chunk,
            bins,
            #[trigger] picked[i] as int,
        )
    &&& forall|i: int, other: int|
        0 <= i < picked.len() && eligible(mode, sample_rate, chunk, bins, other) && !holds(
            picked,
            other,
        ) ==> #[trigger] outranks(spectrum, picked[i] as int, other)
}

/// The greatest magnitude among the eligible bins below `upto`, and zero
/// where there is none.
pub open spec fn max_magnitude_below(
    spectrum: Seq<u32>,
    mode: Mode,
    sample_rate: u32,
    chunk: int,
    upto: int,
) -> u32
    decreases upto,
{
    if upto <= 0 {
        0
    } else {
        let rest = max_magnitude_below(spectrum, mode, sample_rate, chunk, upto - 1);
        let bins = bins_of(spectrum.len() as int, chunk);
        if eligible(mode, sample_rate, chunk, bins, upto - 1) && spectrum[upto - 1] > rest {
            spectrum[upto - 1]
        } else {
            rest
        }
    }
}

/// The greatest magnitude among the eligible bins of `spectrum`, and zero
/// where there is none.
pub open spec fn max_magnitude_of(
    spectrum: Seq<u32>,
    mode: Mode,
    sample_rate: u32,
    chunk: int,
) -> u32 {
    max_magnitude_below(
        spectrum,
        mode,
        sample_rate,
        chunk,
        bins_of(spectrum.len() as int, chunk),
    )
}

/// How many of the marks below `upto` are set.
spec fn marked_count(marks: Seq<bool>, upto: int) -> nat
    decreases upto,
{
    if upto <= 0 {
        0
    } else {
        marked_count(marks, upto - 1) + if marks[upto - 1] {
            1nat
        } else {
            0nat
        }
    }
}

/// Whether the set marks are a choice of eligible bins that rank before all
/// the eligible bins left unmarked.
spec fn marks_lead(
    marks: Seq<bool>,
    spectrum: Seq<u32>,
    mode: Mode,
    sample_rate: u32,
    chunk: int,
) -> bool {
    let bins = bins_of(spectrum.len() as int, chunk);
    &&& marks.len() == bins
    &&& forall|b: int|
        0 <= b < bins && #[trigger] marks[b] ==> eligible(mode, sample_rate, chunk, bins, b)
    &&& forall|a: int, c: int|
        0 <= a < bins && 0 <= c < bins && #[trigger] marks[a] && !#[trigger] marks[c] && eligible(
            mode,
            sample_rate,
            chunk,
            bins,
            c,
        ) ==> outranks(spectrum, a, c)
}

/// Setting a clear mark raises the count by one where the mark lies below
/// `upto`, and leaves it where it does not.
proof fn lemma_mark_counts(marks: Seq<bool>, at: int, upto: int)
    requires
        0 <= at < marks.len(),
        !marks[at],
        0 <= upto <= marks.len(),
    ensures
        marked_count(marks.update(at, true), upto) == marked_count(marks, upto) + if at < upto {
            1nat
        } else {
            0nat
        },
    decreases upto,
{
    if upto > 0 {
        lemma_mark_counts(marks, at, upto - 1);
    }
}

/// Where no mark is set, none is counted.
proof fn lemma_none_marked(marks: Seq<bool>, upto: int)
    requires
        0 <= upto <= marks.len(),
        forall|b: int| 0 <= b < upto ==> !#[trigger] marks[b],
    ensures
        marked_count(marks, upto) == 0,
    decreases upto,
{
    if upto > 0 {
        lemma_none_marked(marks, upto - 1);
    }
}

/// No more bins are marked than are eligible, where only eligible bins are
/// marked; and as many, where every eligible bin is marked.
proof fn lemma_marked_within_eligible(
    marks: Seq<bool>,
    mode: Mode,
    sample_rate: u32,
    chunk: int,
    bins: int,
    upto: int,
)
    requires
        0 <= upto <= bins == marks.len(),
        forall|b: int|
            0 <= b < bins && #[trigger] marks[b] ==> eligible(mode, sample_rate, chunk, bins, b),
    ensures
        marked_count(marks, upto) <= eligible_count(mode, sample_rate, chunk, bins, upto),
        (forall|b: int|
            0 <= b < upto && eligible(mode, sample_rate, chunk, bins, b) ==> #[trigger] marks[b])
            ==> marked_count(marks, upto) == eligible_count(
            mode,
            sample_rate,
            chunk,
            bins,
            upto,
        ),
    decreases upto,
{
    if upto > 0 {
        lemma_marked_within_eligible(marks, mode, sample_rate, chunk, bins, upto - 1);
    }
}

/// The eligible bin without a mark that ranks before every other such bin,
/// or `None` where every eligible bin is marked.
fn strongest_unmarked(
    spectrum: &Vec<u32>,
    marks: &Vec<bool>,
    mode: Mode,
    sample_rate: u32,
    chunk: usize,
) -> (best: Option<usize>)
    requires
        marks.len() == bins_of(spectrum.len() as int, chunk as int),
    ensures
        best.is_none() ==> forall|c: int|
            0 <= c < marks.len() && eligible(
                mode,
                sample_rate,
                chunk as int,
                marks.len() as int,
                c,
            ) ==> #[trigger] marks[c],
        best matches Some(a) ==> {
            &&& a < marks.len()
            &&& !marks[a as int]
            &&& eligible(mode, sample_rate, chunk as int, marks.len() as int, a as int)
            &&& forall|c: int|
                0 <= c < marks.len() && !#[trigger] marks[c] && c != a && eligible(
                    mode,
                    sample_rate,
                    chunk as int,
                    marks.len() as int,
                    c,
                ) ==> outranks(spectrum@, a as int, c)
        },
{
    let bins: usize = marks.len();
    let mut best: Option<usize> = None;
    let mut bin: usize = 0;
    while bin < bins
        invariant
            bin <= bins,
            bins == marks.len(),
            bins <= spectrum.len(),
            best.is_none() ==> forall|c: int|
                0 <= c < bin && eligible(mode, sample_rate, chunk as int, bins as int, c)
                    ==> #[trigger] marks[c],
            best matches Some(a) ==> {
                &&& a < bin
                &&& !marks[a as int]
                &&& eligible(mode, sample_rate, chunk as int, bins as int, a as int)
                &&& forall|c: int|
                    0 <= c < bin && !#[trigger] marks[c] && c != a && eligible(
                        mode,
                        sample_rate,
                        chunk as int,
                        bins as int,
                        c,
                    ) ==> outranks(spectrum@, a as int, c)
            },
        decreases bins - bin,
    {
        if !marks[bin] && is_eligible(mode, sample_rate, chunk, bins, bin) {
            match best {
                None => {
                    best = Some(bin);
                },
                Some(a) => {
                    if spectrum[bin] > spectrum[a] {
                        best = Some(bin);
                    }
                },
            }
        }
        bin = bin + 1;
    }
    best
}

/// The marked bins, from the lowest to the highest.
fn marked_bins(marks: &Vec<bool>) -> (picked: Vec<usize>)
    ensures
        ascending(picked@),
        picked.len() == marked_count(marks@, marks.len() as int),
        forall|i: int|
            0 <= i < picked.len() ==> (#[trigger] picked[i]) < marks.len()
                && marks[picked[i] as int],
        forall|b: int| 0 <= b < marks.len() && #[trigger] marks[b] ==> holds(picked@, b),
{
    let mut picked: Vec<usize> = Vec::new();
    let mut bin: usize = 0;
    while bin < marks.len()
        invariant
            bin <= marks.len(),
            ascending(picked@),
            picked.len() == marked_count(marks@, bin as int),
            forall|i: int|
                0 <= i < picked.len() ==> (#[trigger] picked[i]) < bin && marks[picked[i] as int],
            forall|b: int| 0 <= b < bin && #[trigger] marks[b] ==> holds(picked@, b),
        decreases marks.len() - bin,
    {
        if marks[bin] {
            let ghost before = picked@;
            picked.push(bin);
            proof {
                assert forall|b: int| 0 <= b < bin + 1 && #[trigger] marks[b] implies holds(
                    picked@,
                    b,
                ) by {
                    if b < bin {
                        let i = choose|i: int| 0 <= i < before.len() && before[i] as int == b;
                        assert(picked@[i] as int == b);
                    } else {
                        assert(picked@[before.len() as int] as int == b);
                    }
                }
            }
        }
        bin = bin + 1;
    }
    picked
}

/// The peaks of one frame: the eligible bins of `spectrum` that rank first,
/// at most `limit` of them, from the lowest bin to the highest.
pub fn select_peaks(
    spectrum: &Vec<u32>,
    mode: Mode,
    sample_rate: u32,
    chunk: usize,
    limit: usize,
) -> (picked: Vec<usize>)
    ensures
        is_selection(picked@, spectrum@, mode, sample_rate, chunk as int, limit as int),
        picked.len() <= limit,
{
    let half: usize = chunk / 2;
    let bins: usize = if spectrum.len() < half {
        spectrum.len()
    } else {
        half
    };
    let mut marks: Vec<bool> = Vec::new();
    while marks.len() < bins
        invariant
            marks.len() <= bins,
            forall|b: int| 0 <= b < marks.len() ==> !#[trigger] marks[b],
        decreases bins - marks.len(),
    {
        marks.push(false);
    }
    proof {
        lemma_none_marked(marks@, bins as int);
    }
    let mut count: usize = 0;
    let mut exhausted: bool = false;
    while count < limit && !exhausted
        invariant
            bins == bins_of(spectrum.len() as int, chunk as int),
            marks_lead(marks@, spectrum@, mode, sample_rate, chunk as int),
            count == marked_count(marks@, bins as int),
            count <= limit,
            exhausted ==> forall|c: int|
                0 <= c < bins && eligible(mode, sample_rate, chunk as int, bins as int, c)
                    ==> #[trigger] marks[c],
        decreases (limit - count) + if exhausted { 0int } else { 1int },
    {
        match strongest_unmarked(spectrum, &marks, mode, sample_rate, chunk) {
            None => {
                exhausted = true;
            },
            Some(best) => {
                proof {
                    lemma_mark_counts(marks@, best as int, bins as int);
                }
                marks.set(best, true);
                count = count + 1;
            },
        }
    }
    proof {
        lemma_marked_within_eligible(
            marks@,
            mode,
            sample_rate,
            chunk as int,
            bins as int,
            bins as int,
        );
    }
    let picked: Vec<usize> = marked_bins(&marks);
    proof {
        assert forall|i: int, other: int|
            0 <= i < picked.len() && eligible(
                mode,
                sample_rate,
                chunk as int,
                bins as int,
                other,
            ) && !holds(picked@, other) implies #[trigger] outranks(
            spectrum@,
            picked[i] as int,
            other,
        ) by {
            assert(marks[picked[i] as int]);
            if marks[other] {
                assert(holds(picked@, other));
            }
        }
    }
    picked
}

/// The magnitude that the binary32 bit pattern `bits` counts as in a
/// spectrum: a pattern that is not a number, or has its sign set, counts as
/// silence.
pub fn magnitude_code(bits: u32) -> (code: u32)
    ensures
        code == magnitude_code_of(bits),
        code <= MAX_MAGNITUDE_BITS,
        bits <= MAX_MAGNITUDE_BITS ==> code == bits,
        bits > MAX_MAGNITUDE_BITS ==> code == 0,
{
    if bits <= MAX_MAGNITUDE_BITS {
        bits
    } else {
        0
    }
}

/// The greatest magnitude among the eligible bins of `spectrum`, and zero
/// where no bin is eligible.
pub fn max_magnitude(spectrum: &Vec<u32>, mode: Mode, sample_rate: u32, chunk: usize) -> (max: u32)
    ensures
        max == max_magnitude_of(spectrum@, mode, sample_rate, chunk as int),
{
    let half: usize = chunk / 2;
    let bins: usize = if spectrum.len() < half {
        spectrum.len()
    } else {
        half
    };
    let mut max: u32 = 0;
    let mut bin: usize = 0;
    while bin < bins
        invariant
            bin <= bins <= spectrum.len(),
            bins == bins_of(spectrum.len() as int, chunk as int),
            max == max_magnitude_below(spectrum@, mode, sample_rate, chunk as int, bin as int),
        decreases bins - bin,
    {
        if is_eligible(mode, sample_rate, chunk, bins, bin) && spectrum[bin] > max {
            max = spectrum[bin];
        }
        bin = bin + 1;
    }
    max
}

/// No eligible bin below `upto` exceeds the greatest magnitude below `upto`,
/// and where that magnitude is not zero, some eligible bin below `upto` has
/// it.
pub proof fn lemma_max_magnitude_below(
    spectrum: Seq<u32>,
    mode: Mode,
    sample_rate: u32,
    chunk: int,
    upto: int,
)
    requires
        0 <= upto <= bins_of(spectrum.len() as int, chunk),
    ensures
        forall|b: int|
            0 <= b < upto && eligible(
                mode,
                sample_rate,
                chunk,
                bins_of(spectrum.len() as int, chunk),
                b,
            ) ==> #[trigger] spectrum[b] <= max_magnitude_below(
                spectrum,
                mode,
                sample_rate,
                chunk,
                upto,
            ),
        max_magnitude_below(spectrum, mode, sample_rate, chunk, upto) > 0 ==> exists|b: int|
            0 <= b < upto && eligible(
                mode,
                sample_rate,
                chunk,
                bins_of(spectrum.len() as int, chunk),
                b,
            ) && #[trigger] spectrum[b] == max_magnitude_below(
                spectrum,
                mode,
                sample_rate,
                chunk,
                upto,
            ),
    decreases upto,
{
    if upto > 0 {
        lemma_max_magnitude_below(spectrum, mode, sample_rate, chunk, upto - 1);
        let bins = bins_of(spectrum.len() as int, chunk);
        let rest = max_magnitude_below(spectrum, mode, sample_rate, chunk, upto - 1);
        let max = max_magnitude_below(spectrum, mode, sample_rate, chunk, upto);
        if max > 0 {
            if eligible(mode, sample_rate, chunk, bins, upto - 1) && spectrum[upto - 1] > rest {
                assert(spectrum[upto - 1] == max);
            } else {
                let b = choose|b: int|
                    0 <= b < upto - 1 && eligible(mode, sample_rate, chunk, bins, b)
                        && #[trigger] spectrum[b] == rest;
                assert(spectrum[b] == max);
            }
        }
    }
}

} // verus!
