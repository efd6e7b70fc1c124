//! Which bins of a frame's spectrum may become peaks, and how many of them.
//!
//! Bin `b` of a frame of `chunk` samples taken at `rate` samples per second
//! stands for the frequency `b * rate / chunk` hertz. Frequencies are kept as
//! exact fractions, so that the limits of the audible band are tested without
//! rounding.

use vstd::prelude::*;

verus! {

/// The lowest frequency, in hertz, that the banded mode lets through.
pub const MIN_FREQUENCY: u128 = 20;

/// The highest frequency, in hertz, that the banded mode lets through.
pub const MAX_FREQUENCY: u128 = 20_000;

/// The fewest peaks per frame that the banded mode asks for.
pub const MIN_CHANNELS: u8 = 1;

/// The most peaks per frame that the banded mode asks for.
pub const MAX_CHANNELS: u8 = 16;

/// The two ways of choosing peaks.
#[derive(Clone, Copy, Debug, PartialEq, Eq, Structural)]
pub enum Mode {
    /// Only bins inside the audible band count, the number of peaks is held
    /// between one and sixteen, and each peak carries an amplitude.
    Banded,
    /// Every bin but the first counts, the number of peaks is the number
    /// asked for, and peaks carry no amplitude.
    Unbanded,
}

/// A frequency in hertz as the fraction `numerator / denominator`.
#[derive(Clone, Copy, Debug, PartialEq, Eq, Structural)]
pub struct Frequency {
    pub numerator: u128,
    pub denominator: u128,
}

impl Frequency {
    /// Whether this frequency lies strictly below `other`, both fractions
    /// having a positive denominator.
    pub open spec fn below(self, other: Frequency) -> bool {
        (self.numerator as int) * (other.denominator as int) < (other.numerator as int) * (
            self.denominator as int)
    }
}

/// The most peaks that a frame may carry when `requested` were asked for.
pub open spec fn channel_limit_of(mode: Mode, requested: u8) -> int {
    match mode {
        Mode::Banded => if requested < 1 {
            1
        } else if requested > 16 {
            16
        } else {
            requested as int
        },
        Mode::Unbanded => requested as int,
    }
}

/// Whether the frequency of bin `bin` lies inside the audible band, limits
/// included.
pub open spec fn in_band(sample_rate: u32, chunk: int, bin: int) -> bool {
    20 * chunk <= bin * sample_rate as int <= 20_000 * chunk
}

/// Whether bin `bin` may become a peak, where the spectrum offers the bins
/// below `bins`: the first bin never may, and in the banded mode only bins
/// inside the audible band.
pub open spec fn eligible(mode: Mode, sample_rate: u32, chunk: int, bins: int, bin: int) -> bool {
    &&& 1 <= bin < bins
    &&& mode == Mode::Banded ==> in_band(sample_rate, chunk, bin)
}

/// How many of the bins below `upto` may become peaks.
pub open spec fn eligible_count(
    mode: Mode,
    sample_rate: u32,
    chunk: int,
    bins: int,
    upto: int,
) -> nat
    decreases upto,
{
    if upto <= 0 {
        0
    } else {
        eligible_count(mode, sample_rate, chunk, bins, upto - 1) + if eligible(
            mode,
            sample_rate,
            chunk,
            bins,
            upto - 1,
        ) {
            1nat
        } else {
            0nat
        }
    }
}

/// The frequency of bin `bin`.
pub open spec fn frequency_of(sample_rate: u32, chunk: int, bin: int) -> Frequency {
    Frequency { numerator: (bin * sample_rate as int) as u128, denominator: chunk as u128 }
}

/// The most peaks that a frame may carry when `requested` were asked for.
pub fn channel_limit(mode: Mode, requested: u8) -> (limit: usize)
    ensures
        limit as int == channel_limit_of(mode, requested),
        mode == Mode::Banded ==> 1 <= limit <= 16,
        mode == Mode::Unbanded ==> limit == requested,
{
    match mode {
        Mode::Banded => {
            if requested < MIN_CHANNELS {
                MIN_CHANNELS as usize
            } else if requested > MAX_CHANNELS {
                MAX_CHANNELS as usize
            } else {
                requested as usize
            }
        },
        Mode::Unbanded => requested as usize,
    }
}

/// Whether bin `bin` of a spectrum of `bins` bins may become a peak.
pub fn is_eligible(mode: Mode, sample_rate: u32, chunk: usize, bins: usize, bin: usize) -> (yes:
    bool)
    ensures
        yes == eligible(mode, sample_rate, chunk as int, bins as int, bin as int),
{
    if bin < 1 || bin >= bins {
        return false;
    }
    match mode {
        Mode::Unbanded => true,
        Mode::Banded => {
            proof {
                lemma_product_fits(bin as int, sample_rate as int);
            }
            let scaled: u128 = (bin as u128) * (sample_rate as u128);
            let width: u128 = chunk as u128;
            assert(width <= 0xffff_ffff_ffff_ffff);
            MIN_FREQUENCY * width <= scaled && scaled <= MAX_FREQUENCY * width
        },
    }
}

/// The frequency of bin `bin`, as an exact fraction.
pub fn frequency(sample_rate: u32, chunk: usize, bin: usize) -> (frequency: Frequency)
    ensures
        frequency == frequency_of(sample_rate, chunk as int, bin as int),
        frequency.numerator as int == bin as int * sample_rate as int,
        frequency.denominator as int == chunk as int,
{
    proof {
        lemma_product_fits(bin as int, sample_rate as int);
    }
    Frequency { numerator: (bin as u128) * (sample_rate as u128), denominator: chunk as u128 }
}

/// A bin index times a sample rate fits in ninety-six bits.
proof fn lemma_product_fits(bin: int, rate: int)
    requires
        0 <= bin <= 0xffff_ffff_ffff_ffff,
        0 <= rate <= 0xffff_ffff,
    ensures
        0 <= bin * rate <= 0xffff_ffff_ffff_ffff * 0xffff_ffff,
        bin * rate <= u128::MAX,
{
    assert(0 <= bin * rate <= 0xffff_ffff_ffff_ffff * 0xffff_ffff) by (nonlinear_arith)
        requires
            0 <= bin <= 0xffff_ffff_ffff_ffff,
            0 <= rate <= 0xffff_ffff,
    ;
}

/// At a positive rate and with a positive frame length, a higher bin stands
/// for a strictly higher frequency.
pub proof fn lemma_frequency_ascends(sample_rate: u32, chunk: int, low: int, high: int)
    requires
        sample_rate > 0,
        0 < chunk <= usize::MAX,
        0 <= low < high <= usize::MAX,
    ensures
        frequency_of(sample_rate, chunk, low).below(frequency_of(sample_rate, chunk, high)),
{
    let rate = sample_rate as int;
    lemma_product_fits(low, rate);
    lemma_product_fits(high, rate);
    assert(low * rate < high * rate) by (nonlinear_arith)
        requires
            0 <= low < high,
            0 < rate,
    ;
    assert((low * rate) * chunk < (high * rate) * chunk) by (nonlinear_arith)
        requires
            low * rate < high * rate,
            chunk > 0,
    ;
}

/// An eligible bin below `upto` is counted: the count is then at least one,
/// and it never exceeds the number of bins counted over.
pub proof fn lemma_eligible_counted(
    mode: Mode,
    sample_rate: u32,
    chunk: int,
    bins: int,
    upto: int,
    bin: int,
)
    requires
        0 <= bin < upto,
        eligible(mode, sample_rate, chunk, bins, bin),
    ensures
        1 <= eligible_count(mode, sample_rate, chunk, bins, upto) <= upto,
    decreases upto,
{
    lemma_eligible_count_bounded(mode, sample_rate, chunk, bins, upto);
    if bin < upto - 1 {
        lemma_eligible_counted(mode, sample_rate, chunk, bins, upto - 1, bin);
    }
}

/// No more bins are eligible below `upto` than there are bins other than the
/// first.
pub proof fn lemma_eligible_count_bounded(
    mode: Mode,
    sample_rate: u32,
    chunk: int,
    bins: int,
    upto: int,
)
    ensures
        upto <= 0 ==> eligible_count(mode, sample_rate, chunk, bins, upto) == 0,
        upto >= 1 ==> eligible_count(mode, sample_rate, chunk, bins, upto) <= upto - 1,
    decreases upto,
{
    if upto > 0 {
        lemma_eligible_count_bounded(mode, sample_rate, chunk, bins, upto - 1);
    }
}

/// In the unbanded mode every bin but the first is eligible.
pub proof fn lemma_unbanded_count(sample_rate: u32, chunk: int, bins: int, upto: int)
    requires
        1 <= upto <= bins,
    ensures
        eligible_count(Mode::Unbanded, sample_rate, chunk, bins, upto) == upto - 1,
    decreases upto,
{
    if upto > 1 {
        lemma_unbanded_count(sample_rate, chunk, bins, upto - 1);
    } else {
        assert(eligible_count(Mode::Unbanded, sample_rate, chunk, bins, 0) == 0);
    }
}

} // verus!
