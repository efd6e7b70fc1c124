//! Slicing a sample buffer into consecutive frames of an eighth of a second.
//!
//! A buffer of `n` samples taken at `r` samples per second is cut into frames
//! of `r / 8` samples each. Frames follow one another without gap or overlap,
//! and samples after the last whole frame belong to no frame. A rate that
//! leaves fewer than two samples per frame gives no frames at all.

use vstd::prelude::*;

verus! {

/// Frames per second of audio.
pub const FRAMES_PER_SECOND: u32 = 8;

/// The shortest frame that can be transformed.
pub const MIN_CHUNK: usize = 2;

/// Milliseconds that one frame lasts.
pub const FRAME_MILLIS: u16 = 125;

/// Samples in one frame at `sample_rate` samples per second.
pub open spec fn chunk_size_of(sample_rate: u32) -> int {
    sample_rate as int / 8
}

/// Whole frames in a buffer of `sample_count` samples.
pub open spec fn frame_count_of(sample_count: int, sample_rate: u32) -> int {
    if chunk_size_of(sample_rate) < 2 {
        0
    } else {
        sample_count / chunk_size_of(sample_rate)
    }
}

/// The index of the first sample of frame `index`.
pub open spec fn frame_start_of(sample_rate: u32, index: int) -> int {
    index * chunk_size_of(sample_rate)
}

/// The index after the last sample of frame `index`.
pub open spec fn frame_end_of(sample_rate: u32, index: int) -> int {
    frame_start_of(sample_rate, index) + chunk_size_of(sample_rate)
}

/// Samples in one frame at `sample_rate` samples per second.
pub fn chunk_size(sample_rate: u32) -> (chunk: usize)
    ensures
        chunk as int == chunk_size_of(sample_rate),
        chunk as int == sample_rate as int / 8,
{
    (sample_rate / FRAMES_PER_SECOND) as usize
}

/// Whole frames in a buffer of `sample_count` samples: the buffer's length
/// divided by the frame's, rounded down, and none where a frame would hold
/// fewer than two samples.
pub fn frame_count(sample_count: usize, sample_rate: u32) -> (frames: usize)
    ensures
        frames as int == frame_count_of(sample_count as int, sample_rate),
        sample_rate == 0 ==> frames == 0,
        chunk_size_of(sample_rate) < 2 ==> frames == 0,
        chunk_size_of(sample_rate) >= 2 ==> frames as int == sample_count as int / chunk_size_of(
            sample_rate,
        ),
{
    let chunk: usize = chunk_size(sample_rate);
    if chunk < MIN_CHUNK {
        0
    } else {
        sample_count / chunk
    }
}

/// Where frame `index` lies in the buffer, as the index of its first sample
/// and the index after its last. `None` exactly when the buffer has no such
/// frame.
pub fn frame_range(sample_count: usize, sample_rate: u32, index: usize) -> (range: Option<
    (usize, usize),
>)
    ensures
        range.is_some() <==> (index as int) < frame_count_of(sample_count as int, sample_rate),
        range matches Some((start, end)) ==> {
            &&& start as int == frame_start_of(sample_rate, index as int)
            &&& end as int == frame_end_of(sample_rate, index as int)
            &&& end as int == start as int + chunk_size_of(sample_rate)
            &&& end <= sample_count
        },
{
    let chunk: usize = chunk_size(sample_rate);
    let frames: usize = frame_count(sample_count, sample_rate);
    if index >= frames {
        return None;
    }
    proof {
        lemma_frame_fits(sample_count as int, sample_rate, index as int);
    }
    let start: usize = index * chunk;
    let end: usize = start + chunk;
    Some((start, end))
}

/// The time at which frame `index` starts, as whole seconds and the
/// milliseconds past them: the frame's index times an eighth of a second.
pub fn frame_time(index: usize) -> (time: (usize, u16))
    ensures
        time.0 as int == index as int / 8,
        time.1 as int == (index as int % 8) * 125,
        time.0 as int * 1000 + time.1 as int == index as int * 125,
        time.1 < 1000,
{
    let seconds: usize = index / 8;
    let eighths: usize = index % 8;
    let millis: u16 = (eighths as u16) * FRAME_MILLIS;
    (seconds, millis)
}

/// Every frame of the buffer lies inside it.
pub proof fn lemma_frame_fits(sample_count: int, sample_rate: u32, index: int)
    requires
        0 <= sample_count,
        0 <= index < frame_count_of(sample_count, sample_rate),
    ensures
        chunk_size_of(sample_rate) >= 2,
        0 <= frame_start_of(sample_rate, index) < frame_end_of(sample_rate, index) <= sample_count,
{
    let chunk = chunk_size_of(sample_rate);
    let frames = sample_count / chunk;
    assert(frames * chunk <= sample_count) by (nonlinear_arith)
        requires
            chunk > 0,
            sample_count >= 0,
            frames == sample_count / chunk,
    ;
    assert(0 <= index * chunk && index * chunk + chunk <= frames * chunk) by (nonlinear_arith)
        requires
            0 <= index < frames,
            chunk > 0,
    ;
}

/// The frames tile the buffer from its start: the first frame starts at the
/// first sample, each later frame starts where the one before it ends, and
/// what is left after the last frame is shorter than a frame.
pub proof fn lemma_frames_tile(sample_count: int, sample_rate: u32)
    requires
        0 <= sample_count,
        chunk_size_of(sample_rate) >= 2,
    ensures
        frame_start_of(sample_rate, 0) == 0,
        forall|index: int| #[trigger]
            frame_end_of(sample_rate, index) == frame_start_of(sample_rate, index + 1),
        0 <= frame_start_of(sample_rate, frame_count_of(sample_count, sample_rate)) <= sample_count,
        sample_count - frame_start_of(sample_rate, frame_count_of(sample_count, sample_rate))
            < chunk_size_of(sample_rate),
{
    let chunk = chunk_size_of(sample_rate);
    let frames = sample_count / chunk;
    assert(0 <= frames * chunk <= sample_count && sample_count - frames * chunk < chunk)
        by (nonlinear_arith)
        requires
            chunk > 0,
            sample_count >= 0,
            frames == sample_count / chunk,
    ;
    assert forall|index: int| #[trigger]
        frame_end_of(sample_rate, index) == frame_start_of(sample_rate, index + 1) by {
        assert(index * chunk + chunk == (index + 1) * chunk) by (nonlinear_arith);
    }
}

} // verus!
