//! Sample bookkeeping of the resampler: how many 16 kHz samples a
//! recording yields, and how much of each processed block is kept.

use vstd::prelude::*;

verus! {

/// `a * b`, or `usize::MAX` when that overflows.
pub open spec fn sat_mul(a: usize, b: usize) -> usize {
    if a * b > usize::MAX {
        usize::MAX
    } else {
        (a * b) as usize
    }
}

/// `a + b`, or `usize::MAX` when that overflows.
pub open spec fn sat_add(a: usize, b: usize) -> usize {
    if a + b > usize::MAX {
        usize::MAX
    } else {
        (a + b) as usize
    }
}

/// Number of 16 kHz samples to emit for `input_frames` samples at
/// `input_rate` Hz: the product rounded up, with saturating arithmetic.
pub fn output_target(input_frames: usize, input_rate: usize) -> (target: usize)
    requires
        input_rate > 0,
    ensures
        target == sat_add(sat_mul(input_frames, 16000), (input_rate - 1) as usize) / input_rate,
        input_frames * 16000 + input_rate - 1 <= usize::MAX ==> target == (input_frames * 16000
            + input_rate - 1) / (input_rate as int),
{
    let scaled: usize = match input_frames.checked_mul(16000) {
        Some(v) => v,
        None => usize::MAX,
    };
    let bumped: usize = scaled.saturating_add(input_rate - 1);
    bumped / input_rate
}

/// How much of one block of resampler output is used.
#[derive(Debug, Clone, Copy, PartialEq, Eq, Structural)]
pub struct BlockTake {
    /// Leading samples dropped to compensate the filter delay.
    pub skip: usize,
    /// Samples kept after those.
    pub take: usize,
}

/// For a block of `block_len` output samples: drop what remains of the
/// filter `delay`, then keep as many samples as are left, but no more than
/// still fit under `limit` given `emitted` samples so far.
pub fn block_take(block_len: usize, limit: usize, emitted: usize, delay: usize) -> (t: BlockTake)
    ensures
        t.skip == if delay < block_len { delay } else { block_len },
        t.take == if block_len - t.skip < limit - emitted {
            block_len - t.skip
        } else if limit >= emitted {
            (limit - emitted) as int
        } else {
            0
        },
        t.skip + t.take <= block_len,
        emitted <= limit ==> emitted + t.take <= limit,
{
    let skip: usize = if delay < block_len { delay } else { block_len };
    let room: usize = limit.saturating_sub(emitted);
    let avail: usize = block_len - skip;
    let take: usize = if avail < room { avail } else { room };
    BlockTake { skip, take }
}

} // verus!
