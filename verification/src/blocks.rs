//! Block-range rules of the REST API: the bounds of a block request, the
//! epoch of a block height, and the windows in which the ledger is scanned.
use vstd::prelude::*;

verus! {

/// The most blocks one request may ask for.
pub const MAX_BLOCK_RANGE: u32 = 50;

/// Why a range of blocks cannot be requested.
#[derive(Debug, PartialEq, Eq, Clone, Copy, Structural)]
pub enum BlockRangeError {
    /// The start height is not below the end height.
    StartNotBeforeEnd,
    /// The range holds more than `MAX_BLOCK_RANGE` blocks.
    TooManyBlocks,
}

/// The verdict on requesting the blocks `start_height..end_height`.
pub open spec fn block_range_verdict(start_height: u32, end_height: u32) -> Result<(), BlockRangeError> {
    if start_height >= end_height {
        Err(BlockRangeError::StartNotBeforeEnd)
    } else if end_height - start_height > MAX_BLOCK_RANGE {
        Err(BlockRangeError::TooManyBlocks)
    } else {
        Ok(())
    }
}

/// Ensure the start height is less than the end height and the range is
/// less than or equal to `MAX_BLOCK_RANGE` blocks.
pub fn check_block_range(start_height: u32, end_height: u32) -> (r: Result<(), BlockRangeError>)
    ensures
        r == block_range_verdict(start_height, end_height),
{
    if start_height >= end_height {
        Err(BlockRangeError::StartNotBeforeEnd)
    } else if end_height - start_height > MAX_BLOCK_RANGE {
        Err(BlockRangeError::TooManyBlocks)
    } else {
        Ok(())
    }
}

/// The epoch of a block height, and the height of the block whose hash
/// identifies the epoch: the last block before the epoch starts, or `None`
/// in the first epoch, whose hash is the default one.
#[derive(Debug, PartialEq, Eq, Clone, Copy, Structural)]
pub struct EpochPlan {
    pub epoch_number: u32,
    pub hash_height: Option<u32>,
}

/// The first height of the epoch of `block_height`.
pub open spec fn epoch_start(block_height: u32, blocks_per_epoch: u32) -> int {
    (block_height / blocks_per_epoch) * blocks_per_epoch
}

/// The epoch of `block_height` when each epoch has `blocks_per_epoch`
/// blocks.
pub open spec fn epoch_plan_of(block_height: u32, blocks_per_epoch: u32) -> EpochPlan {
    let start = epoch_start(block_height, blocks_per_epoch);
    EpochPlan {
        epoch_number: (block_height / blocks_per_epoch) as u32,
        hash_height: if start == 0 {
            None
        } else {
            Some((start - 1) as u32)
        },
    }
}

/// The epoch starts at or below the height, and the next epoch starts above
/// it.
pub proof fn lemma_epoch_start_bounds(block_height: u32, blocks_per_epoch: u32)
    requires
        blocks_per_epoch > 0,
    ensures
        0 <= epoch_start(block_height, blocks_per_epoch) <= block_height,
        block_height < epoch_start(block_height, blocks_per_epoch) + blocks_per_epoch,
        epoch_start(block_height, blocks_per_epoch) % (blocks_per_epoch as int) == 0,
{
    let h = block_height as int;
    let b = blocks_per_epoch as int;
    assert(h == (h / b) * b + h % b) by (nonlinear_arith)
        requires
            b > 0,
    ;
    assert(0 <= h % b < b) by (nonlinear_arith)
        requires
            b > 0,
    ;
    assert(0 <= h / b) by (nonlinear_arith)
        requires
            b > 0,
            h >= 0,
    ;
    assert(((h / b) * b) % b == 0) by (nonlinear_arith)
        requires
            b > 0,
    ;
    assert(0 <= (h / b) * b) by (nonlinear_arith)
        requires
            b > 0,
            h / b >= 0,
    ;
}

/// A range of blocks may be requested exactly when it is not empty and
/// holds at most `MAX_BLOCK_RANGE` blocks; an empty or reversed range is
/// refused for its bounds before its size.
pub proof fn lemma_block_range_rule(start_height: u32, end_height: u32)
    ensures
        block_range_verdict(start_height, end_height) is Ok <==> start_height < end_height
            <= start_height + 50,
        start_height >= end_height ==> block_range_verdict(start_height, end_height) == Err::<
            (),
            BlockRangeError,
        >(BlockRangeError::StartNotBeforeEnd),
        start_height + 50 < end_height ==> block_range_verdict(start_height, end_height)
            == Err::<(), BlockRangeError>(BlockRangeError::TooManyBlocks),
{
}

/// The epoch of a height is the number of whole epochs below it; the block
/// whose hash identifies it is the last one before the epoch starts, and
/// there is none in the first epoch.
pub proof fn lemma_epoch_plan(block_height: u32, blocks_per_epoch: u32)
    requires
        blocks_per_epoch > 0,
    ensures
        ({
            let p = epoch_plan_of(block_height, blocks_per_epoch);
            &&& p.epoch_number * blocks_per_epoch <= block_height
            &&& block_height < (p.epoch_number + 1) * blocks_per_epoch
            &&& p.hash_height is None <==> p.epoch_number == 0
            &&& p.epoch_number > 0 ==> p.hash_height == Some(
                (p.epoch_number * blocks_per_epoch - 1) as u32,
            )
        }),
{
    lemma_epoch_start_bounds(block_height, blocks_per_epoch);
    let q = block_height / blocks_per_epoch;
    assert(q * blocks_per_epoch == 0 ==> q == 0) by (nonlinear_arith)
        requires
            blocks_per_epoch > 0,
    ;
    assert((q + 1) * blocks_per_epoch == q * blocks_per_epoch + blocks_per_epoch) by (nonlinear_arith);
    assert(q > 0 ==> q * blocks_per_epoch > 0) by (nonlinear_arith)
        requires
            blocks_per_epoch > 0,
    ;
}

/// Compute the epoch number of a block height and which block's hash
/// identifies the epoch.
pub fn epoch_plan(block_height: u32, blocks_per_epoch: u32) -> (r: EpochPlan)
    requires
        blocks_per_epoch > 0,
    ensures
        r == epoch_plan_of(block_height, blocks_per_epoch),
{
    proof {
        lemma_epoch_start_bounds(block_height, blocks_per_epoch);
    }
    let epoch_number = block_height / blocks_per_epoch;
    let epoch_starting_height = epoch_number * blocks_per_epoch;
    if epoch_starting_height == 0 {
        assert(epoch_number == 0) by (nonlinear_arith)
            requires
                epoch_number * blocks_per_epoch == 0,
                blocks_per_epoch > 0,
        ;
        return EpochPlan { epoch_number: 0, hash_height: None };
    }
    EpochPlan { epoch_number, hash_height: Some(epoch_starting_height - 1) }
}

/// The height at which a scan starts: the start of the requested range
/// rounded down to a multiple of `MAX_BLOCK_RANGE`.
pub open spec fn scan_start(start_height: u32) -> int {
    start_height - start_height % MAX_BLOCK_RANGE
}

/// The number of windows of a scan of `start_height..end_height`.
pub open spec fn scan_window_count(start_height: u32, end_height: u32) -> nat {
    if scan_start(start_height) >= end_height {
        0
    } else {
        ((end_height - scan_start(start_height) + MAX_BLOCK_RANGE - 1) / (MAX_BLOCK_RANGE as int)) as nat
    }
}

/// The windows of a scan: consecutive ranges of `MAX_BLOCK_RANGE` blocks
/// from `scan_start(start_height)`, the last one cut at `end_height`.
pub open spec fn scan_windows_of(start_height: u32, end_height: u32) -> Seq<(u32, u32)> {
    Seq::new(
        scan_window_count(start_height, end_height),
        |k: int|
            {
                let lo = scan_start(start_height) + k * MAX_BLOCK_RANGE;
                let hi = if lo + MAX_BLOCK_RANGE > end_height {
                    end_height as int
                } else {
                    lo + MAX_BLOCK_RANGE
                };
                (lo as u32, hi as u32)
            },
    )
}

/// The end of the requested range, rounded up past a multiple of
/// `MAX_BLOCK_RANGE`, fits in a `u32`.
pub open spec fn scan_end_fits(end_height: u32) -> bool {
    end_height + (MAX_BLOCK_RANGE - end_height % MAX_BLOCK_RANGE) <= u32::MAX
}

/// The ranges of blocks requested, in order, when scanning the ledger for
/// the heights `start_height..end_height`.
pub fn scan_windows(start_height: u32, end_height: u32) -> (r: Vec<(u32, u32)>)
    requires
        scan_end_fits(end_height),
    ensures
        r@ == scan_windows_of(start_height, end_height),
{
    let first = start_height - start_height % MAX_BLOCK_RANGE;
    let ghost spec_windows = scan_windows_of(start_height, end_height);
    let ghost count = scan_window_count(start_height, end_height);
    let mut windows: Vec<(u32, u32)> = Vec::new();
    let mut lo: u32 = first;
    proof {
        if first < end_height {
            assert(count * 50 >= end_height - first) by (nonlinear_arith)
                requires
                    count == (end_height - first + 49) / 50,
                    first < end_height,
            ;
        }
    }
    while lo < end_height
        invariant
            first == scan_start(start_height),
            first % 50 == 0,
            scan_end_fits(end_height),
            spec_windows == scan_windows_of(start_height, end_height),
            count == scan_window_count(start_height, end_height),
            lo == first + 50 * windows@.len(),
            lo < end_height ==> windows@.len() < count,
            windows@.len() <= count,
            windows@ == spec_windows.take(windows@.len() as int),
        decreases count - windows@.len(),
    {
        let hi = if lo + MAX_BLOCK_RANGE > end_height {
            end_height
        } else {
            lo + MAX_BLOCK_RANGE
        };
        let ghost k = windows@.len() as int;
        windows.push((lo, hi));
        assert(windows@ =~= spec_windows.take(k + 1));
        lo = lo + MAX_BLOCK_RANGE;
        proof {
            if lo < end_height {
                assert(windows@.len() < count) by (nonlinear_arith)
                    requires
                        lo == first + 50 * windows@.len(),
                        lo < end_height,
                        count == (end_height - first + 49) / 50,
                ;
            }
        }
    }
    proof {
        if first < end_height {
            assert(windows@.len() >= count) by (nonlinear_arith)
                requires
                    first + 50 * windows@.len() >= end_height,
                    count == (end_height - first + 49) / 50,
            ;
        }
    }
    assert(windows@ =~= spec_windows);
    windows
}

/// Whether a scan that has found `found` records stops: it stops once it
/// holds at least `max_records` records (no limit where `None`).
pub fn scan_limit_reached(found: usize, max_records: Option<usize>) -> (r: bool)
    ensures
        r == (match max_records {
            Some(m) => found >= m,
            None => found >= usize::MAX,
        }),
{
    found >= max_records.unwrap_or(usize::MAX)
}

/// A scan starts at the multiple of `MAX_BLOCK_RANGE` at or below the
/// requested start height, within `MAX_BLOCK_RANGE` blocks of it.
pub proof fn lemma_scan_start(start_height: u32)
    ensures
        scan_start(start_height) <= start_height < scan_start(start_height) + MAX_BLOCK_RANGE,
        scan_start(start_height) % (MAX_BLOCK_RANGE as int) == 0,
        scan_start(start_height) >= 0,
{
}

/// Every requested block lies in exactly one window of the scan.
pub proof fn lemma_scan_covers_request(start_height: u32, end_height: u32, b: int)
    requires
        scan_end_fits(end_height),
        start_height <= b < end_height,
    ensures
        ({
            let w = scan_windows_of(start_height, end_height);
            &&& exists|k: int| 0 <= k < w.len() && (#[trigger] w[k]).0 <= b < w[k].1
            &&& forall|k: int, j: int|
                0 <= k < w.len() && 0 <= j < w.len() && (#[trigger] w[k]).0 <= b < w[k].1
                    && (#[trigger] w[j]).0 <= b < w[j].1 ==> k == j
        }),
{
    let w = scan_windows_of(start_height, end_height);
    let first = scan_start(start_height);
    let count = scan_window_count(start_height, end_height);
    lemma_scan_start(start_height);
    let k = (b - first) / 50;
    assert(0 <= k && first + 50 * k <= b < first + 50 * k + 50) by (nonlinear_arith)
        requires
            k == (b - first) / 50,
            first <= b,
    ;
    assert(k < count) by (nonlinear_arith)
        requires
            count == (end_height - first + 49) / 50,
            first + 50 * k <= b,
            b < end_height,
            k >= 0,
    ;
    assert(w[k].0 <= b < w[k].1);
    assert forall|a: int, c: int|
        0 <= a < w.len() && 0 <= c < w.len() && (#[trigger] w[a]).0 <= b < w[a].1
            && (#[trigger] w[c]).0 <= b < w[c].1 implies a == c by {
        assert(w[a].0 == first + 50 * a);
        assert(w[c].0 == first + 50 * c);
        assert(w[a].1 <= first + 50 * a + 50);
        assert(w[c].1 <= first + 50 * c + 50);
        assert(a == c) by (nonlinear_arith)
            requires
                first + 50 * a <= b < first + 50 * a + 50,
                first + 50 * c <= b < first + 50 * c + 50,
        ;
    }
}

/// Every window of a scan is a block range that may be requested, the
/// windows follow one another without gap or overlap from
/// `scan_start(start_height)`, and the last one ends at `end_height`.
pub proof fn lemma_scan_windows_are_requestable(start_height: u32, end_height: u32)
    requires
        scan_end_fits(end_height),
    ensures
        ({
            let w = scan_windows_of(start_height, end_height);
            &&& forall|k: int| 0 <= k < w.len() ==> block_range_verdict((#[trigger] w[k]).0, w[k].1) == Ok::<(), BlockRangeError>(())
            &&& forall|k: int| 0 <= k < w.len() - 1 ==> (#[trigger] w[k]).1 == w[k + 1].0
            &&& w.len() > 0 ==> w[0].0 == scan_start(start_height) && w[w.len() - 1].1 == end_height
            &&& w.len() == 0 <==> scan_start(start_height) >= end_height
        }),
{
    let w = scan_windows_of(start_height, end_height);
    let first = scan_start(start_height);
    let count = scan_window_count(start_height, end_height);
    if first < end_height {
        assert(count * 50 >= end_height - first && (count - 1) * 50 < end_height - first) by (nonlinear_arith)
            requires
                count == (end_height - first + 49) / 50,
                first < end_height,
        ;
        assert forall|k: int| 0 <= k < w.len() implies block_range_verdict((#[trigger] w[k]).0, w[k].1) == Ok::<(), BlockRangeError>(()) by {
            assert(k * 50 <= (count - 1) * 50) by (nonlinear_arith)
                requires
                    k <= count - 1,
            ;
        }
        assert forall|k: int| 0 <= k < w.len() - 1 implies (#[trigger] w[k]).1 == w[k + 1].0 by {
            assert(k * 50 + 50 <= (count - 1) * 50) by (nonlinear_arith)
                requires
                    k + 1 <= count - 1,
            ;
        }
    }
}

} // verus!
