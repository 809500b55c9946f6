//! Partition of an image's scanlines into one contiguous block per worker.

use vstd::prelude::*;

verus! {

/// The half-open range of rows `[start, end)` that one worker renders.
#[derive(Clone, Copy, Debug, PartialEq, Eq, Structural)]
pub struct RowBlock {
    pub start: u32,
    pub end: u32,
}

/// Rows given to every block: the height divided evenly, rounded down.
pub open spec fn rows_per_block(height: nat, workers: nat) -> nat {
    height / workers
}

/// First row of block `i`.
pub open spec fn block_start(height: nat, workers: nat, i: nat) -> nat {
    i * rows_per_block(height, workers)
}

/// One past the last row of block `i`; the last block also takes the
/// rows left over by the division.
pub open spec fn block_end(height: nat, workers: nat, i: nat) -> nat {
    if i + 1 == workers {
        height
    } else {
        (i + 1) * rows_per_block(height, workers)
    }
}

/// The blocks of a render of `height` rows over `workers` workers.
pub open spec fn schedule(height: nat, workers: nat) -> Seq<RowBlock> {
    Seq::new(
        workers,
        |i: int|
            RowBlock {
                start: block_start(height, workers, i as nat) as u32,
                end: block_end(height, workers, i as nat) as u32,
            },
    )
}

/// Whether `row` lies in `block`.
pub open spec fn block_holds(block: RowBlock, row: int) -> bool {
    block.start <= row < block.end
}

proof fn lemma_block_bounds(height: nat, workers: nat, i: nat)
    requires
        workers > 0,
        i < workers,
    ensures
        block_start(height, workers, i) <= block_end(height, workers, i) <= height,
        i + 1 < workers ==> block_end(height, workers, i) == block_start(height, workers, i + 1),
{
    let q = rows_per_block(height, workers);
    assert(q * workers <= height) by (nonlinear_arith)
        requires
            q == height / workers,
            workers > 0,
    ;
    assert(i * q <= (i + 1) * q) by (nonlinear_arith);
    assert((i + 1) * q <= workers * q) by (nonlinear_arith)
        requires
            i + 1 <= workers,
    ;
}

/// Splits `height` rows into `workers` contiguous blocks of
/// `height / workers` rows each, the last block taking the remainder.
pub fn row_blocks(height: u32, workers: u32) -> (r: Vec<RowBlock>)
    requires
        workers > 0,
    ensures
        r@ == schedule(height as nat, workers as nat),
{
    let per: u32 = height / workers;
    let mut blocks: Vec<RowBlock> = Vec::new();
    let mut i: u32 = 0;
    while i < workers
        invariant
            workers > 0,
            per == rows_per_block(height as nat, workers as nat),
            i <= workers,
            blocks@ =~= schedule(height as nat, workers as nat).take(i as int),
        decreases workers - i,
    {
        proof {
            lemma_block_bounds(height as nat, workers as nat, i as nat);
        }
        let start: u32 = i * per;
        let end: u32 = if i + 1 == workers {
            height
        } else {
            (i + 1) * per
        };
        blocks.push(RowBlock { start, end });
        i = i + 1;
    }
    blocks
}

/// Every row of the image is rendered by exactly one worker, whatever the
/// number of workers, and no worker renders a row outside the image.
pub proof fn lemma_rows_exactly_once(height: nat, workers: nat, row: int)
    requires
        workers > 0,
        height <= u32::MAX,
    ensures
        0 <= row < height ==> exists|i: int|
            0 <= i < workers && #[trigger] block_holds(schedule(height, workers)[i], row),
        forall|i: int, j: int|
            0 <= i < workers && 0 <= j < workers && #[trigger] block_holds(
                schedule(height, workers)[i],
                row,
            ) && #[trigger] block_holds(schedule(height, workers)[j], row) ==> i == j,
        !(0 <= row < height) ==> forall|i: int|
            0 <= i < workers ==> !#[trigger] block_holds(schedule(height, workers)[i], row),
{
    let s = schedule(height, workers);
    let q = rows_per_block(height, workers);
    assert forall|i: int| 0 <= i < workers implies s[i].start == block_start(height, workers, i as nat)
        && s[i].end == block_end(height, workers, i as nat) && s[i].end <= height by {
        lemma_block_bounds(height, workers, i as nat);
    }
    assert forall|i: int, j: int| 0 <= i < j < workers implies s[i].end <= s[j].start by {
        lemma_block_bounds(height, workers, i as nat);
        assert((i + 1) * q <= j * q) by (nonlinear_arith)
            requires
                i + 1 <= j,
        ;
    }
    if 0 <= row < height {
        let i: int = if q == 0 || row / (q as int) >= workers {
            workers - 1
        } else {
            row / (q as int)
        };
        lemma_block_bounds(height, workers, i as nat);
        if q == 0 {
            assert(i * q == 0) by (nonlinear_arith)
                requires
                    q == 0,
            ;
        } else if row / (q as int) >= workers {
            assert(i * q <= row) by (nonlinear_arith)
                requires
                    q > 0,
                    row >= 0,
                    row / (q as int) >= workers,
                    i == workers - 1,
            ;
        } else {
            assert(i * q <= row && (i + 1 < workers ==> row < (i + 1) * q)) by (nonlinear_arith)
                requires
                    q > 0,
                    row >= 0,
                    i == row / (q as int),
            ;
        }
        assert(block_holds(s[i], row));
    }
}

} // verus!
