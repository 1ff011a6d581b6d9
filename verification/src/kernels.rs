//! The kernels that come with the library.
//!
//! Their weights are whole numbers of ten-thousandths: the weight of a cell
//! that holds `n` is `n / UNIT`.

use vstd::prelude::*;

use crate::filter::Kernel;
use crate::filter::KernelView;

verus! {

/// How many units of a preset kernel make the weight 1.
pub const UNIT: i32 = 10000;

/// The sum of the weights.
pub open spec fn total(weights: Seq<i32>) -> int
    decreases weights.len(),
{
    if weights.len() == 0 {
        0
    } else {
        total(weights.drop_last()) + weights.last()
    }
}

/// Whole numbers as weights.
pub open spec fn units(weights: Seq<int>) -> Seq<i32> {
    weights.map_values(|n: int| n as i32)
}

/// A Gaussian blur, 5 x 5, of standard deviation about 1.
pub open spec fn gaussian() -> KernelView<i32> {
    KernelView {
        weights: units(seq![
            37, 147, 256, 147, 37,
            147, 586, 952, 586, 147,
            256, 952, 1502, 952, 256,
            147, 586, 952, 586, 147,
            37, 147, 256, 147, 37,
        ]),
        size: 5,
    }
}

/// An outline detector, 3 x 3: 8 at the centre, -1 all around it.
pub open spec fn outline() -> KernelView<i32> {
    KernelView {
        weights: units(seq![
            -10000, -10000, -10000,
            -10000, 80000, -10000,
            -10000, -10000, -10000,
        ]),
        size: 3,
    }
}

/// A Sobel edge detector, 3 x 3: the column to the right less the column to
/// the left, the middle row counted twice.
pub open spec fn right_sobel() -> KernelView<i32> {
    KernelView {
        weights: units(seq![
            -10000, 0, 10000,
            -20000, 0, 20000,
            -10000, 0, 10000,
        ]),
        size: 3,
    }
}

/// A Sobel edge detector, 3 x 3: the row below less the row above, the middle
/// column counted twice.
pub open spec fn bottom_sobel() -> KernelView<i32> {
    KernelView {
        weights: units(seq![
            -10000, -20000, -10000,
            0, 0, 0,
            10000, 20000, 10000,
        ]),
        size: 3,
    }
}

/// A sharpening kernel, 3 x 3: one weight at the centre, one on its four
/// sides, one in the corners.
pub open spec fn sharpening<W>(centre: W, side: W, corner: W) -> KernelView<W> {
    KernelView {
        weights: seq![corner, side, corner, side, centre, side, corner, side, corner],
        size: 3,
    }
}

/// The Gaussian blur, 5 x 5. Its weights sum to a little more than 1.
pub fn get_gaussian_kernel() -> (k: Kernel<i32>)
    ensures
        k@ == gaussian(),
        k@.wf(),
        total(k@.weights) == 10002,
{
    let val: Vec<i32> = vec![
        37, 147, 256, 147, 37,
        147, 586, 952, 586, 147,
        256, 952, 1502, 952, 256,
        147, 586, 952, 586, 147,
        37, 147, 256, 147, 37,
    ];
    proof {
        assert(val@ =~= gaussian().weights);
        lemma_total_of_25(val@);
    }
    Kernel { val, size: 5 }
}

/// The outline detector, 3 x 3: 8 at the centre, -1 all around it. Its
/// weights sum to 0.
pub fn get_outline_kernel() -> (k: Kernel<i32>)
    ensures
        k@ == outline(),
        k@.wf(),
        total(k@.weights) == 0,
{
    let val: Vec<i32> = vec![
        -10000, -10000, -10000,
        -10000, 80000, -10000,
        -10000, -10000, -10000,
    ];
    proof {
        assert(val@ =~= outline().weights);
        lemma_total_of_9(val@);
    }
    Kernel { val, size: 3 }
}

/// The Sobel detector of edges that rise to the right, 3 x 3. Its weights sum
/// to 0.
pub fn get_right_sobel_kernel() -> (k: Kernel<i32>)
    ensures
        k@ == right_sobel(),
        k@.wf(),
        total(k@.weights) == 0,
{
    let val: Vec<i32> = vec![
        -10000, 0, 10000,
        -20000, 0, 20000,
        -10000, 0, 10000,
    ];
    proof {
        assert(val@ =~= right_sobel().weights);
        lemma_total_of_9(val@);
    }
    Kernel { val, size: 3 }
}

/// The Sobel detector of edges that rise to the bottom, 3 x 3. Its weights
/// sum to 0.
pub fn get_bottom_sobel_kernel() -> (k: Kernel<i32>)
    ensures
        k@ == bottom_sobel(),
        k@.wf(),
        total(k@.weights) == 0,
{
    let val: Vec<i32> = vec![
        -10000, -20000, -10000,
        0, 0, 0,
        10000, 20000, 10000,
    ];
    proof {
        assert(val@ =~= bottom_sobel().weights);
        lemma_total_of_9(val@);
    }
    Kernel { val, size: 3 }
}

/// Lays out a sharpening kernel, 3 x 3, from its three weights. For the
/// strength `s` they are `1 + s` at the centre, `-s / 4` on the four sides
/// and 0 in the corners, in the caller's arithmetic.
pub fn get_sharpening_kernel<W: Copy>(centre: W, side: W, corner: W) -> (k: Kernel<W>)
    ensures
        k@ == sharpening(centre, side, corner),
        k@.wf(),
{
    let val: Vec<W> = vec![corner, side, corner, side, centre, side, corner, side, corner];
    proof {
        assert(val@ =~= sharpening(centre, side, corner).weights);
    }
    Kernel { val, size: 3 }
}

/// The sum of nine weights.
proof fn lemma_total_of_9(w: Seq<i32>)
    requires
        w.len() == 9,
    ensures
        total(w) == w[0] + w[1] + w[2] + w[3] + w[4] + w[5] + w[6] + w[7] + w[8],
{
    lemma_total_of_prefix(w, 9);
    assert(w.take(9) =~= w);
    reveal_with_fuel(prefix_sum, 10);
}

/// The sum of twenty-five weights, row by row.
proof fn lemma_total_of_25(w: Seq<i32>)
    requires
        w.len() == 25,
    ensures
        total(w) == (w[0] + w[1] + w[2] + w[3] + w[4]) + (w[5] + w[6] + w[7] + w[8] + w[9]) + (w[10]
            + w[11] + w[12] + w[13] + w[14]) + (w[15] + w[16] + w[17] + w[18] + w[19]) + (w[20]
            + w[21] + w[22] + w[23] + w[24]),
{
    lemma_total_of_prefix(w, 25);
    assert(w.take(25) =~= w);
    reveal_with_fuel(prefix_sum, 26);
}

/// The sum of the first `n` weights, counted from the front.
spec fn prefix_sum(w: Seq<i32>, n: nat) -> int
    decreases n,
{
    if n == 0 {
        0
    } else {
        prefix_sum(w, (n - 1) as nat) + w[n - 1]
    }
}

/// The total of a prefix is the sum of its weights counted from the front.
proof fn lemma_total_of_prefix(w: Seq<i32>, n: nat)
    requires
        n <= w.len(),
    ensures
        total(w.take(n as int)) == prefix_sum(w, n),
    decreases n,
{
    if n > 0 {
        lemma_total_of_prefix(w, (n - 1) as nat);
        assert(w.take(n as int).drop_last() =~= w.take(n - 1));
    }
}

} // verus!
