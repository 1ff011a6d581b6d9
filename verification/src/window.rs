//! Where a kernel reads: the cells of a kernel laid on a pixel, and the
//! pixels under them.
//!
//! The kernel is anchored at its centre. Pixels and cells are numbered row by
//! row. A cell that comes to lie outside the image is skipped: it is not
//! clamped to the edge, not wrapped around, and not read as zero.

use vstd::prelude::*;

use crate::image::lemma_pixel_in_buffer;
use crate::image::lemma_pixel_index;
use crate::image::Image;

verus! {

/// Row and column of the centre cell of a kernel of side `size`.
pub open spec fn anchor(size: int) -> int {
    size / 2
}

/// The pixel that cell `j` of a kernel of side `size` reads when the kernel's
/// centre lies on pixel `i` of an image `width` wide and `height` high, or
/// `None` when the cell lies outside the image.
///
/// Pixel `i` is at column `i % width`, row `i / width`; cell `j` is at column
/// `j % size`, row `j / size`, and is displaced from the centre by as much.
pub open spec fn sample_pixel(width: int, height: int, size: int, i: int, j: int) -> Option<int> {
    let sx = i % width + j % size - anchor(size);
    let sy = i / width + j / size - anchor(size);
    if 0 <= sx < width && 0 <= sy < height {
        Some(sy * width + sx)
    } else {
        None
    }
}

/// The pixel that kernel cell `j` reads when the centre lies on pixel `i`;
/// `None` when the cell lies outside the image.
pub fn sample_position(img: &Image, size: usize, i: usize, j: usize) -> (r: Option<usize>)
    requires
        img@.wf(),
        size > 0,
        i < img@.pixels(),
    ensures
        match r {
            Some(p) => sample_pixel(
                img@.width as int,
                img@.height as int,
                size as int,
                i as int,
                j as int,
            ) == Some(p as int) && p < img@.pixels(),
            None => sample_pixel(
                img@.width as int,
                img@.height as int,
                size as int,
                i as int,
                j as int,
            ) is None,
        },
{
    assert(img@.width > 0) by (nonlinear_arith)
        requires
            i < img@.width * img@.height,
    ;
    let width: usize = img.width as usize;
    let half: i128 = (size / 2) as i128;
    let sx: i128 = (i % width) as i128 + (j % size) as i128 - half;
    let sy: i128 = (i / width) as i128 + (j / size) as i128 - half;
    if 0 <= sx && sx < img.width as i128 && 0 <= sy && sy < img.height as i128 {
        proof {
            lemma_pixel_index(img.width as int, img.height as int, sx as int, sy as int);
            lemma_pixel_in_buffer(img@, sy as int * img.width as int + sx as int);
            assert(img@.data.len() == img.data.len());
        }
        let p: i128 = sy * (img.width as i128) + sx;
        Some(p as usize)
    } else {
        None
    }
}

/// The cells of a kernel that lie inside the image when its centre lies on
/// pixel `i`, among the first `n` cells: each cell's index with the pixel it
/// reads, in cell order. A cell outside the image is skipped; no pixel stands
/// in for it.
pub open spec fn window(width: int, height: int, size: int, i: int, n: nat) -> Seq<(int, int)>
    decreases n,
{
    if n == 0 {
        Seq::empty()
    } else {
        let before = window(width, height, size, i, (n - 1) as nat);
        match sample_pixel(width, height, size, i, n - 1) {
            Some(p) => before.push((n - 1, p)),
            None => before,
        }
    }
}

/// Lists the cells of a kernel of side `size` that lie inside the image when
/// the centre lies on pixel `i`: each cell's index with the pixel it reads.
pub fn kernel_window(img: &Image, size: usize, i: usize) -> (cells: Vec<(usize, usize)>)
    requires
        img@.wf(),
        size > 0,
        size * size <= usize::MAX,
        i < img@.pixels(),
    ensures
        cells@.map_values(|t: (usize, usize)| (t.0 as int, t.1 as int)) == window(
            img@.width as int,
            img@.height as int,
            size as int,
            i as int,
            (size * size) as nat,
        ),
        forall|q: int|
            0 <= q < cells@.len() ==> (#[trigger] cells@[q]).0 < size * size && cells@[q].1
                < img@.pixels(),
{
    let count: usize = size * size;
    let mut cells: Vec<(usize, usize)> = Vec::new();
    let mut j: usize = 0;
    while j < count
        invariant
            img@.wf(),
            size > 0,
            i < img@.pixels(),
            count == size * size,
            j <= count,
            cells@.map_values(|t: (usize, usize)| (t.0 as int, t.1 as int)) == window(
                img@.width as int,
                img@.height as int,
                size as int,
                i as int,
                j as nat,
            ),
            forall|q: int|
                0 <= q < cells@.len() ==> (#[trigger] cells@[q]).0 < j && cells@[q].1
                    < img@.pixels(),
        decreases count - j,
    {
        let ghost before = cells@;
        match sample_position(img, size, i, j) {
            Some(p) => {
                cells.push((j, p));
                assert(cells@.map_values(|t: (usize, usize)| (t.0 as int, t.1 as int))
                    =~= before.map_values(|t: (usize, usize)| (t.0 as int, t.1 as int)).push(
                    (j as int, p as int),
                ));
            },
            None => {},
        }
        j += 1;
    }
    cells
}

/// What the window lists: every entry is a cell among the first `n` with
/// the pixel it reads, the cells come in rising order, and every cell among
/// the first `n` that reads a pixel is listed, cell `j` after the entries of
/// the cells before it.
pub proof fn lemma_window(width: int, height: int, size: int, i: int, n: nat)
    ensures
        window(width, height, size, i, n).len() <= n,
        forall|q: int|
            0 <= q < window(width, height, size, i, n).len() ==> {
                let entry = #[trigger] window(width, height, size, i, n)[q];
                0 <= entry.0 < n && sample_pixel(width, height, size, i, entry.0) == Some(entry.1)
            },
        forall|q: int, r: int|
            0 <= q < r < window(width, height, size, i, n).len() ==> (#[trigger] window(
                width,
                height,
                size,
                i,
                n,
            )[q]).0 < (#[trigger] window(width, height, size, i, n)[r]).0,
        forall|j: int|
            0 <= j < n && sample_pixel(width, height, size, i, j) is Some ==> {
                let at = #[trigger] window(width, height, size, i, j as nat).len() as int;
                at < window(width, height, size, i, n).len() && window(width, height, size, i, n)[at]
                    == (j, sample_pixel(width, height, size, i, j).unwrap())
            },
    decreases n,
{
    if n > 0 {
        lemma_window(width, height, size, i, (n - 1) as nat);
    }
}

/// The index of the centre cell of a kernel of side `size`.
pub open spec fn centre(size: int) -> int {
    size * anchor(size) + anchor(size)
}

/// The centre cell of an odd-sided kernel is in row and column `size / 2`.
pub proof fn lemma_centre_cell(size: int)
    requires
        size > 0,
        size % 2 == 1,
    ensures
        0 <= centre(size) < size * size,
        centre(size) % size == anchor(size),
        centre(size) / size == anchor(size),
{
    let a = anchor(size);
    assert(0 <= size * a && size * a + size <= size * size) by (nonlinear_arith)
        requires
            0 <= a < size,
    ;
    assert(size * a == a * size) by (nonlinear_arith);
    vstd::arithmetic::div_mod::lemma_fundamental_div_mod_converse(centre(size), size, a, a);
}

/// A cell in the centre's row and column is the centre cell.
pub proof fn lemma_cell_is_centre(size: int, j: int)
    requires
        size > 0,
        0 <= j,
        j % size == anchor(size),
        j / size == anchor(size),
    ensures
        j == centre(size),
{
    vstd::arithmetic::div_mod::lemma_fundamental_div_mod(j, size);
}

/// With the kernel's centre on pixel `i`, the centre cell reads pixel `i`.
pub proof fn lemma_centre_reads_own_pixel(width: int, height: int, size: int, i: int)
    requires
        0 <= i < width * height,
        0 <= width,
        size > 0,
        size % 2 == 1,
    ensures
        sample_pixel(width, height, size, i, centre(size)) == Some(i),
{
    lemma_centre_cell(size);
    assert(width > 0 && height > 0) by (nonlinear_arith)
        requires
            0 <= i < width * height,
            0 <= width,
    ;
    vstd::arithmetic::div_mod::lemma_fundamental_div_mod(i, width);
    assert(width * (i / width) == (i / width) * width) by (nonlinear_arith);
    assert(0 <= i / width < height) by (nonlinear_arith)
        requires
            0 <= i < width * height,
            0 < width,
            i == width * (i / width) + i % width,
            0 <= i % width < width,
    ;
}

/// Boundary skip on the smallest image: laid on the one pixel of a 1 x 1
/// image, only the centre cell of a kernel lies inside the image. No other
/// cell is clamped or wrapped into it.
pub proof fn lemma_single_pixel_window(size: int, n: nat)
    requires
        size > 0,
        size % 2 == 1,
        n <= size * size,
    ensures
        n <= centre(size) ==> window(1, 1, size, 0, n) == Seq::<(int, int)>::empty(),
        n > centre(size) ==> window(1, 1, size, 0, n) == seq![(centre(size), 0int)],
    decreases n,
{
    if n > 0 {
        let j = n - 1;
        lemma_single_pixel_window(size, j as nat);
        lemma_centre_cell(size);
        if sample_pixel(1, 1, size, 0, j) is Some {
            lemma_cell_is_centre(size, j);
            assert(Seq::<(int, int)>::empty().push((j, 0int)) =~= seq![(j, 0int)]);
        } else {
            assert(j != centre(size));
        }
    }
}

} // verus!
