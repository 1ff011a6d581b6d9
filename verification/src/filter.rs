//! Kernels and the convolution of an image with a kernel.
//!
//! The library decides which weight meets which sample, and in which order;
//! what a weight is and how weights and samples add up is the caller's
//! [`Arithmetic`]. The contracts say of each output byte from which terms it
//! was made, by which calls of the arithmetic.

use vstd::prelude::*;

use crate::error::ConfigFault;
use crate::error::ImageError;
use crate::image::lemma_buffer_len;
use crate::image::lemma_byte_of_pixel;
use crate::image::lemma_pixel_in_buffer;
use crate::image::lemma_pixel_of_byte;
use crate::image::Image;
use crate::image::ImageView;
use crate::window::anchor;
use crate::window::centre;
use crate::window::kernel_window;
use crate::window::lemma_centre_cell;
use crate::window::lemma_centre_reads_own_pixel;
use crate::window::lemma_single_pixel_window;
use crate::window::lemma_window;
use crate::window::window;

verus! {

/// A square grid of weights, stored row by row. Its side is odd, so that the
/// cell in row `size / 2`, column `size / 2` is its centre.
#[derive(Clone, Debug, PartialEq)]
pub struct Kernel<W> {
    /// The weights, row by row: cell `j` is in row `j / size`, column
    /// `j % size`.
    pub val: Vec<W>,
    /// The number of rows, and of columns.
    pub size: usize,
}

/// What is wrong with a kernel of side `size` that holds `weights` weights.
pub open spec fn kernel_fault(weights: nat, size: nat) -> Option<ConfigFault> {
    if size % 2 == 0 {
        Some(ConfigFault::EvenSize)
    } else if weights != size * size {
        Some(ConfigFault::WeightCount)
    } else {
        None
    }
}

/// The mathematical content of a [`Kernel`].
pub struct KernelView<W> {
    /// The weights, row by row.
    pub weights: Seq<W>,
    /// The number of rows, and of columns.
    pub size: nat,
}

impl<W> KernelView<W> {
    /// The side is odd and there is one weight per cell.
    pub open spec fn wf(self) -> bool {
        kernel_fault(self.weights.len(), self.size) is None
    }
}

impl<W> View for Kernel<W> {
    type V = KernelView<W>;

    open spec fn view(&self) -> KernelView<W> {
        KernelView { weights: self.val@, size: self.size as nat }
    }
}

impl<W> Kernel<W> {
    /// Builds a kernel from its weights, row by row. Fails with
    /// `ConfigError(EvenSize)` when `size` is even, else with
    /// `ConfigError(WeightCount)` when `val` does not hold `size * size` weights.
    pub fn new(val: Vec<W>, size: usize) -> (r: Result<Kernel<W>, ImageError>)
        ensures
            match r {
                Ok(kernel) => kernel@.wf() && kernel.val == val && kernel.size == size,
                Err(e) => kernel_fault(val@.len(), size as nat) matches Some(fault) && e
                    == ImageError::ConfigError(fault),
            },
    {
        let kernel = Kernel { val, size };
        match kernel.check() {
            Ok(()) => Ok(kernel),
            Err(e) => Err(e),
        }
    }

    /// Tells whether the kernel is well formed, and if not, why.
    pub fn check(&self) -> (r: Result<(), ImageError>)
        ensures
            r == match kernel_fault(self.val@.len(), self.size as nat) {
                None => Ok::<(), ImageError>(()),
                Some(fault) => Err::<(), ImageError>(ImageError::ConfigError(fault)),
            },
    {
        if self.size % 2 == 0 {
            return Err(ImageError::ConfigError(ConfigFault::EvenSize));
        }
        assert(self.val@.len() == self.val.len());
        match self.size.checked_mul(self.size) {
            Some(cells) => {
                if self.val.len() == cells {
                    Ok(())
                } else {
                    Err(ImageError::ConfigError(ConfigFault::WeightCount))
                }
            },
            None => Err(ImageError::ConfigError(ConfigFault::WeightCount)),
        }
    }

    /// Row and column of the centre cell.
    pub fn anchor(&self) -> (a: usize)
        ensures
            a == anchor(self.size as int),
    {
        self.size / 2
    }
}

/// What a kernel contributes to channel `c` of output pixel `i`: for each of
/// its cells inside the image, in cell order, the cell's weight and channel
/// `c` of the pixel that the cell reads.
pub open spec fn taps<W>(v: ImageView, k: KernelView<W>, i: int, c: int) -> Seq<(W, u8)> {
    window(v.width as int, v.height as int, k.size as int, i, k.weights.len()).map_values(
        |t: (int, int)| (k.weights[t.0], v.data[t.1 * v.channels() + c]),
    )
}

/// What a kernel contributes to a byte of the output buffer, which is one
/// channel of one pixel.
pub open spec fn output_taps<W>(v: ImageView, k: KernelView<W>, byte: int) -> Seq<(W, u8)> {
    taps(v, k, byte / (v.channels() as int), byte % (v.channels() as int))
}

/// The arithmetic of a convolution, which is the caller's: weights may be of
/// any type, and so may the accumulator that sums them up.
///
/// An output byte is `finish` of an accumulator that starts as `zero` and
/// takes the terms in one by one through `step(accumulator, weight, sample)`.
pub struct Arithmetic<A, S, G> {
    /// The accumulator before any term.
    pub zero: A,
    /// Adds one term, a weight and the sample under it, to the accumulator.
    pub step: S,
    /// Turns the accumulator into the output byte.
    pub finish: G,
}

impl<A, S, G> Arithmetic<A, S, G> {
    /// `acc` is an accumulator that `step` may leave after it has taken in
    /// `terms`, from first to last, starting from `zero`.
    pub open spec fn accumulates<W>(self, terms: Seq<(W, u8)>, acc: A) -> bool where
        S: Fn(A, W, u8) -> A,
        decreases terms.len(),
    {
        if terms.len() == 0 {
            acc == self.zero
        } else {
            exists|before: A|
                self.accumulates(terms.drop_last(), before) && #[trigger] call_ensures(
                    self.step,
                    (before, terms.last().0, terms.last().1),
                    acc,
                )
        }
    }

    /// `b` is a byte that the arithmetic may give for `terms`.
    pub open spec fn blends<W>(self, terms: Seq<(W, u8)>, b: u8) -> bool where
        S: Fn(A, W, u8) -> A,
        G: Fn(A) -> u8,
    {
        exists|acc: A|
            self.accumulates(terms, acc) && #[trigger] call_ensures(self.finish, (acc,), b)
    }

    /// `step` and `finish` may be called wherever the arithmetic of `terms`
    /// leads: `step` on every accumulator that the terms before a term may
    /// leave, `finish` on every accumulator that all of them may leave.
    pub open spec fn accepts<W>(self, terms: Seq<(W, u8)>) -> bool where
        S: Fn(A, W, u8) -> A,
        G: Fn(A) -> u8,
    {
        &&& forall|q: int, acc: A|
            0 <= q < terms.len() && #[trigger] self.accumulates(terms.take(q), acc)
                ==> call_requires(self.step, (acc, terms[q].0, terms[q].1))
        &&& forall|acc: A| #[trigger]
            self.accumulates(terms, acc) ==> call_requires(self.finish, (acc,))
    }
}

/// Computes output pixel `i`: one byte per channel, each what the arithmetic
/// gives for the kernel's contributions to that channel.
pub fn convolve_pixel<W: Copy, A: Copy, S: Fn(A, W, u8) -> A, G: Fn(A) -> u8>(
    img: &Image,
    kernel: &Kernel<W>,
    i: usize,
    arithmetic: &Arithmetic<A, S, G>,
) -> (pixel: Vec<u8>)
    requires
        img@.wf(),
        kernel@.wf(),
        i < img@.pixels(),
        forall|c: int|
            0 <= c < img@.channels() ==> arithmetic.accepts(#[trigger] taps(img@, kernel@, i as int, c)),
    ensures
        pixel@.len() == img@.channels(),
        forall|c: int|
            0 <= c < img@.channels() ==> arithmetic.blends(
                taps(img@, kernel@, i as int, c),
                #[trigger] pixel@[c],
            ),
{
    let per_pixel: usize = img.get_pixl_width();
    assert(kernel.val@.len() == kernel.val.len());
    let cells = kernel_window(img, kernel.size, i);
    let count: usize = cells.len();
    let mut pixel: Vec<u8> = Vec::new();
    let mut c: usize = 0;
    while c < per_pixel
        invariant
            img@.wf(),
            kernel@.wf(),
            i < img@.pixels(),
            forall|c: int|
                0 <= c < img@.channels() ==> arithmetic.accepts(
                    #[trigger] taps(img@, kernel@, i as int, c),
                ),
            per_pixel == img@.channels(),
            count == cells@.len(),
            cells@.map_values(|t: (usize, usize)| (t.0 as int, t.1 as int)) == window(
                img@.width as int,
                img@.height as int,
                kernel@.size as int,
                i as int,
                kernel@.weights.len(),
            ),
            forall|q: int|
                0 <= q < cells@.len() ==> (#[trigger] cells@[q]).0 < kernel.val@.len()
                    && cells@[q].1 < img@.pixels(),
            c <= per_pixel,
            pixel@.len() == c,
            forall|d: int|
                0 <= d < c ==> arithmetic.blends(
                    taps(img@, kernel@, i as int, d),
                    #[trigger] pixel@[d],
                ),
        decreases per_pixel - c,
    {
        let ghost terms = taps(img@, kernel@, i as int, c as int);
        let mut acc: A = arithmetic.zero;
        let mut q: usize = 0;
        assert(terms.take(0) =~= Seq::<(W, u8)>::empty());
        while q < count
            invariant
                img@.wf(),
                per_pixel == img@.channels(),
                c < per_pixel,
                count == cells@.len(),
                cells@.map_values(|t: (usize, usize)| (t.0 as int, t.1 as int)) == window(
                    img@.width as int,
                    img@.height as int,
                    kernel@.size as int,
                    i as int,
                    kernel@.weights.len(),
                ),
                forall|q: int|
                    0 <= q < cells@.len() ==> (#[trigger] cells@[q]).0 < kernel.val@.len()
                        && cells@[q].1 < img@.pixels(),
                terms == taps(img@, kernel@, i as int, c as int),
                arithmetic.accepts(terms),
                q <= count,
                arithmetic.accumulates(terms.take(q as int), acc),
            decreases count - q,
        {
            let cell: usize = cells[q].0;
            let p: usize = cells[q].1;
            proof {
                lemma_pixel_in_buffer(img@, p as int);
                assert(img@.data.len() == img.data.len());
                assert(cells@.map_values(|t: (usize, usize)| (t.0 as int, t.1 as int))[q as int]
                    == (cell as int, p as int));
                assert(terms[q as int] == (kernel.val@[cell as int], img@.data[p * per_pixel + c]));
            }
            let ghost before = acc;
            acc = (arithmetic.step)(acc, kernel.val[cell], img.data[p * per_pixel + c]);
            proof {
                assert(terms.take(q + 1).drop_last() =~= terms.take(q as int));
                assert(terms.take(q + 1).last() == terms[q as int]);
                assert(call_ensures(
                    arithmetic.step,
                    (before, terms.take(q + 1).last().0, terms.take(q + 1).last().1),
                    acc,
                ));
            }
            q += 1;
        }
        assert(terms.take(count as int) =~= terms);
        let b: u8 = (arithmetic.finish)(acc);
        pixel.push(b);
        c += 1;
    }
    pixel
}

/// `out` is a convolution of `v` with `k`: it has the shape of `v`, and each
/// of its bytes is what the arithmetic gives for the kernel's contributions
/// to it.
pub open spec fn convolved<W, A, S: Fn(A, W, u8) -> A, G: Fn(A) -> u8>(
    arithmetic: Arithmetic<A, S, G>,
    v: ImageView,
    k: KernelView<W>,
    out: ImageView,
) -> bool {
    &&& out.width == v.width
    &&& out.height == v.height
    &&& out.color_type == v.color_type
    &&& out.data.len() == v.data.len()
    &&& forall|byte: int|
        0 <= byte < out.data.len() ==> arithmetic.blends(
            output_taps(v, k, byte),
            #[trigger] out.data[byte],
        )
}

/// The arithmetic may be used on what the kernel contributes to any byte of
/// the output.
pub open spec fn convolvable<W, A, S: Fn(A, W, u8) -> A, G: Fn(A) -> u8>(
    arithmetic: Arithmetic<A, S, G>,
    v: ImageView,
    k: KernelView<W>,
) -> bool {
    forall|byte: int|
        0 <= byte < v.data.len() ==> arithmetic.accepts(#[trigger] output_taps(v, k, byte))
}

/// Convolves `img` with `kernel` into a new image of the same shape.
///
/// For every output pixel the kernel is laid with its centre on the pixel.
/// Each cell that lies inside the image contributes, to every channel, its
/// weight and the sample under it; a cell outside contributes nothing. Per
/// channel an accumulator starts as `zero`, takes the contributions in cell
/// order through `step`, and `finish` turns it, once, into the output byte.
/// The kernel is checked first: a malformed one gives the `ConfigError` that
/// [`Kernel::check`] reports.
pub fn apply_kernel<W: Copy, A: Copy, S: Fn(A, W, u8) -> A, G: Fn(A) -> u8>(
    img: &Image,
    kernel: &Kernel<W>,
    arithmetic: &Arithmetic<A, S, G>,
) -> (r: Result<Image, ImageError>)
    requires
        img@.wf(),
        kernel@.wf() ==> convolvable(*arithmetic, img@, kernel@),
    ensures
        match r {
            Ok(out) => kernel@.wf() && out@.wf() && convolved(*arithmetic, img@, kernel@, out@),
            Err(e) => kernel_fault(kernel@.weights.len(), kernel@.size) matches Some(fault) && e
                == ImageError::ConfigError(fault),
        },
{
    match kernel.check() {
        Ok(()) => {},
        Err(e) => {
            return Err(e);
        },
    }
    let per_pixel: usize = img.get_pixl_width();
    let pixels: usize = img.data.len() / per_pixel;
    proof {
        lemma_buffer_len(img@);
    }
    let mut filtered: Vec<u8> = Vec::new();
    let mut i: usize = 0;
    while i < pixels
        invariant
            img@.wf(),
            kernel@.wf(),
            convolvable(*arithmetic, img@, kernel@),
            per_pixel == img@.channels(),
            pixels == img@.pixels(),
            i <= pixels,
            filtered@.len() == i * per_pixel,
            forall|byte: int|
                0 <= byte < filtered@.len() ==> arithmetic.blends(
                    output_taps(img@, kernel@, byte),
                    #[trigger] filtered@[byte],
                ),
        decreases pixels - i,
    {
        proof {
            assert forall|c: int| 0 <= c < img@.channels() implies arithmetic.accepts(
                #[trigger] taps(img@, kernel@, i as int, c),
            ) by {
                lemma_byte_of_pixel(img@, i as int, c);
                assert(arithmetic.accepts(output_taps(img@, kernel@, i * per_pixel + c)));
            }
        }
        let pixel = convolve_pixel(img, kernel, i, arithmetic);
        let mut c: usize = 0;
        while c < per_pixel
            invariant
                img@.wf(),
                i < pixels,
                pixels == img@.pixels(),
                per_pixel == img@.channels(),
                pixel@.len() == per_pixel,
                c <= per_pixel,
                filtered@.len() == i * per_pixel + c,
                forall|d: int|
                    0 <= d < per_pixel ==> arithmetic.blends(
                        taps(img@, kernel@, i as int, d),
                        #[trigger] pixel@[d],
                    ),
                forall|byte: int|
                    0 <= byte < filtered@.len() ==> arithmetic.blends(
                        output_taps(img@, kernel@, byte),
                        #[trigger] filtered@[byte],
                    ),
            decreases per_pixel - c,
        {
            proof {
                lemma_byte_of_pixel(img@, i as int, c as int);
            }
            filtered.push(pixel[c]);
            c += 1;
        }
        assert(i * per_pixel + per_pixel == (i + 1) * per_pixel) by (nonlinear_arith);
        i += 1;
    }
    Ok(Image { width: img.width, height: img.height, color_type: img.color_type, data: filtered })
}

/// Convolving a 1 x 1 image with any kernel scales the pixel by the centre
/// weight alone: each output byte is `finish` of the one `step` that takes
/// the centre weight and the pixel's byte into the `zero` accumulator.
pub proof fn lemma_single_pixel_convolution<W, A, S: Fn(A, W, u8) -> A, G: Fn(A) -> u8>(
    arithmetic: Arithmetic<A, S, G>,
    v: ImageView,
    k: KernelView<W>,
    out: ImageView,
    c: int,
)
    requires
        v.wf(),
        v.width == 1,
        v.height == 1,
        k.wf(),
        convolved(arithmetic, v, k, out),
        0 <= c < v.channels(),
    ensures
        taps(v, k, 0, c) == seq![(k.weights[centre(k.size as int)], v.data[c])],
        exists|acc: A| #[trigger]
            call_ensures(
                arithmetic.step,
                (arithmetic.zero, k.weights[centre(k.size as int)], v.data[c]),
                acc,
            ) && call_ensures(arithmetic.finish, (acc,), out.data[c]),
{
    lemma_buffer_len(v);
    lemma_centre_cell(k.size as int);
    lemma_single_pixel_window(k.size as int, k.weights.len());
    let terms = taps(v, k, 0, c);
    assert(terms =~= seq![(k.weights[centre(k.size as int)], v.data[c])]);
    assert(output_taps(v, k, c) == terms);
    assert(arithmetic.blends(terms, out.data[c]));
    let acc = choose|acc: A|
        arithmetic.accumulates(terms, acc) && #[trigger] call_ensures(
            arithmetic.finish,
            (acc,),
            out.data[c],
        );
    assert(terms.drop_last() =~= Seq::<(W, u8)>::empty());
    assert(arithmetic.accumulates(terms.drop_last(), arithmetic.zero));
    let before = choose|before: A|
        arithmetic.accumulates(terms.drop_last(), before) && #[trigger] call_ensures(
            arithmetic.step,
            (before, terms.last().0, terms.last().1),
            acc,
        );
    assert(before == arithmetic.zero);
}

/// An identity kernel: `one` at the centre, `zero` elsewhere.
pub open spec fn is_identity<W>(k: KernelView<W>, zero: W, one: W) -> bool {
    forall|j: int|
        0 <= j < k.weights.len() ==> #[trigger] k.weights[j] == if j == centre(k.size as int) {
            one
        } else {
            zero
        }
}

/// The arithmetic passes a sample through when it alone carries the weight
/// `one` and every other term carries the weight `zero`.
pub open spec fn passes_unit<W, A, S: Fn(A, W, u8) -> A, G: Fn(A) -> u8>(
    arithmetic: Arithmetic<A, S, G>,
    zero: W,
    one: W,
) -> bool {
    forall|terms: Seq<(W, u8)>, b: u8, m: int|
        #![trigger arithmetic.blends(terms, b), terms[m]]
        arithmetic.blends(terms, b) && 0 <= m < terms.len() && terms[m].0 == one && (forall|q: int|
            0 <= q < terms.len() && q != m ==> (#[trigger] terms[q]).0 == zero) ==> b == terms[m].1
}

/// Identity kernel: convolving with a kernel that is `one` at the centre and
/// `zero` elsewhere reproduces the image exactly, for any image, under every
/// arithmetic that passes a sample through when it alone is weighted `one`
/// and all others `zero`.
pub proof fn lemma_identity_kernel<W, A, S: Fn(A, W, u8) -> A, G: Fn(A) -> u8>(
    arithmetic: Arithmetic<A, S, G>,
    v: ImageView,
    k: KernelView<W>,
    zero: W,
    one: W,
    out: ImageView,
)
    requires
        v.wf(),
        k.wf(),
        is_identity(k, zero, one),
        passes_unit(arithmetic, zero, one),
        convolved(arithmetic, v, k, out),
    ensures
        out == v,
{
    let per_pixel = v.channels() as int;
    let w = v.width as int;
    let h = v.height as int;
    let size = k.size as int;
    assert forall|byte: int| 0 <= byte < v.data.len() implies out.data[byte] == v.data[byte] by {
        let i = byte / per_pixel;
        lemma_pixel_of_byte(v, byte);
        lemma_centre_cell(size);
        lemma_centre_reads_own_pixel(w, h, size, i);
        lemma_window(w, h, size, i, k.weights.len());
        let cells = window(w, h, size, i, k.weights.len());
        let terms = output_taps(v, k, byte);
        let m = window(w, h, size, i, centre(size) as nat).len() as int;
        assert(cells[m] == (centre(size), i));
        assert(terms[m] == (one, v.data[byte]));
        assert forall|q: int| 0 <= q < terms.len() && q != m implies (#[trigger] terms[q]).0
            == zero by {
            assert(cells[q].0 != cells[m].0);
        }
        assert(arithmetic.blends(terms, out.data[byte]));
    }
    assert(out.data =~= v.data);
}

/// `combined` is a kernel of the size of `first` and `second` whose weights
/// are `combine` of theirs, cell by cell.
pub open spec fn combines<W>(
    combine: spec_fn(W, W) -> W,
    first: KernelView<W>,
    second: KernelView<W>,
    combined: KernelView<W>,
) -> bool {
    &&& first.size == combined.size
    &&& second.size == combined.size
    &&& first.weights.len() == combined.weights.len()
    &&& second.weights.len() == combined.weights.len()
    &&& forall|j: int|
        0 <= j < combined.weights.len() ==> #[trigger] combined.weights[j] == combine(
            first.weights[j],
            second.weights[j],
        )
}

/// Kernels of one size see the same samples, and weights combine cell by
/// cell: each term of the combined kernel carries `combine` of the weights of
/// the two kernels' terms in the same place, with the same sample.
pub proof fn lemma_taps_of_combined_weights<W>(
    combine: spec_fn(W, W) -> W,
    v: ImageView,
    first: KernelView<W>,
    second: KernelView<W>,
    combined: KernelView<W>,
    i: int,
    c: int,
)
    requires
        combines(combine, first, second, combined),
    ensures
        taps(v, first, i, c).len() == taps(v, combined, i, c).len(),
        taps(v, second, i, c).len() == taps(v, combined, i, c).len(),
        forall|q: int|
            0 <= q < taps(v, combined, i, c).len() ==> {
                let a = taps(v, first, i, c)[q];
                let b = taps(v, second, i, c)[q];
                #[trigger] taps(v, combined, i, c)[q] == (combine(a.0, b.0), a.1) && a.1 == b.1
            },
{
    lemma_window(v.width as int, v.height as int, combined.size as int, i, combined.weights.len());
}

/// `step` is linear in the weight: on the accumulator `plus(a1, a2)` with the
/// weight `combine(w1, w2)` it leaves `plus` of what it leaves on `a1` with
/// `w1` and on `a2` with `w2`, for the same sample; and `plus` of two `zero`
/// accumulators is `zero`.
pub open spec fn distributes<W, A, S: Fn(A, W, u8) -> A, G: Fn(A) -> u8>(
    arithmetic: Arithmetic<A, S, G>,
    combine: spec_fn(W, W) -> W,
    plus: spec_fn(A, A) -> A,
) -> bool {
    &&& plus(arithmetic.zero, arithmetic.zero) == arithmetic.zero
    &&& forall|a1: A, a2: A, w1: W, w2: W, sample: u8, r1: A, r2: A, r: A|
        #![trigger
            call_ensures(arithmetic.step, (a1, w1, sample), r1),
            call_ensures(arithmetic.step, (a2, w2, sample), r2),
            call_ensures(arithmetic.step, (plus(a1, a2), combine(w1, w2), sample), r),
        ]
        call_ensures(arithmetic.step, (a1, w1, sample), r1) && call_ensures(
            arithmetic.step,
            (a2, w2, sample),
            r2,
        ) && call_ensures(arithmetic.step, (plus(a1, a2), combine(w1, w2), sample), r) ==> r
            == plus(r1, r2)
}

/// Linearity in the weights: under an arithmetic whose `step` is linear in
/// the weight, the accumulator of a kernel whose weights are `combine` of the
/// weights of two kernels is `plus` of their accumulators, for every output
/// byte. The byte itself is `finish` of that accumulator: the sum is clamped
/// once, after the two have been added.
pub proof fn lemma_convolution_is_linear<W, A, S: Fn(A, W, u8) -> A, G: Fn(A) -> u8>(
    arithmetic: Arithmetic<A, S, G>,
    combine: spec_fn(W, W) -> W,
    plus: spec_fn(A, A) -> A,
    v: ImageView,
    first: KernelView<W>,
    second: KernelView<W>,
    combined: KernelView<W>,
    byte: int,
    a1: A,
    a2: A,
    a: A,
)
    requires
        distributes(arithmetic, combine, plus),
        combines(combine, first, second, combined),
        arithmetic.accumulates(output_taps(v, first, byte), a1),
        arithmetic.accumulates(output_taps(v, second, byte), a2),
        arithmetic.accumulates(output_taps(v, combined, byte), a),
    ensures
        a == plus(a1, a2),
{
    let i = byte / (v.channels() as int);
    let c = byte % (v.channels() as int);
    lemma_taps_of_combined_weights(combine, v, first, second, combined, i, c);
    lemma_accumulators_add(
        arithmetic,
        combine,
        plus,
        taps(v, first, i, c),
        taps(v, second, i, c),
        taps(v, combined, i, c),
        a1,
        a2,
        a,
    );
}

/// Accumulators add up term by term.
proof fn lemma_accumulators_add<W, A, S: Fn(A, W, u8) -> A, G: Fn(A) -> u8>(
    arithmetic: Arithmetic<A, S, G>,
    combine: spec_fn(W, W) -> W,
    plus: spec_fn(A, A) -> A,
    first: Seq<(W, u8)>,
    second: Seq<(W, u8)>,
    combined: Seq<(W, u8)>,
    a1: A,
    a2: A,
    a: A,
)
    requires
        distributes(arithmetic, combine, plus),
        first.len() == combined.len(),
        second.len() == combined.len(),
        forall|q: int|
            0 <= q < combined.len() ==> #[trigger] combined[q] == (
                combine(first[q].0, second[q].0),
                first[q].1,
            ) && first[q].1 == second[q].1,
        arithmetic.accumulates(first, a1),
        arithmetic.accumulates(second, a2),
        arithmetic.accumulates(combined, a),
    ensures
        a == plus(a1, a2),
    decreases combined.len(),
{
    if combined.len() > 0 {
        let b1 = choose|b: A|
            arithmetic.accumulates(first.drop_last(), b) && #[trigger] call_ensures(
                arithmetic.step,
                (b, first.last().0, first.last().1),
                a1,
            );
        let b2 = choose|b: A|
            arithmetic.accumulates(second.drop_last(), b) && #[trigger] call_ensures(
                arithmetic.step,
                (b, second.last().0, second.last().1),
                a2,
            );
        let b = choose|b: A|
            arithmetic.accumulates(combined.drop_last(), b) && #[trigger] call_ensures(
                arithmetic.step,
                (b, combined.last().0, combined.last().1),
                a,
            );
        assert forall|q: int| 0 <= q < combined.drop_last().len() implies #[trigger] combined.drop_last()[q]
            == (
            combine(first.drop_last()[q].0, second.drop_last()[q].0),
            first.drop_last()[q].1,
        ) && first.drop_last()[q].1 == second.drop_last()[q].1 by {
            assert(combined.drop_last()[q] == combined[q]);
        }
        lemma_accumulators_add(
            arithmetic,
            combine,
            plus,
            first.drop_last(),
            second.drop_last(),
            combined.drop_last(),
            b1,
            b2,
            b,
        );
        let last = combined.len() - 1;
        assert(combined[last] == (combine(first[last].0, second[last].0), first[last].1));
    }
}

/// `step` and `finish` return one result only for the same arguments.
pub open spec fn single_valued<W, A, S: Fn(A, W, u8) -> A, G: Fn(A) -> u8>(
    arithmetic: Arithmetic<A, S, G>,
) -> bool {
    &&& forall|acc: A, weight: W, sample: u8, r: A, s: A|
        #![trigger
            call_ensures(arithmetic.step, (acc, weight, sample), r),
            call_ensures(arithmetic.step, (acc, weight, sample), s),
        ]
        call_ensures(arithmetic.step, (acc, weight, sample), r) && call_ensures(
            arithmetic.step,
            (acc, weight, sample),
            s,
        ) ==> r == s
    &&& forall|acc: A, a: u8, b: u8|
        #![trigger
            call_ensures(arithmetic.finish, (acc,), a),
            call_ensures(arithmetic.finish, (acc,), b),
        ]
        call_ensures(arithmetic.finish, (acc,), a) && call_ensures(arithmetic.finish, (acc,), b)
            ==> a == b
}

/// Where `step` returns one result only, the terms determine the
/// accumulator.
pub proof fn lemma_accumulator_is_determined<W, A, S: Fn(A, W, u8) -> A, G: Fn(A) -> u8>(
    arithmetic: Arithmetic<A, S, G>,
    terms: Seq<(W, u8)>,
    first: A,
    second: A,
)
    requires
        single_valued::<W, A, S, G>(arithmetic),
        arithmetic.accumulates(terms, first),
        arithmetic.accumulates(terms, second),
    ensures
        first == second,
    decreases terms.len(),
{
    if terms.len() > 0 {
        let a = choose|a: A|
            arithmetic.accumulates(terms.drop_last(), a) && #[trigger] call_ensures(
                arithmetic.step,
                (a, terms.last().0, terms.last().1),
                first,
            );
        let b = choose|b: A|
            arithmetic.accumulates(terms.drop_last(), b) && #[trigger] call_ensures(
                arithmetic.step,
                (b, terms.last().0, terms.last().1),
                second,
            );
        lemma_accumulator_is_determined(arithmetic, terms.drop_last(), a, b);
    }
}

/// Every byte of a convolution depends on the image, the kernel and the
/// arithmetic alone: two convolutions of one image with one kernel are equal,
/// in whatever order and by however many workers their bytes were computed,
/// provided `step` and `finish` return one result only for the same
/// arguments.
pub proof fn lemma_convolution_is_determined<W, A, S: Fn(A, W, u8) -> A, G: Fn(A) -> u8>(
    arithmetic: Arithmetic<A, S, G>,
    v: ImageView,
    k: KernelView<W>,
    first: ImageView,
    second: ImageView,
)
    requires
        single_valued::<W, A, S, G>(arithmetic),
        convolved(arithmetic, v, k, first),
        convolved(arithmetic, v, k, second),
    ensures
        first == second,
{
    assert forall|byte: int| 0 <= byte < first.data.len() implies first.data[byte]
        == second.data[byte] by {
        let terms = output_taps(v, k, byte);
        assert(arithmetic.blends(terms, first.data[byte]));
        assert(arithmetic.blends(terms, second.data[byte]));
        let a = choose|a: A|
            arithmetic.accumulates(terms, a) && #[trigger] call_ensures(
                arithmetic.finish,
                (a,),
                first.data[byte],
            );
        let b = choose|b: A|
            arithmetic.accumulates(terms, b) && #[trigger] call_ensures(
                arithmetic.finish,
                (b,),
                second.data[byte],
            );
        lemma_accumulator_is_determined(arithmetic, terms, a, b);
    }
    assert(first.data =~= second.data);
}

} // verus!
