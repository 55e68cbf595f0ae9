//! The per-pixel work list of a frame and the collector that turns finished
//! pixels, arriving in any order, into the frame's RGB bytes.
use itertools::Itertools;
use vstd::arithmetic::div_mod::{lemma_fundamental_div_mod, lemma_fundamental_div_mod_converse};
use vstd::prelude::*;

use crate::canvas::{blank_pixels, canvas_pixels, in_grid, raw_bytes, Canvas};

verus! {

/// A finished pixel: its coordinate `(x, y)` and its 8-bit RGB value.
pub type PixelResult = ((u32, u32), [u8; 3]);

/// The work list of a `width` by `height` frame: every coordinate once,
/// column by column (`x` outermost, then `y`).
pub open spec fn job_grid(width: u32, height: u32) -> Seq<(u32, u32)> {
    Seq::new(
        ((width as int) * (height as int)) as nat,
        |k: int| ((k / (height as int)) as u32, (k % (height as int)) as u32),
    )
}

/// The pixels of a frame after the results are written in the given order
/// onto a black image: a later write to a coordinate replaces an earlier one.
pub open spec fn painted(width: u32, height: u32, results: Seq<PixelResult>) -> Map<
    (u32, u32),
    [u8; 3],
>
    decreases results.len(),
{
    if results.len() == 0 {
        blank_pixels(width, height)
    } else {
        painted(width, height, results.drop_last()).insert(results.last().0, results.last().1)
    }
}

/// Every result targets a coordinate inside the frame.
pub open spec fn targets_in_grid(width: u32, height: u32, results: Seq<PixelResult>) -> bool {
    forall|k: int| 0 <= k < results.len() ==> in_grid(width, height, #[trigger] results[k].0)
}

/// No two results target the same coordinate.
pub open spec fn distinct_targets(results: Seq<PixelResult>) -> bool {
    forall|i: int, j: int|
        0 <= i < results.len() && 0 <= j < results.len() && i != j ==> #[trigger] results[i].0
            != #[trigger] results[j].0
}

/// Relies on `itertools::Itertools::cartesian_product` of `0..width` with
/// `0..height`: all pairs, the first range outermost, collected in order.
#[verifier::external_body]
fn grid_product(width: u32, height: u32) -> (r: Vec<(u32, u32)>)
    requires
        8 * (width as int) * (height as int) <= isize::MAX,
    ensures
        r@ == job_grid(width, height),
{
    (0..width).cartesian_product(0..height).collect()
}

/// The list of pixel jobs of a `width` by `height` frame, one per pixel.
pub fn pixel_jobs(width: u32, height: u32) -> (jobs: Vec<(u32, u32)>)
    requires
        8 * (width as int) * (height as int) <= isize::MAX,
    ensures
        jobs@ == job_grid(width, height),
{
    grid_product(width, height)
}

/// Writes each finished pixel into a black `width` by `height` image, in the
/// order given, and returns the image's bytes, row after row.
pub fn assemble_frame(width: u32, height: u32, results: &Vec<PixelResult>) -> (bytes: Vec<u8>)
    requires
        3 * (width as int) <= usize::MAX,
        3 * (width as int) * (height as int) <= isize::MAX,
        targets_in_grid(width, height, results@),
    ensures
        bytes@ == raw_bytes(painted(width, height, results@), width, height),
{
    let mut canvas = Canvas::new(width, height);
    let mut i: usize = 0;
    while i < results.len()
        invariant
            i <= results.len(),
            targets_in_grid(width, height, results@),
            canvas_pixels(canvas) == painted(width, height, results@.subrange(0, i as int)),
            canvas_pixels(canvas).dom() == blank_pixels(width, height).dom(),
        decreases results.len() - i,
    {
        let (c, px) = results[i];
        assert(in_grid(width, height, results@[i as int].0));
        canvas.put_pixel(c.0, c.1, px);
        assert(results@.subrange(0, i + 1).drop_last() =~= results@.subrange(0, i as int));
        i = i + 1;
    }
    assert(results@.subrange(0, results.len() as int) =~= results@);
    canvas.into_raw(width, height)
}

/// The work list holds every coordinate of the frame exactly once: job
/// `x * height + y` is `(x, y)`, every job lies inside the frame, and no two
/// jobs are equal.
pub proof fn lemma_jobs_cover_grid(width: u32, height: u32)
    ensures
        forall|k: int|
            0 <= k < job_grid(width, height).len() ==> in_grid(
                width,
                height,
                #[trigger] job_grid(width, height)[k],
            ),
        forall|x: u32, y: u32|
            x < width && y < height ==> #[trigger] job_grid(width, height)[x * height + y] == (
                x,
                y,
            ),
        forall|i: int, j: int|
            0 <= i < job_grid(width, height).len() && 0 <= j < job_grid(width, height).len() && i
                != j ==> #[trigger] job_grid(width, height)[i] != #[trigger] job_grid(
                width,
                height,
            )[j],
{
    let w = width as int;
    let h = height as int;
    let g = job_grid(width, height);
    assert forall|k: int| 0 <= k < g.len() implies in_grid(width, height, #[trigger] g[k]) by {
        lemma_fundamental_div_mod(k, h);
        assert(0 <= k % h < h);
        assert(0 <= k / h < w) by (nonlinear_arith)
            requires
                0 <= k < w * h,
                h > 0,
                k == h * (k / h) + k % h,
                0 <= k % h < h,
        ;
    }
    assert forall|x: u32, y: u32| x < width && y < height implies #[trigger] g[x * height + y] == (
        x,
        y,
    ) by {
        let k = (x as int) * h + (y as int);
        assert(0 <= k < w * h) by (nonlinear_arith)
            requires
                k == (x as int) * h + (y as int),
                0 <= x < w,
                0 <= y < h,
        ;
        lemma_fundamental_div_mod_converse(k, h, x as int, y as int);
        assert(x * height + y == k);
    }
    assert forall|i: int, j: int|
        0 <= i < g.len() && 0 <= j < g.len() && i != j implies #[trigger] g[i] != #[trigger] g[j] by {
        lemma_fundamental_div_mod(i, h);
        lemma_fundamental_div_mod(j, h);
        assert(0 <= i / h < w) by (nonlinear_arith)
            requires
                0 <= i < w * h,
                h > 0,
                i == h * (i / h) + i % h,
                0 <= i % h < h,
        ;
        assert(0 <= j / h < w) by (nonlinear_arith)
            requires
                0 <= j < w * h,
                h > 0,
                j == h * (j / h) + j % h,
                0 <= j % h < h,
        ;
    }
}

/// When no two results target the same coordinate, each result's pixel is
/// what the frame shows at its coordinate, every other pixel of the frame is
/// black, and the frame covers exactly its `width` by `height` grid.
pub proof fn lemma_results_land(width: u32, height: u32, results: Seq<PixelResult>)
    requires
        targets_in_grid(width, height, results),
        distinct_targets(results),
    ensures
        painted(width, height, results).dom() == blank_pixels(width, height).dom(),
        forall|k: int|
            0 <= k < results.len() ==> #[trigger] painted(width, height, results)[results[k].0]
                == results[k].1,
        forall|c: (u32, u32)|
            in_grid(width, height, c) && (forall|k: int|
                0 <= k < results.len() ==> #[trigger] results[k].0 != c) ==> #[trigger] painted(
                width,
                height,
                results,
            )[c] == [0u8, 0u8, 0u8],
    decreases results.len(),
{
    if results.len() > 0 {
        let prefix = results.drop_last();
        assert forall|k: int| 0 <= k < prefix.len() implies in_grid(
            width,
            height,
            #[trigger] prefix[k].0,
        ) by {
            assert(prefix[k] == results[k]);
        }
        assert forall|i: int, j: int|
            0 <= i < prefix.len() && 0 <= j < prefix.len() && i != j implies #[trigger] prefix[i].0
            != #[trigger] prefix[j].0 by {
            assert(prefix[i] == results[i] && prefix[j] == results[j]);
        }
        lemma_results_land(width, height, prefix);
        let last = results.len() - 1;
        assert(in_grid(width, height, results[last].0));
        assert forall|k: int| 0 <= k < results.len() implies #[trigger] painted(
            width,
            height,
            results,
        )[results[k].0] == results[k].1 by {
            if k < last {
                assert(prefix[k] == results[k]);
                assert(results[k].0 != results[last].0);
            }
        }
        assert forall|c: (u32, u32)|
            in_grid(width, height, c) && (forall|k: int|
                0 <= k < results.len() ==> #[trigger] results[k].0 != c) implies #[trigger] painted(
            width,
            height,
            results,
        )[c] == [0u8, 0u8, 0u8] by {
            assert(results[last].0 != c);
            assert forall|k: int| 0 <= k < prefix.len() implies #[trigger] prefix[k].0 != c by {
                assert(prefix[k] == results[k]);
            }
        }
    }
}

/// Two arrivals of the same finished pixels, in any two orders, each with no
/// coordinate repeated, give the same frame.
pub proof fn lemma_arrival_order_irrelevant(
    width: u32,
    height: u32,
    first: Seq<PixelResult>,
    second: Seq<PixelResult>,
)
    requires
        first.to_multiset() == second.to_multiset(),
        targets_in_grid(width, height, first),
        targets_in_grid(width, height, second),
        distinct_targets(first),
        distinct_targets(second),
    ensures
        painted(width, height, first) == painted(width, height, second),
{
    broadcast use vstd::seq_lib::group_to_multiset_ensures;

    lemma_results_land(width, height, first);
    lemma_results_land(width, height, second);
    let m1 = painted(width, height, first);
    let m2 = painted(width, height, second);
    assert forall|c: (u32, u32)| #[trigger] m1.dom().contains(c) implies m1[c] == m2[c] by {
        if exists|k: int| 0 <= k < first.len() && first[k].0 == c {
            let k = choose|k: int| 0 <= k < first.len() && first[k].0 == c;
            assert(first.to_multiset().count(first[k]) > 0);
            assert(second.contains(first[k]));
            let j = choose|j: int| 0 <= j < second.len() && second[j] == first[k];
            assert(m2[second[j].0] == second[j].1);
        } else if exists|j: int| 0 <= j < second.len() && second[j].0 == c {
            let j = choose|j: int| 0 <= j < second.len() && second[j].0 == c;
            assert(second.to_multiset().count(second[j]) > 0);
            assert(first.contains(second[j]));
            let k = choose|k: int| 0 <= k < first.len() && first[k] == second[j];
            assert(first[k].0 == c);
        } else {
            assert forall|k: int| 0 <= k < first.len() implies #[trigger] first[k].0 != c by {}
            assert forall|j: int| 0 <= j < second.len() implies #[trigger] second[j].0 != c by {}
        }
    }
    assert(m1 =~= m2);
}

} // verus!
