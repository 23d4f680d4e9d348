//! MCU geometry: how many minimum coded units an image has and how many
//! blocks each holds.

use super::headers::{JpegFrameComponent, JpegHeaders};
use vstd::arithmetic::div_mod::*;
use vstd::prelude::*;
use vstd::slice::slice_subrange;

verus! {

/// `a / b`, rounded up.
pub open spec fn ceil_div(a: nat, b: nat) -> nat {
    ((a + b - 1) / (b as int)) as nat
}

/// Largest horizontal sampling factor, at least 1.
pub open spec fn max_h(frame: Seq<JpegFrameComponent>) -> nat
    decreases frame.len(),
{
    if frame.len() == 0 {
        1
    } else {
        let rest = max_h(frame.drop_last());
        if frame.last().h_sampling > rest {
            frame.last().h_sampling as nat
        } else {
            rest
        }
    }
}

/// Largest vertical sampling factor, at least 1.
pub open spec fn max_v(frame: Seq<JpegFrameComponent>) -> nat
    decreases frame.len(),
{
    if frame.len() == 0 {
        1
    } else {
        let rest = max_v(frame.drop_last());
        if frame.last().v_sampling > rest {
            frame.last().v_sampling as nat
        } else {
            rest
        }
    }
}

/// MCUs of an image whose MCU is `8h` by `8v` pixels.
pub open spec fn mcus(width: nat, height: nat, h: nat, v: nat) -> nat {
    ceil_div(width, 8 * h) * ceil_div(height, 8 * v)
}

/// MCUs of an image with these components; none without a component.
pub open spec fn frame_mcus(width: nat, height: nat, frame: Seq<JpegFrameComponent>) -> nat {
    if frame.len() == 0 {
        0
    } else {
        mcus(width, height, max_h(frame), max_v(frame))
    }
}

/// Blocks that one component contributes to an MCU: one in a scan of its
/// own, `h × v` in an interleaved scan.
pub open spec fn block_count(scan_components: nat, h: nat, v: nat) -> nat {
    if scan_components == 1 {
        1
    } else {
        h * v
    }
}

/// `ceil_div` is the least count of steps of `b` that reaches `a`.
pub proof fn lemma_ceil_div(a: nat, b: nat)
    requires
        b > 0,
    ensures
        ceil_div(a, b) * b >= a,
        a > 0 ==> (ceil_div(a, b) - 1) * b < a,
        ceil_div(a, b) <= a,
{
    let q = (a + b - 1) / (b as int);
    lemma_fundamental_div_mod(a + b - 1, b as int);
    lemma_mod_bound(a + b - 1, b as int);
    assert(b * q == q * b) by (nonlinear_arith);
    assert((q - 1) * b == q * b - b) by (nonlinear_arith);
    assert(q >= 0) by {
        lemma_div_pos_is_pos(a + b - 1, b as int);
    }
    if a > 0 && q > a {
        assert((q - 1) * b >= a) by (nonlinear_arith)
            requires
                q > a,
                b > 0,
                a > 0,
        ;
    }
    if a == 0 {
        lemma_basic_div(b - 1, b as int);
    }
}

/// MCU-count core, parameterised on the folded max sampling factors.
#[must_use]
pub fn mcu_count_from_max_sampling(width: u16, height: u16, max_h: u8, max_v: u8) -> (n: u32)
    ensures
        n == mcus(
            width as nat,
            height as nat,
            if max_h > 1 {
                max_h as nat
            } else {
                1
            },
            if max_v > 1 {
                max_v as nat
            } else {
                1
            },
        ),
        n <= 8192 * 8192,
{
    let mcu_w: u32 = if max_h > 1 {
        max_h as u32 * 8
    } else {
        8
    };
    let mcu_h: u32 = if max_v > 1 {
        max_v as u32 * 8
    } else {
        8
    };
    let cols: u32 = (width as u32 + mcu_w - 1) / mcu_w;
    let rows: u32 = (height as u32 + mcu_h - 1) / mcu_h;
    proof {
        lemma_at_most_8192(width as nat, mcu_w as nat);
        lemma_at_most_8192(height as nat, mcu_h as nat);
        assert(cols * rows <= 8192 * 8192) by (nonlinear_arith)
            requires
                0 <= cols <= 8192,
                0 <= rows <= 8192,
        ;
    }
    cols * rows
}

proof fn lemma_at_most_8192(a: nat, b: nat)
    requires
        a <= 65535,
        b >= 8,
    ensures
        ceil_div(a, b) <= 8192,
{
    lemma_ceil_div(a, b);
    let q = ceil_div(a, b);
    if q > 8192 {
        assert((q - 1) * b >= 65536) by (nonlinear_arith)
            requires
                q - 1 >= 8192,
                b >= 8,
        ;
    }
}

/// Compute the MCU count from raw frame parameters.
#[must_use]
pub fn mcu_count(width: u16, height: u16, frame_components: &[JpegFrameComponent]) -> (n: u32)
    ensures
        n == frame_mcus(width as nat, height as nat, frame_components@),
        n <= 8192 * 8192,
{
    if frame_components.len() == 0 {
        return 0;
    }
    let mut h: u8 = 1;
    let mut v: u8 = 1;
    let mut k: usize = 0;
    while k < frame_components.len()
        invariant
            k <= frame_components@.len(),
            h >= 1,
            v >= 1,
            h == max_h(frame_components@.take(k as int)),
            v == max_v(frame_components@.take(k as int)),
        decreases frame_components@.len() - k,
    {
        let c = frame_components[k];
        if c.h_sampling > h {
            h = c.h_sampling;
        }
        if c.v_sampling > v {
            v = c.v_sampling;
        }
        k = k + 1;
        assert(frame_components@.take(k as int).drop_last() =~= frame_components@.take(k - 1));
    }
    assert(frame_components@.take(k as int) =~= frame_components@);
    mcu_count_from_max_sampling(width, height, h, v)
}

impl<'a> JpegHeaders<'a> {
    /// Number of MCUs (minimum coded units) in this image, computed from
    /// `components`, `width`/`height`, and the per-component sampling factors.
    #[must_use]
    pub fn num_mcus(&self) -> (n: u32)
        requires
            self.components <= 4,
        ensures
            n == frame_mcus(
                self.width as nat,
                self.height as nat,
                self.frame_components@.take(self.components as int),
            ),
    {
        let frame = slice_subrange(
            self.frame_components.as_slice(),
            0,
            self.components as usize,
        );
        assert(frame@ =~= self.frame_components@.take(self.components as int));
        mcu_count(self.width, self.height, frame)
    }
}

/// Number of 8×8 blocks one component contributes per MCU: a non-interleaved
/// single-component scan always emits 1, regardless of the component's
/// sampling factors; an interleaved scan emits `h × v`.
#[must_use]
pub fn component_blocks_per_mcu(scan_components: usize, h_sampling: u8, v_sampling: u8) -> (n: u8)
    requires
        scan_components == 1 || h_sampling * v_sampling <= 255,
    ensures
        n == block_count(scan_components as nat, h_sampling as nat, v_sampling as nat),
{
    if scan_components == 1 {
        1
    } else {
        h_sampling * v_sampling
    }
}

/// The MCU grid covers the image, and no row or column of it lies wholly
/// outside.
pub proof fn law_mcu_grid_covers_image(width: nat, height: nat, h: nat, v: nat)
    requires
        width > 0,
        height > 0,
        h > 0,
        v > 0,
    ensures
        ceil_div(width, 8 * h) * (8 * h) >= width,
        (ceil_div(width, 8 * h) - 1) * (8 * h) < width,
        ceil_div(height, 8 * v) * (8 * v) >= height,
        (ceil_div(height, 8 * v) - 1) * (8 * v) < height,
        mcus(width, height, h, v) == ceil_div(width, 8 * h) * ceil_div(height, 8 * v),
{
    lemma_ceil_div(width, 8 * h);
    lemma_ceil_div(height, 8 * v);
}

/// The sampling factors of an image are the largest of its components: no
/// component has a larger one, and one of them has it, unless it is 1.
pub proof fn law_largest_sampling_counts(frame: Seq<JpegFrameComponent>)
    ensures
        forall|k: int|
            0 <= k < frame.len() ==> (#[trigger] frame[k]).h_sampling <= max_h(frame)
                && frame[k].v_sampling <= max_v(frame),
        max_h(frame) == 1 || exists|k: int|
            0 <= k < frame.len() && (#[trigger] frame[k]).h_sampling == max_h(frame),
        max_v(frame) == 1 || exists|k: int|
            0 <= k < frame.len() && (#[trigger] frame[k]).v_sampling == max_v(frame),
        max_h(frame) >= 1,
        max_v(frame) >= 1,
    decreases frame.len(),
{
    if frame.len() > 0 {
        let init = frame.drop_last();
        law_largest_sampling_counts(init);
        let last = frame.len() - 1;
        assert forall|k: int| 0 <= k < frame.len() implies (#[trigger] frame[k]).h_sampling
            <= max_h(frame) && frame[k].v_sampling <= max_v(frame) by {
            if k < last {
                assert(init[k] == frame[k]);
            }
        }
        if max_h(frame) != 1 {
            if max_h(frame) == max_h(init) {
                let k = choose|k: int|
                    0 <= k < init.len() && (#[trigger] init[k]).h_sampling == max_h(init);
                assert(frame[k].h_sampling == max_h(frame));
            } else {
                assert(frame[last].h_sampling == max_h(frame));
            }
        }
        if max_v(frame) != 1 {
            if max_v(frame) == max_v(init) {
                let k = choose|k: int|
                    0 <= k < init.len() && (#[trigger] init[k]).v_sampling == max_v(init);
                assert(frame[k].v_sampling == max_v(frame));
            } else {
                assert(frame[last].v_sampling == max_v(frame));
            }
        }
    }
}

/// An image has its MCU columns times its MCU rows, where an MCU is eight
/// pixels wide and high for each of its largest sampling factors.
pub proof fn law_mcus_are_columns_times_rows(
    width: nat,
    height: nat,
    frame: Seq<JpegFrameComponent>,
    columns: nat,
    rows: nat,
)
    requires
        width > 0,
        height > 0,
        frame.len() > 0,
        (columns - 1) * (8 * max_h(frame)) < width <= columns * (8 * max_h(frame)),
        (rows - 1) * (8 * max_v(frame)) < height <= rows * (8 * max_v(frame)),
    ensures
        frame_mcus(width, height, frame) == columns * rows,
{
    law_largest_sampling_counts(frame);
    lemma_ceil_div_unique(width, 8 * max_h(frame), columns);
    lemma_ceil_div_unique(height, 8 * max_v(frame), rows);
}

proof fn lemma_ceil_div_unique(a: nat, b: nat, q: nat)
    requires
        a > 0,
        b > 0,
        (q - 1) * b < a <= q * b,
    ensures
        ceil_div(a, b) == q,
{
    lemma_ceil_div(a, b);
    let c = ceil_div(a, b) as int;
    let d = q as int;
    assert(c == d) by (nonlinear_arith)
        requires
            (d - 1) * b < a <= d * b,
            (c - 1) * b < a <= c * b,
            b > 0,
    ;
}

} // verus!
