//! CPU Porter-Duff compositing and soft-mask application on RGBA8 pixels.

use vstd::prelude::*;

verus! {

/// Alpha of `a_src` over `a_dst`.
pub open spec fn alpha_over(a_src: int, a_dst: int) -> int {
    a_src + (a_dst * (255 - a_src) + 127) / 255
}

/// A colour channel `s` of alpha `a_src` over `d` of alpha `a_dst`, for a
/// source that is neither clear nor opaque.
pub open spec fn channel_over(s: int, d: int, a_src: int, a_dst: int) -> int {
    let a_out = alpha_over(a_src, a_dst);
    let blended = (s * a_src + d * a_dst * (255 - a_src) / 255 + a_out / 2) / a_out;
    if blended > 255 {
        255
    } else {
        blended
    }
}

/// Byte `i` of `dst` once `src` is composited over it.
pub open spec fn composited(src: Seq<u8>, dst: Seq<u8>, i: int) -> u8 {
    let p = i / 4 * 4;
    if i / 4 >= src.len() / 4 || i / 4 >= dst.len() / 4 || src[p + 3] == 0 {
        dst[i]
    } else if src[p + 3] == 255 {
        src[i]
    } else if i % 4 == 3 {
        alpha_over(src[p + 3] as int, dst[p + 3] as int) as u8
    } else {
        channel_over(src[i] as int, dst[i] as int, src[p + 3] as int, dst[p + 3] as int) as u8
    }
}

/// Byte `i` of `pixels` once `mask` is applied: the alpha is scaled.
pub open spec fn masked(pixels: Seq<u8>, mask: Seq<u8>, i: int) -> u8 {
    if i % 4 != 3 || i / 4 >= mask.len() || i / 4 >= pixels.len() / 4 {
        pixels[i]
    } else {
        ((pixels[i] * mask[i / 4] + 127) / 255) as u8
    }
}

/// The composited alpha is that of a byte, and not zero.
pub proof fn lemma_alpha_range(a_src: int, a_dst: int)
    requires
        0 < a_src < 255,
        0 <= a_dst <= 255,
    ensures
        a_src <= alpha_over(a_src, a_dst) <= 255,
        0 <= a_dst * (255 - a_src) <= 255 * 254,
{
    assert(0 <= a_dst * (255 - a_src) <= 255 * (255 - a_src)) by (nonlinear_arith)
        requires
            0 < a_src < 255,
            0 <= a_dst <= 255,
    ;
}

fn blend_channel(s: u8, d: u8, a_src: u8, a_dst: u8) -> (v: u8)
    requires
        0 < a_src < 255,
    ensures
        v == channel_over(s as int, d as int, a_src as int, a_dst as int),
{
    proof {
        lemma_alpha_range(a_src as int, a_dst as int);
        let si = s as int;
        let di = d as int;
        let ai = a_src as int;
        let ad = a_dst as int;
        assert(0 <= si * ai <= 65025) by (nonlinear_arith)
            requires
                0 <= si <= 255,
                0 <= ai <= 255,
        ;
        assert(0 <= di * ad <= 65025) by (nonlinear_arith)
            requires
                0 <= di <= 255,
                0 <= ad <= 255,
        ;
        let p = di * ad;
        assert(0 <= p * (255 - ai) <= 65025 * 255) by (nonlinear_arith)
            requires
                0 <= p <= 65025,
                0 <= ai <= 255,
        ;
    }
    let inv: u32 = 255 - a_src as u32;
    let a_out: u32 = a_src as u32 + (a_dst as u32 * inv + 127) / 255;
    let num: u32 = s as u32 * a_src as u32 + d as u32 * a_dst as u32 * inv / 255 + a_out / 2;
    let blended: u32 = num / a_out;
    proof {
        let n = num as int;
        let a = a_out as int;
        assert(n / a >= 0) by (nonlinear_arith)
            requires
                n >= 0,
                a > 0,
        ;
    }
    if blended > 255 {
        255
    } else {
        blended as u8
    }
}

/// Composite `src` over `dst`, pixel by pixel, as far as both have pixels.
pub fn composite_rgba8_cpu(src: &[u8], dst: &mut [u8])
    ensures
        final(dst)@ == Seq::new(old(dst)@.len(), |i: int| composited(src@, old(dst)@, i)),
{
    let ghost before = dst@;
    assert(dst.len() == before.len());
    let pixels: usize = if src.len() < dst.len() {
        src.len() / 4
    } else {
        dst.len() / 4
    };
    let mut p: usize = 0;
    while p < pixels
        invariant
            p <= pixels,
            pixels <= src@.len() / 4,
            pixels <= before.len() / 4,
            before.len() <= usize::MAX,
            pixels == src@.len() / 4 || pixels == before.len() / 4,
            dst@.len() == before.len(),
            forall|i: int| 0 <= i < 4 * p ==> dst@[i] == composited(src@, before, i),
            forall|i: int| 4 * p <= i < before.len() ==> dst@[i] == before[i],
        decreases pixels - p,
    {
        let o: usize = p * 4;
        let a_src: u8 = src[o + 3];
        let a_dst: u8 = dst[o + 3];
        let ghost here = dst@;
        if a_src == 255 {
            dst[o] = src[o];
            dst[o + 1] = src[o + 1];
            dst[o + 2] = src[o + 2];
            dst[o + 3] = 255;
        } else if a_src != 0 {
            proof {
                lemma_alpha_range(a_src as int, a_dst as int);
            }
            let inv: u32 = 255 - a_src as u32;
            let a_out: u32 = a_src as u32 + (a_dst as u32 * inv + 127) / 255;
            dst[o] = blend_channel(src[o], dst[o], a_src, a_dst);
            dst[o + 1] = blend_channel(src[o + 1], dst[o + 1], a_src, a_dst);
            dst[o + 2] = blend_channel(src[o + 2], dst[o + 2], a_src, a_dst);
            dst[o + 3] = a_out as u8;
        }
        proof {
            assert(o / 4 * 4 == o && (o + 1) / 4 * 4 == o && (o + 2) / 4 * 4 == o && (o + 3) / 4 * 4
                == o);
            assert(dst@[o as int] == composited(src@, before, o as int));
            assert(dst@[o + 1] == composited(src@, before, o + 1));
            assert(dst@[o + 2] == composited(src@, before, o + 2));
            assert(dst@[o + 3] == composited(src@, before, o + 3));
        }
        p += 1;
    }
    proof {
        assert forall|i: int| 0 <= i < before.len() implies dst@[i] == composited(
            src@,
            before,
            i,
        ) by {
            if i >= 4 * pixels {
                assert(i / 4 >= pixels);
            }
        }
        assert(dst@ =~= Seq::new(before.len(), |i: int| composited(src@, before, i)));
    }
}

/// Scale the alpha of each pixel by its mask byte, as far as both go.
pub fn apply_soft_mask_cpu(pixels: &mut [u8], mask: &[u8])
    ensures
        final(pixels)@ == Seq::new(old(pixels)@.len(), |i: int| masked(old(pixels)@, mask@, i)),
{
    let ghost before = pixels@;
    assert(pixels.len() == before.len());
    let have: usize = pixels.len() / 4;
    let n: usize = if mask.len() < have {
        mask.len()
    } else {
        have
    };
    let mut p: usize = 0;
    while p < n
        invariant
            p <= n,
            n <= mask@.len(),
            n <= before.len() / 4,
            before.len() <= usize::MAX,
            n == mask@.len() || n == before.len() / 4,
            pixels@.len() == before.len(),
            forall|i: int| 0 <= i < 4 * p ==> pixels@[i] == masked(before, mask@, i),
            forall|i: int| 4 * p <= i < before.len() ==> pixels@[i] == before[i],
        decreases n - p,
    {
        let o: usize = p * 4 + 3;
        let a: u32 = pixels[o] as u32;
        let m: u32 = mask[p] as u32;
        proof {
            let ai = a as int;
            let mi = m as int;
            assert(0 <= ai * mi <= 65025) by (nonlinear_arith)
                requires
                    0 <= ai <= 255,
                    0 <= mi <= 255,
            ;
        }
        let scaled: u32 = (a * m + 127) / 255;
        pixels[o] = scaled as u8;
        proof {
            assert(o / 4 == p && o % 4 == 3);
            assert((o - 3) / 4 == p && (o - 3) % 4 == 0);
            assert((o - 2) / 4 == p && (o - 2) % 4 == 1);
            assert((o - 1) / 4 == p && (o - 1) % 4 == 2);
        }
        p += 1;
    }
    proof {
        assert forall|i: int| 0 <= i < before.len() implies pixels@[i] == masked(
            before,
            mask@,
            i,
        ) by {
            if i >= 4 * n {
                assert(i / 4 >= n);
            }
        }
        assert(pixels@ =~= Seq::new(before.len(), |i: int| masked(before, mask@, i)));
    }
}

/// A clear source leaves a pixel alone and an opaque one replaces it.
pub proof fn law_clear_keeps_and_opaque_replaces(src: Seq<u8>, dst: Seq<u8>, i: int)
    requires
        0 <= i < dst.len() / 4 * 4,
        i < src.len() / 4 * 4,
    ensures
        src[i / 4 * 4 + 3] == 0 ==> composited(src, dst, i) == dst[i],
        src[i / 4 * 4 + 3] == 255 ==> composited(src, dst, i) == src[i],
{
    assert(i / 4 < dst.len() / 4);
    assert(i / 4 < src.len() / 4);
}

/// Compositing never lowers an alpha below the source's, and onto an opaque
/// pixel it leaves an opaque pixel.
pub proof fn law_composite_keeps_opacity(a_src: u8, a_dst: u8)
    requires
        0 < a_src < 255,
    ensures
        a_src <= alpha_over(a_src as int, a_dst as int) <= 255,
        a_dst == 255 ==> alpha_over(a_src as int, a_dst as int) == 255,
        a_dst == 0 ==> alpha_over(a_src as int, a_dst as int) == a_src,
{
    lemma_alpha_range(a_src as int, a_dst as int);
}

/// A full mask keeps every pixel, a zero mask clears every alpha, and no
/// mask raises an alpha.
pub proof fn law_mask_scales_alpha(pixels: Seq<u8>, mask: Seq<u8>, i: int)
    requires
        0 <= i < pixels.len(),
        i / 4 < mask.len(),
        i / 4 < pixels.len() / 4,
    ensures
        mask[i / 4] == 255 ==> masked(pixels, mask, i) == pixels[i],
        mask[i / 4] == 0 && i % 4 == 3 ==> masked(pixels, mask, i) == 0,
        i % 4 != 3 ==> masked(pixels, mask, i) == pixels[i],
        masked(pixels, mask, i) <= pixels[i],
{
    let a = pixels[i] as int;
    let m = mask[i / 4] as int;
    assert(0 <= a * m <= a * 255) by (nonlinear_arith)
        requires
            0 <= m <= 255,
            a >= 0,
    ;
    if m == 0 {
        assert(a * m == 0) by (nonlinear_arith)
            requires
                m == 0,
        ;
    }
}

/// A composited pixel weighs source and destination by their share of the
/// alpha: resulting channel times resulting alpha is the source's channel
/// times its alpha plus the destination's channel times what the source lets
/// through of its alpha, but for the rounding; 255 stands for anything above.
pub proof fn law_channels_are_weighed_by_alpha(src: Seq<u8>, dst: Seq<u8>, i: int)
    requires
        0 <= i < dst.len() / 4 * 4,
        i < src.len() / 4 * 4,
        i % 4 != 3,
        0 < src[i / 4 * 4 + 3] < 255,
    ensures
        ({
            let p = i / 4 * 4;
            let a_src = src[p + 3] as int;
            let a_dst = dst[p + 3] as int;
            let a_out = composited(src, dst, p + 3) as int;
            let v = composited(src, dst, i) as int;
            let sum = 255 * src[i] * a_src + dst[i] * a_dst * (255 - a_src);
            &&& 0 < a_out
            &&& 2 * 255 * a_out * v <= 2 * sum + 255 * a_out
            &&& v < 255 ==> 2 * sum - 255 * a_out - 510 < 2 * 255 * a_out * v
        }),
{
    let p = i / 4 * 4;
    assert(p % 4 == 0 && p / 4 == i / 4 && (p + 3) / 4 == i / 4 && (p + 3) % 4 == 3);
    assert(i / 4 < dst.len() / 4 && i / 4 < src.len() / 4);
    let s = src[i] as int;
    let d = dst[i] as int;
    let a_src = src[p + 3] as int;
    let a_dst = dst[p + 3] as int;
    lemma_alpha_range(a_src, a_dst);
    lemma_weighed(s, d, a_src, a_dst);
}

/// Of the two shares the destination's is cut to a whole number; their sum
/// over the resulting alpha is rounded to the nearest, and up from the
/// middle.
pub proof fn law_channels_are_rounded_to_the_nearest(src: Seq<u8>, dst: Seq<u8>, i: int)
    requires
        0 <= i < dst.len() / 4 * 4,
        i < src.len() / 4 * 4,
        i % 4 != 3,
        0 < src[i / 4 * 4 + 3] < 255,
    ensures
        ({
            let p = i / 4 * 4;
            let a_src = src[p + 3] as int;
            let a_out = composited(src, dst, p + 3) as int;
            let v = composited(src, dst, i) as int;
            let shares = src[i] * a_src + dst[i] * dst[p + 3] * (255 - a_src) / 255;
            &&& 2 * a_out * v <= 2 * shares + a_out
            &&& v < 255 ==> 2 * shares - a_out < 2 * a_out * v
        }),
{
    let p = i / 4 * 4;
    assert(p % 4 == 0 && p / 4 == i / 4 && (p + 3) / 4 == i / 4 && (p + 3) % 4 == 3);
    assert(i / 4 < dst.len() / 4 && i / 4 < src.len() / 4);
    lemma_alpha_range(src[p + 3] as int, dst[p + 3] as int);
    lemma_rounded(src[i] as int, dst[i] as int, src[p + 3] as int, dst[p + 3] as int);
    lemma_weighed(src[i] as int, dst[i] as int, src[p + 3] as int, dst[p + 3] as int);
}

proof fn lemma_rounded(s: int, d: int, a_src: int, a_dst: int)
    requires
        0 <= s <= 255,
        0 <= d <= 255,
        0 < a_src < 255,
        0 <= a_dst <= 255,
    ensures
        ({
            let a_out = alpha_over(a_src, a_dst);
            let v = channel_over(s, d, a_src, a_dst);
            let shares = s * a_src + d * a_dst * (255 - a_src) / 255;
            &&& 2 * a_out * v <= 2 * shares + a_out
            &&& v < 255 ==> 2 * shares - a_out < 2 * a_out * v
        }),
{
    lemma_alpha_range(a_src, a_dst);
    let a_out = alpha_over(a_src, a_dst);
    let shares = s * a_src + d * a_dst * (255 - a_src) / 255;
    let num = shares + a_out / 2;
    let q = num / a_out;
    vstd::arithmetic::div_mod::lemma_fundamental_div_mod(num, a_out);
    vstd::arithmetic::div_mod::lemma_mod_bound(num, a_out);
    let v = channel_over(s, d, a_src, a_dst);
    assert(a_out * v <= a_out * q) by (nonlinear_arith)
        requires
            v <= q,
            a_out > 0,
    ;
    assert(2 * a_out * v == 2 * (a_out * v)) by (nonlinear_arith);
}

/// What [`channel_over`] is within, from its division.
proof fn lemma_weighed(s: int, d: int, a_src: int, a_dst: int)
    requires
        0 <= s <= 255,
        0 <= d <= 255,
        0 < a_src < 255,
        0 <= a_dst <= 255,
    ensures
        ({
            let a_out = alpha_over(a_src, a_dst);
            let v = channel_over(s, d, a_src, a_dst);
            let sum = 255 * s * a_src + d * a_dst * (255 - a_src);
            &&& 0 <= v <= 255
            &&& 2 * 255 * a_out * v <= 2 * sum + 255 * a_out
            &&& v < 255 ==> 2 * sum - 255 * a_out - 510 < 2 * 255 * a_out * v
        }),
{
    lemma_alpha_range(a_src, a_dst);
    let a_out = alpha_over(a_src, a_dst);
    let under = d * a_dst * (255 - a_src);
    let own = s * a_src;
    assert(255 * s * a_src == 255 * own) by (nonlinear_arith)
        requires
            own == s * a_src,
    ;
    assert(own >= 0) by (nonlinear_arith)
        requires
            own == s * a_src,
            s >= 0,
            a_src > 0,
    ;
    assert(under >= 0) by (nonlinear_arith)
        requires
            under == d * a_dst * (255 - a_src),
            d >= 0,
            a_dst >= 0,
            a_src < 255,
    ;
    let num = own + under / 255 + a_out / 2;
    let q = num / a_out;
    vstd::arithmetic::div_mod::lemma_fundamental_div_mod(num, a_out);
    vstd::arithmetic::div_mod::lemma_mod_bound(num, a_out);
    assert(q >= 0) by (nonlinear_arith)
        requires
            num >= 0,
            a_out > 0,
            q == num / a_out,
    ;
    let v = channel_over(s, d, a_src, a_dst);
    assert(a_out * v <= a_out * q) by (nonlinear_arith)
        requires
            v <= q,
            a_out > 0,
    ;
    assert(2 * 255 * a_out * v == 510 * (a_out * v)) by (nonlinear_arith);
}

/// A composited channel lies between the source's and the destination's, but
/// for the rounding of channel and alpha, which matters the less the more
/// opaque the result is.
pub proof fn law_channels_lie_between(src: Seq<u8>, dst: Seq<u8>, i: int)
    requires
        0 <= i < dst.len() / 4 * 4,
        i < src.len() / 4 * 4,
        i % 4 != 3,
    ensures
        ({
            let p = i / 4 * 4;
            let a_out = composited(src, dst, p + 3) as int;
            let v = composited(src, dst, i) as int;
            let low = if src[i] < dst[i] {
                src[i] as int
            } else {
                dst[i] as int
            };
            let high = if src[i] < dst[i] {
                dst[i] as int
            } else {
                src[i] as int
            };
            &&& 2 * a_out * (low - v) <= low + a_out + 2
            &&& 2 * a_out * (v - high) <= high + a_out
        }),
{
    let p = i / 4 * 4;
    assert(p % 4 == 0 && p / 4 == i / 4 && (p + 3) / 4 == i / 4 && (p + 3) % 4 == 3);
    assert(i / 4 < dst.len() / 4 && i / 4 < src.len() / 4);
    let s = src[i] as int;
    let d = dst[i] as int;
    let a_src = src[p + 3] as int;
    let a_dst = dst[p + 3] as int;
    let low = if s < d {
        s
    } else {
        d
    };
    let high = if s < d {
        d
    } else {
        s
    };
    let v = composited(src, dst, i) as int;
    let a_out = composited(src, dst, p + 3) as int;
    if a_src == 0 || a_src == 255 {
        assert(low <= v <= high);
        assert(2 * a_out * (low - v) <= 0) by (nonlinear_arith)
            requires
                low <= v,
                a_out >= 0,
        ;
        assert(2 * a_out * (v - high) <= 0) by (nonlinear_arith)
            requires
                v <= high,
                a_out >= 0,
        ;
    } else {
        lemma_alpha_range(a_src, a_dst);
        lemma_weighed(s, d, a_src, a_dst);
        let w = a_dst * (255 - a_src);
        let sum = 255 * s * a_src + d * a_dst * (255 - a_src);
        assert(-255 < 255 * (a_out - a_src) * 2 - 2 * w < 255 + 1);
        assert(d * a_dst * (255 - a_src) == d * w) by (nonlinear_arith)
            requires
                w == a_dst * (255 - a_src),
        ;
        assert(255 * low * a_src + low * w <= sum <= 255 * high * a_src + high * w)
            by (nonlinear_arith)
            requires
                sum == 255 * s * a_src + d * w,
                low <= s <= high,
                low <= d <= high,
                a_src > 0,
                w >= 0,
        ;
        assert(2 * (255 * low * a_src + low * w) >= 510 * (low * a_out) - 255 * low)
            by (nonlinear_arith)
            requires
                2 * w >= 510 * (a_out - a_src) - 255,
                low >= 0,
        ;
        assert(2 * (255 * high * a_src + high * w) <= 510 * (high * a_out) + 255 * high)
            by (nonlinear_arith)
            requires
                2 * w <= 510 * (a_out - a_src) + 255,
                high >= 0,
        ;
        assert(2 * 255 * a_out * v == 255 * (2 * (a_out * v))) by (nonlinear_arith);
        assert(2 * a_out * (low - v) == 2 * (low * a_out) - 2 * (a_out * v)) by (nonlinear_arith);
        assert(2 * a_out * (v - high) == 2 * (a_out * v) - 2 * (high * a_out)) by (nonlinear_arith);
        if v == 255 {
            assert(2 * a_out * (low - v) <= 0) by (nonlinear_arith)
                requires
                    low <= v,
                    a_out >= 0,
            ;
        }
    }
}

/// Onto an opaque pixel a channel is the mean of both, weighed by the
/// source's alpha and rounded to the nearest; it lies between them, and equal
/// channels stay.  Onto a clear pixel the source's channel comes out.
pub proof fn law_opaque_page_takes_the_mean(src: Seq<u8>, dst: Seq<u8>, i: int)
    requires
        0 <= i < dst.len() / 4 * 4,
        i < src.len() / 4 * 4,
        i % 4 != 3,
    ensures
        ({
            let a_src = src[i / 4 * 4 + 3] as int;
            let a_dst = dst[i / 4 * 4 + 3] as int;
            let v = composited(src, dst, i) as int;
            let mean = src[i] * a_src + dst[i] * (255 - a_src);
            &&& a_dst == 255 ==> mean - 127 <= 255 * v <= mean + 127
            &&& a_dst == 255 && src[i] <= dst[i] ==> src[i] <= v <= dst[i]
            &&& a_dst == 255 && dst[i] <= src[i] ==> dst[i] <= v <= src[i]
            &&& a_dst == 0 && a_src > 0 ==> v == src[i]
        }),
{
    let p = i / 4 * 4;
    assert(p % 4 == 0 && p / 4 == i / 4 && (p + 3) / 4 == i / 4 && (p + 3) % 4 == 3);
    assert(i / 4 < dst.len() / 4 && i / 4 < src.len() / 4);
    let s = src[i] as int;
    let d = dst[i] as int;
    let a = src[p + 3] as int;
    if 0 < a < 255 {
        lemma_over_opaque(s, d, a);
        lemma_over_clear(s, d, a);
    } else if a == 0 {
        assert(s * 0 == 0);
    } else {
        assert(d * 0 == 0);
    }
}

proof fn lemma_over_opaque(s: int, d: int, a: int)
    requires
        0 <= s <= 255,
        0 <= d <= 255,
        0 < a < 255,
    ensures
        ({
            let mean = s * a + d * (255 - a);
            let v = channel_over(s, d, a, 255);
            &&& mean - 127 <= 255 * v <= mean + 127
            &&& s <= d ==> s <= v <= d
            &&& d <= s ==> d <= v <= s
        }),
{
    assert(alpha_over(a, 255) == 255);
    let low = d * (255 - a);
    assert(d * 255 * (255 - a) == 255 * low) by (nonlinear_arith)
        requires
            low == d * (255 - a),
    ;
    assert(255 * low / 255 == low);
    let mean = s * a + low;
    assert(mean == 255 * s + (d - s) * (255 - a)) by (nonlinear_arith)
        requires
            mean == s * a + low,
            low == d * (255 - a),
    ;
    assert(mean == 255 * d + (s - d) * a) by (nonlinear_arith)
        requires
            mean == s * a + low,
            low == d * (255 - a),
    ;
    if s <= d {
        assert((d - s) * (255 - a) >= 0 && (s - d) * a <= 0) by (nonlinear_arith)
            requires
                0 < a < 255,
                s <= d,
        ;
    }
    if d <= s {
        assert((d - s) * (255 - a) <= 0 && (s - d) * a >= 0) by (nonlinear_arith)
            requires
                0 < a < 255,
                d <= s,
        ;
    }
    assert(0 <= mean <= 255 * 255);
    let q = (mean + 127) / 255;
    assert(mean - 127 <= 255 * q <= mean + 127);
    assert(channel_over(s, d, a, 255) == q);
}

proof fn lemma_over_clear(s: int, d: int, a: int)
    requires
        0 <= s <= 255,
        0 < a < 255,
    ensures
        channel_over(s, d, a, 0) == s,
{
    assert(d * 0 * (255 - a) == 0) by (nonlinear_arith);
    assert(alpha_over(a, 0) == a);
    vstd::arithmetic::div_mod::lemma_fundamental_div_mod_converse(s * a + a / 2, a, s, a / 2);
}

/// The composited alpha is what the source covers and what it lets through of
/// the destination's, rounded to the nearest.
pub proof fn law_alpha_adds_what_shows_through(src: Seq<u8>, dst: Seq<u8>, p: int)
    requires
        0 <= p < dst.len() / 4,
        p < src.len() / 4,
    ensures
        ({
            let a_src = src[4 * p + 3] as int;
            let sum = 255 * a_src + dst[4 * p + 3] * (255 - a_src);
            sum - 127 <= 255 * composited(src, dst, 4 * p + 3) <= sum + 127
        }),
{
    let i = 4 * p + 3;
    assert(i / 4 == p && i % 4 == 3 && i / 4 * 4 + 3 == i);
    let a_src = src[i] as int;
    let a_dst = dst[i] as int;
    if 0 < a_src < 255 {
        lemma_alpha_range(a_src, a_dst);
    } else if a_src == 0 {
        assert(a_dst * 255 == 255 * a_dst);
    } else {
        assert(a_dst * 0 == 0);
    }
}

/// Bytes behind the last pixel that both have are left alone, and a pixel
/// depends on the pixels at its own place alone.
pub proof fn law_pixels_are_composited_apart(
    src: Seq<u8>,
    dst: Seq<u8>,
    other_src: Seq<u8>,
    other_dst: Seq<u8>,
    i: int,
)
    requires
        0 <= i < dst.len(),
        other_src.len() == src.len(),
        other_dst.len() == dst.len(),
        i / 4 < src.len() / 4 ==> src[i] == other_src[i] && src[i / 4 * 4 + 3] == other_src[i / 4
            * 4 + 3],
        dst[i] == other_dst[i],
        i / 4 < dst.len() / 4 ==> dst[i / 4 * 4 + 3] == other_dst[i / 4 * 4 + 3],
    ensures
        composited(src, dst, i) == composited(other_src, other_dst, i),
        i / 4 >= src.len() / 4 || i / 4 >= dst.len() / 4 ==> composited(src, dst, i) == dst[i],
{
}

/// A masked alpha is alpha times mask over 255, rounded to the nearest, and
/// pixels without a mask byte are left alone.
pub proof fn law_masked_alpha_is_the_product(pixels: Seq<u8>, mask: Seq<u8>, p: int)
    requires
        0 <= p < pixels.len() / 4,
    ensures
        ({
            let i = 4 * p + 3;
            let product = pixels[i] * mask[p];
            &&& p < mask.len() ==> product - 127 <= 255 * masked(pixels, mask, i) <= product + 127
            &&& p >= mask.len() ==> masked(pixels, mask, i) == pixels[i]
        }),
{
    let i = 4 * p + 3;
    assert(i / 4 == p && i % 4 == 3);
    if p < mask.len() {
        let a = pixels[i] as int;
        let m = mask[p] as int;
        assert(0 <= a * m <= 65025) by (nonlinear_arith)
            requires
                0 <= a <= 255,
                0 <= m <= 255,
        ;
    }
}

} // verus!
