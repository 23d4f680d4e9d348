//! CMYK to RGB on the CPU.
//!
//! Without a colour table a channel is the subtractive complement
//! `(255 - x) * (255 - k) / 255`, rounded.  The vector tiers work on groups
//! of pixels in 16-bit lanes, where the division is done by shifts; the rest
//! of a line goes through the scalar tier.  With a table, the colour is
//! interpolated between the nodes of a four-dimensional grid.

use vstd::prelude::*;
use vstd::slice::slice_subrange;

verus! {

/// A colour channel from an ink `x` and the black `k`.
pub open spec fn complement(x: u8, k: u8) -> u8 {
    (((255 - x) * (255 - k) + 127) / 255) as u8
}

/// RGB byte `i` of a line of CMYK pixels.
pub open spec fn rgb_byte(cmyk: Seq<u8>, i: int) -> u8 {
    complement(cmyk[i / 3 * 4 + i % 3], cmyk[i / 3 * 4 + 3])
}

/// RGB of a line of CMYK pixels.
pub open spec fn matrix_rgb(cmyk: Seq<u8>) -> Seq<u8> {
    Seq::new(cmyk.len() / 4 * 3, |i: int| rgb_byte(cmyk, i))
}

proof fn lemma_product(x: u8, k: u8)
    ensures
        0 <= (255 - x) * (255 - k) <= 65025,
{
    let a = 255 - x;
    let b = 255 - k;
    assert(0 <= a * b <= 65025) by (nonlinear_arith)
        requires
            0 <= a <= 255,
            0 <= b <= 255,
    ;
}

/// The complement of one ink.
fn cmyk_channel(x: u8, k: u8) -> (v: u8)
    ensures
        v == complement(x, k),
{
    proof {
        lemma_product(x, k);
    }
    let prod: u32 = (255 - x as u32) * (255 - k as u32);
    ((prod + 127) / 255) as u8
}

/// RGB of one CMYK pixel.
#[must_use]
pub fn cmyk_to_rgb_reflectance(c: u8, m: u8, y: u8, k: u8) -> (rgb: (u8, u8, u8))
    ensures
        rgb == (complement(c, k), complement(m, k), complement(y, k)),
{
    (cmyk_channel(c, k), cmyk_channel(m, k), cmyk_channel(y, k))
}

/// In 16-bit lanes, dividing by 255 takes two shifts and two additions, and
/// no intermediate sum leaves the lane.
pub proof fn law_shifts_divide_by_255(n: u16)
    requires
        n <= 65152,
    ensures
        n + (n >> 8) + 1 <= u16::MAX,
        ((n + (n >> 8) + 1) as u16) >> 8 == n / 255,
{
    assert(n + (n >> 8) + 1 <= 65535 && ((n + (n >> 8) + 1) as u16) >> 8 == n / 255)
        by (bit_vector)
        requires
            n <= 65152,
    ;
}

/// One lane: the complement of an ink in 16-bit arithmetic.
fn lane(x: u8, k: u8) -> (v: u8)
    ensures
        v == complement(x, k),
{
    proof {
        lemma_product(x, k);
    }
    let inv_x: u16 = 255 - x as u16;
    let inv_k: u16 = 255 - k as u16;
    let n: u16 = inv_x * inv_k + 127;
    proof {
        law_shifts_divide_by_255(n);
    }
    let q: u16 = (n + (n >> 8) + 1) >> 8;
    q as u8
}

/// Convert `lanes` pixels from the start of `cmyk` to the bytes of `rgb` from
/// `at` on: gather each channel, compute lane by lane, and interleave.
fn convert_lanes(cmyk: &[u8], lanes: usize, rgb: &mut [u8], at: usize)
    requires
        cmyk@.len() >= 4 * lanes,
        at + 3 * lanes <= old(rgb)@.len(),
    ensures
        final(rgb)@.len() == old(rgb)@.len(),
        forall|i: int|
            0 <= i < old(rgb)@.len() ==> (#[trigger] final(rgb)@[i]) == (if at <= i < at + 3 * lanes {
                rgb_byte(cmyk@, i - at)
            } else {
                old(rgb)@[i]
            }),
{
    assert(cmyk.len() == cmyk@.len());
    let mut red: Vec<u8> = Vec::new();
    let mut green: Vec<u8> = Vec::new();
    let mut blue: Vec<u8> = Vec::new();
    let mut p: usize = 0;
    while p < lanes
        invariant
            p <= lanes,
            4 * lanes <= cmyk@.len() <= usize::MAX,
            red@.len() == p,
            green@.len() == p,
            blue@.len() == p,
            forall|j: int| 0 <= j < p ==> red@[j] == complement(cmyk@[4 * j], cmyk@[4 * j + 3]),
            forall|j: int| 0 <= j < p ==> green@[j] == complement(cmyk@[4 * j + 1], cmyk@[4 * j + 3]),
            forall|j: int| 0 <= j < p ==> blue@[j] == complement(cmyk@[4 * j + 2], cmyk@[4 * j + 3]),
        decreases lanes - p,
    {
        let k: u8 = cmyk[4 * p + 3];
        red.push(lane(cmyk[4 * p], k));
        green.push(lane(cmyk[4 * p + 1], k));
        blue.push(lane(cmyk[4 * p + 2], k));
        p += 1;
    }
    let ghost before = rgb@;
    assert(rgb.len() == before.len());
    let mut q: usize = 0;
    while q < lanes
        invariant
            q <= lanes,
            at + 3 * lanes <= before.len() <= usize::MAX,
            rgb@.len() == before.len(),
            red@.len() == lanes,
            green@.len() == lanes,
            blue@.len() == lanes,
            forall|j: int| 0 <= j < lanes ==> red@[j] == complement(cmyk@[4 * j], cmyk@[4 * j + 3]),
            forall|j: int|
                0 <= j < lanes ==> green@[j] == complement(cmyk@[4 * j + 1], cmyk@[4 * j + 3]),
            forall|j: int|
                0 <= j < lanes ==> blue@[j] == complement(cmyk@[4 * j + 2], cmyk@[4 * j + 3]),
            forall|i: int|
                0 <= i < before.len() ==> (#[trigger] rgb@[i]) == (if at <= i < at + 3 * q {
                    rgb_byte(cmyk@, i - at)
                } else {
                    before[i]
                }),
        decreases lanes - q,
    {
        let o: usize = at + 3 * q;
        rgb[o] = red[q];
        rgb[o + 1] = green[q];
        rgb[o + 2] = blue[q];
        proof {
            let b = 3 * q as int;
            assert(b / 3 == q && b % 3 == 0);
            assert((b + 1) / 3 == q && (b + 1) % 3 == 1);
            assert((b + 2) / 3 == q && (b + 2) % 3 == 2);
        }
        q += 1;
    }
}

/// Convert 16 pixels in 16-bit lanes.
pub fn cmyk_to_rgb_x16(cmyk: &[u8; 64], rgb: &mut [u8])
    requires
        old(rgb)@.len() >= 48,
    ensures
        final(rgb)@ == matrix_rgb(cmyk@) + old(rgb)@.skip(48),
{
    let ghost before = rgb@;
    convert_lanes(cmyk.as_slice(), 16, rgb, 0);
    assert(rgb@ =~= matrix_rgb(cmyk@) + before.skip(48));
}

/// Convert 8 pixels in 16-bit lanes.
pub fn cmyk_to_rgb_x8(cmyk: &[u8; 32], rgb: &mut [u8])
    requires
        old(rgb)@.len() >= 24,
    ensures
        final(rgb)@ == matrix_rgb(cmyk@) + old(rgb)@.skip(24),
{
    let ghost before = rgb@;
    convert_lanes(cmyk.as_slice(), 8, rgb, 0);
    assert(rgb@ =~= matrix_rgb(cmyk@) + before.skip(24));
}

/// Convert the pixels of `cmyk` from pixel `first` on, one at a time.
fn cmyk_to_rgb_scalar(cmyk: &[u8], rgb: &mut [u8], first: usize)
    requires
        old(rgb)@.len() == cmyk@.len() / 4 * 3,
        first <= cmyk@.len() / 4,
    ensures
        final(rgb)@.len() == old(rgb)@.len(),
        forall|i: int| 0 <= i < 3 * first ==> (#[trigger] final(rgb)@[i]) == old(rgb)@[i],
        forall|i: int|
            3 * first <= i < old(rgb)@.len() ==> (#[trigger] final(rgb)@[i]) == rgb_byte(cmyk@, i),
{
    assert(cmyk.len() == cmyk@.len());
    let n: usize = cmyk.len() / 4;
    let mut p: usize = first;
    while p < n
        invariant
            first <= p <= n,
            n == cmyk@.len() / 4,
            cmyk@.len() <= usize::MAX,
            rgb@.len() == n * 3,
            old(rgb)@.len() == n * 3,
            forall|i: int| 0 <= i < 3 * first ==> (#[trigger] rgb@[i]) == old(rgb)@[i],
            forall|i: int|
                3 * first <= i < 3 * p ==> (#[trigger] rgb@[i]) == rgb_byte(cmyk@, i),
        decreases n - p,
    {
        let (r, g, b) = cmyk_to_rgb_reflectance(
            cmyk[4 * p],
            cmyk[4 * p + 1],
            cmyk[4 * p + 2],
            cmyk[4 * p + 3],
        );
        rgb[3 * p] = r;
        rgb[3 * p + 1] = g;
        rgb[3 * p + 2] = b;
        proof {
            let b = 3 * p as int;
            assert(b / 3 == p && b % 3 == 0);
            assert((b + 1) / 3 == p && (b + 1) % 3 == 1);
            assert((b + 2) / 3 == p && (b + 2) % 3 == 2);
        }
        p += 1;
    }
}

/// How many pixels the machine converts at a time.
#[derive(Debug, Clone, Copy, PartialEq, Eq, Structural)]
pub enum LaneTier {
    /// Sixteen, as with AVX-512.
    Sixteen,
    /// Eight, as with AVX2 and NEON.
    Eight,
    /// One.
    Scalar,
}

/// Convert a line in groups of the tier's size, and its rest one by one.  The
/// result does not depend on the tier.
pub fn dispatch_cmyk_matrix(cmyk: &[u8], rgb: &mut [u8], tier: LaneTier)
    requires
        old(rgb)@.len() == cmyk@.len() / 4 * 3,
    ensures
        final(rgb)@ == matrix_rgb(cmyk@),
{
    assert(cmyk.len() == cmyk@.len());
    let lanes: usize = match tier {
        LaneTier::Sixteen => 16,
        LaneTier::Eight => 8,
        LaneTier::Scalar => 0,
    };
    let n: usize = cmyk.len() / 4;
    let mut p: usize = 0;
    if lanes > 0 {
        while n - p >= lanes
            invariant
                0 < lanes <= 16,
                p <= n,
                n == cmyk@.len() / 4,
                cmyk@.len() <= usize::MAX,
                rgb@.len() == n * 3,
                forall|i: int| 0 <= i < 3 * p ==> (#[trigger] rgb@[i]) == rgb_byte(cmyk@, i),
            decreases n - p,
        {
            let group = slice_subrange(cmyk, 4 * p, 4 * (p + lanes));
            let ghost before = rgb@;
            convert_lanes(group, lanes, rgb, 3 * p);
            proof {
                assert forall|i: int| 0 <= i < 3 * (p + lanes) implies (#[trigger] rgb@[i])
                    == rgb_byte(cmyk@, i) by {
                    if i >= 3 * p {
                        let j = i - 3 * p;
                        assert(j / 3 == i / 3 - p && j % 3 == i % 3);
                        assert(group@[j / 3 * 4 + j % 3] == cmyk@[i / 3 * 4 + i % 3]);
                        assert(group@[j / 3 * 4 + 3] == cmyk@[i / 3 * 4 + 3]);
                    }
                }
            }
            p += lanes;
        }
    }
    cmyk_to_rgb_scalar(cmyk, rgb, p);
    assert(rgb@ =~= matrix_rgb(cmyk@));
}

/// RGB of a line of CMYK pixels without a colour table.
#[must_use]
pub fn icc_cmyk_to_rgb_cpu(cmyk: &[u8], tier: LaneTier) -> (rgb: Vec<u8>)
    ensures
        rgb@ == matrix_rgb(cmyk@),
{
    assert(cmyk.len() == cmyk@.len());
    let mut rgb: Vec<u8> = vec![0u8; cmyk.len() / 4 * 3];
    dispatch_cmyk_matrix(cmyk, rgb.as_mut_slice(), tier);
    rgb
}

/// Every pixel is converted on its own: whole pixels, and whatever follows
/// them, can be converted apart, on any lanes.
pub proof fn law_pixels_are_converted_apart(a: Seq<u8>, b: Seq<u8>)
    requires
        a.len() % 4 == 0,
    ensures
        matrix_rgb(a + b) == matrix_rgb(a) + matrix_rgb(b),
{
    let whole = a + b;
    let cut = a.len() / 4 * 3;
    assert(whole.len() / 4 == a.len() / 4 + b.len() / 4);
    assert forall|i: int| 0 <= i < matrix_rgb(whole).len() implies matrix_rgb(whole)[i] == (
    matrix_rgb(a) + matrix_rgb(b))[i] by {
        if i < cut {
            assert(whole[i / 3 * 4 + i % 3] == a[i / 3 * 4 + i % 3]);
            assert(whole[i / 3 * 4 + 3] == a[i / 3 * 4 + 3]);
        } else {
            let j = i - cut;
            assert(j / 3 == i / 3 - a.len() / 4 && j % 3 == i % 3);
            assert(whole[i / 3 * 4 + i % 3] == b[j / 3 * 4 + j % 3]);
            assert(whole[i / 3 * 4 + 3] == b[j / 3 * 4 + 3]);
        }
    }
    assert(matrix_rgb(whole) =~= matrix_rgb(a) + matrix_rgb(b));
}

/// Black covers everything, no black leaves the complement of the ink, and
/// more ink never lightens.
pub proof fn law_complement(x: u8, k: u8, x2: u8)
    ensures
        complement(x, 255) == 0,
        complement(255, k) == 0,
        complement(x, 0) == 255 - x,
        complement(0, k) == 255 - k,
        x <= x2 ==> complement(x2, k) <= complement(x, k),
{
    lemma_product(x, k);
    lemma_product(x2, k);
    lemma_product(x, 255);
    lemma_product(255, k);
    assert((255 - x) * (255 - 255u8) == 0) by (nonlinear_arith);
    assert((255 - 255u8) * (255 - k) == 0) by (nonlinear_arith);
    if x <= x2 {
        let a = 255 - x;
        let b = 255 - x2;
        let c = 255 - k;
        assert(b * c <= a * c) by (nonlinear_arith)
            requires
                b <= a,
                c >= 0,
        ;
    }
}

/// Every pixel gives three bytes: of each ink what is not covered of it,
/// times what is not covered of black, over 255 and rounded to the nearest.
pub proof fn law_channels_are_scaled_complements(cmyk: Seq<u8>, p: int, c: int)
    requires
        0 <= p < cmyk.len() / 4,
        0 <= c < 3,
    ensures
        matrix_rgb(cmyk).len() == cmyk.len() / 4 * 3,
        ({
            let light = (255 - cmyk[4 * p + c]) * (255 - cmyk[4 * p + 3]);
            light - 127 <= 255 * matrix_rgb(cmyk)[3 * p + c] <= light + 127
        }),
{
    let i = 3 * p + c;
    assert(i / 3 == p && i % 3 == c);
    lemma_product(cmyk[4 * p + c], cmyk[4 * p + 3]);
}

} // verus!
