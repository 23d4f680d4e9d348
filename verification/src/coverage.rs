//! Fill rules and sampled coverage.
//!
//! A pixel is sampled at 64 points.  A sample is inside by the winding
//! number: the signed count of the segments that a ray to the right crosses.

use vstd::prelude::*;

verus! {

/// Samples of a pixel.
pub const SAMPLES: u32 = 64;

/// Winding number of a sample: the sum of the directions of its crossings.
pub open spec fn winding(directions: Seq<i8>) -> int
    decreases directions.len(),
{
    if directions.len() == 0 {
        0
    } else {
        winding(directions.drop_last()) + directions.last()
    }
}

/// Whether a winding number is inside: odd by the even-odd rule, else not
/// zero.
pub open spec fn is_inside(w: int, eo: bool) -> bool {
    if eo {
        w % 2 != 0
    } else {
        w != 0
    }
}

/// Samples that are inside.
pub open spec fn hits(samples: Seq<bool>) -> nat
    decreases samples.len(),
{
    if samples.len() == 0 {
        0
    } else {
        hits(samples.drop_last()) + if samples.last() {
            1nat
        } else {
            0
        }
    }
}

/// Coverage of a pixel with `n` of its samples inside.
pub open spec fn coverage(n: nat) -> u8 {
    ((n * 255 + 32) / 64) as u8
}

/// Whether a sample is inside, from the directions of the segments that its
/// ray crosses: 1 for one that goes down, -1 for one that goes up.
pub fn aa_fill_cpu_sample(directions: &[i8], eo: bool) -> (inside: bool)
    requires
        directions@.len() <= i32::MAX,
        forall|i: int| 0 <= i < directions@.len() ==> -1 <= #[trigger] directions@[i] <= 1,
    ensures
        inside == is_inside(winding(directions@), eo),
{
    let mut w: i32 = 0;
    let mut i: usize = 0;
    while i < directions.len()
        invariant
            i <= directions@.len() <= i32::MAX,
            forall|j: int| 0 <= j < directions@.len() ==> -1 <= #[trigger] directions@[j] <= 1,
            w == winding(directions@.take(i as int)),
            -i <= w <= i,
        decreases directions@.len() - i,
    {
        proof {
            assert(directions@.take(i + 1).drop_last() =~= directions@.take(i as int));
            assert(-1 <= directions@[i as int] <= 1);
        }
        w = w + directions[i] as i32;
        i += 1;
    }
    assert(directions@.take(i as int) =~= directions@);
    if eo {
        assert((w & 1i32 != 0) == (w % 2 != 0)) by (bit_vector);
        (w & 1) != 0
    } else {
        w != 0
    }
}

/// Coverage byte of a pixel from the verdicts on its samples.
pub fn aa_fill_cpu_pixel(samples: &[bool]) -> (byte: u8)
    requires
        samples@.len() <= SAMPLES,
    ensures
        byte == coverage(hits(samples@)),
{
    let mut n: u32 = 0;
    let mut i: usize = 0;
    while i < samples.len()
        invariant
            i <= samples@.len() <= SAMPLES,
            n == hits(samples@.take(i as int)),
            n <= i,
        decreases samples@.len() - i,
    {
        proof {
            assert(samples@.take(i + 1).drop_last() =~= samples@.take(i as int));
        }
        if samples[i] {
            n += 1;
        }
        i += 1;
    }
    assert(samples@.take(i as int) =~= samples@);
    let scaled: u32 = n * 255 + 32;
    assert(scaled >> 6u32 == scaled / 64) by (bit_vector);
    (scaled >> 6u32) as u8
}

/// A pixel outside has no coverage, one inside has all of it, and more
/// samples inside never give less.
pub proof fn law_coverage_rises(n: nat, m: nat)
    requires
        n <= m <= SAMPLES,
    ensures
        coverage(0) == 0,
        coverage(64) == 255,
        coverage(n) <= coverage(m),
{
}

/// Reversing a path turns every winding number round and changes no sample by
/// either rule.
pub proof fn law_reversal_keeps_the_inside(directions: Seq<i8>, reversed: Seq<i8>, eo: bool)
    requires
        reversed.len() == directions.len(),
        forall|i: int| 0 <= i < directions.len() ==> -1 <= #[trigger] directions[i] <= 1,
        forall|i: int| 0 <= i < directions.len() ==> #[trigger] reversed[i] == -directions[i],
    ensures
        winding(reversed) == -winding(directions),
        is_inside(winding(reversed), eo) == is_inside(winding(directions), eo),
    decreases directions.len(),
{
    if directions.len() > 0 {
        let a = directions.drop_last();
        let b = reversed.drop_last();
        assert forall|i: int| 0 <= i < a.len() implies -1 <= #[trigger] a[i] <= 1 by {
            assert(a[i] == directions[i]);
        }
        assert forall|i: int| 0 <= i < a.len() implies #[trigger] b[i] == -a[i] by {
            assert(b[i] == reversed[i]);
        }
        law_reversal_keeps_the_inside(a, b, eo);
        assert(reversed[directions.len() - 1] == -directions[directions.len() - 1]);
    }
}

/// A direction counts for itself, wherever it stands.
proof fn lemma_winding_remove(directions: Seq<i8>, i: int)
    requires
        0 <= i < directions.len(),
    ensures
        winding(directions) == winding(directions.remove(i)) + directions[i],
    decreases directions.len(),
{
    if i == directions.len() - 1 {
        assert(directions.remove(i) =~= directions.drop_last());
    } else {
        lemma_winding_remove(directions.drop_last(), i);
        assert(directions.remove(i).drop_last() =~= directions.drop_last().remove(i));
    }
}

/// The order of the segments does not matter: the same crossings in another
/// order give the same winding number, and the same verdict by either rule.
pub proof fn law_order_of_crossings_does_not_matter(a: Seq<i8>, b: Seq<i8>, eo: bool)
    requires
        a.to_multiset() == b.to_multiset(),
    ensures
        winding(a) == winding(b),
        is_inside(winding(a), eo) == is_inside(winding(b), eo),
    decreases a.len(),
{
    broadcast use vstd::seq_lib::group_to_multiset_ensures;

    assert(a.len() == a.to_multiset().len());
    assert(b.len() == b.to_multiset().len());
    if a.len() > 0 {
        let x = a.last();
        assert(a.contains(a[a.len() - 1]));
        assert(b.to_multiset().count(x) > 0);
        assert(b.contains(x));
        let i = choose|i: int| 0 <= i < b.len() && b[i] == x;
        lemma_winding_remove(a, a.len() - 1);
        lemma_winding_remove(b, i);
        assert(a.remove(a.len() - 1).to_multiset() =~= b.remove(i).to_multiset());
        law_order_of_crossings_does_not_matter(a.remove(a.len() - 1), b.remove(i), eo);
    }
}

/// Two segments of opposite directions cancel.
pub proof fn law_opposite_crossings_cancel(directions: Seq<i8>, eo: bool)
    ensures
        is_inside(winding(directions.push(1i8).push(-1i8)), eo) == is_inside(
            winding(directions),
            eo,
        ),
{
    let one = directions.push(1i8);
    let both = one.push(-1i8);
    assert(both.drop_last() =~= one);
    assert(one.drop_last() =~= directions);
    assert(both.last() == -1i8);
    assert(winding(both) == winding(one) - 1);
    assert(winding(one) == winding(directions) + 1);
}

proof fn lemma_hits_are_the_inside(samples: Seq<bool>)
    ensures
        hits(samples) == samples.filter(|b: bool| b).len(),
    decreases samples.len(),
{
    reveal(Seq::filter);
    if samples.len() > 0 {
        lemma_hits_are_the_inside(samples.drop_last());
    }
}

/// Coverage is proportional to the samples inside: 255 times their share,
/// rounded to the nearest, and up from the middle.
pub proof fn law_coverage_is_proportional(samples: Seq<bool>)
    requires
        samples.len() <= SAMPLES,
    ensures
        ({
            let inside = samples.filter(|b: bool| b).len();
            255 * inside - 32 < 64 * coverage(hits(samples)) <= 255 * inside + 32
        }),
{
    lemma_hits_are_the_inside(samples);
    samples.lemma_filter_len(|b: bool| b);
}

proof fn lemma_winding_counts(directions: Seq<i8>)
    requires
        forall|i: int| 0 <= i < directions.len() ==> -1 <= #[trigger] directions[i] <= 1,
    ensures
        winding(directions) == directions.filter(|d: i8| d == 1).len() - directions.filter(
            |d: i8| d == -1,
        ).len(),
    decreases directions.len(),
{
    reveal(Seq::filter);
    if directions.len() > 0 {
        let rest = directions.drop_last();
        assert forall|i: int| 0 <= i < rest.len() implies -1 <= #[trigger] rest[i] <= 1 by {
            assert(rest[i] == directions[i]);
        }
        lemma_winding_counts(rest);
        assert(-1 <= directions[directions.len() - 1] <= 1);
    }
}

/// By the even-odd rule a sample is inside if its ray crosses the path an odd
/// number of times; by the other rule, if it crosses it more often one way
/// than the other.
pub proof fn law_rules_count_crossings(directions: Seq<i8>)
    requires
        forall|i: int| 0 <= i < directions.len() ==> -1 <= #[trigger] directions[i] <= 1,
    ensures
        ({
            let down = directions.filter(|d: i8| d == 1).len();
            let up = directions.filter(|d: i8| d == -1).len();
            &&& is_inside(winding(directions), true) == ((down + up) % 2 == 1)
            &&& is_inside(winding(directions), false) == (down != up)
        }),
{
    lemma_winding_counts(directions);
}

} // verus!
