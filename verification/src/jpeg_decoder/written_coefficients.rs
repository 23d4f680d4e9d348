//! That the coefficients of a coded image are extracted.

use super::coefficients::{ac_extracted, block_base, dc_passed, CoefState, CoefficientError};
use super::prepared::JpegPreparedInput;
use crate::jpeg::canonical::CanonicalEntry;
use crate::jpeg::written_blocks::{
    ac_stands, block_codable, block_stands, category, dc_stands, law_value_bits_extend_to_the_value,
    lemma_block_walked, lemma_symbol_read, lemma_zero_run, symbol_stands, value_stands, zero_run,
    CodeDef,
};
use crate::jpeg::written_scan::{Image, ScanPlan};
use vstd::prelude::*;

verus! {

/// `coef` with the coefficients of `block` from `zz` on behind `base`, as far
/// as they are not zero.
spec fn overlaid(coef: Seq<i32>, base: nat, block: Seq<i32>, zz: nat) -> Seq<i32> {
    Seq::new(
        coef.len(),
        |i: int|
            if base + zz <= i < base + 64 && block[i - base] != 0 {
                block[i - base]
            } else {
                coef[i]
            },
    )
}

/// The coded coefficients of a block are written behind `base`.
proof fn lemma_ac_extracted(
    src: Seq<u8>,
    p: int,
    d: CodeDef,
    block: Seq<i32>,
    zz: nat,
    q: int,
    base: nat,
    coef: Seq<i32>,
    mcu: u32,
    comp: usize,
)
    requires
        d.sound(),
        block_codable(block),
        1 <= zz <= 64,
        base + 64 <= coef.len(),
        ac_stands(src, p, d, block, zz, q),
    ensures
        ac_extracted(src, p, d.table(), zz, base, coef, mcu, comp) == Ok::<
            (int, Seq<i32>),
            CoefficientError,
        >((q, overlaid(coef, base, block, zz))),
    decreases 64 - zz,
{
    let run = zero_run(block, zz);
    lemma_zero_run(block, zz);
    if zz >= 64 {
        assert(overlaid(coef, base, block, zz) =~= coef);
    } else if zz + run >= 64 {
        lemma_symbol_read(src, p, d, 0, q);
        assert(overlaid(coef, base, block, zz) =~= coef) by {
            assert forall|i: int| base + zz <= i < base + 64 implies block[#[trigger] (i - base)]
                == 0 by {}
        }
    } else if run >= 16 {
        let m = choose|m: int| #[trigger]
            symbol_stands(src, p, d, 0xF0, m) && ac_stands(src, m, d, block, zz + 16, q);
        lemma_symbol_read(src, p, d, 0xF0, m);
        lemma_ac_extracted(src, m, d, block, zz + 16, q, base, coef, mcu, comp);
        assert(overlaid(coef, base, block, zz) =~= overlaid(coef, base, block, zz + 16));
    } else {
        let at = zz + run;
        let v = block[at as int] as int;
        let n = category(v);
        let m = choose|m: int| #[trigger]
            symbol_stands(src, p, d, 16 * run as int + n, m) && value_stands(src, m, v)
                && ac_stands(src, m + n, d, block, zz + run + 1, q);
        law_value_bits_extend_to_the_value(v);
        assert(n <= 15);
        assert(n > 0) by {
            if n == 0 {
                vstd::arithmetic::power2::lemma2_to64();
            }
        }
        lemma_symbol_read(src, p, d, 16 * run as int + n, m);
        let next = coef.update((base + at) as int, block[at as int]);
        lemma_ac_extracted(src, m + n, d, block, at + 1, q, base, next, mcu, comp);
        assert(overlaid(coef, base, block, zz) =~= overlaid(next, base, block, at + 1));
    }
}

/// The DC code of a coded block is passed over.
proof fn lemma_dc_passed(
    src: Seq<u8>,
    p: int,
    d: CodeDef,
    diff: int,
    q: int,
    mcu: u32,
    comp: usize,
)
    requires
        d.sound(),
        dc_stands(src, p, d, diff, q),
    ensures
        dc_passed(src, p, d.table(), mcu, comp) == Ok::<int, CoefficientError>(q),
{
    let n = category(diff);
    let m = choose|m: int| #[trigger]
        symbol_stands(src, p, d, n as int, m) && value_stands(src, m, diff) && q == m + n;
    lemma_symbol_read(src, p, d, n as int, m);
}

/// `plan` codes the stream of `prep`, without restarts.
pub open spec fn plan_of(prep: JpegPreparedInput, plan: ScanPlan) -> bool {
    &&& plan.sound()
    &&& plan.src == prep.bitstream.stream_bytes()
    &&& plan.restart_interval == 0
    &&& plan.mcus == prep.num_mcus()
    &&& plan.blocks.len() == prep.components@.len()
    &&& forall|c: int|
        0 <= c < plan.blocks.len() ==> {
            &&& #[trigger] plan.blocks[c] == prep.mcu_blocks(c)
            &&& prep.tables_for(c) == Ok::<
                (Seq<CanonicalEntry>, Seq<CanonicalEntry>),
                CoefficientError,
            >((plan.dc[c].table(), plan.ac[c].table()))
        }
}

/// The coefficient that stands in slot `z` of block `n` of a component once
/// `count` of its blocks are extracted.
spec fn expected(image: Image, c: int, n: int, z: int, count: nat) -> i32 {
    if n < count && z > 0 {
        image[c][n][z]
    } else {
        0
    }
}

spec fn cell_right(
    image: Image,
    coef: Seq<i32>,
    blocks_per_comp: nat,
    c: int,
    n: int,
    z: int,
    count: nat,
) -> bool {
    let i = block_base(c as nat, blocks_per_comp, n as nat) + z;
    &&& 0 <= i < coef.len()
    &&& coef[i] == expected(image, c, n, z, count)
}

/// `done` blocks of each component of this MCU, and those of all before it,
/// are extracted.
spec fn extracted_at(
    prep: JpegPreparedInput,
    plan: ScanPlan,
    image: Image,
    mcu: nat,
    done: spec_fn(int) -> nat,
    st: CoefState,
) -> bool {
    &&& st.counts.len() == plan.blocks.len()
    &&& forall|c: int|
        0 <= c < plan.blocks.len() ==> #[trigger] st.counts[c] == mcu * plan.blocks[c] + done(c)
    &&& st.coef.len() == plan.blocks.len() * prep.blocks_per_comp() * 64
    &&& forall|c: int, n: int, z: int|
        0 <= c < plan.blocks.len() && 0 <= n < prep.blocks_per_comp() && 0 <= z < 64
            ==> #[trigger] cell_right(
            image,
            st.coef,
            prep.blocks_per_comp(),
            c,
            n,
            z,
            st.counts[c],
        )
}

spec fn done_in(plan: ScanPlan, comp: nat, k: nat) -> spec_fn(int) -> nat {
    |c: int|
        if c < comp {
            plan.blocks[c]
        } else if c == comp {
            k
        } else {
            0
        }
}

/// Blocks of one layout do not overlap.
proof fn lemma_blocks_apart(bpc: nat, c: nat, n: nat, d: nat, m: nat)
    requires
        n < bpc,
        m < bpc,
        c != d || n != m,
    ensures
        block_base(c, bpc, n) + 64 <= block_base(d, bpc, m) || block_base(d, bpc, m) + 64
            <= block_base(c, bpc, n),
{
    if c < d {
        assert(c * bpc + bpc <= d * bpc) by (nonlinear_arith)
            requires
                c + 1 <= d,
        ;
    } else if d < c {
        assert(d * bpc + bpc <= c * bpc) by (nonlinear_arith)
            requires
                d + 1 <= c,
        ;
    }
}

proof fn lemma_base_fits(bpc: nat, comps: nat, c: nat, n: nat)
    requires
        c < comps,
        n < bpc,
    ensures
        block_base(c, bpc, n) + 64 <= comps * bpc * 64,
{
    assert(c * bpc + bpc <= comps * bpc) by (nonlinear_arith)
        requires
            c + 1 <= comps,
    ;
}

/// The count of a component's blocks before this one.
proof fn lemma_room(plan: ScanPlan, image: Image, mcu: nat, comp: nat, k: nat)
    requires
        plan.sound(),
        plan.fits(image),
        mcu < plan.mcus,
        comp < plan.blocks.len(),
        k < plan.blocks[comp as int],
    ensures
        0 <= mcu * plan.blocks[comp as int] + k < image[comp as int].len(),
{
    let b = plan.blocks[comp as int];
    assert(image[comp as int].len() == plan.mcus * b);
    assert(mcu * b + b <= plan.mcus * b) by (nonlinear_arith)
        requires
            mcu + 1 <= plan.mcus,
    ;
    assert(mcu * b >= 0) by (nonlinear_arith);
}

proof fn lemma_block(
    prep: JpegPreparedInput,
    plan: ScanPlan,
    image: Image,
    mcu: nat,
    comp: nat,
    k: nat,
    q: int,
    st: CoefState,
)
    requires
        plan_of(prep, plan),
        plan.fits(image),
        forall|c: int|
            0 <= c < image.len() ==> (#[trigger] image[c]).len() <= prep.blocks_per_comp(),
        mcu < plan.mcus,
        comp < plan.blocks.len(),
        k < plan.blocks[comp as int],
        ({
            let block = image[comp as int][(mcu * plan.blocks[comp as int] + k) as int];
            let diff = block[0] - plan.predicted(image, mcu, comp, k);
            &&& -2047 <= diff <= 2047
            &&& block_stands(
                plan.src,
                st.pos,
                plan.dc[comp as int],
                plan.ac[comp as int],
                diff,
                block,
                q,
            )
        }),
        extracted_at(prep, plan, image, mcu, done_in(plan, comp, k), st),
    ensures
        prep.block_extracted(
            plan.dc[comp as int].table(),
            plan.ac[comp as int].table(),
            mcu as u32,
            comp,
            st,
        ) matches Ok(next) && {
            &&& next.pos == q
            &&& extracted_at(prep, plan, image, mcu, done_in(plan, comp, k + 1), next)
        },
{
    let cc = comp as int;
    let bpc = prep.blocks_per_comp();
    lemma_room(plan, image, mcu, comp, k);
    let n0 = mcu * plan.blocks[cc] + k;
    let block = image[cc][n0 as int];
    assert(block_codable(image[cc][n0 as int]));
    let diff = block[0] - plan.predicted(image, mcu, comp, k);
    assert(plan.blocks[cc] > 0);
    assert(image[cc].len() <= bpc);
    let m = lemma_block_walked(
        plan.src,
        st.pos,
        plan.dc[cc],
        plan.ac[cc],
        diff,
        block,
        q,
        mcu as u32,
        comp as u8,
    );
    lemma_dc_passed(plan.src, st.pos, plan.dc[cc], diff, m, mcu as u32, comp as usize);
    assert(st.counts[cc] == n0);
    let base = block_base(comp, bpc, n0);
    lemma_base_fits(bpc, plan.blocks.len(), comp, n0);
    lemma_ac_extracted(
        plan.src,
        m,
        plan.ac[cc],
        block,
        1,
        q,
        base,
        st.coef,
        mcu as u32,
        comp as usize,
    );
    let next = prep.block_extracted(
        plan.dc[cc].table(),
        plan.ac[cc].table(),
        mcu as u32,
        comp,
        st,
    )->Ok_0;
    assert(next.coef == overlaid(st.coef, base, block, 1));
    assert(next.counts == st.counts.update(cc, n0 + 1));
    let done = done_in(plan, comp, k + 1);
    assert forall|c: int| 0 <= c < plan.blocks.len() implies #[trigger] next.counts[c] == mcu
        * plan.blocks[c] + done(c) by {
        if c != cc {
            assert(next.counts[c] == st.counts[c]);
            assert(done(c) == done_in(plan, comp, k)(c));
        }
    }
    assert forall|c: int, n: int, z: int|
        0 <= c < plan.blocks.len() && 0 <= n < bpc && 0 <= z < 64 implies #[trigger] cell_right(
        image,
        next.coef,
        bpc,
        c,
        n,
        z,
        next.counts[c],
    ) by {
        assert(cell_right(image, st.coef, bpc, c, n, z, st.counts[c]));
        if c != cc || n != n0 {
            lemma_blocks_apart(bpc, c as nat, n as nat, comp, n0);
        }
    }
}

proof fn lemma_blocks(
    prep: JpegPreparedInput,
    plan: ScanPlan,
    image: Image,
    mcu: nat,
    comp: nat,
    k: nat,
    q: int,
    st: CoefState,
)
    requires
        plan_of(prep, plan),
        plan.fits(image),
        forall|c: int|
            0 <= c < image.len() ==> (#[trigger] image[c]).len() <= prep.blocks_per_comp(),
        mcu < plan.mcus,
        comp < plan.blocks.len(),
        k <= plan.blocks[comp as int],
        plan.blocks_stand(image, mcu, comp, k, st.pos, q),
        extracted_at(prep, plan, image, mcu, done_in(plan, comp, k), st),
    ensures
        prep.blocks_extracted(
            plan.dc[comp as int].table(),
            plan.ac[comp as int].table(),
            mcu as u32,
            comp,
            k,
            st,
        ) matches Ok(end) && {
            &&& end.pos == q
            &&& extracted_at(
                prep,
                plan,
                image,
                mcu,
                done_in(plan, comp, plan.blocks[comp as int]),
                end,
            )
        },
    decreases plan.blocks[comp as int] - k,
{
    let cc = comp as int;
    assert(plan.blocks[cc] == prep.mcu_blocks(cc));
    if k < plan.blocks[cc] {
        let block = image[cc][(mcu * plan.blocks[cc] + k) as int];
        let diff = block[0] - plan.predicted(image, mcu, comp, k);
        let m = choose|m: int| #[trigger]
            block_stands(plan.src, st.pos, plan.dc[cc], plan.ac[cc], diff, block, m)
                && plan.blocks_stand(image, mcu, comp, k + 1, m, q);
        lemma_block(prep, plan, image, mcu, comp, k, m, st);
        let next = prep.block_extracted(
            plan.dc[cc].table(),
            plan.ac[cc].table(),
            mcu as u32,
            comp,
            st,
        )->Ok_0;
        lemma_blocks(prep, plan, image, mcu, comp, k + 1, q, next);
    }
}

proof fn lemma_components(
    prep: JpegPreparedInput,
    plan: ScanPlan,
    image: Image,
    mcu: nat,
    comp: nat,
    q: int,
    st: CoefState,
)
    requires
        plan_of(prep, plan),
        plan.fits(image),
        forall|c: int|
            0 <= c < image.len() ==> (#[trigger] image[c]).len() <= prep.blocks_per_comp(),
        mcu < plan.mcus,
        comp <= plan.blocks.len(),
        plan.components_stand(image, mcu, comp, st.pos, q),
        extracted_at(prep, plan, image, mcu, done_in(plan, comp, 0), st),
    ensures
        prep.components_extracted(mcu as u32, comp, st) matches Ok(end) && {
            &&& end.pos == q
            &&& extracted_at(prep, plan, image, mcu, done_in(plan, plan.blocks.len(), 0), end)
        },
    decreases plan.blocks.len() - comp,
{
    if comp < plan.blocks.len() {
        let m = choose|m: int| #[trigger]
            plan.blocks_stand(image, mcu, comp, 0, st.pos, m) && plan.components_stand(
                image,
                mcu,
                comp + 1,
                m,
                q,
            );
        assert(plan.blocks[comp as int] == prep.mcu_blocks(comp as int));
        lemma_blocks(prep, plan, image, mcu, comp, 0, m, st);
        let next = prep.blocks_extracted(
            plan.dc[comp as int].table(),
            plan.ac[comp as int].table(),
            mcu as u32,
            comp,
            0,
            st,
        )->Ok_0;
        assert(done_in(plan, comp, plan.blocks[comp as int]) =~= done_in(plan, comp + 1, 0));
        lemma_components(prep, plan, image, mcu, comp + 1, q, next);
    }
}

spec fn none_done() -> spec_fn(int) -> nat {
    |c: int| 0
}

proof fn lemma_mcus(
    prep: JpegPreparedInput,
    plan: ScanPlan,
    image: Image,
    mcu: nat,
    used: nat,
    st: CoefState,
)
    requires
        plan_of(prep, plan),
        plan.fits(image),
        forall|c: int|
            0 <= c < image.len() ==> (#[trigger] image[c]).len() <= prep.blocks_per_comp(),
        mcu <= plan.mcus,
        plan.mcus_stand(image, mcu, st.pos, used),
        extracted_at(prep, plan, image, mcu, none_done(), st),
    ensures
        prep.mcus_extracted(mcu, st) matches Ok(end) && extracted_at(
            prep,
            plan,
            image,
            plan.mcus,
            none_done(),
            end,
        ),
    decreases plan.mcus - mcu,
{
    if mcu < plan.mcus {
        let m = choose|m: int| #[trigger]
            plan.components_stand(image, mcu, 0, st.pos, m) && plan.mcus_stand(
                image,
                mcu + 1,
                m,
                used,
            );
        assert forall|c: int| 0 <= c < plan.blocks.len() implies #[trigger] st.counts[c] == mcu
            * plan.blocks[c] + done_in(plan, 0, 0)(c) by {}
        lemma_components(prep, plan, image, mcu, 0, m, st);
        let next = prep.components_extracted(mcu as u32, 0, st)->Ok_0;
        let all = done_in(plan, plan.blocks.len(), 0);
        assert forall|c: int| 0 <= c < plan.blocks.len() implies #[trigger] next.counts[c] == (mcu
            + 1) * plan.blocks[c] + none_done()(c) by {
            assert(all(c) == plan.blocks[c]);
            assert((mcu + 1) * plan.blocks[c] == mcu * plan.blocks[c] + plan.blocks[c])
                by (nonlinear_arith);
        }
        lemma_mcus(prep, plan, image, mcu + 1, used, next);
    }
}

/// A coded image gives its coefficients back: every coefficient but the DC
/// value stands at its component, block and zigzag slot, the DC slots are
/// zero, and so is all that no block fills.
pub proof fn law_coded_coefficients_come_back(
    prep: JpegPreparedInput,
    plan: ScanPlan,
    image: Image,
    c: nat,
    n: nat,
    z: nat,
)
    requires
        plan_of(prep, plan),
        plan.fits(image),
        forall|i: int|
            0 <= i < image.len() ==> (#[trigger] image[i]).len() <= prep.blocks_per_comp(),
        plan.mcus_stand(image, 0, 0, 0),
        c < image.len(),
        n < prep.blocks_per_comp(),
        z < 64,
    ensures
        prep.mcus_extracted(0, prep.blank_coefs()) matches Ok(end) && {
            let i = (c * prep.blocks_per_comp() + n) * 64 + z;
            &&& i < end.coef.len()
            &&& end.coef[i as int] == if z == 0 || n >= image[c as int].len() {
                0
            } else {
                image[c as int][n as int][z as int]
            }
        },
{
    let st = prep.blank_coefs();
    let bpc = prep.blocks_per_comp();
    assert forall|d: int| 0 <= d < plan.blocks.len() implies #[trigger] st.counts[d] == 0
        * plan.blocks[d] + none_done()(d) by {
        assert(0 * plan.blocks[d] == 0) by (nonlinear_arith);
    }
    assert forall|d: int, m: int, y: int|
        0 <= d < plan.blocks.len() && 0 <= m < bpc && 0 <= y < 64 implies #[trigger] cell_right(
        image,
        st.coef,
        bpc,
        d,
        m,
        y,
        st.counts[d],
    ) by {
        lemma_base_fits(bpc, plan.blocks.len(), d as nat, m as nat);
    }
    lemma_mcus(prep, plan, image, 0, 0, st);
    let end = prep.mcus_extracted(0, st)->Ok_0;
    assert(image[c as int].len() == plan.mcus * plan.blocks[c as int]);
    assert(end.counts[c as int] == image[c as int].len());
    assert(cell_right(
        image,
        end.coef,
        bpc,
        c as int,
        n as int,
        z as int,
        end.counts[c as int],
    ));
}

} // verus!
