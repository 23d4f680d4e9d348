//! Scans as they are coded, and that their DC values are resolved.

use super::canonical::CanonicalEntry;
use super::dc_chain::{
    block_walked, blocks_walked, component_index, components_walked, dc_chain, first_unknown,
    mcus_walked, restarted, restarts_at, step_of, steps_from, total_blocks, ChainModel, ChainState,
    DcChainError, StepModel, MAX_SAFE_MCUS,
};
use super::geometry::frame_mcus;
use super::header_spec::HeadersModel;
use super::headers::{JpegFrameComponent, JpegScanComponent};
use super::unstuff::RstPosition;
use super::written_blocks::{block_codable, block_stands, lemma_block_walked, CodeDef};
use vstd::prelude::*;

verus! {

/// What a scan is coded with: for each component its blocks in an MCU and its
/// tables, the MCUs, and where the restart markers stood.
pub struct ScanPlan {
    pub src: Seq<u8>,
    pub rsts: Seq<RstPosition>,
    pub restart_interval: nat,
    pub mcus: nat,
    pub blocks: Seq<nat>,
    pub dc: Seq<CodeDef>,
    pub ac: Seq<CodeDef>,
}

/// The coefficients of an image: of each component its blocks, in the order
/// in which the scan has them.
pub type Image = Seq<Seq<Seq<i32>>>;

impl ScanPlan {
    /// A scan of one to four components that all have blocks and tables.
    pub open spec fn sound(self) -> bool {
        &&& 1 <= self.blocks.len() <= 4
        &&& self.dc.len() == self.blocks.len()
        &&& self.ac.len() == self.blocks.len()
        &&& self.mcus <= u32::MAX
        &&& forall|c: int|
            0 <= c < self.blocks.len() ==> (#[trigger] self.blocks[c]) > 0 && self.dc[c].sound()
                && self.ac[c].sound()
    }

    /// The image has the blocks that the scan codes, within the baseline
    /// limits.
    pub open spec fn fits(self, image: Image) -> bool {
        &&& image.len() == self.blocks.len()
        &&& forall|c: int|
            0 <= c < image.len() ==> (#[trigger] image[c]).len() == self.mcus * self.blocks[c]
        &&& forall|c: int, n: int|
            #![trigger image[c][n]]
            0 <= c < image.len() && 0 <= n < image[c].len() ==> block_codable(image[c][n])
    }

    /// Whether this MCU starts a stretch of its own: the first, and each
    /// behind a restart marker.
    pub open spec fn starts_afresh(self, mcu: nat) -> bool {
        mcu == 0 || (self.restart_interval > 0 && mcu % self.restart_interval == 0)
    }

    /// What the DC value of block `k` of a component of this MCU is coded
    /// against: the block before it of the same component, or zero at the
    /// start of a stretch.
    pub open spec fn predicted(self, image: Image, mcu: nat, comp: nat, k: nat) -> int {
        if k == 0 && self.starts_afresh(mcu) {
            0
        } else {
            image[comp as int][mcu * self.blocks[comp as int] + k - 1][0] as int
        }
    }

    /// Blocks `k` and up of a component of an MCU stand at bit `p` and end at
    /// `q`.
    pub open spec fn blocks_stand(
        self,
        image: Image,
        mcu: nat,
        comp: nat,
        k: nat,
        p: int,
        q: int,
    ) -> bool
        decreases self.blocks[comp as int] - k,
    {
        if k >= self.blocks[comp as int] {
            p == q
        } else {
            let block = image[comp as int][(mcu * self.blocks[comp as int] + k) as int];
            let diff = block[0] - self.predicted(image, mcu, comp, k);
            &&& -2047 <= diff <= 2047
            &&& exists|m: int| #[trigger]
                block_stands(
                    self.src,
                    p,
                    self.dc[comp as int],
                    self.ac[comp as int],
                    diff,
                    block,
                    m,
                ) && self.blocks_stand(image, mcu, comp, k + 1, m, q)
        }
    }

    /// Components `comp` and up of an MCU stand at bit `p` and end at `q`.
    pub open spec fn components_stand(
        self,
        image: Image,
        mcu: nat,
        comp: nat,
        p: int,
        q: int,
    ) -> bool
        decreases self.blocks.len() - comp,
    {
        if comp >= self.blocks.len() {
            p == q
        } else {
            exists|m: int| #[trigger]
                self.blocks_stand(image, mcu, comp, 0, p, m) && self.components_stand(
                    image,
                    mcu,
                    comp + 1,
                    m,
                    q,
                )
        }
    }

    /// MCUs `mcu` and up stand at bit `p`, or behind the next restart marker
    /// where one belongs; `used` markers came before.
    pub open spec fn mcus_stand(self, image: Image, mcu: nat, p: int, used: nat) -> bool
        decreases self.mcus - mcu,
    {
        if mcu >= self.mcus {
            true
        } else {
            let marked = mcu > 0 && self.starts_afresh(mcu);
            let start = if marked {
                8 * self.rsts[used as int].byte_offset_in_dst
            } else {
                p
            };
            let now_used = if marked {
                used + 1
            } else {
                used
            };
            &&& marked ==> used < self.rsts.len() && self.rsts[used as int].byte_offset_in_dst
                <= self.src.len()
            &&& exists|m: int| #[trigger]
                self.components_stand(image, mcu, 0, start, m) && self.mcus_stand(
                    image,
                    mcu + 1,
                    m,
                    now_used,
                )
        }
    }

    /// The walk over the scan.
    pub open spec fn walk(self) -> ChainModel {
        ChainModel {
            src: self.src,
            rsts: self.rsts,
            restart_interval: self.restart_interval,
            mcus: self.mcus,
            steps: Seq::new(
                self.blocks.len(),
                |c: int|
                    StepModel {
                        blocks: self.blocks[c],
                        dc: self.dc[c].table(),
                        ac: self.ac[c].table(),
                    },
            ),
        }
    }

    /// `done` values of each component are those of the image, and each
    /// predictor is what the next block is coded against.
    spec fn walk_at(
        self,
        image: Image,
        mcu: nat,
        done: spec_fn(int) -> nat,
        st: ChainState,
    ) -> bool {
        &&& st.predictor.len() == 4
        &&& st.values.len() == self.blocks.len()
        &&& forall|c: int|
            0 <= c < self.blocks.len() ==> {
                &&& (#[trigger] st.values[c]).len() == mcu * self.blocks[c] + done(c)
                &&& st.values[c].len() <= image[c].len()
                &&& st.predictor[c] == self.next_predictor(image, mcu, c, done(c))
                &&& forall|n: int|
                    0 <= n < st.values[c].len() ==> #[trigger] st.values[c][n] == image[c][n][0]
            }
    }

    spec fn next_predictor(self, image: Image, mcu: nat, c: int, done: nat) -> i32 {
        if done == 0 && self.starts_afresh(mcu) {
            0
        } else {
            image[c][mcu * self.blocks[c] + done - 1][0]
        }
    }

    spec fn done_in(self, comp: nat, k: nat) -> spec_fn(int) -> nat {
        |c: int|
            if c < comp {
                self.blocks[c]
            } else if c == comp {
                k
            } else {
                0
            }
    }

    proof fn lemma_room(self, image: Image, mcu: nat, comp: nat, k: nat)
        requires
            self.sound(),
            self.fits(image),
            mcu < self.mcus,
            comp < self.blocks.len(),
            k < self.blocks[comp as int],
        ensures
            0 <= mcu * self.blocks[comp as int] + k < image[comp as int].len(),
    {
        let b = self.blocks[comp as int];
        assert(image[comp as int].len() == self.mcus * b);
        assert(mcu * b + b <= self.mcus * b) by (nonlinear_arith)
            requires
                mcu + 1 <= self.mcus,
        ;
        assert(mcu * b >= 0) by (nonlinear_arith);
    }

    proof fn lemma_blocks(
        self,
        image: Image,
        mcu: nat,
        comp: nat,
        k: nat,
        q: int,
        st: ChainState,
    )
        requires
            self.sound(),
            self.fits(image),
            mcu < self.mcus,
            comp < self.blocks.len(),
            k <= self.blocks[comp as int],
            self.blocks_stand(image, mcu, comp, k, st.pos, q),
            self.walk_at(image, mcu, self.done_in(comp, k), st),
        ensures
            blocks_walked(self.walk(), mcu as u32, comp, k, st) matches Ok(end) && {
                &&& end.pos == q
                &&& end.rsts_used == st.rsts_used
                &&& self.walk_at(
                    image,
                    mcu,
                    self.done_in(comp, self.blocks[comp as int]),
                    end,
                )
            },
        decreases self.blocks[comp as int] - k,
    {
        let c = comp as int;
        assert(self.walk().steps[c].blocks == self.blocks[c]);
        if k < self.blocks[c] {
            self.lemma_room(image, mcu, comp, k);
            let n = mcu * self.blocks[c] + k;
            let block = image[c][n as int];
            assert(block_codable(image[c][n as int]));
            let diff = block[0] - self.predicted(image, mcu, comp, k);
            let m = choose|m: int| #[trigger]
                block_stands(self.src, st.pos, self.dc[c], self.ac[c], diff, block, m)
                    && self.blocks_stand(image, mcu, comp, k + 1, m, q);
            assert(self.blocks[c] > 0);
            let _ = lemma_block_walked(
                self.src,
                st.pos,
                self.dc[c],
                self.ac[c],
                diff,
                block,
                m,
                mcu as u32,
                comp as u8,
            );
            assert(st.values[c].len() == n);
            assert(st.predictor[c] == self.predicted(image, mcu, comp, k));
            let next = block_walked(self.walk(), mcu as u32, comp, st)->Ok_0;
            assert(block_walked(self.walk(), mcu as u32, comp, st) is Ok);
            assert(next.values[c] == st.values[c].push(block[0]));
            let done = self.done_in(comp, k + 1);
            assert forall|i: int| 0 <= i < self.blocks.len() implies {
                &&& (#[trigger] next.values[i]).len() == mcu * self.blocks[i] + done(i)
                &&& next.values[i].len() <= image[i].len()
                &&& next.predictor[i] == self.next_predictor(image, mcu, i, done(i))
                &&& forall|n: int|
                    0 <= n < next.values[i].len() ==> #[trigger] next.values[i][n]
                        == image[i][n][0]
            } by {
                if i != c {
                    assert(next.values[i] == st.values[i]);
                    assert(done(i) == self.done_in(comp, k)(i));
                }
            }
            self.lemma_blocks(image, mcu, comp, k + 1, q, next);
        }
    }

    proof fn lemma_components(self, image: Image, mcu: nat, comp: nat, q: int, st: ChainState)
        requires
            self.sound(),
            self.fits(image),
            mcu < self.mcus,
            comp <= self.blocks.len(),
            self.components_stand(image, mcu, comp, st.pos, q),
            self.walk_at(image, mcu, self.done_in(comp, 0), st),
        ensures
            components_walked(self.walk(), mcu as u32, comp, st) matches Ok(end) && {
                &&& end.pos == q
                &&& end.rsts_used == st.rsts_used
                &&& self.walk_at(image, mcu, self.done_in(self.blocks.len(), 0), end)
            },
        decreases self.blocks.len() - comp,
    {
        if comp < self.blocks.len() {
            let m = choose|m: int| #[trigger]
                self.blocks_stand(image, mcu, comp, 0, st.pos, m) && self.components_stand(
                    image,
                    mcu,
                    comp + 1,
                    m,
                    q,
                );
            self.lemma_blocks(image, mcu, comp, 0, m, st);
            let next = blocks_walked(self.walk(), mcu as u32, comp, 0, st)->Ok_0;
            let a = self.done_in(comp, self.blocks[comp as int]);
            let b = self.done_in(comp + 1, 0);
            assert(a =~= b);
            self.lemma_components(image, mcu, comp + 1, q, next);
        }
    }

    spec fn last_value(self, image: Image, mcu: nat, c: int) -> i32 {
        if mcu == 0 {
            0
        } else {
            image[c][mcu * self.blocks[c] - 1][0]
        }
    }

    /// The walk between two MCUs: the values so far are those of the image,
    /// and each predictor is the last of them.
    spec fn walk_between(self, image: Image, mcu: nat, st: ChainState) -> bool {
        &&& st.predictor.len() == 4
        &&& st.values.len() == self.blocks.len()
        &&& forall|c: int|
            0 <= c < self.blocks.len() ==> {
                &&& (#[trigger] st.values[c]).len() == mcu * self.blocks[c]
                &&& st.predictor[c] == self.last_value(image, mcu, c)
                &&& forall|n: int|
                    0 <= n < st.values[c].len() ==> #[trigger] st.values[c][n] == image[c][n][0]
            }
    }

    proof fn lemma_enter_mcu(self, image: Image, mcu: nat, st: ChainState)
        requires
            self.sound(),
            self.fits(image),
            mcu < self.mcus,
            mcu > 0 && self.starts_afresh(mcu) ==> st.rsts_used < self.rsts.len(),
            self.walk_between(image, mcu, st),
        ensures
            self.walk_at(image, mcu, self.done_in(0, 0), restarted(self.walk(), mcu, st)),
    {
        let fresh = restarted(self.walk(), mcu, st);
        let done = self.done_in(0, 0);
        assert forall|c: int| 0 <= c < self.blocks.len() implies {
            &&& (#[trigger] fresh.values[c]).len() == mcu * self.blocks[c] + done(c)
            &&& fresh.values[c].len() <= image[c].len()
            &&& fresh.predictor[c] == self.next_predictor(image, mcu, c, done(c))
            &&& forall|n: int|
                0 <= n < fresh.values[c].len() ==> #[trigger] fresh.values[c][n] == image[c][n][0]
        } by {
            assert(fresh.values[c] == st.values[c]);
            assert(self.blocks[c] > 0);
            self.lemma_room(image, mcu, c as nat, 0);
            if self.starts_afresh(mcu) {
                assert(fresh.predictor[c] == 0);
            } else {
                assert(fresh.predictor[c] == st.predictor[c]);
            }
        }
    }

    proof fn lemma_leave_mcu(self, image: Image, mcu: nat, st: ChainState)
        requires
            self.sound(),
            self.walk_at(image, mcu, self.done_in(self.blocks.len(), 0), st),
        ensures
            self.walk_between(image, mcu + 1, st),
    {
        let all = self.done_in(self.blocks.len(), 0);
        assert forall|c: int| 0 <= c < self.blocks.len() implies {
            &&& (#[trigger] st.values[c]).len() == (mcu + 1) * self.blocks[c]
            &&& st.predictor[c] == self.last_value(image, mcu + 1, c)
            &&& forall|n: int|
                0 <= n < st.values[c].len() ==> #[trigger] st.values[c][n] == image[c][n][0]
        } by {
            let b = self.blocks[c];
            assert(b > 0);
            assert(all(c) == b);
            assert((mcu + 1) * b == mcu * b + b) by (nonlinear_arith);
        }
    }

    proof fn lemma_mcus(self, image: Image, mcu: nat, st: ChainState)
        requires
            self.sound(),
            self.fits(image),
            mcu <= self.mcus,
            self.mcus_stand(image, mcu, st.pos, st.rsts_used),
            self.walk_between(image, mcu, st),
        ensures
            mcus_walked(self.walk(), mcu, st) matches Ok(end) && self.walk_between(
                image,
                self.mcus,
                end,
            ),
        decreases self.mcus - mcu,
    {
        if mcu < self.mcus {
            let marked = mcu > 0 && self.starts_afresh(mcu);
            let fresh = restarted(self.walk(), mcu, st);
            assert(marked == restarts_at(self.restart_interval, mcu));
            let m = choose|m: int| #[trigger]
                self.components_stand(image, mcu, 0, fresh.pos, m) && self.mcus_stand(
                    image,
                    mcu + 1,
                    m,
                    fresh.rsts_used,
                );
            self.lemma_enter_mcu(image, mcu, st);
            self.lemma_components(image, mcu, 0, m, fresh);
            let next = components_walked(self.walk(), mcu as u32, 0, fresh)->Ok_0;
            self.lemma_leave_mcu(image, mcu, next);
            self.lemma_mcus(image, mcu + 1, next);
        }
    }
}

/// A coded scan resolves to the DC values that were coded: each component has
/// its own chain, which starts at zero and starts again behind every restart
/// marker, whatever the other components hold.
pub proof fn law_coded_dc_values_come_back(
    plan: ScanPlan,
    image: Image,
    headers: HeadersModel,
    dc_books: Seq<Option<Seq<CanonicalEntry>>>,
    ac_books: Seq<Option<Seq<CanonicalEntry>>>,
)
    requires
        plan.sound(),
        plan.fits(image),
        plan.mcus_stand(image, 0, 0, 0),
        ({
            let frame = headers.frame.frame.take(headers.frame.components as int);
            let scan = headers.scan.components.take(headers.scan.component_count as int);
            &&& headers.scan.components.len() == 4
            &&& headers.scan.component_count == plan.blocks.len()
            &&& headers.frame.restart_interval == plan.restart_interval
            &&& first_unknown(scan, frame, 0) is None
            &&& frame_mcus(headers.frame.width as nat, headers.frame.height as nat, frame)
                == plan.mcus
            &&& steps_from(scan, frame, dc_books, ac_books, 0, Seq::empty()) == Ok::<
                Seq<StepModel>,
                DcChainError,
            >(plan.walk().steps)
            &&& plan.mcus * total_blocks(plan.walk().steps) <= MAX_SAFE_MCUS * 16
        }),
    ensures
        dc_chain(headers, plan.src, plan.rsts, dc_books, ac_books) matches Ok(values) && {
            &&& values.len() == image.len()
            &&& forall|c: int|
                0 <= c < image.len() ==> {
                    &&& (#[trigger] values[c]).len() == image[c].len()
                    &&& forall|n: int|
                        0 <= n < image[c].len() ==> #[trigger] values[c][n] == image[c][n][0]
                }
        },
{
    let scan = headers.scan.components.take(headers.scan.component_count as int);
    let start = ChainState {
        pos: 0,
        rsts_used: 0,
        predictor: seq![0i32, 0i32, 0i32, 0i32],
        values: Seq::new(scan.len(), |i: int| Seq::empty()),
    };
    assert(plan.walk_between(image, 0, start));
    plan.lemma_mcus(image, 0, start);
    if let Ok(end) = mcus_walked(plan.walk(), 0, start) {
        assert forall|c: int| 0 <= c < image.len() implies (#[trigger] end.values[c]).len()
            == image[c].len() by {
            assert(image[c].len() == plan.mcus * plan.blocks[c]);
        }
    }
}

/// In a walked MCU a block adds its difference to the predictor of its own
/// component and to no other, and its value goes behind that component's
/// values and to no other.
pub proof fn law_components_are_predicted_apart(
    c: ChainModel,
    mcu: u32,
    comp: nat,
    st: ChainState,
    other: int,
)
    requires
        comp < st.predictor.len(),
        comp < st.values.len(),
        0 <= other < st.predictor.len(),
        0 <= other < st.values.len(),
    ensures
        block_walked(c, mcu, comp, st) matches Ok(next) ==> {
            &&& other != comp ==> next.predictor[other] == st.predictor[other]
            &&& other != comp ==> next.values[other] == st.values[other]
            &&& next.values[comp as int].len() == st.values[comp as int].len() + 1
            &&& next.values[comp as int].last() == next.predictor[comp as int]
            &&& next.values[comp as int].drop_last() == st.values[comp as int]
        },
{
    if let Ok(next) = block_walked(c, mcu, comp, st) {
        assert(next.values[comp as int].drop_last() =~= st.values[comp as int]);
    }
}

/// What each component of a scan needs is its own: the blocks of the frame
/// component with its identifier, one in a scan of its own, and the tables
/// that its selectors name.
pub proof fn law_steps_are_the_components_own(
    scan: Seq<JpegScanComponent>,
    frame: Seq<JpegFrameComponent>,
    dc_books: Seq<Option<Seq<CanonicalEntry>>>,
    ac_books: Seq<Option<Seq<CanonicalEntry>>>,
    k: int,
)
    requires
        0 <= k < scan.len(),
        first_unknown(scan, frame, 0) is None,
    ensures
        steps_from(scan, frame, dc_books, ac_books, 0, Seq::empty()) matches Ok(steps) ==> {
            &&& steps.len() == scan.len()
            &&& dc_books[scan[k].dc_table as int] == Some(steps[k].dc)
            &&& ac_books[scan[k].ac_table as int] == Some(steps[k].ac)
            &&& exists|i: int| #[trigger]
                first_with_id(frame, scan[k].id, i) && steps[k].blocks == if scan.len() == 1 {
                    1
                } else {
                    frame[i].h_sampling * frame[i].v_sampling
                }
        },
{
    lemma_known(scan, frame, 0, k);
    lemma_component_index(frame, scan[k].id, 0);
    lemma_steps(scan, frame, dc_books, ac_books, 0, Seq::empty(), k);
    let i = component_index(frame, scan[k].id, 0)->0;
    assert(first_with_id(frame, scan[k].id, i));
}

/// Frame component `i` is the first with this identifier.
pub open spec fn first_with_id(frame: Seq<JpegFrameComponent>, id: u8, i: int) -> bool {
    &&& 0 <= i < frame.len()
    &&& frame[i].id == id
    &&& forall|j: int| 0 <= j < i ==> (#[trigger] frame[j]).id != id
}

pub proof fn lemma_component_index(frame: Seq<JpegFrameComponent>, id: u8, i: int)
    requires
        0 <= i <= frame.len(),
    ensures
        match component_index(frame, id, i) {
            Some(j) => i <= j < frame.len() && frame[j].id == id && forall|l: int|
                i <= l < j ==> (#[trigger] frame[l]).id != id,
            None => forall|l: int| i <= l < frame.len() ==> (#[trigger] frame[l]).id != id,
        },
    decreases frame.len() - i,
{
    if i < frame.len() && frame[i].id != id {
        lemma_component_index(frame, id, i + 1);
    }
}

proof fn lemma_known(
    scan: Seq<JpegScanComponent>,
    frame: Seq<JpegFrameComponent>,
    k: int,
    j: int,
)
    requires
        0 <= k <= j < scan.len(),
        first_unknown(scan, frame, k) is None,
    ensures
        component_index(frame, scan[j].id, 0) is Some,
    decreases j - k,
{
    if k < j {
        lemma_known(scan, frame, k + 1, j);
    }
}

proof fn lemma_steps(
    scan: Seq<JpegScanComponent>,
    frame: Seq<JpegFrameComponent>,
    dc_books: Seq<Option<Seq<CanonicalEntry>>>,
    ac_books: Seq<Option<Seq<CanonicalEntry>>>,
    k: int,
    done: Seq<StepModel>,
    j: int,
)
    requires
        0 <= k <= scan.len(),
        done.len() == k,
        0 <= j < scan.len(),
    ensures
        steps_from(scan, frame, dc_books, ac_books, k, done) matches Ok(steps) ==> {
            &&& steps.len() == scan.len()
            &&& j < k ==> steps[j] == done[j]
            &&& j >= k ==> step_of(scan, frame, dc_books, ac_books, j) == Ok::<
                StepModel,
                DcChainError,
            >(steps[j])
        },
    decreases scan.len() - k,
{
    if k < scan.len() {
        if let Ok(step) = step_of(scan, frame, dc_books, ac_books, k) {
            lemma_steps(scan, frame, dc_books, ac_books, k + 1, done.push(step), j);
        }
    }
}

} // verus!
