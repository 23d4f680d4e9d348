//! Compiled pipelines, one slot for each kernel.
//!
//! A pipeline is built when its kernel is first dispatched.  Two threads may
//! build the same one; the first to install its handle wins, and the other
//! gets its own back to destroy.

use crate::backend::kernels::{KernelId, NUM_KERNELS};
use vstd::prelude::*;

verus! {

/// The handles of the pipelines that are built.
pub struct PipelineSlots<H> {
    slots: Vec<Option<H>>,
}

impl<H> View for PipelineSlots<H> {
    type V = Seq<Option<H>>;

    closed spec fn view(&self) -> Seq<Option<H>> {
        self.slots@
    }
}

impl<H> PipelineSlots<H> {
    pub open spec fn wf(&self) -> bool {
        self@.len() == NUM_KERNELS
    }

    /// No pipeline is built.
    #[must_use]
    pub fn new() -> (s: Self)
        ensures
            s.wf(),
            forall|i: int| 0 <= i < NUM_KERNELS ==> (#[trigger] s@[i]) is None,
    {
        let mut slots: Vec<Option<H>> = Vec::new();
        let mut i: usize = 0;
        while i < NUM_KERNELS
            invariant
                i <= NUM_KERNELS,
                slots@.len() == i,
                forall|j: int| 0 <= j < i ==> (#[trigger] slots@[j]) is None,
            decreases NUM_KERNELS - i,
        {
            slots.push(None);
            i += 1;
        }
        PipelineSlots { slots }
    }

    /// The kernel's pipeline, if it is built.
    #[must_use]
    pub fn get(&self, id: KernelId) -> (h: Option<&H>)
        requires
            self.wf(),
        ensures
            match h {
                Some(v) => self@[id.slot() as int] == Some(*v),
                None => self@[id.slot() as int] is None,
            },
    {
        self.slots[id.slot_index()].as_ref()
    }

    /// Install a pipeline that was just built.  Where another one was
    /// installed before, that one stays and this one comes back.
    pub fn install(&mut self, id: KernelId, built: H) -> (extra: Option<H>)
        requires
            old(self).wf(),
        ensures
            final(self).wf(),
            if old(self)@[id.slot() as int] is None {
                extra is None && final(self)@ == old(self)@.update(id.slot() as int, Some(built))
            } else {
                extra == Some(built) && final(self)@ == old(self)@
            },
    {
        let i: usize = id.slot_index();
        if self.slots[i].is_some() {
            return Some(built);
        }
        self.slots.set(i, Some(built));
        None
    }

    /// All pipelines that are built, to be destroyed.
    pub fn into_built(self) -> (built: Vec<H>)
        requires
            self.wf(),
        ensures
            built@ == built_of(self@),
    {
        let mut slots: Vec<Option<H>> = self.slots;
        let ghost all = slots@;
        let mut built: Vec<H> = Vec::new();
        let mut i: usize = 0;
        while slots.len() > 0
            invariant
                i + slots@.len() == all.len(),
                all.len() == NUM_KERNELS,
                slots@ == all.skip(i as int),
                built@ == built_of(all.take(i as int)),
            decreases slots@.len(),
        {
            let head: Option<H> = slots.remove(0);
            proof {
                assert(head == all[i as int]);
                assert(all.take(i + 1).drop_last() =~= all.take(i as int));
                assert(slots@ =~= all.skip(i + 1));
            }
            match head {
                None => {},
                Some(h) => {
                    built.push(h);
                },
            }
            i += 1;
        }
        assert(all.take(i as int) =~= all);
        built
    }
}

/// The handles of the slots that hold one, in the slots' order.
pub open spec fn built_of<H>(slots: Seq<Option<H>>) -> Seq<H>
    decreases slots.len(),
{
    if slots.len() == 0 {
        Seq::empty()
    } else {
        match slots.last() {
            None => built_of(slots.drop_last()),
            Some(h) => built_of(slots.drop_last()).push(h),
        }
    }
}

/// A pipeline that is installed is never replaced.
pub proof fn law_first_pipeline_stays<H>(
    before: Seq<Option<H>>,
    after: Seq<Option<H>>,
    id: KernelId,
    other: KernelId,
    built: H,
)
    requires
        before.len() == NUM_KERNELS,
        if before[id.slot() as int] is None {
            after == before.update(id.slot() as int, Some(built))
        } else {
            after == before
        },
        before[other.slot() as int] is Some,
    ensures
        after[other.slot() as int] == before[other.slot() as int],
{
}

} // verus!
