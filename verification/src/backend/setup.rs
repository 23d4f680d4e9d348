//! Setting up Vulkan objects: create them in order, and on a failure destroy
//! in reverse order what was created.

use super::kernels::{KernelId, MAX_STORAGE_BUFFERS};
use super::recorder::MAX_DESC_SETS_PER_PAGE;
use vstd::prelude::*;

verus! {

/// What a set-up creates.
#[derive(Debug, Clone, Copy, PartialEq, Eq, Structural)]
pub enum Resource {
    /// Timeline semaphore.
    Semaphore,
    /// Command pool.
    CommandPool,
    /// Command buffer; it goes with its pool.
    CommandBuffer,
    /// Descriptor pool.
    DescriptorPool,
    /// Descriptor-set layout.
    SetLayout,
    /// Pipeline layout.
    PipelineLayout,
    /// Decoded shader words; host memory.
    ShaderWords,
    /// Shader module.
    ShaderModule,
    /// Compute pipeline.
    Pipeline,
}

impl Resource {
    /// Whether the resource has to be destroyed by itself.
    pub open spec fn owned(self) -> bool {
        self != Resource::CommandBuffer && self != Resource::ShaderWords
    }

    fn is_owned(self) -> (b: bool)
        ensures
            b == self.owned(),
    {
        !matches!(self, Resource::CommandBuffer | Resource::ShaderWords)
    }
}

/// What the driver has to do next.
#[derive(Debug, Clone, Copy, PartialEq, Eq, Structural)]
pub enum SetupAction {
    Create(Resource),
    Destroy(Resource),
    /// Everything is created.
    Complete,
    /// A creation failed and everything is destroyed again.
    Abandoned,
}

/// A set-up: what is created in which order, how much of it is there, and
/// whether a creation failed.
#[verifier::ext_equal]
pub struct SetupModel {
    pub plan: Seq<Resource>,
    pub made: nat,
    pub failed: bool,
}

/// How much is left of the first `n` when the last ones that need no
/// destruction are left out.
pub open spec fn last_owned(plan: Seq<Resource>, n: nat) -> nat
    decreases n,
{
    if n == 0 || n > plan.len() || plan[n - 1].owned() {
        n
    } else {
        last_owned(plan, (n - 1) as nat)
    }
}

impl SetupModel {
    pub open spec fn wf(self) -> bool {
        &&& self.made <= self.plan.len()
        &&& self.failed && self.made > 0 ==> self.plan[self.made - 1].owned()
    }

    pub open spec fn action(self) -> SetupAction {
        if self.failed {
            if self.made == 0 {
                SetupAction::Abandoned
            } else {
                SetupAction::Destroy(self.plan[self.made - 1])
            }
        } else if self.made == self.plan.len() {
            SetupAction::Complete
        } else {
            SetupAction::Create(self.plan[self.made as int])
        }
    }

    /// The set-up after its action was done; `ok` tells whether a creation
    /// succeeded.
    pub open spec fn after(self, ok: bool) -> SetupModel {
        if self.failed {
            if self.made == 0 {
                self
            } else {
                SetupModel { made: last_owned(self.plan, (self.made - 1) as nat), ..self }
            }
        } else if self.made == self.plan.len() {
            self
        } else if ok {
            SetupModel { made: self.made + 1, ..self }
        } else {
            SetupModel { made: last_owned(self.plan, self.made), failed: true, ..self }
        }
    }

    /// The resources that exist and have to be destroyed by themselves.
    pub open spec fn held(self, r: Resource) -> bool {
        exists|i: int| 0 <= i < self.made && #[trigger] self.plan[i] == r && r.owned()
    }
}

/// A set-up in progress.
#[derive(Debug)]
pub struct Setup {
    plan: Vec<Resource>,
    made: usize,
    failed: bool,
}

impl View for Setup {
    type V = SetupModel;

    closed spec fn view(&self) -> SetupModel {
        SetupModel { plan: self.plan@, made: self.made as nat, failed: self.failed }
    }
}

/// What a page recorder is made of, in creation order.
pub open spec fn recorder_plan() -> Seq<Resource> {
    seq![
        Resource::Semaphore,
        Resource::CommandPool,
        Resource::CommandBuffer,
        Resource::DescriptorPool,
    ]
}

/// What a pipeline is made of, in creation order.
pub open spec fn pipeline_plan() -> Seq<Resource> {
    seq![
        Resource::SetLayout,
        Resource::PipelineLayout,
        Resource::ShaderWords,
        Resource::ShaderModule,
        Resource::Pipeline,
    ]
}

impl Setup {
    /// Set-up of a page recorder.
    #[must_use]
    pub fn recorder() -> (setup: Self)
        ensures
            setup@.wf(),
            setup@ == (SetupModel { plan: recorder_plan(), made: 0, failed: false }),
    {
        let setup = Setup {
            plan: vec![
                Resource::Semaphore,
                Resource::CommandPool,
                Resource::CommandBuffer,
                Resource::DescriptorPool,
            ],
            made: 0,
            failed: false,
        };
        assert(setup@.plan =~= recorder_plan());
        setup
    }

    /// Set-up of a kernel's pipeline.
    #[must_use]
    pub fn pipeline() -> (setup: Self)
        ensures
            setup@.wf(),
            setup@ == (SetupModel { plan: pipeline_plan(), made: 0, failed: false }),
    {
        let setup = Setup {
            plan: vec![
                Resource::SetLayout,
                Resource::PipelineLayout,
                Resource::ShaderWords,
                Resource::ShaderModule,
                Resource::Pipeline,
            ],
            made: 0,
            failed: false,
        };
        assert(setup@.plan =~= pipeline_plan());
        setup
    }

    /// What the driver has to do next.
    #[must_use]
    pub fn next_action(&self) -> (action: SetupAction)
        requires
            self@.wf(),
        ensures
            action == self@.action(),
    {
        if self.failed {
            if self.made == 0 {
                SetupAction::Abandoned
            } else {
                SetupAction::Destroy(self.plan[self.made - 1])
            }
        } else if self.made == self.plan.len() {
            SetupAction::Complete
        } else {
            SetupAction::Create(self.plan[self.made])
        }
    }

    /// The action is done; `ok` tells whether a creation succeeded.
    pub fn advance(&mut self, ok: bool)
        requires
            old(self)@.wf(),
        ensures
            final(self)@.wf(),
            final(self)@ == old(self)@.after(ok),
    {
        let mut left: usize = self.made;
        if self.failed {
            if left == 0 {
                return;
            }
            left = left - 1;
        } else if left == self.plan.len() {
            return;
        } else if ok {
            self.made = left + 1;
            return;
        }
        let ghost start = left as nat;
        while left > 0 && !self.plan[left - 1].is_owned()
            invariant
                left <= start <= self.plan@.len(),
                last_owned(self.plan@, start) == last_owned(self.plan@, left as nat),
            decreases left,
        {
            left = left - 1;
        }
        self.made = left;
        self.failed = true;
    }
}

/// Storage-buffer descriptors of a page's pool: the largest kernel's, for
/// every set.
#[must_use]
pub fn pool_descriptors() -> (n: u32)
    ensures
        n == MAX_DESC_SETS_PER_PAGE * MAX_STORAGE_BUFFERS,
{
    MAX_DESC_SETS_PER_PAGE * MAX_STORAGE_BUFFERS
}

/// A page that keeps to its descriptor sets never runs out of descriptors.
pub proof fn law_pool_serves_every_set(kernels: Seq<KernelId>)
    requires
        kernels.len() <= MAX_DESC_SETS_PER_PAGE,
    ensures
        descriptors(kernels) <= MAX_DESC_SETS_PER_PAGE * MAX_STORAGE_BUFFERS,
{
    lemma_descriptors(kernels);
}

/// Descriptors that the dispatches of a page take.
pub open spec fn descriptors(kernels: Seq<KernelId>) -> nat
    decreases kernels.len(),
{
    if kernels.len() == 0 {
        0
    } else {
        descriptors(kernels.drop_last()) + kernels.last().bindings().len()
    }
}

proof fn lemma_descriptors(kernels: Seq<KernelId>)
    ensures
        descriptors(kernels) <= kernels.len() * MAX_STORAGE_BUFFERS,
    decreases kernels.len(),
{
    if kernels.len() > 0 {
        lemma_descriptors(kernels.drop_last());
    }
}

proof fn lemma_last_owned(plan: Seq<Resource>, n: nat)
    requires
        n <= plan.len(),
    ensures
        last_owned(plan, n) <= n,
        last_owned(plan, n) > 0 ==> plan[last_owned(plan, n) - 1].owned(),
        forall|i: int| last_owned(plan, n) <= i < n ==> !(#[trigger] plan[i]).owned(),
    decreases n,
{
    if n > 0 && !plan[n - 1].owned() {
        lemma_last_owned(plan, (n - 1) as nat);
    }
}

/// An abandoned set-up leaves nothing behind, and after a failure every
/// destruction is of a resource that is held and brings the end nearer.
pub proof fn law_abandoned_setup_leaves_nothing(m: SetupModel, ok: bool, r: Resource)
    requires
        m.wf(),
    ensures
        m.after(ok).wf(),
        m.action() is Abandoned ==> !m.held(r),
        m.action() matches SetupAction::Destroy(d) ==> m.held(d) && m.after(ok).made < m.made,
        m.failed && m.held(r) && !m.after(ok).held(r) ==> m.action() == SetupAction::Destroy(r),
{
    if m.failed && m.made > 0 {
        let n = (m.made - 1) as nat;
        lemma_last_owned(m.plan, n);
        assert(m.plan[m.made - 1] == m.plan[n as int]);
        if m.held(r) && !m.after(ok).held(r) {
            let i = choose|i: int| 0 <= i < m.made && #[trigger] m.plan[i] == r && r.owned();
            if i < m.after(ok).made {
                assert(m.after(ok).plan[i] == r);
            }
        }
    } else if !m.failed && m.made < m.plan.len() && !ok {
        lemma_last_owned(m.plan, m.made);
    }
}

} // verus!
