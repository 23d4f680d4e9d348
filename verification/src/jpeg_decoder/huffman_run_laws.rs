//! What holds of every run of the Huffman decoder, whatever the device
//! replies.

use super::device::{ActionModel, HuffmanLaunch, ReplyModel, Slot};
use super::huffman_run::{
    action_of, advanced, bad_reply, download_len, failed, other_states, page, past, releasing,
    started, succeeded, unwinding, without, Goal, JobModel, OutputModel, RunModel, Step,
};
use super::offsets::{counts_of, exclusive_scan, states_in};
use crate::backend::error::{ErrorModel, GpuBackend};
use crate::backend::huffman_params::{HuffmanParams, HuffmanPhase};
use vstd::prelude::*;

verus! {

/// The buffers a launch of `phase` touches are allocated.
pub open spec fn launch_ready(phase: HuffmanPhase, live: Seq<Slot>) -> bool {
    &&& live.contains(Slot::Bitstream)
    &&& live.contains(Slot::Codebook)
    &&& live.contains(Slot::States)
    &&& phase.syncs() ==> live.contains(Slot::SyncFlags)
    &&& phase.redecodes() ==> live.contains(Slot::Offsets) && live.contains(Slot::Symbols)
        && live.contains(Slot::DecodeStatus)
    &&& phase.jpeg_framed() ==> live.contains(Slot::DcCodebook) && live.contains(
        Slot::McuSchedule,
    )
    &&& phase.jpeg_framed() && (phase.syncs() || phase.redecodes()) ==> live.contains(
        Slot::StatesScratch,
    )
}

/// A step that finds the buffers it needs.
pub open spec fn step_fits(step: Step, live: Seq<Slot>) -> bool {
    match step {
        Step::Allocate(slot) => !live.contains(slot),
        Step::Free(slot) => live.contains(slot),
        Step::Upload(slot) => live.contains(slot),
        Step::Download(slot) => live.contains(slot),
        Step::Record(phase) => launch_ready(phase, live),
        _ => true,
    }
}

/// The buffers behind a step.
pub open spec fn live_behind(step: Step, live: Seq<Slot>) -> Seq<Slot> {
    match step {
        Step::Allocate(slot) => live.push(slot),
        Step::Free(slot) => without(live, slot),
        _ => live,
    }
}

/// All steps find the buffers they need.
pub open spec fn steps_fit(steps: Seq<Step>, live: Seq<Slot>) -> bool
    decreases steps.len(),
{
    steps.len() == 0 || {
        &&& step_fits(steps[0], live)
        &&& steps_fit(steps.skip(1), live_behind(steps[0], live))
    }
}

/// The buffers behind all steps.
pub open spec fn live_after(steps: Seq<Step>, live: Seq<Slot>) -> Seq<Slot>
    decreases steps.len(),
{
    if steps.len() == 0 {
        live
    } else {
        live_after(steps.skip(1), live_behind(steps[0], live))
    }
}

pub open spec fn is_free(step: Step) -> bool {
    step is Free
}

/// The buffers a run holds when it waits for the download of `slot`.
pub open spec fn held(job: JobModel, slot: Slot) -> Seq<Slot> {
    if slot == Slot::DecodeStatus || slot == Slot::Symbols {
        job.allocations() + seq![Slot::Symbols, Slot::DecodeStatus]
    } else {
        job.allocations()
    }
}

/// A download that a run of this kind waits for.
pub open spec fn awaited(job: JobModel, m: RunModel, slot: Slot) -> bool {
    match slot {
        Slot::SyncFlags => job.goal != Goal::States,
        Slot::States | Slot::StatesScratch => slot == m.newest,
        Slot::DecodeStatus | Slot::Symbols => job.goal == Goal::Symbols && m.offsets.len()
            == job.count() && m.total > 0,
        _ => false,
    }
}

/// What holds in every state of a run.
pub open spec fn sound(job: JobModel, m: RunModel) -> bool {
    &&& job.wf()
    &&& m.live.no_duplicates()
    &&& steps_fit(m.steps, m.live)
    &&& m.passes <= job.bound()
    &&& m.offsets.len() <= job.count()
    &&& m.newest == Slot::States || (m.newest == Slot::StatesScratch && job.jpeg && job.goal
        != Goal::States)
    &&& match m.outcome {
        None => {
            &&& m.steps.len() > 0
            &&& m.newest == Slot::StatesScratch ==> m.live.contains(Slot::StatesScratch)
            &&& m.steps.last() matches Step::Download(slot) && awaited(job, m, slot)
                && live_after(m.steps, m.live) == held(job, slot)
            &&& forall|i: int|
                0 <= i < m.steps.len() ==> !is_free(#[trigger] m.steps[i]) && (m.steps[i]
                    is Download ==> i == m.steps.len() - 1)
        },
        Some(_) => {
            &&& live_after(m.steps, m.live) == Seq::<Slot>::empty()
            &&& forall|i: int| 0 <= i < m.steps.len() ==> is_free(#[trigger] m.steps[i])
        },
    }
}

proof fn lemma_allocations(job: JobModel)
    ensures
        job.allocations().len() <= 8,
        job.allocations().no_duplicates(),
        job.allocations().contains(Slot::Bitstream),
        job.allocations().contains(Slot::Codebook),
        job.allocations().contains(Slot::States),
        job.jpeg ==> job.allocations().contains(Slot::DcCodebook) && job.allocations().contains(
            Slot::McuSchedule,
        ),
        job.goal != Goal::States ==> job.allocations().contains(Slot::SyncFlags),
        job.jpeg && job.goal != Goal::States ==> job.allocations().contains(Slot::StatesScratch),
        job.goal == Goal::Symbols ==> job.allocations().contains(Slot::Offsets),
        !job.allocations().contains(Slot::Symbols),
        !job.allocations().contains(Slot::DecodeStatus),
        held(job, Slot::Symbols).no_duplicates(),
        forall|s: Slot|
            job.allocations().contains(s) ==> #[trigger] held(job, Slot::Symbols).contains(s),
        held(job, Slot::Symbols).contains(Slot::Symbols),
        held(job, Slot::Symbols).contains(Slot::DecodeStatus),
{
    let a = job.allocations();
    assert(a[0] == Slot::Bitstream && a[1] == Slot::Codebook);
    if job.jpeg {
        assert(a[2] == Slot::DcCodebook && a[3] == Slot::McuSchedule && a[4] == Slot::States);
        if job.goal != Goal::States {
            assert(a[5] == Slot::StatesScratch && a[6] == Slot::SyncFlags);
        }
        if job.goal == Goal::Symbols {
            assert(a[7] == Slot::Offsets);
        }
    } else {
        assert(a[2] == Slot::States);
        if job.goal != Goal::States {
            assert(a[3] == Slot::SyncFlags);
        }
        if job.goal == Goal::Symbols {
            assert(a[4] == Slot::Offsets);
        }
    }
    let h = held(job, Slot::Symbols);
    assert forall|s: Slot| a.contains(s) implies #[trigger] h.contains(s) by {
        let i = choose|i: int| 0 <= i < a.len() && a[i] == s;
        assert(h[i] == s);
    }
    assert(h[a.len() as int] == Slot::Symbols && h[a.len() as int + 1] == Slot::DecodeStatus);
}

proof fn lemma_concat(a: Seq<Step>, b: Seq<Step>, live: Seq<Slot>)
    ensures
        steps_fit(a + b, live) == (steps_fit(a, live) && steps_fit(b, live_after(a, live))),
        live_after(a + b, live) == live_after(b, live_after(a, live)),
    decreases a.len(),
{
    if a.len() == 0 {
        assert(a + b =~= b);
    } else {
        assert((a + b).skip(1) =~= a.skip(1) + b);
        lemma_concat(a.skip(1), b, live_behind(a[0], live));
    }
}

/// Steps that neither allocate nor free.
spec fn neutral(steps: Seq<Step>, live: Seq<Slot>) -> bool {
    forall|i: int|
        0 <= i < steps.len() ==> step_fits(#[trigger] steps[i], live) && !(steps[i] is Allocate)
            && !(steps[i] is Free)
}

proof fn lemma_neutral(steps: Seq<Step>, live: Seq<Slot>)
    requires
        neutral(steps, live),
    ensures
        steps_fit(steps, live),
        live_after(steps, live) == live,
    decreases steps.len(),
{
    if steps.len() > 0 {
        assert(step_fits(steps[0], live));
        let rest = steps.skip(1);
        assert forall|i: int| 0 <= i < rest.len() implies step_fits(#[trigger] rest[i], live) && !(
        rest[i] is Allocate) && !(rest[i] is Free) by {
            assert(rest[i] == steps[i + 1]);
        }
        lemma_neutral(rest, live);
    }
}

spec fn allocating(slots: Seq<Slot>) -> Seq<Step> {
    slots.map_values(|s: Slot| Step::Allocate(s))
}

proof fn lemma_allocating(slots: Seq<Slot>, live: Seq<Slot>)
    requires
        (live + slots).no_duplicates(),
    ensures
        steps_fit(allocating(slots), live),
        live_after(allocating(slots), live) == live + slots,
    decreases slots.len(),
{
    if slots.len() == 0 {
        assert(live + slots =~= live);
    } else {
        let rest = slots.skip(1);
        assert(allocating(slots).skip(1) =~= allocating(rest));
        assert(live.push(slots[0]) + rest =~= live + slots);
        assert forall|i: int| 0 <= i < live.len() implies live[i] != slots[0] by {
            assert((live + slots)[i] == live[i]);
            assert((live + slots)[live.len() as int] == slots[0]);
        }
        lemma_allocating(rest, live.push(slots[0]));
    }
}

proof fn lemma_releasing(live: Seq<Slot>)
    ensures
        steps_fit(releasing(live), live),
        live_after(releasing(live), live) == Seq::<Slot>::empty(),
    decreases live.len(),
{
    if live.len() == 0 {
        assert(live =~= Seq::empty());
    } else {
        assert(live.contains(live[0]));
        assert(without(live, live[0]) == live.skip(1));
        assert(releasing(live).skip(1) =~= releasing(live.skip(1)));
        lemma_releasing(live.skip(1));
    }
}

proof fn lemma_without_last(live: Seq<Slot>)
    requires
        live.len() > 0,
        live.no_duplicates(),
    ensures
        without(live, live.last()) == live.drop_last(),
    decreases live.len(),
{
    if live.len() == 1 {
        assert(live.skip(1) =~= live.drop_last());
    } else {
        let rest = live.skip(1);
        assert(live[0] != live.last());
        assert(rest.last() == live.last());
        assert(rest.no_duplicates()) by {
            assert forall|i: int, j: int|
                0 <= i < rest.len() && 0 <= j < rest.len() && i != j implies rest[i] != rest[j] by {
                assert(rest[i] == live[i + 1] && rest[j] == live[j + 1]);
            }
        }
        lemma_without_last(rest);
        assert(seq![live[0]] + rest.drop_last() =~= live.drop_last());
    }
}

proof fn lemma_unwinding(live: Seq<Slot>)
    requires
        live.no_duplicates(),
    ensures
        steps_fit(unwinding(live), live),
        live_after(unwinding(live), live) == Seq::<Slot>::empty(),
    decreases live.len(),
{
    if live.len() == 0 {
        assert(live =~= Seq::empty());
    } else {
        let front = live.drop_last();
        assert(live.contains(live.last()));
        lemma_without_last(live);
        assert(unwinding(live).skip(1) =~= unwinding(front));
        assert(front.no_duplicates());
        lemma_unwinding(front);
    }
}

proof fn lemma_without_keeps_distinct(live: Seq<Slot>, slot: Slot)
    requires
        live.no_duplicates(),
    ensures
        without(live, slot).no_duplicates(),
        forall|s: Slot| without(live, slot).contains(s) ==> live.contains(s),
        without(live, slot).len() <= live.len(),
    decreases live.len(),
{
    if live.len() > 0 {
        let rest = live.skip(1);
        assert(rest.no_duplicates()) by {
            assert forall|i: int, j: int|
                0 <= i < rest.len() && 0 <= j < rest.len() && i != j implies rest[i] != rest[j] by {
                assert(rest[i] == live[i + 1] && rest[j] == live[j + 1]);
            }
        }
        assert forall|s: Slot| rest.contains(s) implies live.contains(s) && s != live[0] by {
            let i = choose|i: int| 0 <= i < rest.len() && rest[i] == s;
            assert(live[i + 1] == s);
        }
        if live[0] != slot {
            lemma_without_keeps_distinct(rest, slot);
            let w = without(rest, slot);
            let r = seq![live[0]] + w;
            assert forall|i: int, j: int|
                0 <= i < r.len() && 0 <= j < r.len() && i != j implies r[i] != r[j] by {
                if i == 0 {
                    assert(r[j] == w[j - 1] && w.contains(w[j - 1]));
                    assert(rest.contains(r[j]));
                } else if j == 0 {
                    assert(r[i] == w[i - 1] && w.contains(w[i - 1]));
                    assert(rest.contains(r[i]));
                } else {
                    assert(r[i] == w[i - 1] && r[j] == w[j - 1]);
                }
            }
            assert forall|s: Slot| r.contains(s) implies live.contains(s) by {
                let i = choose|i: int| 0 <= i < r.len() && r[i] == s;
                if i == 0 {
                    assert(live[0] == s);
                } else {
                    assert(w.contains(w[i - 1]));
                }
            }
        }
    }
}

/// A run starts soundly.
pub proof fn law_run_starts_soundly(job: JobModel)
    requires
        job.wf(),
    ensures
        sound(job, started(job)),
{
    let a = job.allocations();
    let none = Seq::<Slot>::empty();
    lemma_allocations(job);
    assert(none + a =~= a);
    lemma_allocating(a, none);
    let fill = job.uploads().map_values(|s: Slot| Step::Upload(s));
    let tail = if job.goal == Goal::States {
        page(job.phase1()).push(Step::Download(Slot::States))
    } else {
        page(job.phase1()) + job.pass_steps()
    };
    let rest = fill + tail;
    assert(job.first_steps() =~= allocating(a) + rest);
    assert(neutral(rest, a)) by {
        assert forall|i: int| 0 <= i < rest.len() implies step_fits(#[trigger] rest[i], a) && !(
        rest[i] is Allocate) && !(rest[i] is Free) by {
            if i < fill.len() {
                assert(rest[i] == Step::Upload(job.uploads()[i]));
            } else {
                assert(rest[i] == tail[i - fill.len()]);
            }
        }
    }
    lemma_neutral(rest, a);
    lemma_concat(allocating(a), rest, none);
    let m = started(job);
    assert(m.steps.last() == tail.last());
    assert forall|i: int| 0 <= i < m.steps.len() implies !is_free(#[trigger] m.steps[i]) && (
    m.steps[i] is Download ==> i == m.steps.len() - 1) by {
        if i >= a.len() {
            assert(m.steps[i] == rest[i - a.len()]);
            if i - a.len() >= fill.len() {
                assert(rest[i - a.len()] == tail[i - a.len() - fill.len()]);
            }
        }
    }
}

proof fn lemma_failed_sound(job: JobModel, m: RunModel, e: ErrorModel)
    requires
        job.wf(),
        m.live.no_duplicates(),
        m.passes <= job.bound(),
        m.offsets.len() <= job.count(),
        m.newest == Slot::States || (m.newest == Slot::StatesScratch && job.jpeg && job.goal
            != Goal::States),
    ensures
        sound(job, failed(m, e)),
{
    lemma_unwinding(m.live);
}

/// Whatever the device replies, the run stays sound.
#[verifier::rlimit(60)]
pub proof fn law_every_reply_keeps_the_run_sound(job: JobModel, m: RunModel, reply: ReplyModel)
    requires
        sound(job, m),
    ensures
        sound(job, advanced(job, m, reply)),
{
    if m.steps.len() > 0 {
        let next = advanced(job, m, reply);
        let rest = m.steps.skip(1);
        assert(m.outcome is None ==> rest.len() > 0 ==> rest.last() == m.steps.last());
        assert forall|i: int| 0 <= i < rest.len() implies #[trigger] rest[i] == m.steps[i + 1] by {}
        match m.steps[0] {
            Step::Free(slot) => {
                assert(is_free(m.steps[0]));
                lemma_without_keeps_distinct(m.live, slot);
            },
            Step::Download(slot) => {
                assert(m.outcome is None) by {
                    if m.outcome is Some {
                        assert(is_free(m.steps[0]));
                    }
                }
                assert(m.steps.len() == 1);
                assert(m.steps =~= seq![Step::Download(slot)]);
                assert(rest =~= Seq::empty());
                assert(m.live == held(job, slot)) by {
                    assert(live_after(rest, m.live) == m.live);
                }
                match reply {
                    ReplyModel::Words(words) => {
                        if words.len() == download_len(job, m, slot) {
                            lemma_decision_sound(job, m, slot, words);
                        } else {
                            lemma_failed_sound(
                                job,
                                m,
                                ErrorModel::Message(job.name + bad_reply()),
                            );
                        }
                    },
                    ReplyModel::Done => {
                        lemma_failed_sound(job, m, ErrorModel::Message(job.name + bad_reply()));
                    },
                    ReplyModel::Failed(e) => {
                        lemma_failed_sound(job, m, e);
                    },
                }
            },
            _ => {
                assert(m.outcome is None) by {
                    if m.outcome is Some {
                        assert(is_free(m.steps[0]));
                    }
                }
                assert(rest.len() > 0) by {
                    if rest.len() == 0 {
                        assert(m.steps.last() == m.steps[0]);
                    }
                }
                match reply {
                    ReplyModel::Done => {
                        if let Step::Allocate(slot) = m.steps[0] {
                            assert(m.live.push(slot).no_duplicates());
                            if m.newest == Slot::StatesScratch {
                                let i = choose|i: int|
                                    0 <= i < m.live.len() && m.live[i] == Slot::StatesScratch;
                                assert(m.live.push(slot)[i] == Slot::StatesScratch);
                            }
                        }
                        assert forall|i: int| 0 <= i < next.steps.len() implies !is_free(
                            #[trigger] next.steps[i],
                        ) && (next.steps[i] is Download ==> i == next.steps.len() - 1) by {
                            assert(next.steps[i] == m.steps[i + 1]);
                        }
                    },
                    ReplyModel::Words(_) => {
                        lemma_failed_sound(job, m, ErrorModel::Message(job.name + bad_reply()));
                    },
                    ReplyModel::Failed(e) => {
                        lemma_failed_sound(job, m, e);
                    },
                }
            },
        }
    }
}

proof fn lemma_succeeded_sound(job: JobModel, m: RunModel, out: OutputModel)
    requires
        job.wf(),
        m.live.no_duplicates(),
        m.passes <= job.bound(),
        m.offsets.len() <= job.count(),
        m.newest == Slot::States || (m.newest == Slot::StatesScratch && job.jpeg && job.goal
            != Goal::States),
    ensures
        sound(job, succeeded(m, out)),
{
    lemma_releasing(m.live);
}

#[verifier::rlimit(60)]
proof fn lemma_decision_sound(job: JobModel, m: RunModel, slot: Slot, words: Seq<u32>)
    requires
        sound(job, m),
        m.outcome is None,
        m.steps == seq![Step::Download(slot)],
        m.live == held(job, slot),
        awaited(job, m, slot),
        words.len() == download_len(job, m, slot),
    ensures
        sound(job, advanced(job, m, ReplyModel::Words(words))),
{
    lemma_allocations(job);
    let p = past(m);
    let next = advanced(job, m, ReplyModel::Words(words));
    match slot {
        Slot::SyncFlags => {
            let newest = if job.jpeg {
                other_states(m.newest)
            } else {
                m.newest
            };
            if next.outcome is Some {
                let q = RunModel { newest, ..p };
                lemma_failed_sound(job, q, next.outcome->0->Err_0);
            } else {
                assert(m.live.contains(newest));
                assert(neutral(next.steps, m.live));
                lemma_neutral(next.steps, m.live);
            }
        },
        Slot::DecodeStatus => {
            if next.outcome is Some {
                lemma_failed_sound(job, p, next.outcome->0->Err_0);
            } else {
                assert(neutral(next.steps, m.live));
                lemma_neutral(next.steps, m.live);
            }
        },
        Slot::Symbols => {
            lemma_succeeded_sound(job, p, OutputModel::Symbols(words));
        },
        _ => {
            let states = states_in(words);
            if job.goal != Goal::Symbols {
                lemma_succeeded_sound(job, p, next.outcome->0->Ok_0);
            } else {
                match exclusive_scan(counts_of(states)) {
                    None => {
                        lemma_failed_sound(job, p, next.outcome->0->Err_0);
                    },
                    Some((offsets, total)) => {
                        lemma_unwinding(m.live);
                        assert(states.len() == job.count());
                        assert(offsets.len() == job.count());
                        if total > 0 {
                            lemma_redecode_sound(job, next);
                        }
                    },
                }
            }
        },
    }
}

proof fn lemma_redecode_sound(job: JobModel, next: RunModel)
    requires
        job.wf(),
        job.goal == Goal::Symbols,
        next.steps == job.redecode_steps(),
        next.live == job.allocations(),
        next.outcome is None,
        next.offsets.len() == job.count(),
        next.total > 0,
        next.passes <= job.bound(),
        next.newest == Slot::States || (next.newest == Slot::StatesScratch && job.jpeg),
    ensures
        sound(job, next),
{
    lemma_allocations(job);
    let live = next.live;
    let fill = seq![Step::Upload(Slot::Offsets)];
    let more = seq![Slot::Symbols, Slot::DecodeStatus];
    let tail = page(job.phase4()).push(Step::Download(Slot::DecodeStatus));
    assert(next.steps =~= fill + (allocating(more) + tail));
    assert(neutral(fill, live));
    lemma_neutral(fill, live);
    let full = held(job, Slot::Symbols);
    assert(live + more == full);
    lemma_allocating(more, live);
    assert(neutral(tail, full));
    lemma_neutral(tail, full);
    lemma_concat(allocating(more), tail, live);
    lemma_concat(fill, allocating(more) + tail, live);
    assert(next.steps.last() == tail.last());
}

/// In a sound run every action finds its buffers: an allocation is of a
/// buffer that is not allocated, an upload, download, launch or free is of
/// buffers that are, and when the run finishes it has a result and nothing is
/// left allocated.
pub proof fn law_actions_find_their_buffers(job: JobModel, m: RunModel)
    requires
        sound(job, m),
    ensures
        match action_of(job, m) {
            ActionModel::Allocate { slot, .. } => !m.live.contains(slot),
            ActionModel::Upload { slot, .. } => m.live.contains(slot),
            ActionModel::Download { slot, .. } => m.live.contains(slot),
            ActionModel::Free { slot } => m.live.contains(slot),
            ActionModel::RecordHuffman(launch) => launch_ready(launch.phase, m.live),
            ActionModel::Finish => m.live.len() == 0 && m.outcome is Some,
            _ => true,
        },
{
}

/// Both state buffers that a launch may use are allocated when it comes.
pub proof fn lemma_newest_is_live(job: JobModel, m: RunModel)
    requires
        sound(job, m),
        m.steps.len() > 0,
        m.steps[0] is Record,
    ensures
        m.live.contains(m.newest),
        m.steps[0] == Step::Record(HuffmanPhase::JpegPhase2InterSync) ==> m.live.contains(
            other_states(m.newest),
        ),
{
    assert(!is_free(m.steps[0]));
}

/// The first failure is the result: a failed action of a run without a result
/// gives it that error, and a run that has a result keeps it.
pub proof fn law_first_failure_is_the_result(job: JobModel, m: RunModel, reply: ReplyModel)
    requires
        sound(job, m),
    ensures
        m.outcome is None ==> (reply matches ReplyModel::Failed(e) ==> advanced(
            job,
            m,
            reply,
        ).outcome == Some(Err::<OutputModel, ErrorModel>(e))),
        m.outcome is Some ==> advanced(job, m, reply).outcome == m.outcome,
{
    if m.steps.len() > 0 {
        assert(m.outcome is None ==> !is_free(m.steps[0]));
        assert(m.outcome is Some ==> is_free(m.steps[0]));
    }
}

/// What is still to come of a run.
pub open spec fn stages_left(job: JobModel, m: RunModel) -> nat {
    if m.outcome is Some || m.steps.len() == 0 {
        0
    } else {
        match m.steps.last() {
            Step::Download(Slot::Symbols) => 1,
            Step::Download(Slot::DecodeStatus) => 2,
            Step::Download(Slot::SyncFlags) => (4 + job.bound() - m.passes) as nat,
            _ => 3,
        }
    }
}

/// Bound on the replies a run can still take.
pub open spec fn replies_left(job: JobModel, m: RunModel) -> nat {
    64 * stages_left(job, m) + m.steps.len()
}

proof fn lemma_live_small(steps: Seq<Step>, live: Seq<Slot>)
    requires
        forall|i: int| 0 <= i < steps.len() ==> !is_free(#[trigger] steps[i]),
    ensures
        live.len() <= live_after(steps, live).len(),
    decreases steps.len(),
{
    if steps.len() > 0 {
        let rest = steps.skip(1);
        assert forall|i: int| 0 <= i < rest.len() implies !is_free(#[trigger] rest[i]) by {
            assert(rest[i] == steps[i + 1]);
        }
        assert(!is_free(steps[0]));
        lemma_live_small(rest, live_behind(steps[0], live));
    }
}

/// A run ends: each reply uses up part of a finite budget, whatever the
/// device replies.
#[verifier::rlimit(60)]
pub proof fn law_run_ends(job: JobModel, m: RunModel, reply: ReplyModel)
    requires
        sound(job, m),
        m.steps.len() > 0,
    ensures
        replies_left(job, advanced(job, m, reply)) < replies_left(job, m),
{
    let next = advanced(job, m, reply);
    let rest = m.steps.skip(1);
    lemma_allocations(job);
    if m.outcome is None {
        assert(!is_free(m.steps[0]));
        lemma_live_small(m.steps, m.live);
        assert(m.live.len() <= 10);
        assert(stages_left(job, m) >= 1);
        assert(rest.len() > 0 ==> rest.last() == m.steps.last());
        if m.steps[0] is Download {
            assert(m.steps.len() == 1);
            assert(m.steps.last() == m.steps[0]);
        }
    } else {
        assert(is_free(m.steps[0]));
    }
}

/// `p` launches on buffers that hold at least what the run asked for.
pub open spec fn bound_to<B: GpuBackend>(
    job: JobModel,
    total: u32,
    launch: HuffmanLaunch,
    p: HuffmanParams<B>,
    backend: &B,
) -> bool {
    &&& p.phase == launch.phase
    &&& p.length_bits == launch.length_bits
    &&& p.subsequence_bits == launch.subsequence_bits
    &&& p.num_components == launch.num_components
    &&& p.blocks_per_mcu == launch.blocks_per_mcu
    &&& p.total_symbols == launch.total_symbols
    &&& backend.capacity(p.bitstream) >= job.bytes(launch.bitstream, total)
    &&& backend.capacity(p.codebook) >= job.bytes(launch.codebook, total)
    &&& backend.capacity(p.s_info) >= job.bytes(launch.s_info, total)
    &&& buffer_bound(job, total, launch.sync_flags, p.sync_flags, backend)
    &&& buffer_bound(job, total, launch.s_info_prev, p.s_info_prev, backend)
    &&& buffer_bound(job, total, launch.offsets, p.offsets, backend)
    &&& buffer_bound(job, total, launch.symbols_out, p.symbols_out, backend)
    &&& buffer_bound(job, total, launch.decode_status, p.decode_status, backend)
    &&& buffer_bound(job, total, launch.dc_codebook, p.dc_codebook, backend)
    &&& buffer_bound(job, total, launch.mcu_schedule, p.mcu_schedule, backend)
}

pub open spec fn buffer_bound<B: GpuBackend>(
    job: JobModel,
    total: u32,
    slot: Option<Slot>,
    buf: Option<&B::DeviceBuffer>,
    backend: &B,
) -> bool {
    match slot {
        Some(s) => buf matches Some(b) && backend.capacity(b) >= job.bytes(s, total),
        None => buf is None,
    }
}

/// Every launch of a run meets its documented invariants on every back end
/// whose buffers hold what the run asked for.
pub proof fn law_launches_are_valid<B: GpuBackend>(
    job: JobModel,
    m: RunModel,
    launch: HuffmanLaunch,
    p: HuffmanParams<B>,
    backend: &B,
)
    requires
        sound(job, m),
        action_of(job, m) == ActionModel::RecordHuffman(launch),
        bound_to(job, m.total, launch, p, backend),
        job.num_components > 0,
        launch.phase.jpeg_framed() ==> job.blocks_per_mcu > 0,
        job.length_bits + 2 * job.subsequence_bits <= u32::MAX,
    ensures
        p.well_formed(backend),
{
    crate::backend::huffman_params::lemma_subsequences_fit(job.length_bits, job.subsequence_bits);
}

/// A job whose data have the sizes its fields announce.
pub open spec fn consistent(job: JobModel) -> bool {
    &&& job.words.len() <= (job.length_bits + 31) / 32 + 1
    &&& job.codebook.len() == job.num_components * 65536
    &&& job.jpeg ==> job.dc_codebook.len() == job.num_components * 65536
    &&& job.jpeg ==> job.mcu_schedule.len() == job.blocks_per_mcu
}

/// No upload is larger than its buffer.
pub proof fn law_uploads_fit_their_buffers(job: JobModel, m: RunModel, slot: Slot, words: Seq<
    u32,
>)
    requires
        sound(job, m),
        consistent(job),
        action_of(job, m) == (ActionModel::Upload { slot, words }),
    ensures
        4 * words.len() <= job.bytes(slot, m.total),
{
    lemma_allocations(job);
    assert(!is_free(m.steps[0]));
    if !job.jpeg && (slot == Slot::DcCodebook || slot == Slot::McuSchedule) {
        lemma_held_plain(job);
        lemma_live_kept(m.steps, m.live, slot);
    }
}

proof fn lemma_held_plain(job: JobModel)
    requires
        !job.jpeg,
    ensures
        !held(job, Slot::Symbols).contains(Slot::DcCodebook),
        !held(job, Slot::Symbols).contains(Slot::McuSchedule),
        !job.allocations().contains(Slot::DcCodebook),
        !job.allocations().contains(Slot::McuSchedule),
{
}

proof fn lemma_live_kept(steps: Seq<Step>, live: Seq<Slot>, slot: Slot)
    requires
        live.contains(slot),
        forall|i: int| 0 <= i < steps.len() ==> !is_free(#[trigger] steps[i]),
    ensures
        live_after(steps, live).contains(slot),
    decreases steps.len(),
{
    if steps.len() > 0 {
        let rest = steps.skip(1);
        assert forall|i: int| 0 <= i < rest.len() implies !is_free(#[trigger] rest[i]) by {
            assert(rest[i] == steps[i + 1]);
        }
        assert(!is_free(steps[0]));
        let next = live_behind(steps[0], live);
        assert(next.contains(slot)) by {
            let i = choose|i: int| 0 <= i < live.len() && live[i] == slot;
            assert(next[i] == slot);
        }
        lemma_live_kept(rest, next, slot);
    }
}

} // verus!
