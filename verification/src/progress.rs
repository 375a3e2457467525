//! The two sides come to an end: their work runs out, they do not wait for each
//! other, and after a shutdown request they wind down.
use vstd::prelude::*;

#[allow(unused_imports)]
use crate::generator::{generator_next, GeneratorStage};
#[allow(unused_imports)]
use crate::system::{Move, System};
#[allow(unused_imports)]
use crate::update::UpdateMsg;
#[allow(unused_imports)]
use crate::vsync::{vsync_next, VsyncAction, VsyncStage, RETRY_PAUSE};

verus! {

/// The move is one of the two sides', not one from outside.
pub open spec fn is_internal(m: Move) -> bool {
    !(m is Submit) && !(m is Shutdown) && !(m is RequestClear) && !(m is SetBlankDelay)
}

/// The side that moves would only wait.
pub open spec fn is_waiting(sys: System, m: Move) -> bool {
    match m {
        Move::Generator => generator_next(sys.state, sys.generator).2 is Wait,
        Move::Vsync { succeeded, expired } => vsync_next(
            sys.state,
            sys.stage,
            succeeded,
            expired,
        ).2 is Wait,
        _ => false,
    }
}

/// The side that moves would end.
pub open spec fn is_ending(sys: System, m: Move) -> bool {
    match m {
        Move::Generator => generator_next(sys.state, sys.generator).2 is Exit,
        Move::Vsync { succeeded, expired } => vsync_next(
            sys.state,
            sys.stage,
            succeeded,
            expired,
        ).2 is Exit,
        _ => false,
    }
}

/// The move reports that unblanking or blanking failed.
pub open spec fn is_failing(sys: System, m: Move) -> bool {
    match m {
        Move::Vsync { succeeded, .. } => !succeeded && (sys.stage == VsyncStage::Unblanking
            || sys.stage == VsyncStage::Blanking),
        _ => false,
    }
}

/// If both sides wait, nothing is left to do, except where unblanking or blanking has
/// just failed; that wait has a limit, after which it is tried again.
pub proof fn law_no_deadlock(sys: System, succeeded: bool, expired: bool)
    requires
        sys.inv(),
        is_waiting(sys, Move::Generator),
        is_waiting(sys, Move::Vsync { succeeded, expired }),
    ensures
        sys.state.drained() || is_failing(sys, Move::Vsync { succeeded, expired }),
        is_failing(sys, Move::Vsync { succeeded, expired }) ==> vsync_next(
            sys.state,
            sys.stage,
            succeeded,
            expired,
        ).2 == (VsyncAction::Wait { limit: Some(RETRY_PAUSE) }),
{
}

/// A bound on the moves that queued messages take.
pub open spec fn queued_work(queue: Seq<UpdateMsg>) -> int
    decreases queue.len(),
{
    if queue.len() == 0 {
        0
    } else {
        15 * queue[0].phases() + 8 + queued_work(queue.drop_first())
    }
}

/// A bound on the moves that the generator's message takes.
pub open spec fn generator_work(sys: System) -> int {
    let left = match sys.generator.msg {
        Some(msg) => msg.phases() - sys.generator.phase,
        None => 0,
    };
    match sys.generator.stage {
        GeneratorStage::Idle => 0,
        GeneratorStage::Drain => 2,
        GeneratorStage::Committing => 3,
        GeneratorStage::Finished => 4,
        GeneratorStage::Room => 15 * left + 3,
        GeneratorStage::Encoding => 15 * left + (if sys.encode_done {
            1int
        } else {
            2
        }),
    }
}

/// A bound on the moves that the filled slots take.
pub open spec fn vsync_work(sys: System) -> int {
    let pending = sys.state.current < sys.state.last;
    4 * (sys.state.last - sys.state.current) + match sys.stage {
        VsyncStage::Drain => 6int,
        VsyncStage::Panned | VsyncStage::Unblanking => 5,
        VsyncStage::Cleared => if sys.clear_done {
            3
        } else {
            4
        },
        VsyncStage::FinalClear => if pending {
            10
        } else {
            5
        },
        VsyncStage::FinalCleared => (if pending {
            8int
        } else {
            3
        }) + (if sys.clear_done {
            0int
        } else {
            1
        }),
        VsyncStage::Await => if pending {
            7
        } else if sys.state.is_blanked {
            0
        } else {
            2
        },
        VsyncStage::Blanking => if pending {
            8
        } else {
            1
        },
    }
}

/// A bound on the moves that are left before both sides wait.
pub open spec fn work(sys: System) -> int {
    queued_work(sys.state.queue) + generator_work(sys) + vsync_work(sys)
}

proof fn lemma_queued_work(queue: Seq<UpdateMsg>)
    ensures
        queued_work(queue) >= 0,
    decreases queue.len(),
{
    if queue.len() > 0 {
        lemma_queued_work(queue.drop_first());
    }
}

/// Unless they are asked for more, and as long as unblanking and blanking succeed, the
/// sides run out of work: every move but waiting takes some of it. So left alone they
/// come to wait both, and then everything is drained.
pub proof fn law_work_runs_out(sys: System, m: Move)
    requires
        sys.inv(),
        sys.allows(m),
        is_internal(m),
        !is_waiting(sys, m),
        !is_failing(sys, m),
        !sys.state.generator_shutdown,
        !sys.state.vsync_shutdown,
        !sys.state.clear_request,
    ensures
        0 <= work(sys.after(m)) < work(sys),
{
    lemma_queued_work(sys.state.queue);
    lemma_queued_work(sys.after(m).state.queue);
}

/// A bound on the moves that are left before both sides end, once shutdown is
/// requested.
pub open spec fn shutdown_work(sys: System) -> int {
    5 * (4 * sys.state.queue.len() + match sys.generator.stage {
        GeneratorStage::Idle | GeneratorStage::Room => 0int,
        GeneratorStage::Drain => 1,
        GeneratorStage::Committing => 2,
        GeneratorStage::Finished => 3,
        GeneratorStage::Encoding => if sys.encode_done {
            4
        } else {
            5
        },
    }) + 4 * (sys.state.last - sys.state.current) + match sys.stage {
        VsyncStage::Await => 0int,
        VsyncStage::Blanking => 1,
        VsyncStage::FinalCleared | VsyncStage::Cleared => if sys.clear_done {
            1
        } else {
            2
        },
        VsyncStage::FinalClear | VsyncStage::Panned | VsyncStage::Unblanking => 3,
        VsyncStage::Drain => 4,
    }
}

/// Once shutdown is requested no side waits, and every move but ending takes some of
/// what is left: both sides end.
pub proof fn law_shutdown_winds_down(sys: System, m: Move)
    requires
        sys.inv(),
        sys.allows(m),
        is_internal(m),
        sys.state.generator_shutdown,
        sys.state.vsync_shutdown,
    ensures
        !is_waiting(sys, m),
        !is_ending(sys, m) ==> 0 <= shutdown_work(sys.after(m)) < shutdown_work(sys),
{
}

} // verus!
