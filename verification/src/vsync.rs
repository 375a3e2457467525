//! The vsync side: pans through the filled slots, clears each slot once the next
//! one is shown, unblanks the panel when there is something to drive, and blanks it
//! when there has been nothing to drive for a while.
use vstd::prelude::*;

#[allow(unused_imports)]
use crate::constants::SCREEN_WIDTH;
#[allow(unused_imports)]
use crate::fb::{zero_line, SLOT_BYTES};
use crate::runtime::{norm_phase, SharedState, IDLE_SLOT};
#[allow(unused_imports)]
use crate::runtime::{slot_of, StateView};
#[allow(unused_imports)]
use crate::slots::{all_clean, cleared};
use crate::slots::{clear_dirty_buffer, zero_content_line};

verus! {

/// How long the vsync side pauses, in seconds, before it tries a failed unblanking or
/// blanking again.
pub const RETRY_PAUSE: u32 = 1;

/// Where the vsync side stands between two steps.
#[derive(Debug, Clone, Copy, PartialEq, Eq, Structural)]
pub enum VsyncStage {
    /// Chases the last filled slot.
    Drain,
    /// Its caller pans to the current slot.
    Panned,
    /// Its caller clears the slot shown before the current one.
    Cleared,
    /// Nothing is left to drive; the slot shown last is to be cleared.
    FinalClear,
    /// Its caller clears the slot shown last.
    FinalCleared,
    /// Waits for a filled slot, shutdown, a clear request or the blank delay.
    Await,
    /// Its caller unblanks to the current slot.
    Unblanking,
    /// Its caller blanks the panel.
    Blanking,
}

/// What the caller does before the next step.
#[derive(Debug, Clone, Copy, PartialEq, Eq, Structural)]
pub enum VsyncAction {
    /// Step again.
    Continue,
    /// Wait to be woken, at most `limit` seconds where there is a limit, then step
    /// again and tell whether the time was up.
    Wait { limit: Option<u32> },
    /// Pan to a slot.
    Pan { slot_idx: u32 },
    /// Clear a slot with [`Vsync::clear`].
    Clear { slot_idx: u32 },
    /// Wake the generator: there may be room in the ring.
    NotifyGenerator,
    /// Unblank to a slot, and tell the next step whether that succeeded.
    Unblank { slot_idx: u32 },
    /// Blank the panel, and tell the next step whether that succeeded.
    Blank,
    /// End.
    Exit,
}

impl VsyncStage {
    /// What holds of the shared state at each stage. A slot that a stage shows is
    /// filled, and while the vsync side waits no slot is left to clear.
    pub open spec fn fits(self, state: StateView) -> bool {
        match self {
            VsyncStage::Drain | VsyncStage::FinalClear => true,
            VsyncStage::Panned => state.current < state.last && !state.is_blanked,
            VsyncStage::Cleared => state.current < state.last && state.previous >= 0,
            VsyncStage::FinalCleared => state.previous >= 0,
            VsyncStage::Await => state.previous == -1,
            VsyncStage::Unblanking => state.current < state.last && state.is_blanked,
            VsyncStage::Blanking => state.previous == -1 && !state.is_blanked,
        }
    }
}

/// The action that shows slot `idx`.
pub open spec fn pan_to(idx: int) -> VsyncAction {
    VsyncAction::Pan { slot_idx: idx as u32 }
}

/// Parking on the spare slot, where no pixel is driven. A blanked panel rejects
/// panning, so there it is left alone.
pub open spec fn park(state: StateView) -> VsyncAction {
    if state.is_blanked {
        VsyncAction::Continue
    } else {
        pan_to(IDLE_SLOT as int)
    }
}

/// The pause before a failed request is tried again. There is none when shutdown is
/// requested.
pub open spec fn pause(state: StateView) -> VsyncAction {
    if state.vsync_shutdown {
        VsyncAction::Continue
    } else {
        VsyncAction::Wait { limit: Some(RETRY_PAUSE) }
    }
}

/// The state with the current slot shown: it is the one to be cleared next.
pub open spec fn advanced(state: StateView) -> StateView {
    StateView { previous: state.current, current: state.current + 1, ..state }
}

/// One step: the state, the stage and the action that follow. `succeeded` is the
/// outcome of the unblanking or blanking that the last step asked for; `expired`
/// tells whether the time of the wait that the last step asked for was up.
pub open spec fn vsync_next(
    state: StateView,
    stage: VsyncStage,
    succeeded: bool,
    expired: bool,
) -> (StateView, VsyncStage, VsyncAction) {
    match stage {
        VsyncStage::Drain => if state.current == state.last {
            (state, VsyncStage::FinalClear, park(state))
        } else if state.is_blanked {
            (
                state,
                VsyncStage::Unblanking,
                VsyncAction::Unblank { slot_idx: slot_of(state.current) as u32 },
            )
        } else {
            (state, VsyncStage::Panned, pan_to(slot_of(state.current)))
        },
        VsyncStage::Panned => if state.previous >= 0 {
            (
                state,
                VsyncStage::Cleared,
                VsyncAction::Clear { slot_idx: slot_of(state.previous) as u32 },
            )
        } else {
            (advanced(state), VsyncStage::Drain, VsyncAction::NotifyGenerator)
        },
        // Only now does the generator get the cleared slot.
        VsyncStage::Cleared => (
            advanced(state),
            VsyncStage::Drain,
            VsyncAction::NotifyGenerator,
        ),
        VsyncStage::FinalClear => if state.previous >= 0 {
            (
                state,
                VsyncStage::FinalCleared,
                VsyncAction::Clear { slot_idx: slot_of(state.previous) as u32 },
            )
        } else {
            (state, VsyncStage::Await, VsyncAction::Continue)
        },
        VsyncStage::FinalCleared => (
            StateView { previous: -1, ..state },
            VsyncStage::Await,
            VsyncAction::NotifyGenerator,
        ),
        VsyncStage::Await => if state.vsync_shutdown {
            (state, stage, VsyncAction::Exit)
        } else if state.current != state.last || state.clear_request {
            (StateView { clear_request: false, ..state }, VsyncStage::Drain, park(state))
        } else if state.is_blanked {
            (state, stage, VsyncAction::Wait { limit: None })
        } else if state.blank_delay == 0 || expired {
            (state, VsyncStage::Blanking, VsyncAction::Blank)
        } else {
            (state, stage, VsyncAction::Wait { limit: Some(state.blank_delay as u32) })
        },
        VsyncStage::Unblanking => if succeeded {
            // Unblanking shows the current slot, so it counts as panned to.
            let shown = StateView { is_blanked: false, ..advanced(state) };
            (shown, VsyncStage::Drain, park(shown))
        } else {
            (state, VsyncStage::Await, pause(state))
        },
        VsyncStage::Blanking => if succeeded {
            (StateView { is_blanked: true, ..state }, VsyncStage::Await, VsyncAction::Continue)
        } else {
            (state, VsyncStage::Await, pause(state))
        },
    }
}

/// Several steps in a row, none of which follows a request that succeeded or a wait
/// whose time was up.
pub open spec fn vsync_run(state: StateView, stage: VsyncStage, steps: nat) -> (
    StateView,
    VsyncStage,
)
    decreases steps,
{
    if steps == 0 {
        (state, stage)
    } else {
        let (next, after, _) = vsync_next(state, stage, false, false);
        vsync_run(next, after, (steps - 1) as nat)
    }
}

/// The number of steps in which the vsync side drains the ring: a pan and an advance
/// per filled slot, and a clearing for all but a first one.
pub open spec fn drain_steps(state: StateView) -> int {
    if state.current == state.last {
        1
    } else {
        3 * (state.last - state.current) + 1 - (if state.previous >= 0 {
            0int
        } else {
            1
        })
    }
}

/// Left alone with the panel unblanked, the vsync side drains the ring: it catches up
/// with the generator, and touches nothing else of the state.
pub proof fn law_drain_catches_up(state: StateView)
    requires
        state.inv(),
        !state.is_blanked,
    ensures
        vsync_run(state, VsyncStage::Drain, drain_steps(state) as nat) == (
            StateView {
                current: state.last,
                previous: if state.current == state.last {
                    state.previous
                } else {
                    state.last - 1
                },
                ..state
            },
            VsyncStage::FinalClear,
        ),
    decreases state.last - state.current,
{
    reveal_with_fuel(vsync_run, 4);
    if state.current != state.last {
        let next = advanced(state);
        law_drain_catches_up(next);
        let rest = drain_steps(next) as nat;
        assert(vsync_next(state, VsyncStage::Drain, false, false).0 == state);
        if state.previous >= 0 {
            assert(vsync_next(state, VsyncStage::Cleared, false, false).0 == next);
            assert(drain_steps(state) == rest + 3);
        } else {
            assert(vsync_next(state, VsyncStage::Panned, false, false).0 == next);
            assert(drain_steps(state) == rest + 2);
        }
    }
}

/// A round of the drain shows the current slot, then clears the slot shown before it,
/// if that is still to be cleared, and only then advances.
pub proof fn law_drain_round(state: StateView)
    requires
        state.inv(),
        state.current < state.last,
        !state.is_blanked,
    ensures
        ({
            let (panning, panned, pan) = vsync_next(state, VsyncStage::Drain, false, false);
            let (clearing, clear_stage, then) = vsync_next(panning, panned, false, false);
            let (done, drain, _) = vsync_next(clearing, clear_stage, false, false);
            &&& pan == pan_to(slot_of(state.current))
            &&& panning == state
            &&& state.previous >= 0 ==> {
                &&& then == VsyncAction::Clear { slot_idx: slot_of(state.current - 1) as u32 }
                &&& clearing == state
                &&& done == advanced(state)
                &&& drain == VsyncStage::Drain
            }
            &&& state.previous < 0 ==> {
                &&& then == VsyncAction::NotifyGenerator
                &&& clearing == advanced(state)
                &&& clear_stage == VsyncStage::Drain
            }
        }),
{
}

/// A blanked panel rejects panning: whatever the state, a step asks for a pan only
/// where the panel is unblanked, or was unblanked successfully just before.
pub proof fn law_pans_only_unblanked(
    state: StateView,
    stage: VsyncStage,
    succeeded: bool,
    expired: bool,
)
    requires
        stage.fits(state),
    ensures
        vsync_next(state, stage, succeeded, expired).2 is Pan ==> {
            &&& !state.is_blanked || (stage == VsyncStage::Unblanking && succeeded)
            &&& !vsync_next(state, stage, succeeded, expired).0.is_blanked
        },
{
}

/// Waking up to a blanked panel with something to drive, the vsync side unblanks
/// before it pans, whether or not a clear is requested: it unblanks to the current
/// slot, which then counts as shown, parks on the spare slot and goes on draining.
pub proof fn law_wake_unblanks_first(state: StateView, expired: bool)
    requires
        state.inv(),
        VsyncStage::Await.fits(state),
        state.current < state.last,
        state.is_blanked,
        !state.vsync_shutdown,
    ensures
        ({
            let (awake, drain, none) = vsync_next(state, VsyncStage::Await, false, expired);
            let (asking, waking, unblank) = vsync_next(awake, drain, false, false);
            let (shown, after, park) = vsync_next(asking, waking, true, false);
            &&& none == VsyncAction::Continue
            &&& unblank == VsyncAction::Unblank { slot_idx: slot_of(state.current) as u32 }
            &&& park == pan_to(16)
            &&& after == VsyncStage::Drain
            &&& shown == StateView {
                is_blanked: false,
                clear_request: false,
                ..advanced(state)
            }
        }),
{
}

/// A failed unblanking loses nothing: the state stays as it is, and after a pause the
/// vsync side asks for the same unblanking again.
pub proof fn law_failed_unblanking_is_tried_again(state: StateView, expired: bool)
    requires
        state.inv(),
        VsyncStage::Unblanking.fits(state),
        !state.vsync_shutdown,
    ensures
        ({
            let (same, waiting, wait) = vsync_next(state, VsyncStage::Unblanking, false, false);
            let (awake, drain, _) = vsync_next(same, waiting, false, expired);
            let (asking, waking, unblank) = vsync_next(awake, drain, false, false);
            &&& same == state
            &&& wait == VsyncAction::Wait { limit: Some(RETRY_PAUSE) }
            &&& waking == VsyncStage::Unblanking
            &&& unblank == VsyncAction::Unblank { slot_idx: slot_of(state.current) as u32 }
            &&& asking.current == state.current
        }),
{
}

/// Only a successful unblanking unblanks the panel, and only a successful blanking
/// blanks it.
pub proof fn law_blanking(state: StateView, stage: VsyncStage, succeeded: bool, expired: bool)
    ensures
        vsync_next(state, stage, succeeded, expired).0.is_blanked == if stage
            == VsyncStage::Unblanking && succeeded {
            false
        } else if stage == VsyncStage::Blanking && succeeded {
            true
        } else {
            state.is_blanked
        },
{
}

/// With nothing to drive and nothing asked for, an unblanked panel is blanked: at once
/// with a delay of 0, and otherwise when a wait of the delay has run out. A blanked
/// panel is left alone.
pub proof fn law_idle_panel_is_blanked(state: StateView, expired: bool)
    requires
        state.inv(),
        VsyncStage::Await.fits(state),
        state.current == state.last,
        !state.vsync_shutdown,
        !state.clear_request,
    ensures
        ({
            let (asking, stage, action) = vsync_next(state, VsyncStage::Await, false, expired);
            &&& !state.is_blanked && (state.blank_delay == 0 || expired) ==> {
                let (done, after, _) = vsync_next(asking, stage, true, false);
                &&& action == VsyncAction::Blank
                &&& done == StateView { is_blanked: true, ..state }
                &&& after == VsyncStage::Await
            }
            &&& !state.is_blanked && state.blank_delay > 0 && !expired ==> {
                &&& action == VsyncAction::Wait { limit: Some(state.blank_delay as u32) }
                &&& (asking, stage) == (state, VsyncStage::Await)
            }
            &&& state.is_blanked ==> {
                &&& action == VsyncAction::Wait { limit: None }
                &&& (asking, stage) == (state, VsyncStage::Await)
            }
        }),
{
}

/// The vsync side waits without a limit exactly if it is caught up, asked for nothing,
/// and the panel is blanked. It ends exactly if shutdown is requested where it would
/// wait, whether or not a clear is.
pub proof fn law_waiting_and_ending(
    state: StateView,
    stage: VsyncStage,
    succeeded: bool,
    expired: bool,
)
    requires
        state.inv(),
        stage.fits(state),
    ensures
        vsync_next(state, stage, succeeded, expired).2 == (VsyncAction::Wait { limit: None })
            <==> stage == VsyncStage::Await && state.current == state.last && state.is_blanked
            && !state.vsync_shutdown && !state.clear_request,
        vsync_next(state, stage, succeeded, expired).2 is Wait ==> state.previous == -1
            && !state.vsync_shutdown,
        vsync_next(state, stage, succeeded, expired).2 is Exit <==> stage == VsyncStage::Await
            && state.vsync_shutdown,
{
}

/// What a step asks for. A clearing is always of the slot shown last, that is, of the
/// previous phase modulo 16, and is asked for after a pan and at the end of a drain. The
/// current slot, the current phase modulo 16, is panned to or unblanked to exactly while
/// slots are left to drive; the only other pan is to the spare slot 16. The generator is
/// woken exactly after an advance of the drain and after the last clearing. A request
/// that failed is tried again after a second.
pub proof fn law_what_a_step_asks_for(
    state: StateView,
    stage: VsyncStage,
    succeeded: bool,
    expired: bool,
)
    requires
        state.inv(),
        stage.fits(state),
    ensures
        ({
            let (next, after, action) = vsync_next(state, stage, succeeded, expired);
            let pending = state.current != state.last;
            &&& action is Clear <==> (stage == VsyncStage::Panned || stage
                == VsyncStage::FinalClear) && state.previous >= 0
            &&& action matches VsyncAction::Clear { slot_idx } ==> {
                &&& slot_idx == state.previous % 16
                &&& slot_idx == (state.current - 1) % 16
                &&& next == state
            }
            &&& stage == VsyncStage::Drain && pending && !state.is_blanked ==> action == (
            VsyncAction::Pan { slot_idx: (state.current % 16) as u32 })
            &&& stage == VsyncStage::Drain && pending && state.is_blanked ==> action == (
            VsyncAction::Unblank { slot_idx: (state.current % 16) as u32 })
            &&& action is Unblank ==> stage == VsyncStage::Drain && pending && state.is_blanked
            &&& action is Pan && !(stage == VsyncStage::Drain && pending) ==> action == (
            VsyncAction::Pan { slot_idx: 16 })
            &&& stage == VsyncStage::Drain && !pending && !state.is_blanked ==> action is Pan
            &&& stage == VsyncStage::Unblanking && succeeded ==> action is Pan
            &&& stage == VsyncStage::Await && !state.vsync_shutdown && (pending
                || state.clear_request) && !state.is_blanked ==> action is Pan
            &&& action is NotifyGenerator <==> {
                ||| stage == VsyncStage::Panned && state.previous < 0
                ||| stage == VsyncStage::Cleared
                ||| stage == VsyncStage::FinalCleared
            }
            &&& (stage == VsyncStage::Unblanking || stage == VsyncStage::Blanking) && !succeeded
                ==> action == if state.vsync_shutdown {
                VsyncAction::Continue
            } else {
                VsyncAction::Wait { limit: Some(1) }
            }
            &&& action is Blank <==> stage == VsyncStage::Await && !pending && !state.is_blanked
                && !state.vsync_shutdown && !state.clear_request && (state.blank_delay == 0
                || expired)
        }),
{
}

/// What a step changes. The current phase advances by one exactly when its slot has been
/// shown and the slot before it is cleared; the slot to clear is then the one just shown,
/// and none after the last clearing. A clear request is taken back when it ends a wait.
/// Nothing else of the state changes but whether the panel is blanked.
pub proof fn law_what_a_step_changes(
    state: StateView,
    stage: VsyncStage,
    succeeded: bool,
    expired: bool,
)
    requires
        state.inv(),
        stage.fits(state),
    ensures
        ({
            let (next, after, _) = vsync_next(state, stage, succeeded, expired);
            let advances = (stage == VsyncStage::Panned && state.previous < 0) || stage
                == VsyncStage::Cleared || (stage == VsyncStage::Unblanking && succeeded);
            &&& advances ==> {
                &&& next.current == state.current + 1
                &&& next.previous == state.current
                &&& after == VsyncStage::Drain
            }
            &&& !advances ==> next.current == state.current
            &&& !advances ==> next.previous == if stage == VsyncStage::FinalCleared {
                -1
            } else {
                state.previous
            }
            &&& next.clear_request == (state.clear_request && !(stage == VsyncStage::Await
                && !state.vsync_shutdown))
            &&& next == (StateView {
                current: next.current,
                previous: next.previous,
                clear_request: next.clear_request,
                is_blanked: next.is_blanked,
                ..state
            })
        }),
{
}

/// Where a step leads. A drain goes on slot by slot until the ring is drained; then the
/// slot shown last is cleared, if there is one, and the vsync side waits. It drains again
/// exactly when there is something to drive or a clear is requested.
pub proof fn law_where_a_step_leads(
    state: StateView,
    stage: VsyncStage,
    succeeded: bool,
    expired: bool,
)
    requires
        state.inv(),
        stage.fits(state),
    ensures
        ({
            let after = vsync_next(state, stage, succeeded, expired).1;
            let pending = state.current != state.last;
            match stage {
                VsyncStage::Drain => {
                    &&& after == VsyncStage::Panned <==> pending && !state.is_blanked
                    &&& after == VsyncStage::Unblanking <==> pending && state.is_blanked
                    &&& after == VsyncStage::FinalClear <==> !pending
                },
                VsyncStage::Panned => {
                    &&& after == VsyncStage::Cleared <==> state.previous >= 0
                    &&& after == VsyncStage::Drain <==> state.previous < 0
                },
                VsyncStage::FinalClear => {
                    &&& after == VsyncStage::FinalCleared <==> state.previous >= 0
                    &&& after == VsyncStage::Await <==> state.previous < 0
                },
                VsyncStage::Await => {
                    &&& after == VsyncStage::Drain <==> !state.vsync_shutdown && (pending
                        || state.clear_request)
                    &&& after == VsyncStage::Drain || after == VsyncStage::Blanking || after
                        == VsyncStage::Await
                },
                VsyncStage::Unblanking => after == if succeeded {
                    VsyncStage::Drain
                } else {
                    VsyncStage::Await
                },
                VsyncStage::Cleared => after == VsyncStage::Drain,
                VsyncStage::FinalCleared | VsyncStage::Blanking => after == VsyncStage::Await,
            }
        }),
{
}

/// The vsync side.
#[derive(Debug)]
pub struct Vsync {
    stage: VsyncStage,
    zero_content_line: Vec<u8>,
}

impl View for Vsync {
    type V = VsyncStage;

    closed spec fn view(&self) -> VsyncStage {
        self.stage
    }
}

/// The action that parks the panel.
fn park_action(state: &SharedState) -> (r: VsyncAction)
    ensures
        r == park(state@),
{
    if state.is_blanked {
        VsyncAction::Continue
    } else {
        VsyncAction::Pan { slot_idx: IDLE_SLOT }
    }
}

/// The pause after a failed request.
fn pause_action(state: &SharedState) -> (r: VsyncAction)
    ensures
        r == pause(state@),
{
    if state.vsync_shutdown {
        VsyncAction::Continue
    } else {
        VsyncAction::Wait { limit: Some(RETRY_PAUSE) }
    }
}

/// Counts the current slot as shown.
fn advance(state: &mut SharedState)
    requires
        old(state)@.current < i32::MAX,
    ensures
        final(state)@ == advanced(old(state)@),
{
    state.previous_pan_phase = state.current_pan_phase;
    state.current_pan_phase = state.current_pan_phase + 1;
}

impl Vsync {
    /// The line that clearing writes is the content row of a zero pan buffer.
    #[verifier::type_invariant]
    closed spec fn line_inv(self) -> bool {
        self.zero_content_line@ == zero_line()
    }

    /// A vsync side that starts by draining.
    pub fn new() -> (v: Self)
        ensures
            v@ == VsyncStage::Drain,
    {
        Vsync { stage: VsyncStage::Drain, zero_content_line: zero_content_line() }
    }

    /// One step. Called with the shared state locked; the action is performed with
    /// the lock released. `succeeded` is read only after an unblank or blank action,
    /// and `expired` only after a wait.
    pub fn next_action(&mut self, state: &mut SharedState, succeeded: bool, expired: bool) -> (
        action: VsyncAction)
        requires
            old(state)@.inv(),
            old(self)@.fits(old(state)@),
        ensures
            (final(state)@, final(self)@, action) == vsync_next(
                old(state)@,
                old(self)@,
                succeeded,
                expired,
            ),
            final(state)@.inv(),
            final(self)@.fits(final(state)@),
    {
        proof {
            use_type_invariant(&*self);
        }
        match self.stage {
            VsyncStage::Drain => {
                if state.current_pan_phase == state.last_pan_phase {
                    self.stage = VsyncStage::FinalClear;
                    park_action(state)
                } else if state.is_blanked {
                    self.stage = VsyncStage::Unblanking;
                    VsyncAction::Unblank { slot_idx: norm_phase(state.current_pan_phase) }
                } else {
                    self.stage = VsyncStage::Panned;
                    VsyncAction::Pan { slot_idx: norm_phase(state.current_pan_phase) }
                }
            },
            VsyncStage::Panned => {
                if state.previous_pan_phase >= 0 {
                    self.stage = VsyncStage::Cleared;
                    VsyncAction::Clear { slot_idx: norm_phase(state.previous_pan_phase) }
                } else {
                    advance(state);
                    self.stage = VsyncStage::Drain;
                    VsyncAction::NotifyGenerator
                }
            },
            VsyncStage::Cleared => {
                // Only now does the generator get the cleared slot.
                advance(state);
                self.stage = VsyncStage::Drain;
                VsyncAction::NotifyGenerator
            },
            VsyncStage::FinalClear => {
                if state.previous_pan_phase >= 0 {
                    self.stage = VsyncStage::FinalCleared;
                    VsyncAction::Clear { slot_idx: norm_phase(state.previous_pan_phase) }
                } else {
                    self.stage = VsyncStage::Await;
                    VsyncAction::Continue
                }
            },
            VsyncStage::FinalCleared => {
                state.previous_pan_phase = -1;
                self.stage = VsyncStage::Await;
                VsyncAction::NotifyGenerator
            },
            VsyncStage::Await => {
                // Shutdown takes priority over a clear request.
                if state.vsync_shutdown {
                    return VsyncAction::Exit;
                }
                if state.current_pan_phase != state.last_pan_phase || state.vsync_clear_request {
                    state.vsync_clear_request = false;
                    self.stage = VsyncStage::Drain;
                    return park_action(state);
                }
                if state.is_blanked {
                    VsyncAction::Wait { limit: None }
                } else if state.vsync_blank_delay == 0 || expired {
                    self.stage = VsyncStage::Blanking;
                    VsyncAction::Blank
                } else {
                    VsyncAction::Wait { limit: Some(state.vsync_blank_delay) }
                }
            },
            VsyncStage::Unblanking => {
                if succeeded {
                    // Unblanking shows the current slot, so it counts as panned to.
                    state.is_blanked = false;
                    advance(state);
                    self.stage = VsyncStage::Drain;
                    park_action(state)
                } else {
                    self.stage = VsyncStage::Await;
                    pause_action(state)
                }
            },
            VsyncStage::Blanking => {
                self.stage = VsyncStage::Await;
                if succeeded {
                    state.is_blanked = true;
                    VsyncAction::Continue
                } else {
                    pause_action(state)
                }
            },
        }
    }

    /// Clears a slot, as the last step asked for.
    pub fn clear(&self, slot: &mut [u8], dirty_row: &mut [u8])
        requires
            old(slot)@.len() >= SLOT_BYTES,
            old(dirty_row)@.len() == SCREEN_WIDTH,
        ensures
            final(slot)@ == cleared(old(slot)@, old(dirty_row)@, zero_line()),
            all_clean(final(dirty_row)@),
            final(dirty_row)@ == Seq::new(1404, |c: int| 0u8),
    {
        proof {
            use_type_invariant(self);
        }
        clear_dirty_buffer(slot, dirty_row, self.zero_content_line.as_slice());
    }
}

} // verus!
