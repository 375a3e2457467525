//! The state that the generator, the vsync side and external producers share.
//!
//! - **Slot ring**: the generator advances `last_pan_phase` as it fills slots; the
//!   vsync side chases it with `current_pan_phase`. The slot of a phase is the
//!   phase modulo 16. Back-pressure caps the gap at [`MAX_RING_GAP`].
//! - **Queue**: producers push messages at the back, the generator takes them from
//!   the front.
//!
//! The two sides are the step machines of [`crate::generator`] and
//! [`crate::vsync`]: each step reads and updates the shared state and says what to
//! do next. Whoever runs them guards the state with a lock during a step and
//! performs the actions outside it.
use std::collections::VecDeque;

use vstd::prelude::*;

use crate::constants::PAN_BUFFERS_COUNT;
pub use crate::update::{PanelRect, UpdateMsg};

verus! {

/// Slot-ring back-pressure depth. At a gap of 15 the next reserved slot would be
/// the slot that the vsync side is driving; 14 leaves one slot in between.
pub const MAX_RING_GAP: i32 = 14;

/// The spare slot, to which the vsync side pans when there is nothing to drive.
pub const IDLE_SLOT: u32 = PAN_BUFFERS_COUNT as u32;

/// State shared between the two sides and external producers.
#[derive(Debug)]
pub struct SharedState {
    /// The next phase to pan to.
    pub current_pan_phase: i32,
    /// The last phase whose slot is filled.
    pub last_pan_phase: i32,
    /// The phase panned to last whose slot is not yet cleared, or -1.
    pub previous_pan_phase: i32,
    pub is_blanked: bool,
    pub vsync_shutdown: bool,
    pub generator_shutdown: bool,
    pub vsync_clear_request: bool,
    /// Auto-blank delay in seconds: how long the vsync side waits with nothing to
    /// drive before it blanks the panel. 0 blanks immediately.
    pub vsync_blank_delay: u32,
    /// Messages that the generator has not taken yet.
    pub msg_queue: VecDeque<UpdateMsg>,
    /// The generator has taken a message and is not yet idle again.
    pub generator_busy: bool,
}

/// The shared state as mathematical values.
#[verifier::ext_equal]
pub struct StateView {
    pub current: int,
    pub last: int,
    pub previous: int,
    pub is_blanked: bool,
    pub vsync_shutdown: bool,
    pub generator_shutdown: bool,
    pub clear_request: bool,
    pub blank_delay: int,
    pub queue: Seq<UpdateMsg>,
    pub generator_busy: bool,
}

impl View for SharedState {
    type V = StateView;

    open spec fn view(&self) -> StateView {
        StateView {
            current: self.current_pan_phase as int,
            last: self.last_pan_phase as int,
            previous: self.previous_pan_phase as int,
            is_blanked: self.is_blanked,
            vsync_shutdown: self.vsync_shutdown,
            generator_shutdown: self.generator_shutdown,
            clear_request: self.vsync_clear_request,
            blank_delay: self.vsync_blank_delay as int,
            queue: self.msg_queue@,
            generator_busy: self.generator_busy,
        }
    }
}

impl StateView {
    /// The slot-ring invariant: the vsync side never overtakes the generator, the
    /// gap stays within the back-pressure depth, the slot to be cleared next is the
    /// one just in front of the current one, and there is none while the panel is
    /// blanked. Queued messages are valid.
    pub open spec fn inv(self) -> bool {
        &&& 0 <= self.current <= self.last <= i32::MAX
        &&& self.last - self.current <= MAX_RING_GAP
        &&& self.previous == -1 || self.previous == self.current - 1
        &&& self.is_blanked ==> self.previous == -1
        &&& forall|i: int| 0 <= i < self.queue.len() ==> (#[trigger] self.queue[i]).valid()
    }

    /// The generator may fill another slot.
    pub open spec fn has_room(self) -> bool {
        self.last - self.current < MAX_RING_GAP
    }

    /// Every message is taken and done with, and the vsync side has caught up.
    pub open spec fn drained(self) -> bool {
        self.queue.len() == 0 && !self.generator_busy && self.current == self.last
    }
}

/// The slot of a phase.
pub open spec fn slot_of(phase: int) -> int {
    phase % 16
}

/// Slot index of a phase counter.
pub fn norm_phase(phase: i32) -> (r: u32)
    ensures
        r == slot_of(phase as int),
        r == phase as int % 16,
        r < 16,
{
    if phase >= 0 {
        (phase % 16) as u32
    } else {
        15 - ((-1 - phase) % 16) as u32
    }
}

/// What a caller that waits for the queue to drain does next.
#[derive(Debug, Clone, Copy, PartialEq, Eq, Structural)]
pub enum FlushStep {
    /// Everything is drained.
    Done,
    /// The time is up with work still pending.
    TimedOut,
    /// Look again a little later.
    Sleep,
}

impl SharedState {
    /// The state at start: nothing filled, nothing queued, the panel blanked.
    pub fn new() -> (s: Self)
        ensures
            s@ == (StateView {
                current: 0,
                last: 0,
                previous: -1,
                is_blanked: true,
                vsync_shutdown: false,
                generator_shutdown: false,
                clear_request: false,
                blank_delay: 0,
                queue: Seq::empty(),
                generator_busy: false,
            }),
            s@.inv(),
    {
        SharedState {
            current_pan_phase: 0,
            last_pan_phase: 0,
            previous_pan_phase: -1,
            is_blanked: true,
            vsync_shutdown: false,
            generator_shutdown: false,
            vsync_clear_request: false,
            vsync_blank_delay: 0,
            msg_queue: VecDeque::new(),
            generator_busy: false,
        }
    }

    /// Enqueues a message. The caller wakes the generator afterwards.
    pub fn submit(&mut self, msg: UpdateMsg)
        requires
            msg.valid(),
        ensures
            final(self)@ == (StateView { queue: old(self)@.queue.push(msg), ..old(self)@ }),
            old(self)@.inv() ==> final(self)@.inv(),
    {
        self.msg_queue.push_back(msg);
    }

    /// Number of messages queued but not yet taken by the generator.
    pub fn pending_count(&self) -> (r: usize)
        ensures
            r == self@.queue.len(),
    {
        self.msg_queue.len()
    }

    /// Requests shutdown of both sides. The caller wakes and joins them afterwards.
    pub fn request_shutdown(&mut self)
        ensures
            final(self)@ == (StateView {
                generator_shutdown: true,
                vsync_shutdown: true,
                ..old(self)@
            }),
            old(self)@.inv() ==> final(self)@.inv(),
    {
        self.generator_shutdown = true;
        self.vsync_shutdown = true;
    }

    /// What a flush does next. `expired` tells whether its time is up; a drained
    /// state counts even then.
    pub fn flush_step(&self, expired: bool) -> (r: FlushStep)
        ensures
            r == if self@.drained() {
                FlushStep::Done
            } else if expired {
                FlushStep::TimedOut
            } else {
                FlushStep::Sleep
            },
            r == FlushStep::Done <==> self@.queue.len() == 0 && !self@.generator_busy
                && self@.current == self@.last,
    {
        if self.pending_count() == 0 && !self.generator_busy && self.current_pan_phase
            == self.last_pan_phase {
            FlushStep::Done
        } else if expired {
            FlushStep::TimedOut
        } else {
            FlushStep::Sleep
        }
    }
}

} // verus!
