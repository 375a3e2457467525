//! The generator side: takes messages from the queue and fills slots, phase by
//! phase, with back-pressure between phases.
use vstd::prelude::*;

#[allow(unused_imports)]
use crate::constants::SCREEN_WIDTH;
#[allow(unused_imports)]
use crate::fb::SLOT_BYTES;
use crate::runtime::{norm_phase, SharedState, MAX_RING_GAP};
#[allow(unused_imports)]
use crate::runtime::{slot_of, StateView};
#[allow(unused_imports)]
use crate::slots::{committed, encoded, marked, PIXELS};
use crate::slots::{commit_change_tracking, encode_phase_into, new_change_tracking};
use crate::update::UpdateMsg;

verus! {

/// Where the generator stands between two steps.
#[derive(Debug, Clone, Copy, PartialEq, Eq, Structural)]
pub enum GeneratorStage {
    /// Waits for a message or for shutdown.
    Idle,
    /// Looks for the next message; goes idle when there is none.
    Drain,
    /// Waits for room in the ring, for the next phase of its message.
    Room,
    /// Its caller encodes a phase into the reserved slot.
    Encoding,
    /// Every phase of its message is emitted.
    Finished,
    /// Its caller commits its message.
    Committing,
}

/// What the caller does before the next step.
#[derive(Debug, Clone, Copy, PartialEq, Eq, Structural)]
pub enum GeneratorAction {
    /// Step again.
    Continue,
    /// Wait to be woken, then step again.
    Wait,
    /// Encode phase `phase_idx` into slot `slot_idx` with [`Generator::encode`].
    Encode { phase_idx: u32, slot_idx: u32 },
    /// Wake the vsync side: a slot is ready.
    NotifyVsync,
    /// Call [`Generator::commit`].
    Commit,
    /// End.
    Exit,
}

/// The generator. It alone owns the change-tracking buffer.
#[derive(Debug)]
pub struct Generator {
    stage: GeneratorStage,
    msg: Option<UpdateMsg>,
    phase_idx: u32,
    change_tracking: Vec<u8>,
}

/// The generator as mathematical values, without the change-tracking buffer.
pub struct GeneratorView {
    pub stage: GeneratorStage,
    pub msg: Option<UpdateMsg>,
    /// The next phase of the message to emit.
    pub phase: int,
}

impl GeneratorView {
    /// There is a message wherever the stage speaks of one, it is valid, and the
    /// phase counter is within its phases.
    pub open spec fn inv(self) -> bool {
        match self.stage {
            GeneratorStage::Idle | GeneratorStage::Drain => true,
            GeneratorStage::Room | GeneratorStage::Encoding => {
                &&& self.msg matches Some(m)
                &&& m.valid()
                &&& 0 <= self.phase < m.phases()
            },
            GeneratorStage::Finished => {
                &&& self.msg matches Some(m)
                &&& m.valid()
                &&& self.phase == m.phases()
            },
            GeneratorStage::Committing => {
                &&& self.msg matches Some(m)
                &&& m.valid()
                &&& m.phase_limit is None
                &&& self.phase == m.phases()
            },
        }
    }

    /// The shared state knows whether the generator is idle. While it encodes, the
    /// room that it found in the ring is still there.
    pub open spec fn fits(self, state: StateView) -> bool {
        &&& state.generator_busy == (self.stage != GeneratorStage::Idle)
        &&& self.stage == GeneratorStage::Encoding ==> state.has_room() && state.last < i32::MAX
    }

    /// The next step needs a phase counter behind the largest one.
    pub open spec fn overflows(self, state: StateView) -> bool {
        self.stage == GeneratorStage::Room && !state.generator_shutdown && state.has_room()
            && state.last == i32::MAX
    }
}

/// The generator at the start of a message: a message without phases is finished
/// at once.
pub open spec fn started(msg: UpdateMsg) -> GeneratorView {
    GeneratorView {
        stage: if msg.phases() == 0 {
            GeneratorStage::Finished
        } else {
            GeneratorStage::Room
        },
        msg: Some(msg),
        phase: 0,
    }
}

/// One step: the state, the generator and the action that follow.
pub open spec fn generator_next(state: StateView, g: GeneratorView) -> (
    StateView,
    GeneratorView,
    GeneratorAction,
) {
    match g.stage {
        GeneratorStage::Idle => if state.generator_shutdown {
            (state, g, GeneratorAction::Exit)
        } else if state.queue.len() == 0 {
            (state, g, GeneratorAction::Wait)
        } else {
            (
                StateView {
                    queue: state.queue.drop_first(),
                    generator_busy: true,
                    ..state
                },
                started(state.queue[0]),
                GeneratorAction::Continue,
            )
        },
        GeneratorStage::Drain => if state.queue.len() == 0 {
            (
                StateView { generator_busy: false, ..state },
                GeneratorView { stage: GeneratorStage::Idle, ..g },
                GeneratorAction::Continue,
            )
        } else {
            (
                StateView { queue: state.queue.drop_first(), ..state },
                started(state.queue[0]),
                GeneratorAction::Continue,
            )
        },
        GeneratorStage::Room => if state.generator_shutdown {
            (state, g, GeneratorAction::Exit)
        } else if state.has_room() {
            (
                state,
                GeneratorView { stage: GeneratorStage::Encoding, ..g },
                GeneratorAction::Encode {
                    phase_idx: g.phase as u32,
                    slot_idx: slot_of(state.last + 1) as u32,
                },
            )
        } else {
            (state, g, GeneratorAction::Wait)
        },
        GeneratorStage::Encoding => (
            StateView { last: state.last + 1, ..state },
            GeneratorView {
                stage: if g.phase + 1 == g.msg->Some_0.phases() {
                    GeneratorStage::Finished
                } else {
                    GeneratorStage::Room
                },
                phase: g.phase + 1,
                ..g
            },
            GeneratorAction::NotifyVsync,
        ),
        GeneratorStage::Finished => if g.msg->Some_0.phase_limit is None {
            (
                state,
                GeneratorView { stage: GeneratorStage::Committing, ..g },
                GeneratorAction::Commit,
            )
        } else {
            (
                state,
                GeneratorView { stage: GeneratorStage::Drain, ..g },
                GeneratorAction::Continue,
            )
        },
        GeneratorStage::Committing => (state, g, GeneratorAction::Commit),
    }
}

/// The generator waits exactly if it is idle without a message or has a phase to
/// emit without room in the ring, and shutdown is not requested; it ends exactly if
/// shutdown is requested while it is idle or has a phase to emit.
pub proof fn law_waiting_and_ending(state: StateView, g: GeneratorView)
    requires
        state.inv(),
        g.inv(),
    ensures
        generator_next(state, g).2 is Wait <==> !state.generator_shutdown && ((g.stage
            == GeneratorStage::Idle && state.queue.len() == 0) || (g.stage == GeneratorStage::Room
            && state.last - state.current == MAX_RING_GAP)),
        generator_next(state, g).2 is Exit <==> state.generator_shutdown && (g.stage
            == GeneratorStage::Idle || g.stage == GeneratorStage::Room),
{
}

/// The generator fills the slot behind the last filled one, and only while there is
/// room in the ring.
pub proof fn law_encodes_behind_the_last(state: StateView, g: GeneratorView)
    requires
        state.inv(),
        g.inv(),
    ensures
        generator_next(state, g).2 matches GeneratorAction::Encode { phase_idx, slot_idx } ==> {
            &&& g.stage == GeneratorStage::Room
            &&& state.last - state.current < MAX_RING_GAP
            &&& phase_idx == g.phase
            &&& slot_idx == slot_of(state.last + 1)
        },
{
}

/// What a step asks for. A phase is encoded exactly if there is one to emit, fewer than
/// 14 slots are ahead of the vsync side and shutdown is not requested: the message's next
/// phase, into the slot of the phase behind the last, modulo 16. The vsync side is woken
/// exactly after a phase. A commit follows exactly the last phase of a message without a
/// limit.
pub proof fn law_what_a_step_asks_for(state: StateView, g: GeneratorView)
    requires
        state.inv(),
        g.inv(),
    ensures
        ({
            let (next, after, action) = generator_next(state, g);
            &&& action is Encode <==> g.stage == GeneratorStage::Room && !state.generator_shutdown
                && state.last - state.current < 14
            &&& action matches GeneratorAction::Encode { phase_idx, slot_idx } ==> {
                &&& phase_idx == g.phase
                &&& slot_idx == (state.last + 1) % 16
                &&& next == state
                &&& after == (GeneratorView { stage: GeneratorStage::Encoding, ..g })
            }
            &&& action is NotifyVsync <==> g.stage == GeneratorStage::Encoding
            &&& g.stage == GeneratorStage::Finished ==> (action is Commit
                <==> g.msg->Some_0.phase_limit is None)
            &&& action is Commit ==> after.stage == GeneratorStage::Committing && after.msg == g.msg
        }),
{
}

/// What a step changes. Only an encoded phase moves the last phase, by one, together with
/// the message's own count; a message with phases left stays. A message is taken from the
/// front of the queue, exactly when the generator has none and, if it is idle, shutdown is
/// not requested; it starts with its first phase. Nothing else of the state changes but
/// whether the generator is busy.
pub proof fn law_what_a_step_changes(state: StateView, g: GeneratorView)
    requires
        state.inv(),
        g.inv(),
        g.fits(state),
    ensures
        ({
            let (next, after, _) = generator_next(state, g);
            let emitted: int = if g.stage == GeneratorStage::Encoding {
                1
            } else {
                0
            };
            let takes = state.queue.len() > 0 && (g.stage == GeneratorStage::Drain || (g.stage
                == GeneratorStage::Idle && !state.generator_shutdown));
            &&& next.last == state.last + emitted
            &&& takes ==> {
                &&& state.queue == seq![state.queue[0]] + next.queue
                &&& after.msg == Some(state.queue[0])
                &&& after.phase == 0
                &&& next.generator_busy
            }
            &&& !takes ==> {
                &&& next.queue == state.queue
                &&& after.msg == g.msg
                &&& after.phase == g.phase + emitted
            }
            &&& (takes || g.stage == GeneratorStage::Encoding) ==> (after.stage
                == GeneratorStage::Finished <==> after.phase == after.msg->Some_0.phases()) && (
            after.stage == GeneratorStage::Room <==> after.phase != after.msg->Some_0.phases())
            &&& g.stage == GeneratorStage::Finished && g.msg->Some_0.phase_limit is Some
                ==> after.stage == GeneratorStage::Drain
            &&& g.stage == GeneratorStage::Drain && !takes ==> after.stage == GeneratorStage::Idle
                && !next.generator_busy
            &&& next.generator_busy <==> after.stage != GeneratorStage::Idle
            &&& next == (StateView {
                last: next.last,
                queue: next.queue,
                generator_busy: next.generator_busy,
                ..state
            })
        }),
{
    if state.queue.len() > 0 {
        assert(state.queue =~= seq![state.queue[0]] + state.queue.drop_first());
    }
}

impl View for Generator {
    type V = GeneratorView;

    closed spec fn view(&self) -> GeneratorView {
        GeneratorView { stage: self.stage, msg: self.msg, phase: self.phase_idx as int }
    }
}

impl Generator {
    /// The gray level that each panel pixel shows, in both nibbles.
    pub closed spec fn change(&self) -> Seq<u8> {
        self.change_tracking@
    }

    /// The generator's own invariant.
    pub open spec fn inv(&self) -> bool {
        self@.inv() && self.change().len() == PIXELS
    }

    /// An idle generator that takes the panel to be white.
    pub fn new() -> (g: Self)
        ensures
            g.inv(),
            g@ == (GeneratorView { stage: GeneratorStage::Idle, msg: None, phase: 0 }),
            g.change() == Seq::new(PIXELS as nat, |i: int| 0xffu8),
    {
        Generator {
            stage: GeneratorStage::Idle,
            msg: None,
            phase_idx: 0,
            change_tracking: new_change_tracking(),
        }
    }

    /// Whether the next step needs a phase counter behind the largest one.
    pub fn is_exhausted(&self, state: &SharedState) -> (r: bool)
        requires
            state@.inv(),
        ensures
            r == self@.overflows(state@),
            r <==> self@.stage == GeneratorStage::Room && !state@.generator_shutdown && state@.last
                - state@.current < 14 && state@.last == 0x7fff_ffff,
    {
        self.stage == GeneratorStage::Room && !state.generator_shutdown
            && state.last_pan_phase - state.current_pan_phase < MAX_RING_GAP
            && state.last_pan_phase == i32::MAX
    }

    /// Starts on a message.
    fn start(&mut self, msg: UpdateMsg)
        ensures
            final(self)@ == started(msg),
            final(self).change() == old(self).change(),
    {
        self.stage = if msg.total_phases() == 0 {
            GeneratorStage::Finished
        } else {
            GeneratorStage::Room
        };
        self.phase_idx = 0;
        self.msg = Some(msg);
    }

    /// One step. Called with the shared state locked; the action is performed with
    /// the lock released.
    pub fn next_action(&mut self, state: &mut SharedState) -> (action: GeneratorAction)
        requires
            old(self).inv(),
            old(state)@.inv(),
            old(self)@.fits(old(state)@),
            !old(self)@.overflows(old(state)@),
        ensures
            (final(state)@, final(self)@, action) == generator_next(old(state)@, old(self)@),
            final(self).change() == old(self).change(),
            final(self).inv(),
            final(state)@.inv(),
            final(self)@.fits(final(state)@),
    {
        match self.stage {
            GeneratorStage::Idle => {
                if state.generator_shutdown {
                    return GeneratorAction::Exit;
                }
                match state.msg_queue.pop_front() {
                    Some(msg) => {
                        self.start(msg);
                        state.generator_busy = true;
                        assert(state@.queue =~= old(state)@.queue.drop_first());
                        GeneratorAction::Continue
                    },
                    None => GeneratorAction::Wait,
                }
            },
            GeneratorStage::Drain => {
                match state.msg_queue.pop_front() {
                    Some(msg) => {
                        self.start(msg);
                        assert(state@.queue =~= old(state)@.queue.drop_first());
                    },
                    None => {
                        self.stage = GeneratorStage::Idle;
                        state.generator_busy = false;
                    },
                }
                GeneratorAction::Continue
            },
            GeneratorStage::Room => {
                if state.generator_shutdown {
                    return GeneratorAction::Exit;
                }
                if state.last_pan_phase - state.current_pan_phase >= MAX_RING_GAP {
                    return GeneratorAction::Wait;
                }
                self.stage = GeneratorStage::Encoding;
                GeneratorAction::Encode {
                    phase_idx: self.phase_idx,
                    slot_idx: norm_phase(state.last_pan_phase + 1),
                }
            },
            GeneratorStage::Encoding => {
                let total: u32 = match &self.msg {
                    Some(msg) => msg.total_phases(),
                    None => 0,
                };
                state.last_pan_phase = state.last_pan_phase + 1;
                self.phase_idx = self.phase_idx + 1;
                self.stage = if self.phase_idx == total {
                    GeneratorStage::Finished
                } else {
                    GeneratorStage::Room
                };
                GeneratorAction::NotifyVsync
            },
            GeneratorStage::Finished => {
                let commits: bool = match &self.msg {
                    Some(msg) => msg.phase_limit.is_none(),
                    None => false,
                };
                if commits {
                    self.stage = GeneratorStage::Committing;
                    GeneratorAction::Commit
                } else {
                    self.stage = GeneratorStage::Drain;
                    GeneratorAction::Continue
                }
            },
            GeneratorStage::Committing => GeneratorAction::Commit,
        }
    }

    /// Encodes the phase that the last step asked for into the slot it named.
    pub fn encode(&self, slot: &mut [u8], dirty_row: &mut [u8])
        requires
            self.inv(),
            self@.stage == GeneratorStage::Encoding,
            old(slot)@.len() >= SLOT_BYTES,
            old(dirty_row)@.len() == SCREEN_WIDTH,
        ensures
            final(slot)@ == encoded(old(slot)@, self.change(), self@.msg->Some_0, self@.phase),
            final(dirty_row)@ == marked(old(dirty_row)@, self@.msg->Some_0),
    {
        if let Some(msg) = &self.msg {
            encode_phase_into(
                self.change_tracking.as_slice(),
                slot,
                dirty_row,
                msg,
                self.phase_idx,
            );
        }
    }

    /// Commits the message's pixels to the change-tracking buffer, as the last step
    /// asked for.
    pub fn commit(&mut self)
        requires
            old(self).inv(),
            old(self)@.stage == GeneratorStage::Committing,
        ensures
            final(self).inv(),
            final(self)@ == (GeneratorView { stage: GeneratorStage::Drain, ..old(self)@ }),
            final(self).change() == committed(old(self).change(), old(self)@.msg->Some_0),
    {
        if let Some(msg) = &self.msg {
            commit_change_tracking(self.change_tracking.as_mut_slice(), msg);
        }
        self.stage = GeneratorStage::Drain;
    }
}

} // verus!
