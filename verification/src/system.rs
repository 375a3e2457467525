//! Both sides, the shared state and the slots as one system, and what holds of it
//! whatever the order in which the sides and the producers act.
use vstd::prelude::*;

#[allow(unused_imports)]
use crate::constants::SCREEN_WIDTH;
#[allow(unused_imports)]
use crate::fb::{pan_buffer, zero_line};
#[allow(unused_imports)]
use crate::generator::{
    generator_next, started, GeneratorAction, GeneratorStage, GeneratorView,
};
#[allow(unused_imports)]
use crate::runtime::{slot_of, StateView, MAX_RING_GAP};
#[allow(unused_imports)]
use crate::slots::{
    all_clean, clean_but_for, cleared, committed, encoded, law_clearing_restores,
    law_encoding_marks_what_it_touches, marked, PIXELS,
};
#[allow(unused_imports)]
use crate::update::UpdateMsg;
#[allow(unused_imports)]
use crate::vsync::{law_pans_only_unblanked, vsync_next, VsyncAction, VsyncStage};

verus! {

// ---------------------------------------------------------------------------
// What a sequence of messages amounts to
// ---------------------------------------------------------------------------

/// The change-tracking buffer of a white panel.
pub open spec fn white() -> Seq<u8> {
    Seq::new(PIXELS as nat, |i: int| 0xffu8)
}

/// The change-tracking buffer after a sequence of messages: those without a phase
/// limit are committed, one after the other.
pub open spec fn shown_after(msgs: Seq<UpdateMsg>) -> Seq<u8>
    decreases msgs.len(),
{
    if msgs.len() == 0 {
        white()
    } else if msgs.last().phase_limit is None {
        committed(shown_after(msgs.drop_last()), msgs.last())
    } else {
        shown_after(msgs.drop_last())
    }
}

/// The slot contents for the first `n` phases of a message.
pub open spec fn message_frames(change: Seq<u8>, msg: UpdateMsg, n: int) -> Seq<Seq<u8>> {
    Seq::new(n as nat, |phase: int| encoded(pan_buffer(0), change, msg, phase))
}

/// The slot contents for a sequence of messages, each encoded from what the ones
/// before it left on the panel.
pub open spec fn all_frames(msgs: Seq<UpdateMsg>) -> Seq<Seq<u8>>
    decreases msgs.len(),
{
    if msgs.len() == 0 {
        Seq::empty()
    } else {
        all_frames(msgs.drop_last()) + message_frames(
            shown_after(msgs.drop_last()),
            msgs.last(),
            msgs.last().phases(),
        )
    }
}

// ---------------------------------------------------------------------------
// The system and its moves
// ---------------------------------------------------------------------------

/// A dirty row with nothing marked.
pub open spec fn unmarked() -> Seq<u8> {
    Seq::new(SCREEN_WIDTH as nat, |c: int| 0u8)
}

/// Clearing the slot makes it a zero pan buffer.
#[verifier::opaque]
pub open spec fn is_usable(slot: Seq<u8>, dirty: Seq<u8>) -> bool {
    clean_but_for(slot, dirty)
}

/// The slot is a zero pan buffer with nothing marked.
#[verifier::opaque]
pub open spec fn is_free(slot: Seq<u8>, dirty: Seq<u8>) -> bool {
    slot == pan_buffer(0) && all_clean(dirty)
}

/// Both sides, the shared state and the slots. The last three fields are history.
#[verifier::ext_equal]
pub struct System {
    pub state: StateView,
    pub generator: GeneratorView,
    /// The encoding that the generator's stage asks for is done.
    pub encode_done: bool,
    pub change: Seq<u8>,
    pub stage: VsyncStage,
    /// The clearing that the vsync side's stage asks for is done.
    pub clear_done: bool,
    pub slots: Seq<Seq<u8>>,
    pub dirty: Seq<Seq<u8>>,
    /// The messages submitted so far.
    pub submitted: Seq<UpdateMsg>,
    /// The messages that the generator has taken so far.
    pub taken: Seq<UpdateMsg>,
    /// What the generator has encoded so far, from phase 1 on.
    pub frames: Seq<Seq<u8>>,
}

/// What can happen next.
pub enum Move {
    /// A producer submits a message.
    Submit(UpdateMsg),
    /// Shutdown is requested.
    Shutdown,
    /// A clear is requested.
    RequestClear,
    /// The blank delay is set.
    SetBlankDelay(u32),
    /// The generator takes a step.
    Generator,
    /// The generator's encoding is performed.
    Encode,
    /// The generator's commit is performed.
    Commit,
    /// The vsync side takes a step.
    Vsync { succeeded: bool, expired: bool },
    /// The vsync side's clearing is performed.
    Clear,
}

impl System {
    /// The system at start: fresh slots, both sides and the state as created.
    pub open spec fn start() -> System {
        System {
            state: StateView {
                current: 0,
                last: 0,
                previous: -1,
                is_blanked: true,
                vsync_shutdown: false,
                generator_shutdown: false,
                clear_request: false,
                blank_delay: 0,
                queue: Seq::empty(),
                generator_busy: false,
            },
            generator: GeneratorView { stage: GeneratorStage::Idle, msg: None, phase: 0 },
            encode_done: false,
            change: white(),
            stage: VsyncStage::Drain,
            clear_done: false,
            slots: Seq::new(16, |s: int| pan_buffer(0)),
            dirty: Seq::new(16, |s: int| unmarked()),
            submitted: Seq::empty(),
            taken: Seq::empty(),
            frames: Seq::empty(),
        }
    }

    /// The generator works on the message taken last.
    pub open spec fn on_message(self) -> bool {
        self.generator.stage != GeneratorStage::Idle && self.generator.stage
            != GeneratorStage::Drain
    }

    /// The messages that are done with.
    pub open spec fn done(self) -> Seq<UpdateMsg> {
        if self.on_message() {
            self.taken.drop_last()
        } else {
            self.taken
        }
    }

    /// The generator's next step takes a message.
    pub open spec fn takes(self) -> bool {
        self.state.queue.len() > 0 && (self.generator.stage == GeneratorStage::Drain || (
        self.generator.stage == GeneratorStage::Idle && !self.state.generator_shutdown))
    }

    /// The last phase whose slot holds its frame.
    pub open spec fn filled(self) -> int {
        if self.encode_done {
            self.state.last + 1
        } else {
            self.state.last
        }
    }

    /// The first phase whose slot is not cleared yet.
    pub open spec fn uncleared(self) -> int {
        if self.state.previous >= 0 && !self.clear_done {
            self.state.current - 1
        } else {
            self.state.current
        }
    }

    /// Slot `s` belongs to a phase that is filled and not cleared.
    pub open spec fn occupied(self, s: int) -> bool {
        (s - self.uncleared()) % 16 <= self.filled() - self.uncleared()
    }

    /// The slot contents for a phase. Nothing is ever encoded for phase 0.
    pub open spec fn frame(self, phase: int) -> Seq<u8> {
        if phase == 0 {
            pan_buffer(0)
        } else {
            self.frames[phase - 1]
        }
    }

    pub open spec fn holds_frame(self, phase: int) -> bool {
        self.slots[slot_of(phase)] == self.frame(phase)
    }

    /// The move can happen now. A side takes its next step only after what its
    /// last one asked for is performed.
    pub open spec fn allows(self, m: Move) -> bool {
        match m {
            Move::Submit(msg) => msg.valid(),
            Move::Shutdown | Move::RequestClear | Move::SetBlankDelay(_) => true,
            Move::Generator => !self.generator.overflows(self.state) && self.generator.stage
                != GeneratorStage::Committing && (self.generator.stage == GeneratorStage::Encoding
                ==> self.encode_done),
            Move::Encode => self.generator.stage == GeneratorStage::Encoding && !self.encode_done,
            Move::Commit => self.generator.stage == GeneratorStage::Committing,
            Move::Vsync { .. } => (self.stage == VsyncStage::Cleared || self.stage
                == VsyncStage::FinalCleared) ==> self.clear_done,
            Move::Clear => (self.stage == VsyncStage::Cleared || self.stage
                == VsyncStage::FinalCleared) && !self.clear_done,
        }
    }

    /// The slot that the vsync side's stage has cleared.
    pub open spec fn clearing(self) -> int {
        slot_of(self.state.previous)
    }

    /// The system after a move.
    pub open spec fn after(self, m: Move) -> System {
        match m {
            Move::Submit(msg) => System {
                state: StateView { queue: self.state.queue.push(msg), ..self.state },
                submitted: self.submitted.push(msg),
                ..self
            },
            Move::Shutdown => System {
                state: StateView { generator_shutdown: true, vsync_shutdown: true, ..self.state },
                ..self
            },
            Move::RequestClear => System {
                state: StateView { clear_request: true, ..self.state },
                ..self
            },
            Move::SetBlankDelay(seconds) => System {
                state: StateView { blank_delay: seconds as int, ..self.state },
                ..self
            },
            Move::Generator => {
                let (state, generator, _) = generator_next(self.state, self.generator);
                System {
                    state,
                    generator,
                    encode_done: false,
                    taken: if self.takes() {
                        self.taken.push(self.state.queue[0])
                    } else {
                        self.taken
                    },
                    ..self
                }
            },
            Move::Encode => {
                let s = slot_of(self.state.last + 1);
                let msg = self.generator.msg->Some_0;
                System {
                    encode_done: true,
                    slots: self.slots.update(
                        s,
                        encoded(self.slots[s], self.change, msg, self.generator.phase),
                    ),
                    dirty: self.dirty.update(s, marked(self.dirty[s], msg)),
                    frames: self.frames.push(
                        encoded(pan_buffer(0), self.change, msg, self.generator.phase),
                    ),
                    ..self
                }
            },
            Move::Commit => System {
                generator: GeneratorView { stage: GeneratorStage::Drain, ..self.generator },
                change: committed(self.change, self.generator.msg->Some_0),
                ..self
            },
            Move::Vsync { succeeded, expired } => {
                let (state, stage, _) = vsync_next(self.state, self.stage, succeeded, expired);
                System { state, stage, clear_done: false, ..self }
            },
            Move::Clear => {
                let s = self.clearing();
                System {
                    clear_done: true,
                    slots: self.slots.update(
                        s,
                        cleared(self.slots[s], self.dirty[s], zero_line()),
                    ),
                    dirty: self.dirty.update(s, unmarked()),
                    ..self
                }
            },
        }
    }

    /// The sides and the ring are in order, messages are taken in the order in
    /// which they came, and what is encoded and committed is what they amount to.
    pub open spec fn inv(self) -> bool {
        &&& self.state.inv()
        &&& self.generator.inv()
        &&& self.generator.fits(self.state)
        &&& self.stage.fits(self.state)
        &&& self.encode_done ==> self.generator.stage == GeneratorStage::Encoding
        &&& self.clear_done ==> self.stage == VsyncStage::Cleared || self.stage
            == VsyncStage::FinalCleared
        &&& self.submitted =~= self.taken + self.state.queue
        &&& self.on_message() ==> self.taken.len() > 0 && self.generator.msg == Some(
            self.taken.last(),
        )
        &&& self.change == shown_after(self.done())
        &&& self.frames =~= all_frames(self.done()) + (if self.on_message() {
            message_frames(
                self.change,
                self.taken.last(),
                self.generator.phase + (if self.encode_done {
                    1int
                } else {
                    0
                }),
            )
        } else {
            Seq::empty()
        })
        &&& self.frames.len() == self.filled()
    }

    /// Every slot from the current one to the last filled one holds its frame, and
    /// every unoccupied slot is a clean zero pan buffer.
    pub open spec fn slots_inv(self) -> bool {
        &&& self.slots.len() == 16
        &&& self.dirty.len() == 16
        &&& forall|s: int| 0 <= s < 16 ==> #[trigger] is_usable(self.slots[s], self.dirty[s])
        &&& forall|s: int|
            0 <= s < 16 && !#[trigger] self.occupied(s) ==> is_free(self.slots[s], self.dirty[s])
        &&& forall|p: int|
            self.state.current <= p <= self.filled() ==> #[trigger] self.holds_frame(p)
    }

    /// The system after a sequence of moves.
    pub open spec fn after_all(self, moves: Seq<Move>) -> System
        decreases moves.len(),
    {
        if moves.len() == 0 {
            self
        } else {
            self.after_all(moves.drop_last()).after(moves.last())
        }
    }

    /// Each of the moves can happen when its turn comes.
    pub open spec fn allows_all(self, moves: Seq<Move>) -> bool
        decreases moves.len(),
    {
        moves.len() == 0 || (self.allows_all(moves.drop_last()) && self.after_all(
            moves.drop_last(),
        ).allows(moves.last()))
    }
}

// ---------------------------------------------------------------------------
// The invariants are kept
// ---------------------------------------------------------------------------

proof fn lemma_start()
    ensures
        System::start().inv(),
        System::start().slots_inv(),
{
    let sys = System::start();
    assert(all_frames(sys.done()) =~= Seq::empty());
    reveal(is_usable);
    reveal(is_free);
    assert forall|p: int| sys.state.current <= p <= sys.filled() implies #[trigger] sys.holds_frame(
        p,
    ) by {
        assert(p == 0);
        assert(slot_of(0) == 0);
    }
}

proof fn lemma_keeps_inv(sys: System, m: Move)
    requires
        sys.inv(),
        sys.allows(m),
    ensures
        sys.after(m).inv(),
{
    let next = sys.after(m);
    match m {
        Move::Submit(msg) => {
            assert(next.submitted =~= next.taken + next.state.queue);
        },
        Move::Generator => {
            if sys.takes() {
                let q = sys.state.queue;
                assert(next.submitted =~= next.taken + next.state.queue) by {
                    assert(q =~= seq![q[0]] + q.drop_first());
                }
                assert(next.taken.drop_last() =~= sys.taken);
                assert(message_frames(next.change, next.taken.last(), 0) =~= Seq::empty());
                assert(q[0].valid());
            } else if sys.generator.stage == GeneratorStage::Finished {
                if next.generator.stage == GeneratorStage::Drain {
                    assert(next.frames =~= all_frames(next.taken));
                }
            }
        },
        Move::Encode => {
            let msg = sys.taken.last();
            assert(next.frames =~= all_frames(next.done()) + message_frames(
                next.change,
                msg,
                next.generator.phase + 1,
            ));
        },
        Move::Commit => {
            assert(next.frames =~= all_frames(next.taken));
        },
        _ => {},
    }
}

/// Two phases share a slot only if they are a multiple of 16 apart.
proof fn lemma_slots_differ(p: int, q: int)
    requires
        p < q < p + 16,
    ensures
        slot_of(p) != slot_of(q),
{
}

/// The phase behind a window of less than 16 phases has a slot outside it, and
/// extends it by that slot.
proof fn lemma_window_grows(first: int, last: int, s: int)
    requires
        first <= last < first + 15,
        0 <= s < 16,
    ensures
        (slot_of(last + 1) - first) % 16 == last + 1 - first,
        (s - first) % 16 > last + 1 - first ==> s != slot_of(last + 1),
{
}

/// Without its first phase, a window loses at most that phase's slot.
proof fn lemma_window_shrinks(first: int, last: int, s: int)
    requires
        0 <= s < 16,
        s != slot_of(first),
        (s - first - 1) % 16 > last - first - 1,
    ensures
        (s - first) % 16 > last - first,
{
}

proof fn lemma_encoded_slot(
    slot: Seq<u8>,
    dirty: Seq<u8>,
    change: Seq<u8>,
    msg: UpdateMsg,
    phase: int,
)
    requires
        is_usable(slot, dirty),
        msg.valid(),
    ensures
        is_usable(encoded(slot, change, msg, phase), marked(dirty, msg)),
{
    reveal(is_usable);
    law_encoding_marks_what_it_touches(slot, dirty, change, msg, phase);
}

proof fn lemma_cleared_slot(slot: Seq<u8>, dirty: Seq<u8>)
    requires
        is_usable(slot, dirty),
    ensures
        is_free(cleared(slot, dirty, zero_line()), unmarked()),
        is_usable(cleared(slot, dirty, zero_line()), unmarked()),
{
    reveal(is_usable);
    reveal(is_free);
    law_clearing_restores(slot, dirty);
}

proof fn lemma_encode_keeps_slots(sys: System)
    requires
        sys.inv(),
        sys.slots_inv(),
        sys.allows(Move::Encode),
    ensures
        sys.after(Move::Encode).slots_inv(),
{
    let next = sys.after(Move::Encode);
    let last = sys.state.last;
    let to = slot_of(last + 1);
    lemma_window_grows(sys.uncleared(), last, to);
    assert(!sys.occupied(to));
    assert(sys.slots[to] == pan_buffer(0)) by {
        reveal(is_free);
    }
    assert forall|s: int| 0 <= s < 16 implies #[trigger] is_usable(
        next.slots[s],
        next.dirty[s],
    ) by {
        assert(is_usable(sys.slots[s], sys.dirty[s]));
        if s == to {
            lemma_encoded_slot(
                sys.slots[s],
                sys.dirty[s],
                sys.change,
                sys.taken.last(),
                sys.generator.phase,
            );
        }
    }
    assert forall|s: int| 0 <= s < 16 && !#[trigger] next.occupied(s) implies is_free(
        next.slots[s],
        next.dirty[s],
    ) by {
        lemma_window_grows(sys.uncleared(), last, s);
        assert(!sys.occupied(s));
    }
    assert forall|p: int| next.state.current <= p <= next.filled() implies #[trigger] next.holds_frame(
        p,
    ) by {
        if p <= last {
            assert(sys.holds_frame(p));
            lemma_slots_differ(p, last + 1);
        }
    }
}

proof fn lemma_clear_keeps_slots(sys: System)
    requires
        sys.inv(),
        sys.slots_inv(),
        sys.allows(Move::Clear),
    ensures
        sys.after(Move::Clear).slots_inv(),
{
    let next = sys.after(Move::Clear);
    let at = sys.clearing();
    let phase = sys.uncleared();
    assert(at == slot_of(phase));
    assert(is_usable(sys.slots[at], sys.dirty[at]));
    lemma_cleared_slot(sys.slots[at], sys.dirty[at]);
    assert(next.uncleared() == phase + 1);
    assert forall|s: int| 0 <= s < 16 implies #[trigger] is_usable(
        next.slots[s],
        next.dirty[s],
    ) by {
        assert(is_usable(sys.slots[s], sys.dirty[s]));
    }
    assert forall|s: int| 0 <= s < 16 && !#[trigger] next.occupied(s) implies is_free(
        next.slots[s],
        next.dirty[s],
    ) by {
        if s != at {
            lemma_window_shrinks(phase, sys.filled(), s);
            assert(!sys.occupied(s));
        }
    }
    assert forall|p: int| next.state.current <= p <= next.filled() implies #[trigger] next.holds_frame(
        p,
    ) by {
        assert(sys.holds_frame(p));
        lemma_slots_differ(phase, p);
    }
}

proof fn lemma_keeps_slots(sys: System, m: Move)
    requires
        sys.inv(),
        sys.slots_inv(),
        sys.allows(m),
    ensures
        sys.after(m).slots_inv(),
{
    let next = sys.after(m);
    match m {
        Move::Encode => {
            lemma_encode_keeps_slots(sys);
        },
        Move::Clear => {
            lemma_clear_keeps_slots(sys);
        },
        _ => {
            assert(next.uncleared() == sys.uncleared());
            assert(next.filled() == sys.filled());
            assert forall|s: int| 0 <= s < 16 implies #[trigger] is_usable(
                next.slots[s],
                next.dirty[s],
            ) by {
                assert(is_usable(sys.slots[s], sys.dirty[s]));
            }
            assert forall|s: int| 0 <= s < 16 && !#[trigger] next.occupied(s) implies is_free(
                next.slots[s],
                next.dirty[s],
            ) by {
                assert(!sys.occupied(s));
            }
            assert forall|p: int|
                next.state.current <= p <= next.filled() implies #[trigger] next.holds_frame(p) by {
                assert(sys.holds_frame(p));
            }
        },
    }
}

// ---------------------------------------------------------------------------
// Laws
// ---------------------------------------------------------------------------

/// Whatever the producers and the two sides do, in whatever order: the vsync side
/// never overtakes the generator, the gap stays within the back-pressure depth,
/// messages are taken in the order in which they were submitted, each is encoded
/// phase by phase from what the committed ones before it left on the panel, and
/// only messages without a phase limit are committed.
pub proof fn law_every_run_is_in_order(moves: Seq<Move>)
    requires
        System::start().allows_all(moves),
    ensures
        System::start().after_all(moves).inv(),
    decreases moves.len(),
{
    if moves.len() == 0 {
        lemma_start();
    } else {
        law_every_run_is_in_order(moves.drop_last());
        lemma_keeps_inv(System::start().after_all(moves.drop_last()), moves.last());
    }
}

/// Whatever the order: every filled slot keeps its frame until it is shown, and every
/// slot that is not filled is a clean zero pan buffer.
pub proof fn law_every_run_keeps_the_slots(moves: Seq<Move>)
    requires
        System::start().allows_all(moves),
    ensures
        System::start().after_all(moves).slots_inv(),
    decreases moves.len(),
{
    if moves.len() == 0 {
        lemma_start();
    } else {
        law_every_run_keeps_the_slots(moves.drop_last());
        law_every_run_is_in_order(moves.drop_last());
        lemma_keeps_slots(System::start().after_all(moves.drop_last()), moves.last());
    }
}

/// When a flush finds the state drained, every message submitted so far is encoded,
/// all of its phases, and committed unless it has a phase limit; and the vsync side
/// has caught up with the last phase.
pub proof fn law_flush_waits_for_every_message(sys: System)
    requires
        sys.inv(),
        sys.state.drained(),
    ensures
        sys.taken == sys.submitted,
        sys.frames == all_frames(sys.submitted),
        sys.change == shown_after(sys.submitted),
        sys.state.current == all_frames(sys.submitted).len(),
{
    assert(sys.taken + sys.state.queue =~= sys.taken);
}

/// Each message adds its phases, no more and no fewer, behind those of the messages
/// before it.
pub proof fn law_each_message_adds_its_phases(msgs: Seq<UpdateMsg>, msg: UpdateMsg)
    ensures
        all_frames(msgs.push(msg)) == all_frames(msgs) + message_frames(
            shown_after(msgs),
            msg,
            msg.phases(),
        ),
        all_frames(msgs.push(msg)).len() == all_frames(msgs).len() + msg.phases(),
{
    assert(msgs.push(msg).drop_last() =~= msgs);
}

/// What messages amount to, one after the other. At first the panel is white: every
/// tracked byte is 0xff, and nothing is encoded. A message without a limit is committed
/// and one with a limit is not; either adds one frame per phase it drives, encoded into
/// a zero pan buffer from what was tracked before it.
pub proof fn law_messages_build_on_each_other(msgs: Seq<UpdateMsg>, msg: UpdateMsg, phase: int)
    requires
        0 <= phase < msg.phases(),
    ensures
        shown_after(Seq::empty()).len() == 2628288,
        forall|i: int| 0 <= i < 2628288 ==> #[trigger] shown_after(Seq::empty())[i] == 0xff,
        all_frames(Seq::empty()).len() == 0,
        msg.phase_limit is None ==> shown_after(msgs.push(msg)) == committed(
            shown_after(msgs),
            msg,
        ),
        msg.phase_limit is Some ==> shown_after(msgs.push(msg)) == shown_after(msgs),
        all_frames(msgs.push(msg)).take(all_frames(msgs).len() as int) == all_frames(msgs),
        all_frames(msgs.push(msg))[all_frames(msgs).len() + phase] == encoded(
            pan_buffer(0),
            shown_after(msgs),
            msg,
            phase,
        ),
{
    assert(msgs.push(msg).drop_last() =~= msgs);
    assert(all_frames(msgs.push(msg)).take(all_frames(msgs).len() as int) =~= all_frames(msgs));
}

/// The frames of the first messages are the first frames of all of them.
proof fn lemma_frames_of_a_prefix(msgs: Seq<UpdateMsg>, more: Seq<UpdateMsg>)
    ensures
        all_frames(msgs).len() <= all_frames(msgs + more).len(),
        forall|i: int|
            0 <= i < all_frames(msgs).len() ==> all_frames(msgs)[i] == #[trigger] all_frames(
                msgs + more,
            )[i],
    decreases more.len(),
{
    if more.len() == 0 {
        assert(msgs + more =~= msgs);
    } else {
        lemma_frames_of_a_prefix(msgs, more.drop_last());
        assert((msgs + more).drop_last() =~= msgs + more.drop_last());
    }
}

/// In every run, what the vsync side pans or unblanks to is, phase by phase, what the
/// submitted messages amount to in their order; phase 0 drives nothing.
pub proof fn law_every_run_shows_the_messages(moves: Seq<Move>)
    requires
        System::start().allows_all(moves),
    ensures
        ({
            let sys = System::start().after_all(moves);
            let phase = sys.state.current;
            sys.stage == VsyncStage::Panned || sys.stage == VsyncStage::Unblanking ==> {
                &&& phase == 0 ==> sys.slots[0] == pan_buffer(0)
                &&& phase > 0 ==> phase <= all_frames(sys.submitted).len() && sys.slots[phase % 16]
                    == all_frames(sys.submitted)[phase - 1]
            }
        }),
{
    law_every_run_is_in_order(moves);
    law_every_run_keeps_the_slots(moves);
    let sys = System::start().after_all(moves);
    if sys.stage == VsyncStage::Panned || sys.stage == VsyncStage::Unblanking {
        assert(sys.holds_frame(sys.state.current));
        lemma_frames_of_a_prefix(sys.taken, sys.state.queue);
        assert(sys.taken + sys.state.queue =~= sys.submitted);
        let phase = sys.state.current;
        if phase > 0 {
            assert(sys.frames[phase - 1] == all_frames(sys.taken)[phase - 1]);
        }
    }
}

/// The slot that is cleared is the one that was asked for, and no other slot changes.
pub proof fn law_the_asked_slot_is_cleared(sys: System, succeeded: bool, expired: bool, s: int)
    requires
        sys.inv(),
        sys.slots.len() == 16,
        sys.dirty.len() == 16,
        sys.allows(Move::Vsync { succeeded, expired }),
        0 <= s < 16,
    ensures
        ({
            let next = sys.after(Move::Vsync { succeeded, expired });
            let action = vsync_next(sys.state, sys.stage, succeeded, expired).2;
            &&& action is Clear <==> next.allows(Move::Clear)
            &&& action matches VsyncAction::Clear { slot_idx } ==> {
                let done = next.after(Move::Clear);
                &&& slot_idx == sys.state.previous % 16
                &&& slot_idx == next.clearing()
                &&& s == slot_idx ==> done.slots[s] == cleared(
                    sys.slots[s],
                    sys.dirty[s],
                    zero_line(),
                ) && all_clean(done.dirty[s])
                &&& s != slot_idx ==> done.slots[s] == sys.slots[s] && done.dirty[s] == sys.dirty[s]
            }
        }),
{
}

/// The phase that is encoded is the one that was asked for, into the slot that was asked
/// for, and no other slot changes.
pub proof fn law_the_asked_phase_is_encoded(sys: System, s: int)
    requires
        sys.inv(),
        sys.slots.len() == 16,
        sys.dirty.len() == 16,
        sys.allows(Move::Generator),
        0 <= s < 16,
    ensures
        ({
            let next = sys.after(Move::Generator);
            let action = generator_next(sys.state, sys.generator).2;
            &&& action is Encode <==> next.allows(Move::Encode)
            &&& action matches GeneratorAction::Encode { phase_idx, slot_idx } ==> {
                let done = next.after(Move::Encode);
                let msg = sys.taken.last();
                &&& slot_idx == (sys.state.last + 1) % 16
                &&& s == slot_idx ==> done.slots[s] == encoded(
                    sys.slots[s],
                    sys.change,
                    msg,
                    phase_idx as int,
                ) && done.dirty[s] == marked(sys.dirty[s], msg)
                &&& s != slot_idx ==> done.slots[s] == sys.slots[s] && done.dirty[s] == sys.dirty[s]
            }
        }),
{
}

/// What the vsync side pans or unblanks to is the frame of its current phase: the
/// panel is driven with the frames in the order of their phases.
pub proof fn law_shown_slot_holds_its_frame(sys: System)
    requires
        sys.inv(),
        sys.slots_inv(),
        sys.stage == VsyncStage::Panned || sys.stage == VsyncStage::Unblanking,
    ensures
        sys.slots[slot_of(sys.state.current)] == sys.frame(sys.state.current),
{
    assert(sys.holds_frame(sys.state.current));
}

/// The slot that the generator fills next is a clean zero pan buffer.
pub proof fn law_reserved_slot_is_free(sys: System)
    requires
        sys.inv(),
        sys.slots_inv(),
        sys.generator.stage == GeneratorStage::Encoding,
        !sys.encode_done,
    ensures
        sys.slots[slot_of(sys.state.last + 1)] == pan_buffer(0),
        all_clean(sys.dirty[slot_of(sys.state.last + 1)]),
{
    let to = slot_of(sys.state.last + 1);
    lemma_window_grows(sys.uncleared(), sys.state.last, to);
    assert(!sys.occupied(to));
    reveal(is_free);
}

/// The two sides never touch one slot at the same time: while the generator fills a
/// slot, that slot is none of those that the vsync side shows, is about to show or
/// clears.
pub proof fn law_sides_use_different_slots(moves: Seq<Move>)
    requires
        System::start().allows_all(moves),
    ensures
        ({
            let sys = System::start().after_all(moves);
            sys.generator.stage == GeneratorStage::Encoding ==> {
                &&& forall|p: int|
                    sys.state.current - 1 <= p <= sys.state.last ==> #[trigger] slot_of(p)
                        != slot_of(sys.state.last + 1)
                &&& sys.stage == VsyncStage::Cleared || sys.stage == VsyncStage::FinalCleared
                    ==> sys.clearing() != slot_of(sys.state.last + 1)
            }
        }),
{
    law_every_run_is_in_order(moves);
    let sys = System::start().after_all(moves);
    if sys.generator.stage == GeneratorStage::Encoding {
        assert forall|p: int|
            sys.state.current - 1 <= p <= sys.state.last implies #[trigger] slot_of(p) != slot_of(
            sys.state.last + 1,
        ) by {
            lemma_slots_differ(p, sys.state.last + 1);
        }
    }
}

/// A blanked panel rejects panning, so in every run the vsync side pans only with the
/// panel unblanked: a pan follows a successful unblanking, with no blanking in between.
pub proof fn law_every_run_pans_unblanked(moves: Seq<Move>, succeeded: bool, expired: bool)
    requires
        System::start().allows_all(moves),
    ensures
        ({
            let sys = System::start().after_all(moves);
            let (next, _, action) = vsync_next(sys.state, sys.stage, succeeded, expired);
            action is Pan ==> {
                &&& !sys.state.is_blanked || (sys.stage == VsyncStage::Unblanking && succeeded)
                &&& !next.is_blanked
            }
        }),
{
    law_every_run_is_in_order(moves);
    let sys = System::start().after_all(moves);
    law_pans_only_unblanked(sys.state, sys.stage, succeeded, expired);
}

/// The back-pressure depth leaves one slot in between: at a gap of 15 the slot
/// after the last filled one would be the one shown, at 14 it is not.
pub proof fn law_back_pressure_leaves_a_margin(current: int, last: int)
    ensures
        last - current == 15 ==> slot_of(last + 1) == slot_of(current),
        0 <= last - current <= MAX_RING_GAP ==> slot_of(last + 1) != slot_of(current),
{
}

/// A preview drives the first phases of the full update and leaves the source of
/// the next update as it was.
pub proof fn law_preview_is_a_prefix(msgs: Seq<UpdateMsg>, full: UpdateMsg, limit: u32)
    requires
        full.phase_limit is None,
    ensures
        ({
            let preview = UpdateMsg { phase_limit: Some(limit), ..full };
            let change = shown_after(msgs);
            let n = preview.phases();
            &&& n <= limit
            &&& n <= full.phases()
            &&& n == limit || n == full.phases()
            &&& message_frames(change, preview, n) == message_frames(
                change,
                full,
                full.phases(),
            ).take(n)
            &&& shown_after(msgs.push(preview)) == shown_after(msgs)
        }),
{
    let preview = UpdateMsg { phase_limit: Some(limit), ..full };
    let change = shown_after(msgs);
    let n = preview.phases();
    let some = message_frames(change, preview, n);
    let every = message_frames(change, full, full.phases());
    assert forall|phase: int| 0 <= phase < n implies #[trigger] some[phase] == every[phase] by {
        lemma_limit_is_not_encoded(pan_buffer(0), change, preview, full, phase);
    }
    assert(some =~= every.take(n));
    assert(msgs.push(preview).drop_last() =~= msgs);
}

/// Encoding a phase does not depend on the limit.
proof fn lemma_limit_is_not_encoded(
    slot: Seq<u8>,
    change: Seq<u8>,
    a: UpdateMsg,
    b: UpdateMsg,
    phase: int,
)
    requires
        a == (UpdateMsg { phase_limit: a.phase_limit, ..b }),
    ensures
        encoded(slot, change, a, phase) == encoded(slot, change, b, phase),
{
    assert forall|col: int, group: int|
        #[trigger] crate::slots::group_word(change, a, phase, col, group)
            == crate::slots::group_word(change, b, phase, col, group) by {
        assert(crate::slots::group_tgt(a, col, group) =~= crate::slots::group_tgt(b, col, group));
        assert(crate::slots::phase_lut(a, phase) =~= crate::slots::phase_lut(b, phase));
    }
    assert(encoded(slot, change, a, phase) =~= encoded(slot, change, b, phase));
}

} // verus!
