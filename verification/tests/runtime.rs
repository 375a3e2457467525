//! The generator and the vsync side, run step by step against slots in memory.

use std::sync::Arc;

use swtcon::constants::SCREEN_WIDTH;
use swtcon::fb::{allocate_zero_pan_buffer, SLOT_BYTES};
use swtcon::generator::{Generator, GeneratorAction};
use swtcon::runtime::{
    norm_phase, FlushStep, PanelRect, SharedState, UpdateMsg, IDLE_SLOT, MAX_RING_GAP,
};
use swtcon::vsync::{Vsync, VsyncAction, RETRY_PAUSE};
use swtcon::waveform::PhaseTable;

/// Both sides over slots in memory, with a record of what was done.
struct Sim {
    state: SharedState,
    generator: Generator,
    vsync: Vsync,
    slots: Vec<Vec<u8>>,
    dirty: Vec<Vec<u8>>,
    unblank_works: bool,
    blank_works: bool,
    /// The panel itself rejects panning while it is blanked.
    panel_blanked: bool,
    succeeded: bool,
    expired: bool,
    pans: Vec<u32>,
    unblanks: Vec<u32>,
    blanks: u32,
    clears: Vec<u32>,
    shown_words: Vec<u16>,
}

/// The word that drives rows 0 to 7 of column 100.
fn word_at_100(slot: &[u8]) -> u16 {
    let at = (4 + 100) * 1040 + 26 * 4;
    u16::from_le_bytes([slot[at], slot[at + 1]])
}

impl Sim {
    fn new() -> Self {
        let zero = allocate_zero_pan_buffer();
        Self {
            state: SharedState::new(),
            generator: Generator::new(),
            vsync: Vsync::new(),
            slots: vec![zero; 17],
            dirty: vec![vec![0u8; SCREEN_WIDTH]; 17],
            unblank_works: true,
            blank_works: true,
            panel_blanked: true,
            succeeded: false,
            expired: false,
            pans: Vec::new(),
            unblanks: Vec::new(),
            blanks: 0,
            clears: Vec::new(),
            shown_words: Vec::new(),
        }
    }

    /// One step of the generator, with what it asks for.
    fn generator_step(&mut self) -> GeneratorAction {
        assert!(!self.generator.is_exhausted(&self.state));
        let action = self.generator.next_action(&mut self.state);
        match action {
            GeneratorAction::Encode { slot_idx, .. } => {
                let s = slot_idx as usize;
                self.generator.encode(&mut self.slots[s], &mut self.dirty[s]);
            }
            GeneratorAction::Commit => self.generator.commit(),
            _ => {}
        }
        action
    }

    /// One step of the vsync side, with what it asks for.
    fn vsync_step(&mut self) -> VsyncAction {
        let action = self.vsync.next_action(&mut self.state, self.succeeded, self.expired);
        self.succeeded = false;
        self.expired = false;
        match action {
            VsyncAction::Pan { slot_idx } => {
                assert!(!self.panel_blanked, "pan while blanked");
                self.pans.push(slot_idx);
                if slot_idx != IDLE_SLOT {
                    self.shown_words.push(word_at_100(&self.slots[slot_idx as usize]));
                }
            }
            VsyncAction::Clear { slot_idx } => {
                let s = slot_idx as usize;
                self.vsync.clear(&mut self.slots[s], &mut self.dirty[s]);
                self.clears.push(slot_idx);
            }
            VsyncAction::Unblank { slot_idx } => {
                self.unblanks.push(slot_idx);
                self.succeeded = self.unblank_works;
                if self.succeeded {
                    self.panel_blanked = false;
                    self.shown_words.push(word_at_100(&self.slots[slot_idx as usize]));
                }
            }
            VsyncAction::Blank => {
                self.succeeded = self.blank_works;
                if self.succeeded {
                    self.panel_blanked = true;
                    self.blanks += 1;
                }
            }
            _ => {}
        }
        action
    }

    fn generator_until_wait(&mut self) {
        while self.generator_step() != GeneratorAction::Wait {}
    }

    fn vsync_until_wait(&mut self) {
        while !matches!(self.vsync_step(), VsyncAction::Wait { .. }) {}
    }

    /// Runs both sides in turn until a flush is done.
    fn flush(&mut self, max_turns: u32) -> bool {
        for _ in 0..max_turns {
            if self.state.flush_step(false) == FlushStep::Done {
                return true;
            }
            self.generator_step();
            self.vsync_step();
        }
        self.state.flush_step(true) == FlushStep::Done
    }
}

fn fake_phase_table(phase_count: u32) -> Arc<PhaseTable> {
    let phase_bytes = ((phase_count + 7) >> 3) as usize;
    let data = vec![0u16; phase_bytes * 256];
    Arc::new(PhaseTable { phase_count, data })
}

/// A small message: one column, 8 rows.
fn tiny_msg(phase_count: u32) -> UpdateMsg {
    UpdateMsg {
        rect: PanelRect { row_min: 0, row_max: 7, col_min: 100, col_max: 100 },
        buffer: vec![0u8; 8],
        width: 8,
        waveform: fake_phase_table(phase_count),
        phase_limit: None,
    }
}

/// A small message whose phases drive black pixels with commands 1, 2, 1, 2, ...
fn driving_msg(phase_count: u32, gray: u8) -> UpdateMsg {
    let mut table = PhaseTable { phase_count, data: vec![0b10_01_10_01_10_01_10_01; 256] };
    let rows = ((phase_count + 7) >> 3) as usize;
    table.data = table.data.repeat(rows);
    for row in 0..rows {
        for g in 0..16 {
            table.data[row * 256 + g * 17] = 0;
        }
    }
    UpdateMsg { buffer: vec![gray; 8], waveform: Arc::new(table), ..tiny_msg(phase_count) }
}

#[test]
fn shutdown_idle_runtime_returns_promptly() {
    let mut sim = Sim::new();
    sim.generator_until_wait();
    sim.vsync_until_wait();
    sim.state.request_shutdown();
    assert_eq!(sim.generator_step(), GeneratorAction::Exit);
    assert_eq!(sim.vsync_step(), VsyncAction::Exit);
}

#[test]
fn one_msg_drains() {
    let mut sim = Sim::new();
    let phases = 25;
    sim.state.submit(tiny_msg(phases));
    assert!(sim.flush(1000), "msg didn't drain; pending={}", sim.state.pending_count());
    assert_eq!(sim.state.last_pan_phase, phases as i32);
    assert_eq!(sim.state.current_pan_phase, phases as i32);
}

#[test]
fn many_msgs_drain_in_order() {
    let mut sim = Sim::new();
    let phases_each = 8;
    let n_msgs = 50;
    for _ in 0..n_msgs {
        sim.state.submit(tiny_msg(phases_each));
    }
    assert_eq!(sim.state.pending_count(), 50);
    assert!(sim.flush(10_000), "msgs didn't drain; pending={}", sim.state.pending_count());
    let total = phases_each as i32 * n_msgs as i32;
    assert_eq!(sim.state.last_pan_phase, total);
}

#[test]
fn back_pressure_holds_generator_when_consumer_stalls() {
    let mut sim = Sim::new();
    sim.state.submit(tiny_msg(100));
    sim.generator_until_wait();
    // Nobody pans: the generator fills the ring and waits.
    assert_eq!(sim.state.last_pan_phase, MAX_RING_GAP);
    assert_eq!(sim.generator_step(), GeneratorAction::Wait);

    for _ in 0..7 {
        sim.vsync_step();
        sim.generator_step();
    }
    let last = sim.state.last_pan_phase;
    let cur = sim.state.current_pan_phase;
    assert!(last <= 100, "generator overran its msg: last={last}");
    assert!(cur <= last, "vsync got ahead: cur={cur} last={last}");

    sim.state.request_shutdown();
    let mut steps = 0;
    while sim.generator_step() != GeneratorAction::Exit {
        steps += 1;
        assert!(steps < 4);
    }
    steps = 0;
    while sim.vsync_step() != VsyncAction::Exit {
        steps += 1;
        assert!(steps < 3 * 15 + 4);
    }
}

#[test]
fn stress_concurrent_producers() {
    let mut sim = Sim::new();
    let n_producers = 4;
    let per_producer = 25;
    let mut left = [per_producer; 4];
    let mut seed: u64 = 20;
    while left.iter().any(|n| *n > 0) || sim.state.flush_step(false) != FlushStep::Done {
        seed = seed.wrapping_mul(6364136223846793005).wrapping_add(1442695040888963407);
        let pick = (seed >> 33) % 10;
        match pick {
            0..=3 => {
                if left[pick as usize] > 0 {
                    left[pick as usize] -= 1;
                    sim.state.submit(tiny_msg(8));
                }
            }
            4..=6 => {
                sim.generator_step();
            }
            _ => {
                sim.vsync_step();
            }
        }
        assert!(sim.state.current_pan_phase <= sim.state.last_pan_phase);
        assert!(sim.state.last_pan_phase - sim.state.current_pan_phase <= MAX_RING_GAP);
    }
    let expected = n_producers * per_producer * 8;
    assert_eq!(sim.state.last_pan_phase, expected);
}

#[test]
fn slot_of_a_phase() {
    assert_eq!(norm_phase(0), 0);
    assert_eq!(norm_phase(15), 15);
    assert_eq!(norm_phase(16), 0);
    assert_eq!(norm_phase(i32::MAX), 15);
    assert_eq!(norm_phase(-1), 15);
    assert_eq!(norm_phase(i32::MIN), 0);
}

#[test]
fn fresh_state() {
    let state = SharedState::new();
    assert_eq!((state.current_pan_phase, state.last_pan_phase, state.previous_pan_phase), (0, 0, -1));
    assert!(state.is_blanked);
    assert!(!state.vsync_shutdown && !state.generator_shutdown && !state.vsync_clear_request);
    assert_eq!(state.vsync_blank_delay, 0);
    assert_eq!(state.pending_count(), 0);
    assert_eq!(state.flush_step(false), FlushStep::Done);
}

#[test]
fn flush_waits_for_a_taken_message() {
    let mut sim = Sim::new();
    sim.state.submit(tiny_msg(2));
    assert_eq!(sim.state.flush_step(false), FlushStep::Sleep);
    // Taken, nothing encoded yet: not drained.
    sim.generator_step();
    assert_eq!(sim.state.pending_count(), 0);
    assert_eq!(sim.state.current_pan_phase, sim.state.last_pan_phase);
    assert_eq!(sim.state.flush_step(false), FlushStep::Sleep);
    assert_eq!(sim.state.flush_step(true), FlushStep::TimedOut);
    assert!(sim.flush(100));
    assert_eq!(sim.state.flush_step(true), FlushStep::Done);
}

#[test]
fn frames_are_shown_in_order_and_cleared() {
    let mut sim = Sim::new();
    sim.vsync_until_wait();
    sim.state.submit(driving_msg(6, 0));
    // A second message, so that the last slot of the first one is panned to.
    sim.state.submit(tiny_msg(2));
    sim.generator_until_wait();
    assert_eq!(sim.state.last_pan_phase, 8);
    sim.vsync_until_wait();
    // Unblanking shows slot 0, where nothing is driven; panning shows the phases.
    assert_eq!(sim.unblanks, [0]);
    assert_eq!(sim.pans, [16, 1, 2, 3, 4, 5, 6, 7, 16]);
    assert_eq!(
        sim.shown_words,
        [0, 0x5555, 0xaaaa, 0x5555, 0xaaaa, 0x5555, 0xaaaa, 0]
    );
    assert_eq!(sim.clears, [0, 1, 2, 3, 4, 5, 6, 7]);
    let zero = allocate_zero_pan_buffer();
    for s in 0..8 {
        assert!(sim.slots[s] == zero, "slot {s} is not clear");
        assert!(sim.dirty[s].iter().all(|d| *d == 0));
    }
    assert_eq!(sim.state.previous_pan_phase, -1);
    assert_eq!(sim.blanks, 1);
    assert!(sim.state.is_blanked);
}

#[test]
fn committed_pixels_are_not_driven_again() {
    let mut sim = Sim::new();
    sim.state.submit(driving_msg(1, 0));
    sim.state.submit(driving_msg(1, 0));
    sim.state.submit(driving_msg(1, 15));
    sim.generator_until_wait();
    assert_eq!(sim.state.last_pan_phase, 3);
    assert_eq!(word_at_100(&sim.slots[1]), 0x5555);
    assert_eq!(word_at_100(&sim.slots[2]), 0);
    assert_eq!(word_at_100(&sim.slots[3]), 0x5555);
}

#[test]
fn previews_are_cut_and_not_committed() {
    let mut sim = Sim::new();
    let mut preview = driving_msg(10, 0);
    preview.phase_limit = Some(3);
    assert_eq!(preview.total_phases(), 3);
    sim.state.submit(preview);
    sim.state.submit(driving_msg(10, 0));
    sim.generator_until_wait();
    assert_eq!(sim.state.last_pan_phase, 13);
    // The full update drives the same pixels from the same source.
    for phase in 0..3 {
        let want = if phase % 2 == 0 { 0x5555 } else { 0xaaaa };
        assert_eq!(word_at_100(&sim.slots[1 + phase]), want);
        assert_eq!(word_at_100(&sim.slots[4 + phase]), want);
    }
    let mut none = driving_msg(10, 0);
    none.phase_limit = Some(0);
    assert_eq!(none.total_phases(), 0);
    let mut all = driving_msg(10, 0);
    all.phase_limit = Some(u32::MAX);
    assert_eq!(all.total_phases(), 10);
}

#[test]
fn a_message_without_phases_is_still_committed() {
    let mut sim = Sim::new();
    sim.state.submit(UpdateMsg { waveform: fake_phase_table(0), ..driving_msg(1, 0) });
    sim.state.submit(driving_msg(1, 0));
    sim.generator_until_wait();
    assert_eq!(sim.state.last_pan_phase, 1);
    assert_eq!(word_at_100(&sim.slots[1]), 0);
}

#[test]
fn encoding_leaves_flags_and_other_columns_alone() {
    let mut sim = Sim::new();
    sim.state.submit(driving_msg(1, 0));
    sim.generator_until_wait();
    let zero = allocate_zero_pan_buffer();
    let at = (4 + 100) * 1040 + 26 * 4;
    let mut changed = Vec::new();
    for b in 0..SLOT_BYTES {
        if sim.slots[1][b] != zero[b] {
            changed.push(b);
        }
    }
    assert_eq!(changed, [at, at + 1]);
    for c in 0..SCREEN_WIDTH {
        assert_eq!(sim.dirty[1][c], (c == 100) as u8);
    }
}

#[test]
fn wake_unblanks_first() {
    let mut sim = Sim::new();
    sim.vsync_until_wait();
    assert!(sim.pans.is_empty());
    sim.state.submit(tiny_msg(3));
    sim.generator_until_wait();
    assert_eq!(sim.vsync_step(), VsyncAction::Continue);
    assert_eq!(sim.vsync_step(), VsyncAction::Unblank { slot_idx: 0 });
    assert_eq!(sim.vsync_step(), VsyncAction::Pan { slot_idx: 16 });
    assert!(!sim.state.is_blanked);
    assert_eq!((sim.state.previous_pan_phase, sim.state.current_pan_phase), (0, 1));
    assert_eq!(sim.vsync_step(), VsyncAction::Pan { slot_idx: 1 });
}

#[test]
fn slots_filled_before_the_first_step_are_unblanked_to() {
    let mut sim = Sim::new();
    sim.state.submit(tiny_msg(3));
    sim.generator_until_wait();
    assert_eq!(sim.vsync_step(), VsyncAction::Unblank { slot_idx: 0 });
    assert_eq!(sim.vsync_step(), VsyncAction::Pan { slot_idx: 16 });
    assert_eq!(sim.vsync_step(), VsyncAction::Pan { slot_idx: 1 });
}

#[test]
fn failed_unblanking_is_tried_again() {
    let mut sim = Sim::new();
    sim.unblank_works = false;
    sim.vsync_until_wait();
    sim.state.submit(tiny_msg(3));
    sim.generator_until_wait();
    for _ in 0..3 {
        assert_eq!(sim.vsync_step(), VsyncAction::Continue);
        assert_eq!(sim.vsync_step(), VsyncAction::Unblank { slot_idx: 0 });
        assert_eq!(sim.vsync_step(), VsyncAction::Wait { limit: Some(RETRY_PAUSE) });
        sim.expired = true;
        assert!(sim.state.is_blanked);
        assert_eq!((sim.state.previous_pan_phase, sim.state.current_pan_phase), (-1, 0));
    }
    assert!(sim.pans.is_empty());
    sim.unblank_works = true;
    sim.vsync_until_wait();
    assert_eq!(sim.unblanks, [0, 0, 0, 0]);
    assert_eq!(sim.pans, [16, 1, 2, 16]);
    // A shutdown request ends a failing vsync side without a pause.
    sim.unblank_works = false;
    sim.state.submit(tiny_msg(1));
    sim.generator_until_wait();
    assert_eq!(sim.vsync_step(), VsyncAction::Continue);
    assert_eq!(sim.vsync_step(), VsyncAction::Unblank { slot_idx: 3 });
    sim.state.request_shutdown();
    assert_eq!(sim.vsync_step(), VsyncAction::Continue);
    assert_eq!(sim.vsync_step(), VsyncAction::Exit);
}

#[test]
fn clear_request_is_consumed_and_shutdown_goes_first() {
    let mut sim = Sim::new();
    sim.vsync_until_wait();
    sim.state.vsync_clear_request = true;
    assert_eq!(sim.vsync_step(), VsyncAction::Continue);
    assert!(!sim.state.vsync_clear_request);
    sim.vsync_until_wait();
    sim.state.vsync_clear_request = true;
    sim.state.request_shutdown();
    assert_eq!(sim.vsync_step(), VsyncAction::Exit);
    assert!(sim.state.vsync_clear_request);
}

#[test]
fn clear_request_does_not_skip_the_unblanking() {
    let mut sim = Sim::new();
    sim.vsync_until_wait();
    sim.state.submit(tiny_msg(2));
    sim.generator_until_wait();
    sim.state.vsync_clear_request = true;
    assert_eq!(sim.vsync_step(), VsyncAction::Continue);
    assert!(!sim.state.vsync_clear_request);
    assert_eq!(sim.vsync_step(), VsyncAction::Unblank { slot_idx: 0 });
    assert_eq!(sim.vsync_step(), VsyncAction::Pan { slot_idx: 16 });
}

#[test]
fn a_drained_panel_is_parked_and_blanked() {
    let mut sim = Sim::new();
    sim.vsync_until_wait();
    sim.state.submit(tiny_msg(1));
    sim.generator_until_wait();
    while sim.vsync_step() != VsyncAction::Blank {
        assert_eq!(sim.blanks, 0);
    }
    assert_eq!(sim.pans.last(), Some(&IDLE_SLOT));
    assert!(!sim.state.is_blanked);
    assert_eq!(sim.vsync_step(), VsyncAction::Continue);
    assert!(sim.state.is_blanked);
    assert_eq!(sim.vsync_step(), VsyncAction::Wait { limit: None });
    assert_eq!(sim.blanks, 1);
}

#[test]
fn the_blank_delay_is_waited_for() {
    let mut sim = Sim::new();
    sim.state.vsync_blank_delay = 30;
    sim.vsync_until_wait();
    sim.state.submit(tiny_msg(1));
    sim.generator_until_wait();
    sim.vsync_until_wait();
    // Woken early, it waits again.
    assert_eq!(sim.vsync_step(), VsyncAction::Wait { limit: Some(30) });
    assert!(!sim.state.is_blanked);
    // A clear request parks the panel again.
    sim.state.vsync_clear_request = true;
    assert_eq!(sim.vsync_step(), VsyncAction::Pan { slot_idx: IDLE_SLOT });
    sim.vsync_until_wait();
    assert_eq!(sim.blanks, 0);
    sim.expired = true;
    assert_eq!(sim.vsync_step(), VsyncAction::Blank);
    assert_eq!(sim.vsync_step(), VsyncAction::Continue);
    assert_eq!(sim.vsync_step(), VsyncAction::Wait { limit: None });
    assert!(sim.state.is_blanked);
}

#[test]
fn failed_blanking_is_tried_again() {
    let mut sim = Sim::new();
    sim.blank_works = false;
    sim.vsync_until_wait();
    sim.state.submit(tiny_msg(1));
    sim.generator_until_wait();
    while sim.vsync_step() != VsyncAction::Blank {}
    assert_eq!(sim.vsync_step(), VsyncAction::Wait { limit: Some(RETRY_PAUSE) });
    assert!(!sim.state.is_blanked);
    sim.expired = true;
    sim.blank_works = true;
    assert_eq!(sim.vsync_step(), VsyncAction::Blank);
    assert_eq!(sim.vsync_step(), VsyncAction::Continue);
    assert!(sim.state.is_blanked);
}

#[test]
fn a_slot_is_handed_back_only_once_cleared() {
    let mut sim = Sim::new();
    sim.state.submit(driving_msg(100, 0));
    sim.generator_until_wait();
    // Unblanking shows slot 0, and one slot is filled in its place.
    assert_eq!(sim.vsync_step(), VsyncAction::Unblank { slot_idx: 0 });
    assert_eq!(sim.vsync_step(), VsyncAction::Pan { slot_idx: 16 });
    sim.generator_until_wait();
    assert_eq!(sim.state.last_pan_phase, 15);
    assert_eq!(sim.vsync_step(), VsyncAction::Pan { slot_idx: 1 });
    // While slot 0 is being cleared there is no room for it.
    let clear = sim.vsync.next_action(&mut sim.state, false, false);
    assert_eq!(clear, VsyncAction::Clear { slot_idx: 0 });
    assert_eq!(sim.generator.next_action(&mut sim.state), GeneratorAction::Wait);
    sim.vsync.clear(&mut sim.slots[0], &mut sim.dirty[0]);
    assert_eq!(sim.vsync_step(), VsyncAction::NotifyGenerator);
    let fill = sim.generator_step();
    assert_eq!(fill, GeneratorAction::Encode { phase_idx: 15, slot_idx: 0 });
    // From here on every frame is shown, whatever the pace.
    sim.shown_words.clear();
    assert!(sim.flush(10_000));
    let want: Vec<u16> = (1..99).map(|p| if p % 2 == 0 { 0x5555 } else { 0xaaaa }).collect();
    assert_eq!(sim.shown_words, want);
}

#[test]
fn which_messages_are_valid() {
    assert!(tiny_msg(9).is_valid());
    let mut msg = tiny_msg(9);
    msg.waveform = Arc::new(PhaseTable { phase_count: 9, data: vec![0; 256] });
    assert!(!msg.is_valid());
    msg.phase_limit = Some(8);
    assert!(msg.is_valid());
    let mut msg = tiny_msg(1);
    msg.rect.row_max = 6;
    assert!(!msg.is_valid());
    let mut msg = tiny_msg(1);
    msg.rect.col_max = 101;
    assert!(!msg.is_valid());
    msg.rect.col_min = 101;
    assert!(msg.is_valid());
    msg.rect.col_max = 1404;
    assert!(!msg.is_valid());
    let mut msg = tiny_msg(1);
    msg.rect.row_max = 1879;
    msg.width = 1880;
    msg.buffer = vec![0; 1880];
    assert!(!msg.is_valid());
    // Nothing is driven or committed, so the rectangle does not matter.
    let mut msg = tiny_msg(1);
    msg.rect.row_max = 6;
    msg.phase_limit = Some(0);
    assert!(msg.is_valid());
    let mut msg = UpdateMsg { waveform: fake_phase_table(0), ..tiny_msg(0) };
    msg.rect.row_max = 6;
    assert!(!msg.is_valid());
    // No columns, nothing to drive.
    let mut msg = tiny_msg(1);
    msg.rect.col_min = 200;
    assert!(msg.is_valid());
}
