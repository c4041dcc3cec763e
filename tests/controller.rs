use tas::checkpoint::{Checkpoint, Run};
use tas::event_log::{EventLog, FrameInput};
use tas::events::{
    Action, InputEvent, KeySet, KEY_K, KEY_L, KEY_LALT, KEY_LEFT, KEY_P, KEY_RIGHT, KEY_S,
};
use tas::tas::{Effect, Status, Tas, DEFAULT_FIXED_DELTA};

const KEY_A: u32 = 100;
const KEY_B: u32 = 101;

fn event(action: Action, tag: u8) -> InputEvent {
    InputEvent { action, payload: vec![tag] }
}

fn down(k: u32) -> InputEvent {
    event(Action::KeyDown(k), 1)
}

fn up(k: u32) -> InputEvent {
    event(Action::KeyUp(k), 2)
}

fn sorted(mut v: Vec<u32>) -> Vec<u32> {
    v.sort();
    v
}

fn run_of(frames: &[(usize, Vec<InputEvent>)]) -> EventLog {
    EventLog {
        runs: frames
            .iter()
            .map(|(f, inputs)| FrameInput { frames: *f, inputs: inputs.clone() })
            .collect(),
    }
}

fn same(a: &[InputEvent], b: &[InputEvent]) -> bool {
    a.len() == b.len()
        && a.iter().zip(b.iter()).all(|(x, y)| x.action == y.action && x.payload == y.payload)
}

fn recording_tas() -> Tas {
    let mut tas = Tas::new(vec![0], Vec::new());
    tas.set_paused(false);
    tas
}

#[test]
fn new_starts_paused_and_empty() {
    let tas = Tas::new(vec![7, 8], Vec::new());
    assert!(tas.is_paused());
    assert_eq!(tas.frame(), 0);
    assert_eq!(tas.time_scale(), 100);
    assert!(!tas.is_replaying());
    assert_eq!(tas.saved_states().len(), 0);
    assert_eq!(tas.status(), Status::Paused);
    assert_eq!(tas.run().initial_state, vec![7, 8]);
    assert_eq!(tas.save_file(), "tas.json");
}

#[test]
fn new_drops_a_corrupt_store() {
    let bad = Checkpoint {
        frame: 0,
        inputs: run_of(&[(2, vec![down(KEY_A)])]),
        pressed_keys: KeySet::new(),
        pressed_buttons: KeySet::new(),
        initial_state: vec![],
        state: vec![],
    };
    let good = Checkpoint { frame: 2, ..bad.clone() };
    assert!(!bad.is_valid());
    assert!(good.is_valid());
    assert_eq!(Tas::new(vec![], vec![good.clone()]).saved_states().len(), 1);
    assert_eq!(Tas::new(vec![], vec![good, bad]).saved_states().len(), 0);
}

#[test]
fn paused_clock_emits_no_ticks() {
    let mut tas = Tas::new(vec![], Vec::new());
    assert_eq!(tas.fixed_update(1000), 0);
    tas.set_paused(false);
    assert_eq!(tas.fixed_update(1000), 1);
}

#[test]
fn time_scale_changes_tick_rate() {
    let mut tas = recording_tas();
    tas.set_time_scale(50);
    assert_eq!(tas.fixed_update(1000), 0);
    assert_eq!(tas.fixed_update(1000), 1);
    tas.set_time_scale(250);
    assert_eq!(tas.fixed_update(1000), 2);
    assert_eq!(tas.fixed_update(1000), 3);
    tas.set_time_scale(0);
    for _ in 0..10 {
        assert_eq!(tas.fixed_update(1000), 0);
    }
}

#[test]
fn recording_queues_and_coalesces() {
    let mut tas = recording_tas();
    assert!(matches!(tas.handle_event(down(KEY_A)), Effect::Nothing));
    let d = tas.next_frame().unwrap();
    assert_eq!(d.len(), 1);
    assert_eq!(d[0].pressed_keys, vec![KEY_A]);
    assert_eq!(tas.next_frame().unwrap().len(), 0);
    assert_eq!(tas.next_frame().unwrap().len(), 0);
    tas.handle_event(up(KEY_A));
    let d = tas.next_frame().unwrap();
    assert!(d[0].pressed_keys.is_empty());
    assert_eq!(tas.frame(), 4);
    let log = tas.run().inputs;
    assert_eq!(log.runs.len(), 3);
    assert_eq!(log.runs[0].frames, 1);
    assert_eq!(log.runs[1].frames, 2);
    assert!(log.runs[1].inputs.is_empty());
    assert_eq!(log.runs[2].frames, 1);
    assert_eq!(tas.status(), Status::Recording);
}

#[test]
fn capture_mode_swallows_events() {
    let mut tas = recording_tas();
    tas.handle_event(down(KEY_LALT));
    assert!(matches!(tas.handle_event(down(KEY_A)), Effect::Nothing));
    assert!(matches!(tas.handle_event(down(KEY_S)), Effect::SaveRun));
    assert!(matches!(tas.handle_event(down(KEY_K)), Effect::SaveState));
    assert!(matches!(tas.handle_event(down(KEY_L)), Effect::Nothing));
    assert_eq!(tas.fixed_update(1000), 0);
    tas.handle_event(up(KEY_LALT));
    let d = tas.next_frame().unwrap();
    assert_eq!(d.len(), 1);
    assert_eq!(d[0].event.action, Action::KeyUp(KEY_LALT));
}

#[test]
fn capture_mode_commands() {
    let mut tas = recording_tas();
    tas.handle_event(down(KEY_LALT));
    tas.handle_event(down(KEY_P));
    assert!(tas.is_paused());
    tas.handle_event(down(KEY_P));
    assert!(!tas.is_paused());
    tas.handle_event(down(KEY_LEFT));
    assert_eq!(tas.time_scale(), 95);
    tas.handle_event(down(KEY_RIGHT));
    tas.handle_event(down(KEY_RIGHT));
    assert_eq!(tas.time_scale(), 105);
    tas.set_time_scale(3);
    tas.handle_event(down(KEY_LEFT));
    assert_eq!(tas.time_scale(), 0);
    tas.set_time_scale(u32::MAX - 1);
    tas.handle_event(down(KEY_RIGHT));
    assert_eq!(tas.time_scale(), u32::MAX);
}

#[test]
fn capture_load_restores_newest_checkpoint() {
    let mut tas = recording_tas();
    tas.handle_event(down(KEY_A));
    tas.next_frame();
    tas.save_state(vec![1]);
    tas.next_frame();
    tas.save_state(vec![2]);
    tas.next_frame();
    tas.handle_event(down(KEY_LALT));
    match tas.handle_event(down(KEY_L)) {
        Effect::Restore(s) => assert_eq!(s, vec![2]),
        _ => panic!("expected a restore"),
    }
    assert_eq!(tas.frame(), 2);
}

#[test]
fn checkpoint_save_then_load_is_identity() {
    let mut tas = recording_tas();
    tas.handle_event(down(KEY_A));
    tas.handle_event(event(Action::ButtonDown(3), 9));
    tas.next_frame();
    tas.next_frame();
    let before = tas.run();
    tas.save_state(vec![4, 2]);
    let index = tas.saved_states().len() - 1;
    assert_eq!(tas.load_state(index), Some(vec![4, 2]));
    let after = tas.run();
    assert_eq!(tas.frame(), 2);
    assert_eq!(before.initial_state, after.initial_state);
    assert_eq!(before.inputs.runs.len(), after.inputs.runs.len());
    for (a, b) in before.inputs.runs.iter().zip(after.inputs.runs.iter()) {
        assert_eq!(a.frames, b.frames);
        assert!(same(&a.inputs, &b.inputs));
    }
    let c = &tas.saved_states()[index];
    assert_eq!(c.pressed_keys.to_codes(), vec![KEY_A]);
    assert_eq!(c.pressed_buttons.to_codes(), vec![3]);
    let d = tas.next_frame().unwrap();
    assert!(d.is_empty());
}

#[test]
fn load_and_delete_out_of_range_do_nothing() {
    let mut tas = recording_tas();
    tas.save_state(vec![1]);
    tas.handle_event(down(KEY_A));
    tas.next_frame();
    assert_eq!(tas.load_state(1), None);
    assert_eq!(tas.load_state(usize::MAX), None);
    tas.delete_state(5);
    tas.delete_state(usize::MAX);
    assert_eq!(tas.saved_states().len(), 1);
    assert_eq!(tas.frame(), 1);
    tas.delete_state(0);
    assert_eq!(tas.saved_states().len(), 0);
}

#[test]
fn load_out_of_range_keeps_replay() {
    let mut tas = recording_tas();
    tas.start_replay(Run { initial_state: vec![], inputs: run_of(&[(1, vec![])]) });
    assert_eq!(tas.load_state(0), None);
    assert!(tas.is_replaying());
}

#[test]
fn load_cancels_replay() {
    let mut tas = recording_tas();
    tas.save_state(vec![5]);
    tas.start_replay(Run { initial_state: vec![], inputs: run_of(&[(3, vec![])]) });
    assert!(tas.is_replaying());
    assert_eq!(tas.load_state(0), Some(vec![5]));
    assert!(!tas.is_replaying());
}

#[test]
fn replay_exhaustion_scenario() {
    let mut tas = recording_tas();
    let run = Run {
        initial_state: vec![42],
        inputs: run_of(&[(1, vec![down(KEY_A)]), (1, vec![up(KEY_A)]), (1, vec![down(KEY_B)])]),
    };
    assert_eq!(tas.start_replay(run), vec![42]);
    let mut applied = Vec::new();
    for tick in 0..5 {
        let n = tas.fixed_update(1);
        assert!(n <= 1);
        for _ in 0..n {
            match tas.next_frame() {
                Some(d) => applied.push((tick, d)),
                None => assert!(tick >= 3),
            }
        }
    }
    assert_eq!(applied.len(), 3);
    assert_eq!(applied[0].0, 0);
    assert_eq!(applied[0].1[0].event.action, Action::KeyDown(KEY_A));
    assert_eq!(applied[0].1[0].pressed_keys, vec![KEY_A]);
    assert_eq!(applied[1].0, 1);
    assert_eq!(applied[1].1[0].event.action, Action::KeyUp(KEY_A));
    assert!(applied[1].1[0].pressed_keys.is_empty());
    assert_eq!(applied[2].0, 2);
    assert_eq!(applied[2].1[0].event.action, Action::KeyDown(KEY_B));
    assert!(tas.is_paused());
    assert_eq!(tas.frame(), 3);
    assert_eq!(tas.status(), Status::Paused);
}

#[test]
fn replay_ignores_live_events() {
    let mut tas = recording_tas();
    tas.start_replay(Run { initial_state: vec![], inputs: run_of(&[(2, vec![])]) });
    tas.handle_event(down(KEY_A));
    assert!(tas.next_frame().unwrap().is_empty());
    assert_eq!(tas.status(), Status::Replay(1));
    assert!(tas.next_frame().unwrap().is_empty());
    assert!(tas.next_frame().is_none());
    assert!(tas.is_paused());
}

#[test]
fn zero_length_run_is_skipped() {
    let mut tas = recording_tas();
    tas.start_replay(Run {
        initial_state: vec![],
        inputs: run_of(&[(0, vec![down(KEY_A)]), (2, vec![up(KEY_A)]), (0, vec![])]),
    });
    assert_eq!(tas.next_frame().unwrap()[0].event.action, Action::KeyUp(KEY_A));
    assert_eq!(tas.next_frame().unwrap()[0].event.action, Action::KeyUp(KEY_A));
    assert!(tas.next_frame().is_none());
}

#[test]
fn record_then_replay_gives_same_input() {
    let script: Vec<Vec<InputEvent>> = vec![
        vec![down(KEY_A)],
        vec![],
        vec![],
        vec![down(KEY_B), up(KEY_A)],
        vec![down(KEY_B), up(KEY_A)],
        vec![event(Action::Other, 7)],
    ];
    let mut tas = recording_tas();
    let mut recorded = Vec::new();
    for tick in &script {
        for e in tick {
            tas.handle_event(e.clone());
        }
        let d = tas.next_frame().unwrap();
        recorded.push(d);
    }
    let run = tas.run();
    assert_eq!(run.inputs.runs.len(), 4);
    let mut replay = recording_tas();
    replay.start_replay(run);
    for (i, tick) in script.iter().enumerate() {
        let d = replay.next_frame().unwrap();
        let events: Vec<InputEvent> = d.iter().map(|x| x.event.clone()).collect();
        assert!(same(&events, tick));
        assert_eq!(d.len(), recorded[i].len());
        for (a, b) in d.iter().zip(recorded[i].iter()) {
            assert_eq!(sorted(a.pressed_keys.clone()), sorted(b.pressed_keys.clone()));
            assert_eq!(sorted(a.pressed_buttons.clone()), sorted(b.pressed_buttons.clone()));
        }
    }
    let replayed = replay.run();
    assert_eq!(replayed.initial_state, vec![0]);
    let recorded_run = tas.run();
    assert_eq!(replayed.inputs.runs.len(), recorded_run.inputs.runs.len());
    for (a, b) in replayed.inputs.runs.iter().zip(recorded_run.inputs.runs.iter()) {
        assert_eq!(a.frames, b.frames);
        assert!(same(&a.inputs, &b.inputs));
    }
    assert_eq!(replay.frame(), tas.frame());
    assert!(replay.next_frame().is_none());
}

#[test]
fn replay_checkpoint_matches_recorded_one() {
    let mut tas = Tas::new(vec![3], Vec::new());
    tas.set_paused(false);
    tas.handle_event(down(KEY_A));
    tas.next_frame();
    tas.save_state(vec![1]);
    tas.next_frame();
    let run = tas.run();
    let mut other = Tas::new(vec![8], Vec::new());
    other.set_paused(false);
    assert_eq!(other.start_replay(run), vec![3]);
    other.next_frame();
    other.save_state(vec![1]);
    let a = &tas.saved_states()[0];
    let b = &other.saved_states()[0];
    assert_eq!(a.frame, b.frame);
    assert_eq!(a.initial_state, b.initial_state);
    assert_eq!(a.inputs.runs.len(), 1);
    assert_eq!(b.inputs.runs.len(), 1);
    assert_eq!(a.inputs.runs[0].frames, b.inputs.runs[0].frames);
    assert!(same(&a.inputs.runs[0].inputs, &b.inputs.runs[0].inputs));
    assert_eq!(a.pressed_keys.to_codes(), b.pressed_keys.to_codes());
}

#[test]
fn tick_length_is_the_first_delta() {
    let mut whole = recording_tas();
    assert_eq!(whole.fixed_update(1000), 1);
    assert_eq!(whole.fixed_update(10_000), 10);
    let mut cut = recording_tas();
    assert_eq!(cut.fixed_update(1000), 1);
    assert_eq!(cut.fixed_update(3000) + cut.fixed_update(7000), 10);
    let mut fine = recording_tas();
    assert_eq!(fine.fixed_update(1000), 1);
    let mut total = 0;
    for _ in 0..10 {
        total += fine.fixed_update(1000);
    }
    assert_eq!(total, 10);
}

#[test]
fn zero_time_scale_never_ticks() {
    let mut tas = recording_tas();
    tas.set_time_scale(50);
    assert_eq!(tas.fixed_update(1000), 0);
    tas.set_time_scale(0);
    for d in [1u64, 10, 1000, 1_000_000] {
        assert_eq!(tas.fixed_update(d), 0);
    }
    tas.set_time_scale(50);
    assert_eq!(tas.fixed_update(1000), 1);
}

#[test]
fn default_tick_length_is_one_second() {
    assert_eq!(DEFAULT_FIXED_DELTA, 1_000_000);
}
