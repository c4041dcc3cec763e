use tas::clock::Clock;
use tas::event_log::{EventLog, FrameInput};
use tas::events::{copy_events, same_events, Action, InputEvent, KeySet};
use tas::replay::Replay;

fn ev(k: u32) -> InputEvent {
    InputEvent { action: Action::KeyDown(k), payload: vec![k as u8] }
}

#[test]
fn clock_chunking_does_not_matter() {
    let mut one = Clock::new(10);
    assert_eq!(one.advance(100, 100), 10);
    assert_eq!(one.acc, 0);
    let mut ten = Clock::new(10);
    let mut total = 0;
    for _ in 0..10 {
        total += ten.advance(10, 100);
    }
    assert_eq!(total, 10);
    let mut odd = Clock::new(10);
    let mut total = 0;
    for d in [3u64, 7, 25, 1, 4, 60] {
        total += odd.advance(d, 100);
    }
    assert_eq!(total, 10);
    assert_eq!(odd.acc, 0);
}

#[test]
fn clock_keeps_remainder() {
    let mut c = Clock::new(10);
    assert_eq!(c.advance(15, 100), 1);
    assert_eq!(c.acc, 500);
    assert_eq!(c.advance(5, 100), 1);
    assert_eq!(c.acc, 0);
    assert_eq!(c.advance(7, 300), 2);
    assert_eq!(c.acc, 100);
}

#[test]
fn clock_with_zero_step_emits_nothing() {
    let mut c = Clock::new(0);
    assert_eq!(c.advance(u64::MAX, u32::MAX), 0);
    assert_eq!(c.acc, 0);
}

#[test]
fn clock_largest_inputs_do_not_overflow() {
    let mut c = Clock::new(1);
    let t = c.advance(u64::MAX, u32::MAX);
    assert_eq!(t, (u64::MAX as u128) * (u32::MAX as u128) / 100);
    assert_eq!(c.acc, (u64::MAX as u128) * (u32::MAX as u128) % 100);
}

#[test]
fn log_coalesces_equal_ticks() {
    let mut log = EventLog::new();
    log.record(vec![ev(1)]);
    log.record(vec![ev(1)]);
    log.record(vec![]);
    log.record(vec![ev(1)]);
    assert_eq!(log.runs.len(), 3);
    assert_eq!(log.runs[0].frames, 2);
    assert_eq!(log.runs[1].frames, 1);
    assert_eq!(log.runs[2].frames, 1);
    assert!(log.is_coalesced());
    assert!(log.covers(4));
    assert!(!log.covers(3));
    assert!(!log.covers(5));
}

#[test]
fn log_payload_tells_events_apart() {
    let mut log = EventLog::new();
    log.record(vec![ev(1)]);
    log.record(vec![InputEvent { action: Action::KeyDown(1), payload: vec![9] }]);
    assert_eq!(log.runs.len(), 2);
}

#[test]
fn log_expand_and_recompact_is_identity() {
    let log = EventLog {
        runs: vec![
            FrameInput { frames: 3, inputs: vec![ev(1)] },
            FrameInput { frames: 1, inputs: vec![] },
            FrameInput { frames: 2, inputs: vec![ev(2), ev(3)] },
        ],
    };
    assert!(log.is_coalesced());
    let mut again = EventLog::new();
    for run in &log.runs {
        for _ in 0..run.frames {
            again.record(copy_events(&run.inputs));
        }
    }
    assert_eq!(again.runs.len(), log.runs.len());
    for (a, b) in again.runs.iter().zip(log.runs.iter()) {
        assert_eq!(a.frames, b.frames);
        assert!(same_events(&a.inputs, &b.inputs));
    }
}

#[test]
fn log_not_coalesced() {
    let twice = EventLog {
        runs: vec![
            FrameInput { frames: 1, inputs: vec![ev(1)] },
            FrameInput { frames: 1, inputs: vec![ev(1)] },
        ],
    };
    assert!(!twice.is_coalesced());
    let empty_run = EventLog { runs: vec![FrameInput { frames: 0, inputs: vec![] }] };
    assert!(!empty_run.is_coalesced());
    assert!(EventLog::new().is_coalesced());
}

#[test]
fn log_copy_is_equal() {
    let mut log = EventLog::new();
    log.record(vec![ev(4), ev(5)]);
    let c = log.copy();
    assert_eq!(c.runs.len(), 1);
    assert!(same_events(&c.runs[0].inputs, &log.runs[0].inputs));
}

#[test]
fn replay_cursor_walks_runs() {
    let log = EventLog {
        runs: vec![
            FrameInput { frames: 2, inputs: vec![ev(1)] },
            FrameInput { frames: 1, inputs: vec![ev(2)] },
        ],
    };
    let mut r = Replay::new(log);
    assert!(!r.is_exhausted());
    assert_eq!(r.next_tick().unwrap()[0].action, Action::KeyDown(1));
    assert_eq!(r.next_tick().unwrap()[0].action, Action::KeyDown(1));
    assert_eq!(r.next_tick().unwrap()[0].action, Action::KeyDown(2));
    assert!(r.is_exhausted());
    assert!(r.next_tick().is_none());
}

#[test]
fn replay_skips_runs_without_ticks() {
    let log = EventLog {
        runs: vec![
            FrameInput { frames: 0, inputs: vec![ev(1)] },
            FrameInput { frames: 1, inputs: vec![ev(2)] },
            FrameInput { frames: 0, inputs: vec![ev(3)] },
        ],
    };
    let mut r = Replay::new(log);
    assert_eq!(r.next_tick().unwrap()[0].action, Action::KeyDown(2));
    assert!(r.is_exhausted());
    assert!(r.next_tick().is_none());
    let mut none = Replay::new(EventLog { runs: vec![FrameInput { frames: 0, inputs: vec![] }] });
    assert!(none.is_exhausted());
    assert!(none.next_tick().is_none());
}

#[test]
fn replay_of_empty_log_is_exhausted() {
    let mut r = Replay::new(EventLog::new());
    assert!(r.is_exhausted());
    assert!(r.next_tick().is_none());
}

#[test]
fn key_set_operations() {
    let mut s = KeySet::new();
    s.insert(3);
    s.insert(1);
    s.insert(3);
    assert!(s.contains(3));
    let mut codes = s.to_codes();
    codes.sort();
    assert_eq!(codes, vec![1, 3]);
    s.remove(3);
    assert!(!s.contains(3));
    assert_eq!(s.to_codes(), vec![1]);
    s.remove(8);
    assert_eq!(s.copy().to_codes(), vec![1]);
    let f = KeySet::from_codes(vec![2, 2, 5]);
    let mut codes = f.to_codes();
    codes.sort();
    assert_eq!(codes, vec![2, 5]);
}

#[test]
fn events_compare_by_value() {
    let a = vec![ev(1), ev(2)];
    assert!(same_events(&a, &copy_events(&a)));
    assert!(!same_events(&a, &vec![ev(1)]));
    assert!(!same_events(&a, &vec![ev(1), ev(3)]));
    assert!(a[0].same_as(&a[0].copy()));
}
