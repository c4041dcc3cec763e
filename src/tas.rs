//! The controller: records or replays input, runs the clock and keeps the
//! checkpoints. The host performs what it hands back: events to forward,
//! states to load, files to write.
use vstd::prelude::*;
use crate::checkpoint::{Checkpoint, CheckpointView, Run, checkpoints_view, checkpoint_valid,
    all_valid};
use crate::clock::{Clock, SCALE_ONE, tick_span, total, ticks_of, leftover_of,
    lemma_ticks_follow_total};
use crate::event_log::{EventLog, RunView, push_tick, expand, coalesced, compact,
    lemma_compact_lossless, lemma_coalesced_fixed_point};
use crate::events::{Action, InputEvent, EventView, KeySet, copy_bytes, KEY_LALT, KEY_S, KEY_K,
    KEY_L, KEY_P, KEY_LEFT, KEY_RIGHT};
use crate::replay::Replay;

verus! {

/// Tick length before the host reports its own: one second in microseconds.
pub const DEFAULT_FIXED_DELTA: u64 = 1000000;
/// How much one press of the arrow keys changes the time scale.
pub const SCALE_STEP: u32 = 5;

/// The mathematical value of a [`Tas`].
pub struct TasView {
    pub time_scale: nat,
    pub paused: bool,
    pub auto_paused: bool,
    /// Whether the host's tick length has been seen yet.
    pub step_known: bool,
    pub clock: Clock,
    pub saved: Seq<CheckpointView>,
    pub frame: nat,
    pub inputs: Seq<RunView>,
    /// The input of each tick still to be replayed, while a replay runs.
    pub replay: Option<Seq<Seq<EventView>>>,
    pub initial_state: Seq<u8>,
    pub queued: Seq<EventView>,
    pub pressed_keys: Set<u32>,
    pub pressed_buttons: Set<u32>,
    /// Path of the run file.
    pub save_file: Seq<char>,
}

/// The controller of a recorded or replayed run.
pub struct Tas {
    save_file: String,
    time_scale: u32,
    paused: bool,
    auto_paused: bool,
    step_known: bool,
    clock: Clock,
    saved_states: Vec<Checkpoint>,
    frame: usize,
    inputs: EventLog,
    replay: Option<Replay>,
    initial_state: Vec<u8>,
    queued_inputs: Vec<InputEvent>,
    pressed_keys: KeySet,
    pressed_buttons: KeySet,
}

/// The checkpoint of the current state, with the subject's state `state`.
pub open spec fn snapshot(v: TasView, state: Seq<u8>) -> CheckpointView {
    CheckpointView {
        frame: v.frame,
        inputs: v.inputs,
        pressed_keys: v.pressed_keys,
        pressed_buttons: v.pressed_buttons,
        initial_state: v.initial_state,
        state,
    }
}

/// The controller after saving a checkpoint.
pub open spec fn after_save(v: TasView, state: Seq<u8>) -> TasView {
    TasView { saved: v.saved.push(snapshot(v, state)), ..v }
}

/// The controller after loading checkpoint `i`: out of range, nothing changes.
pub open spec fn after_load(v: TasView, i: int) -> TasView {
    if 0 <= i < v.saved.len() {
        let c = v.saved[i];
        TasView {
            replay: None,
            frame: c.frame,
            inputs: c.inputs,
            pressed_keys: c.pressed_keys,
            pressed_buttons: c.pressed_buttons,
            initial_state: c.initial_state,
            ..v
        }
    } else {
        v
    }
}

/// The controller after deleting checkpoint `i`: out of range, nothing
/// changes.
pub open spec fn after_delete(v: TasView, i: int) -> TasView {
    if 0 <= i < v.saved.len() {
        TasView { saved: v.saved.remove(i), ..v }
    } else {
        v
    }
}

/// The controller after a replay starts of a run from `initial_state` with
/// log `log`.
pub open spec fn after_start_replay(v: TasView, initial_state: Seq<u8>, log: Seq<RunView>) -> TasView {
    TasView {
        initial_state,
        frame: 0,
        queued: Seq::empty(),
        inputs: Seq::empty(),
        pressed_keys: Set::empty(),
        pressed_buttons: Set::empty(),
        replay: Some(expand(log)),
        ..v
    }
}

/// What the host has to do after an event.
#[derive(Clone, Debug)]
pub enum Effect {
    /// Nothing.
    Nothing,
    /// Save the run to the run file.
    SaveRun,
    /// Save a checkpoint with the subject's current state, then store the
    /// checkpoints.
    SaveState,
    /// Load this state into the subject.
    Restore(Vec<u8>),
}

/// What the controller is doing.
#[derive(Clone, Copy, Debug, PartialEq, Eq, Structural)]
pub enum Status {
    Paused,
    /// Replaying; the tick it has reached.
    Replay(usize),
    Recording,
}

/// The mathematical value of an [`Effect`].
pub enum EffectView {
    Nothing,
    SaveRun,
    SaveState,
    Restore(Seq<u8>),
}

impl View for Effect {
    type V = EffectView;

    open spec fn view(&self) -> EffectView {
        match self {
            Effect::Nothing => EffectView::Nothing,
            Effect::SaveRun => EffectView::SaveRun,
            Effect::SaveState => EffectView::SaveState,
            Effect::Restore(s) => EffectView::Restore(s@),
        }
    }
}

/// Whether capture mode is on after an event.
pub open spec fn capture_after(auto_paused: bool, a: Action) -> bool {
    if a == Action::KeyDown(KEY_LALT) {
        true
    } else if a == Action::KeyUp(KEY_LALT) {
        false
    } else {
        auto_paused
    }
}

/// The time scale one step slower, not below zero.
pub open spec fn slower(scale: nat) -> nat {
    if scale >= SCALE_STEP {
        (scale - SCALE_STEP) as nat
    } else {
        0
    }
}

/// The time scale one step faster, not above the largest `u32`.
pub open spec fn faster(scale: nat) -> nat {
    if scale + SCALE_STEP <= u32::MAX {
        (scale + SCALE_STEP) as nat
    } else {
        u32::MAX as nat
    }
}

/// The controller after an event.
pub open spec fn after_event(v: TasView, e: EventView) -> TasView {
    let w = TasView { auto_paused: capture_after(v.auto_paused, e.action), ..v };
    if w.auto_paused {
        match e.action {
            Action::KeyDown(k) => if k == KEY_L && w.saved.len() > 0 {
                after_load(w, w.saved.len() - 1)
            } else if k == KEY_P {
                TasView { paused: !w.paused, ..w }
            } else if k == KEY_LEFT {
                TasView { time_scale: slower(w.time_scale), ..w }
            } else if k == KEY_RIGHT {
                TasView { time_scale: faster(w.time_scale), ..w }
            } else {
                w
            },
            _ => w,
        }
    } else if w.replay is Some {
        w
    } else {
        TasView { queued: w.queued.push(e), ..w }
    }
}

/// What the host has to do after an event with action `a`.
pub open spec fn effect_of(v: TasView, a: Action) -> EffectView {
    if capture_after(v.auto_paused, a) {
        match a {
            Action::KeyDown(k) => if k == KEY_S {
                EffectView::SaveRun
            } else if k == KEY_K {
                EffectView::SaveState
            } else if k == KEY_L && v.saved.len() > 0 {
                EffectView::Restore(v.saved.last().state)
            } else {
                EffectView::Nothing
            },
            _ => EffectView::Nothing,
        }
    } else {
        EffectView::Nothing
    }
}

/// The tick length after a fixed update of length `delta`: the first
/// update with a positive length sets it, and it stays from then on.
pub open spec fn step_after(v: TasView, delta: nat) -> nat {
    if !v.step_known && delta > 0 {
        delta
    } else {
        v.clock.fixed_delta as nat
    }
}

/// The ticks that a fixed update of length `delta` makes due.
pub open spec fn ticks_due(v: TasView, delta: nat) -> nat {
    if v.paused || v.auto_paused {
        0
    } else {
        ((v.clock.acc + delta * v.time_scale) / (tick_span(step_after(v, delta)) as int)) as nat
    }
}

/// The controller after a fixed update of length `delta`.
pub open spec fn after_fixed_update(v: TasView, delta: nat) -> TasView {
    TasView {
        step_known: v.step_known || delta > 0,
        clock: Clock {
            fixed_delta: step_after(v, delta) as u64,
            acc: if v.paused || v.auto_paused {
                v.clock.acc
            } else {
                ((v.clock.acc + delta * v.time_scale) % (tick_span(step_after(v, delta)) as int)) as u128
            },
        },
        ..v
    }
}

/// One event to hand to the subject, with the held input from it on.
#[derive(Clone, Debug)]
pub struct Delivery {
    pub event: InputEvent,
    pub pressed_keys: Vec<u32>,
    pub pressed_buttons: Vec<u32>,
}

/// The mathematical value of a [`Delivery`].
pub struct DeliveryView {
    pub event: EventView,
    pub pressed_keys: Set<u32>,
    pub pressed_buttons: Set<u32>,
}

impl View for Delivery {
    type V = DeliveryView;

    open spec fn view(&self) -> DeliveryView {
        DeliveryView {
            event: self.event@,
            pressed_keys: self.pressed_keys@.to_set(),
            pressed_buttons: self.pressed_buttons@.to_set(),
        }
    }
}

/// Held keys after an event with action `a`.
pub open spec fn key_effect(keys: Set<u32>, a: Action) -> Set<u32> {
    match a {
        Action::KeyDown(k) => keys.insert(k),
        Action::KeyUp(k) => keys.remove(k),
        _ => keys,
    }
}

/// Held buttons after an event with action `a`.
pub open spec fn button_effect(buttons: Set<u32>, a: Action) -> Set<u32> {
    match a {
        Action::ButtonDown(b) => buttons.insert(b),
        Action::ButtonUp(b) => buttons.remove(b),
        _ => buttons,
    }
}

/// Held keys after a sequence of events.
pub open spec fn keys_after(keys: Set<u32>, events: Seq<EventView>) -> Set<u32>
    decreases events.len(),
{
    if events.len() == 0 {
        keys
    } else {
        key_effect(keys_after(keys, events.drop_last()), events.last().action)
    }
}

/// Held buttons after a sequence of events.
pub open spec fn buttons_after(buttons: Set<u32>, events: Seq<EventView>) -> Set<u32>
    decreases events.len(),
{
    if events.len() == 0 {
        buttons
    } else {
        button_effect(buttons_after(buttons, events.drop_last()), events.last().action)
    }
}

/// Whether a tick can be played: the tick counter can advance and a running
/// replay has input left.
pub open spec fn can_play(v: TasView) -> bool {
    &&& v.frame < usize::MAX
    &&& match v.replay {
        Some(rem) => rem.len() > 0,
        None => true,
    }
}

/// The input of the next tick.
pub open spec fn tick_input(v: TasView) -> Seq<EventView> {
    match v.replay {
        Some(rem) => rem[0],
        None => v.queued,
    }
}

/// The controller after a tick is played, or paused if none can be.
pub open spec fn after_frame(v: TasView) -> TasView {
    if !can_play(v) {
        TasView { paused: true, ..v }
    } else {
        let x = tick_input(v);
        TasView {
            frame: v.frame + 1,
            pressed_keys: keys_after(v.pressed_keys, x),
            pressed_buttons: buttons_after(v.pressed_buttons, x),
            inputs: push_tick(v.inputs, x),
            queued: if v.replay is Some {
                v.queued
            } else {
                Seq::empty()
            },
            replay: match v.replay {
                Some(rem) => Some(rem.drop_first()),
                None => None,
            },
            ..v
        }
    }
}

/// Event `j` of the tick's input `x`, with the held input after it.
pub open spec fn delivery_at(v: TasView, x: Seq<EventView>, j: int) -> DeliveryView {
    DeliveryView {
        event: x[j],
        pressed_keys: keys_after(v.pressed_keys, x.take(j + 1)),
        pressed_buttons: buttons_after(v.pressed_buttons, x.take(j + 1)),
    }
}

/// The deliveries hand out the tick's input in order, each with the held
/// input after it.
pub open spec fn deliveries_of(v: TasView, ds: Seq<Delivery>) -> bool {
    let x = tick_input(v);
    &&& ds.len() == x.len()
    &&& forall|j: int| 0 <= j < ds.len() ==> #[trigger] ds[j]@ == delivery_at(v, x, j)
}

/// Saving a checkpoint and loading it at once leaves the tick, the log, the
/// held input and the initial state as they were, and hands back the
/// subject state that was saved.
pub proof fn lemma_checkpoint_fidelity(v: TasView, state: Seq<u8>)
    ensures
        ({
            let saved = after_save(v, state);
            let w = after_load(saved, v.saved.len() as int);
            &&& w.frame == v.frame
            &&& w.inputs == v.inputs
            &&& w.pressed_keys == v.pressed_keys
            &&& w.pressed_buttons == v.pressed_buttons
            &&& w.initial_state == v.initial_state
            &&& w.queued == v.queued
            &&& w.saved == saved.saved
            &&& saved.saved[v.saved.len() as int].state == state
        }),
{
}

/// Loading or deleting a checkpoint past the end of the store changes
/// nothing.
pub proof fn lemma_out_of_range_tolerance(v: TasView, index: int)
    requires
        index >= v.saved.len(),
    ensures
        after_load(v, index) == v,
        after_delete(v, index) == v,
{
}

/// The controller after the ticks are recorded: before each tick its input
/// is queued, then the tick is played.
pub open spec fn record_run(v: TasView, ticks: Seq<Seq<EventView>>) -> TasView
    decreases ticks.len(),
{
    if ticks.len() == 0 {
        v
    } else {
        after_frame(TasView { queued: ticks.last(), ..record_run(v, ticks.drop_last()) })
    }
}

/// The controller after `k` ticks are played.
pub open spec fn play(v: TasView, k: nat) -> TasView
    decreases k,
{
    if k == 0 {
        v
    } else {
        after_frame(play(v, (k - 1) as nat))
    }
}

/// Held keys after the ticks, from `keys`.
pub open spec fn keys_after_ticks(keys: Set<u32>, ticks: Seq<Seq<EventView>>) -> Set<u32>
    decreases ticks.len(),
{
    if ticks.len() == 0 {
        keys
    } else {
        keys_after(keys_after_ticks(keys, ticks.drop_last()), ticks.last())
    }
}

/// Held buttons after the ticks, from `buttons`.
pub open spec fn buttons_after_ticks(buttons: Set<u32>, ticks: Seq<Seq<EventView>>) -> Set<u32>
    decreases ticks.len(),
{
    if ticks.len() == 0 {
        buttons
    } else {
        buttons_after(buttons_after_ticks(buttons, ticks.drop_last()), ticks.last())
    }
}

/// Recording ticks appends them to the log in its run-length encoding,
/// advances the tick counter by their number and folds their events into the
/// held input.
pub proof fn lemma_record_run(v: TasView, before: Seq<Seq<EventView>>, ticks: Seq<Seq<EventView>>)
    requires
        v.replay is None,
        v.inputs == compact(before),
        v.frame + ticks.len() < usize::MAX,
    ensures
        ({
            let r = record_run(v, ticks);
            &&& r.replay is None
            &&& r.frame == v.frame + ticks.len()
            &&& r.inputs == compact(before + ticks)
            &&& r.pressed_keys == keys_after_ticks(v.pressed_keys, ticks)
            &&& r.pressed_buttons == buttons_after_ticks(v.pressed_buttons, ticks)
            &&& r.initial_state == v.initial_state
            &&& r.saved == v.saved
        }),
    decreases ticks.len(),
{
    if ticks.len() == 0 {
        assert(before + ticks =~= before);
    } else {
        lemma_record_run(v, before, ticks.drop_last());
        assert((before + ticks).drop_last() =~= before + ticks.drop_last());
        assert((before + ticks).last() == ticks.last());
    }
}

/// Recording a stream from an empty log leaves its run-length encoding;
/// recording again the stream of a coalesced log gives that log back, so
/// recording what a recording encodes reproduces the recording.
pub proof fn lemma_recording_coalesces(v: TasView, ticks: Seq<Seq<EventView>>, log: Seq<RunView>)
    requires
        v.replay is None,
        v.inputs == Seq::<RunView>::empty(),
        v.frame + ticks.len() < usize::MAX,
        coalesced(log),
        v.frame + expand(log).len() < usize::MAX,
    ensures
        record_run(v, ticks).inputs == compact(ticks),
        expand(record_run(v, ticks).inputs) == ticks,
        record_run(v, expand(log)).inputs == log,
        record_run(v, expand(record_run(v, ticks).inputs)).inputs == record_run(v, ticks).inputs,
{
    let e = Seq::<Seq<EventView>>::empty();
    assert(compact(e) =~= Seq::<RunView>::empty());
    lemma_record_run(v, e, ticks);
    assert(e + ticks =~= ticks);
    lemma_compact_lossless(ticks);
    lemma_record_run(v, e, expand(log));
    assert(e + expand(log) =~= expand(log));
    lemma_coalesced_fixed_point(log);
}

/// Tick for tick, a replay of recorded input logs the ticks it plays and
/// holds the keys and buttons that the recorded input held from an empty
/// start; it pauses once the recording is used up, changing nothing else.
pub proof fn lemma_replay_tick_for_tick(
    v: TasView,
    initial_state: Seq<u8>,
    ticks: Seq<Seq<EventView>>,
    k: nat,
)
    requires
        ticks.len() < usize::MAX,
        k <= ticks.len(),
    ensures
        ({
            let p = play(after_start_replay(v, initial_state, compact(ticks)), k);
            &&& p.frame == k
            &&& p.replay == Some(ticks.skip(k as int))
            &&& p.inputs == compact(ticks.take(k as int))
            &&& p.pressed_keys == keys_after_ticks(Set::empty(), ticks.take(k as int))
            &&& p.pressed_buttons == buttons_after_ticks(Set::empty(), ticks.take(k as int))
            &&& p.initial_state == initial_state
            &&& p.saved == v.saved
            &&& k == ticks.len() ==> after_frame(p) == TasView { paused: true, ..p }
        }),
    decreases k,
{
    lemma_compact_lossless(ticks);
    if k == 0 {
        assert(ticks.skip(0) =~= ticks);
        assert(ticks.take(0) =~= Seq::<Seq<EventView>>::empty());
        assert(compact(ticks.take(0)) =~= Seq::<RunView>::empty());
    } else {
        lemma_replay_tick_for_tick(v, initial_state, ticks, (k - 1) as nat);
        assert(ticks.skip(k - 1)[0] == ticks[k - 1]);
        assert(ticks.skip(k - 1).drop_first() =~= ticks.skip(k as int));
        assert(ticks.take(k as int).drop_last() =~= ticks.take(k - 1));
        assert(ticks.take(k as int).last() == ticks[k - 1]);
    }
    if k == ticks.len() {
        assert(ticks.skip(k as int).len() == 0);
    }
}

/// Record a run on a fresh controller, then replay the saved run on any
/// controller: after each tick the replay stands where the recording stood,
/// with the same tick, log, held keys and buttons and initial state, so a
/// checkpoint saved there is the one saved while recording. The replay
/// pauses when the run is used up.
pub proof fn lemma_record_replay_equivalence(
    v: TasView,
    w: TasView,
    ticks: Seq<Seq<EventView>>,
    k: nat,
    state: Seq<u8>,
)
    requires
        v.replay is None,
        v.inputs == Seq::<RunView>::empty(),
        v.frame == 0,
        v.pressed_keys == Set::<u32>::empty(),
        v.pressed_buttons == Set::<u32>::empty(),
        ticks.len() < usize::MAX,
        k <= ticks.len(),
    ensures
        ({
            let recorded = record_run(v, ticks);
            let rec = record_run(v, ticks.take(k as int));
            let rep = play(after_start_replay(w, recorded.initial_state, recorded.inputs), k);
            &&& snapshot(rep, state) == snapshot(rec, state)
            &&& k == ticks.len() ==> after_frame(rep) == TasView { paused: true, ..rep }
        }),
{
    let e = Seq::<Seq<EventView>>::empty();
    assert(compact(e) =~= Seq::<RunView>::empty());
    lemma_record_run(v, e, ticks);
    assert(e + ticks =~= ticks);
    lemma_record_run(v, e, ticks.take(k as int));
    assert(e + ticks.take(k as int) =~= ticks.take(k as int));
    lemma_replay_tick_for_tick(w, v.initial_state, ticks, k);
}

/// The controller after fixed updates of the given lengths, in order.
pub open spec fn fixed_updates(v: TasView, deltas: Seq<nat>) -> TasView
    decreases deltas.len(),
{
    if deltas.len() == 0 {
        v
    } else {
        after_fixed_update(fixed_updates(v, deltas.drop_last()), deltas.last())
    }
}

/// The ticks made due by fixed updates of the given lengths, in order.
pub open spec fn ticks_over(v: TasView, deltas: Seq<nat>) -> nat
    decreases deltas.len(),
{
    if deltas.len() == 0 {
        0
    } else {
        ticks_over(v, deltas.drop_last()) + ticks_due(
            fixed_updates(v, deltas.drop_last()),
            deltas.last(),
        )
    }
}

/// Once the host's tick length is known, fixed updates run the clock at
/// that length: the ticks they make due and the remainder they leave depend
/// on the total of their deltas alone, and at time scale zero none are due.
pub proof fn lemma_fixed_updates_follow_total(v: TasView, deltas: Seq<nat>)
    requires
        tas_valid(v),
        v.step_known,
        !v.paused,
        !v.auto_paused,
    ensures
        fixed_updates(v, deltas).clock.fixed_delta == v.clock.fixed_delta,
        ticks_over(v, deltas) == ticks_of(
            v.clock.acc as nat,
            v.clock.fixed_delta as nat,
            v.time_scale,
            deltas,
        ),
        fixed_updates(v, deltas).clock.acc == leftover_of(
            v.clock.acc as nat,
            v.clock.fixed_delta as nat,
            v.time_scale,
            deltas,
        ),
        ticks_over(v, deltas) == (v.clock.acc + total(deltas) * v.time_scale) / (tick_span(
            v.clock.fixed_delta as nat,
        ) as int),
        v.time_scale == 0 ==> ticks_over(v, deltas) == 0,
    decreases deltas.len(),
{
    if deltas.len() > 0 {
        let init = deltas.drop_last();
        let x = deltas.last();
        lemma_fixed_updates_follow_total(v, init);
        lemma_fixed_updates_keep(v, init);
        let w = fixed_updates(v, init);
        let step = v.clock.fixed_delta as nat;
        let m = tick_span(step) as int;
        let prev = leftover_of(v.clock.acc as nat, step, v.time_scale, init);
        assert(w.step_known && !w.paused && !w.auto_paused && w.time_scale == v.time_scale);
        assert(step_after(w, x) == step);
        let sum: int = (prev + x * v.time_scale) as int;
        assert(0 <= sum % m < m) by (nonlinear_arith)
            requires
                m > 0,
        ;
        assert(m <= 100 * (u64::MAX as int)) by (nonlinear_arith)
            requires
                m == 100 * step,
                step <= u64::MAX,
        ;
        assert(ticks_due(w, x) == sum / m);
        assert(fixed_updates(v, deltas).clock.acc == sum % m);
    }
    lemma_fixed_updates_keep(v, deltas);
    lemma_ticks_follow_total(v.clock.acc as nat, v.clock.fixed_delta as nat, v.time_scale, deltas);
    if v.time_scale == 0 {
        let a = v.clock.acc as int;
        let m = tick_span(v.clock.fixed_delta as nat) as int;
        let t = total(deltas) as int;
        assert(t * 0 == 0) by (nonlinear_arith);
        assert(a / m == 0) by (nonlinear_arith)
            requires
                0 <= a < m,
        ;
    }
}

proof fn lemma_fixed_updates_keep(v: TasView, deltas: Seq<nat>)
    requires
        v.step_known,
    ensures
        fixed_updates(v, deltas) == (TasView {
            clock: fixed_updates(v, deltas).clock,
            ..v
        }),
        fixed_updates(v, deltas).clock.fixed_delta == v.clock.fixed_delta,
    decreases deltas.len(),
{
    if deltas.len() > 0 {
        lemma_fixed_updates_keep(v, deltas.drop_last());
    }
}

/// At the wall-clock time scale, from an empty accumulator, fixed updates
/// whose deltas add up to `n` tick lengths make exactly `n` ticks due, however
/// the time is cut, and leave the accumulator empty.
pub proof fn lemma_controller_tick_determinism(v: TasView, deltas: Seq<nat>, n: nat)
    requires
        tas_valid(v),
        v.step_known,
        !v.paused,
        !v.auto_paused,
        v.time_scale == SCALE_ONE,
        v.clock.acc == 0,
        total(deltas) == n * v.clock.fixed_delta,
    ensures
        ticks_over(v, deltas) == n,
        fixed_updates(v, deltas).clock.acc == 0,
{
    lemma_fixed_updates_follow_total(v, deltas);
    crate::clock::lemma_tick_determinism(v.clock.fixed_delta as nat, n, deltas);
}

impl View for Tas {
    type V = TasView;

    closed spec fn view(&self) -> TasView {
        TasView {
            time_scale: self.time_scale as nat,
            paused: self.paused,
            auto_paused: self.auto_paused,
            step_known: self.step_known,
            clock: self.clock,
            saved: checkpoints_view(self.saved_states@),
            frame: self.frame as nat,
            inputs: self.inputs@,
            replay: match self.replay {
                Some(r) => Some(r.remaining()),
                None => None,
            },
            initial_state: self.initial_state@,
            queued: crate::events::events_view(self.queued_inputs@),
            pressed_keys: self.pressed_keys@,
            pressed_buttons: self.pressed_buttons@,
            save_file: self.save_file@,
        }
    }
}

/// What holds of the controller between calls.
pub open spec fn tas_valid(v: TasView) -> bool {
    &&& v.clock.wf()
    &&& coalesced(v.inputs)
    &&& expand(v.inputs).len() == v.frame
    &&& v.clock.fixed_delta > 0
    &&& v.clock.acc < tick_span(v.clock.fixed_delta as nat)
    &&& !v.step_known ==> v.clock.acc == 0
    &&& forall|i: int| 0 <= i < v.saved.len() ==> checkpoint_valid(#[trigger] v.saved[i])
}

impl Tas {
    /// The controller is consistent.
    pub closed spec fn wf(&self) -> bool {
        &&& tas_valid(self@)
        &&& self.frame as nat == self@.frame
        &&& match self.replay {
            Some(r) => r.wf(),
            None => true,
        }
    }

    /// A paused controller over a subject whose state is `initial_state`,
    /// with the checkpoints found in storage. A list that holds a checkpoint
    /// that cannot be restored is treated as corrupt, and the store starts
    /// empty.
    pub fn new(initial_state: Vec<u8>, saved_states: Vec<Checkpoint>) -> (r: Tas)
        ensures
            r.wf(),
            r@ == (TasView {
                time_scale: SCALE_ONE as nat,
                paused: true,
                auto_paused: false,
                step_known: false,
                clock: Clock { fixed_delta: DEFAULT_FIXED_DELTA, acc: 0 },
                saved: if forall|i: int|
                    0 <= i < saved_states@.len() ==> checkpoint_valid(#[trigger] saved_states@[i]@) {
                    checkpoints_view(saved_states@)
                } else {
                    Seq::empty()
                },
                frame: 0,
                inputs: Seq::empty(),
                replay: None,
                initial_state: initial_state@,
                queued: Seq::empty(),
                pressed_keys: Set::empty(),
                pressed_buttons: Set::empty(),
                save_file: "tas.json"@,
            }),
    {
        let valid = all_valid(&saved_states);
        let saved_states = if valid {
            saved_states
        } else {
            Vec::new()
        };
        let r = Tas {
            save_file: String::from_str("tas.json"),
            time_scale: SCALE_ONE,
            paused: true,
            auto_paused: false,
            step_known: false,
            clock: Clock::new(DEFAULT_FIXED_DELTA),
            saved_states,
            frame: 0,
            inputs: EventLog::new(),
            replay: None,
            initial_state,
            queued_inputs: Vec::new(),
            pressed_keys: KeySet::new(),
            pressed_buttons: KeySet::new(),
        };
        assert(crate::events::events_view(r.queued_inputs@) =~= Seq::<EventView>::empty());
        assert(checkpoints_view(r.saved_states@) =~= (if valid {
            checkpoints_view(saved_states@)
        } else {
            Seq::empty()
        }));
        r
    }

    /// Saves a checkpoint of the current state; `state` is the subject's
    /// own. Writing the store to storage is left to the host.
    pub fn save_state(&mut self, state: Vec<u8>)
        requires
            old(self).wf(),
        ensures
            final(self).wf(),
            final(self)@ == after_save(old(self)@, state@),
    {
        let c = Checkpoint {
            frame: self.frame,
            inputs: self.inputs.copy(),
            pressed_keys: self.pressed_keys.copy(),
            pressed_buttons: self.pressed_buttons.copy(),
            initial_state: copy_bytes(&self.initial_state),
            state,
        };
        let ghost before = self.saved_states@;
        self.saved_states.push(c);
        assert(checkpoints_view(self.saved_states@) =~= checkpoints_view(before).push(c@));
    }

    /// Loads checkpoint `index`: any replay stops, and the log, the tick and
    /// the held input are restored; returns the subject state to load. Out
    /// of range, nothing happens and `None` comes back.
    pub fn load_state(&mut self, index: usize) -> (r: Option<Vec<u8>>)
        requires
            old(self).wf(),
        ensures
            final(self).wf(),
            final(self)@ == after_load(old(self)@, index as int),
            index < old(self)@.saved.len() ==> r is Some && r->0@ == old(self)@.saved[index as int].state,
            index >= old(self)@.saved.len() ==> r is None,
    {
        if index >= self.saved_states.len() {
            return None;
        }
        let c = self.saved_states[index].copy();
        assert(checkpoint_valid(checkpoints_view(self.saved_states@)[index as int]));
        self.replay = None;
        self.frame = c.frame;
        self.inputs = c.inputs;
        self.pressed_keys = c.pressed_keys;
        self.pressed_buttons = c.pressed_buttons;
        self.initial_state = c.initial_state;
        Some(c.state)
    }

    /// Deletes checkpoint `index`; out of range, nothing happens. Writing the
    /// store to storage is left to the host.
    pub fn delete_state(&mut self, index: usize)
        requires
            old(self).wf(),
        ensures
            final(self).wf(),
            final(self)@ == after_delete(old(self)@, index as int),
    {
        if index < self.saved_states.len() {
            let ghost before = self.saved_states@;
            self.saved_states.remove(index);
            assert(checkpoints_view(self.saved_states@) =~= checkpoints_view(before).remove(
                index as int,
            ));
        }
    }

    /// The run recorded so far, for saving to a file.
    pub fn run(&self) -> (r: Run)
        requires
            self.wf(),
        ensures
            r.initial_state@ == self@.initial_state,
            r.inputs@ == self@.inputs,
    {
        Run { initial_state: copy_bytes(&self.initial_state), inputs: self.inputs.copy() }
    }

    /// Starts replaying `run` from its first tick: its initial state becomes
    /// the run's, and the tick, the log, the queue and the held input are
    /// cleared. Returns the state to load into the subject.
    pub fn start_replay(&mut self, run: Run) -> (r: Vec<u8>)
        requires
            old(self).wf(),
        ensures
            final(self).wf(),
            final(self)@ == after_start_replay(old(self)@, run.initial_state@, run.inputs@),
            r@ == run.initial_state@,
    {
        self.frame = 0;
        self.queued_inputs = Vec::new();
        self.inputs = EventLog::new();
        self.pressed_keys = KeySet::new();
        self.pressed_buttons = KeySet::new();
        self.replay = Some(Replay::new(run.inputs));
        assert(crate::events::events_view(self.queued_inputs@) =~= Seq::<EventView>::empty());
        let state = copy_bytes(&run.initial_state);
        self.initial_state = run.initial_state;
        state
    }

    /// The checkpoints, oldest first.
    pub fn saved_states(&self) -> (r: &Vec<Checkpoint>)
        ensures
            checkpoints_view(r@) == self@.saved,
    {
        &self.saved_states
    }

    /// Handles an event from the host. Holding left Alt puts the controller
    /// in capture mode, where a key press is a command and no event reaches
    /// the subject; otherwise the event is queued for the next tick, unless
    /// a replay is running. Returns what the host has to do.
    pub fn handle_event(&mut self, event: InputEvent) -> (r: Effect)
        requires
            old(self).wf(),
        ensures
            final(self).wf(),
            final(self)@ == after_event(old(self)@, event@),
            r@ == effect_of(old(self)@, event.action),
    {
        let ghost e = event@;
        if event.action == Action::KeyDown(KEY_LALT) {
            self.auto_paused = true;
        }
        if event.action == Action::KeyUp(KEY_LALT) {
            self.auto_paused = false;
        }
        if self.auto_paused {
            if let Action::KeyDown(key) = event.action {
                if key == KEY_S {
                    return Effect::SaveRun;
                } else if key == KEY_K {
                    return Effect::SaveState;
                } else if key == KEY_L && self.saved_states.len() > 0 {
                    let last = self.saved_states.len() - 1;
                    let state = self.load_state(last);
                    return match state {
                        Some(s) => Effect::Restore(s),
                        None => Effect::Nothing,
                    };
                } else if key == KEY_P {
                    self.paused = !self.paused;
                } else if key == KEY_LEFT {
                    self.time_scale = if self.time_scale >= SCALE_STEP {
                        self.time_scale - SCALE_STEP
                    } else {
                        0
                    };
                } else if key == KEY_RIGHT {
                    self.time_scale = if self.time_scale <= u32::MAX - SCALE_STEP {
                        self.time_scale + SCALE_STEP
                    } else {
                        u32::MAX
                    };
                }
            }
            return Effect::Nothing;
        }
        if self.replay.is_some() {
            return Effect::Nothing;
        }
        let ghost before = self.queued_inputs@;
        self.queued_inputs.push(event);
        assert(crate::events::events_view(self.queued_inputs@) =~= crate::events::events_view(
            before,
        ).push(e));
        Effect::Nothing
    }

    /// The host's fixed update. The first positive delta is taken as the
    /// host's tick length; unless paused, the delta scaled by the time scale
    /// goes into the accumulator. Returns the number
    /// of ticks to play now, each by a call of `next_frame`.
    pub fn fixed_update(&mut self, delta: u64) -> (ticks: u128)
        requires
            old(self).wf(),
        ensures
            final(self).wf(),
            final(self)@ == after_fixed_update(old(self)@, delta as nat),
            ticks == ticks_due(old(self)@, delta as nat),
    {
        if !self.step_known && delta > 0 {
            self.clock.fixed_delta = delta;
            self.step_known = true;
        }
        assert(self.clock.acc < tick_span(self.clock.fixed_delta as nat));
        if !self.paused && !self.auto_paused {
            let ghost acc0 = self.clock.acc as int;
            let ticks = self.clock.advance(delta, self.time_scale);
            proof {
                let m = tick_span(self.clock.fixed_delta as nat) as int;
                let sum = acc0 + delta * self.time_scale;
                assert(0 <= sum % m < m) by (nonlinear_arith)
                    requires
                        m > 0,
                ;
            }
            ticks
        } else {
            0
        }
    }

    /// Whether the controller is paused, by command or by capture mode.
    pub fn is_paused(&self) -> (r: bool)
        ensures
            r == self@.paused,
    {
        self.paused
    }

    /// Pauses or resumes the clock.
    pub fn set_paused(&mut self, paused: bool)
        requires
            old(self).wf(),
        ensures
            final(self).wf(),
            final(self)@ == (TasView { paused, ..old(self)@ }),
    {
        self.paused = paused;
    }

    /// The time scale, in hundredths.
    pub fn time_scale(&self) -> (r: u32)
        ensures
            r as nat == self@.time_scale,
    {
        self.time_scale
    }

    /// Sets the time scale, in hundredths.
    pub fn set_time_scale(&mut self, scale: u32)
        requires
            old(self).wf(),
        ensures
            final(self).wf(),
            final(self)@ == (TasView { time_scale: scale as nat, ..old(self)@ }),
    {
        self.time_scale = scale;
    }

    /// The current tick.
    pub fn frame(&self) -> (r: usize)
        requires
            self.wf(),
        ensures
            r as nat == self@.frame,
    {
        self.frame
    }

    /// Whether a replay is running.
    pub fn is_replaying(&self) -> (r: bool)
        ensures
            r == self@.replay is Some,
    {
        self.replay.is_some()
    }

    /// Plays one tick. The tick's input is the next recorded one while a
    /// replay runs, else the queued events; either way it is appended to the
    /// log. Returns
    /// each event to hand to the subject, in order, with the held input the
    /// subject has to observe from it on; the host then runs the subject's
    /// update. A replay that has run out pauses the controller and returns
    /// `None`, as does a tick counter that cannot advance.
    pub fn next_frame(&mut self) -> (r: Option<Vec<Delivery>>)
        requires
            old(self).wf(),
        ensures
            final(self).wf(),
            final(self)@ == after_frame(old(self)@),
            r is Some <==> can_play(old(self)@),
            r is Some ==> deliveries_of(old(self)@, r->0@),
    {
        if self.frame == usize::MAX {
            self.paused = true;
            return None;
        }
        let ghost v = self@;
        let mut replay: Option<Replay> = None;
        std::mem::swap(&mut replay, &mut self.replay);
        let recording = replay.is_none();
        let inputs: Vec<InputEvent> = match replay {
            Some(mut cursor) => {
                let next = cursor.next_tick();
                match next {
                    Some(events) => {
                        self.replay = Some(cursor);
                        events
                    },
                    None => {
                        self.replay = Some(cursor);
                        self.paused = true;
                        return None;
                    },
                }
            },
            None => {
                let mut queued: Vec<InputEvent> = Vec::new();
                std::mem::swap(&mut queued, &mut self.queued_inputs);
                queued
            },
        };
        let ghost x = crate::events::events_view(inputs@);
        assert(x == tick_input(v));
        let mut keys = KeySet::new();
        std::mem::swap(&mut keys, &mut self.pressed_keys);
        let mut buttons = KeySet::new();
        std::mem::swap(&mut buttons, &mut self.pressed_buttons);
        let mut deliveries: Vec<Delivery> = Vec::new();
        let mut i: usize = 0;
        while i < inputs.len()
            invariant
                0 <= i <= inputs@.len(),
                x == crate::events::events_view(inputs@),
                keys@ == keys_after(v.pressed_keys, x.take(i as int)),
                buttons@ == buttons_after(v.pressed_buttons, x.take(i as int)),
                deliveries@.len() == i,
                forall|j: int| 0 <= j < i ==> #[trigger] deliveries@[j]@ == delivery_at(v, x, j),
            decreases inputs@.len() - i,
        {
            assert(x.take(i as int + 1).drop_last() =~= x.take(i as int));
            let action = inputs[i].action;
            match action {
                Action::KeyDown(k) => keys.insert(k),
                Action::KeyUp(k) => keys.remove(k),
                Action::ButtonDown(b) => buttons.insert(b),
                Action::ButtonUp(b) => buttons.remove(b),
                Action::Other => {},
            }
            deliveries.push(
                Delivery {
                    event: inputs[i].copy(),
                    pressed_keys: keys.to_codes(),
                    pressed_buttons: buttons.to_codes(),
                },
            );
            i = i + 1;
        }
        assert(x.take(x.len() as int) =~= x);
        self.pressed_keys = keys;
        self.pressed_buttons = buttons;
        self.inputs.record(inputs);
        if recording {
            assert(crate::events::events_view(self.queued_inputs@) =~= Seq::<EventView>::empty());
        }
        self.frame = self.frame + 1;
        Some(deliveries)
    }

    /// Path of the run file.
    pub fn save_file(&self) -> (r: &String)
        ensures
            r@ == self@.save_file,
    {
        &self.save_file
    }

    /// Sets the path of the run file.
    pub fn set_save_file(&mut self, path: String)
        requires
            old(self).wf(),
        ensures
            final(self).wf(),
            final(self)@ == (TasView { save_file: path@, ..old(self)@ }),
    {
        self.save_file = path;
    }

    /// What the controller is doing, for display.
    pub fn status(&self) -> (r: Status)
        requires
            self.wf(),
        ensures
            self@.paused ==> r == Status::Paused,
            !self@.paused && self@.replay is Some ==> (r matches Status::Replay(f) && f as nat == self@.frame),
            !self@.paused && self@.replay is None ==> r == Status::Recording,
    {
        if self.paused {
            Status::Paused
        } else if self.replay.is_some() {
            Status::Replay(self.frame)
        } else {
            Status::Recording
        }
    }
}

} // verus!
