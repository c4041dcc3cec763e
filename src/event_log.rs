//! The event log: the input of each tick, run-length encoded.
use vstd::prelude::*;
use crate::events::{InputEvent, EventView, events_view, same_events, copy_events};

verus! {

/// The same set of inputs, active for `frames` consecutive ticks.
#[derive(Clone, Debug)]
pub struct FrameInput {
    pub frames: usize,
    pub inputs: Vec<InputEvent>,
}

/// The mathematical value of a [`FrameInput`].
pub struct RunView {
    pub frames: nat,
    pub inputs: Seq<EventView>,
}

impl View for FrameInput {
    type V = RunView;

    open spec fn view(&self) -> RunView {
        RunView { frames: self.frames as nat, inputs: events_view(self.inputs@) }
    }
}

/// The values of a sequence of runs.
pub open spec fn runs_view(v: Seq<FrameInput>) -> Seq<RunView> {
    v.map_values(|r: FrameInput| r@)
}

/// `n` ticks with the same input.
pub open spec fn repeat(x: Seq<EventView>, n: nat) -> Seq<Seq<EventView>> {
    Seq::new(n, |_i: int| x)
}

/// The input of each tick that a sequence of runs encodes.
pub open spec fn expand(runs: Seq<RunView>) -> Seq<Seq<EventView>>
    decreases runs.len(),
{
    if runs.len() == 0 {
        Seq::empty()
    } else {
        expand(runs.drop_last()) + repeat(runs.last().inputs, runs.last().frames)
    }
}

/// Every run lasts at least one tick and differs in input from the next.
pub open spec fn coalesced(runs: Seq<RunView>) -> bool {
    &&& forall|i: int| 0 <= i < runs.len() ==> #[trigger] runs[i].frames >= 1
    &&& forall|i: int| 0 <= i < runs.len() - 1 ==> #[trigger] runs[i].inputs != runs[i + 1].inputs
}

/// Appends one tick to the encoding: the last run grows by one when it has
/// the same input, else a new run of one tick starts.
pub open spec fn push_tick(runs: Seq<RunView>, x: Seq<EventView>) -> Seq<RunView> {
    if runs.len() > 0 && runs.last().inputs == x {
        runs.drop_last().push(RunView { frames: runs.last().frames + 1, inputs: x })
    } else {
        runs.push(RunView { frames: 1, inputs: x })
    }
}

/// The run-length encoding of a per-tick stream.
pub open spec fn compact(ticks: Seq<Seq<EventView>>) -> Seq<RunView>
    decreases ticks.len(),
{
    if ticks.len() == 0 {
        Seq::empty()
    } else {
        push_tick(compact(ticks.drop_last()), ticks.last())
    }
}

proof fn lemma_repeat_push(x: Seq<EventView>, n: nat)
    ensures
        repeat(x, n + 1) == repeat(x, n).push(x),
{
    assert(repeat(x, n + 1) =~= repeat(x, n).push(x));
}

/// Appending a tick to the encoding appends it to the stream, and keeps the
/// encoding coalesced.
pub proof fn lemma_push_tick(runs: Seq<RunView>, x: Seq<EventView>)
    requires
        coalesced(runs),
    ensures
        expand(push_tick(runs, x)) == expand(runs).push(x),
        coalesced(push_tick(runs, x)),
{
    let r = push_tick(runs, x);
    if runs.len() > 0 && runs.last().inputs == x {
        let init = runs.drop_last();
        assert(r.drop_last() =~= init);
        lemma_repeat_push(x, runs.last().frames);
        assert(expand(r) =~= expand(runs).push(x));
    } else {
        assert(r.drop_last() =~= runs);
        assert(repeat(x, 1) =~= seq![x]);
        assert(expand(r) =~= expand(runs).push(x));
    }
}

/// The encoding of a stream is coalesced and expands back to the stream.
pub proof fn lemma_compact_lossless(ticks: Seq<Seq<EventView>>)
    ensures
        coalesced(compact(ticks)),
        expand(compact(ticks)) == ticks,
    decreases ticks.len(),
{
    if ticks.len() > 0 {
        lemma_compact_lossless(ticks.drop_last());
        lemma_push_tick(compact(ticks.drop_last()), ticks.last());
        assert(ticks.drop_last().push(ticks.last()) =~= ticks);
    }
}

proof fn lemma_compact_run(
    ticks: Seq<Seq<EventView>>,
    runs: Seq<RunView>,
    x: Seq<EventView>,
    n: nat,
)
    requires
        compact(ticks) == runs,
        runs.len() == 0 || runs.last().inputs != x,
        n >= 1,
    ensures
        compact(ticks + repeat(x, n)) == runs.push(RunView { frames: n, inputs: x }),
    decreases n,
{
    let t = ticks + repeat(x, n);
    if n == 1 {
        assert(t.drop_last() =~= ticks);
    } else {
        lemma_compact_run(ticks, runs, x, (n - 1) as nat);
        assert(t.drop_last() =~= ticks + repeat(x, (n - 1) as nat));
        let prev = runs.push(RunView { frames: (n - 1) as nat, inputs: x });
        assert(prev.drop_last() =~= runs);
    }
}

/// A coalesced encoding is a fixed point: re-encoding its stream gives it
/// back.
pub proof fn lemma_coalesced_fixed_point(runs: Seq<RunView>)
    requires
        coalesced(runs),
    ensures
        compact(expand(runs)) == runs,
    decreases runs.len(),
{
    if runs.len() > 0 {
        let init = runs.drop_last();
        assert(coalesced(init)) by {
            assert forall|i: int| 0 <= i < init.len() - 1 implies #[trigger] init[i].inputs
                != init[i + 1].inputs by {
                assert(runs[i].inputs != runs[i + 1].inputs);
            }
            assert forall|i: int| 0 <= i < init.len() implies #[trigger] init[i].frames >= 1 by {
                assert(runs[i].frames >= 1);
            }
        }
        lemma_coalesced_fixed_point(init);
        assert(runs.last().frames >= 1);
        if init.len() > 0 {
            assert(runs[init.len() - 1].inputs != runs[init.len() as int].inputs);
        }
        lemma_compact_run(expand(init), init, runs.last().inputs, runs.last().frames);
        assert(init.push(runs.last()) =~= runs);
    }
}

/// Encoding is idempotent: expanding an encoded stream and encoding it again
/// gives the same encoding.
pub proof fn lemma_compact_idempotent(ticks: Seq<Seq<EventView>>)
    ensures
        compact(expand(compact(ticks))) == compact(ticks),
{
    lemma_compact_lossless(ticks);
    lemma_coalesced_fixed_point(compact(ticks));
}

/// The log of a run: the input of each tick, run-length encoded.
#[derive(Clone, Debug)]
pub struct EventLog {
    pub runs: Vec<FrameInput>,
}

impl View for EventLog {
    type V = Seq<RunView>;

    open spec fn view(&self) -> Seq<RunView> {
        runs_view(self.runs@)
    }
}

proof fn lemma_last_run_fits(runs: Seq<RunView>)
    requires
        runs.len() > 0,
    ensures
        runs.last().frames <= expand(runs).len(),
{
}

impl EventLog {
    /// The log is coalesced, as recording keeps it.
    pub open spec fn wf(&self) -> bool {
        coalesced(self@)
    }

    /// The number of ticks that the log covers.
    pub open spec fn tick_count(&self) -> nat {
        expand(self@).len()
    }

    /// The empty log.
    pub fn new() -> (r: EventLog)
        ensures
            r@ == Seq::<RunView>::empty(),
            r.wf(),
    {
        let r = EventLog { runs: Vec::new() };
        assert(r@ =~= Seq::<RunView>::empty());
        r
    }

    /// Records the input of one more tick.
    pub fn record(&mut self, inputs: Vec<InputEvent>)
        requires
            old(self).wf(),
            old(self).tick_count() < usize::MAX,
        ensures
            final(self)@ == push_tick(old(self)@, events_view(inputs@)),
            expand(final(self)@) == expand(old(self)@).push(events_view(inputs@)),
            final(self).wf(),
    {
        let ghost x = events_view(inputs@);
        proof {
            lemma_push_tick(self@, x);
        }
        let n = self.runs.len();
        if n > 0 && same_events(&self.runs[n - 1].inputs, &inputs) {
            proof {
                lemma_last_run_fits(self@);
            }
            let ghost before = self.runs@;
            let mut last = self.runs.pop().unwrap();
            assert(self.runs@ =~= before.drop_last());
            last.frames = last.frames + 1;
            self.runs.push(last);
            assert(self@ =~= push_tick(runs_view(before), x));
        } else {
            let ghost before = self.runs@;
            self.runs.push(FrameInput { frames: 1, inputs });
            assert(self@ =~= push_tick(runs_view(before), x));
        }
    }

    /// An independent copy of the log.
    pub fn copy(&self) -> (r: EventLog)
        ensures
            r@ == self@,
    {
        let mut runs: Vec<FrameInput> = Vec::new();
        let mut i: usize = 0;
        while i < self.runs.len()
            invariant
                0 <= i <= self.runs@.len(),
                runs@.len() == i,
                forall|j: int| 0 <= j < i ==> runs@[j]@ == self.runs@[j]@,
            decreases self.runs@.len() - i,
        {
            let run = &self.runs[i];
            runs.push(FrameInput { frames: run.frames, inputs: copy_events(&run.inputs) });
            i = i + 1;
        }
        let r = EventLog { runs };
        assert(r@ =~= self@);
        r
    }

    /// Whether the log is coalesced.
    pub fn is_coalesced(&self) -> (r: bool)
        ensures
            r == coalesced(self@),
    {
        let mut i: usize = 0;
        while i < self.runs.len()
            invariant
                0 <= i <= self.runs@.len(),
                forall|j: int| 0 <= j < i ==> #[trigger] self@[j].frames >= 1,
                forall|j: int| 0 <= j < i - 1 ==> #[trigger] self@[j].inputs != self@[j + 1].inputs,
            decreases self.runs@.len() - i,
        {
            if self.runs[i].frames == 0 {
                assert(self@[i as int].frames == 0);
                return false;
            }
            if i > 0 && same_events(&self.runs[i - 1].inputs, &self.runs[i].inputs) {
                assert(self@[i - 1].inputs == self@[(i - 1) + 1].inputs);
                return false;
            }
            i = i + 1;
        }
        true
    }

    /// Whether the log covers exactly `n` ticks.
    pub fn covers(&self, n: usize) -> (r: bool)
        ensures
            r == (self.tick_count() == n),
    {
        let mut sum: usize = 0;
        let mut i: usize = 0;
        while i < self.runs.len()
            invariant
                0 <= i <= self.runs@.len(),
                sum <= n,
                sum == expand(self@.take(i as int)).len(),
            decreases self.runs@.len() - i,
        {
            assert(self@.take(i as int + 1).drop_last() =~= self@.take(i as int));
            let f = self.runs[i].frames;
            if f > n - sum {
                proof {
                    lemma_expand_prefix(self@, i as int + 1);
                }
                return false;
            }
            sum = sum + f;
            i = i + 1;
        }
        assert(self@.take(i as int) =~= self@);
        sum == n
    }
}

proof fn lemma_expand_prefix(runs: Seq<RunView>, k: int)
    requires
        0 <= k <= runs.len(),
    ensures
        expand(runs.take(k)).len() <= expand(runs).len(),
    decreases runs.len() - k,
{
    if k < runs.len() {
        lemma_expand_prefix(runs, k + 1);
        assert(runs.take(k + 1).drop_last() =~= runs.take(k));
    } else {
        assert(runs.take(k) =~= runs);
    }
}

/// The stream of a log is its first run's ticks followed by the stream of
/// the rest.
pub proof fn lemma_expand_front(runs: Seq<RunView>)
    requires
        runs.len() > 0,
    ensures
        expand(runs) == repeat(runs[0].inputs, runs[0].frames) + expand(runs.skip(1)),
    decreases runs.len(),
{
    if runs.len() == 1 {
        assert(runs.drop_last() =~= Seq::<RunView>::empty());
        assert(runs.skip(1) =~= Seq::<RunView>::empty());
        assert(expand(runs) =~= repeat(runs[0].inputs, runs[0].frames) + expand(runs.skip(1)));
    } else {
        let init = runs.drop_last();
        lemma_expand_front(init);
        assert(runs.skip(1).drop_last() =~= init.skip(1));
        assert(runs.skip(1).last() == runs.last());
        assert(init[0] == runs[0]);
        assert(expand(runs) =~= repeat(runs[0].inputs, runs[0].frames) + expand(runs.skip(1)));
    }
}

} // verus!
