//! The replay cursor: hands out the recorded input of each tick in turn.
use vstd::prelude::*;
use crate::events::{InputEvent, EventView, events_view, copy_events};
use crate::event_log::{EventLog, RunView, repeat, expand, lemma_expand_front};

verus! {

/// A replay in progress: the log, the run it is in and how many ticks of
/// that run are left.
#[derive(Clone, Debug)]
pub struct Replay {
    pub input: usize,
    pub next_input: usize,
    pub inputs: EventLog,
}

impl Replay {
    /// The cursor stays within the log, and rests on a run with ticks left
    /// unless the log is used up.
    pub open spec fn wf(&self) -> bool {
        &&& self.input <= self.inputs@.len()
        &&& self.input < self.inputs@.len() ==> self.next_input > 0
    }

    /// The input of each tick that is still to be handed out.
    pub open spec fn remaining(&self) -> Seq<Seq<EventView>> {
        if self.input < self.inputs@.len() {
            repeat(self.inputs@[self.input as int].inputs, self.next_input as nat) + expand(
                self.inputs@.skip(self.input + 1),
            )
        } else {
            Seq::empty()
        }
    }

    /// Whether every tick has been handed out.
    pub open spec fn exhausted(&self) -> bool {
        self.input >= self.inputs@.len()
    }

    /// Moves past runs with no ticks left; what remains is unchanged.
    fn settle(&mut self)
        requires
            old(self).input <= old(self).inputs@.len(),
        ensures
            final(self).wf(),
            final(self).inputs@ == old(self).inputs@,
            final(self).remaining() == old(self).remaining(),
    {
        while self.input < self.inputs.runs.len() && self.next_input == 0
            invariant
                self.input <= self.inputs@.len(),
                self.inputs@ == old(self).inputs@,
                self.remaining() == old(self).remaining(),
            decreases self.inputs@.len() - self.input,
        {
            let ghost runs = self.inputs@;
            let ghost i = self.input as int;
            assert(repeat(runs[i].inputs, 0) + expand(runs.skip(i + 1)) =~= expand(runs.skip(i + 1)));
            self.input = self.input + 1;
            if self.input < self.inputs.runs.len() {
                self.next_input = self.inputs.runs[self.input].frames;
                proof {
                    lemma_expand_front(runs.skip(i + 1));
                    assert(runs.skip(i + 1).skip(1) =~= runs.skip(i + 2));
                    assert(runs.skip(i + 1)[0] == runs[i + 1]);
                }
            } else {
                assert(runs.skip(i + 1) =~= Seq::<RunView>::empty());
            }
        }
    }

    /// A replay of the whole log from its first tick.
    pub fn new(inputs: EventLog) -> (r: Replay)
        ensures
            r.wf(),
            r.inputs@ == inputs@,
            r.remaining() == expand(inputs@),
    {
        let next_input = if inputs.runs.len() > 0 {
            inputs.runs[0].frames
        } else {
            0
        };
        let mut r = Replay { input: 0, next_input, inputs };
        proof {
            if r.inputs@.len() > 0 {
                lemma_expand_front(r.inputs@);
                assert(r.inputs@.skip(r.input + 1) == r.inputs@.skip(1));
            }
        }
        r.settle();
        r
    }

    /// Whether every tick has been handed out.
    pub fn is_exhausted(&self) -> (r: bool)
        requires
            self.wf(),
        ensures
            r == self.exhausted(),
            r == (self.remaining().len() == 0),
    {
        self.input >= self.inputs.runs.len()
    }

    /// Hands out the input of the next tick, if any is left.
    pub fn next_tick(&mut self) -> (r: Option<Vec<InputEvent>>)
        requires
            old(self).wf(),
        ensures
            final(self).wf(),
            final(self).inputs@ == old(self).inputs@,
            old(self).remaining().len() == 0 ==> r is None && final(self).remaining().len() == 0,
            old(self).remaining().len() > 0 ==> r is Some && events_view(r->0@)
                == old(self).remaining()[0] && final(self).remaining()
                == old(self).remaining().drop_first(),
    {
        if self.input >= self.inputs.runs.len() {
            return None;
        }
        let ghost old_rem = self.remaining();
        let ghost runs = self.inputs@;
        let ghost i = self.input as int;
        let events = copy_events(&self.inputs.runs[self.input].inputs);
        assert(old_rem[0] == runs[i].inputs);
        self.next_input = self.next_input - 1;
        assert(self.remaining() =~= old_rem.drop_first());
        self.settle();
        Some(events)
    }
}

} // verus!
