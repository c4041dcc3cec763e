//! Checkpoints and whole runs: what is saved and restored.
use vstd::prelude::*;
use crate::events::{KeySet, copy_bytes};
use crate::event_log::{EventLog, RunView};

verus! {

/// A restorable snapshot: the tick it was taken at, the log up to it, the
/// held input, the subject's initial state and its state at that tick.
#[derive(Clone, Debug)]
pub struct Checkpoint {
    pub frame: usize,
    pub inputs: EventLog,
    pub pressed_keys: KeySet,
    pub pressed_buttons: KeySet,
    pub initial_state: Vec<u8>,
    pub state: Vec<u8>,
}

/// The mathematical value of a [`Checkpoint`].
pub struct CheckpointView {
    pub frame: nat,
    pub inputs: Seq<RunView>,
    pub pressed_keys: Set<u32>,
    pub pressed_buttons: Set<u32>,
    pub initial_state: Seq<u8>,
    pub state: Seq<u8>,
}

impl View for Checkpoint {
    type V = CheckpointView;

    open spec fn view(&self) -> CheckpointView {
        CheckpointView {
            frame: self.frame as nat,
            inputs: self.inputs@,
            pressed_keys: self.pressed_keys@,
            pressed_buttons: self.pressed_buttons@,
            initial_state: self.initial_state@,
            state: self.state@,
        }
    }
}

/// The values of a sequence of checkpoints.
pub open spec fn checkpoints_view(v: Seq<Checkpoint>) -> Seq<CheckpointView> {
    v.map_values(|c: Checkpoint| c@)
}

/// The log is coalesced and covers exactly the ticks up to the checkpoint.
pub open spec fn checkpoint_valid(c: CheckpointView) -> bool {
    &&& crate::event_log::coalesced(c.inputs)
    &&& crate::event_log::expand(c.inputs).len() == c.frame
}

impl Checkpoint {
    /// Whether the checkpoint can be restored.
    pub fn is_valid(&self) -> (r: bool)
        ensures
            r == checkpoint_valid(self@),
    {
        self.inputs.is_coalesced() && self.inputs.covers(self.frame)
    }

    /// An independent copy of the checkpoint.
    pub fn copy(&self) -> (r: Checkpoint)
        ensures
            r@ == self@,
    {
        Checkpoint {
            frame: self.frame,
            inputs: self.inputs.copy(),
            pressed_keys: self.pressed_keys.copy(),
            pressed_buttons: self.pressed_buttons.copy(),
            initial_state: copy_bytes(&self.initial_state),
            state: copy_bytes(&self.state),
        }
    }
}

/// Whether every checkpoint in the list can be restored.
pub fn all_valid(v: &Vec<Checkpoint>) -> (r: bool)
    ensures
        r == forall|i: int| 0 <= i < v@.len() ==> checkpoint_valid(#[trigger] v@[i]@),
{
    let mut i: usize = 0;
    while i < v.len()
        invariant
            0 <= i <= v@.len(),
            forall|j: int| 0 <= j < i ==> checkpoint_valid(#[trigger] v@[j]@),
        decreases v@.len() - i,
    {
        if !v[i].is_valid() {
            return false;
        }
        i = i + 1;
    }
    true
}

/// A whole run: the subject's initial state and the log from its first tick.
#[derive(Clone, Debug)]
pub struct Run {
    pub initial_state: Vec<u8>,
    pub inputs: EventLog,
}

} // verus!
