//! Deterministic record and replay of input for a fixed-step simulation:
//! an accumulator that turns wall-clock time into ticks, a run-length event
//! log, a replay cursor, a store of checkpoints and the controller that ties
//! them together.
pub mod checkpoint;
pub mod clock;
pub mod event_log;
pub mod events;
pub mod replay;
pub mod tas;
