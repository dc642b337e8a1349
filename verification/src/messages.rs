use std::time::Instant;
use vstd::prelude::*;

verus! {

/// Progress updates that the simulation worker sends to the session.
pub enum StatusMsg<T> {
    Started { stop_time: T, started_at: Instant },
    Finished(Result<(), String>),
}

/// One recorded sample: the simulation time and, for each selected output
/// in the order of the selection, its value, or `None` when the output has no
/// numeric value.
pub struct SampleMsg<T> {
    pub time: T,
    pub values: Vec<Option<T>>,
}

} // verus!
