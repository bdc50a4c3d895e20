use vstd::prelude::*;

verus! {

/// What the control loop does once a cycle has ended.
#[derive(Debug, Clone, Copy, PartialEq, Eq, Structural)]
pub enum LoopStep {
    /// Stop the process with this exit status.
    Exit { code: u8 },
    /// Sleep for the configured time, then run the next cycle.
    Sleep,
}

/// The step after a cycle: a one-shot run exits, with status 1 after a fatal
/// error and 0 otherwise; a continuous run sleeps and goes on, also after an
/// error, which the next cycle retries with fresh inputs.
pub fn after_cycle(one_time: bool, with_error: bool) -> (r: LoopStep)
    ensures
        one_time ==> r == (LoopStep::Exit { code: if with_error { 1u8 } else { 0u8 } }),
        !one_time ==> r == LoopStep::Sleep,
{
    if one_time {
        LoopStep::Exit { code: if with_error { 1 } else { 0 } }
    } else {
        LoopStep::Sleep
    }
}

} // verus!
