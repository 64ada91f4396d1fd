//! How a client goes on after it wrote or read.
use vstd::prelude::*;

verus! {

/// What to do next.
#[derive(Copy, Clone, Debug, PartialEq, Eq, Structural)]
pub struct Step {
    /// Whether to report what went wrong.
    pub report: bool,
    /// Whether to go on, and not to stop.
    pub go_on: bool,
}

/// After a write: a failed one is reported and is the last. Else the client goes on as
/// long as the player is alive.
pub fn after_write(ok: bool, alive: bool) -> (step: Step)
    ensures
        step == (Step { report: !ok, go_on: ok && alive }),
{
    Step { report: !ok, go_on: ok && alive }
}

/// After a read and the handling of what it gave: what failed is reported, and either
/// way the client goes on as long as the player is alive.
pub fn after_read(ok: bool, alive: bool) -> (step: Step)
    ensures
        step == (Step { report: !ok, go_on: alive }),
{
    Step { report: !ok, go_on: alive }
}

/// Tells whether to pause before going on: after each move that was written, and after
/// nothing else.
pub fn pauses(move_sent: bool, ok: bool) -> (pause: bool)
    ensures
        pause == (move_sent && ok),
{
    move_sent && ok
}

} // verus!
