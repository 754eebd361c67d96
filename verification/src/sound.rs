//! The two cues.
//!
//! A run can take a long time and gets on with it without anyone watching,
//! which is the whole reason for a sound: it says how the run is going to
//! someone who has gone to do something else, and says it without them having
//! to come back and read a screen. One plays as each episode lands and the
//! other when something fails, so a run that is quietly failing sounds
//! different from one that is quietly working; the last of them says the run
//! has ended, and which of the two ways it ended.

use vstd::prelude::*;

verus! {

#[derive(Clone, Copy, PartialEq, Eq, Debug, Structural)]
pub enum Cue {
    /// Everything that was asked for is on disk.
    Success,
    /// The run finished, but something in it didn't.
    Failure,
}

} // verus!
