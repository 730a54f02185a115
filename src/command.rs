use vstd::prelude::*;

verus! {

/// Rate of the scheduling clock, in ticks per second.
pub const TICKS_PER_SECOND: u64 = 10;

/// A request sent from the user interface to the audio worker.
pub enum Command {
    /// Start one playback of `clip`; `delay_ms` is the delay before it starts,
    /// in milliseconds.
    Play { clip: String, reversed: bool, delay_ms: u32 },
    /// Halt every tracked playback of `clip`.
    Stop { clip: String },
    /// Halt every tracked playback of every clip.
    StopAll,
}

/// When a playback instance starts, relative to the scheduling clock.
#[derive(PartialEq, Eq, Structural, Clone, Copy, Debug)]
pub enum Start {
    /// At once.
    Immediate,
    /// At the clock's current time plus `offset_milliticks` thousandths of a tick.
    Scheduled { offset_milliticks: u64 },
}

/// The start of a playback delayed by `delay_ms` milliseconds: a delay of `d`
/// seconds is `d * TICKS_PER_SECOND` ticks, that is `delay_ms * TICKS_PER_SECOND`
/// thousandths of a tick.
pub open spec fn start_spec(delay_ms: u32) -> Start {
    if delay_ms == 0 {
        Start::Immediate
    } else {
        Start::Scheduled { offset_milliticks: (delay_ms as u64 * TICKS_PER_SECOND) as u64 }
    }
}

/// Converts a delay in milliseconds into a start offset on the scheduling clock.
pub fn start_for(delay_ms: u32) -> (r: Start)
    ensures
        r == start_spec(delay_ms),
        delay_ms == 0 <==> r == Start::Immediate,
{
    if delay_ms == 0 {
        Start::Immediate
    } else {
        Start::Scheduled { offset_milliticks: delay_ms as u64 * TICKS_PER_SECOND }
    }
}

} // verus!
