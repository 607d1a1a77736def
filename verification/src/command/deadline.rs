//! The deadline of a command, which may be moved while the command runs.
use vstd::prelude::*;

verus! {

/// When a command runs out of time, in nanoseconds on some clock.
#[derive(Clone, Copy, Debug, PartialEq, Eq, Structural)]
pub struct CommandDeadline {
    deadline: u128,
}

impl View for CommandDeadline {
    type V = u128;

    closed spec fn view(&self) -> u128 {
        self.deadline
    }
}

impl CommandDeadline {
    /// The deadline so long after now.
    pub fn after(now: u128, duration: u128) -> (deadline: Self)
        requires
            now + duration <= u128::MAX,
        ensures
            deadline@ == now + duration,
    {
        CommandDeadline { deadline: now + duration }
    }

    pub fn at(&self) -> (instant: u128)
        ensures
            instant == self@,
    {
        self.deadline
    }

    /// Whether time is up for someone who slept until `target`: it is, unless the deadline was
    /// moved meanwhile.
    pub fn elapsed(&self, target: u128) -> (elapsed: bool)
        ensures
            elapsed == (self@ == target),
    {
        self.deadline == target
    }

    /// Moves the deadline to so long after now, whatever it was.
    pub fn reset_after(&mut self, now: u128, duration: u128)
        requires
            now + duration <= u128::MAX,
        ensures
            final(self)@ == now + duration,
    {
        self.deadline = now + duration;
    }
}

/// A deadline is met by whoever slept until it, and by nobody who slept until where it stood before
/// it was moved.
pub proof fn moved_deadlines_are_not_met(
    now: u128,
    duration: u128,
    deadline: CommandDeadline,
    target: u128,
    elapsed: bool,
)
    requires
        now + duration <= u128::MAX,
        call_ensures(CommandDeadline::after, (now, duration), deadline),
        call_ensures(CommandDeadline::elapsed, (&deadline, target), elapsed),
    ensures
        elapsed <==> target == now + duration,
{
}

} // verus!
