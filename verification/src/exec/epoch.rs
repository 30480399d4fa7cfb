//! The epoch-deadline policy: when a run stops at [`Status::EpochDeadline`], the embedder's
//! callback decides whether the guest traps, goes on with a later deadline, or (in an async
//! context) yields first.
//!
//! [`Status::EpochDeadline`]: crate::exec::machine::Status::EpochDeadline
use vstd::prelude::*;
use crate::trap::Trap;

verus! {

/// What the embedder's epoch-deadline callback decided (no callback means `Interrupt`).
#[derive(Copy, Clone, PartialEq, Eq, Structural, Debug)]
pub enum UpdateDeadline {
    /// Trap the guest with [`Trap::Interrupt`].
    Interrupt,
    /// Go on, with the deadline this many ticks past the current epoch.
    Continue(u64),
    /// Yield to the async executor, then go on with the deadline this many ticks past the
    /// current epoch.
    Yield(u64),
}

/// What an async run does after its callback decided.
#[derive(Copy, Clone, PartialEq, Eq, Structural, Debug)]
pub enum DeadlineStep {
    /// Resume at once with this deadline.
    Resume(u64),
    /// Yield to the executor once, then resume with this deadline.
    YieldThenResume(u64),
}

/// The deadline `delta` ticks past `epoch`, saturating.
pub open spec fn extended(epoch: u64, delta: u64) -> u64 {
    if epoch + delta > u64::MAX { u64::MAX } else { (epoch + delta) as u64 }
}

/// Applies the callback's decision in a synchronous context: `Ok` with the new deadline, or the
/// trap. Yielding needs an async context, so it traps here.
pub fn apply_epoch_deadline(action: UpdateDeadline, current_epoch: u64) -> (r: Result<u64, Trap>)
    ensures
        r == match action {
            UpdateDeadline::Continue(d) => Ok::<u64, Trap>(extended(current_epoch, d)),
            _ => Err::<u64, Trap>(Trap::Interrupt),
        },
{
    match action {
        UpdateDeadline::Interrupt => Err(Trap::Interrupt),
        UpdateDeadline::Continue(d) => Ok(current_epoch.saturating_add(d)),
        UpdateDeadline::Yield(_) => Err(Trap::Interrupt),
    }
}

/// Applies the callback's decision in an async context, where a yield is honoured.
pub fn apply_epoch_deadline_async(action: UpdateDeadline, current_epoch: u64) -> (r: Result<DeadlineStep, Trap>)
    ensures
        r == match action {
            UpdateDeadline::Interrupt => Err::<DeadlineStep, Trap>(Trap::Interrupt),
            UpdateDeadline::Continue(d) => Ok::<DeadlineStep, Trap>(DeadlineStep::Resume(extended(current_epoch, d))),
            UpdateDeadline::Yield(d) => Ok::<DeadlineStep, Trap>(DeadlineStep::YieldThenResume(extended(current_epoch, d))),
        },
{
    match action {
        UpdateDeadline::Interrupt => Err(Trap::Interrupt),
        UpdateDeadline::Continue(d) => Ok(DeadlineStep::Resume(current_epoch.saturating_add(d))),
        UpdateDeadline::Yield(d) => Ok(DeadlineStep::YieldThenResume(current_epoch.saturating_add(d))),
    }
}

} // verus!
