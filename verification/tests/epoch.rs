use submilli_wasm::exec::epoch::{apply_epoch_deadline, apply_epoch_deadline_async, DeadlineStep, UpdateDeadline};
use submilli_wasm::trap::Trap;

#[test]
fn interrupt_traps() {
    assert_eq!(apply_epoch_deadline(UpdateDeadline::Interrupt, 5), Err(Trap::Interrupt));
    assert_eq!(apply_epoch_deadline_async(UpdateDeadline::Interrupt, 5), Err(Trap::Interrupt));
}

#[test]
fn continue_moves_the_deadline_past_the_current_epoch() {
    assert_eq!(apply_epoch_deadline(UpdateDeadline::Continue(3), 5), Ok(8));
    assert_eq!(apply_epoch_deadline(UpdateDeadline::Continue(u64::MAX), 5), Ok(u64::MAX));
    assert_eq!(apply_epoch_deadline_async(UpdateDeadline::Continue(3), 5), Ok(DeadlineStep::Resume(8)));
}

#[test]
fn yield_traps_unless_async() {
    assert_eq!(apply_epoch_deadline(UpdateDeadline::Yield(1), 5), Err(Trap::Interrupt));
    assert_eq!(apply_epoch_deadline_async(UpdateDeadline::Yield(1), 5), Ok(DeadlineStep::YieldThenResume(6)));
}
