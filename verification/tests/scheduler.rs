use demosim::sched::FrameScheduler;

/// With 100 simulation steps' worth of elapsed time, one frame runs only
/// the configured maximum of 4 steps, and the residual debt is exactly
/// `96 * dt_sim` — carried forward, never negative, never reset.
#[test]
fn fixed_step_bound() {
    let mut s = FrameScheduler::new(50, 4);
    let steps = s.advance(100 * 50);
    assert_eq!(steps, 4);
    assert_eq!(s.debt, 96 * 50);
}

/// Elapsed time below one step size accumulates without running a step.
#[test]
fn small_elapsed_accumulates() {
    let mut s = FrameScheduler::new(50, 4);
    assert_eq!(s.advance(30), 0);
    assert_eq!(s.debt, 30);
    assert_eq!(s.advance(30), 1);
    assert_eq!(s.debt, 10);
}

/// The debt is consumed exactly step by step across frames.
#[test]
fn debt_carries_across_frames() {
    let mut s = FrameScheduler::new(100, 4);
    assert_eq!(s.advance(250), 2);
    assert_eq!(s.debt, 50);
    assert_eq!(s.advance(0), 0);
    assert_eq!(s.debt, 50);
    assert_eq!(s.advance(149), 1);
    assert_eq!(s.debt, 99);
    assert_eq!(s.advance(701), 4);
    assert_eq!(s.debt, 400);
}

/// A zero maximum runs nothing and keeps all debt.
#[test]
fn zero_max_steps_runs_nothing() {
    let mut s = FrameScheduler::new(10, 0);
    assert_eq!(s.advance(1000), 0);
    assert_eq!(s.debt, 1000);
}
