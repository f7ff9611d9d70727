use termbrush::driver::{Action, Driver, Mode, Pacing, Phase, Trail};

fn run(mode: Mode, frames: usize) -> Vec<Action> {
    let mut driver = Driver::new(mode, frames).unwrap();
    let mut actions = Vec::new();
    while !driver.is_finished() {
        assert!(driver.is_valid());
        actions.push(driver.next());
    }
    assert_eq!(driver.next(), Action::Done);
    assert!(driver.is_finished());
    actions
}

#[test]
fn constant_pace_divides_a_second() {
    assert_eq!(Pacing::Constant { fps: 90 }.interval_ms(0), 11);
    assert_eq!(Pacing::Constant { fps: 90 }.interval_ms(1000), 11);
    assert_eq!(Pacing::Constant { fps: 1 }.interval_ms(3), 1000);
    assert_eq!(Pacing::Constant { fps: 1000 }.interval_ms(3), 1);
    assert_eq!(Pacing::Constant { fps: 1001 }.interval_ms(3), 0);
}

#[test]
fn scaled_pace_grows_with_the_index() {
    assert_eq!(Pacing::Scaled { unit_ms: 3 }.interval_ms(0), 0);
    assert_eq!(Pacing::Scaled { unit_ms: 3 }.interval_ms(7), 21);
    assert_eq!(Pacing::Scaled { unit_ms: 0 }.interval_ms(7), 0);
    assert_eq!(Pacing::Scaled { unit_ms: u32::MAX }.interval_ms(2), 2 * (u32::MAX as u64));
    assert_eq!(Pacing::Scaled { unit_ms: 2 }.interval_ms(usize::MAX), u64::MAX);
}

#[test]
fn driver_refuses_a_pace_of_no_frames() {
    let mode = Mode { pacing: Pacing::Constant { fps: 0 }, trail: Trail::Kept, clear_at_end: false };
    assert_eq!(Driver::new(mode, 3), None);
    let ok = Mode { pacing: Pacing::Constant { fps: 1 }, trail: Trail::Kept, clear_at_end: false };
    assert_eq!(
        Driver::new(ok, 3),
        Some(Driver { mode: ok, frames: 3, index: 0, phase: Phase::Waiting })
    );
}

#[test]
fn trail_that_is_kept_waits_and_paints() {
    let mode =
        Mode { pacing: Pacing::Constant { fps: 90 }, trail: Trail::Kept, clear_at_end: false };
    let expected = vec![
        Action::Sleep { ms: 11 },
        Action::Paint { index: 0 },
        Action::Sleep { ms: 11 },
        Action::Paint { index: 1 },
        Action::Done,
    ];
    assert_eq!(run(mode, 2), expected);
}

#[test]
fn moving_point_is_erased_at_once() {
    let mode =
        Mode { pacing: Pacing::Scaled { unit_ms: 5 }, trail: Trail::Erased, clear_at_end: false };
    let expected = vec![
        Action::Sleep { ms: 0 },
        Action::Paint { index: 0 },
        Action::Erase { index: 0 },
        Action::Sleep { ms: 5 },
        Action::Paint { index: 1 },
        Action::Erase { index: 1 },
        Action::Sleep { ms: 10 },
        Action::Paint { index: 2 },
        Action::Erase { index: 2 },
        Action::Done,
    ];
    assert_eq!(run(mode, 3), expected);
}

#[test]
fn moving_point_is_erased_after_one_more_wait() {
    let mode = Mode {
        pacing: Pacing::Constant { fps: 50 },
        trail: Trail::ErasedLater,
        clear_at_end: true,
    };
    let expected = vec![
        Action::Sleep { ms: 20 },
        Action::Paint { index: 0 },
        Action::Sleep { ms: 20 },
        Action::Erase { index: 0 },
        Action::Sleep { ms: 20 },
        Action::Paint { index: 1 },
        Action::Sleep { ms: 20 },
        Action::Erase { index: 1 },
        Action::ClearAll,
    ];
    assert_eq!(run(mode, 2), expected);
}

#[test]
fn run_without_frames_ends_at_once() {
    let kept = Mode { pacing: Pacing::Constant { fps: 9 }, trail: Trail::Kept, clear_at_end: false };
    assert_eq!(run(kept, 0), vec![Action::Done]);
    let cleared =
        Mode { pacing: Pacing::Constant { fps: 9 }, trail: Trail::Kept, clear_at_end: true };
    assert_eq!(run(cleared, 0), vec![Action::ClearAll]);
}

#[test]
fn run_takes_as_many_steps_as_its_frames_take_actions() {
    for (trail, per_frame) in [(Trail::Kept, 2), (Trail::Erased, 3), (Trail::ErasedLater, 4)] {
        let mode = Mode { pacing: Pacing::Scaled { unit_ms: 1 }, trail, clear_at_end: false };
        assert_eq!(run(mode, 17).len(), 17 * per_frame + 1);
    }
}

#[test]
fn driver_tells_states_of_a_run_from_others() {
    let mode =
        Mode { pacing: Pacing::Constant { fps: 9 }, trail: Trail::Kept, clear_at_end: false };
    assert!(Driver { mode, frames: 3, index: 3, phase: Phase::Waiting }.is_valid());
    assert!(Driver { mode, frames: 3, index: 2, phase: Phase::Ready }.is_valid());
    assert!(!Driver { mode, frames: 3, index: 3, phase: Phase::Ready }.is_valid());
    assert!(!Driver { mode, frames: 3, index: 4, phase: Phase::Waiting }.is_valid());
    assert!(!Driver { mode, frames: 3, index: 1, phase: Phase::Painted }.is_valid());
    assert!(!Driver { mode, frames: 3, index: 1, phase: Phase::Held }.is_valid());
    let later = Mode { trail: Trail::ErasedLater, ..mode };
    assert!(Driver { mode: later, frames: 3, index: 1, phase: Phase::Held }.is_valid());
    assert!(Driver { mode: later, frames: 3, index: 1, phase: Phase::Painted }.is_valid());
}
