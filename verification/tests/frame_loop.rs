use meshterm::inputs::SubCommand;
use meshterm::session::{
    after_frame, is_quit_key, key_wait_nanos, mode, LoopStep, Mode, FRAME_BUDGET_NANOS,
    FRAME_RATE_CAP,
};
use meshterm::turntable::{ExportDriver, ExportStep, Turntable};

#[test]
fn modes_of_subcommands() {
    assert_eq!(mode(&SubCommand::Interactive), Mode::Interactive);
    assert_eq!(mode(&SubCommand::Image { webify: 0, width: 10, height: None }), Mode::Still);
    assert_eq!(mode(&SubCommand::Image { webify: 1, width: 10, height: Some(4) }), Mode::Export);
    assert_eq!(mode(&SubCommand::Image { webify: 360, width: 0, height: None }), Mode::Export);
}

#[test]
fn keys_that_end_a_run() {
    assert!(is_quit_key('q', false));
    assert!(is_quit_key('q', true));
    assert!(is_quit_key('c', true));
    assert!(!is_quit_key('c', false));
    assert!(!is_quit_key('Q', false));
    assert!(!is_quit_key('x', true));
}

#[test]
fn the_wait_for_a_key_fits_the_budget_of_a_frame() {
    assert_eq!(FRAME_BUDGET_NANOS * FRAME_RATE_CAP, 1_000_000_000);
    assert_eq!(key_wait_nanos(Mode::Interactive, 0), Some(2_000_000));
    assert_eq!(key_wait_nanos(Mode::Interactive, 500_000), Some(1_500_000));
    assert_eq!(key_wait_nanos(Mode::Interactive, 1_999_999), Some(1));
    assert_eq!(key_wait_nanos(Mode::Interactive, 2_000_000), Some(0));
    assert_eq!(key_wait_nanos(Mode::Interactive, u64::MAX), Some(0));
    assert_eq!(key_wait_nanos(Mode::Still, 0), None);
    assert_eq!(key_wait_nanos(Mode::Export, 0), None);
}

#[test]
fn when_the_loop_ends() {
    assert_eq!(after_frame(Mode::Interactive, ExportStep::Continue), LoopStep::Again);
    assert_eq!(after_frame(Mode::Interactive, ExportStep::Finished), LoopStep::Again);
    assert_eq!(after_frame(Mode::Still, ExportStep::Continue), LoopStep::Stop);
    assert_eq!(after_frame(Mode::Still, ExportStep::Finished), LoopStep::Stop);
    assert_eq!(after_frame(Mode::Export, ExportStep::Continue), LoopStep::Again);
    assert_eq!(after_frame(Mode::Export, ExportStep::Finished), LoopStep::Stop);
}

#[test]
fn export_drivers_in_and_out_of_step() {
    let start = Turntable { yaw: Some(0), pitch: Some(100), roll: None, speed: 0 };
    let mut driver = ExportDriver::new(start, 3).unwrap();
    assert!(driver.is_valid());
    driver.tick();
    assert!(driver.is_valid());
    driver.tick();
    driver.tick();
    assert!(driver.finished && driver.is_valid());
    let mut moved = driver;
    moved.turntable.pitch = Some(101);
    assert!(!moved.is_valid());
    let mut lost = driver;
    lost.turntable.pitch = None;
    assert!(!lost.is_valid());
    let mut ahead = driver;
    ahead.accumulated += 1;
    assert!(!ahead.is_valid());
    let mut beyond = driver;
    beyond.frame_index = 3;
    assert!(!beyond.is_valid());
}
