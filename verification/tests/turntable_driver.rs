use meshterm::turntable::{
    angle_from_bits, export_frame_text, export_opening_text, half_turn_on, ExportDriver, ExportStep,
    Turntable, FULL_TURN, PI,
};

fn table(pitch: i64, speed: f32) -> Turntable {
    Turntable { yaw: Some(1), pitch: Some(pitch), roll: Some(2), speed: speed.to_bits() }
}

#[test]
fn a_full_turn_is_twice_pi() {
    assert_eq!(PI, 205887);
    assert_eq!(FULL_TURN, 2 * PI);
}

#[test]
fn every_finite_number_has_an_angle() {
    assert_eq!(angle_from_bits(0.0f32.to_bits()), Some(0));
    assert_eq!(angle_from_bits(0.5f32.to_bits()), Some(32768));
    assert_eq!(angle_from_bits(1.0f32.to_bits()), Some(65536));
    assert_eq!(angle_from_bits(2.0f32.to_bits()), Some(131072));
    assert_eq!(angle_from_bits(1.0e-6f32.to_bits()), Some(0));
    assert_eq!(angle_from_bits(100.0f32.to_bits()), Some(376977));
    assert_eq!(angle_from_bits(32768.0f32.to_bits()), Some(77897));
    assert_eq!(angle_from_bits(65536.0f32.to_bits()), Some(155795));
    assert_eq!(angle_from_bits(1.0e30f32.to_bits()), Some(269240));
    assert_eq!(angle_from_bits(f32::MAX.to_bits()), Some(42704));
}

#[test]
fn large_angles_are_reduced_by_a_precise_revolution() {
    let reduced = (65536.0f64 % (2.0 * std::f64::consts::PI)) * 65536.0;
    assert_eq!(angle_from_bits(65536.0f32.to_bits()), Some(reduced.floor() as i64));
    assert_eq!(angle_from_bits((2.0 * std::f32::consts::PI).to_bits()), Some(0));
}

#[test]
fn negative_angles_go_backward_from_zero() {
    assert_eq!(angle_from_bits((-1.0f32).to_bits()), Some(FULL_TURN - 65536));
    assert_eq!(angle_from_bits((-0.25f32).to_bits()), Some(395390));
    assert_eq!(angle_from_bits((-65536.0f32).to_bits()), Some(255979));
    assert_eq!(angle_from_bits((-0.0f32).to_bits()), Some(0));
}

#[test]
fn what_is_no_finite_number_has_no_angle() {
    assert_eq!(angle_from_bits(f32::NAN.to_bits()), None);
    assert_eq!(angle_from_bits(f32::INFINITY.to_bits()), None);
    assert_eq!(angle_from_bits(f32::NEG_INFINITY.to_bits()), None);
}

#[test]
fn half_a_turn_further() {
    assert_eq!(half_turn_on(Some(0)), Some(PI));
    assert_eq!(half_turn_on(Some(PI)), Some(0));
    assert_eq!(half_turn_on(Some(FULL_TURN - 1)), Some(PI - 1));
    assert_eq!(half_turn_on(None), None);
}

#[test]
fn pitch_advances_by_speed_times_time() {
    let mut t = table(0, 1.0);
    assert!(t.is_valid());
    t.tick(500_000_000);
    assert_eq!(t, table(32768, 1.0));
    t.tick(0);
    assert_eq!(t, table(32768, 1.0));
    t.tick(1_000_000_000);
    assert_eq!(t, table(98304, 1.0));
    t.tick(1);
    assert_eq!(t.pitch, Some(98304));
    let mut slow = table(0, 3.0 / 65536.0);
    slow.tick(999_999_999);
    assert_eq!(slow.pitch, Some(2));
}

#[test]
fn pitch_stays_within_one_revolution() {
    let mut t = table(FULL_TURN - 10, 1.0);
    t.tick(500_000_000);
    assert_eq!(t.pitch, Some(32758));
    let mut back = table(0, -1.0);
    back.tick(1_000_000_000);
    assert_eq!(back.pitch, Some(346238));
    let mut back = table(0, -3.0 / 65536.0);
    back.tick(999_999_999);
    assert_eq!(back.pitch, Some(411772));
    let mut fast = table(5, 1.0);
    fast.tick(u64::MAX);
    assert_eq!(fast.pitch, Some(((5 + (65536u128 * u64::MAX as u128 / 1_000_000_000)) % 411774) as i64));
    assert_eq!(fast.pitch, Some(165396));
}

#[test]
fn a_speed_of_any_size_turns_the_table() {
    let mut t = table(7, 65536.0);
    t.tick(1_500_000_000);
    assert_eq!(t.pitch, Some(246721));
    let mut t = table(7, -1.0e20);
    t.tick(123_456_789);
    assert_eq!(t.pitch, Some(119334));
    let mut t = table(7, f32::MAX);
    t.tick(u64::MAX);
    assert_eq!(t.pitch, Some(88108));
    assert_eq!(t.speed, f32::MAX.to_bits());
}

#[test]
fn what_is_no_number_stays_none() {
    let mut t = table(7, f32::NAN);
    t.tick(5);
    assert_eq!(t.pitch, None);
    assert_eq!((t.yaw, t.roll), (Some(1), Some(2)));
    let mut t = table(7, f32::INFINITY);
    t.tick(0);
    assert_eq!(t.pitch, None);
    let mut t = Turntable { yaw: None, pitch: None, roll: None, speed: 1.0f32.to_bits() };
    assert!(t.is_valid());
    t.tick(1_000_000);
    assert_eq!(t, Turntable { yaw: None, pitch: None, roll: None, speed: 1.0f32.to_bits() });
}

#[test]
fn angles_beyond_a_revolution_are_not_valid() {
    assert!(!Turntable { yaw: Some(FULL_TURN), pitch: Some(0), roll: Some(0), speed: 0 }.is_valid());
    assert!(!Turntable { yaw: Some(0), pitch: Some(-1), roll: Some(0), speed: 0 }.is_valid());
    assert!(!Turntable { yaw: Some(0), pitch: Some(0), roll: Some(i64::MAX), speed: 0 }.is_valid());
    assert!(Turntable { yaw: Some(0), pitch: None, roll: Some(FULL_TURN - 1), speed: u32::MAX }
        .is_valid());
}

#[test]
fn an_export_of_four_frames_ends_with_the_fourth() {
    let mut driver = ExportDriver::new(table(PI, 1.0), 4).unwrap();
    assert_eq!((driver.frame_index, driver.accumulated), (0, 0));
    assert_eq!(driver.turntable.pitch, Some(PI));
    assert_eq!(driver.tick(), ExportStep::Continue);
    assert_eq!((driver.frame_index, driver.accumulated), (1, 102943));
    assert_eq!(driver.turntable.pitch, Some(308830));
    assert_eq!(driver.tick(), ExportStep::Continue);
    assert_eq!((driver.frame_index, driver.accumulated), (2, 205887));
    assert_eq!(driver.turntable.pitch, Some(0));
    assert_eq!(driver.tick(), ExportStep::Continue);
    assert_eq!((driver.frame_index, driver.accumulated, driver.finished), (3, 308830, false));
    assert_eq!(driver.tick(), ExportStep::Finished);
    assert_eq!((driver.frame_index, driver.accumulated, driver.finished), (3, FULL_TURN, true));
    assert_eq!(driver.turntable.pitch, Some(PI));
    assert_eq!(driver.turntable.yaw, Some(1));
    assert_eq!(driver.turntable.roll, Some(2));
    let done = driver;
    assert_eq!(driver.tick(), ExportStep::Finished);
    assert_eq!(driver, done);
}

#[test]
fn an_export_advances_by_exactly_one_revolution() {
    for total in [1u16, 2, 3, 7, 360, 1000, 65535] {
        let mut driver = ExportDriver::new(table(PI, 0.0), total).unwrap();
        let mut frames: u32 = 0;
        loop {
            frames += 1;
            if driver.tick() == ExportStep::Finished {
                break;
            }
            assert_eq!(driver.accumulated, frames as i64 * FULL_TURN / total as i64);
        }
        assert_eq!(frames, total as u32);
        assert_eq!(driver.frame_index, total - 1);
        assert_eq!(driver.accumulated, FULL_TURN);
        assert_eq!(driver.turntable.pitch, Some(PI));
    }
}

#[test]
fn an_export_from_a_pitch_that_is_no_number_still_ends() {
    let start = Turntable { yaw: None, pitch: None, roll: Some(0), speed: f32::NAN.to_bits() };
    let mut driver = ExportDriver::new(start, 2).unwrap();
    assert_eq!(driver.tick(), ExportStep::Continue);
    assert_eq!(driver.turntable.pitch, None);
    assert_eq!(driver.tick(), ExportStep::Finished);
    assert_eq!(driver.accumulated, FULL_TURN);
}

#[test]
fn there_is_no_export_of_no_frames() {
    assert_eq!(ExportDriver::new(table(0, 1.0), 0), None);
    assert_eq!(ExportDriver::new(table(FULL_TURN, 1.0), 5), None);
    assert!(ExportDriver::new(table(0, f32::MAX), 5).is_some());
}

#[test]
fn exported_frames_are_wrapped_as_a_list() {
    assert_eq!(export_opening_text(), b"let frames = [\n".to_vec());
    assert_eq!(export_frame_text(&b"ab\ncd\n".to_vec(), false), b"`\nab\ncd\n`,\n".to_vec());
    assert_eq!(export_frame_text(&b"ab\ncd\n".to_vec(), true), b"`\nab\ncd\n`];\n".to_vec());
    assert_eq!(export_frame_text(&vec![], true), b"`\n`];\n".to_vec());
}
