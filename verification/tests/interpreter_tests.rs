use gsoda::geometry::{LineSegment, Point3D, COORD_LIMIT};
use gsoda::interpreter::{apply_command, parse_gcode, InterpreterState};
use gsoda::parser::{AxisArgs, Command};

fn motion(x: Option<i64>, y: Option<i64>, z: Option<i64>, e: Option<i64>) -> Command {
    Command { letter: b'G', code: 1000, args: AxisArgs { x, y, z, e } }
}

fn state(x: i64, y: i64, z: i64, e: i64, relative: bool) -> InterpreterState {
    InterpreterState { pos: Point3D { x, y, z }, deposited: e, relative }
}

#[test]
fn absolute_motion_from_origin() {
    let segments = parse_gcode(b"G90\nG1 X10 Y0 Z0 E1\n");
    assert_eq!(segments.len(), 1);
    assert_eq!(segments[0].start, Point3D { x: 0, y: 0, z: 0 });
    assert_eq!(segments[0].end, Point3D { x: 10_000, y: 0, z: 0 });
    assert!(segments[0].is_depositing);
}

#[test]
fn zero_length_move_emits_no_segment() {
    // moving to the position already held materializes nothing
    let segments = parse_gcode(b"G90\nG1 X0 Y0 Z0\nG1 X10 Y0 Z0 E1\n");
    assert_eq!(segments.len(), 1);
    assert!(segments[0].is_depositing);
    assert_eq!(segments[0].end, Point3D { x: 10_000, y: 0, z: 0 });
}

#[test]
fn travel_then_deposit() {
    let segments = parse_gcode(b"G90\nG1 X5 Y5 Z0\nG1 X10 Y5 Z0 E1\n");
    assert_eq!(segments.len(), 2);
    assert!(!segments[0].is_depositing);
    assert!(segments[1].is_depositing);
    assert_eq!(segments[1].start, Point3D { x: 5_000, y: 5_000, z: 0 });
    assert_eq!(segments[1].end, Point3D { x: 10_000, y: 5_000, z: 0 });
}

#[test]
fn relative_mode_offsets_prior_position() {
    let segments = parse_gcode(b"G1 X10\nG91\nG1 X5 E1\n");
    assert_eq!(segments.len(), 2);
    assert_eq!(segments[1].start, Point3D { x: 10_000, y: 0, z: 0 });
    assert_eq!(segments[1].end, Point3D { x: 15_000, y: 0, z: 0 });
    assert!(segments[1].is_depositing);
}

#[test]
fn comments_and_blank_lines_change_nothing() {
    let with_noise = parse_gcode(b"G1 X10\n; comment\n\nG1 X20\n");
    let without = parse_gcode(b"G1 X10\nG1 X20\n");
    assert_eq!(with_noise, without);
    assert_eq!(with_noise.len(), 2);
    assert_eq!(with_noise[1].start, Point3D { x: 10_000, y: 0, z: 0 });
    assert_eq!(with_noise[1].end, Point3D { x: 20_000, y: 0, z: 0 });
}

#[test]
fn carry_forward_keeps_unmentioned_axes() {
    let segments = parse_gcode(b"G1 X10 Y20 Z5 E1\nG1 X15\n");
    assert_eq!(segments.len(), 2);
    assert_eq!(segments[1].end, Point3D { x: 15_000, y: 20_000, z: 5_000 });
    // the deposited quantity carries forward too, so nothing new deposits
    assert!(!segments[1].is_depositing);
}

#[test]
fn layer_z_is_resolved_z() {
    let segments = parse_gcode(b"G1 X10 Z2.5\n");
    assert_eq!(segments.len(), 1);
    assert_eq!(segments[0].layer_z, 2_500);
}

#[test]
fn fractional_and_negative_numbers() {
    let segments = parse_gcode(b"G1 X1.5 Y-2.25 Z0.1234\n");
    assert_eq!(segments.len(), 1);
    assert_eq!(segments[0].end, Point3D { x: 1_500, y: -2_250, z: 123 });
}

#[test]
fn oversized_number_saturates() {
    let segments = parse_gcode(b"G1 X99999999999999999\n");
    assert_eq!(segments.len(), 1);
    assert_eq!(segments[0].end.x, COORD_LIMIT);
}

#[test]
fn bare_fraction_and_trailing_dot() {
    let segments = parse_gcode(b"G1 X.5\nG1 X5.\n");
    assert_eq!(segments.len(), 2);
    assert_eq!(segments[0].end.x, 500);
    assert_eq!(segments[1].end.x, 5_000);
}

#[test]
fn sign_without_digits_is_malformed() {
    let segments = parse_gcode(b"G1 X-\nG1 X5\n");
    assert_eq!(segments.len(), 1);
    assert_eq!(segments[0].end.x, 5_000);
}

#[test]
fn malformed_line_contributes_nothing() {
    let segments = parse_gcode(b"G1 X#\nG1 X5\n");
    assert_eq!(segments.len(), 1);
    assert_eq!(segments[0].start, Point3D { x: 0, y: 0, z: 0 });
    assert_eq!(segments[0].end, Point3D { x: 5_000, y: 0, z: 0 });
}

#[test]
fn lowercase_and_unspaced_words() {
    let a = parse_gcode(b"g1 x5 y6\n");
    let b = parse_gcode(b"G1X5Y6\n");
    assert_eq!(a, b);
    assert_eq!(a.len(), 1);
    assert_eq!(a[0].end, Point3D { x: 5_000, y: 6_000, z: 0 });
}

#[test]
fn inline_comment_and_carriage_returns() {
    let segments = parse_gcode(b"G1 X5 ; move over\r\nG1 X10\r\n");
    assert_eq!(segments.len(), 2);
    assert_eq!(segments[1].end, Point3D { x: 10_000, y: 0, z: 0 });
}

#[test]
fn other_commands_are_ignored_with_their_arguments() {
    // the X0 belongs to the uninterpreted G28, not to any motion
    let segments = parse_gcode(b"M104 S200\nG28 X0\nT0\nG1 X5\n");
    assert_eq!(segments.len(), 1);
    assert_eq!(segments[0].end, Point3D { x: 5_000, y: 0, z: 0 });
}

#[test]
fn several_commands_on_one_line() {
    let segments = parse_gcode(b"G1 X10\nG91 G1 X5\n");
    assert_eq!(segments.len(), 2);
    assert_eq!(segments[1].end, Point3D { x: 15_000, y: 0, z: 0 });
}

#[test]
fn rapid_and_linear_treated_alike() {
    let a = parse_gcode(b"G0 X5 Y5\n");
    let b = parse_gcode(b"G1 X5 Y5\n");
    assert_eq!(a, b);
    assert_eq!(a.len(), 1);
}

#[test]
fn empty_input_and_final_line_without_break() {
    assert_eq!(parse_gcode(b"").len(), 0);
    let segments = parse_gcode(b"G1 X5");
    assert_eq!(segments.len(), 1);
    assert_eq!(segments[0].end, Point3D { x: 5_000, y: 0, z: 0 });
}

#[test]
fn deposit_only_change_updates_state_silently() {
    // the pure E move emits nothing, yet the new quantity is remembered
    let segments = parse_gcode(b"G1 E5\nG1 X5 E5\n");
    assert_eq!(segments.len(), 1);
    assert!(!segments[0].is_depositing);
}

#[test]
fn no_segment_is_zero_length() {
    let segments = parse_gcode(b"G1 X1\nG1 X1 Y0\nG91\nG1 X0 Y0\nG1 Y2 E1\n");
    for seg in &segments {
        assert_ne!(seg.start, seg.end);
    }
    assert_eq!(segments.len(), 2);
}

#[test]
fn step_carry_forward_on_one_axis() {
    let st = state(10_000, 20_000, 30_000, 400, false);
    let cmd = motion(Some(5_000), None, None, None);
    let (next, seg) = apply_command(&st, &cmd);
    assert_eq!(next.pos, Point3D { x: 5_000, y: 20_000, z: 30_000 });
    assert_eq!(next.deposited, 400);
    assert!(seg.is_some());
}

#[test]
fn step_relative_resolution() {
    let st = state(10_000, 0, 0, 0, true);
    let cmd = motion(Some(5_000), None, None, None);
    let (next, _) = apply_command(&st, &cmd);
    assert_eq!(next.pos.x, 15_000);
}

#[test]
fn step_depositing_iff_quantity_increases() {
    let st = state(0, 0, 0, 400, false);
    let increased = apply_command(&st, &motion(Some(1_000), None, None, Some(500))).1.unwrap();
    assert!(increased.is_depositing);
    let equal = apply_command(&st, &motion(Some(1_000), None, None, Some(400))).1.unwrap();
    assert!(!equal.is_depositing);
    let decreased = apply_command(&st, &motion(Some(1_000), None, None, Some(300))).1.unwrap();
    assert!(!decreased.is_depositing);
}

#[test]
fn mode_commands_emit_nothing() {
    let st = state(1_000, 2_000, 3_000, 0, false);
    let rel = Command { letter: b'G', code: 91_000, args: AxisArgs { x: None, y: None, z: None, e: None } };
    let (next, seg) = apply_command(&st, &rel);
    assert!(seg.is_none());
    assert!(next.relative);
    assert_eq!(next.pos, st.pos);
}

#[test]
fn segments_expose_fields_for_rendering() {
    let segments = parse_gcode(b"G1 X10 Z1 E1\n");
    let seg: LineSegment = segments[0];
    assert_eq!(seg.layer_z, 1_000);
    assert!(seg.is_depositing);
}
