use gsoda::bounds::{compute_bounds, Bounds};
use gsoda::geometry::{LineSegment, Point3D};
use gsoda::interpreter::parse_gcode;
use gsoda::trim::filter_priming_lines;

fn seg(sx: i64, sy: i64, sz: i64, ex: i64, ey: i64, ez: i64, dep: bool) -> LineSegment {
    LineSegment {
        start: Point3D { x: sx, y: sy, z: sz },
        end: Point3D { x: ex, y: ey, z: ez },
        is_depositing: dep,
        layer_z: ez,
    }
}

#[test]
fn trim_keeps_small_sequence_ending_in_deposit() {
    // fewer segments than one window: the heuristic cannot fire
    let segments = vec![
        seg(0, 0, 0, 1_000, 0, 0, false),
        seg(1_000, 0, 0, 2_000, 0, 0, true),
        seg(2_000, 0, 0, 3_000, 0, 0, false),
        seg(3_000, 0, 0, 4_000, 0, 0, true),
    ];
    let trimmed = filter_priming_lines(&segments);
    assert_eq!(trimmed, segments);
}

#[test]
fn trim_end_is_one_past_last_deposit() {
    let segments = vec![
        seg(0, 0, 0, 1_000, 0, 0, false),
        seg(1_000, 0, 0, 2_000, 0, 0, true),
        seg(2_000, 0, 0, 3_000, 0, 0, true),
        seg(3_000, 0, 0, 4_000, 0, 0, false),
    ];
    let trimmed = filter_priming_lines(&segments);
    assert_eq!(trimmed, segments[0..3].to_vec());
}

#[test]
fn trim_empty_input_returns_empty() {
    let segments: Vec<LineSegment> = Vec::new();
    let trimmed = filter_priming_lines(&segments);
    assert!(trimmed.is_empty());
}

#[test]
fn trim_without_deposits_keeps_everything() {
    let segments = vec![
        seg(0, 0, 0, 1_000, 0, 0, false),
        seg(1_000, 0, 0, 2_000, 0, 0, false),
    ];
    let trimmed = filter_priming_lines(&segments);
    assert_eq!(trimmed, segments);
}

#[test]
fn trim_skips_priming_before_first_qualifying_window() {
    // a travel move from the origin, then five clean depositing moves well
    // inside the working area
    let text = b"G90\n\
        G1 X50 Y50 Z1\n\
        G1 X60 Y50 E1\n\
        G1 X60 Y60 E2\n\
        G1 X50 Y60 E3\n\
        G1 X50 Y50 E4\n\
        G1 X60 Y55 E5\n";
    let segments = parse_gcode(text);
    assert_eq!(segments.len(), 6);
    let trimmed = filter_priming_lines(&segments);
    assert_eq!(trimmed.len(), 5);
    assert_eq!(trimmed[0], segments[1]);
}

#[test]
fn trim_range_stays_within_input() {
    let texts: [&[u8]; 4] = [
        b"",
        b"G1 X5\n",
        b"G1 X50 Y50 E1\nG1 X60 Y50\n",
        b"G1 X30 Y30 E1\nG1 X31 Y30 E2\nG1 X32 Y30 E3\nG1 X33 Y30 E4\nG1 X34 Y30 E5\nG1 X35 Y30\n",
    ];
    for text in texts {
        let segments = parse_gcode(text);
        let trimmed = filter_priming_lines(&segments);
        assert!(trimmed.len() <= segments.len());
    }
}

#[test]
fn bounds_ignore_travel_motion() {
    let segments = vec![
        seg(-900_000, -900_000, -900_000, 900_000, 900_000, 900_000, false),
        seg(10_000, 20_000, 0, 30_000, 40_000, 1_000, true),
    ];
    let b = compute_bounds(&segments);
    assert_eq!(b.min, Point3D { x: 10_000, y: 20_000, z: 0 });
    assert_eq!(b.max, Point3D { x: 30_000, y: 40_000, z: 1_000 });
}

#[test]
fn bounds_center_and_max_dimension() {
    let segments = vec![seg(10_000, 20_000, 0, 30_000, 40_000, 1_000, true)];
    let b = compute_bounds(&segments);
    assert!(b.is_finite());
    assert!(!b.is_degenerate());
    assert_eq!(b.center(), Point3D { x: 20_000, y: 30_000, z: 500 });
    assert_eq!(b.max_dimension(), 20_000);
}

#[test]
fn bounds_without_deposits_stay_degenerate() {
    let segments = vec![
        seg(0, 0, 0, 1_000, 0, 0, false),
        seg(1_000, 0, 0, 2_000, 0, 0, false),
    ];
    let b = compute_bounds(&segments);
    assert!(b.is_degenerate());
    assert!(!b.is_finite());
    assert_eq!(b.min, Point3D { x: i64::MAX, y: i64::MAX, z: i64::MAX });
    assert_eq!(b.max, Point3D { x: i64::MIN, y: i64::MIN, z: i64::MIN });
}

#[test]
fn bounds_recomputation_is_identical() {
    let segments = vec![
        seg(10_000, 20_000, 0, 30_000, 40_000, 1_000, true),
        seg(30_000, 40_000, 1_000, 50_000, 60_000, 2_000, true),
        seg(50_000, 60_000, 2_000, 55_000, 61_000, 2_000, false),
    ];
    let b1 = compute_bounds(&segments);
    let b2 = compute_bounds(&segments);
    assert_eq!(b1, b2);
}

#[test]
fn expand_grows_monotonically() {
    let mut b = Bounds::new();
    b.expand(Point3D { x: 5, y: 6, z: 7 });
    assert_eq!(b.min, Point3D { x: 5, y: 6, z: 7 });
    assert_eq!(b.max, Point3D { x: 5, y: 6, z: 7 });
    b.expand(Point3D { x: -1, y: 10, z: 7 });
    assert_eq!(b.min, Point3D { x: -1, y: 6, z: 7 });
    assert_eq!(b.max, Point3D { x: 5, y: 10, z: 7 });
}

#[test]
fn pipeline_end_to_end() {
    let text = b"G90\n\
        G1 X50 Y50 Z0.2\n\
        G1 X60 Y50 E1\n\
        G1 X60 Y60 E2\n\
        G1 X50 Y60 E3\n\
        G1 X50 Y50 E4\n\
        G1 X60 Y55 E5\n\
        G1 X0 Y0\n";
    let segments = parse_gcode(text);
    let trimmed = filter_priming_lines(&segments);
    let b = compute_bounds(&trimmed);
    assert!(b.is_finite());
    assert_eq!(b.min, Point3D { x: 50_000, y: 50_000, z: 200 });
    assert_eq!(b.max, Point3D { x: 60_000, y: 60_000, z: 200 });
    assert_eq!(b.max_dimension(), 10_000);
}
