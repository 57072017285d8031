use blueprint_vm::geometry::{box_cast, box_hit, choose_drag_mode, drag_axis, DragMode, WorldPoint, WorldSize};

fn p(x: i64, y: i64) -> WorldPoint {
    WorldPoint { x, y }
}

#[test]
fn hit_test_centre_and_just_beyond_edge() {
    let pos = p(3, -4);
    let size = WorldSize { width: 10, height: 20 };
    assert!(box_hit(&pos, &size, &pos));
    assert!(box_hit(&pos, &size, &p(7, -4)));
    assert!(!box_hit(&pos, &size, &p(8, -4)));
    assert!(!box_hit(&pos, &size, &p(3, 6)));
    assert!(!box_hit(&pos, &size, &p(9, -4)));
    assert!(!box_hit(&pos, &size, &p(-2, -4)));
}

#[test]
fn box_cast_keeps_edge_points_and_clamps_outside_points() {
    let pos = p(0, 0);
    let size = WorldSize { width: 20, height: 10 };
    assert_eq!(box_cast(&pos, &size, &p(10, 3)), p(10, 3));
    assert_eq!(box_cast(&pos, &size, &p(-4, -5)), p(-4, -5));
    assert_eq!(box_cast(&pos, &size, &p(100, 2)), p(10, 2));
    assert_eq!(box_cast(&pos, &size, &p(-100, -100)), p(-10, -5));
    let once = box_cast(&pos, &size, &p(33, -70));
    assert_eq!(box_cast(&pos, &size, &once), once);
}

#[test]
fn stretch_low_by_minus_six() {
    let (pos, size, used) = drag_axis(DragMode::StretchLow, 0, 20, -6);
    assert_eq!(used, -6);
    assert_eq!(pos, -3);
    assert_eq!(size, 26);
    assert!(size >= std::cmp::max(20 + 6, 10));
}

#[test]
fn stretch_never_below_minimum() {
    assert_eq!(drag_axis(DragMode::StretchLow, 0, 20, 1000), (500, 10, 1000));
    assert_eq!(drag_axis(DragMode::StretchHigh, 0, 20, -1000), (-500, 10, -1000));
}

#[test]
fn odd_stretch_keeps_the_opposite_edge() {
    let (pos, size, used) = drag_axis(DragMode::StretchHigh, 5, 20, 7);
    assert_eq!((pos, size, used), (8, 26, 6));
    assert_eq!(2 * pos - size, 2 * 5 - 20);
    let (pos, size, used) = drag_axis(DragMode::StretchLow, 0, 20, -7);
    assert_eq!((pos, size, used), (-3, 26, -6));
    assert_eq!(2 * pos + size, 20);
}

#[test]
fn plain_drag_moves_only() {
    assert_eq!(drag_axis(DragMode::Drag, 4, 30, -9), (-5, 30, -9));
}

#[test]
fn drag_mode_by_quarter() {
    assert_eq!(choose_drag_mode(-6, 5), DragMode::StretchLow);
    assert_eq!(choose_drag_mode(6, 5), DragMode::StretchHigh);
    assert_eq!(choose_drag_mode(5, 5), DragMode::Drag);
    assert_eq!(choose_drag_mode(-5, 5), DragMode::Drag);
}
