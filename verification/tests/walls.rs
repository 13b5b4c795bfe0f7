use suika_core::field::WallLocation;

#[test]
fn wall_positions_frame_the_field() {
    assert_eq!(WallLocation::Left.position(), (-400, 0));
    assert_eq!(WallLocation::Right.position(), (400, 0));
    assert_eq!(WallLocation::Bottom.position(), (0, -300));
    assert_eq!(WallLocation::Top.position(), (0, 300));
}

#[test]
fn wall_sizes_span_the_arena() {
    assert_eq!(WallLocation::Left.size(), (10, 600));
    assert_eq!(WallLocation::Right.size(), (10, 600));
    assert_eq!(WallLocation::Bottom.size(), (800, 10));
    assert_eq!(WallLocation::Top.size(), (800, 10));
}
