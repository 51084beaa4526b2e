use ray_tracer::texture::checker_side;
use ray_tracer::texture::CheckerSide;

#[test]
fn checker_origin_cell_is_first() {
    assert_eq!(checker_side(0, 0, 0), CheckerSide::First);
}

#[test]
fn checker_alternates_along_each_axis() {
    for &(cx, cy, cz) in &[(0i64, 0i64, 0i64), (3, -2, 7), (-5, -5, -5), (100, 1, -1)] {
        let here = checker_side(cx, cy, cz);
        for &(dx, dy, dz) in &[(1i64, 0i64, 0i64), (0, 1, 0), (0, 0, 1), (-1, 0, 0), (0, -1, 0), (0, 0, -1)] {
            assert_ne!(here, checker_side(cx + dx, cy + dy, cz + dz));
        }
    }
}

#[test]
fn checker_negative_cells_follow_parity() {
    assert_eq!(checker_side(-1, 0, 0), CheckerSide::Second);
    assert_eq!(checker_side(-1, -1, 0), CheckerSide::First);
    assert_eq!(checker_side(-3, 2, -4), CheckerSide::Second);
}

#[test]
fn checker_diagonal_cells_share_a_side() {
    assert_eq!(checker_side(1, 1, 0), CheckerSide::First);
    assert_eq!(checker_side(1, 1, 1), CheckerSide::Second);
    assert_eq!(checker_side(2, 0, 0), CheckerSide::First);
}

#[test]
fn checker_extreme_cells_do_not_overflow() {
    assert_eq!(checker_side(i64::MAX, i64::MAX, i64::MAX), CheckerSide::Second);
    assert_eq!(checker_side(i64::MIN, i64::MIN, i64::MIN), CheckerSide::First);
    assert_eq!(checker_side(i64::MAX, i64::MIN, 0), CheckerSide::Second);
}
