use path_walker::path::{Cursor, Path, PathStop, Point, WalkError, BACKWARD};
use path_walker::utility::Bounds;

fn at_origin(dirs: u8, heading: u32) -> Path {
    Path { points: vec![Point { x: 0, y: 0, dirs }], cursor: Cursor { x: 0, y: 0, dir: heading } }
}

#[test]
fn forward_has_priority_over_a_side() {
    assert_eq!(at_origin(0x05, 0).check_step(), Ok(0x01));
}

#[test]
fn both_forward_diagonals_are_an_error() {
    let stop = Err(PathStop::Error(WalkError::IllegalForwardDiagonalBranch));
    assert_eq!(at_origin(0x82, 0).check_step(), stop);
    assert_eq!(at_origin(0x92, 0).check_step(), stop);
    assert_eq!(at_origin(0xFE, 0).check_step(), stop);
}

#[test]
fn both_sides_are_a_branch() {
    assert_eq!(at_origin(0x44, 0).check_step(), Err(PathStop::Branch));
    assert_eq!(at_origin(0x54, 0).check_step(), Err(PathStop::Branch));
    assert_eq!(at_origin(0x6C, 0).check_step(), Err(PathStop::Branch));
}

#[test]
fn only_the_way_back_halts() {
    assert_eq!(at_origin(0x10, 0).check_step(), Err(PathStop::Halted));
    assert_eq!(at_origin(0x00, 0).check_step(), Err(PathStop::Halted));
}

#[test]
fn both_backward_diagonals_are_an_error() {
    let stop = Err(PathStop::Error(WalkError::IllegalBackwardDiagonalBranch));
    assert_eq!(at_origin(0x28, 0).check_step(), stop);
    assert_eq!(at_origin(0x38, 0).check_step(), stop);
}

#[test]
fn each_single_edge_is_taken() {
    for dir in [0x01u8, 0x02, 0x04, 0x08, 0x20, 0x40, 0x80] {
        assert_eq!(at_origin(dir, 0).check_step(), Ok(dir));
        assert_eq!(at_origin(dir | BACKWARD, 0).check_step(), Ok(dir));
    }
}

#[test]
fn priority_runs_from_forward_to_backward_diagonals() {
    assert_eq!(at_origin(0xFF, 0).check_step(), Ok(0x01));
    assert_eq!(at_origin(0x06, 0).check_step(), Ok(0x02));
    assert_eq!(at_origin(0x4A, 0).check_step(), Ok(0x02));
    assert_eq!(at_origin(0xC0, 0).check_step(), Ok(0x80));
    assert_eq!(at_origin(0x0C, 0).check_step(), Ok(0x04));
    assert_eq!(at_origin(0x60, 0).check_step(), Ok(0x40));
    assert_eq!(at_origin(0x18, 0).check_step(), Ok(0x08));
    assert_eq!(at_origin(0x30, 0).check_step(), Ok(0x20));
    assert_eq!(at_origin(0x2C, 0).check_step(), Ok(0x04));
}

#[test]
fn edges_are_seen_from_the_heading() {
    assert_eq!(at_origin(0x04, 2).check_step(), Ok(0x01));
    assert_eq!(at_origin(0x01, 4).check_step(), Err(PathStop::Halted));
    assert_eq!(at_origin(0x01, 7).check_step(), Ok(0x02));
    assert_eq!(at_origin(0x11, 2).check_step(), Err(PathStop::Branch));
    assert_eq!(at_origin(0x05, 1).check_step(), Err(PathStop::Error(
        WalkError::IllegalForwardDiagonalBranch
    )));
}

#[test]
fn normalize_rotates_the_mask_right_by_the_heading() {
    let p = Point { x: 0, y: 0, dirs: 0x04 };
    assert_eq!(Cursor { x: 0, y: 0, dir: 2 }.normalize(&p), 0x01);
    assert_eq!(Cursor { x: 0, y: 0, dir: 3 }.normalize(&p), 0x80);
    assert_eq!(Cursor { x: 0, y: 0, dir: 0 }.normalize(&p), 0x04);
    assert_eq!(Cursor { x: 0, y: 0, dir: 10 }.normalize(&p), 0x01);
}

#[test]
fn no_point_at_the_cursor_is_an_error() {
    let path = Path {
        points: vec![Point { x: 0, y: 0, dirs: 0x01 }],
        cursor: Cursor { x: 9, y: 9, dir: 0 },
    };
    assert_eq!(path.get_point_at_cursor(), None);
    assert_eq!(path.check_step(), Err(PathStop::Error(WalkError::PointNotFound)));
    let empty = Path { points: vec![], cursor: Cursor { x: 0, y: 0, dir: 0 } };
    assert_eq!(empty.check_step(), Err(PathStop::Error(WalkError::PointNotFound)));
}

#[test]
fn first_of_two_points_at_one_position_is_found() {
    let path = Path {
        points: vec![
            Point { x: 1, y: 1, dirs: 0x01 },
            Point { x: 2, y: 2, dirs: 0x04 },
            Point { x: 2, y: 2, dirs: 0x40 },
        ],
        cursor: Cursor { x: 2, y: 2, dir: 0 },
    };
    assert_eq!(path.get_point_at_cursor(), Some(&Point { x: 2, y: 2, dirs: 0x04 }));
    assert_eq!(path.check_step(), Ok(0x04));
}

#[test]
fn moving_forward_keeps_the_heading() {
    let steps = [(0u32, 1i64, 0i64), (1, 1, 1), (2, 0, 1), (3, -1, 1), (4, -1, 0), (5, -1, -1),
        (6, 0, -1), (7, 1, -1)];
    for (heading, dx, dy) in steps {
        let mut c = Cursor { x: 10, y: 20, dir: heading };
        c.move_in_dir(0x01);
        assert_eq!(c, Cursor { x: 10 + dx, y: 20 + dy, dir: heading });
    }
}

#[test]
fn moving_turns_by_the_index_of_the_direction() {
    let mut c = Cursor { x: 3, y: 5, dir: 2 };
    c.move_in_dir(0x02);
    assert_eq!(c, Cursor { x: 2, y: 6, dir: 3 });
    let mut c = Cursor { x: 0, y: 0, dir: 6 };
    c.move_in_dir(0x04);
    assert_eq!(c, Cursor { x: 1, y: 0, dir: 0 });
    let mut c = Cursor { x: 0, y: 0, dir: 1 };
    c.move_in_dir(0x80);
    assert_eq!(c, Cursor { x: 1, y: 0, dir: 0 });
    let mut c = Cursor { x: 0, y: 0, dir: 0 };
    c.move_in_dir(0x20);
    assert_eq!(c, Cursor { x: -1, y: -1, dir: 5 });
}

#[test]
fn opposite_moves_cancel() {
    for heading in 0..8u32 {
        let mut c = Cursor { x: 0, y: 0, dir: heading };
        c.move_in_dir(0x01);
        c.move_in_dir(0x10);
        assert_eq!((c.x, c.y), (0, 0));
        assert_eq!(c.dir, (heading + 4) % 8);
    }
}

#[test]
fn step_follows_a_straight_line_and_halts() {
    let mut path = Path {
        points: vec![
            Point { x: 0, y: 0, dirs: 0x01 },
            Point { x: 1, y: 0, dirs: 0x11 },
            Point { x: 2, y: 0, dirs: 0x10 },
        ],
        cursor: Cursor { x: 0, y: 0, dir: 0 },
    };
    assert_eq!(path.step(), Ok(()));
    assert_eq!(path.cursor, Cursor { x: 1, y: 0, dir: 0 });
    assert_eq!(path.step(), Ok(()));
    assert_eq!(path.cursor, Cursor { x: 2, y: 0, dir: 0 });
    assert_eq!(path.step(), Err(PathStop::Halted));
    assert_eq!(path.cursor, Cursor { x: 2, y: 0, dir: 0 });
    assert_eq!(path.step(), Err(PathStop::Halted));
    assert_eq!(path.cursor, Cursor { x: 2, y: 0, dir: 0 });
    assert_eq!(path.points.len(), 3);
}

#[test]
fn step_turns_a_corner() {
    let mut path = Path {
        points: vec![
            Point { x: 0, y: 0, dirs: 0x01 },
            Point { x: 1, y: 0, dirs: 0x14 },
            Point { x: 1, y: 1, dirs: 0x42 },
            Point { x: 2, y: 2, dirs: 0x20 },
        ],
        cursor: Cursor { x: 0, y: 0, dir: 0 },
    };
    assert_eq!(path.check_step(), Ok(0x01));
    assert_eq!(path.step(), Ok(()));
    assert_eq!(path.check_step(), Ok(0x04));
    assert_eq!(path.step(), Ok(()));
    assert_eq!(path.cursor, Cursor { x: 1, y: 1, dir: 2 });
    assert_eq!(path.check_step(), Ok(0x80));
    assert_eq!(path.step(), Ok(()));
    assert_eq!(path.cursor, Cursor { x: 2, y: 2, dir: 1 });
    assert_eq!(path.step(), Err(PathStop::Halted));
}

#[test]
fn step_off_the_points_reports_point_not_found() {
    let mut path = at_origin(0x01, 0);
    assert_eq!(path.step(), Ok(()));
    assert_eq!(path.cursor, Cursor { x: 1, y: 0, dir: 0 });
    assert_eq!(path.step(), Err(PathStop::Error(WalkError::PointNotFound)));
    assert_eq!(path.cursor, Cursor { x: 1, y: 0, dir: 0 });
}

#[test]
fn step_stops_at_a_branch_without_moving() {
    let mut path = at_origin(0x44, 0);
    assert_eq!(path.step(), Err(PathStop::Branch));
    assert_eq!(path.cursor, Cursor { x: 0, y: 0, dir: 0 });
}

#[test]
fn move_cursor_moves_only_the_cursor() {
    let mut path = at_origin(0x04, 0);
    path.move_cursor(0x04);
    assert_eq!(path.cursor, Cursor { x: 0, y: 1, dir: 2 });
    assert_eq!(path.points, vec![Point { x: 0, y: 0, dirs: 0x04 }]);
}

#[test]
fn equal_walks_take_equal_steps() {
    let points = vec![
        Point { x: 0, y: 0, dirs: 0x02 },
        Point { x: 1, y: 1, dirs: 0x24 },
        Point { x: 1, y: 2, dirs: 0x41 },
        Point { x: 2, y: 2, dirs: 0x10 },
    ];
    let mut a = Path { points: points.clone(), cursor: Cursor { x: 0, y: 0, dir: 0 } };
    let mut b = a.clone();
    assert_eq!(a, b);
    let mut trail = Vec::new();
    for _ in 0..6 {
        let ra = a.step();
        let rb = b.step();
        assert_eq!(ra, rb);
        assert_eq!(a.cursor, b.cursor);
        trail.push((a.cursor.x, a.cursor.y, a.cursor.dir, ra.is_ok()));
    }
    assert_eq!(
        trail,
        vec![
            (1, 1, 1, true),
            (1, 2, 2, true),
            (2, 2, 0, true),
            (2, 2, 0, false),
            (2, 2, 0, false),
            (2, 2, 0, false)
        ]
    );
}

#[test]
fn bounds_of_no_points_are_zero() {
    let path = Path { points: vec![], cursor: Cursor { x: 4, y: 4, dir: 0 } };
    assert_eq!(path.get_bounds(), Bounds { x1: 0, y1: 0, x2: 0, y2: 0 });
    assert_eq!(path.get_bounds(), Bounds::zeros());
}

#[test]
fn bounds_of_one_point_are_that_point() {
    let path = Path {
        points: vec![Point { x: 3, y: 5, dirs: 0 }],
        cursor: Cursor { x: 3, y: 5, dir: 0 },
    };
    assert_eq!(path.get_bounds(), Bounds { x1: 3, y1: 5, x2: 3, y2: 5 });
}

#[test]
fn bounds_contain_every_point() {
    let points = vec![
        Point { x: 3, y: 5, dirs: 0 },
        Point { x: -2, y: 9, dirs: 0 },
        Point { x: 7, y: -4, dirs: 0 },
        Point { x: 0, y: 0, dirs: 0 },
    ];
    let path = Path { points: points.clone(), cursor: Cursor { x: 0, y: 0, dir: 0 } };
    let b = path.get_bounds();
    assert_eq!(b, Bounds { x1: -2, y1: -4, x2: 7, y2: 9 });
    for p in points {
        assert!(b.x1 <= p.x && p.x <= b.x2 && b.y1 <= p.y && p.y <= b.y2);
    }
}

#[test]
fn bounds_do_not_depend_on_the_cursor() {
    let path = Path {
        points: vec![Point { x: 1, y: 1, dirs: 0 }, Point { x: 2, y: 3, dirs: 0 }],
        cursor: Cursor { x: 100, y: -100, dir: 0 },
    };
    assert_eq!(path.get_bounds(), Bounds { x1: 1, y1: 1, x2: 2, y2: 3 });
}

#[test]
fn bounds_grow_by_points() {
    let mut b = Bounds::initial();
    assert_eq!(b, Bounds { x1: i64::MAX, y1: i64::MAX, x2: i64::MIN, y2: i64::MIN });
    b.add_point(3, 5);
    assert_eq!(b, Bounds { x1: 3, y1: 5, x2: 3, y2: 5 });
    b.add_point(1, 8);
    assert_eq!(b, Bounds { x1: 1, y1: 5, x2: 3, y2: 8 });
    b.add_point(2, 6);
    assert_eq!(b, Bounds { x1: 1, y1: 5, x2: 3, y2: 8 });
}

#[test]
fn normalize_counts_columns_from_the_left_and_rows_from_the_top() {
    let b = Bounds { x1: -2, y1: -4, x2: 7, y2: 9 };
    assert_eq!(b.normalize(-2, 9), (0, 0));
    assert_eq!(b.normalize(7, -4), (9, 13));
    assert_eq!(b.normalize(0, 0), (2, 9));
}

#[test]
fn walk_errors_have_messages() {
    assert_eq!(
        WalkError::IllegalForwardDiagonalBranch.message(),
        "Illegal branch of forward diagonal paths"
    );
    assert_eq!(
        WalkError::IllegalBackwardDiagonalBranch.message(),
        "Illegal branch of backwards diagonal paths"
    );
    assert_eq!(WalkError::PointNotFound.message(), "No point at the cursor position");
}

#[test]
fn defaults_are_at_the_origin() {
    assert_eq!(Point::default(), Point { x: 0, y: 0, dirs: 0 });
    assert_eq!(Cursor::default(), Cursor { x: 0, y: 0, dir: 0 });
}

#[test]
fn try_step_walks_like_step() {
    let mut path = Path {
        points: vec![
            Point { x: 0, y: 0, dirs: 0x01 },
            Point { x: 1, y: 0, dirs: 0x11 },
            Point { x: 2, y: 0, dirs: 0x10 },
        ],
        cursor: Cursor { x: 0, y: 0, dir: 0 },
    };
    assert_eq!(path.try_step(), Some(Ok(())));
    assert_eq!(path.cursor, Cursor { x: 1, y: 0, dir: 0 });
    assert_eq!(path.try_step(), Some(Ok(())));
    assert_eq!(path.cursor, Cursor { x: 2, y: 0, dir: 0 });
    assert_eq!(path.try_step(), Some(Err(PathStop::Halted)));
    assert_eq!(path.cursor, Cursor { x: 2, y: 0, dir: 0 });
}

#[test]
fn try_step_refuses_a_step_out_of_the_coordinate_range() {
    let mut path = Path {
        points: vec![Point { x: i64::MAX, y: 7, dirs: 0x01 }],
        cursor: Cursor { x: i64::MAX, y: 7, dir: 0 },
    };
    assert_eq!(path.check_step(), Ok(0x01));
    assert_eq!(path.try_step(), None);
    assert_eq!(path.cursor, Cursor { x: i64::MAX, y: 7, dir: 0 });
    assert_eq!(path.points, vec![Point { x: i64::MAX, y: 7, dirs: 0x01 }]);
    let mut path = Path {
        points: vec![Point { x: 3, y: i64::MIN, dirs: 0x80 }],
        cursor: Cursor { x: 3, y: i64::MIN, dir: 0 },
    };
    assert_eq!(path.try_step(), None);
    assert_eq!(path.cursor, Cursor { x: 3, y: i64::MIN, dir: 0 });
}

#[test]
fn try_step_moves_along_the_edge_of_the_coordinate_range() {
    let mut path = Path {
        points: vec![Point { x: i64::MAX, y: 0, dirs: 0x10 }],
        cursor: Cursor { x: i64::MAX, y: 0, dir: 4 },
    };
    assert_eq!(path.try_step(), Some(Ok(())));
    assert_eq!(path.cursor, Cursor { x: i64::MAX - 1, y: 0, dir: 4 });
    let mut path = Path {
        points: vec![Point { x: i64::MAX, y: i64::MIN, dirs: 0x04 }],
        cursor: Cursor { x: i64::MAX, y: i64::MIN, dir: 0 },
    };
    assert_eq!(path.try_step(), Some(Ok(())));
    assert_eq!(path.cursor, Cursor { x: i64::MAX, y: i64::MIN + 1, dir: 2 });
}

#[test]
fn try_step_reports_a_stop_at_the_edge_of_the_coordinate_range() {
    let mut path = Path {
        points: vec![Point { x: i64::MAX, y: i64::MAX, dirs: 0x44 }],
        cursor: Cursor { x: i64::MAX, y: i64::MAX, dir: 0 },
    };
    assert_eq!(path.try_step(), Some(Err(PathStop::Branch)));
    assert_eq!(path.cursor, Cursor { x: i64::MAX, y: i64::MAX, dir: 0 });
}

#[test]
fn can_move_in_dir_tests_the_destination() {
    let inside = Cursor { x: 0, y: 0, dir: 3 };
    for dir in [0x01u8, 0x02, 0x04, 0x08, 0x10, 0x20, 0x40, 0x80] {
        assert!(inside.can_move_in_dir(dir));
    }
    let corner = Cursor { x: i64::MAX, y: i64::MIN, dir: 0 };
    assert!(!corner.can_move_in_dir(0x01));
    assert!(!corner.can_move_in_dir(0x02));
    assert!(corner.can_move_in_dir(0x04));
    assert!(corner.can_move_in_dir(0x08));
    assert!(corner.can_move_in_dir(0x10));
    assert!(!corner.can_move_in_dir(0x20));
    assert!(!corner.can_move_in_dir(0x40));
    assert!(!corner.can_move_in_dir(0x80));
    let turned = Cursor { x: i64::MAX, y: i64::MIN, dir: 2 };
    assert!(turned.can_move_in_dir(0x01));
    assert!(!turned.can_move_in_dir(0x40));
    assert!(turned.can_move_in_dir(0x02));
    assert!(!turned.can_move_in_dir(0x10));
}
