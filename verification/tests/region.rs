use turtle_bag::region::{Point, Region};

fn square() -> Region {
    Region::new(Point { x: 0, y: 0 }, Point { x: 100, y: 100 }, Point { x: 50, y: 50 }).unwrap()
}

#[test]
fn a_square_keeps_what_it_was_made_from() {
    let region = Region::new(Point { x: -3, y: 7 }, Point { x: 5, y: 9 }, Point { x: 1, y: 8 }).unwrap();
    assert_eq!(region.origin(), Point { x: -3, y: 7 });
    assert_eq!(region.corner(), Point { x: 5, y: 9 });
    assert_eq!(region.center(), Point { x: 1, y: 8 });
}

#[test]
fn no_square_without_a_side() {
    let o = Point { x: 0, y: 0 };
    assert!(Region::new(o, Point { x: 0, y: 10 }, Point { x: 0, y: 5 }).is_none());
    assert!(Region::new(o, Point { x: 10, y: 0 }, Point { x: 5, y: 0 }).is_none());
    assert!(Region::new(o, Point { x: -10, y: 10 }, Point { x: -5, y: 5 }).is_none());
    assert!(Region::new(o, Point { x: 10, y: -10 }, Point { x: 5, y: -5 }).is_none());
    assert!(Region::new(o, o, o).is_none());
}

#[test]
fn no_square_with_its_centre_outside() {
    let o = Point { x: 0, y: 0 };
    let c = Point { x: 10, y: 10 };
    assert!(Region::new(o, c, Point { x: 11, y: 5 }).is_none());
    assert!(Region::new(o, c, Point { x: -1, y: 5 }).is_none());
    assert!(Region::new(o, c, Point { x: 5, y: 11 }).is_none());
    assert!(Region::new(o, c, Point { x: 5, y: -1 }).is_none());
    assert!(Region::new(o, c, o).is_some());
    assert!(Region::new(o, c, c).is_some());
}

#[test]
fn the_boundary_counts_as_inside() {
    let region = square();
    for p in [
        Point { x: 0, y: 0 },
        Point { x: 100, y: 100 },
        Point { x: 0, y: 100 },
        Point { x: 100, y: 0 },
        Point { x: 50, y: 0 },
        Point { x: 0, y: 50 },
        Point { x: 100, y: 37 },
        Point { x: 1, y: 99 },
    ] {
        assert!(region.contains(p), "{:?}", p);
        assert!(!region.is_outside(p), "{:?}", p);
    }
}

#[test]
fn beyond_either_bound_is_outside() {
    let region = square();
    for p in [
        Point { x: -1, y: 50 },
        Point { x: 101, y: 50 },
        Point { x: 50, y: -1 },
        Point { x: 50, y: 101 },
        Point { x: -1, y: -1 },
        Point { x: 101, y: 101 },
        Point { x: i64::MIN, y: 0 },
        Point { x: 0, y: i64::MAX },
    ] {
        assert!(!region.contains(p), "{:?}", p);
        assert!(region.is_outside(p), "{:?}", p);
    }
}

#[test]
fn the_centre_lies_inside() {
    let region = square();
    assert_eq!(region.center(), Point { x: 50, y: 50 });
    assert!(region.contains(region.center()));
    let wide = Region::new(
        Point { x: i64::MIN, y: i64::MIN },
        Point { x: i64::MAX, y: i64::MAX },
        Point { x: 0, y: 0 },
    )
    .unwrap();
    assert!(wide.contains(wide.center()));
}
