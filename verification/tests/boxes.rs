use collide_tree::boxes::{qcast, BNum, Bounds, IdBound};
use collide_tree::{BoundBox, Located};

fn halves<T: BNum + std::fmt::Debug>(x: T, y: T, w: T, h: T) -> String {
    format!("{:?}", Bounds::new(x, y, w, h).split())
}

#[test]
fn hits_counts_touching_edges() {
    let a = Bounds::new(0, 0, 10, 10);
    assert!(a.hits(&Bounds::new(10, 0, 10, 10)));
    assert!(a.hits(&Bounds::new(0, 10, 10, 10)));
    assert!(a.hits(&Bounds::new(10, 10, 1, 1)));
    assert!(a.hits(&Bounds::new(-5, -5, 5, 5)));
    assert!(!a.hits(&Bounds::new(11, 0, 10, 10)));
    assert!(!a.hits(&Bounds::new(0, 11, 10, 10)));
    assert!(!a.hits(&Bounds::new(-6, 0, 5, 5)));
    assert!(!a.hits(&Bounds::new(0, -6, 5, 5)));
}

#[test]
fn hits_needs_both_axes() {
    let a = Bounds::new(0, 0, 10, 10);
    assert!(!a.hits(&Bounds::new(5, 20, 1, 1)));
    assert!(!a.hits(&Bounds::new(20, 5, 1, 1)));
    assert!(a.hits(&Bounds::new(5, 5, 1, 1)));
    assert!(a.hits(&Bounds::new(-100, -100, 1000, 1000)));
}

#[test]
fn hits_is_symmetric() {
    let boxes = [
        Bounds::new(0, 0, 10, 10),
        Bounds::new(10, 10, 0, 0),
        Bounds::new(3, 4, 1, 20),
        Bounds::new(-7, 2, 8, 1),
        Bounds::new(11, 0, 3, 3),
        Bounds::new(0, 0, 0, 0),
    ];
    for a in &boxes {
        for b in &boxes {
            assert_eq!(a.hits(b), b.hits(a));
        }
    }
}

#[test]
fn a_box_hits_itself() {
    assert!(Bounds::new(3, 4, 0, 0).hits(&Bounds::new(3, 4, 0, 0)));
    assert!(Bounds::new(3u8, 4, 5, 6).hits(&Bounds::new(3, 4, 5, 6)));
}

#[test]
fn split_cuts_the_longer_side() {
    assert_eq!(
        halves(0, 0, 10, 4),
        "(Bounds { x: 0, y: 0, w: 5, h: 4 }, Bounds { x: 5, y: 0, w: 5, h: 4 })"
    );
    assert_eq!(
        halves(0, 0, 4, 10),
        "(Bounds { x: 0, y: 0, w: 4, h: 5 }, Bounds { x: 0, y: 5, w: 4, h: 5 })"
    );
}

#[test]
fn split_cuts_a_square_across_its_height() {
    assert_eq!(
        halves(2, 3, 6, 6),
        "(Bounds { x: 2, y: 3, w: 6, h: 3 }, Bounds { x: 2, y: 6, w: 6, h: 3 })"
    );
}

#[test]
fn split_gives_the_remainder_to_the_second_half() {
    assert_eq!(
        halves(1, 1, 7, 2),
        "(Bounds { x: 1, y: 1, w: 3, h: 2 }, Bounds { x: 4, y: 1, w: 4, h: 2 })"
    );
    assert_eq!(
        halves(1, 1, 2, 9),
        "(Bounds { x: 1, y: 1, w: 2, h: 4 }, Bounds { x: 1, y: 5, w: 2, h: 5 })"
    );
    assert_eq!(
        halves(0, 0, 1, 0),
        "(Bounds { x: 0, y: 0, w: 0, h: 0 }, Bounds { x: 0, y: 0, w: 1, h: 0 })"
    );
}

#[test]
fn split_of_a_degenerate_box_does_not_fail() {
    assert_eq!(
        halves(5, 5, 0, 0),
        "(Bounds { x: 5, y: 5, w: 0, h: 0 }, Bounds { x: 5, y: 5, w: 0, h: 0 })"
    );
    assert_eq!(
        halves(5, 5, 8, 0),
        "(Bounds { x: 5, y: 5, w: 4, h: 0 }, Bounds { x: 9, y: 5, w: 4, h: 0 })"
    );
    assert_eq!(
        halves(5, 5, 0, 8),
        "(Bounds { x: 5, y: 5, w: 0, h: 4 }, Bounds { x: 5, y: 9, w: 0, h: 4 })"
    );
}

#[test]
fn split_keeps_the_area_and_shares_only_the_cut() {
    for (w, h) in [(10i64, 4i64), (7, 2), (2, 9), (5, 5), (1, 0), (0, 0), (1000, 1000)] {
        let whole = Bounds::new(10, 20, w, h);
        let (a, b) = whole.split();
        let (wa, ha, wb, hb) =
            if w > h { (w / 2, h, w - w / 2, h) } else { (w, h / 2, w, h - h / 2) };
        assert_eq!(wa * ha + wb * hb, w * h);
        assert_eq!(
            format!("{:?}", a),
            format!("Bounds {{ x: 10, y: 20, w: {}, h: {} }}", wa, ha)
        );
        let (xb, yb) = if w > h { (10 + wa, 20) } else { (10, 20 + ha) };
        assert_eq!(
            format!("{:?}", b),
            format!("Bounds {{ x: {}, y: {}, w: {}, h: {} }}", xb, yb, wb, hb)
        );
        assert!(a.hits(&b));
        assert!(whole.hits(&a) && whole.hits(&b));
    }
}

#[test]
fn split_rounds_negative_extents_towards_zero() {
    assert_eq!(
        halves(0i32, 0, -7, -9),
        "(Bounds { x: 0, y: 0, w: -3, h: -9 }, Bounds { x: -3, y: 0, w: -4, h: -9 })"
    );
}

#[test]
fn split_works_at_the_ends_of_the_range() {
    assert_eq!(
        halves(0u8, 0, 255, 0),
        "(Bounds { x: 0, y: 0, w: 127, h: 0 }, Bounds { x: 127, y: 0, w: 128, h: 0 })"
    );
    assert_eq!(
        halves(i64::MIN, 0, i64::MAX, 0),
        format!(
            "(Bounds {{ x: {}, y: 0, w: {}, h: 0 }}, Bounds {{ x: {}, y: 0, w: {}, h: 0 }})",
            i64::MIN,
            i64::MAX / 2,
            i64::MIN + i64::MAX / 2,
            i64::MAX / 2 + 1
        )
    );
}

#[test]
fn a_box_that_hits_a_region_hits_one_of_its_halves() {
    let whole = Bounds::new(0, 0, 9, 9);
    let (a, b) = whole.split();
    for x in -3..12 {
        for y in -3..12 {
            for (w, h) in [(0, 0), (1, 0), (0, 1), (2, 3)] {
                let q = Bounds::new(x, y, w, h);
                assert_eq!(whole.hits(&q), a.hits(&q) || b.hits(&q));
            }
        }
    }
}

#[test]
fn every_integer_type_is_a_coordinate_type() {
    assert_eq!(9i8.half(), 4);
    assert_eq!((-9i8).half(), -4);
    assert_eq!(9i16.half(), 4);
    assert_eq!(9i32.half(), 4);
    assert_eq!((-9i64).half(), -4);
    assert_eq!(i128::MAX.half(), i128::MAX / 2);
    assert_eq!(i128::MIN.half(), i128::MIN / 2);
    assert_eq!(9isize.half(), 4);
    assert_eq!(255u8.half(), 127);
    assert_eq!(9u16.half(), 4);
    assert_eq!(1u32.half(), 0);
    assert_eq!(0u64.half(), 0);
    assert_eq!(u128::MAX.half(), u128::MAX / 2);
    assert_eq!(9usize.half(), 4);
}

#[test]
fn coordinate_arithmetic_is_integer_arithmetic() {
    assert_eq!(100i8.plus(27), 127);
    assert_eq!((-100i8).minus(28), -128);
    assert_eq!(200u8.plus(55), 255);
    assert_eq!(200u8.minus(200), 0);
    assert_eq!(7i64.plus(-9), -2);
    assert_eq!(7i64.minus(-9), 16);
    assert!(3i32.gt(2));
    assert!(!3i32.gt(3));
    assert!(!(-3i32).gt(2));
    assert!(1u64.gt(0));
}

#[test]
fn qcast_keeps_the_number() {
    let a: u8 = qcast(200i32);
    assert_eq!(a, 200);
    let b: i8 = qcast(-5i64);
    assert_eq!(b, -5);
    let c: i128 = qcast(u64::MAX);
    assert_eq!(c, 18446744073709551615);
    let d: usize = qcast(2i32);
    assert_eq!(d, 2);
    let e: i64 = qcast(i64::MIN);
    assert_eq!(e, i64::MIN);
}

#[test]
fn id_bound_gives_back_its_parts() {
    let e = IdBound::new(7usize, Bounds::<i32>::new(1, 2, 3, 4));
    assert_eq!(e.id(), 7);
    assert_eq!(format!("{:?}", e.bounds()), "Bounds { x: 1, y: 2, w: 3, h: 4 }");
    assert!(e.bounds().hits(&Bounds::new(4, 6, 1, 1)));
    assert!(!e.bounds().hits(&Bounds::new(5, 6, 1, 1)));
    let f = e.clone();
    assert_eq!(f.id(), 7);
    assert_eq!(format!("{:?}", f), format!("{:?}", e));
}

#[test]
fn bounds_clone_is_the_same_box() {
    let a = Bounds::new(1u16, 2, 3, 4);
    assert_eq!(format!("{:?}", a.clone()), "Bounds { x: 1, y: 2, w: 3, h: 4 }");
}
