use anthea::rect::{between, Rect};

#[test]
fn test_is_westeast() {
    let r1 = Rect { x1: 15, x2: 18, y1: 20, y2: 23 };
    let r2 = Rect { x1: 20, x2: 30, y1: 20, y2: 30 };
    assert!(r1.is_west(&r2));
    assert!(!r2.is_west(&r1));
    assert!(r2.is_east(&r1));
    assert!(!r1.is_east(&r2));

    assert!(r1.is_lined_horizontal(&r2));
    assert!(r2.is_lined_horizontal(&r1));

    let r3 = Rect { x1: 10, x2: 13, y1: 22, y2: 26 };
    assert!(r1.is_lined_horizontal(&r3));
    assert!(r3.is_lined_horizontal(&r1));
}

#[test]
fn rect_new_spans_width_and_height() {
    let r = Rect::new(3, 4, 10, 5);
    assert_eq!(r, Rect { x1: 3, y1: 4, x2: 13, y2: 9 });
}

#[test]
fn rect_center_rounds_toward_zero() {
    assert_eq!(Rect { x1: 1, x2: 4, y1: 2, y2: 7 }.center(), (2, 4));
    assert_eq!(Rect { x1: -5, x2: 2, y1: -4, y2: -1 }.center(), (-1, -2));
}

#[test]
fn rect_intersect_is_symmetric_and_includes_borders() {
    let a = Rect { x1: 0, x2: 5, y1: 0, y2: 5 };
    let b = Rect { x1: 5, x2: 9, y1: 5, y2: 9 };
    let c = Rect { x1: 6, x2: 9, y1: 0, y2: 5 };
    assert!(a.intersect(&b));
    assert!(b.intersect(&a));
    assert!(!a.intersect(&c));
    assert!(!c.intersect(&a));
}

#[test]
fn west_and_east_exclude_each_other() {
    let a = Rect { x1: 0, x2: 3, y1: 0, y2: 3 };
    let b = Rect { x1: 5, x2: 8, y1: 1, y2: 4 };
    assert!(a.is_west(&b));
    assert!(!a.is_east(&b));
    assert!(!b.is_west(&a));
}

#[test]
fn between_is_inclusive() {
    assert!(between(3, (3, 5)));
    assert!(between(5, (3, 5)));
    assert!(!between(6, (3, 5)));
    assert!(!between(2, (3, 5)));
}

#[test]
fn west_of_a_taller_room_is_not_mirrored() {
    let a = Rect { x1: 0, x2: 1, y1: 2, y2: 3 };
    let b = Rect { x1: 5, x2: 6, y1: 0, y2: 10 };
    assert!(a.is_west(&b));
    assert!(!b.is_lined_horizontal(&a));
    assert!(!b.is_east(&a));
    let c = Rect { x1: 5, x2: 6, y1: 1, y2: 2 };
    assert!(a.is_west(&c) && c.is_lined_horizontal(&a) && c.is_east(&a));
}
