use bones3::coords::world_point;
use bones3::coords::Point;
use bones3::region::Region;

#[test]
fn chunk_of_negative_world_floors_toward_negative_infinity() {
    let w = Point::new(-1, -1, -1);
    assert_eq!(w.chunk_coord(), Point::new(-1, -1, -1));
    assert_eq!(w.local_coord(), Point::new(15, 15, 15));
}

#[test]
fn chunk_and_local_of_origin() {
    let w = Point::new(0, 0, 0);
    assert_eq!(w.chunk_coord(), Point::new(0, 0, 0));
    assert_eq!(w.local_coord(), Point::new(0, 0, 0));
}

#[test]
fn chunk_and_local_of_mixed_coordinates() {
    let w = Point::new(17, -17, 31);
    assert_eq!(w.chunk_coord(), Point::new(1, -2, 1));
    assert_eq!(w.local_coord(), Point::new(1, 15, 15));
}

#[test]
fn coordinate_round_trip() {
    for &(x, y, z) in &[
        (0, 0, 0),
        (-1, -1, -1),
        (15, 16, 17),
        (-16, -17, -33),
        (123456, -654321, 42),
    ] {
        let w = Point::new(x, y, z);
        let back = world_point(w.chunk_coord(), w.local_coord());
        assert_eq!(back, w);
        let l = w.local_coord();
        assert!(0 <= l.x && l.x < 16);
        assert!(0 <= l.y && l.y < 16);
        assert!(0 <= l.z && l.z < 16);
    }
}

#[test]
fn chunk_region_yields_4096_unique_in_bounds_coordinates() {
    let r = Region::new(Point::new(0, 0, 0), Point::new(15, 15, 15));
    assert_eq!(r.count(), 4096);
    let pts = r.points();
    assert_eq!(pts.len(), 4096);
    let mut seen: Vec<(i32, i32, i32)> = pts.iter().map(|p| (p.x, p.y, p.z)).collect();
    for p in &pts {
        assert!(r.contains(*p));
    }
    seen.sort();
    seen.dedup();
    assert_eq!(seen.len(), 4096);
}

#[test]
fn region_iterates_x_fastest_then_y_then_z() {
    let r = Region::new(Point::new(0, 0, 0), Point::new(1, 1, 1));
    let pts = r.points();
    let expected = vec![
        (0, 0, 0),
        (1, 0, 0),
        (0, 1, 0),
        (1, 1, 0),
        (0, 0, 1),
        (1, 0, 1),
        (0, 1, 1),
        (1, 1, 1),
    ];
    let got: Vec<(i32, i32, i32)> = pts.iter().map(|p| (p.x, p.y, p.z)).collect();
    assert_eq!(got, expected);
}

#[test]
fn empty_region_iterates_nothing() {
    let r = Region::new(Point::new(3, 0, 0), Point::new(2, 9, 9));
    assert!(r.empty());
    assert_eq!(r.count(), 0);
    assert_eq!(r.points().len(), 0);
}

#[test]
fn region_contains_and_shift() {
    let r = Region::new(Point::new(-2, -2, -2), Point::new(2, 2, 2));
    assert!(r.contains(Point::new(0, 0, 0)));
    assert!(r.contains(Point::new(-2, 2, -2)));
    assert!(!r.contains(Point::new(3, 0, 0)));
    let s = r.shift(Point::new(10, 0, -1));
    assert_eq!(s.min, Point::new(8, -2, -3));
    assert_eq!(s.max, Point::new(12, 2, 1));
    assert!(s.contains(Point::new(10, 0, -1)));
    assert!(!s.contains(Point::new(0, 0, 0)));
}

#[test]
fn region_intersection() {
    let a = Region::new(Point::new(0, 0, 0), Point::new(10, 10, 10));
    let b = Region::new(Point::new(5, 5, 5), Point::new(20, 20, 20));
    let i = a.intersect(&b);
    assert_eq!(i.min, Point::new(5, 5, 5));
    assert_eq!(i.max, Point::new(10, 10, 10));
    let c = Region::new(Point::new(50, 50, 50), Point::new(60, 60, 60));
    let d = a.intersect(&c);
    assert!(d.empty());
    assert_eq!(d.count(), 0);
}
