use charge_overview::chart::PointBuffer;
use charge_overview::double::Double;
use charge_overview::messages::Point;

fn d(v: f64) -> Double {
    Double::from_bits(v.to_bits())
}

fn pt(v: f64) -> Point {
    Point { timestamp: d(v), value: d(v * 10.0) }
}

fn held(b: &PointBuffer) -> Vec<Point> {
    b.points().iter().copied().collect()
}

#[test]
fn snapshot_then_contiguous_deltas() {
    let mut b = PointBuffer::new();
    b.set_snapshot(vec![pt(1.0), pt(2.0)], 2, 100);
    assert_eq!(b.cursor(), 2);
    b.apply_delta(vec![pt(3.0)], 3, 100);
    b.apply_delta(vec![pt(4.0)], 4, 100);
    assert_eq!(b.cursor(), 4);
    assert_eq!(held(&b), vec![pt(1.0), pt(2.0), pt(3.0), pt(4.0)]);
}

#[test]
fn straddling_delta_is_deduplicated() {
    let mut b = PointBuffer::new();
    b.set_snapshot(vec![pt(3.0), pt(4.0), pt(5.0)], 5, 100);
    b.apply_delta(vec![pt(4.0), pt(5.0), pt(6.0)], 6, 100);
    assert_eq!(held(&b), vec![pt(3.0), pt(4.0), pt(5.0), pt(6.0)]);
    assert_eq!(b.cursor(), 6);
}

#[test]
fn fully_old_delta_ignored() {
    let mut b = PointBuffer::new();
    b.set_snapshot(vec![pt(1.0), pt(2.0), pt(3.0)], 3, 100);
    b.apply_delta(vec![pt(2.0)], 2, 100);
    assert_eq!(held(&b), vec![pt(1.0), pt(2.0), pt(3.0)]);
    assert_eq!(b.cursor(), 3);
}

#[test]
fn appends_respect_capacity() {
    let mut b = PointBuffer::new();
    b.set_snapshot(vec![pt(1.0), pt(2.0), pt(3.0)], 3, 3);
    b.apply_delta(vec![pt(4.0)], 4, 3);
    assert_eq!(held(&b), vec![pt(2.0), pt(3.0), pt(4.0)]);
}

#[test]
fn gap_delta_appends_without_panicking() {
    let mut b = PointBuffer::new();
    b.set_snapshot(vec![pt(1.0), pt(2.0)], 2, 100);
    b.apply_delta(vec![pt(6.0)], 6, 100);
    assert_eq!(held(&b), vec![pt(1.0), pt(2.0), pt(6.0)]);
    assert_eq!(b.cursor(), 6);
}

#[test]
fn set_capacity_trims_oldest() {
    let mut b = PointBuffer::new();
    b.set_snapshot(vec![pt(1.0), pt(2.0), pt(3.0), pt(4.0)], 4, 100);
    b.set_capacity(2);
    assert_eq!(held(&b), vec![pt(3.0), pt(4.0)]);
}

#[test]
fn delta_longer_than_the_buffer_fills_it() {
    let mut b = PointBuffer::new();
    b.set_snapshot(vec![pt(1.0)], 1, 3);
    // The server pushed 2 to 9; it can only send the three it still holds.
    b.apply_delta(vec![pt(7.0), pt(8.0), pt(9.0)], 9, 3);
    assert_eq!(held(&b), vec![pt(7.0), pt(8.0), pt(9.0)]);
    assert_eq!(b.cursor(), 9);
}

#[test]
fn delta_applied_twice_counts_once() {
    let mut b = PointBuffer::new();
    b.set_snapshot(vec![pt(1.0)], 1, 10);
    b.apply_delta(vec![pt(2.0), pt(3.0)], 3, 10);
    b.apply_delta(vec![pt(2.0), pt(3.0)], 3, 10);
    assert_eq!(held(&b), vec![pt(1.0), pt(2.0), pt(3.0)]);
}

#[test]
fn zero_capacity_keeps_the_newest_reading() {
    let mut b = PointBuffer::new();
    b.apply_delta(vec![pt(1.0), pt(2.0)], 2, 0);
    assert_eq!(held(&b), vec![pt(2.0)]);
    b.set_snapshot(vec![pt(5.0)], 5, 0);
    assert_eq!(held(&b), vec![]);
}

#[test]
fn snapshot_longer_than_the_buffer_is_cut() {
    let mut b = PointBuffer::new();
    b.set_snapshot(vec![pt(1.0), pt(2.0), pt(3.0)], 3, 2);
    assert_eq!(held(&b), vec![pt(2.0), pt(3.0)]);
}
