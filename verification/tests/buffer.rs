use charge_overview::buffer::{Moments, RollingBuffer};
use charge_overview::chart::PointBuffer;
use charge_overview::double::Double;
use charge_overview::messages::{Point, Stats};

fn d(v: f64) -> Double {
    Double::from_bits(v.to_bits())
}

fn f(v: Double) -> f64 {
    f64::from_bits(v.to_bits())
}

fn p(t: f64, v: f64) -> Point {
    Point { timestamp: d(t), value: d(v) }
}

/// A buffer together with the running sums of its values.
struct Summed {
    buffer: RollingBuffer,
    sum: f64,
    sum_sq: f64,
    n: usize,
}

impl Summed {
    fn new(capacity: usize) -> Summed {
        Summed { buffer: RollingBuffer::new(capacity), sum: 0.0, sum_sq: 0.0, n: 0 }
    }

    fn push(&mut self, t: f64, v: f64) {
        if let Some(gone) = self.buffer.push(d(t), d(v)) {
            self.sum -= f(gone.value);
            self.sum_sq -= f(gone.value) * f(gone.value);
            self.n -= 1;
        }
        self.sum += v;
        self.sum_sq += v * v;
        self.n += 1;
        let n = self.n as f64;
        let mean = self.sum / n;
        let rmsd = (self.sum_sq / n - mean * mean).max(0.0).sqrt();
        self.buffer.set_moments(Moments { mean: d(mean), rmsd: d(rmsd) });
    }

    fn clear(&mut self) {
        self.buffer.clear();
        self.sum = 0.0;
        self.sum_sq = 0.0;
        self.n = 0;
    }

    fn mean_of_last(&self, n: usize) -> Option<f64> {
        let points = self.buffer.last_points(n);
        if points.is_empty() {
            return None;
        }
        Some(points.iter().map(|p| f(p.value)).sum::<f64>() / points.len() as f64)
    }
}

fn brute_stats(points: &[Point]) -> (f64, f64, f64, f64) {
    if points.is_empty() {
        return (0.0, 0.0, 0.0, 0.0);
    }
    let n = points.len() as f64;
    let sum: f64 = points.iter().map(|p| f(p.value)).sum();
    let sum_sq: f64 = points.iter().map(|p| f(p.value) * f(p.value)).sum();
    let mean = sum / n;
    (
        mean,
        points.iter().map(|p| f(p.value)).fold(f64::INFINITY, f64::min),
        points.iter().map(|p| f(p.value)).fold(f64::NEG_INFINITY, f64::max),
        ((sum_sq / n) - mean * mean).max(0.0).sqrt(),
    )
}

#[test]
fn incremental_stats_match_brute_force_through_eviction() {
    let mut buf = Summed::new(3);
    let seq = [1.0, 100.0, 50.0, 2.0, 3.0, 100.0, 4.0];
    for (i, v) in seq.iter().enumerate() {
        buf.push(i as f64, *v);
        let got = buf.buffer.statistics();
        let (mean, min, max, rmsd) = brute_stats(&buf.buffer.as_points());
        assert!((f(got.mean) - mean).abs() < 1e-9, "mean at step {i}");
        assert!((f(got.min) - min).abs() < 1e-9, "min at step {i}");
        assert!((f(got.max) - max).abs() < 1e-9, "max at step {i}");
        assert!((f(got.rmsd) - rmsd).abs() < 1e-9, "rmsd at step {i}");
    }
}

#[test]
fn last_points_returns_newest_suffix() {
    let mut buf = RollingBuffer::new(10);
    for i in 0..5 {
        buf.push(d(i as f64), d((i * 10) as f64));
    }
    assert_eq!(buf.last_points(2), vec![p(3.0, 30.0), p(4.0, 40.0)]);
    assert_eq!(buf.last_points(99).len(), 5);
}

#[test]
fn clear_resets_running_stats() {
    let mut buf = Summed::new(10);
    for i in 0..5 {
        buf.push(i as f64, i as f64);
    }
    buf.clear();
    assert_eq!(f(buf.buffer.statistics().mean), 0.0);
    buf.push(0.0, 7.0);
    assert_eq!(f(buf.buffer.statistics().mean), 7.0);
    assert_eq!(f(buf.buffer.statistics().max), 7.0);
    // Readings that were dropped still count.
    assert_eq!(buf.buffer.total_pushed(), 6);
}

#[test]
fn rolling_buffer_push_and_capacity() {
    let mut buf = RollingBuffer::new(3);
    assert_eq!(buf.push(d(1.0), d(10.0)), None);
    buf.push(d(2.0), d(20.0));
    buf.push(d(3.0), d(30.0));
    assert_eq!(buf.as_points().len(), 3);

    assert_eq!(buf.push(d(4.0), d(40.0)), Some(p(1.0, 10.0)));
    assert_eq!(buf.as_points().len(), 3);
    let points = buf.as_points();
    assert_eq!(points[0], p(2.0, 20.0));
    assert_eq!(points[2], p(4.0, 40.0));
}

#[test]
fn rolling_buffer_set_capacity() {
    let mut buf = RollingBuffer::new(5);
    for i in 0..5 {
        buf.push(d(i as f64), d(i as f64 * 10.0));
    }
    assert_eq!(buf.as_points().len(), 5);

    let gone = buf.set_capacity(2);
    assert_eq!(gone, vec![p(0.0, 0.0), p(1.0, 10.0), p(2.0, 20.0)]);
    assert_eq!(buf.as_points().len(), 2);
    let points = buf.as_points();
    assert_eq!(points[0], p(3.0, 30.0));
    assert_eq!(points[1], p(4.0, 40.0));
    assert_eq!(f(buf.statistics().min), 30.0);
}

#[test]
fn rolling_buffer_mean_of_last_and_total_pushed() {
    let mut buf = Summed::new(100);
    assert_eq!(buf.mean_of_last(10), None);
    for i in 1..=10 {
        buf.push(i as f64, (i * 10) as f64);
    }
    assert_eq!(buf.buffer.total_pushed(), 10);
    assert!((buf.mean_of_last(3).unwrap() - 90.0).abs() < 1e-10);
    assert!((buf.mean_of_last(1000).unwrap() - 55.0).abs() < 1e-10);
}

#[test]
fn rolling_buffer_total_pushed_counts_beyond_capacity() {
    let mut buf = RollingBuffer::new(3);
    for i in 0..10 {
        buf.push(d(i as f64), d(i as f64));
    }
    assert_eq!(buf.as_points().len(), 3);
    assert_eq!(buf.total_pushed(), 10);
}

#[test]
fn rolling_buffer_statistics_empty() {
    let buf = RollingBuffer::new(10);
    let stats = buf.statistics();
    assert_eq!(f(stats.mean), 0.0);
    assert_eq!(f(stats.min), 0.0);
    assert_eq!(f(stats.max), 0.0);
    assert_eq!(f(stats.rmsd), 0.0);
    assert_eq!(stats, Stats::default());
}

#[test]
fn rolling_buffer_statistics_values() {
    let mut buf = Summed::new(100);
    buf.push(1.0, 10.0);
    buf.push(2.0, 20.0);
    buf.push(3.0, 30.0);
    let stats = buf.buffer.statistics();
    assert!((f(stats.mean) - 20.0).abs() < 1e-10);
    assert!((f(stats.min) - 10.0).abs() < 1e-10);
    assert!((f(stats.max) - 30.0).abs() < 1e-10);
    assert!((f(stats.rmsd) - (200.0_f64 / 3.0).sqrt()).abs() < 1e-6);
}

#[test]
fn rolling_buffer_statistics_constant() {
    let mut buf = Summed::new(100);
    for i in 0..50 {
        buf.push(i as f64, 42.0);
    }
    let stats = buf.buffer.statistics();
    assert!((f(stats.mean) - 42.0).abs() < 1e-10);
    assert!((f(stats.min) - 42.0).abs() < 1e-10);
    assert!((f(stats.max) - 42.0).abs() < 1e-10);
    assert!(f(stats.rmsd) < 1e-10);
}

#[test]
fn extrema_pass_over_what_is_no_number() {
    let mut buf = RollingBuffer::new(3);
    buf.push(d(0.0), d(f64::NAN));
    assert_eq!(f(buf.statistics().min), f64::INFINITY);
    assert_eq!(f(buf.statistics().max), f64::NEG_INFINITY);
    buf.push(d(1.0), d(-2.5));
    buf.push(d(2.0), d(f64::NAN));
    assert_eq!(f(buf.statistics().min), -2.5);
    assert_eq!(f(buf.statistics().max), -2.5);
    // The only number leaves.
    buf.push(d(3.0), d(f64::NAN));
    buf.push(d(4.0), d(f64::NAN));
    assert_eq!(f(buf.statistics().min), f64::INFINITY);
}

#[test]
fn buffer_without_capacity_holds_one_reading() {
    let mut buf = RollingBuffer::new(0);
    assert_eq!(buf.push(d(1.0), d(1.0)), None);
    assert_eq!(buf.push(d(2.0), d(2.0)), Some(p(1.0, 1.0)));
    assert_eq!(buf.as_points(), vec![p(2.0, 2.0)]);
    assert_eq!(f(buf.statistics().max), 2.0);
}

#[test]
fn newest_readings_are_kept_whatever_the_capacity() {
    let mut b = RollingBuffer::new(3);
    for i in 0..150 {
        b.push(d(i as f64), d(i as f64));
        assert_eq!(b.recent_points().len(), (i + 1).min(100));
    }
    assert_eq!(b.last_points(150).len(), 3);
    b.set_capacity(2);
    b.clear();
    let recent = b.recent_points();
    assert_eq!((recent[0], recent[99]), (p(50.0, 50.0), p(149.0, 149.0)));
}

#[test]
fn copies_follow_a_buffer_by_its_newest_readings() {
    for cap in [1, 3, 10] {
        for before in [0, 1, 7] {
            for k in [0, 1, 5, 20] {
                for more in [0, 2, 50] {
                    let mut b = RollingBuffer::new(cap);
                    for i in 0..before {
                        b.push(d(i as f64), d(i as f64));
                    }
                    let mut copy = PointBuffer::new();
                    copy.set_snapshot(b.as_points(), b.total_pushed(), cap);
                    for i in 0..k {
                        b.push(d(i as f64), d(100.0 + i as f64));
                    }
                    for _ in 0..2 {
                        copy.apply_delta(b.last_points(k + more), b.total_pushed(), cap);
                        let held: Vec<Point> = copy.points().iter().copied().collect();
                        assert_eq!(held, b.as_points());
                        assert_eq!(copy.cursor(), b.total_pushed());
                    }
                }
            }
        }
    }
}
