use charge_overview::double::Double;
use charge_overview::messages::DeviceType;
use charge_overview::sweep::{compute_windows, mean_peak_index, MeanIndex, WindowDefaults};

fn waveforms(list: &[Vec<f64>]) -> Vec<Vec<Double>> {
    list.iter()
        .map(|w| w.iter().map(|v| Double::from_bits(v.to_bits())).collect())
        .collect()
}

fn mean(list: &[Vec<f64>], find_max: bool) -> Option<f64> {
    mean_peak_index(&waveforms(list), find_max).map(|m| m.sum as f64 / m.count as f64)
}

fn at(index: u128) -> MeanIndex {
    MeanIndex { sum: index, count: 1 }
}

#[test]
fn mean_peak_index_argmax() {
    let list = vec![vec![0.0, 5.0, 2.0], vec![1.0, 1.0, 9.0]];
    assert_eq!(mean(&list, true), Some(1.5));
}

#[test]
fn mean_peak_index_argmin() {
    let list = vec![vec![0.0, 5.0, 2.0], vec![3.0, -1.0, 2.0]];
    assert_eq!(mean(&list, false), Some(0.5));
}

#[test]
fn mean_peak_index_skips_empty_and_handles_none() {
    let empty: Vec<Vec<f64>> = vec![vec![]];
    assert_eq!(mean(&empty, true), None);
    assert_eq!(mean(&[], true), None);
    let mixed = vec![vec![], vec![7.0, 1.0]];
    assert_eq!(mean(&mixed, true), Some(0.0));
}

#[test]
fn first_of_equal_peaks_counts() {
    assert_eq!(mean(&[vec![1.0, 4.0, 4.0]], true), Some(1.0));
    assert_eq!(mean(&[vec![2.0, 0.0, 0.0]], false), Some(1.0));
    // Nothing beats what is no number.
    assert_eq!(mean(&[vec![f64::NAN, 4.0, 5.0]], true), Some(0.0));
    assert_eq!(mean(&[vec![1.0, f64::NAN, 5.0]], true), Some(2.0));
}

#[test]
fn compute_windows_wcm_sets_peak_and_base() {
    let d = WindowDefaults { peak_low: 1035, peak_high: 1037, base_low: 1025, base_high: 1027 };
    let windows = compute_windows(at(1040), DeviceType::Wcm, &d);
    assert_eq!(
        windows,
        vec![
            ("peak_low", 1039),
            ("peak_high", 1041),
            ("base_low", 1029),
            ("base_high", 1029),
        ]
    );
}

#[test]
fn compute_windows_fcup_peak_only() {
    let d = WindowDefaults { peak_low: 1040, peak_high: 1046, base_low: 200, base_high: 800 };
    let windows = compute_windows(at(1000), DeviceType::Fcup, &d);
    assert_eq!(windows, vec![("peak_low", 997), ("peak_high", 1003)]);
}

#[test]
fn window_bounds_are_rounded_towards_zero() {
    let d = WindowDefaults { peak_low: 0, peak_high: 5, base_low: 0, base_high: 0 };
    // The peak is at 0.5, and half the width is 2.
    let windows = compute_windows(MeanIndex { sum: 1, count: 2 }, DeviceType::Fcup, &d);
    assert_eq!(windows, vec![("peak_low", -1), ("peak_high", 2)]);
    let windows = compute_windows(MeanIndex { sum: 315, count: 2 }, DeviceType::Dq, &d);
    assert_eq!(windows, vec![("peak_low", 155), ("peak_high", 159)]);
    let reversed = WindowDefaults { peak_low: 5, peak_high: 0, base_low: 0, base_high: 0 };
    let windows = compute_windows(at(10), DeviceType::Fcup, &reversed);
    assert_eq!(windows, vec![("peak_low", 12), ("peak_high", 8)]);
}

#[test]
fn swept_window_lies_around_the_peak() {
    let d = WindowDefaults { peak_low: 100, peak_high: 110, base_low: 0, base_high: 0 };
    let windows = compute_windows(MeanIndex { sum: 2 * 500 + 1, count: 2 }, DeviceType::Fcup, &d);
    assert_eq!(windows, vec![("peak_low", 495), ("peak_high", 505)]);
}

#[test]
fn window_bounds_stay_in_range() {
    let d = WindowDefaults {
        peak_low: i64::MIN,
        peak_high: i64::MAX,
        base_low: i64::MAX,
        base_high: i64::MIN,
    };
    let windows = compute_windows(at(5), DeviceType::Wcm, &d);
    assert_eq!(windows[0].1, -9223372036854775802);
    assert_eq!(windows[1].1, i64::MAX);
}
