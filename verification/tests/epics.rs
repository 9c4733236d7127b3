use charge_overview::double::Double;
use charge_overview::epics::{
    extract_f64, extract_f64_array, first_delay_ms, next_delay, waveforms_late, write_result,
    DbrValue, WaveformCollector, WriteOutcome,
};

fn d(v: f64) -> Double {
    Double::from_bits(v.to_bits())
}

fn one(value: DbrValue) -> Option<f64> {
    extract_f64(&value).map(|v| f64::from_bits(v.to_bits()))
}

fn all(value: DbrValue) -> Option<Vec<f64>> {
    extract_f64_array(&value).map(|v| v.iter().map(|x| f64::from_bits(x.to_bits())).collect())
}

#[test]
fn extract_f64_reads_first_scalar_of_each_numeric_variant() {
    assert_eq!(one(DbrValue::Double(vec![d(1.5), d(2.5)])), Some(1.5));
    assert_eq!(one(DbrValue::Float(vec![d(3.0)])), Some(3.0));
    assert_eq!(one(DbrValue::Long(vec![-7])), Some(-7.0));
    assert_eq!(one(DbrValue::Int(vec![42])), Some(42.0));
    assert_eq!(one(DbrValue::Char(vec![5])), Some(5.0));
    assert_eq!(one(DbrValue::Enum(9)), Some(9.0));
}

#[test]
fn extract_f64_none_for_empty_or_string() {
    assert_eq!(one(DbrValue::Double(vec![])), None);
    assert_eq!(one(DbrValue::String(vec!["x".into()])), None);
}

#[test]
fn extract_f64_array_collects_full_waveform() {
    assert_eq!(
        all(DbrValue::Double(vec![d(1.0), d(2.0), d(3.0)])),
        Some(vec![1.0, 2.0, 3.0])
    );
    assert_eq!(all(DbrValue::Int(vec![1, 2])), Some(vec![1.0, 2.0]));
    assert_eq!(all(DbrValue::Enum(4)), Some(vec![4.0]));
    assert_eq!(all(DbrValue::String(vec![])), None);
}

#[test]
fn collector_takes_waveforms_until_there_are_enough() {
    let mut c = WaveformCollector::new(2);
    assert!(!c.is_done());
    c.take(&DbrValue::Double(vec![d(1.0), d(2.0)]));
    c.take(&DbrValue::String(vec!["noise".to_string()]));
    assert!(!c.is_done());
    c.take(&DbrValue::Int(vec![3]));
    assert!(c.is_done());
    assert_eq!(c.finish(), vec![vec![d(1.0), d(2.0)], vec![d(3.0)]]);
}

#[test]
fn first_connections_are_staggered() {
    assert_eq!(first_delay_ms(0), 0);
    assert_eq!(first_delay_ms(3), 600);
    assert_eq!(first_delay_ms(5), 0);
    assert_eq!(first_delay_ms(7), 400);
}

#[test]
fn retries_back_off_to_a_minute() {
    let mut delay = 2;
    let mut seen = vec![];
    for _ in 0..7 {
        seen.push(delay);
        delay = next_delay(delay);
    }
    assert_eq!(seen, vec![2, 4, 8, 16, 32, 60, 60]);
}

#[test]
fn failed_writes_give_up_the_connection() {
    assert_eq!(write_result("PV", WriteOutcome::Written), (Ok(()), false));
    assert_eq!(
        write_result("PV", WriteOutcome::NoClient),
        (Err("timeout creating CA client to write PV".to_string()), true)
    );
    assert_eq!(
        write_result("PV", WriteOutcome::ClientFailed("no port".to_string())),
        (Err("no port".to_string()), true)
    );
    assert_eq!(
        write_result("PV", WriteOutcome::Failed("gone".to_string())),
        (Err("failed to write PV: gone".to_string()), true)
    );
    assert_eq!(
        write_result("PV", WriteOutcome::TimedOut),
        (Err("timeout writing PV".to_string()), true)
    );
    assert_eq!(waveforms_late(100, "DIG-READ"), "timed out collecting 100 waveforms from DIG-READ");
}
