use charge_overview::buffer::RollingBuffer;
use charge_overview::chart::PointBuffer;
use charge_overview::config::{DefaultValue, DeviceConfig};
use charge_overview::double::Double;
use charge_overview::messages::{DeviceType, NotificationLevel, Point, ServerMessage};
use charge_overview::state::{DeviceState, EpicsUpdate, InnerState};
use charge_overview::table::Table;
use charge_overview::ws::{
    build_chart_snapshot, greeting, notification, ChartBroadcaster, RateLimiter,
};

fn d(v: f64) -> Double {
    Double::from_bits(v.to_bits())
}

fn device(name: &str) -> DeviceState {
    let mut defaults = Table::new();
    defaults.insert("corrA".to_string(), DefaultValue::Array(vec![d(0.1), d(0.2)]));
    defaults.insert("width".to_string(), DefaultValue::Scalar(d(7.0)));
    DeviceState {
        config: DeviceConfig {
            device_type: DeviceType::Fcup,
            digitizer: String::new(),
            ip: String::new(),
            sensitivities: vec![0, 4],
            saturation_charges: vec![d(10.0), d(20.0)],
            pvs: Table::new(),
            defaults,
        },
        name: name.to_string(),
        buffer: RollingBuffer::new(3),
        current_sensitivity: 1,
        connected: true,
        fe_alive: true,
        last_data_time: d(9.0),
        peak_misaligned: true,
        calibration_mismatch: true,
    }
}

fn push(state: &mut InnerState, index: usize, v: f64) {
    state.apply_update(EpicsUpdate { device_index: index, timestamp: d(v), value: d(v) });
}

fn p(v: f64) -> Point {
    Point { timestamp: d(v), value: d(v) }
}

#[test]
fn clients_are_greeted_with_state_and_buffers() {
    let mut state = InnerState::new(
        vec![device("a"), device("b")],
        3,
        vec!["b".to_string(), "a".to_string()],
    );
    state.reset_running = true;
    state.reset_progress = Some((42, 65));
    state.auto_gain = true;
    for v in [1.0, 2.0, 3.0, 4.0] {
        push(&mut state, 1, v);
    }
    let (init, charts) = greeting(&state);
    match init {
        ServerMessage::Init { devices, buffer_size, device_order, reset_progress, auto_gain } => {
            assert_eq!(devices.len(), 2);
            let b = &devices[1];
            assert_eq!(b.name, "b");
            assert_eq!(b.device_type, DeviceType::Fcup);
            assert_eq!(b.current_sensitivity, 1);
            assert_eq!(b.sensitivities, vec![0, 4]);
            assert_eq!(b.stats.max, d(4.0));
            assert!(b.connected && b.fe_alive && b.peak_misaligned && b.calibration_mismatch);
            assert_eq!(b.last_data_time, d(4.0));
            assert_eq!(b.defaults.len(), 2);
            assert_eq!(b.defaults.get("corrA"), Some(&d(0.2)));
            assert_eq!(b.defaults.get("width"), Some(&d(7.0)));
            assert_eq!(b.saturation_charges, vec![d(10.0), d(20.0)]);
            assert_eq!(buffer_size, 3);
            assert_eq!(device_order, vec!["b", "a"]);
            assert_eq!(reset_progress, Some((42, 65)));
            assert!(auto_gain);
        }
        other => panic!("expected the state, got {other:?}"),
    }
    match charts {
        ServerMessage::ChartData { snapshots } => {
            assert_eq!(snapshots.len(), 2);
            assert_eq!(snapshots[0].points, vec![]);
            assert_eq!(snapshots[1].device, 1);
            assert_eq!(snapshots[1].points, vec![p(2.0), p(3.0), p(4.0)]);
            assert_eq!(snapshots[1].cursor, 4);
            assert_eq!(snapshots[1].stats.min, d(2.0));
        }
        other => panic!("expected the buffers, got {other:?}"),
    }
}

#[test]
fn ticks_tell_only_what_is_new() {
    let mut state = InnerState::new(vec![device("a"), device("b")], 3, vec![]);
    let mut caster = ChartBroadcaster::new();
    assert!(caster.tick(&state, true).is_none());
    push(&mut state, 1, 1.0);
    push(&mut state, 1, 2.0);
    match caster.tick(&state, true) {
        Some(ServerMessage::ChartDelta { updates }) => {
            assert_eq!(updates.len(), 1);
            assert_eq!(updates[0].device, 1);
            assert_eq!(updates[0].new_points, vec![p(1.0), p(2.0)]);
            assert_eq!(updates[0].cursor, 2);
        }
        other => panic!("expected a delta, got {other:?}"),
    }
    assert!(caster.tick(&state, true).is_none());
    // Nobody listens, but the count goes on.
    push(&mut state, 0, 5.0);
    assert!(caster.tick(&state, false).is_none());
    assert!(caster.tick(&state, true).is_none());
    for v in [3.0, 4.0, 5.0, 6.0, 7.0] {
        push(&mut state, 1, v);
    }
    match caster.tick(&state, true) {
        Some(ServerMessage::ChartDelta { updates }) => {
            assert_eq!(updates.len(), 1);
            assert_eq!(updates[0].new_points, vec![p(5.0), p(6.0), p(7.0)]);
            assert_eq!(updates[0].cursor, 7);
        }
        other => panic!("expected a delta, got {other:?}"),
    }
}

#[test]
fn client_buffers_follow_the_server() {
    let mut state = InnerState::new(vec![device("a")], 3, vec![]);
    let mut caster = ChartBroadcaster::new();
    let mut copy = PointBuffer::new();
    let mut v = 0.0;
    push(&mut state, 0, v);
    caster.tick(&state, false);
    // Readings come between the last tick and the snapshot, and after it.
    push(&mut state, 0, 0.5);
    if let ServerMessage::ChartData { mut snapshots } = build_chart_snapshot(&state) {
        let s = snapshots.remove(0);
        copy.set_snapshot(s.points, s.cursor, 3);
    }
    for burst in [1, 0, 2, 7, 1, 3] {
        for _ in 0..burst {
            v += 1.0;
            push(&mut state, 0, v);
        }
        if let Some(ServerMessage::ChartDelta { mut updates }) = caster.tick(&state, true) {
            let u = updates.remove(0);
            copy.apply_delta(u.new_points, u.cursor, 3);
        }
        let held: Vec<Point> = copy.points().iter().copied().collect();
        assert_eq!(held, state.devices[0].buffer.as_points());
    }
}

#[test]
fn ten_commands_pass_in_a_second() {
    let mut limiter = RateLimiter::new();
    let second = 1_000_000_000u64;
    for i in 0..10 {
        assert!(limiter.allow(i));
    }
    assert!(!limiter.allow(10));
    assert!(!limiter.allow(second - 1));
    assert!(limiter.allow(second));
    assert!(!limiter.allow(second));
    assert!(limiter.allow(second + 1));
    // Of any eleven that pass, the last comes a second after the first.
    let mut limiter = RateLimiter::new();
    let mut passed: Vec<u64> = Vec::new();
    let mut now = 0u64;
    for i in 0..2000u64 {
        now += (i * 7919) % 130_000_000;
        if limiter.allow(now) {
            passed.push(now);
        }
    }
    assert!(passed.len() > 100);
    for i in 10..passed.len() {
        assert!(passed[i] - passed[i - 10] >= second);
    }
}

#[test]
fn notifications_carry_their_time() {
    let msg = notification(
        NotificationLevel::Error,
        "test error".to_string(),
        Some("DEV".to_string()),
        d(1000.0),
    );
    match msg {
        ServerMessage::Notify(n) => {
            assert_eq!(n.level, NotificationLevel::Error);
            assert_eq!(n.message, "test error");
            assert_eq!(n.device.as_deref(), Some("DEV"));
            assert_eq!(n.timestamp, d(1000.0));
        }
        other => panic!("expected a notification, got {other:?}"),
    }
}
