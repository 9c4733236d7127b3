use charge_overview::client::{
    controls_for, BufferState, ClientState, DisplayFilter, YAxisScale, YAxisState,
};
use charge_overview::double::Double;
use charge_overview::labels::{
    format_timestamp, hms, level_label, reset_label, restore_defaults_tooltip, ws_url,
};
use charge_overview::link::{Link, LinkAction};
use charge_overview::messages::{
    ChartSnapshot, ClientMessage, DeviceDelta, DeviceStatus, DeviceType, Notification,
    NotificationLevel, Point, ServerMessage, Stats,
};
use charge_overview::table::Table;

fn d(v: f64) -> Double {
    Double::from_bits(v.to_bits())
}

fn p(v: f64) -> Point {
    Point { timestamp: d(v), value: d(v) }
}

fn stats(mean: f64) -> Stats {
    Stats { mean: d(mean), min: d(0.0), max: d(0.0), rmsd: d(0.0) }
}

fn status(name: &str, device_type: DeviceType) -> DeviceStatus {
    DeviceStatus {
        name: name.to_string(),
        device_type,
        current_sensitivity: 0,
        sensitivities: vec![3, 4],
        stats: Stats::default(),
        connected: true,
        fe_alive: true,
        last_data_time: d(0.0),
        defaults: Table::new(),
        calibration_mismatch: false,
        peak_misaligned: false,
        saturation_charges: vec![d(10.0), d(20.0)],
    }
}

fn strings(list: &[&str]) -> Vec<String> {
    list.iter().map(|s| s.to_string()).collect()
}

fn init(names: &[(&str, DeviceType)], order: &[&str]) -> ServerMessage {
    ServerMessage::Init {
        devices: names.iter().map(|(n, t)| status(n, *t)).collect(),
        buffer_size: 3,
        device_order: strings(order),
        reset_progress: None,
        auto_gain: false,
    }
}

fn client() -> ClientState {
    let mut c = ClientState::new();
    c.apply(init(
        &[("cup", DeviceType::Fcup), ("wcm", DeviceType::Wcm), ("ict", DeviceType::Ict)],
        &["wcm", "cup", "ict"],
    ));
    c
}

fn held(c: &ClientState, i: usize) -> Vec<Point> {
    c.charts[i].buffer.points().iter().copied().collect()
}

fn notice(level: NotificationLevel, message: &str) -> ServerMessage {
    ServerMessage::Notify(Notification {
        level,
        message: message.to_string(),
        device: None,
        timestamp: d(0.0),
    })
}

#[test]
fn clients_start_with_nothing_typed() {
    let c = ClientState::new();
    assert_eq!((c.y_axis.min_str.as_str(), c.y_axis.max_str.as_str()), ("", ""));
}

#[test]
fn charts_follow_snapshots_and_deltas() {
    let mut c = client();
    assert_eq!(c.charts.len(), 3);
    assert_eq!(c.charts[1].name, "wcm");
    assert_eq!(c.buffer.size, 3);
    c.apply(ServerMessage::ChartData {
        snapshots: vec![
            ChartSnapshot { device: 1, points: vec![p(1.0), p(2.0)], stats: stats(1.5), cursor: 2 },
            ChartSnapshot { device: 9, points: vec![p(1.0)], stats: stats(0.0), cursor: 1 },
        ],
    });
    assert_eq!(held(&c, 1), vec![p(1.0), p(2.0)]);
    assert_eq!(c.charts[1].stats, stats(1.5));
    c.apply(ServerMessage::ChartDelta {
        updates: vec![DeviceDelta {
            device: 1,
            new_points: vec![p(2.0), p(3.0), p(4.0)],
            stats: stats(3.0),
            cursor: 4,
        }],
    });
    assert_eq!(held(&c, 1), vec![p(2.0), p(3.0), p(4.0)]);
    assert_eq!(c.charts[1].stats, stats(3.0));
    // A stale delta brings no statistics either.
    c.apply(ServerMessage::ChartDelta {
        updates: vec![DeviceDelta {
            device: 1,
            new_points: vec![p(3.0)],
            stats: stats(99.0),
            cursor: 3,
        }],
    });
    assert_eq!(c.charts[1].stats, stats(3.0));
    c.apply(ServerMessage::BufferSizeChanged { size: 2 });
    assert_eq!(held(&c, 1), vec![p(3.0), p(4.0)]);
    assert_eq!(c.buffer.input, "2");
}

#[test]
fn device_states_follow_the_server() {
    let mut c = client();
    c.apply(ServerMessage::StateUpdate {
        device: "wcm".to_string(),
        sensitivity: 1,
        calibration_mismatch: true,
    });
    assert_eq!(c.devices[1].current_sensitivity, 1);
    assert!(c.devices[1].calibration_mismatch);
    c.apply(ServerMessage::PeakAlignment { device: "cup".to_string(), misaligned: true });
    assert!(c.devices[0].peak_misaligned);
    c.apply(ServerMessage::PeakAlignment { device: "?".to_string(), misaligned: true });
    c.apply(ServerMessage::AutoGainChanged { enabled: true });
    assert!(c.auto_gain);
    c.apply(ServerMessage::ResetProgress { remaining_secs: 42, total_secs: 65 });
    assert_eq!(c.reset_progress, Some((42, 65)));
    c.apply(ServerMessage::ResetProgress { remaining_secs: 0, total_secs: 65 });
    assert_eq!(c.reset_progress, None);
}

#[test]
fn order_of_display_is_the_operators_own() {
    let mut c = client();
    assert_eq!(c.device_order, strings(&["wcm", "cup", "ict"]));
    c.device_order = strings(&["ict", "wcm", "cup"]);
    c.apply(ServerMessage::DeviceOrderChanged { order: strings(&["cup", "ict", "wcm"]) });
    assert_eq!(c.device_order, strings(&["ict", "wcm", "cup"]));
    // After a reconnect, a new device is at the end, and one that is gone is not there.
    c.apply(init(
        &[("cup", DeviceType::Fcup), ("wcm", DeviceType::Wcm), ("new", DeviceType::Dq)],
        &["new", "wcm", "cup"],
    ));
    assert_eq!(c.device_order, strings(&["wcm", "cup", "new"]));
}

#[test]
fn filters_select_charts() {
    let mut c = client();
    assert_eq!(c.visible_charts(), vec![1, 0, 2]);
    c.filter.show_fcup = false;
    assert_eq!(c.visible_charts(), vec![1, 2]);
    c.filter.set_visible("wcm", false);
    c.filter.set_visible("wcm", false);
    assert_eq!(c.visible_charts(), vec![2]);
    assert!(!c.filter.is_visible(&c.devices[1]));
    c.filter.set_visible("wcm", true);
    assert_eq!(c.visible_charts(), vec![1, 2]);
    c.device_order.push("nobody".to_string());
    assert_eq!(c.visible_charts(), vec![1, 2]);
    let all = DisplayFilter::default();
    for t in [DeviceType::Wcm, DeviceType::Dq, DeviceType::Fcup, DeviceType::Ict] {
        assert!(all.is_visible(&status("x", t)));
    }
}

#[test]
fn frozen_statistics_hold_while_charts_go_on() {
    let mut c = client();
    c.charts[1].stats = stats(5.0);
    assert_eq!(c.frozen("wcm"), None);
    c.toggle_freeze();
    c.apply(ServerMessage::ChartData {
        snapshots: vec![ChartSnapshot {
            device: 1,
            points: vec![p(8.0)],
            stats: stats(8.0),
            cursor: 8,
        }],
    });
    assert_eq!(c.frozen("wcm"), Some(stats(5.0)));
    assert_eq!(c.charts[1].stats, stats(8.0));
    assert_eq!(c.frozen("?"), None);
    c.toggle_freeze();
    assert_eq!(c.frozen("wcm"), None);
}

#[test]
fn saturation_is_judged_by_the_live_mean() {
    let mut c = client();
    c.charts[0].stats = stats(-10.5);
    assert!(c.is_saturating(0));
    c.devices[0].current_sensitivity = 1;
    assert!(!c.is_saturating(0));
    c.devices[0].current_sensitivity = 2;
    assert!(!c.is_saturating(0));
}

#[test]
fn errors_stay_and_others_fade() {
    let mut c = client();
    assert!(c.notices.bar(0).is_none());
    c.apply(notice(NotificationLevel::Info, "one"));
    assert_eq!(c.notices.bar(99).unwrap().message, "one");
    assert!(c.notices.bar(100).is_none());
    assert_eq!(c.notices.newest(0).unwrap().message, "one");
    for _ in 0..500 {
        c.next_frame();
    }
    assert_eq!(c.frame_count, 500);
    c.apply(notice(NotificationLevel::Error, "two"));
    assert_eq!(c.notices.bar(1_000_000).unwrap().message, "two");
    c.apply(notice(NotificationLevel::Success, "three"));
    assert_eq!(c.notices.bar(599).unwrap().message, "three");
    assert!(c.notices.bar(600).is_none());
    assert_eq!(c.notices.newest(1).unwrap().message, "two");
    assert!(c.notices.newest(3).is_none());
}

#[test]
fn two_hundred_notifications_are_kept() {
    let mut c = client();
    for i in 0..205 {
        c.apply(notice(NotificationLevel::Info, &format!("{i}")));
    }
    assert_eq!(c.notices.len(), 200);
    assert_eq!(c.notices.newest(0).unwrap().message, "204");
    assert_eq!(c.notices.newest(199).unwrap().message, "5");
}

#[test]
fn buffer_size_is_typed() {
    let mut b = BufferState::new(1000);
    assert_eq!(b.input, "1000");
    assert!(b.commit().is_none());
    b.input = "250".to_string();
    assert!(matches!(b.commit(), Some(ClientMessage::SetBufferSize { size: 250 })));
    assert_eq!(b.size, 250);
    b.input = "many".to_string();
    assert!(b.commit().is_none());
    assert_eq!(b.input, "250");
    b.input = "-5".to_string();
    assert!(b.commit().is_none());
    assert_eq!((b.size, b.input.as_str()), (250, "250"));
}

#[test]
fn manual_scale_needs_a_lower_and_an_upper_bound() {
    let mut y = YAxisState::default();
    assert_eq!(y.scale, YAxisScale::Auto);
    y.commit(Some(d(1.0)), Some(d(2.0)));
    assert_eq!(y.scale, YAxisScale::Auto);
    y.select_manual();
    assert_eq!(y.scale, YAxisScale::Manual { min: d(0.0), max: d(100.0) });
    assert_eq!((y.min_str.as_str(), y.max_str.as_str()), ("0", "100"));
    y.commit(Some(d(-5.0)), Some(d(5.0)));
    let chosen = YAxisScale::Manual { min: d(-5.0), max: d(5.0) };
    assert_eq!(y.scale, chosen);
    y.commit(Some(d(5.0)), Some(d(5.0)));
    y.commit(None, Some(d(50.0)));
    y.commit(Some(d(f64::NAN)), Some(d(50.0)));
    assert_eq!(y.scale, chosen);
    y.select_manual();
    assert_eq!(y.scale, chosen);
}

#[test]
fn controls_depend_on_the_kind_of_device() {
    let wcm = controls_for(&status("x", DeviceType::Wcm));
    assert!(wcm.front_end && wcm.sensitivities && wcm.zero && wcm.sweep);
    let cup = controls_for(&status("x", DeviceType::Fcup));
    assert!(cup.front_end && cup.sensitivities && !cup.zero && cup.sweep);
    let dq = controls_for(&status("x", DeviceType::Dq));
    assert!(dq.front_end && !dq.sensitivities && !dq.zero && !dq.sweep);
    let mut ict = status("x", DeviceType::Ict);
    ict.sensitivities.clear();
    let ict = controls_for(&ict);
    assert!(!ict.front_end && !ict.sensitivities && !ict.zero && !ict.sweep);
}

#[test]
fn times_are_shown_within_the_day() {
    assert_eq!(hms(d(0.0)), "00:00:00");
    assert_eq!(hms(d(3661.9)), "01:01:01");
    assert_eq!(hms(d(86399.0)), "23:59:59");
    assert_eq!(hms(d(1714567890.5)), "12:51:30");
    assert_eq!(hms(d(-1.0)), "23:59:59");
    assert_eq!(format_timestamp(d(61.25), 250), "00:01:01.250");
    assert_eq!(format_timestamp(d(61.005), 5), "00:01:01.005");
    assert_eq!(format_timestamp(d(61.0), 0), "00:01:01");
}

#[test]
fn tooltip_lists_defaults_in_order() {
    let fields: Vec<(String, String)> = [("width", "7"), ("charge", "0"), ("corrA", "0.089")]
        .iter()
        .map(|(a, b)| (a.to_string(), b.to_string()))
        .collect();
    assert_eq!(
        restore_defaults_tooltip(&fields),
        "Restore defaults:\ncorrA: 0.089\nwidth: 7"
    );
    assert_eq!(
        restore_defaults_tooltip(&vec![]),
        "Restore all PV defaults for this device"
    );
    assert_eq!(restore_defaults_tooltip(&fields[1..2].to_vec()), "Restore defaults:\n");
}

#[test]
fn labels_and_addresses() {
    assert_eq!(level_label(4), "FB4");
    assert_eq!(reset_label(42), "Resetting front ends... 42s");
    assert_eq!(ws_url("https://host/x", "host"), "wss://host/ws");
    assert_eq!(ws_url("http://host:49195/", "host:49195"), "ws://host:49195/ws");
}

#[test]
fn lost_connections_are_made_again() {
    let mut link = Link::new();
    assert_eq!(link.poll(), LinkAction::Nothing);
    link.connecting(false);
    assert_eq!(link.poll(), LinkAction::Connect);
    link.reconnecting(false);
    assert_eq!((link.cooldown, link.delay), (10, 20));
    for _ in 0..10 {
        assert_eq!(link.poll(), LinkAction::Nothing);
    }
    assert_eq!(link.poll(), LinkAction::Connect);
    for expected in [40, 80, 160, 300, 300] {
        link.reconnecting(false);
        assert_eq!(link.delay, expected);
        link.cooldown = 0;
    }
    link.reconnecting(true);
    assert!(link.connected && link.attached);
    assert_eq!(link.poll(), LinkAction::Nothing);
    link.opened();
    assert_eq!((link.cooldown, link.delay), (0, 10));
    link.closed();
    assert!(!link.connected);
    assert_eq!(link.poll(), LinkAction::Connect);
}

#[test]
fn charts_stay_with_their_devices() {
    let mut c = client();
    c.apply(ServerMessage::BufferSizeChanged { size: 50 });
    c.apply(ServerMessage::StateUpdate {
        device: "ict".to_string(),
        sensitivity: 1,
        calibration_mismatch: false,
    });
    c.apply(init(&[("x", DeviceType::Dq), ("y", DeviceType::Ict)], &["y", "x"]));
    c.apply(ServerMessage::ChartDelta {
        updates: vec![DeviceDelta {
            device: 0,
            new_points: vec![p(1.0)],
            stats: stats(1.0),
            cursor: 1,
        }],
    });
    let charts: Vec<&str> = c.charts.iter().map(|x| x.name.as_str()).collect();
    let devices: Vec<&str> = c.devices.iter().map(|x| x.name.as_str()).collect();
    assert_eq!(charts, devices);
    assert_eq!(charts, vec!["x", "y"]);
    let mut order = c.device_order.clone();
    order.sort();
    assert_eq!(order, strings(&["x", "y"]));
}
