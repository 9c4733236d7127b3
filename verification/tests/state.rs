use charge_overview::buffer::RollingBuffer;
use charge_overview::config::DeviceConfig;
use charge_overview::consts::WATCHDOG_STALE_SECS_BITS;
use charge_overview::double::Double;
use charge_overview::epics::subscriptions;
use charge_overview::lineup::{drop_device, drop_target, move_down, move_up};
use charge_overview::messages::{DeviceType, Point};
use charge_overview::persist::{
    reconcile_device_order, start_state, PersistedState, StateFile,
};
use charge_overview::state::{DeviceState, EpicsUpdate, InnerState};
use charge_overview::table::Table;

fn d(v: f64) -> Double {
    Double::from_bits(v.to_bits())
}

fn config(ip: &str, levels: &[u8]) -> DeviceConfig {
    DeviceConfig {
        device_type: DeviceType::Ict,
        digitizer: String::new(),
        ip: ip.to_string(),
        sensitivities: levels.to_vec(),
        saturation_charges: Vec::new(),
        pvs: Table::new(),
        defaults: Table::new(),
    }
}

fn device(name: &str) -> DeviceState {
    DeviceState {
        config: config("", &[]),
        name: name.to_string(),
        buffer: RollingBuffer::new(10),
        current_sensitivity: 0,
        connected: false,
        fe_alive: false,
        last_data_time: d(0.0),
        peak_misaligned: false,
        calibration_mismatch: false,
    }
}

fn strings(list: &[&str]) -> Vec<String> {
    list.iter().map(|s| s.to_string()).collect()
}

#[test]
fn empty_persisted_order_uses_all_devices() {
    let devices = vec![device("a"), device("b")];
    assert_eq!(reconcile_device_order(&vec![], &devices), vec!["a", "b"]);
}

#[test]
fn newly_configured_devices_are_appended() {
    let devices = vec![device("a"), device("b"), device("ict-1")];
    let persisted = vec!["b".to_string(), "a".to_string()];
    assert_eq!(
        reconcile_device_order(&persisted, &devices),
        vec!["b", "a", "ict-1"]
    );
}

#[test]
fn removed_devices_are_dropped() {
    let devices = vec![device("a")];
    let persisted = vec!["a".to_string(), "gone".to_string()];
    assert_eq!(reconcile_device_order(&persisted, &devices), vec!["a"]);
}

#[test]
fn persisted_state_save_load_roundtrip() {
    let mut sensitivities = Table::new();
    sensitivities.insert("dev1".to_string(), 2);
    let state = PersistedState {
        buffer_size: 500,
        sensitivities,
        device_order: vec!["dev1".to_string(), "dev2".to_string()],
        auto_gain: true,
    };
    let (loaded, corrupt) = PersistedState::load(StateFile::Saved(state));
    assert!(!corrupt);
    assert_eq!(loaded.buffer_size, 500);
    assert_eq!(loaded.sensitivities.get("dev1"), Some(&2));
    assert_eq!(loaded.device_order, vec!["dev1", "dev2"]);
    assert!(loaded.auto_gain);
}

#[test]
fn persisted_state_load_missing_file() {
    let (loaded, corrupt) = PersistedState::load(StateFile::Missing);
    assert_eq!(loaded.buffer_size, 1000);
    assert!(!corrupt);
    assert_eq!(PersistedState::default_state().buffer_size, 1000);
    assert!(!loaded.auto_gain);
}

#[test]
fn persisted_state_load_corrupt_file() {
    let (loaded, corrupt) = PersistedState::load(StateFile::Corrupt);
    assert_eq!(loaded.buffer_size, 1000);
    assert_eq!(loaded.sensitivities.len(), 0);
    assert!(corrupt);
}

#[test]
fn server_starts_with_devices_in_order_of_name() {
    let mut configs = Table::new();
    configs.insert("zeta".to_string(), config("1.2.3.4", &[0, 1, 2]));
    configs.insert("alpha".to_string(), config("", &[]));
    configs.insert("mid".to_string(), config("", &[3, 4]));
    let mut saved = PersistedState::default_state();
    saved.buffer_size = 77;
    saved.auto_gain = true;
    saved.sensitivities.insert("mid".to_string(), 0);
    saved.device_order = strings(&["zeta", "gone"]);
    let state = start_state(configs, &saved);
    let names: Vec<&str> = state.devices.iter().map(|x| x.name.as_str()).collect();
    assert_eq!(names, vec!["alpha", "mid", "zeta"]);
    // Without a saved sensitivity the least sensitive one is selected.
    let selected: Vec<usize> = state.devices.iter().map(|x| x.current_sensitivity).collect();
    assert_eq!(selected, vec![0, 0, 2]);
    assert_eq!(state.device_order, vec!["zeta", "alpha", "mid"]);
    assert_eq!(state.buffer_size, 77);
    assert!(state.auto_gain);
    assert_eq!(state.devices[2].config.ip, "1.2.3.4");
    assert_eq!(state.reset_progress, None);
}

#[test]
fn restart_restores_what_was_saved() {
    let configs = || {
        let mut configs = Table::new();
        configs.insert("b".to_string(), config("", &[0, 1, 2]));
        configs.insert("a".to_string(), config("", &[3, 4]));
        configs
    };
    let mut state = start_state(configs(), &PersistedState::default_state());
    state.devices[0].current_sensitivity = 0;
    state.devices[1].current_sensitivity = 1;
    state.device_order = strings(&["b", "a"]);
    state.buffer_size = 123;
    let again = start_state(configs(), &PersistedState::of(&state));
    let selected: Vec<usize> = again.devices.iter().map(|x| x.current_sensitivity).collect();
    assert_eq!(selected, vec![0, 1]);
    assert_eq!(again.device_order, vec!["b", "a"]);
    assert_eq!(again.buffer_size, 123);
}

#[test]
fn devices_are_found_by_name() {
    let mut state = InnerState::new(vec![device("a"), device("b"), device("a")], 10, vec![]);
    assert_eq!(state.device_index("b"), Some(1));
    assert_eq!(state.device_index("a"), Some(2));
    assert_eq!(state.device_index("c"), None);
    assert_eq!(state.device("b").unwrap().name, "b");
    assert!(state.device("c").is_none());
    state.device_mut("b").unwrap().connected = true;
    assert!(state.devices[1].connected);
    assert!(state.device_mut("c").is_none());
}

#[test]
fn readings_connect_a_device() {
    let mut state = InnerState::new(vec![device("a"), device("b")], 10, vec![]);
    let update = EpicsUpdate { device_index: 1, timestamp: d(5.0), value: d(2.0) };
    assert_eq!(state.apply_update(update), None);
    assert!(state.devices[1].connected);
    assert_eq!(state.devices[1].last_data_time, d(5.0));
    assert_eq!(
        state.devices[1].buffer.as_points(),
        vec![Point { timestamp: d(5.0), value: d(2.0) }]
    );
    assert!(!state.devices[0].connected);
    assert_eq!(
        state.apply_update(EpicsUpdate { device_index: 2, timestamp: d(6.0), value: d(2.0) }),
        None
    );
    state.disconnect(1);
    state.disconnect(9);
    assert!(!state.devices[1].connected);
}

#[test]
fn silent_devices_are_disconnected_after_a_minute() {
    assert_eq!(f64::from_bits(WATCHDOG_STALE_SECS_BITS), 60.0);
    let mut dev = device("a");
    dev.connected = true;
    // It never had data.
    assert!(!dev.mark_if_stale(d(1e9)));
    dev.last_data_time = d(100.0);
    assert!(!dev.mark_if_stale(d(60.0)));
    assert!(dev.connected);
    assert!(dev.mark_if_stale(d(60.5)));
    assert!(!dev.connected);
    assert!(!dev.mark_if_stale(d(61.0)));
}

#[test]
fn boxes_are_pinged() {
    let mut with_box = device("a");
    with_box.config.ip = "10.0.0.1".to_string();
    let mut state = InnerState::new(vec![device("x"), with_box], 10, vec![]);
    assert_eq!(state.front_ends(), vec![(1, "10.0.0.1".to_string())]);
    state.apply_pings(&vec![(1, true), (7, true)]);
    assert!(state.devices[1].fe_alive);
    state.apply_pings(&vec![(1, true), (1, false)]);
    assert!(!state.devices[1].fe_alive);
}

#[test]
fn charge_is_subscribed_to() {
    let mut dev = device("b");
    dev.config.pvs.insert("charge".to_string(), "B:Q".to_string());
    let state = InnerState::new(vec![device("a"), dev], 10, vec![]);
    assert_eq!(subscriptions(&state), vec![(1, "B:Q".to_string())]);
}

#[test]
fn devices_move_up_and_down() {
    let mut order = strings(&["a", "b", "c"]);
    assert!(!move_up(&mut order, 0));
    assert!(!move_down(&mut order, 2));
    assert!(!move_up(&mut order, 3));
    assert!(move_down(&mut order, 0));
    assert_eq!(order, strings(&["b", "a", "c"]));
    assert!(move_up(&mut order, 1));
    assert_eq!(order, strings(&["a", "b", "c"]));
    assert!(move_up(&mut order, 2));
    assert_eq!(order, strings(&["a", "c", "b"]));
}

#[test]
fn devices_are_dragged() {
    let centers = vec![d(10.0), d(30.0), d(50.0)];
    assert_eq!(drop_target(&centers, d(5.0), 4), 0);
    assert_eq!(drop_target(&centers, d(30.0), 4), 2);
    assert_eq!(drop_target(&centers, d(99.0), 4), 4);
    let start = strings(&["a", "b", "c", "d"]);
    for (name, target, expected) in [
        ("a", 2, ["b", "a", "c", "d"]),
        ("a", 4, ["b", "c", "d", "a"]),
        ("a", 1, ["a", "b", "c", "d"]),
        ("d", 0, ["d", "a", "b", "c"]),
        ("b", 99, ["a", "c", "d", "b"]),
    ] {
        let mut order = start.clone();
        assert!(drop_device(&mut order, name, target));
        assert_eq!(order, strings(&expected), "{name} to {target}");
    }
    let mut order = start.clone();
    assert!(!drop_device(&mut order, "c", 2));
    assert!(!drop_device(&mut order, "?", 0));
    assert_eq!(order, start);
}
