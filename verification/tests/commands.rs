use charge_overview::auto_gain::{is_past_limit, next_level, switch_notice, switch_target};
use charge_overview::buffer::RollingBuffer;
use charge_overview::commands::{finish_set_sensitivity, CommandError, Effect};
use charge_overview::config::{DefaultValue, DeviceConfig};
use charge_overview::dispatch::{begin_command, Task};
use charge_overview::double::Double;
use charge_overview::fe_events::handle_settings;
use charge_overview::keys::{dq_companion, WINDOW_KEYS};
use charge_overview::messages::{ClientMessage, DeviceType, NotificationLevel, ServerMessage};
use charge_overview::peak_check::{has_clear_pulse, peak_targets, PeakCheck};
use charge_overview::reset::{trigger_value, ResetAction, ResetRun};
use charge_overview::state::{DeviceState, EpicsUpdate, InnerState};
use charge_overview::sweep::{collected, finish_sweep, waveform_pv};
use charge_overview::table::Table;
use charge_overview::zero::{zeroed, ZeroPoll};

fn d(v: f64) -> Double {
    Double::from_bits(v.to_bits())
}

fn f(v: Double) -> f64 {
    f64::from_bits(v.to_bits())
}

fn device(name: &str, device_type: DeviceType, levels: &[u8]) -> DeviceState {
    DeviceState {
        config: DeviceConfig {
            device_type,
            digitizer: format!("{name}-DIG"),
            ip: if device_type == DeviceType::Ict { String::new() } else { format!("ip-{name}") },
            sensitivities: levels.to_vec(),
            saturation_charges: Vec::new(),
            pvs: Table::new(),
            defaults: Table::new(),
        },
        name: name.to_string(),
        buffer: RollingBuffer::new(1000),
        current_sensitivity: 0,
        connected: false,
        fe_alive: false,
        last_data_time: d(0.0),
        peak_misaligned: false,
        calibration_mismatch: false,
    }
}

fn with_pv(mut dev: DeviceState, key: &str, pv: &str) -> DeviceState {
    dev.config.pvs.insert(key.to_string(), pv.to_string());
    dev
}

fn with_default(mut dev: DeviceState, key: &str, value: DefaultValue) -> DeviceState {
    dev.config.defaults.insert(key.to_string(), value);
    dev
}

fn scalar(v: f64) -> DefaultValue {
    DefaultValue::Scalar(d(v))
}

fn array(list: &[f64]) -> DefaultValue {
    DefaultValue::Array(list.iter().map(|v| d(*v)).collect())
}

fn machine() -> InnerState {
    let wcm = device("WCM", DeviceType::Wcm, &[3, 4]);
    let wcm = with_pv(wcm, "charge", "W:CHARGE");
    let wcm = with_pv(wcm, "corrA", "W:CORRA");
    let wcm = with_pv(wcm, "corrB", "W:CORRB");
    let wcm = with_pv(wcm, "peak_low", "W:PL");
    let wcm = with_pv(wcm, "peak_high", "W:PH");
    let wcm = with_pv(wcm, "base_low", "W:BL");
    let wcm = with_pv(wcm, "reset_trigger", "EVR:2");
    let wcm = with_default(wcm, "charge", scalar(0.0));
    let wcm = with_default(wcm, "corrA", array(&[0.089, 0.273]));
    let wcm = with_default(wcm, "peak_low", scalar(1035.0));
    let wcm = with_default(wcm, "peak_high", scalar(1037.0));
    let wcm = with_default(wcm, "base_low", scalar(1025.0));
    let wcm = with_default(wcm, "base_high", scalar(1027.0));
    let dq = device("WCM:DQ", DeviceType::Dq, &[3, 4]);
    let dq = with_pv(dq, "DQcal", "DQ:CAL");
    let dq = with_default(dq, "DQcal", array(&[1.5, 2.5]));
    let cup = device("CUP", DeviceType::Fcup, &[0, 1, 2]);
    let cup = with_pv(cup, "reset_trigger", "EVR:1");
    let cup = with_pv(cup, "peak_low", "C:PL");
    let cup = with_pv(cup, "peak_high", "C:PH");
    let ict = device("ICT", DeviceType::Ict, &[]);
    let ict = with_pv(ict, "HoldDelay", "I:HD");
    let ict = with_default(ict, "HoldDelay", scalar(9.0));
    InnerState::new(vec![cup, ict, wcm, dq], 1000, vec![])
}

fn only(task: Task) -> Effect {
    match task {
        Task::Done(mut list) => {
            assert_eq!(list.len(), 1);
            list.remove(0)
        }
        _ => panic!("expected the command to be done"),
    }
}

fn told(effect: &Effect) -> (NotificationLevel, String, Option<String>) {
    match effect {
        Effect::Notify { level, message, device } => (*level, message.clone(), device.clone()),
        other => panic!("expected a notification, got {other:?}"),
    }
}

fn error(effect: &Effect) -> String {
    let (level, message, _) = told(effect);
    assert_eq!(level, NotificationLevel::Error);
    message
}

fn set(device: &str, index: usize) -> ClientMessage {
    ClientMessage::SetSensitivity { device: device.to_string(), index }
}

#[test]
fn sensitivity_is_pushed_and_calibration_written() {
    let mut state = machine();
    let change = match begin_command(set("WCM", 1), &mut state) {
        Task::SetSensitivity(change) => change,
        _ => panic!("expected a change"),
    };
    assert_eq!(change.ip, "ip-WCM");
    assert_eq!(change.level, 4);
    state.devices[2].calibration_mismatch = true;
    let effects = finish_set_sensitivity(change, Ok(()), &mut state).unwrap();
    assert_eq!(state.devices[2].current_sensitivity, 1);
    assert!(!state.devices[2].calibration_mismatch);
    assert_eq!(effects.len(), 4);
    assert!(matches!(&effects[0], Effect::Caput { pv, value } if pv == "W:CORRA" && f(*value) == 0.273));
    assert!(matches!(&effects[1], Effect::Caput { pv, value } if pv == "DQ:CAL" && f(*value) == 2.5));
    assert!(matches!(
        &effects[2],
        Effect::Send(ServerMessage::StateUpdate { device, sensitivity: 1, calibration_mismatch: false })
            if device == "WCM"
    ));
    assert_eq!(
        told(&effects[3]),
        (
            NotificationLevel::Success,
            "Sensitivity set to 4 for WCM".to_string(),
            Some("WCM".to_string())
        )
    );
}

#[test]
fn failed_push_changes_nothing() {
    let mut state = machine();
    let change = match begin_command(set("CUP", 2), &mut state) {
        Task::SetSensitivity(change) => change,
        _ => panic!("expected a change"),
    };
    assert!(change.calibration.is_empty());
    let e = finish_set_sensitivity(change, Err("no route".to_string()), &mut state).unwrap_err();
    assert_eq!(e.message, "Failed to set sensitivity for CUP: no route");
    assert_eq!(e.device.as_deref(), Some("CUP"));
    assert_eq!(state.devices[0].current_sensitivity, 0);
}

#[test]
fn sensitivities_that_cannot_be_set_are_reported() {
    let mut state = machine();
    assert_eq!(
        error(&only(begin_command(set("NONE", 0), &mut state))),
        "Device NONE not found"
    );
    assert_eq!(
        error(&only(begin_command(set("ICT", 0), &mut state))),
        "SetSensitivity not applicable to ICT device ICT"
    );
    assert_eq!(
        error(&only(begin_command(set("CUP", 3), &mut state))),
        "Sensitivity index 3 out of range for CUP"
    );
}

#[test]
fn errors_name_their_device() {
    let e = CommandError::for_device("broken".to_string(), "DEV");
    assert_eq!(
        told(&e.report()),
        (NotificationLevel::Error, "broken".to_string(), Some("DEV".to_string()))
    );
    assert_eq!(dq_companion("CLA-S01-DIA-WCM-01"), "CLA-S01-DIA-WCM-01:DQ");
    assert_eq!(WINDOW_KEYS, ["peak_low", "peak_high", "base_low", "base_high"]);
}

fn push(state: &mut InnerState, index: usize, v: f64) {
    state.apply_update(EpicsUpdate { device_index: index, timestamp: d(1.0), value: d(v) });
}

#[test]
fn zeroing_averages_a_hundred_fresh_readings() {
    let mut state = machine();
    for _ in 0..5 {
        push(&mut state, 2, 1000.0);
    }
    let msg = ClientMessage::ZeroWCM { device: "WCM".to_string() };
    let (start, info) = match begin_command(msg, &mut state) {
        Task::Zero(start, info) => (start, info),
        _ => panic!("expected a zeroing"),
    };
    assert_eq!(start.pv, "W:CORRB");
    assert_eq!(start.write().pv, "W:CORRB");
    assert_eq!(f(start.write().value), 0.0);
    assert_eq!(told(&info).1, "Zeroing WCM... collecting 100 samples");
    let wait = zeroed(start, Ok(()), &state).unwrap().unwrap();
    assert!(matches!(wait.poll(&state, 0), ZeroPoll::Wait));
    for i in 0..99 {
        push(&mut state, 2, i as f64);
    }
    assert!(matches!(wait.poll(&state, 20000), ZeroPoll::Wait));
    push(&mut state, 2, 99.0);
    assert!(matches!(wait.poll(&state, 20001), ZeroPoll::Ready));
    let points = wait.samples(&state).unwrap().unwrap();
    assert_eq!(points.len(), 100);
    assert_eq!(f(points[0].value), 0.0);
    assert_eq!(f(points[99].value), 99.0);
    let done = wait.finish(Ok(()), "49.5000").unwrap();
    assert_eq!(told(&done).0, NotificationLevel::Success);
    assert_eq!(told(&done).1, "Zeroed WCM: offset = 49.5000");
}

#[test]
fn zeroing_needs_no_room_in_the_buffer() {
    for capacity in [0, 1, 10, 99] {
        let mut state = machine();
        state.buffer_size = capacity;
        state.devices[2].buffer = RollingBuffer::new(capacity);
        for _ in 0..150 {
            push(&mut state, 2, 1000.0);
        }
        let msg = ClientMessage::ZeroWCM { device: "WCM".to_string() };
        let start = match begin_command(msg, &mut state) {
            Task::Zero(start, _) => start,
            _ => panic!("expected a zeroing"),
        };
        let wait = zeroed(start, Ok(()), &state).unwrap().unwrap();
        for i in 0..100 {
            if i == 50 {
                state.devices[2].buffer.clear();
            }
            assert!(matches!(wait.poll(&state, 0), ZeroPoll::Wait));
            push(&mut state, 2, i as f64);
        }
        assert!(matches!(wait.poll(&state, 0), ZeroPoll::Ready));
        let points = wait.samples(&state).unwrap().unwrap();
        let values: Vec<f64> = points.iter().map(|p| f(p.value)).collect();
        assert_eq!(values, (0..100).map(|i| i as f64).collect::<Vec<f64>>());
    }
}

#[test]
fn zeroing_can_fail_at_every_step() {
    let mut state = machine();
    let zero = |name: &str| ClientMessage::ZeroWCM { device: name.to_string() };
    assert_eq!(error(&only(begin_command(zero("X"), &mut state))), "Device X not found");
    assert_eq!(error(&only(begin_command(zero("CUP"), &mut state))), "No corrB PV for CUP");
    let start = match begin_command(zero("WCM"), &mut state) {
        Task::Zero(start, _) => start,
        _ => panic!("expected a zeroing"),
    };
    let e = zeroed(start.clone(), Err("down".to_string()), &state).unwrap_err();
    assert_eq!(e.message, "Failed to zero WCM: down");
    let wait = zeroed(start.clone(), Ok(()), &state).unwrap().unwrap();
    match wait.poll(&state, 20001) {
        ZeroPoll::Failed(e) => {
            assert_eq!(e.message, "Zeroing WCM: timed out waiting for charge readings")
        }
        other => panic!("expected a failure, got {other:?}"),
    }
    assert_eq!(
        wait.samples(&state).unwrap_err().message,
        "Zeroing WCM: no charge readings available"
    );
    assert_eq!(
        wait.clone().finish(Err("late".to_string()), "0").unwrap_err().message,
        "Failed to set offset for WCM: late"
    );
    state.devices.clear();
    assert!(zeroed(start, Ok(()), &state).unwrap().is_none());
    assert!(matches!(wait.poll(&state, 0), ZeroPoll::Gone));
    assert!(wait.samples(&state).unwrap().is_none());
}

#[test]
fn zeroing_counts_past_the_end_of_the_counter() {
    let mut state = machine();
    let wait = charge_overview::zero::ZeroWait {
        device: "WCM".to_string(),
        pv: "W:CORRB".to_string(),
        baseline: u64::MAX - 49,
    };
    for _ in 0..49 {
        push(&mut state, 2, 1.0);
    }
    assert!(matches!(wait.poll(&state, 0), ZeroPoll::Wait));
    push(&mut state, 2, 1.0);
    assert!(matches!(wait.poll(&state, 0), ZeroPoll::Ready));
}

fn trace(peak: usize, height: f64) -> Vec<Double> {
    (0..2000).map(|i| d(if i == peak { height } else { 0.0 })).collect()
}

#[test]
fn sweep_centres_the_windows_on_the_pulse() {
    let mut state = machine();
    let msg = ClientMessage::SweepTiming { device: "WCM".to_string() };
    let (sweep, info) = match begin_command(msg, &mut state) {
        Task::Sweep(sweep, info) => (sweep, info),
        _ => panic!("expected a sweep"),
    };
    assert_eq!(told(&info).1, "Sweeping timing for WCM... collecting waveforms");
    assert_eq!(waveform_pv(&sweep.digitizer), "WCM-DIG-READ");
    let (peak, writes) = collected(&sweep, Ok(vec![trace(1040, 5.0), trace(1040, 4.0)])).unwrap();
    assert_eq!((peak.sum, peak.count), (2080, 2));
    let writes: Vec<(String, i64)> = writes.into_iter().map(|w| (w.pv, w.value)).collect();
    // The upper bound of the base window has no process variable.
    assert_eq!(
        writes,
        vec![
            ("W:PL".to_string(), 1039),
            ("W:PH".to_string(), 1041),
            ("W:BL".to_string(), 1029)
        ]
    );
    assert_eq!(
        told(&finish_sweep(&sweep, "1040.0")).1,
        "Sweep timing for WCM: peak at sample 1040.0, windows updated"
    );
    let e = collected(&sweep, Err("no data".to_string())).unwrap_err();
    assert_eq!(e.message, "Sweep timing for WCM: no data");
    let e = collected(&sweep, Ok(vec![vec![]])).unwrap_err();
    assert_eq!(e.message, "Sweep timing for WCM: no usable waveform data");
    let msg = ClientMessage::SweepTiming { device: "CUP".to_string() };
    assert_eq!(
        error(&only(begin_command(msg, &mut state))),
        "Sweep timing: CUP has no peak-window defaults configured"
    );
}

#[test]
fn defaults_are_restored_as_far_as_possible() {
    let mut state = machine();
    state.devices[2].current_sensitivity = 1;
    let msg = ClientMessage::RestoreDefaults { device: "WCM".to_string() };
    let mut run = match begin_command(msg, &mut state) {
        Task::Restore(run) => run,
        _ => panic!("expected a restore"),
    };
    let mut seen: Vec<(String, f64)> = Vec::new();
    while let Some(write) = run.next_write() {
        seen.push((write.pv.clone(), f(write.value)));
        let outcome = if write.pv == "W:PH" { Err("stuck".to_string()) } else { Ok(()) };
        let failed = outcome.is_err();
        match run.wrote(outcome) {
            Some(effect) => {
                assert!(failed);
                assert_eq!(error(&effect), "Failed to restore W:PH: stuck");
            }
            None => assert!(!failed),
        }
    }
    // Neither the charge itself nor what has no default is written.
    assert_eq!(
        seen,
        vec![
            ("W:CORRA".to_string(), 0.273),
            ("W:PL".to_string(), 1035.0),
            ("W:PH".to_string(), 1037.0),
            ("W:BL".to_string(), 1025.0)
        ]
    );
    assert_eq!(told(&run.finish()).1, "Restored defaults for WCM");
    let msg = ClientMessage::RestoreDefaults { device: "?".to_string() };
    assert_eq!(error(&only(begin_command(msg, &mut state))), "Device ? not found");
}

#[test]
fn calibration_is_cleared_on_every_box() {
    let mut state = machine();
    state.devices[0].current_sensitivity = 9;
    let mut run = match begin_command(ClientMessage::ClearCalibration, &mut state) {
        Task::ClearCalibration(run) => run,
        _ => panic!("expected pushes"),
    };
    let push = run.next_push().unwrap().clone();
    assert_eq!((push.name.as_str(), push.ip.as_str(), push.level), ("CUP", "ip-CUP", 3));
    assert_eq!(
        error(&run.pushed(Err("off".to_string())).unwrap()),
        "Failed to clear calibration for CUP: off"
    );
    let push = run.next_push().unwrap().clone();
    assert_eq!((push.name.as_str(), push.level), ("WCM", 3));
    assert!(run.pushed(Ok(())).is_none());
    assert!(run.next_push().is_none());
    assert_eq!(told(&run.finish()).1, "Cleared calibration mode for all devices");
}

fn begin_reset(state: &mut InnerState) -> ResetRun {
    match begin_command(ClientMessage::ResetFrontEnds, state) {
        Task::Reset(run, info) => {
            assert_eq!(told(&info).1, "Resetting front ends: trigger off for 65s...");
            run
        }
        _ => panic!("expected a reset"),
    }
}

#[test]
fn reset_cuts_waits_restores_and_pushes() {
    let mut state = machine();
    let mut run = begin_reset(&mut state);
    let mut log: Vec<String> = Vec::new();
    let mut waits = 0;
    let mut shown: Vec<u32> = Vec::new();
    loop {
        match run.action() {
            ResetAction::Write { pv, on } => log.push(format!("{pv}={}", on as u8)),
            ResetAction::Wait => {
                waits += 1;
                shown.push(state.reset_progress.unwrap().0);
            }
            ResetAction::Push { ip, level } => {
                assert_eq!(state.reset_progress, None);
                log.push(format!("{ip}:{level}"));
            }
            ResetAction::Done => break,
        }
        assert!(state.reset_running);
        let (next, effects) = run.step(Ok(()), &mut state);
        run = next;
        for effect in effects {
            match effect {
                Effect::Send(ServerMessage::ResetProgress { remaining_secs, total_secs }) => {
                    assert_eq!(total_secs, 65);
                    log.push(format!("left {remaining_secs}"));
                }
                other => log.push(told(&other).1),
            }
        }
    }
    assert!(!state.reset_running);
    assert_eq!(state.reset_progress, None);
    assert_eq!(waits, 65);
    assert_eq!(shown, (1..=65).rev().collect::<Vec<u32>>());
    let mut expected: Vec<String> = vec!["EVR:1=0".to_string(), "EVR:2=0".to_string()];
    for n in (1..=65).rev() {
        expected.push(format!("left {n}"));
    }
    for s in [
        "EVR:1=1",
        "EVR:2=1",
        "left 0",
        "ip-CUP:0",
        "ip-WCM:3",
        "Front ends reset and sensitivities re-applied",
    ] {
        expected.push(s.to_string());
    }
    assert_eq!(log, expected);
}

#[test]
fn reset_that_cannot_cut_a_trigger_is_undone() {
    let mut state = machine();
    let run = begin_reset(&mut state);
    let (run, effects) = run.step(Ok(()), &mut state);
    assert!(effects.is_empty());
    let (run, effects) = run.step(Err("denied".to_string()), &mut state);
    assert!(effects.is_empty());
    assert!(matches!(run.action(), ResetAction::Write { pv, on: true } if pv == "EVR:1"));
    let (run, effects) = run.step(Err("also denied".to_string()), &mut state);
    assert_eq!(
        error(&effects[0]),
        "Failed to disable trigger EVR:2: denied — reset aborted"
    );
    assert!(matches!(run.action(), ResetAction::Done));
    assert!(!state.reset_running);
    // A reset can be started again, and may fail at once.
    let run = begin_reset(&mut state);
    let (run, effects) = run.step(Err("x".to_string()), &mut state);
    assert_eq!(error(&effects[0]), "Failed to disable trigger EVR:1: x — reset aborted");
    assert!(matches!(run.action(), ResetAction::Done));
}

#[test]
fn reset_retries_a_trigger_once() {
    let mut state = machine();
    let mut run = begin_reset(&mut state);
    for _ in 0..67 {
        run = run.step(Ok(()), &mut state).0;
    }
    assert!(matches!(run.action(), ResetAction::Write { pv, on: true } if pv == "EVR:1"));
    let (run, effects) = run.step(Err("first".to_string()), &mut state);
    assert!(effects.is_empty());
    assert!(matches!(run.action(), ResetAction::Write { pv, on: true } if pv == "EVR:1"));
    let (run, effects) = run.step(Err("second".to_string()), &mut state);
    assert_eq!(
        error(&effects[0]),
        "FAILED TO RE-ENABLE TRIGGER EVR:1: first; retry: second"
    );
    assert!(matches!(run.action(), ResetAction::Write { pv, on: true } if pv == "EVR:2"));
    assert_eq!(state.reset_progress, Some((1, 65)));
    let (run, effects) = run.step(Ok(()), &mut state);
    assert_eq!(effects.len(), 1);
    let (_, effects) = run.step(Err("deaf".to_string()), &mut state);
    assert_eq!(error(&effects[0]), "Failed to re-apply sensitivity for CUP: deaf");
}

#[test]
fn triggers_are_one_or_zero() {
    assert_eq!(f(trigger_value(true)), 1.0);
    assert_eq!(f(trigger_value(false)), 0.0);
}

#[test]
fn only_one_reset_runs() {
    let mut state = machine();
    let _run = begin_reset(&mut state);
    let effect = only(begin_command(ClientMessage::ResetFrontEnds, &mut state));
    assert_eq!(
        told(&effect),
        (
            NotificationLevel::Warning,
            "A front-end reset is already running".to_string(),
            None
        )
    );
    let mut bare = InnerState::new(vec![device("A", DeviceType::Ict, &[])], 10, vec![]);
    let effect = only(begin_command(ClientMessage::ResetFrontEnds, &mut bare));
    assert_eq!(error(&effect), "No 'reset_trigger' PV configured for any device");
    assert!(!bare.reset_running);
}

#[test]
fn buffer_size_is_kept_within_limits() {
    let mut state = machine();
    for i in 0..20 {
        push(&mut state, 0, i as f64);
    }
    for (asked, got) in [(3, 10), (10, 10), (500, 500), (10001, 10000)] {
        let task = begin_command(ClientMessage::SetBufferSize { size: asked }, &mut state);
        match task {
            Task::Done(list) => {
                assert_eq!(list.len(), 2);
                assert!(matches!(
                    list[0],
                    Effect::Send(ServerMessage::BufferSizeChanged { size }) if size == got
                ));
                assert!(matches!(list[1], Effect::ChartReset));
            }
            _ => panic!("expected the command to be done"),
        }
        assert_eq!(state.buffer_size, got);
    }
    assert_eq!(state.devices[0].buffer.as_points().len(), 10);
}

#[test]
fn buffers_are_cleared_one_by_one_or_all() {
    let mut state = machine();
    for i in 0..4 {
        push(&mut state, i, 1.0);
    }
    let clear = |device: Option<&str>| ClientMessage::ClearBuffer {
        device: device.map(|s| s.to_string()),
    };
    let lens = |s: &InnerState| -> Vec<usize> { s.devices.iter().map(|x| x.buffer.len()).collect() };
    assert!(matches!(only(begin_command(clear(Some("ICT")), &mut state)), Effect::ChartReset));
    assert_eq!(lens(&state), vec![1, 0, 1, 1]);
    assert!(matches!(only(begin_command(clear(Some("?")), &mut state)), Effect::ChartReset));
    assert_eq!(lens(&state), vec![1, 0, 1, 1]);
    assert!(matches!(only(begin_command(clear(None), &mut state)), Effect::ChartReset));
    assert_eq!(lens(&state), vec![0, 0, 0, 0]);
}

#[test]
fn order_and_automatic_gain_are_set() {
    let mut state = machine();
    let order = vec!["b".to_string(), "a".to_string()];
    let effect = only(begin_command(
        ClientMessage::SetDeviceOrder { order: order.clone() },
        &mut state,
    ));
    assert!(matches!(effect, Effect::Send(ServerMessage::DeviceOrderChanged { order: o }) if o == order));
    assert_eq!(state.device_order, order);
    let effect = only(begin_command(ClientMessage::SetAutoGain { enabled: true }, &mut state));
    assert!(matches!(effect, Effect::Send(ServerMessage::AutoGainChanged { enabled: true })));
    assert!(state.auto_gain);
}

#[test]
fn saturating_devices_are_switched_up() {
    let mut state = machine();
    state.devices[0].config.saturation_charges = vec![d(10.0), d(20.0), d(30.0)];
    assert_eq!(switch_target(&state, 0, d(-11.0)), None);
    state.auto_gain = true;
    assert_eq!(switch_target(&state, 0, d(-11.0)), Some(1));
    assert_eq!(switch_target(&state, 0, d(10.0)), None);
    assert_eq!(switch_target(&state, 0, d(f64::NAN)), None);
    state.devices[0].current_sensitivity = 2;
    assert_eq!(switch_target(&state, 0, d(99.0)), None);
    state.devices[0].current_sensitivity = 7;
    assert_eq!(switch_target(&state, 0, d(99.0)), None);
    // No limits are known, it has no levels, or it is not there.
    assert_eq!(switch_target(&state, 2, d(1e9)), None);
    assert_eq!(switch_target(&state, 1, d(1e9)), None);
    assert_eq!(switch_target(&state, 9, d(1e9)), None);
    state.devices[3].config.saturation_charges = vec![d(1.0), d(2.0)];
    assert_eq!(switch_target(&state, 3, d(1e9)), None);
    assert_eq!(
        told(&switch_notice("CUP", 1)),
        (
            NotificationLevel::Warning,
            "Auto gain: CUP was saturating, switched to FB1".to_string(),
            Some("CUP".to_string())
        )
    );
}

#[test]
fn next_level_is_the_least_above() {
    assert_eq!(next_level(&vec![4, 0, 2, 3, 2], 1), Some(2));
    assert_eq!(next_level(&vec![3, 4], 3), Some(1));
    assert_eq!(next_level(&vec![3, 4], 4), None);
    assert_eq!(next_level(&vec![], 0), None);
    assert!(is_past_limit(&vec![d(5.0)], 0, d(-5.5)));
    assert!(!is_past_limit(&vec![d(5.0)], 0, d(5.0)));
    assert!(!is_past_limit(&vec![d(5.0)], 1, d(50.0)));
}

#[test]
fn outside_changes_of_sensitivity_are_taken_over() {
    let mut state = machine();
    let effects = handle_settings(r#"{"integrator":"FB4","io":{}}"#, 2, &mut state);
    assert_eq!(state.devices[2].current_sensitivity, 1);
    assert!(state.devices[2].calibration_mismatch);
    assert!(matches!(
        &effects[0],
        Effect::Send(ServerMessage::StateUpdate { device, sensitivity: 1, calibration_mismatch: true })
            if device == "WCM"
    ));
    assert_eq!(
        told(&effects[1]),
        (
            NotificationLevel::Warning,
            "Sensitivity changed externally to FB4 for WCM".to_string(),
            Some("WCM".to_string())
        )
    );
    // The same again is no news, and neither is what makes no sense.
    for settings in [
        r#"{"integrator":"FB4"}"#,
        r#"{"integrator":"FB9"}"#,
        r#"{"integrator":3}"#,
        r#"{"power":{"integrator":"FB3"}}"#,
        "FB3",
        "",
    ] {
        assert!(handle_settings(settings, 2, &mut state).is_empty(), "{settings}");
        assert_eq!(state.devices[2].current_sensitivity, 1);
    }
    assert!(handle_settings(r#"{"integrator":"FB3"}"#, 77, &mut state).is_empty());
}

#[test]
fn own_changes_are_not_reported_as_foreign() {
    let mut state = machine();
    let change = match begin_command(set("WCM", 1), &mut state) {
        Task::SetSensitivity(change) => change,
        _ => panic!("expected a change"),
    };
    let echo = format!("{{\"integrator\":\"FB{}\"}}", change.level);
    finish_set_sensitivity(change, Ok(()), &mut state).unwrap();
    assert!(handle_settings(&echo, 2, &mut state).is_empty());
    assert!(!state.devices[2].calibration_mismatch);
    // Its box is that of the dark-charge device too, which follows.
    let effects = handle_settings(&echo, 3, &mut state);
    assert_eq!(effects.len(), 1);
    assert!(matches!(
        &effects[0],
        Effect::Send(ServerMessage::StateUpdate { device, sensitivity: 1, calibration_mismatch: false })
            if device == "WCM:DQ"
    ));
    assert_eq!(state.devices[3].current_sensitivity, 1);
    assert!(!state.devices[3].calibration_mismatch);
    assert!(handle_settings(&echo, 3, &mut state).is_empty());
}

#[test]
fn setting_again_takes_warnings_back() {
    let mut state = machine();
    for i in [2, 3] {
        handle_settings(r#"{"integrator":"FB4"}"#, i, &mut state);
        assert!(state.devices[i].calibration_mismatch);
    }
    let change = match begin_command(set("WCM", 1), &mut state) {
        Task::SetSensitivity(change) => change,
        _ => panic!("expected a change"),
    };
    let failed = finish_set_sensitivity(change.clone(), Err("down".to_string()), &mut state);
    assert!(failed.is_err());
    assert!(state.devices[2].calibration_mismatch && state.devices[3].calibration_mismatch);
    let effects = finish_set_sensitivity(change, Ok(()), &mut state).unwrap();
    assert!(!state.devices[2].calibration_mismatch && !state.devices[3].calibration_mismatch);
    assert_eq!(effects.len(), 5);
    assert!(matches!(
        &effects[3],
        Effect::Send(ServerMessage::StateUpdate { device, sensitivity: 1, calibration_mismatch: false })
            if device == "WCM:DQ"
    ));
    // A device of another kind has no companion, whatever is named like one.
    let mut state = machine();
    state.devices[3].name = "CUP:DQ".to_string();
    state.devices[3].calibration_mismatch = true;
    let change = match begin_command(set("CUP", 1), &mut state) {
        Task::SetSensitivity(change) => change,
        _ => panic!("expected a change"),
    };
    finish_set_sensitivity(change, Ok(()), &mut state).unwrap();
    assert!(state.devices[3].calibration_mismatch);
}

#[test]
fn outside_changes_are_reported_for_companions_too() {
    // Whichever of the two hears of it first.
    for order in [[2, 3], [3, 2]] {
        let mut state = machine();
        for i in order {
            let effects = handle_settings(r#"{"integrator":"FB4"}"#, i, &mut state);
            assert_eq!(effects.len(), 2);
            let name = state.devices[i].name.clone();
            assert_eq!(
                told(&effects[1]).1,
                format!("Sensitivity changed externally to FB4 for {name}")
            );
            assert!(state.devices[i].calibration_mismatch);
        }
    }
    // A name alone does not make a companion.
    let mut state = machine();
    state.devices[2].current_sensitivity = 1;
    state.devices[3].name = "OTHER:DQ".to_string();
    assert_eq!(handle_settings(r#"{"integrator":"FB4"}"#, 3, &mut state).len(), 2);
    assert!(state.devices[3].calibration_mismatch);
}

#[test]
fn windows_are_checked_when_they_change() {
    let mut state = machine();
    let targets = peak_targets(&state);
    assert_eq!(targets.len(), 2);
    assert_eq!((targets[0].name.as_str(), targets[0].find_max), ("CUP", false));
    assert_eq!((targets[1].index, targets[1].find_max), (2, true));
    assert_eq!(targets[1].low_pv, "W:PL");
    assert_eq!(targets[1].digitizer, "WCM-DIG");
    let mut check = PeakCheck::new(targets[1].clone());
    let (low, high) = (d(1035.0), d(1037.0));
    assert!(check.is_due(low, high));
    let words = ("1040.0", "1035", "1037");
    let effects = check.judge(low, high, d(1040.0), words, &mut state);
    assert!(state.devices[2].peak_misaligned);
    assert!(matches!(
        &effects[0],
        Effect::Send(ServerMessage::PeakAlignment { device, misaligned: true }) if device == "WCM"
    ));
    assert_eq!(
        told(&effects[1]).1,
        "Peak window misaligned for WCM: digitizer peak at sample 1040.0, window [1035, 1037] \
         — run Sweep Timing"
    );
    assert!(!check.is_due(low, high));
    assert!(check.is_due(low, d(1041.0)));
    // Still outside: nothing new. Inside: the flag is taken back, without a warning.
    assert!(check.judge(low, d(1039.0), d(1040.0), words, &mut state).is_empty());
    let effects = check.judge(low, d(1040.0), d(1040.0), words, &mut state);
    assert_eq!(effects.len(), 1);
    assert!(!state.devices[2].peak_misaligned);
    assert!(check.is_due(d(f64::NAN), high));
}

#[test]
fn only_a_clear_pulse_is_judged() {
    let state = machine();
    let check = PeakCheck::new(peak_targets(&state)[1].clone());
    let pulse = vec![trace(1040, 3.0), vec![], trace(1050, 3.0), trace(1045, 3.0)];
    assert!(has_clear_pulse(&pulse, true));
    let mean = check.locate(&pulse).unwrap();
    assert_eq!((mean.sum, mean.count), (3135, 3));
    assert!(check.locate(&vec![vec![]]).is_none());
    assert!(has_clear_pulse(&vec![trace(5, -3.0)], false));
    // What is near a peak belongs to its pulse; what is far from it does not.
    let mut near = trace(1040, 3.0);
    near[1090] = d(3.0);
    assert!(has_clear_pulse(&vec![near], true));
    let mut double = trace(1040, 3.0);
    double[1091] = d(3.0);
    assert!(!has_clear_pulse(&vec![double], true));
}

#[test]
fn a_pulse_may_be_wide() {
    let state = machine();
    let check = PeakCheck::new(peak_targets(&state)[1].clone());
    let flat_top: Vec<Double> =
        (0..2000).map(|i| d(if (1000..=1200).contains(&i) { 5.0 } else { 0.0 })).collect();
    for n in [1, 10] {
        let mean = check.locate(&vec![flat_top.clone(); n]).unwrap();
        assert_eq!((mean.sum, mean.count), (1000 * n as u128, n as u64));
    }
    // Broad pulses of different heights, of which the lower is buried in the higher.
    let broad = |height: f64| -> Vec<Double> {
        (0..2000).map(|i: i32| d((height - (i - 1000).abs() as f64 / 100.0).max(0.0))).collect()
    };
    let mean = check.locate(&vec![broad(3.0), broad(5.0)]).unwrap();
    assert_eq!((mean.sum, mean.count), (2000, 2));
    // Two of them side by side are not one pulse.
    let mut twice = flat_top.clone();
    for i in 1400..=1600 {
        twice[i] = d(5.0);
    }
    assert!(check.locate(&vec![twice]).is_none());
}

#[test]
fn short_waveforms_are_told_from_noise_too() {
    let samples = |values: &[f64]| -> Vec<Double> { values.iter().map(|v| d(*v)).collect() };
    assert!(has_clear_pulse(&vec![samples(&[0.0, 0.0, 5.0, 5.0, 0.0])], true));
    assert!(has_clear_pulse(&vec![samples(&[0.0, 1.0, -5.0, 0.0])], false));
    assert!(!has_clear_pulse(&vec![samples(&[5.0, 0.0, 5.0, 0.0])], true));
    let noise = vec![
        samples(&[0.1, 0.4, 0.2, 0.3, 0.0, 0.1]),
        samples(&[0.5, 0.1, 0.3, 0.0, 0.6, 0.2]),
    ];
    assert!(!has_clear_pulse(&noise, true));
    assert!(!has_clear_pulse(&vec![samples(&[2.0]), samples(&[3.0])], true));
}

#[test]
fn without_a_pulse_nothing_is_judged() {
    let state = machine();
    let check = PeakCheck::new(peak_targets(&state)[1].clone());
    for level in [0.0, -1.5, f64::NAN] {
        let flat = vec![vec![d(level); 2000]; 10];
        assert!(!has_clear_pulse(&flat, true));
        assert!(!has_clear_pulse(&flat, false));
        assert!(check.locate(&flat).is_none());
    }
    // One flat waveform among pulses is enough.
    let mut mixed = vec![trace(1040, 3.0); 9];
    mixed.push(vec![d(0.0); 2000]);
    assert!(check.locate(&mixed).is_none());
    // In noise, one waveform is as high somewhere as another at its peak.
    let mut high = trace(1500, 5.0);
    high[100] = d(3.0);
    let noise = vec![trace(100, 3.0), high];
    assert!(check.locate(&noise).is_none());
    // The window stays to be checked, and no flag is raised.
    assert!(check.is_due(d(1035.0), d(1037.0)));
    assert!(!state.devices[2].peak_misaligned);
}
