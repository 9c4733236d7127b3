use charge_overview::audit::{
    log_command, log_connect, log_disconnect, log_line, needs_rotation, rotation,
};

fn field(line: &str, key: &str) -> String {
    let v: serde_json::Value = serde_json::from_str(line).unwrap();
    v[key].as_str().unwrap().to_string()
}

#[test]
fn log_lines_can_be_read_again() {
    let line = log_line("2024-05-01T12:00:00.000+0100", "ACT", "say \"hi\"\\");
    assert!(!line.contains('\n'));
    assert_eq!(field(&line, "ts"), "2024-05-01T12:00:00.000+0100");
    assert_eq!(field(&line, "action"), "ACT");
    assert_eq!(field(&line, "detail"), "say \"hi\"\\");
}

#[test]
fn line_breaks_are_logged_as_spaces() {
    let line = log_line("t", "A\nB", "x\r\ny\tz");
    assert_eq!(field(&line, "action"), "A B");
    assert_eq!(field(&line, "detail"), "x  y\tz");
    assert!(!line.contains('\n') && !line.contains('\r'));
}

#[test]
fn connections_and_commands_are_logged() {
    assert_eq!(field(&log_connect("t", "ws-client"), "action"), "CONNECT");
    assert_eq!(field(&log_disconnect("t", "ws-client"), "action"), "DISCONNECT");
    let line = log_command("t", "ws-client", "ClearCalibration");
    assert_eq!(field(&line, "action"), "COMMAND");
    assert_eq!(field(&line, "detail"), "ws-client -> ClearCalibration");
}

#[test]
fn logs_are_rotated_past_a_hundred_megabytes() {
    assert!(!needs_rotation(100 * 1024 * 1024));
    assert!(needs_rotation(100 * 1024 * 1024 + 1));
    let expected: Vec<(String, String)> = [
        ("audit.log.3", "audit.log.4"),
        ("audit.log.2", "audit.log.3"),
        ("audit.log.1", "audit.log.2"),
        ("audit.log", "audit.log.1"),
    ]
    .iter()
    .map(|(a, b)| (a.to_string(), b.to_string()))
    .collect();
    assert_eq!(rotation("audit.log"), expected);
}

#[test]
fn rotation_loses_only_the_oldest_log() {
    let mut files: Vec<(String, u32)> = vec![("audit.log".to_string(), 0)];
    for n in 1..=4 {
        files.push((format!("audit.log.{n}"), n));
    }
    for (from, to) in rotation("audit.log") {
        let moved: Vec<(String, u32)> = files
            .iter()
            .filter(|(name, _)| *name != to)
            .map(|(name, n)| (if *name == from { to.clone() } else { name.clone() }, *n))
            .collect();
        files = moved;
    }
    files.sort();
    let expected: Vec<(String, u32)> = (1..=4).map(|n| (format!("audit.log.{n}"), n - 1)).collect();
    assert_eq!(files, expected);
}
