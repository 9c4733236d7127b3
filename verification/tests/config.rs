use charge_overview::config::{
    load_device_configs, ConfigError, DefaultValue, DeviceConfig, NetworkConfig,
};
use charge_overview::double::Double;
use charge_overview::messages::DeviceType;
use charge_overview::table::Table;
use serde_norway::Value;

fn d(v: f64) -> Double {
    Double::from_bits(v.to_bits())
}

fn f(v: Double) -> f64 {
    f64::from_bits(v.to_bits())
}

fn texts(value: &Value) -> Table<String> {
    let mut table = Table::new();
    for (key, text) in value.as_mapping().unwrap() {
        table.insert(
            key.as_str().unwrap().to_string(),
            text.as_str().unwrap().to_string(),
        );
    }
    table
}

fn default_value(value: &Value) -> DefaultValue {
    match value.as_sequence() {
        Some(list) => DefaultValue::Array(list.iter().map(|v| d(v.as_f64().unwrap())).collect()),
        None => DefaultValue::Scalar(d(value.as_f64().unwrap())),
    }
}

fn device_config(value: &Value) -> DeviceConfig {
    let mut defaults = Table::new();
    for (key, v) in value["defaults"].as_mapping().unwrap() {
        defaults.insert(key.as_str().unwrap().to_string(), default_value(v));
    }
    let list = |key: &str| -> Vec<Value> {
        value
            .get(key)
            .and_then(|v| v.as_sequence().cloned())
            .unwrap_or_default()
    };
    DeviceConfig {
        device_type: match value["type"].as_str().unwrap() {
            "wcm" => DeviceType::Wcm,
            "dq" => DeviceType::Dq,
            "fcup" => DeviceType::Fcup,
            _ => DeviceType::Ict,
        },
        digitizer: value["digitizer"].as_str().unwrap().to_string(),
        ip: value["ip"].as_str().unwrap().to_string(),
        sensitivities: list("sensitivities")
            .iter()
            .map(|v| v.as_u64().unwrap() as u8)
            .collect(),
        saturation_charges: list("saturation_charges")
            .iter()
            .map(|v| d(v.as_f64().unwrap()))
            .collect(),
        pvs: texts(&value["pvs"]),
        defaults,
    }
}

fn load(yaml: &str) -> Result<Table<DeviceConfig>, ConfigError> {
    let root: Value = serde_norway::from_str(yaml).unwrap();
    let mut configs = Table::new();
    for (name, value) in root.as_mapping().unwrap() {
        configs.insert(name.as_str().unwrap().to_string(), device_config(value));
    }
    load_device_configs(configs)
}

fn load_error(yaml: &str) -> String {
    load(yaml).unwrap_err().message()
}

#[test]
fn valid_config_loads() {
    let yaml = r#"
test-device:
  type: wcm
  digitizer: "DIG01"
  ip: "192.168.1.1"
  sensitivities: [3, 4]
  pvs:
    charge: "TEST:CHARGE"
    corrA: "TEST:CORRA"
  defaults:
    corrA: 1.0
"#;
    let configs = load(yaml).unwrap();
    assert_eq!(configs.len(), 1);
    assert!(configs.contains_key("test-device"));
}

#[test]
fn empty_sensitivities_rejected() {
    let yaml = r#"
test-device:
  type: wcm
  digitizer: "DIG01"
  ip: "192.168.1.1"
  sensitivities: []
  pvs:
    charge: "TEST:CHARGE"
  defaults: {}
"#;
    let result = load(yaml);
    assert!(result.is_err());
    let err_msg = result.unwrap_err().message();
    assert!(err_msg.contains("sensitivities"));
    assert_eq!(err_msg, "Device test-device: sensitivities array must not be empty");
}

#[test]
fn saturation_charges_length_mismatch_rejected() {
    let yaml = r#"
test-device:
  type: fcup
  digitizer: "DIG01"
  ip: "192.168.1.1"
  sensitivities: [0, 1, 2]
  saturation_charges: [10, 20]
  pvs:
    charge: "TEST:CHARGE"
  defaults: {}
"#;
    let err = load_error(yaml);
    assert!(err.contains("saturation_charges"), "{err}");
    assert_eq!(
        err,
        "Device test-device: saturation_charges has 2 values but there are 3 sensitivities"
    );
}

#[test]
fn missing_charge_pv_rejected() {
    let yaml = r#"
test-device:
  type: wcm
  digitizer: "DIG01"
  ip: "192.168.1.1"
  sensitivities: [3]
  pvs:
    corrA: "TEST:CORRA"
  defaults: {}
"#;
    let result = load(yaml);
    assert!(result.is_err());
    let err_msg = result.unwrap_err().message();
    assert!(err_msg.contains("charge"));
    assert_eq!(err_msg, "Device test-device: missing required 'charge' PV");
}

#[test]
fn ict_config_loads_without_sensitivities() {
    let yaml = r#"
test-ict:
  type: ict
  digitizer: "DIG01"
  ip: ""
  pvs:
    charge: "TEST:CHARGE"
    HoldDelay: "TEST:HOLDDELAY"
  defaults:
    charge: 0.0
    HoldDelay: 0
"#;
    let configs = load(yaml).unwrap();
    assert_eq!(configs.len(), 1);
    let cfg = configs.get("test-ict").unwrap();
    assert!(cfg.sensitivities.is_empty());
}

#[test]
fn ict_with_per_sensitivity_array_rejected() {
    let yaml = r#"
test-ict:
  type: ict
  digitizer: "DIG01"
  ip: ""
  pvs:
    charge: "TEST:CHARGE"
    HoldDelay: "TEST:HOLDDELAY"
  defaults:
    HoldDelay: [1, 2]
"#;
    let err = load_error(yaml);
    assert!(err.contains("HoldDelay"), "{err}");
    assert!(err.contains("no sensitivities"), "{err}");
}

#[test]
fn per_sensitivity_array_matching_length_loads() {
    let yaml = r#"
test-device:
  type: wcm
  digitizer: "DIG01"
  ip: "192.168.1.1"
  sensitivities: [3, 4]
  pvs:
    charge: "TEST:CHARGE"
    corrA: "TEST:CORRA"
  defaults:
    base_low: 1025
    corrA: [0.089, 0.273]
"#;
    let configs = load(yaml).unwrap();
    let dev = configs.get("test-device").unwrap();
    assert!((f(dev.defaults.get("corrA").unwrap().for_sensitivity(1)) - 0.273).abs() < 1e-9);
    assert!((f(dev.defaults.get("base_low").unwrap().for_sensitivity(1)) - 1025.0).abs() < 1e-9);
}

#[test]
fn per_sensitivity_array_length_mismatch_rejected() {
    let yaml = r#"
test-device:
  type: wcm
  digitizer: "DIG01"
  ip: "192.168.1.1"
  sensitivities: [3, 4, 5]
  pvs:
    charge: "TEST:CHARGE"
    corrA: "TEST:CORRA"
  defaults:
    corrA: [0.089, 0.273]
"#;
    let result = load(yaml);
    assert!(result.is_err());
    let err_msg = result.unwrap_err().message();
    assert!(err_msg.contains("corrA"));
    assert!(err_msg.contains("sensitivities"));
    assert_eq!(
        err_msg,
        "Device test-device: default 'corrA' has 2 values but there are 3 sensitivities \
         (per-sensitivity arrays must match)"
    );
}

#[test]
fn default_value_scalar_is_constant_across_sensitivities() {
    let json: serde_json::Value = serde_json::from_str("1027").unwrap();
    let v = DefaultValue::Scalar(d(json.as_f64().unwrap()));
    assert!(matches!(v, DefaultValue::Scalar(_)));
    assert_eq!(v.array_len(), None);
    assert_eq!(f(v.for_sensitivity(0)), 1027.0);
    assert_eq!(f(v.for_sensitivity(5)), 1027.0);
}

#[test]
fn default_value_array_indexes_by_sensitivity() {
    let json: Vec<f64> = serde_json::from_str("[0.1, 0.2, 0.3]").unwrap();
    let v = DefaultValue::Array(json.iter().map(|x| d(*x)).collect());
    assert!(matches!(v, DefaultValue::Array(_)));
    assert_eq!(v.array_len(), Some(3));
    assert!((f(v.for_sensitivity(0)) - 0.1).abs() < 1e-9);
    assert!((f(v.for_sensitivity(2)) - 0.3).abs() < 1e-9);
    assert!((f(v.for_sensitivity(9)) - 0.3).abs() < 1e-9);
}

#[test]
fn empty_array_defaults_to_zero() {
    assert_eq!(DefaultValue::Array(vec![]).for_sensitivity(0), d(0.0));
    assert_eq!(DefaultValue::Array(vec![]).array_len(), Some(0));
}

#[test]
fn network_is_selected_by_mode() {
    let mut physical = Table::new();
    physical.insert("EPICS_CA_ADDR_LIST".to_string(), "192.168.83.255".to_string());
    let mut virtual_ = Table::new();
    virtual_.insert("EPICS_CA_SERVER_PORT".to_string(), "6020".to_string());
    let network = NetworkConfig { physical, virtual_ };
    assert_eq!(network.variables(false).key_at(0), "EPICS_CA_ADDR_LIST");
    assert_eq!(network.variables(true).get("EPICS_CA_SERVER_PORT").unwrap(), "6020");
}

#[test]
fn later_entries_of_a_table_replace_earlier_ones() {
    let mut table: Table<u32> = Table::new();
    table.insert("a".to_string(), 1);
    table.insert("b".to_string(), 2);
    table.insert("a".to_string(), 3);
    assert_eq!(table.len(), 2);
    assert_eq!(table.get("a"), Some(&3));
    assert_eq!(table.get("c"), None);
    assert_eq!(table.key_at(0), "a");
    assert_eq!(
        table.into_entries(),
        vec![("a".to_string(), 3), ("b".to_string(), 2)]
    );
}

#[test]
fn tables_hold_each_key_once() {
    let mut table: Table<u8> = Table::new();
    table.insert("a".to_string(), 1);
    table.insert("b".to_string(), 2);
    table.insert("a".to_string(), 3);
    let copy = table.clone();
    assert_eq!(copy.len(), 2);
    assert_eq!((copy.get("a"), copy.get("b"), copy.get("c")), (Some(&3), Some(&2), None));
    assert_eq!(copy.into_entries(), vec![("a".to_string(), 3), ("b".to_string(), 2)]);
}
