//! What is configured: the devices, and the network that their process variables are on.

use vstd::prelude::*;

use crate::double::Double;
use crate::messages::DeviceType;
use crate::table::Table;
use crate::text;

verus! {

/// A default value: the same at every sensitivity, or one for each.
#[derive(Clone, Debug)]
pub enum DefaultValue {
    Scalar(Double),
    Array(Vec<Double>),
}

impl DefaultValue {
    /// The value at a sensitivity index. Past the end of an array it is the last value,
    /// and zero if there is none.
    pub open spec fn value(self, index: nat) -> Double {
        match self {
            DefaultValue::Scalar(v) => v,
            DefaultValue::Array(values) => if index < values@.len() {
                values@[index as int]
            } else if values@.len() > 0 {
                values@.last()
            } else {
                Double { bits: 0 }
            },
        }
    }

    /// The value at a sensitivity index. Past the end of an array it is the last value,
    /// and zero if there is none.
    pub fn for_sensitivity(&self, index: usize) -> (res: Double)
        ensures
            res == self.value(index as nat),
    {
        match self {
            DefaultValue::Scalar(v) => *v,
            DefaultValue::Array(values) => {
                if index < values.len() {
                    values[index]
                } else if values.len() > 0 {
                    values[values.len() - 1]
                } else {
                    Double::zero()
                }
            },
        }
    }

    /// How many values there are, if there is one for each sensitivity.
    pub fn array_len(&self) -> (res: Option<usize>)
        ensures
            match *self {
                DefaultValue::Scalar(_) => res is None,
                DefaultValue::Array(values) => res matches Some(n) && n == values@.len(),
            },
    {
        match self {
            DefaultValue::Scalar(_) => None,
            DefaultValue::Array(values) => Some(values.len()),
        }
    }
}

/// The configuration of one charge device.
#[derive(Clone, Debug)]
pub struct DeviceConfig {
    pub device_type: DeviceType,
    /// What the names of the digitizer's process variables begin with.
    pub digitizer: String,
    /// The address of the front-end box; empty if there is none.
    pub ip: String,
    /// The feedback levels that can be selected.
    pub sensitivities: Vec<u8>,
    /// The charge past which each level clips; empty if it is not known.
    pub saturation_charges: Vec<Double>,
    /// Process variables by their keys.
    pub pvs: Table<String>,
    /// Default values by the keys of the process variables that they are written to.
    pub defaults: Table<DefaultValue>,
}

/// The environment that selects a Channel Access network.
#[derive(Clone, Debug)]
pub struct NetworkConfig {
    pub physical: Table<String>,
    pub virtual_: Table<String>,
}

impl NetworkConfig {
    /// The environment variables to set, by name.
    pub fn variables(&self, virtual_mode: bool) -> (res: &Table<String>)
        ensures
            *res == (if virtual_mode {
                self.virtual_
            } else {
                self.physical
            }),
    {
        if virtual_mode {
            &self.virtual_
        } else {
            &self.physical
        }
    }
}

/// Why a device's configuration was rejected.
#[derive(Clone, Debug)]
pub enum ConfigError {
    /// No sensitivities, on a device that has a front-end box.
    NoSensitivities { device: String },
    /// No process variable to read the charge from.
    NoChargePv { device: String },
    /// Saturation limits that do not match the sensitivities.
    SaturationCount { device: String, values: usize, levels: usize },
    /// One default for each sensitivity, but no sensitivities.
    ArrayWithoutSensitivities { device: String, key: String },
    /// One default for each sensitivity, but not as many as there are.
    ArrayCount { device: String, key: String, values: usize, levels: usize },
}

pub enum ConfigErrorView {
    NoSensitivities { device: Seq<char> },
    NoChargePv { device: Seq<char> },
    SaturationCount { device: Seq<char>, values: nat, levels: nat },
    ArrayWithoutSensitivities { device: Seq<char>, key: Seq<char> },
    ArrayCount { device: Seq<char>, key: Seq<char>, values: nat, levels: nat },
}

impl View for ConfigError {
    type V = ConfigErrorView;

    open spec fn view(&self) -> ConfigErrorView {
        match *self {
            ConfigError::NoSensitivities { device } => ConfigErrorView::NoSensitivities {
                device: device@,
            },
            ConfigError::NoChargePv { device } => ConfigErrorView::NoChargePv { device: device@ },
            ConfigError::SaturationCount { device, values, levels } =>
            ConfigErrorView::SaturationCount {
                device: device@,
                values: values as nat,
                levels: levels as nat,
            },
            ConfigError::ArrayWithoutSensitivities { device, key } =>
            ConfigErrorView::ArrayWithoutSensitivities { device: device@, key: key@ },
            ConfigError::ArrayCount { device, key, values, levels } =>
            ConfigErrorView::ArrayCount {
                device: device@,
                key: key@,
                values: values as nat,
                levels: levels as nat,
            },
        }
    }
}

impl ConfigErrorView {
    /// The text of the error.
    pub open spec fn message(self) -> Seq<char> {
        match self {
            ConfigErrorView::NoSensitivities { device } => "Device "@ + device
                + ": sensitivities array must not be empty"@,
            ConfigErrorView::NoChargePv { device } => "Device "@ + device
                + ": missing required 'charge' PV"@,
            ConfigErrorView::SaturationCount { device, values, levels } => "Device "@ + device
                + ": saturation_charges has "@ + text::decimal(values) + " values but there are "@
                + text::decimal(levels) + " sensitivities"@,
            ConfigErrorView::ArrayWithoutSensitivities { device, key } => "Device "@ + device
                + ": default '"@ + key
                + "' is a per-sensitivity array, but the device has no sensitivities (use a scalar default)"@,
            ConfigErrorView::ArrayCount { device, key, values, levels } => "Device "@ + device
                + ": default '"@ + key + "' has "@ + text::decimal(values)
                + " values but there are "@ + text::decimal(levels)
                + " sensitivities (per-sensitivity arrays must match)"@,
        }
    }
}

impl ConfigError {
    /// The text of the error.
    pub fn message(&self) -> (res: String)
        ensures
            res@ == self@.message(),
    {
        match self {
            ConfigError::NoSensitivities { device } => text::cat3(
                "Device ",
                device.as_str(),
                ": sensitivities array must not be empty",
            ),
            ConfigError::NoChargePv { device } => text::cat3(
                "Device ",
                device.as_str(),
                ": missing required 'charge' PV",
            ),
            ConfigError::SaturationCount { device, values, levels } => {
                let head = text::cat4(
                    "Device ",
                    device.as_str(),
                    ": saturation_charges has ",
                    text::decimal_text(*values as u64).as_str(),
                );
                text::cat4(
                    head.as_str(),
                    " values but there are ",
                    text::decimal_text(*levels as u64).as_str(),
                    " sensitivities",
                )
            },
            ConfigError::ArrayWithoutSensitivities { device, key } => text::cat5(
                "Device ",
                device.as_str(),
                ": default '",
                key.as_str(),
                "' is a per-sensitivity array, but the device has no sensitivities (use a scalar default)",
            ),
            ConfigError::ArrayCount { device, key, values, levels } => {
                let head = text::cat5(
                    "Device ",
                    device.as_str(),
                    ": default '",
                    key.as_str(),
                    "' has ",
                );
                text::cat5(
                    head.as_str(),
                    text::decimal_text(*values as u64).as_str(),
                    " values but there are ",
                    text::decimal_text(*levels as u64).as_str(),
                    " sensitivities (per-sensitivity arrays must match)",
                )
            },
        }
    }
}

/// What is wrong with a default value on a device with `levels` sensitivities.
pub open spec fn default_fault(
    device: Seq<char>,
    key: Seq<char>,
    value: DefaultValue,
    levels: nat,
) -> Option<ConfigErrorView> {
    match value {
        DefaultValue::Scalar(_) => None,
        DefaultValue::Array(values) => if levels == 0 {
            Some(ConfigErrorView::ArrayWithoutSensitivities { device, key })
        } else if values@.len() != levels {
            Some(ConfigErrorView::ArrayCount { device, key, values: values@.len(), levels })
        } else {
            None
        },
    }
}

/// The first fault of the defaults from the `from`th on.
pub open spec fn defaults_fault(
    device: Seq<char>,
    config: DeviceConfig,
    from: nat,
) -> Option<ConfigErrorView>
    decreases config.defaults.keys().len() - from,
{
    let keys = config.defaults.keys();
    if from >= keys.len() {
        None
    } else {
        let key = keys[from as int];
        match default_fault(device, key, config.defaults@[key], config.sensitivities@.len()) {
            Some(fault) => Some(fault),
            None => defaults_fault(device, config, from + 1),
        }
    }
}

/// What is wrong with a device's configuration, if anything is.
pub open spec fn device_fault(device: Seq<char>, config: DeviceConfig) -> Option<ConfigErrorView> {
    if config.device_type != DeviceType::Ict && config.sensitivities@.len() == 0 {
        Some(ConfigErrorView::NoSensitivities { device })
    } else if !config.pvs@.contains_key("charge"@) {
        Some(ConfigErrorView::NoChargePv { device })
    } else if config.saturation_charges@.len() > 0 && config.saturation_charges@.len()
        != config.sensitivities@.len() {
        Some(
            ConfigErrorView::SaturationCount {
                device,
                values: config.saturation_charges@.len(),
                levels: config.sensitivities@.len(),
            },
        )
    } else {
        defaults_fault(device, config, 0)
    }
}

/// Checks a device's configuration.
pub fn check_device(device: &str, config: &DeviceConfig) -> (res: Result<(), ConfigError>)
    ensures
        match res {
            Ok(_) => device_fault(device@, *config) is None,
            Err(e) => device_fault(device@, *config) == Some(e@),
        },
{
    if config.device_type != DeviceType::Ict && config.sensitivities.len() == 0 {
        return Err(ConfigError::NoSensitivities { device: device.to_string() });
    }
    if !config.pvs.contains_key("charge") {
        return Err(ConfigError::NoChargePv { device: device.to_string() });
    }
    let levels: usize = config.sensitivities.len();
    let limits: usize = config.saturation_charges.len();
    if limits > 0 && limits != levels {
        return Err(
            ConfigError::SaturationCount { device: device.to_string(), values: limits, levels },
        );
    }
    let mut i: usize = 0;
    while i < config.defaults.len()
        invariant
            i <= config.defaults.keys().len(),
            levels == config.sensitivities@.len(),
            device_fault(device@, *config) == defaults_fault(device@, *config, i as nat),
        decreases config.defaults.keys().len() - i,
    {
        let key = config.defaults.key_at(i);
        proof {
            config.defaults.keys_are_domain();
            assert(config.defaults.keys().contains(key@));
        }
        if let Some(value) = config.defaults.get(key) {
            if let Some(values) = value.array_len() {
                if levels == 0 {
                    return Err(
                        ConfigError::ArrayWithoutSensitivities {
                            device: device.to_string(),
                            key: key.to_string(),
                        },
                    );
                }
                if values != levels {
                    return Err(
                        ConfigError::ArrayCount {
                            device: device.to_string(),
                            key: key.to_string(),
                            values,
                            levels,
                        },
                    );
                }
            }
        }
        i += 1;
    }
    Ok(())
}

/// The first fault of the devices from the `from`th on.
pub open spec fn configs_fault(configs: Table<DeviceConfig>, from: nat) -> Option<ConfigErrorView>
    decreases configs.keys().len() - from,
{
    let names = configs.keys();
    if from >= names.len() {
        None
    } else {
        match device_fault(names[from as int], configs@[names[from as int]]) {
            Some(fault) => Some(fault),
            None => configs_fault(configs, from + 1),
        }
    }
}

/// The devices' configurations if each of them is sound, else the first fault.
pub fn load_device_configs(configs: Table<DeviceConfig>) -> (res: Result<
    Table<DeviceConfig>,
    ConfigError,
>)
    ensures
        match res {
            Ok(checked) => checked == configs && configs_fault(configs, 0) is None,
            Err(e) => configs_fault(configs, 0) == Some(e@),
        },
{
    let mut i: usize = 0;
    while i < configs.len()
        invariant
            i <= configs.keys().len(),
            configs_fault(configs, 0) == configs_fault(configs, i as nat),
        decreases configs.keys().len() - i,
    {
        let name = configs.key_at(i);
        proof {
            configs.keys_are_domain();
            assert(configs.keys().contains(name@));
        }
        if let Some(config) = configs.get(name) {
            if let Err(e) = check_device(name, config) {
                return Err(e);
            }
        }
        i += 1;
    }
    Ok(configs)
}

proof fn lemma_no_default_fault(device: Seq<char>, config: DeviceConfig, from: nat, i: int)
    requires
        defaults_fault(device, config, from) is None,
        from <= i < config.defaults.keys().len(),
    ensures
        ({
            let key = config.defaults.keys()[i];
            default_fault(device, key, config.defaults@[key], config.sensitivities@.len()) is None
        }),
    decreases i - from,
{
    if from < i {
        lemma_no_default_fault(device, config, from + 1, i);
    }
}

/// On a sound device every default array holds a value for each sensitivity, so that no
/// selectable sensitivity is answered by another one's value.
pub proof fn arrays_match_sensitivities(device: Seq<char>, config: DeviceConfig, key: Seq<char>)
    requires
        device_fault(device, config) is None,
        config.defaults@.contains_key(key),
    ensures
        match config.defaults@[key] {
            DefaultValue::Scalar(_) => true,
            DefaultValue::Array(values) => values@.len() == config.sensitivities@.len() && forall|
                index: nat,
            |
                index < config.sensitivities@.len() ==> #[trigger] config.defaults@[key].value(
                    index,
                ) == values@[index as int],
        },
{
    config.defaults.keys_are_domain();
    let keys = config.defaults.keys();
    assert(keys.contains(key));
    let i = choose|i: int| 0 <= i < keys.len() && keys[i] == key;
    lemma_no_default_fault(device, config, 0, i);
}

/// A device's configuration is sound if and only if it has levels, unless it has no box; a process
/// variable for its charge; a limit for each level, if any; and in each default that goes by level
/// as many values as there are levels.
pub proof fn sound_devices_are_complete(device: Seq<char>, config: DeviceConfig)
    ensures
        device_fault(device, config) is None <==> {
            &&& config.device_type == DeviceType::Ict || config.sensitivities@.len() > 0
            &&& config.pvs@.contains_key("charge"@)
            &&& config.saturation_charges@.len() == 0 || config.saturation_charges@.len()
                == config.sensitivities@.len()
            &&& forall|key: Seq<char>| #[trigger]
                config.defaults@.contains_key(key) ==> match config.defaults@[key] {
                    DefaultValue::Scalar(_) => true,
                    DefaultValue::Array(values) => values@.len() > 0 && values@.len()
                        == config.sensitivities@.len(),
                }
        },
{
    config.defaults.keys_are_domain();
    let keys = config.defaults.keys();
    let levels = config.sensitivities@.len();
    if device_fault(device, config) is None {
        assert forall|key: Seq<char>| #[trigger]
            config.defaults@.contains_key(key) implies match config.defaults@[key] {
            DefaultValue::Scalar(_) => true,
            DefaultValue::Array(values) => values@.len() > 0 && values@.len() == levels,
        } by {
            assert(keys.contains(key));
            let i = choose|i: int| 0 <= i < keys.len() && keys[i] == key;
            lemma_no_default_fault(device, config, 0, i);
        }
    }
    if forall|key: Seq<char>| #[trigger]
        config.defaults@.contains_key(key) ==> match config.defaults@[key] {
            DefaultValue::Scalar(_) => true,
            DefaultValue::Array(values) => values@.len() > 0 && values@.len() == levels,
        } {
        assert forall|i: int| 0 <= i < keys.len() implies default_fault(
            device,
            #[trigger] keys[i],
            config.defaults@[keys[i]],
            levels,
        ) is None by {
            assert(keys.contains(keys[i]));
        }
        lemma_defaults_sound(device, config, 0);
    }
}

proof fn lemma_defaults_sound(device: Seq<char>, config: DeviceConfig, from: nat)
    requires
        forall|i: int|
            0 <= i < config.defaults.keys().len() ==> default_fault(
                device,
                #[trigger] config.defaults.keys()[i],
                config.defaults@[config.defaults.keys()[i]],
                config.sensitivities@.len(),
            ) is None,
    ensures
        defaults_fault(device, config, from) is None,
    decreases config.defaults.keys().len() - from,
{
    if from < config.defaults.keys().len() {
        let key = config.defaults.keys()[from as int];
        assert(default_fault(
            device,
            key,
            config.defaults@[key],
            config.sensitivities@.len(),
        ) is None);
        lemma_defaults_sound(device, config, from + 1);
    }
}

/// Configurations are accepted if and only if each of them is sound.
pub proof fn accepted_configurations_are_sound(configs: Table<DeviceConfig>)
    ensures
        configs_fault(configs, 0) is None <==> forall|name: Seq<char>| #[trigger]
            configs@.contains_key(name) ==> device_fault(name, configs@[name]) is None,
{
    configs.keys_are_domain();
    let names = configs.keys();
    lemma_configs_fault(configs, 0);
    if configs_fault(configs, 0) is None {
        assert forall|name: Seq<char>| #[trigger] configs@.contains_key(name) implies device_fault(
            name,
            configs@[name],
        ) is None by {
            assert(names.contains(name));
            let i = choose|i: int| 0 <= i < names.len() && names[i] == name;
            assert(device_fault(names[i], configs@[names[i]]) is None);
        }
    } else {
        let i = choose|i: int|
            0 <= i < names.len() && device_fault(#[trigger] names[i], configs@[names[i]]) is Some;
        assert(names.contains(names[i]));
        assert(configs@.contains_key(names[i]));
    }
}

proof fn lemma_configs_fault(configs: Table<DeviceConfig>, from: nat)
    ensures
        configs_fault(configs, from) is None <==> forall|i: int|
            from <= i < configs.keys().len() ==> device_fault(
                #[trigger] configs.keys()[i],
                configs@[configs.keys()[i]],
            ) is None,
    decreases configs.keys().len() - from,
{
    if from < configs.keys().len() {
        lemma_configs_fault(configs, from + 1);
        assert(device_fault(configs.keys()[from as int], configs@[configs.keys()[from as int]])
            is None || configs_fault(configs, from) is Some);
    }
}

/// A default is the same at every sensitivity or the one in its place; past the end of an array it is
/// the last one.
pub proof fn defaults_go_by_sensitivity(default: DefaultValue, index: nat)
    ensures
        match default {
            DefaultValue::Scalar(v) => default.value(index) == v,
            DefaultValue::Array(values) => {
                &&& index < values@.len() ==> default.value(index) == values@[index as int]
                &&& values@.len() > 0 && index >= values@.len() ==> default.value(index)
                    == values@[values@.len() - 1]
            },
        },
{
}

/// Of several faults the first is reported: missing levels before a missing process variable, that
/// before limits that do not match, and those before the defaults. What is reported are the numbers
/// that do not match.
pub proof fn first_fault_is_reported(device: Seq<char>, config: DeviceConfig)
    ensures
        config.device_type != DeviceType::Ict && config.sensitivities@.len() == 0 ==> device_fault(
            device,
            config,
        ) == Some(ConfigErrorView::NoSensitivities { device }),
        (config.device_type == DeviceType::Ict || config.sensitivities@.len() > 0)
            && !config.pvs@.contains_key("charge"@) ==> device_fault(device, config) == Some(
            ConfigErrorView::NoChargePv { device },
        ),
        (config.device_type == DeviceType::Ict || config.sensitivities@.len() > 0)
            && config.pvs@.contains_key("charge"@) && config.saturation_charges@.len() > 0
            && config.saturation_charges@.len() != config.sensitivities@.len() ==> device_fault(
            device,
            config,
        ) == Some(
            ConfigErrorView::SaturationCount {
                device,
                values: config.saturation_charges@.len(),
                levels: config.sensitivities@.len(),
            },
        ),
{
}

}
