//! What the server remembers across restarts, and how it starts from it.

use vstd::prelude::*;

use crate::buffer::RollingBuffer;
use crate::config::DeviceConfig;
use crate::consts::DEFAULT_BUFFER_SIZE;
use crate::double::Double;
use crate::lineup;
use crate::order;
use crate::state;
use crate::state::{DeviceState, InnerState};
use crate::table::Table;
use crate::text;

verus! {

/// What is saved of the state.
#[derive(Clone, Debug)]
pub struct PersistedState {
    pub buffer_size: usize,
    /// The selected sensitivities by device name.
    pub sensitivities: Table<usize>,
    pub device_order: Vec<String>,
    pub auto_gain: bool,
}

/// What was found where the state is saved.
#[derive(Clone, Debug)]
pub enum StateFile {
    /// Nothing that could be read.
    Missing,
    /// Something that is no saved state.
    Corrupt,
    Saved(PersistedState),
}

/// The sensitivities by device name. Of devices with the same name the last counts.
pub open spec fn sensitivities(devices: Seq<DeviceState>) -> Map<Seq<char>, usize>
    decreases devices.len(),
{
    if devices.len() == 0 {
        Map::empty()
    } else {
        sensitivities(devices.drop_last()).insert(
            devices.last().name@,
            devices.last().current_sensitivity,
        )
    }
}

impl PersistedState {
    /// Nothing was changed from the defaults.
    pub open spec fn is_default(self) -> bool {
        &&& self.buffer_size == DEFAULT_BUFFER_SIZE
        &&& self.sensitivities@ == Map::<Seq<char>, usize>::empty()
        &&& self.device_order@.len() == 0
        &&& !self.auto_gain
    }

    /// What is assumed where nothing is saved.
    pub fn default_state() -> (res: PersistedState)
        ensures
            res.is_default(),
    {
        PersistedState {
            buffer_size: DEFAULT_BUFFER_SIZE,
            sensitivities: Table::new(),
            device_order: Vec::new(),
            auto_gain: false,
        }
    }

    /// The state to start from, and whether the file is to be put aside as corrupt.
    pub fn load(file: StateFile) -> (res: (PersistedState, bool))
        ensures
            match file {
                StateFile::Missing => res.0.is_default() && !res.1,
                StateFile::Corrupt => res.0.is_default() && res.1,
                StateFile::Saved(saved) => res.0 == saved && !res.1,
            },
    {
        match file {
            StateFile::Missing => (PersistedState::default_state(), false),
            StateFile::Corrupt => (PersistedState::default_state(), true),
            StateFile::Saved(saved) => (saved, false),
        }
    }

    /// Whether this is what is to be saved of a state.
    pub open spec fn is_of(self, state: InnerState) -> bool {
        &&& self.buffer_size == state.buffer_size
        &&& self.sensitivities@ == sensitivities(state.devices@)
        &&& text::texts(self.device_order@) == text::texts(state.device_order@)
        &&& self.auto_gain == state.auto_gain
    }

    /// What is to be saved of a state.
    pub fn of(state: &InnerState) -> (res: PersistedState)
        ensures
            res.is_of(*state),
    {
        let mut saved: Table<usize> = Table::new();
        let ghost all = state.devices@;
        let mut i: usize = 0;
        assert(all.take(0) =~= Seq::<DeviceState>::empty());
        while i < state.devices.len()
            invariant
                i <= all.len(),
                all == state.devices@,
                saved@ == sensitivities(all.take(i as int)),
            decreases all.len() - i,
        {
            assert(all.take(i as int + 1).drop_last() =~= all.take(i as int));
            saved.insert(state.devices[i].name.clone(), state.devices[i].current_sensitivity);
            i += 1;
        }
        assert(all.take(i as int) =~= all);
        PersistedState {
            buffer_size: state.buffer_size,
            sensitivities: saved,
            device_order: text::copy_texts(&state.device_order),
            auto_gain: state.auto_gain,
        }
    }
}

/// The sensitivity that a device starts with: the saved one, or else the last that is
/// configured, which is the least sensitive.
pub open spec fn start_sensitivity(
    saved: Map<Seq<char>, usize>,
    name: Seq<char>,
    config: DeviceConfig,
) -> usize {
    if saved.contains_key(name) {
        saved[name]
    } else if config.sensitivities@.len() > 0 {
        (config.sensitivities@.len() - 1) as usize
    } else {
        0
    }
}

/// Whether `device` is what a configured device starts as.
pub open spec fn is_fresh(
    device: DeviceState,
    config: DeviceConfig,
    saved: PersistedState,
) -> bool {
    &&& device.config == config
    &&& device.buffer.wf()
    &&& device.buffer.held().len() == 0
    &&& device.buffer.recent().len() == 0
    &&& device.buffer.cap() == saved.buffer_size
    &&& device.buffer.pushed() == 0
    &&& device.buffer.stats() == crate::messages::no_stats()
    &&& device.current_sensitivity == start_sensitivity(
        saved.sensitivities@,
        device.name@,
        config,
    )
    &&& !device.connected
    &&& !device.fe_alive
    &&& device.last_data_time.bits == 0
    &&& !device.peak_misaligned
    &&& !device.calibration_mismatch
}

fn fresh_device(name: String, config: DeviceConfig, saved: &PersistedState) -> (res: DeviceState)
    ensures
        res.name == name,
        is_fresh(res, config, *saved),
{
    let selected: usize = match saved.sensitivities.get(name.as_str()) {
        Some(index) => *index,
        None => if config.sensitivities.len() > 0 {
            config.sensitivities.len() - 1
        } else {
            0
        },
    };
    DeviceState {
        config,
        name,
        buffer: RollingBuffer::new(saved.buffer_size),
        current_sensitivity: selected,
        connected: false,
        fe_alive: false,
        last_data_time: Double::zero(),
        peak_misaligned: false,
        calibration_mismatch: false,
    }
}

/// The configured devices as they start, in the order of their names.
fn start_devices(configs: Table<DeviceConfig>, saved: &PersistedState) -> (res: Vec<DeviceState>)
    ensures
        order::strictly_ordered(state::names(res@)),
        state::names(res@).to_set() == configs@.dom(),
        forall|i: int|
            0 <= i < res@.len() ==> is_fresh(
                #[trigger] res@[i],
                configs@[res@[i].name@],
                *saved,
            ),
{
    let ghost keys = configs.keys();
    let ghost map = configs@;
    proof {
        configs.keys_are_domain();
    }
    let mut entries = configs.into_entries();
    let mut devices: Vec<DeviceState> = Vec::new();
    let mut listed: Vec<String> = Vec::new();
    proof {
        assert(keys.skip(keys.len() as int) =~= Seq::<Seq<char>>::empty());
        assert(state::names(devices@).to_set() =~= keys.skip(keys.len() as int).to_set());
    }
    while entries.len() > 0
        invariant
            keys.no_duplicates(),
            entries@.len() <= keys.len(),
            forall|i: int| 0 <= i < entries@.len() ==> (#[trigger] entries@[i]).0@ == keys[i],
            forall|i: int| 0 <= i < entries@.len() ==> (#[trigger] entries@[i]).1 == map[keys[i]],
            text::texts(listed@) == state::names(devices@),
            order::strictly_ordered(state::names(devices@)),
            state::names(devices@).to_set() == keys.skip(entries@.len() as int).to_set(),
            forall|i: int|
                0 <= i < devices@.len() ==> is_fresh(
                    #[trigger] devices@[i],
                    map[devices@[i].name@],
                    *saved,
                ),
        decreases entries@.len(),
    {
        let ghost left = entries@.len() - 1;
        let ghost was = state::names(devices@);
        let ghost fresh_before = devices@;
        let (name, config) = match entries.pop() {
            Some(entry) => entry,
            None => {
                return devices;
            },
        };
        let ghost rest = keys.skip(left + 1);
        let ghost more = keys.skip(left);
        proof {
            order::strict_is_ordered(was);
            assert(!was.contains(name@)) by {
                if was.contains(name@) {
                    assert(was.to_set().contains(name@));
                    assert(rest.contains(name@));
                    let k = choose|k: int| 0 <= k < rest.len() && rest[k] == name@;
                    assert(keys[left + 1 + k] == keys[left]);
                }
            }
        }
        let at: usize = order::place_for(&listed, name.as_str());
        listed.insert(at, name.clone());
        let ghost key = name@;
        let device = fresh_device(name, config, saved);
        devices.insert(at, device);
        proof {
            order::insert_keeps_order(was, key, at as int);
            assert(state::names(devices@) =~= was.insert(at as int, key));
            assert(text::texts(listed@) =~= was.insert(at as int, key));
            assert forall|x: Seq<char>| #[trigger]
                more.to_set().contains(x) <==> rest.to_set().insert(
                    key,
                ).contains(x) by {
                if more.contains(x) {
                    let k = choose|k: int| 0 <= k < more.len() && more[k] == x;
                    if k > 0 {
                        assert(rest[k - 1] == x);
                    }
                }
                if rest.contains(x) {
                    let k = choose|k: int|
                        0 <= k < rest.len() && rest[k] == x;
                    assert(more[k + 1] == x);
                }
                if x == key {
                    assert(more[0] == x);
                }
            }
            assert(state::names(devices@).to_set() =~= more.to_set());
            assert forall|i: int| 0 <= i < devices@.len() implies is_fresh(
                #[trigger] devices@[i],
                map[devices@[i].name@],
                *saved,
            ) by {
                if i < at {
                    assert(devices@[i] == fresh_before[i]);
                } else if i > at {
                    assert(devices@[i] == fresh_before[i - 1]);
                }
            }
        }
    }
    proof {
        assert(keys.skip(0) =~= keys);
        assert(keys.to_set() =~= map.dom());
    }
    devices
}

/// The names of the devices.
pub fn names_of(devices: &Vec<DeviceState>) -> (res: Vec<String>)
    ensures
        text::texts(res@) == state::names(devices@),
{
    let mut out: Vec<String> = Vec::new();
    let mut i: usize = 0;
    while i < devices.len()
        invariant
            i <= devices@.len(),
            text::texts(out@) == state::names(devices@.take(i as int)),
        decreases devices@.len() - i,
    {
        let ghost before = text::texts(out@);
        out.push(devices[i].name.clone());
        assert(text::texts(out@) =~= before.push(devices@[i as int].name@));
        assert(text::texts(out@) =~= state::names(devices@.take(i as int + 1)));
        i += 1;
    }
    assert(devices@.take(i as int) =~= devices@);
    out
}

/// Fits the saved order of display to the devices that are configured.
pub fn reconcile_device_order(persisted: &Vec<String>, devices: &Vec<DeviceState>) -> (res: Vec<
    String,
>)
    ensures
        text::texts(res@) == lineup::reconciled(
            text::texts(persisted@),
            state::names(devices@),
        ),
{
    lineup::reconcile(persisted, &names_of(devices))
}

/// Whether `state` is that in which the server starts.
pub open spec fn is_start(
    configs: Map<Seq<char>, DeviceConfig>,
    saved: PersistedState,
    state: InnerState,
) -> bool {
    &&& order::strictly_ordered(state::names(state.devices@))
    &&& state::names(state.devices@).to_set() == configs.dom()
    &&& forall|i: int|
        0 <= i < state.devices@.len() ==> is_fresh(
            #[trigger] state.devices@[i],
            configs[state.devices@[i].name@],
            saved,
        )
    &&& text::texts(state.device_order@) == lineup::reconciled(
        text::texts(saved.device_order@),
        state::names(state.devices@),
    )
    &&& state.buffer_size == saved.buffer_size
    &&& state.auto_gain == saved.auto_gain
    &&& state.reset_progress is None
    &&& !state.reset_running
}

/// The state in which the server starts.
pub fn start_state(configs: Table<DeviceConfig>, saved: &PersistedState) -> (res: InnerState)
    ensures
        res.wf(),
        res.sized(),
        res.counted(),
        is_start(configs@, *saved, res),
{
    let devices = start_devices(configs, saved);
    let device_order = reconcile_device_order(&saved.device_order, &devices);
    let mut res = InnerState::new(devices, saved.buffer_size, device_order);
    res.auto_gain = saved.auto_gain;
    res
}

/// What is saved of a device is what it starts with again.
pub proof fn saved_sensitivity_restores(devices: Seq<DeviceState>, i: int, config: DeviceConfig)
    requires
        0 <= i < devices.len(),
        state::names(devices).no_duplicates(),
    ensures
        start_sensitivity(sensitivities(devices), devices[i].name@, config)
            == devices[i].current_sensitivity,
    decreases devices.len(),
{
    let last = devices.len() - 1;
    let all = state::names(devices);
    if i < last {
        let front = devices.drop_last();
        assert(all[i] != all[last]);
        assert forall|a: int, b: int|
            0 <= a < front.len() && 0 <= b < front.len() && a != b implies state::names(front)[a]
            != state::names(front)[b] by {
            assert(all[a] != all[b]);
        }
        lemma_saved(front, i);
        saved_sensitivity_restores(front, i, config);
    }
}

proof fn lemma_saved(devices: Seq<DeviceState>, i: int)
    requires
        0 <= i < devices.len(),
    ensures
        sensitivities(devices).contains_key(devices[i].name@),
    decreases devices.len(),
{
    if i < devices.len() - 1 {
        lemma_saved(devices.drop_last(), i);
    }
}

/// A server that is started again goes on as it was: what is saved of a state gives the same buffer
/// size, the same automatic gain, and for each device that is configured as before the same
/// sensitivity. The order of display is as it was where the devices are.
pub proof fn restart_goes_on_as_before(
    was: InnerState,
    saved: PersistedState,
    configs: Map<Seq<char>, DeviceConfig>,
    now: InnerState,
    i: int,
    j: int,
)
    requires
        saved.is_of(was),
        is_start(configs, saved, now),
        state::names(was.devices@).no_duplicates(),
        0 <= i < was.devices@.len(),
        0 <= j < now.devices@.len(),
        now.devices@[j].name@ == was.devices@[i].name@,
    ensures
        now.buffer_size == was.buffer_size,
        now.devices@[j].buffer.cap() == was.buffer_size,
        now.auto_gain == was.auto_gain,
        now.devices@[j].current_sensitivity == was.devices@[i].current_sensitivity,
        now.devices@[j].config == configs[was.devices@[i].name@],
        (forall|n: Seq<char>| #[trigger]
            text::texts(was.device_order@).contains(n) <==> state::names(now.devices@).contains(n))
            ==> text::texts(now.device_order@) == text::texts(was.device_order@),
{
    assert(is_fresh(now.devices@[j], configs[now.devices@[j].name@], saved));
    saved_sensitivity_restores(was.devices@, i, now.devices@[j].config);
    if forall|n: Seq<char>| #[trigger]
        text::texts(was.device_order@).contains(n) <==> state::names(now.devices@).contains(n) {
        lineup::reconciled_keeps_fitting(
            text::texts(was.device_order@),
            state::names(now.devices@),
        );
    }
}

/// A device of which nothing is saved starts at its last level, which is the least sensitive, with
/// an empty buffer and nothing known of it yet.
pub proof fn new_devices_start_least_sensitive(
    configs: Map<Seq<char>, DeviceConfig>,
    saved: PersistedState,
    now: InnerState,
    j: int,
)
    requires
        is_start(configs, saved, now),
        0 <= j < now.devices@.len(),
        !saved.sensitivities@.contains_key(now.devices@[j].name@),
        now.devices@[j].config.sensitivities@.len() <= usize::MAX,
    ensures
        now.devices@[j].config.sensitivities@.len() > 0 ==> now.devices@[j].current_sensitivity
            == now.devices@[j].config.sensitivities@.len() - 1,
        now.devices@[j].config.sensitivities@.len() == 0 ==> now.devices@[j].current_sensitivity
            == 0,
        now.devices@[j].buffer.held().len() == 0,
        !now.devices@[j].connected,
        !now.devices@[j].calibration_mismatch,
        !now.devices@[j].peak_misaligned,
{
    assert(is_fresh(now.devices@[j], configs[now.devices@[j].name@], saved));
}

/// What is started with where nothing was saved: a thousand readings, no levels, no order and no
/// automatic gain.
pub proof fn first_start_is_plain(saved: PersistedState, name: Seq<char>)
    requires
        saved.is_default(),
    ensures
        saved.buffer_size == 1000,
        !saved.sensitivities@.contains_key(name),
        saved.device_order@.len() == 0,
        !saved.auto_gain,
{
}

}
