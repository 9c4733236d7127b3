//! Commands of the operators.
//!
//! A command that needs hardware is worked off in steps: each step says what to do next and
//! takes what came of it.

use vstd::prelude::*;

use crate::buffer::Moments;
use crate::chart;
use crate::config::{DefaultValue, DeviceConfig};
use crate::consts::{MAX_BUFFER_SIZE, MIN_BUFFER_SIZE};
use crate::double::Double;
use crate::keys;
use crate::messages::{DeviceType, NotificationLevel, ServerMessage, ServerMessageView};
use crate::state::{DeviceState, InnerState};
use crate::text;

verus! {

/// Something to do that no later step waits for.
#[derive(Clone, Debug)]
pub enum Effect {
    /// Write a process variable. A failure is logged.
    Caput { pv: String, value: Double },
    /// Send a message to all clients.
    Send(ServerMessage),
    /// Send a notification to all clients.
    Notify { level: NotificationLevel, message: String, device: Option<String> },
    /// Send the whole buffers to all clients.
    ChartReset,
}

#[verifier::ext_equal]
pub enum EffectView {
    Caput { pv: Seq<char>, value: Double },
    Send(ServerMessageView),
    Notify { level: NotificationLevel, message: Seq<char>, device: Option<Seq<char>> },
    ChartReset,
}

impl View for Effect {
    type V = EffectView;

    open spec fn view(&self) -> EffectView {
        match *self {
            Effect::Caput { pv, value } => EffectView::Caput { pv: pv@, value },
            Effect::Send(message) => EffectView::Send(message@),
            Effect::Notify { level, message, device } => EffectView::Notify {
                level,
                message: message@,
                device: text::opt_text(device),
            },
            Effect::ChartReset => EffectView::ChartReset,
        }
    }
}

/// What a list of effects comes to.
pub open spec fn effects(list: Seq<Effect>) -> Seq<EffectView> {
    list.map_values(|e: Effect| e@)
}

/// A notification about one device.
pub open spec fn notice(
    level: NotificationLevel,
    message: Seq<char>,
    device: Seq<char>,
) -> EffectView {
    EffectView::Notify { level, message, device: Some(device) }
}

/// A notification about no device in particular.
pub open spec fn general_notice(level: NotificationLevel, message: Seq<char>) -> EffectView {
    EffectView::Notify { level, message, device: None }
}

pub(crate) fn notify(level: NotificationLevel, message: String, device: &str) -> (res: Effect)
    ensures
        res@ == notice(level, message@, device@),
{
    Effect::Notify { level, message, device: Some(device.to_string()) }
}

pub(crate) fn notify_all(level: NotificationLevel, message: String) -> (res: Effect)
    ensures
        res@ == general_notice(level, message@),
{
    Effect::Notify { level, message, device: None }
}

/// Why a command failed.
#[derive(Clone, Debug)]
pub struct CommandError {
    pub message: String,
    pub device: Option<String>,
}

#[verifier::ext_equal]
pub struct CommandErrorView {
    pub message: Seq<char>,
    pub device: Option<Seq<char>>,
}

impl View for CommandError {
    type V = CommandErrorView;

    open spec fn view(&self) -> CommandErrorView {
        CommandErrorView { message: self.message@, device: text::opt_text(self.device) }
    }
}

/// The failure of a command on a device.
pub open spec fn failure(message: Seq<char>, device: Seq<char>) -> CommandErrorView {
    CommandErrorView { message, device: Some(device) }
}

impl CommandError {
    /// The failure of a command on a device.
    pub fn for_device(message: String, device: &str) -> (res: CommandError)
        ensures
            res@ == failure(message@, device@),
    {
        CommandError { message, device: Some(device.to_string()) }
    }

    /// How a failure is reported to the operators.
    pub fn report(self) -> (res: Effect)
        ensures
            res@ == (EffectView::Notify {
                level: NotificationLevel::Error,
                message: self@.message,
                device: self@.device,
            }),
    {
        Effect::Notify {
            level: NotificationLevel::Error,
            message: self.message,
            device: self.device,
        }
    }
}

/// The failure of a command on a device that does not exist.
pub open spec fn not_found(device: Seq<char>) -> CommandErrorView {
    failure("Device "@ + device + " not found"@, device)
}

pub(crate) fn device_not_found(device: &str) -> (res: CommandError)
    ensures
        res@ == not_found(device@),
{
    CommandError::for_device(text::cat3("Device ", device, " not found"), device)
}

/// The process variable of a device under a key.
pub open spec fn pv_of(config: DeviceConfig, key: Seq<char>) -> Option<Seq<char>> {
    if config.pvs@.contains_key(key) {
        Some(config.pvs@[key]@)
    } else {
        None
    }
}

/// The default value of a device under a key, at a sensitivity.
pub open spec fn default_of(config: DeviceConfig, key: Seq<char>, index: nat) -> Option<Double> {
    if config.defaults@.contains_key(key) {
        Some(config.defaults@[key].value(index))
    } else {
        None
    }
}

pub(crate) fn pv_text(config: &DeviceConfig, key: &str) -> (res: Option<String>)
    ensures
        text::opt_text(res) == pv_of(*config, key@),
{
    match config.pvs.get(key) {
        Some(pv) => Some(pv.clone()),
        None => None,
    }
}

pub(crate) fn default_value(config: &DeviceConfig, key: &str, index: usize) -> (res: Option<Double>)
    ensures
        res == default_of(*config, key@, index as nat),
{
    match config.defaults.get(key) {
        Some(value) => Some(value.for_sensitivity(index)),
        None => None,
    }
}

/// A process variable and the value to write to it.
#[derive(Clone, Debug)]
pub struct PvWrite {
    pub pv: String,
    pub value: Double,
}

#[verifier::ext_equal]
pub struct PvWriteView {
    pub pv: Seq<char>,
    pub value: Double,
}

impl View for PvWrite {
    type V = PvWriteView;

    open spec fn view(&self) -> PvWriteView {
        PvWriteView { pv: self.pv@, value: self.value }
    }
}

/// What a list of writes comes to.
pub open spec fn writes(list: Seq<PvWrite>) -> Seq<PvWriteView> {
    list.map_values(|w: PvWrite| w@)
}

/// The write of the default under a key, if the key has both a process variable and a default.
pub open spec fn default_write(
    config: DeviceConfig,
    key: Seq<char>,
    index: nat,
) -> Seq<PvWriteView> {
    match (pv_of(config, key), default_of(config, key, index)) {
        (Some(pv), Some(value)) => seq![PvWriteView { pv, value }],
        _ => Seq::empty(),
    }
}

pub(crate) fn push_default_write(
    list: &mut Vec<PvWrite>,
    config: &DeviceConfig,
    key: &str,
    index: usize,
)
    ensures
        writes(final(list)@) == writes(old(list)@) + default_write(*config, key@, index as nat),
{
    let ghost was = writes(list@);
    if let Some(pv) = pv_text(config, key) {
        if let Some(value) = default_value(config, key, index) {
            list.push(PvWrite { pv, value });
            assert(writes(list@) =~= was + default_write(*config, key@, index as nat));
            return ;
        }
    }
    assert(writes(list@) =~= was + default_write(*config, key@, index as nat));
}

/// A change of sensitivity that is being pushed to the front-end box.
#[derive(Clone, Debug)]
pub struct SensitivityChange {
    pub device: String,
    pub index: usize,
    /// The address of the front-end box.
    pub ip: String,
    /// The feedback level to set.
    pub level: u8,
    /// The calibration that goes with it.
    pub calibration: Vec<PvWrite>,
}

/// The calibration that goes with a sensitivity: the device's own factor, and for a wall
/// current monitor that of its dark-charge companion.
pub open spec fn calibration(
    state: InnerState,
    device: DeviceState,
    index: nat,
) -> Seq<PvWriteView> {
    let own = default_write(device.config, keys::CORR_A@, index);
    if device.config.device_type == DeviceType::Wcm {
        match state.find(device.name@ + ":DQ"@) {
            Some(i) => own + default_write(state.devices@[i].config, keys::DQ_CAL@, index),
            None => own,
        }
    } else {
        own
    }
}

/// Why the sensitivity of a device cannot be set to an index, if it cannot.
pub open spec fn sensitivity_fault(state: InnerState, device: Seq<char>, index: nat) -> Option<
    CommandErrorView,
> {
    match state.find(device) {
        None => Some(not_found(device)),
        Some(i) => {
            let config = state.devices@[i].config;
            if config.device_type == DeviceType::Ict {
                Some(
                    failure(
                        "SetSensitivity not applicable to ICT device "@ + device,
                        device,
                    ),
                )
            } else if index >= config.sensitivities@.len() {
                Some(
                    failure(
                        "Sensitivity index "@ + text::decimal(index) + " out of range for "@
                            + device,
                        device,
                    ),
                )
            } else {
                None
            }
        },
    }
}

/// Whether `change` is the change of a device's sensitivity to an index.
pub open spec fn is_change(
    state: InnerState,
    device: Seq<char>,
    index: nat,
    change: SensitivityChange,
) -> bool {
    &&& sensitivity_fault(state, device, index) is None
    &&& state.find(device) matches Some(i)
    &&& change.device@ == device
    &&& change.index == index
    &&& change.ip@ == state.devices@[i].config.ip@
    &&& change.level == state.devices@[i].config.sensitivities@[index as int]
    &&& writes(change.calibration@) == calibration(state, state.devices@[i], index)
}

/// Starts a change of sensitivity. The level is then to be pushed to the front-end box.
pub fn begin_set_sensitivity(device_name: &str, index: usize, state: &InnerState) -> (res: Result<
    SensitivityChange,
    CommandError,
>)
    ensures
        match res {
            Err(e) => sensitivity_fault(*state, device_name@, index as nat) == Some(e@),
            Ok(change) => is_change(*state, device_name@, index as nat, change),
        },
{
    let device = match state.device(device_name) {
        Some(device) => device,
        None => {
            return Err(device_not_found(device_name));
        },
    };
    if device.config.device_type == DeviceType::Ict {
        return Err(
            CommandError::for_device(
                text::cat2("SetSensitivity not applicable to ICT device ", device_name),
                device_name,
            ),
        );
    }
    if index >= device.config.sensitivities.len() {
        return Err(
            CommandError::for_device(
                text::cat4(
                    "Sensitivity index ",
                    text::decimal_text(index as u64).as_str(),
                    " out of range for ",
                    device_name,
                ),
                device_name,
            ),
        );
    }
    let mut factors: Vec<PvWrite> = Vec::new();
    push_default_write(&mut factors, &device.config, keys::CORR_A, index);
    assert(writes(factors@) =~= default_write(device.config, keys::CORR_A@, index as nat));
    if device.config.device_type == DeviceType::Wcm {
        if let Some(dq) = state.device(keys::dq_companion(device_name).as_str()) {
            push_default_write(&mut factors, &dq.config, keys::DQ_CAL, index);
        }
    }
    Ok(
        SensitivityChange {
            device: device_name.to_string(),
            index,
            ip: device.config.ip.clone(),
            level: device.config.sensitivities[index],
            calibration: factors,
        },
    )
}

/// The effects that perform writes.
pub open spec fn caputs(list: Seq<PvWriteView>) -> Seq<EffectView> {
    list.map_values(|w: PvWriteView| EffectView::Caput { pv: w.pv, value: w.value })
}

fn caput_all(list: &Vec<PvWrite>) -> (res: Vec<Effect>)
    ensures
        effects(res@) == caputs(writes(list@)),
{
    let mut out: Vec<Effect> = Vec::new();
    let mut i: usize = 0;
    while i < list.len()
        invariant
            i <= list@.len(),
            effects(out@) == caputs(writes(list@)).take(i as int),
        decreases list@.len() - i,
    {
        let ghost before = effects(out@);
        out.push(Effect::Caput { pv: list[i].pv.clone(), value: list[i].value });
        assert(effects(out@) =~= before.push(
            EffectView::Caput { pv: list@[i as int].pv@, value: list@[i as int].value },
        ));
        assert(effects(out@) =~= caputs(writes(list@)).take(i as int + 1));
        i += 1;
    }
    assert(caputs(writes(list@)).take(i as int) =~= caputs(writes(list@)));
    out
}

/// The dark-charge companion of a device, if it is a wall current monitor that has one. Its
/// calibration is written with that of the device.
pub open spec fn companion(state: InnerState, device: Seq<char>) -> Option<int> {
    match state.find(device) {
        Some(i) => if state.devices@[i].config.device_type == DeviceType::Wcm {
            state.find(device + ":DQ"@)
        } else {
            None
        },
        None => None,
    }
}

/// What the clients are told of a companion when a device is set: that it no longer bears a
/// warning, if it did.
pub open spec fn companion_effects(state: InnerState, device: Seq<char>) -> Seq<EffectView> {
    match companion(state, device) {
        Some(j) => if state.devices@[j].calibration_mismatch {
            seq![
                EffectView::Send(
                    ServerMessageView::StateUpdate {
                        device: state.devices@[j].name@,
                        sensitivity: state.devices@[j].current_sensitivity as nat,
                        calibration_mismatch: false,
                    },
                ),
            ]
        } else {
            Seq::empty()
        },
        None => Seq::empty(),
    }
}

/// The devices when a change of sensitivity has reached the front-end box: the device is at the
/// new index, and neither it nor its companion bears a warning.
pub open spec fn devices_set(state: InnerState, device: Seq<char>, index: usize) -> Seq<DeviceState> {
    match state.find(device) {
        Some(i) => {
            let set = state.devices@.update(
                i,
                DeviceState {
                    current_sensitivity: index,
                    calibration_mismatch: false,
                    ..state.devices@[i]
                },
            );
            match companion(state, device) {
                Some(j) => set.update(j, DeviceState { calibration_mismatch: false, ..set[j] }),
                None => set,
            }
        },
        None => state.devices@,
    }
}

/// What a change of sensitivity that reached the front-end box brings about.
pub open spec fn sensitivity_effects(state: InnerState, change: SensitivityChange) -> Seq<
    EffectView,
> {
    (caputs(writes(change.calibration@)).push(
        EffectView::Send(
            ServerMessageView::StateUpdate {
                device: change.device@,
                sensitivity: change.index as nat,
                calibration_mismatch: false,
            },
        ),
    ) + companion_effects(state, change.device@)).push(
        notice(
            NotificationLevel::Success,
            "Sensitivity set to "@ + text::decimal(change.level as nat) + " for "@ + change.device@,
            change.device@,
        ),
    )
}

/// Takes the warning from the companion of a device. Gives what the clients are told of it.
fn clear_companion(device: &str, state: &mut InnerState) -> (res: Option<Effect>)
    requires
        old(state).wf(),
    ensures
        final(state).wf(),
        *final(state) == (InnerState { devices: final(state).devices, ..*old(state) }),
        crate::state::names(final(state).devices@) == crate::state::names(old(state).devices@),
        final(state).devices@ == (match companion(*old(state), device@) {
            Some(j) => old(state).devices@.update(
                j,
                (DeviceState { calibration_mismatch: false, ..old(state).devices@[j] }),
            ),
            None => old(state).devices@,
        }),
        companion_effects(*old(state), device@) == (match res {
            Some(effect) => seq![effect@],
            None => Seq::empty(),
        }),
        companion(*old(state), device@) matches Some(j) ==> 0 <= j < old(state).devices@.len()
            && old(state).devices@[j].name@ == device@ + ":DQ"@,
{
    let is_wcm = match state.device(device) {
        Some(d) => d.config.device_type == DeviceType::Wcm,
        None => false,
    };
    if !is_wcm {
        return None;
    }
    match state.device_mut(keys::dq_companion(device).as_str()) {
        Some(dq) => if dq.calibration_mismatch {
            dq.calibration_mismatch = false;
            Some(
                Effect::Send(
                    ServerMessage::StateUpdate {
                        device: dq.name.clone(),
                        sensitivity: dq.current_sensitivity,
                        calibration_mismatch: false,
                    },
                ),
            )
        } else {
            None
        },
        None => None,
    }
}

/// Ends a change of sensitivity: `pushed` is what came of pushing the level. If that worked
/// the new sensitivity is recorded, before anyone can hear of it from the front-end box, and
/// the calibration is written. With it goes the warning that the calibration may not match, of the
/// device and of its companion.
pub fn finish_set_sensitivity(
    change: SensitivityChange,
    pushed: Result<(), String>,
    state: &mut InnerState,
) -> (res: Result<Vec<Effect>, CommandError>)
    requires
        old(state).wf(),
    ensures
        final(state).wf(),
        match (pushed, res) {
            (Err(e), Err(failed)) => failed@ == failure(
                "Failed to set sensitivity for "@ + change.device@ + ": "@ + e@,
                change.device@,
            ) && *final(state) == *old(state),
            (Ok(_), Ok(list)) => {
                &&& effects(list@) == sensitivity_effects(*old(state), change)
                &&& *final(state) == (InnerState { devices: final(state).devices, ..*old(state) })
                &&& final(state).devices@ == devices_set(*old(state), change.device@, change.index)
            },
            _ => false,
        },
{
    if let Err(e) = pushed {
        return Err(
            CommandError::for_device(
                text::cat4(
                    "Failed to set sensitivity for ",
                    change.device.as_str(),
                    ": ",
                    e.as_str(),
                ),
                change.device.as_str(),
            ),
        );
    }
    let released = clear_companion(change.device.as_str(), state);
    if let Some(device) = state.device_mut(change.device.as_str()) {
        device.current_sensitivity = change.index;
        device.calibration_mismatch = false;
    }
    assert(state.devices@ =~= devices_set(*old(state), change.device@, change.index));
    let mut out = caput_all(&change.calibration);
    let ghost written = effects(out@);
    let update = Effect::Send(
        ServerMessage::StateUpdate {
            device: change.device.clone(),
            sensitivity: change.index,
            calibration_mismatch: false,
        },
    );
    let ghost told = written.push(update@);
    out.push(update);
    assert(effects(out@) =~= told);
    match released {
        Some(effect) => {
            let ghost last = effect@;
            out.push(effect);
            assert(effects(out@) =~= told + seq![last]);
        },
        None => {
            assert(told + Seq::<EffectView>::empty() =~= told);
        },
    }
    let ghost before = effects(out@);
    let done = notify(
        NotificationLevel::Success,
        text::cat4(
            "Sensitivity set to ",
            text::decimal_text(change.level as u64).as_str(),
            " for ",
            change.device.as_str(),
        ),
        change.device.as_str(),
    );
    out.push(done);
    assert(effects(out@) =~= before.push(done@));
    Ok(out)
}

/// Gain and calibration go together: what a change of sensitivity pushes is the level at an
/// index, and what it writes is the calibration at that same index.
pub proof fn gain_and_calibration_go_together(
    state: InnerState,
    device: Seq<char>,
    index: nat,
    change: SensitivityChange,
    k: int,
)
    requires
        is_change(state, device, index, change),
        0 <= k < calibration(
            state,
            state.devices@[state.find(device).unwrap()],
            change.index as nat,
        ).len(),
    ensures
        ({
            let dev = state.devices@[state.find(device).unwrap()];
            let factor = calibration(state, dev, change.index as nat)[k];
            &&& change.level == dev.config.sensitivities@[change.index as int]
            &&& sensitivity_effects(state, change)[k] == (EffectView::Caput {
                pv: factor.pv,
                value: factor.value,
            })
        }),
{
}

/// A level can always be applied again: that it is selected already is no reason to refuse it.
pub proof fn selected_level_can_be_applied_again(state: InnerState, device: Seq<char>)
    requires
        state.find(device) matches Some(i) && state.devices@[i].config.device_type
            != DeviceType::Ict && state.devices@[i].current_sensitivity
            < state.devices@[i].config.sensitivities@.len(),
    ensures
        sensitivity_fault(
            state,
            device,
            state.devices@[state.find(device).unwrap()].current_sensitivity as nat,
        ) is None,
{
}

/// A buffer size within its limits.
pub open spec fn clamped_size(size: nat) -> nat {
    if size < MIN_BUFFER_SIZE {
        MIN_BUFFER_SIZE as nat
    } else if size > MAX_BUFFER_SIZE {
        MAX_BUFFER_SIZE as nat
    } else {
        size
    }
}

/// Whether `now` is `was` with its buffer resized.
pub open spec fn is_resized(was: DeviceState, now: DeviceState, size: nat) -> bool {
    &&& now == (DeviceState { buffer: now.buffer, ..was })
    &&& now.buffer.wf()
    &&& now.buffer.cap() == size
    &&& now.buffer.held() == chart::last_of(was.buffer.held(), size)
    &&& now.buffer.recent() == was.buffer.recent()
    &&& now.buffer.pushed() == was.buffer.pushed()
    &&& now.buffer.moments_view() == was.buffer.moments_view()
}

/// What setting the buffer size comes to.
pub open spec fn buffer_size_set(
    was: InnerState,
    now: InnerState,
    size: nat,
    told: Seq<EffectView>,
) -> bool {
    &&& now == (InnerState { devices: now.devices, buffer_size: now.buffer_size, ..was })
    &&& now.buffer_size == clamped_size(size)
    &&& now.devices@.len() == was.devices@.len()
    &&& forall|i: int|
        0 <= i < now.devices@.len() ==> is_resized(
            was.devices@[i],
            #[trigger] now.devices@[i],
            clamped_size(size),
        )
    &&& told == seq![
        EffectView::Send(ServerMessageView::BufferSizeChanged { size: clamped_size(size) }),
        EffectView::ChartReset,
    ]
}

/// Sets the size of every buffer, within limits. Since readings may be discarded, the
/// clients are sent the whole buffers.
pub fn set_buffer_size(size: usize, state: &mut InnerState) -> (res: Vec<Effect>)
    requires
        old(state).wf(),
    ensures
        final(state).wf(),
        final(state).sized(),
        old(state).counted() ==> final(state).counted(),
        buffer_size_set(*old(state), *final(state), size as nat, effects(res@)),
{
    let size: usize = if size < MIN_BUFFER_SIZE {
        MIN_BUFFER_SIZE
    } else if size > MAX_BUFFER_SIZE {
        MAX_BUFFER_SIZE
    } else {
        size
    };
    state.buffer_size = size;
    let ghost was = state.devices@;
    let mut i: usize = 0;
    while i < state.devices.len()
        invariant
            i <= was.len(),
            state.devices@.len() == was.len(),
            was == old(state).devices@,
            state.buffer_size == size,
            *state == (InnerState { devices: state.devices, buffer_size: size, ..*old(state) }),
            forall|k: int| 0 <= k < was.len() ==> (#[trigger] was[k]).buffer.wf(),
            forall|k: int| i <= k < was.len() ==> #[trigger] state.devices@[k] == was[k],
            forall|k: int|
                0 <= k < i ==> is_resized(was[k], #[trigger] state.devices@[k], size as nat),
        decreases was.len() - i,
    {
        assert(state.devices@[i as int] == was[i as int]);
        let _ = state.devices[i].buffer.set_capacity(size);
        i += 1;
    }
    let out = vec![Effect::Send(ServerMessage::BufferSizeChanged { size }), Effect::ChartReset];
    assert(effects(out@) =~= seq![
        EffectView::Send(ServerMessageView::BufferSizeChanged { size: size as nat }),
        EffectView::ChartReset,
    ]);
    out
}

/// What setting the order of display comes to.
pub open spec fn order_set(
    was: InnerState,
    now: InnerState,
    order: Seq<Seq<char>>,
    told: Seq<EffectView>,
) -> bool {
    &&& now == (InnerState { device_order: now.device_order, ..was })
    &&& text::texts(now.device_order@) == order
    &&& told == seq![EffectView::Send(ServerMessageView::DeviceOrderChanged { order })]
}

/// Sets the order of display.
pub fn set_device_order(order: Vec<String>, state: &mut InnerState) -> (res: Vec<Effect>)
    ensures
        order_set(*old(state), *final(state), text::texts(order@), effects(res@)),
{
    state.device_order = text::copy_texts(&order);
    let ghost wanted = text::texts(order@);
    let out = vec![Effect::Send(ServerMessage::DeviceOrderChanged { order })];
    assert(effects(out@) =~= seq![
        EffectView::Send(ServerMessageView::DeviceOrderChanged { order: wanted }),
    ]);
    out
}

/// What turning automatic gain on or off comes to.
pub open spec fn auto_gain_set(
    was: InnerState,
    now: InnerState,
    enabled: bool,
    told: Seq<EffectView>,
) -> bool {
    &&& now == (InnerState { auto_gain: enabled, ..was })
    &&& told == seq![EffectView::Send(ServerMessageView::AutoGainChanged { enabled })]
}

/// Turns automatic gain on or off.
pub fn set_auto_gain(enabled: bool, state: &mut InnerState) -> (res: Vec<Effect>)
    ensures
        auto_gain_set(*old(state), *final(state), enabled, effects(res@)),
{
    state.auto_gain = enabled;
    let out = vec![Effect::Send(ServerMessage::AutoGainChanged { enabled })];
    assert(effects(out@) =~= seq![
        EffectView::Send(ServerMessageView::AutoGainChanged { enabled }),
    ]);
    out
}

/// Whether `now` is `was` with its buffer emptied.
pub open spec fn is_cleared(was: DeviceState, now: DeviceState) -> bool {
    &&& now == (DeviceState { buffer: now.buffer, ..was })
    &&& now.buffer.wf()
    &&& now.buffer.held().len() == 0
    &&& now.buffer.recent() == was.buffer.recent()
    &&& now.buffer.cap() == was.buffer.cap()
    &&& now.buffer.pushed() == was.buffer.pushed()
    &&& now.buffer.stats() == crate::messages::no_stats()
    &&& now.buffer.moments_view() == (Moments {
        mean: Double { bits: 0 },
        rmsd: Double { bits: 0 },
    })
}

/// What emptying the buffer of one device, or of all, comes to.
pub open spec fn buffers_cleared(
    was: InnerState,
    now: InnerState,
    device: Option<Seq<char>>,
    told: Seq<EffectView>,
) -> bool {
    &&& now == (InnerState { devices: now.devices, ..was })
    &&& now.devices@.len() == was.devices@.len()
    &&& forall|i: int|
        0 <= i < now.devices@.len() ==> if device is None || was.find(device.unwrap()) == Some(i) {
            is_cleared(was.devices@[i], #[trigger] now.devices@[i])
        } else {
            now.devices@[i] == was.devices@[i]
        }
    &&& told == seq![EffectView::ChartReset]
}

/// Empties the buffer of one device, or of all. The clients are sent the whole buffers, since
/// no delta can take readings away.
pub fn clear_buffer(device: Option<String>, state: &mut InnerState) -> (res: Vec<Effect>)
    requires
        old(state).wf(),
    ensures
        final(state).wf(),
        old(state).sized() ==> final(state).sized(),
        old(state).counted() ==> final(state).counted(),
        buffers_cleared(*old(state), *final(state), text::opt_text(device), effects(res@)),
{
    let ghost was = state.devices@;
    match &device {
        Some(name) => {
            if let Some(d) = state.device_mut(name.as_str()) {
                d.buffer.clear();
            }
        },
        None => {
            let mut i: usize = 0;
            while i < state.devices.len()
                invariant
                    i <= was.len(),
                    state.devices@.len() == was.len(),
                    was == old(state).devices@,
                    *state == (InnerState { devices: state.devices, ..*old(state) }),
                    forall|k: int| 0 <= k < was.len() ==> (#[trigger] was[k]).buffer.wf(),
                    forall|k: int| i <= k < was.len() ==> #[trigger] state.devices@[k] == was[k],
                    forall|k: int| 0 <= k < i ==> is_cleared(was[k], #[trigger] state.devices@[k]),
                decreases was.len() - i,
            {
                assert(state.devices@[i as int] == was[i as int]);
                state.devices[i].buffer.clear();
                i += 1;
            }
        },
    }
    let out = vec![Effect::ChartReset];
    assert(effects(out@) =~= seq![EffectView::ChartReset]);
    out
}

/// The value that a default holds for a sensitivity: the one value, or the one in its place.
pub open spec fn holds_at(default: DefaultValue, index: nat, value: Double) -> bool {
    match default {
        DefaultValue::Scalar(v) => value == v,
        DefaultValue::Array(values) => index < values@.len() && value == values@[index as int],
    }
}

/// A sensitivity can be set on every device that is known and has a box, to every level that it
/// has; nothing else is refused and nothing else is accepted.
pub proof fn every_level_of_a_device_can_be_set(state: InnerState, device: Seq<char>, index: nat)
    ensures
        sensitivity_fault(state, device, index) is None <==> (state.find(device) matches Some(i)
            && state.devices@[i].config.device_type != DeviceType::Ict && index
            < state.devices@[i].config.sensitivities@.len()),
{
}

/// Gain and calibration go together on every device that has a factor: whatever its type, a change
/// of its sensitivity writes the default of `corrA` at the new index to its process variable, and
/// pushes the level at that index to its own box.
pub proof fn set_sensitivity_writes_own_calibration(
    state: InnerState,
    device: Seq<char>,
    index: nat,
    change: SensitivityChange,
    value: Double,
)
    requires
        is_change(state, device, index, change),
        state.find(device) matches Some(i) && state.devices@[i].config.pvs@.contains_key("corrA"@)
            && state.devices@[i].config.defaults@.contains_key("corrA"@) && holds_at(
            state.devices@[i].config.defaults@["corrA"@],
            index,
            value,
        ),
    ensures
        state.find(device) matches Some(i) && sensitivity_effects(state, change).contains(
            EffectView::Caput { pv: state.devices@[i].config.pvs@["corrA"@]@, value },
        ) && change.ip@ == state.devices@[i].config.ip@ && change.level
            == state.devices@[i].config.sensitivities@[index as int],
{
    let i = state.find(device).unwrap();
    let config = state.devices@[i].config;
    let factors = writes(change.calibration@);
    assert(factors[0] == (PvWriteView { pv: config.pvs@["corrA"@]@, value }));
    assert(sensitivity_effects(state, change)[0] == (EffectView::Caput {
        pv: config.pvs@["corrA"@]@,
        value,
    }));
}

/// A wall current monitor takes its dark-charge companion along: a change of its sensitivity writes
/// the companion's default of `DQcal` at the same index.
pub proof fn set_sensitivity_writes_companion_calibration(
    state: InnerState,
    device: Seq<char>,
    index: nat,
    change: SensitivityChange,
    i: int,
    j: int,
    value: Double,
)
    requires
        is_change(state, device, index, change),
        state.find(device) == Some(i),
        0 <= i < state.devices@.len(),
        state.devices@[i].name@ == device,
        state.devices@[i].config.device_type == DeviceType::Wcm,
        state.find(device + ":DQ"@) == Some(j),
        state.devices@[j].config.pvs@.contains_key("DQcal"@),
        state.devices@[j].config.defaults@.contains_key("DQcal"@),
        holds_at(state.devices@[j].config.defaults@["DQcal"@], index, value),
    ensures
        sensitivity_effects(state, change).contains(
            EffectView::Caput { pv: state.devices@[j].config.pvs@["DQcal"@]@, value },
        ),
{
    let factors = writes(change.calibration@);
    let last = factors.len() - 1;
    assert(factors[last] == (PvWriteView {
        pv: state.devices@[j].config.pvs@["DQcal"@]@,
        value,
    }));
    assert(sensitivity_effects(state, change)[last] == (EffectView::Caput {
        pv: state.devices@[j].config.pvs@["DQcal"@]@,
        value,
    }));
}

/// A change of sensitivity writes calibration factors and nothing else: the device's own, and for a
/// wall current monitor that of its companion.
pub proof fn set_sensitivity_writes_nothing_else(
    state: InnerState,
    device: Seq<char>,
    index: nat,
    change: SensitivityChange,
    k: int,
    i: int,
)
    requires
        is_change(state, device, index, change),
        state.find(device) == Some(i),
        0 <= i < state.devices@.len(),
        state.devices@[i].name@ == device,
        0 <= k < sensitivity_effects(state, change).len(),
    ensures
        sensitivity_effects(state, change)[k] matches EffectView::Caput { pv, .. } ==> {
            ||| state.devices@[i].config.pvs@.contains_key("corrA"@) && pv
                == state.devices@[i].config.pvs@["corrA"@]@
            ||| state.devices@[i].config.device_type == DeviceType::Wcm && (state.find(
                device + ":DQ"@,
            ) matches Some(j) && state.devices@[j].config.pvs@.contains_key("DQcal"@) && pv
                == state.devices@[j].config.pvs@["DQcal"@]@)
        },
{
    let factors = writes(change.calibration@);
    let n = factors.len() as int;
    if k < n {
        assert(sensitivity_effects(state, change)[k] == (EffectView::Caput {
            pv: factors[k].pv,
            value: factors[k].value,
        }));
    } else {
        assert(!(sensitivity_effects(state, change)[k] is Caput));
    }
}

/// A change of sensitivity that reached the box is recorded: the device is at the new index and
/// bears no warning, and neither does the companion of a wall current monitor. Everything else is
/// as it was. All clients are told.
pub proof fn set_sensitivity_is_recorded(
    state: InnerState,
    change: SensitivityChange,
    i: int,
)
    requires
        state.find(change.device@) == Some(i),
        0 <= i < state.devices@.len(),
        state.devices@[i].name@ == change.device@,
        state.find(change.device@ + ":DQ"@) matches Some(j) ==> 0 <= j < state.devices@.len()
            && state.devices@[j].name@ == change.device@ + ":DQ"@,
    ensures
        ({
            let now = devices_set(state, change.device@, change.index);
            &&& now.len() == state.devices@.len()
            &&& now[i] == (DeviceState {
                current_sensitivity: change.index,
                calibration_mismatch: false,
                ..state.devices@[i]
            })
            &&& forall|k: int|
                0 <= k < now.len() && k != i ==> #[trigger] now[k] == (DeviceState {
                    calibration_mismatch: state.devices@[k].calibration_mismatch && !(
                    state.devices@[i].config.device_type == DeviceType::Wcm && state.find(
                        change.device@ + ":DQ"@,
                    ) == Some(k)),
                    ..state.devices@[k]
                })
        }),
        sensitivity_effects(state, change).contains(
            EffectView::Send(
                ServerMessageView::StateUpdate {
                    device: change.device@,
                    sensitivity: change.index as nat,
                    calibration_mismatch: false,
                },
            ),
        ),
{
    reveal_strlit(":DQ");
    assert((change.device@ + ":DQ"@).len() != change.device@.len());
    let at = writes(change.calibration@).len() as int;
    assert(sensitivity_effects(state, change)[at] == EffectView::Send(
        ServerMessageView::StateUpdate {
            device: change.device@,
            sensitivity: change.index as nat,
            calibration_mismatch: false,
        },
    ));
}

/// The buffer size is shared and kept between ten and ten thousand. Every buffer then holds the
/// newest of its readings that fit, in their order, and forgets nothing else. The clients are told
/// the size that was set, and sent the buffers.
pub proof fn resized_buffers_hold_the_newest(
    was: InnerState,
    now: InnerState,
    size: nat,
    told: Seq<EffectView>,
    i: int,
)
    requires
        buffer_size_set(was, now, size, told),
        0 <= i < was.devices@.len(),
    ensures
        10 <= size <= 10000 ==> now.buffer_size == size,
        size < 10 ==> now.buffer_size == 10,
        size > 10000 ==> now.buffer_size == 10000,
        now.devices@[i].buffer.cap() == now.buffer_size,
        ({
            let all = was.devices@[i].buffer.held();
            let kept = now.devices@[i].buffer.held();
            &&& kept.len() == vstd::math::min(all.len() as int, now.buffer_size as int)
            &&& forall|k: int|
                0 <= k < kept.len() ==> #[trigger] kept[k] == all[all.len() - kept.len() + k]
        }),
        now.devices@[i].buffer.pushed() == was.devices@[i].buffer.pushed(),
        now.devices@[i].buffer.recent() == was.devices@[i].buffer.recent(),
        now.devices@[i] == (DeviceState { buffer: now.devices@[i].buffer, ..was.devices@[i] }),
        now.devices@.len() == was.devices@.len(),
        now == (InnerState { devices: now.devices, buffer_size: now.buffer_size, ..was }),
        told.contains(
            EffectView::Send(
                ServerMessageView::BufferSizeChanged { size: now.buffer_size as nat },
            ),
        ),
        told.contains(EffectView::ChartReset),
{
    assert(is_resized(was.devices@[i], now.devices@[i], clamped_size(size)));
    assert(told[0] == EffectView::Send(
        ServerMessageView::BufferSizeChanged { size: now.buffer_size as nat },
    ));
    assert(told[1] == EffectView::ChartReset);
}

/// Clearing empties the buffer that was named, or all of them, for display only: what has been
/// counted stays counted, the newest readings stay known, and no other device changes. The clients
/// are sent the buffers.
pub proof fn clearing_is_for_display_only(
    was: InnerState,
    now: InnerState,
    device: Option<Seq<char>>,
    told: Seq<EffectView>,
    i: int,
)
    requires
        buffers_cleared(was, now, device, told),
        0 <= i < was.devices@.len(),
    ensures
        now.devices@[i] == (DeviceState { buffer: now.devices@[i].buffer, ..was.devices@[i] }),
        now.devices@[i].buffer.pushed() == was.devices@[i].buffer.pushed(),
        now.devices@[i].buffer.recent() == was.devices@[i].buffer.recent(),
        now.devices@[i].buffer.cap() == was.devices@[i].buffer.cap(),
        device is None || was.find(device.unwrap()) == Some(i)
            ==> now.devices@[i].buffer.held().len() == 0,
        !(device is None || was.find(device.unwrap()) == Some(i)) ==> now.devices@[i].buffer
            == was.devices@[i].buffer,
        now.buffer_size == was.buffer_size,
        told.contains(EffectView::ChartReset),
{
    assert(device is None || was.find(device.unwrap()) == Some(i) ==> is_cleared(
        was.devices@[i],
        now.devices@[i],
    ));
    assert(told[0] == EffectView::ChartReset);
}

/// Automatic gain is on for everyone or off for everyone, as was asked, and all are told.
pub proof fn automatic_gain_is_as_asked(
    was: InnerState,
    now: InnerState,
    enabled: bool,
    told: Seq<EffectView>,
)
    requires
        auto_gain_set(was, now, enabled, told),
    ensures
        now.auto_gain == enabled,
        now.devices == was.devices,
        told.contains(EffectView::Send(ServerMessageView::AutoGainChanged { enabled })),
{
    assert(told[0] == EffectView::Send(ServerMessageView::AutoGainChanged { enabled }));
}

/// The order that was asked for is the one that is kept, and the devices stay as they are.
pub proof fn order_is_as_asked(
    was: InnerState,
    now: InnerState,
    order: Seq<Seq<char>>,
    told: Seq<EffectView>,
)
    requires
        order_set(was, now, order, told),
    ensures
        now.device_order@.len() == order.len(),
        forall|k: int| 0 <= k < order.len() ==> (#[trigger] now.device_order@[k])@ == order[k],
        now.devices == was.devices,
        told.contains(EffectView::Send(ServerMessageView::DeviceOrderChanged { order })),
{
    assert(told[0] == EffectView::Send(ServerMessageView::DeviceOrderChanged { order }));
    assert forall|k: int| 0 <= k < order.len() implies (#[trigger] now.device_order@[k])@
        == order[k] by {
        assert(text::texts(now.device_order@)[k] == now.device_order@[k]@);
    }
}

}
