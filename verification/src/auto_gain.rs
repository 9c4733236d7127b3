//! Automatic gain: a device that saturates is switched to the next less sensitive level.

use vstd::prelude::*;

use crate::commands;
use crate::commands::{notify, Effect};
use crate::double::Double;
use crate::messages::{DeviceType, NotificationLevel};
use crate::state::{DeviceState, InnerState};
use crate::text;

verus! {

/// How many of the newest readings are averaged: about a second of them.
pub const RECENT_READINGS: usize = 10;

/// The charge past which a device clips at the level with the given index, if it is known.
pub open spec fn limit_at(limits: Seq<Double>, index: nat) -> Option<Double> {
    if index < limits.len() {
        Some(limits[index as int])
    } else {
        None
    }
}

/// Whether a mean charge is past a limit, in either direction.
pub open spec fn past_limit(limit: Option<Double>, mean: Double) -> bool {
    match limit {
        Some(limit) => !limit.nan() && !mean.nan() && limit.rank() < mean.magnitude(),
        None => false,
    }
}

/// Whether a mean charge is past the limit of the level with the given index.
pub fn is_past_limit(limits: &Vec<Double>, index: usize, mean: Double) -> (res: bool)
    ensures
        res == past_limit(limit_at(limits@, index as nat), mean),
{
    if index < limits.len() {
        limits[index].lt(mean.abs())
    } else {
        false
    }
}

/// Whether `i` is the index of the next less sensitive level: the least of those above `level`,
/// and the first of them.
pub open spec fn is_next_level(levels: Seq<u8>, level: u8, i: int) -> bool {
    &&& 0 <= i < levels.len()
    &&& level < levels[i]
    &&& forall|k: int|
        0 <= k < levels.len() && level < (#[trigger] levels[k]) ==> levels[i] < levels[k]
            || levels[i] == levels[k] && i <= k
}

/// The index of the next less sensitive level. A higher level is less sensitive.
pub fn next_level(levels: &Vec<u8>, level: u8) -> (res: Option<usize>)
    ensures
        match res {
            Some(i) => is_next_level(levels@, level, i as int),
            None => forall|k: int| 0 <= k < levels@.len() ==> (#[trigger] levels@[k]) <= level,
        },
{
    let mut found: Option<usize> = None;
    let mut i: usize = 0;
    while i < levels.len()
        invariant
            i <= levels@.len(),
            match found {
                Some(f) => is_next_level(levels@.take(i as int), level, f as int),
                None => forall|k: int| 0 <= k < i ==> (#[trigger] levels@[k]) <= level,
            },
        decreases levels@.len() - i,
    {
        let ghost seen = levels@.take(i as int);
        let ghost more = levels@.take(i as int + 1);
        assert(forall|k: int| 0 <= k < i ==> #[trigger] more[k] == seen[k]);
        assert(forall|k: int| 0 <= k <= i ==> #[trigger] more[k] == levels@[k]);
        if level < levels[i] {
            match found {
                Some(f) => {
                    assert(seen[f as int] == levels@[f as int]);
                    if levels[i] < levels[f] {
                        found = Some(i);
                    }
                },
                None => {
                    found = Some(i);
                },
            }
        }
        i += 1;
    }
    assert(levels@.take(i as int) =~= levels@);
    found
}

/// Whether a device is one that is switched.
pub open spec fn is_switchable(device: DeviceState) -> bool {
    &&& device.config.device_type == DeviceType::Wcm || device.config.device_type
        == DeviceType::Fcup
    &&& device.current_sensitivity < device.config.sensitivities@.len()
}

/// Whether a device whose recent mean charge is `mean` is to be switched, if there is a level
/// to switch to.
pub open spec fn wants_switch(state: InnerState, device: DeviceState, mean: Double) -> bool {
    &&& state.auto_gain
    &&& is_switchable(device)
    &&& past_limit(
        limit_at(device.config.saturation_charges@, device.current_sensitivity as nat),
        mean,
    )
}

/// Whether `target` is the index of the sensitivity to which a device is to be switched.
pub open spec fn is_switch(
    state: InnerState,
    device_index: nat,
    mean: Double,
    target: Option<usize>,
) -> bool {
    if device_index < state.devices@.len() && wants_switch(
        state,
        state.devices@[device_index as int],
        mean,
    ) {
        let device = state.devices@[device_index as int];
        let levels = device.config.sensitivities@;
        let level = levels[device.current_sensitivity as int];
        match target {
            Some(i) => is_next_level(levels, level, i as int),
            None => forall|k: int| 0 <= k < levels.len() ==> (#[trigger] levels[k]) <= level,
        }
    } else {
        target is None
    }
}

/// The index of the sensitivity to which a device is to be switched, given the mean of its
/// recent readings. There may be no such device.
pub fn switch_target(state: &InnerState, device_index: usize, mean: Double) -> (res: Option<usize>)
    ensures
        is_switch(*state, device_index as nat, mean, res),
{
    if !state.auto_gain || device_index >= state.devices.len() {
        return None;
    }
    let device = &state.devices[device_index];
    if device.config.device_type != DeviceType::Wcm && device.config.device_type
        != DeviceType::Fcup {
        return None;
    }
    if device.current_sensitivity >= device.config.sensitivities.len() {
        return None;
    }
    if !is_past_limit(&device.config.saturation_charges, device.current_sensitivity, mean) {
        return None;
    }
    next_level(
        &device.config.sensitivities,
        device.config.sensitivities[device.current_sensitivity],
    )
}

/// What the operators are told when a device was switched.
pub fn switch_notice(device: &str, level: u8) -> (res: Effect)
    ensures
        res@ == commands::notice(
            NotificationLevel::Warning,
            "Auto gain: "@ + device@ + " was saturating, switched to FB"@ + text::decimal(
                level as nat,
            ),
            device@,
        ),
{
    notify(
        NotificationLevel::Warning,
        text::cat4(
            "Auto gain: ",
            device,
            " was saturating, switched to FB",
            text::decimal_text(level as u64).as_str(),
        ),
        device,
    )
}

/// Automatic gain only ever makes a device less sensitive.
pub proof fn switching_raises_level(levels: Seq<u8>, level: u8, i: int)
    requires
        is_next_level(levels, level, i),
    ensures
        level < levels[i],
        forall|k: int| 0 <= k < levels.len() ==> !(level < (#[trigger] levels[k]) < levels[i]),
{
}

/// A charge is past a limit if it is above it, or below its negative, and not otherwise.
pub proof fn charge_is_past_limit_in_either_direction(
    limits: Seq<Double>,
    index: nat,
    mean: Double,
)
    requires
        index < limits.len(),
        !limits[index as int].nan(),
        !mean.nan(),
    ensures
        past_limit(limit_at(limits, index), mean) <==> limits[index as int].rank() < mean.rank()
            || mean.rank() < -limits[index as int].rank(),
        limits[index as int].below(mean) ==> past_limit(limit_at(limits, index), mean),
{
}

/// Whether a charge is past a limit does not depend on its sign.
pub proof fn saturation_does_not_depend_on_sign(
    limits: Seq<Double>,
    index: nat,
    a: Double,
    b: Double,
)
    requires
        a.magnitude() == b.magnitude(),
    ensures
        past_limit(limit_at(limits, index), a) == past_limit(limit_at(limits, index), b),
{
}

/// A level whose limit is not known never clips, and what is no number is past no limit.
pub proof fn unknown_limits_are_never_passed(limits: Seq<Double>, index: nat, mean: Double)
    requires
        index >= limits.len() || limits[index as int].nan() || mean.nan(),
    ensures
        !past_limit(limit_at(limits, index), mean),
{
}

/// A device is switched if and only if automatic gain is on, the device is a wall current monitor
/// or a Faraday cup, its mean charge is past the limit of its current level in either direction,
/// and it has a less sensitive level. It is then switched to the least of these.
pub proof fn saturating_devices_are_switched_one_level(
    state: InnerState,
    device_index: nat,
    mean: Double,
    target: Option<usize>,
)
    requires
        is_switch(state, device_index, mean, target),
        device_index < state.devices@.len(),
    ensures
        ({
            let device = state.devices@[device_index as int];
            let levels = device.config.sensitivities@;
            let limits = device.config.saturation_charges@;
            let at = device.current_sensitivity as int;
            &&& target is Some <==> state.auto_gain && (device.config.device_type
                == DeviceType::Wcm || device.config.device_type == DeviceType::Fcup) && at
                < levels.len() && at < limits.len() && !limits[at].nan() && !mean.nan() && (
            limits[at].rank() < mean.rank() || mean.rank() < -limits[at].rank()) && exists|k: int|
                0 <= k < levels.len() && levels[at] < #[trigger] levels[k]
            &&& target matches Some(i) ==> i < levels.len() && levels[at] < levels[i as int]
                && forall|k: int|
                0 <= k < levels.len() && levels[at] < #[trigger] levels[k] ==> levels[i as int]
                    <= levels[k]
        }),
{
    let device = state.devices@[device_index as int];
    let levels = device.config.sensitivities@;
    if let Some(i) = target {
        assert(levels[device.current_sensitivity as int] < levels[i as int]);
    }
}

}
