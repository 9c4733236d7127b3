//! Pushing the selected sensitivities to the front-end boxes.

use vstd::prelude::*;

use crate::commands;
use crate::commands::{notify, notify_all, Effect};
use crate::messages::{DeviceType, NotificationLevel};
use crate::state::{DeviceState, InnerState};
use crate::text;

verus! {

/// The level that is pushed if none is selected.
pub const FALLBACK_LEVEL: u8 = 3;

/// A front-end box to put into normal operation at a level.
#[derive(Clone, Debug)]
pub struct FrontEndPush {
    pub name: String,
    pub ip: String,
    pub level: u8,
}

#[verifier::ext_equal]
pub struct FrontEndPushView {
    pub name: Seq<char>,
    pub ip: Seq<char>,
    pub level: u8,
}

impl View for FrontEndPush {
    type V = FrontEndPushView;

    open spec fn view(&self) -> FrontEndPushView {
        FrontEndPushView { name: self.name@, ip: self.ip@, level: self.level }
    }
}

/// The level that is selected on a device.
pub open spec fn selected_level(device: DeviceState) -> u8 {
    if device.current_sensitivity < device.config.sensitivities@.len() {
        device.config.sensitivities@[device.current_sensitivity as int]
    } else {
        FALLBACK_LEVEL
    }
}

/// What is pushed to the boxes of the devices. A dark-charge device shares the box of its wall
/// current monitor, and an integrating current transformer has none.
pub open spec fn pushes(devices: Seq<DeviceState>) -> Seq<FrontEndPushView>
    decreases devices.len(),
{
    if devices.len() == 0 {
        Seq::empty()
    } else {
        let rest = pushes(devices.drop_last());
        let device = devices.last();
        if device.config.device_type == DeviceType::Dq || device.config.device_type
            == DeviceType::Ict {
            rest
        } else {
            rest.push(
                FrontEndPushView {
                    name: device.name@,
                    ip: device.config.ip@,
                    level: selected_level(device),
                },
            )
        }
    }
}

/// What a list of pushes comes to.
pub open spec fn push_views(list: Seq<FrontEndPush>) -> Seq<FrontEndPushView> {
    list.map_values(|p: FrontEndPush| p@)
}

fn push_list(state: &InnerState) -> (res: Vec<FrontEndPush>)
    ensures
        push_views(res@) == pushes(state.devices@),
{
    let mut out: Vec<FrontEndPush> = Vec::new();
    let ghost all = state.devices@;
    let mut i: usize = 0;
    assert(push_views(out@) =~= pushes(all.take(0)));
    while i < state.devices.len()
        invariant
            i <= all.len(),
            all == state.devices@,
            push_views(out@) == pushes(all.take(i as int)),
        decreases all.len() - i,
    {
        let device = &state.devices[i];
        let ghost before = push_views(out@);
        assert(all.take(i as int + 1).drop_last() =~= all.take(i as int));
        if device.config.device_type != DeviceType::Dq && device.config.device_type
            != DeviceType::Ict {
            let level: u8 = if device.current_sensitivity < device.config.sensitivities.len() {
                device.config.sensitivities[device.current_sensitivity]
            } else {
                FALLBACK_LEVEL
            };
            let push = FrontEndPush {
                name: device.name.clone(),
                ip: device.config.ip.clone(),
                level,
            };
            let ghost added = push@;
            out.push(push);
            assert(push_views(out@) =~= before.push(added));
        }
        i += 1;
    }
    assert(all.take(i as int) =~= all);
    out
}

/// What boxes are pushed for.
#[derive(Clone, Copy, Debug, PartialEq, Eq, Structural)]
pub enum PushPurpose {
    /// To end calibration mode.
    ClearCalibration,
    /// To bring them back after a reset.
    ReapplySensitivity,
}

impl PushPurpose {
    /// The purpose in words.
    pub open spec fn words(self) -> Seq<char> {
        match self {
            PushPurpose::ClearCalibration => "clear calibration"@,
            PushPurpose::ReapplySensitivity => "re-apply sensitivity"@,
        }
    }

    /// What the operators are told when every box was tried.
    pub open spec fn success(self) -> Seq<char> {
        match self {
            PushPurpose::ClearCalibration => "Cleared calibration mode for all devices"@,
            PushPurpose::ReapplySensitivity => "Front ends reset and sensitivities re-applied"@,
        }
    }
}

/// Boxes that are being pushed, one after the other.
#[derive(Clone, Debug)]
pub struct PushRun {
    purpose: PushPurpose,
    todo: Vec<FrontEndPush>,
    next: usize,
}

impl PushRun {
    /// The boxes that are still to be pushed.
    pub closed spec fn pending(self) -> Seq<FrontEndPushView> {
        push_views(self.todo@).skip(self.next as int)
    }

    pub closed spec fn aim(self) -> PushPurpose {
        self.purpose
    }

    pub closed spec fn wf(self) -> bool {
        self.next <= self.todo@.len()
    }

    /// Starts to push the boxes of all devices.
    pub fn begin(purpose: PushPurpose, state: &InnerState) -> (res: PushRun)
        ensures
            res.wf(),
            res.aim() == purpose,
            res.pending() == pushes(state.devices@),
    {
        let res = PushRun { purpose, todo: push_list(state), next: 0 };
        assert(res.pending() =~= push_views(res.todo@));
        res
    }

    /// The next box, if any is left.
    pub fn next_push(&self) -> (res: Option<&FrontEndPush>)
        requires
            self.wf(),
        ensures
            match res {
                Some(p) => self.pending().len() > 0 && p@ == self.pending()[0],
                None => self.pending().len() == 0,
            },
    {
        if self.next < self.todo.len() {
            Some(&self.todo[self.next])
        } else {
            None
        }
    }

    /// Takes what came of the next push. A failure is reported, and the rest goes on.
    pub fn pushed(&mut self, outcome: Result<(), String>) -> (res: Option<Effect>)
        requires
            old(self).wf(),
            old(self).pending().len() > 0,
        ensures
            final(self).wf(),
            final(self).aim() == old(self).aim(),
            final(self).pending() == old(self).pending().skip(1),
            match (outcome, res) {
                (Ok(_), None) => true,
                (Err(e), Some(told)) => told@ == push_failure(
                    old(self).aim(),
                    old(self).pending()[0],
                    e@,
                ),
                _ => false,
            },
    {
        let at: usize = self.next;
        assert(at < self.todo.len());
        self.next = at + 1;
        assert(self.pending() =~= old(self).pending().skip(1));
        match outcome {
            Ok(_) => None,
            Err(e) => {
                let words = match self.purpose {
                    PushPurpose::ClearCalibration => "clear calibration",
                    PushPurpose::ReapplySensitivity => "re-apply sensitivity",
                };
                let name = self.todo[at].name.as_str();
                let head = text::cat4("Failed to ", words, " for ", name);
                Some(
                    notify(
                        NotificationLevel::Error,
                        text::cat3(head.as_str(), ": ", e.as_str()),
                        name,
                    ),
                )
            },
        }
    }

    /// What the operators are told when every box was tried.
    pub fn finish(&self) -> (res: Effect)
        requires
            self.wf(),
            self.pending().len() == 0,
        ensures
            res@ == commands::general_notice(NotificationLevel::Success, self.aim().success()),
    {
        let message = match self.purpose {
            PushPurpose::ClearCalibration => "Cleared calibration mode for all devices",
            PushPurpose::ReapplySensitivity => "Front ends reset and sensitivities re-applied",
        };
        notify_all(NotificationLevel::Success, message.to_string())
    }
}

/// How the failure of a push is reported.
pub open spec fn push_failure(
    purpose: PushPurpose,
    push: FrontEndPushView,
    e: Seq<char>,
) -> commands::EffectView {
    commands::notice(
        NotificationLevel::Error,
        "Failed to "@ + purpose.words() + " for "@ + push.name + ": "@ + e,
        push.name,
    )
}

/// Boxes are put back to what is selected: every device with a box of its own is pushed once, in
/// the order of the devices, at its own address, and at the level under its current sensitivity. A
/// dark-charge device and an integrating current transformer are not pushed.
pub proof fn boxes_get_the_selected_levels(devices: Seq<DeviceState>, i: int)
    requires
        0 <= i < devices.len(),
        devices[i].config.device_type != DeviceType::Dq,
        devices[i].config.device_type != DeviceType::Ict,
    ensures
        ({
            let has_box = |d: DeviceState|
                d.config.device_type != DeviceType::Dq && d.config.device_type != DeviceType::Ict;
            let place = devices.take(i).filter(has_box).len();
            let device = devices[i];
            &&& pushes(devices).len() == devices.filter(has_box).len()
            &&& place < pushes(devices).len()
            &&& pushes(devices)[place as int].name == device.name@
            &&& pushes(devices)[place as int].ip == device.config.ip@
            &&& device.current_sensitivity < device.config.sensitivities@.len()
                ==> pushes(devices)[place as int].level
                == device.config.sensitivities@[device.current_sensitivity as int]
            &&& device.current_sensitivity >= device.config.sensitivities@.len()
                ==> pushes(devices)[place as int].level == 3
        }),
    decreases devices.len(),
{
    reveal(Seq::filter);
    let last = devices.len() - 1;
    let front = devices.drop_last();
    lemma_push_count(devices);
    lemma_push_count(front);
    if i < last {
        boxes_get_the_selected_levels(front, i);
        assert(front.take(i) =~= devices.take(i));
        assert(front[i] == devices[i]);
    } else {
        assert(devices.take(i) =~= front);
    }
}

proof fn lemma_push_count(devices: Seq<DeviceState>)
    ensures
        pushes(devices).len() == devices.filter(
            |d: DeviceState|
                d.config.device_type != DeviceType::Dq && d.config.device_type != DeviceType::Ict,
        ).len(),
    decreases devices.len(),
{
    reveal(Seq::filter);
    if devices.len() > 0 {
        lemma_push_count(devices.drop_last());
    }
}

/// What a box is put back to is what setting the current sensitivity of its device again would push
/// to it, so that the gain and what is selected agree afterwards.
pub proof fn pushed_level_is_that_of_setting_it_again(
    state: InnerState,
    i: int,
    change: commands::SensitivityChange,
)
    requires
        0 <= i < state.devices@.len(),
        state.find(state.devices@[i].name@) == Some(i),
        state.devices@[i].config.device_type != DeviceType::Dq,
        commands::is_change(
            state,
            state.devices@[i].name@,
            state.devices@[i].current_sensitivity as nat,
            change,
        ),
    ensures
        pushes(state.devices@).contains(
            FrontEndPushView {
                name: change.device@,
                ip: change.ip@,
                level: change.level,
            },
        ),
{
    boxes_get_the_selected_levels(state.devices@, i);
    let has_box = |d: DeviceState|
        d.config.device_type != DeviceType::Dq && d.config.device_type != DeviceType::Ict;
    let place = state.devices@.take(i).filter(has_box).len() as int;
    assert(pushes(state.devices@)[place] == (FrontEndPushView {
        name: change.device@,
        ip: change.ip@,
        level: change.level,
    }));
}

}
