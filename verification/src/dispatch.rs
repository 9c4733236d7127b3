//! Taking a command of an operator.

use vstd::prelude::*;

use crate::commands;
use crate::commands::{Effect, EffectView, SensitivityChange};
use crate::front_ends;
use crate::front_ends::{PushPurpose, PushRun};
use crate::messages::{ClientMessage, NotificationLevel};
use crate::reset;
use crate::reset::{ResetRun, ResetStart};
use crate::restore;
use crate::restore::RestoreRun;
use crate::state::InnerState;
use crate::sweep;
use crate::sweep::SweepConfig;
use crate::text;
use crate::zero;
use crate::zero::ZeroStart;

verus! {

/// What a command has become.
pub enum Task {
    /// Nothing is left but these effects.
    Done(Vec<Effect>),
    /// A level is to be pushed.
    SetSensitivity(SensitivityChange),
    /// The operators are to be told, and an offset is to be zeroed.
    Zero(ZeroStart, Effect),
    /// The operators are to be told, and waveforms are to be collected.
    Sweep(SweepConfig, Effect),
    /// Defaults are to be written.
    Restore(RestoreRun),
    /// Boxes are to be pushed.
    ClearCalibration(PushRun),
    /// The operators are to be told, and the boxes are to be reset.
    Reset(ResetRun, Effect),
}

/// The report of a failure.
pub open spec fn report(e: commands::CommandErrorView) -> EffectView {
    EffectView::Notify {
        level: NotificationLevel::Error,
        message: e.message,
        device: e.device,
    }
}

fn one(effect: Effect) -> (res: Vec<Effect>)
    ensures
        commands::effects(res@) == seq![effect@],
{
    let out = vec![effect];
    assert(commands::effects(out@) =~= seq![effect@]);
    out
}

/// Takes a command. What needs no hardware is done at once; the rest is started. A command that
/// cannot be started is reported to the operators.
pub fn begin_command(msg: ClientMessage, state: &mut InnerState) -> (res: Task)
    requires
        old(state).wf(),
    ensures
        final(state).wf(),
        old(state).sized() ==> final(state).sized(),
        old(state).counted() ==> final(state).counted(),
        match msg {
            ClientMessage::SetSensitivity { device, index } => {
                &&& *final(state) == *old(state)
                &&& match res {
                    Task::Done(list) => commands::sensitivity_fault(
                        *old(state),
                        device@,
                        index as nat,
                    ) matches Some(e) && commands::effects(list@) == seq![report(e)],
                    Task::SetSensitivity(change) => commands::is_change(
                        *old(state),
                        device@,
                        index as nat,
                        change,
                    ),
                    _ => false,
                }
            },
            ClientMessage::ZeroWCM { device } => {
                &&& *final(state) == *old(state)
                &&& match res {
                    Task::Done(list) => zero::zero_fault(*old(state), device@) matches Some(e)
                        && commands::effects(list@) == seq![report(e)],
                    Task::Zero(start, told) => zero::is_zero_start(
                        *old(state),
                        device@,
                        start,
                        told@,
                    ),
                    _ => false,
                }
            },
            ClientMessage::SweepTiming { device } => {
                &&& *final(state) == *old(state)
                &&& match res {
                    Task::Done(list) => sweep::sweep_fault(*old(state), device@) matches Some(e)
                        && commands::effects(list@) == seq![report(e)],
                    Task::Sweep(config, told) => sweep::is_sweep_start(
                        *old(state),
                        device@,
                        config,
                        told@,
                    ),
                    _ => false,
                }
            },
            ClientMessage::RestoreDefaults { device } => {
                &&& *final(state) == *old(state)
                &&& match res {
                    Task::Done(list) => old(state).find(device@) is None && commands::effects(list@)
                        == seq![report(commands::not_found(device@))],
                    Task::Restore(run) => restore::is_restore_start(*old(state), device@, run),
                    _ => false,
                }
            },
            ClientMessage::ClearCalibration => {
                &&& *final(state) == *old(state)
                &&& res matches Task::ClearCalibration(run)
                &&& run.wf()
                &&& run.aim() == PushPurpose::ClearCalibration
                &&& run.pending() == front_ends::pushes(old(state).devices@)
            },
            ClientMessage::ResetFrontEnds => exists|start: ResetStart|
                {
                    &&& #[trigger] reset::is_reset_start(*old(state), *final(state), start)
                    &&& match start {
                        ResetStart::Busy(told) => res matches Task::Done(list)
                            && commands::effects(list@) == seq![told@],
                        ResetStart::Failed(told) => res matches Task::Done(list)
                            && commands::effects(list@) == seq![told@],
                        ResetStart::Started(run, told) => res == Task::Reset(run, told),
                    }
                },
            ClientMessage::SetBufferSize { size } => res matches Task::Done(list)
                && commands::buffer_size_set(
                *old(state),
                *final(state),
                size as nat,
                commands::effects(list@),
            ),
            ClientMessage::SetDeviceOrder { order } => res matches Task::Done(list)
                && commands::order_set(
                *old(state),
                *final(state),
                text::texts(order@),
                commands::effects(list@),
            ),
            ClientMessage::ClearBuffer { device } => res matches Task::Done(list)
                && commands::buffers_cleared(
                *old(state),
                *final(state),
                text::opt_text(device),
                commands::effects(list@),
            ),
            ClientMessage::SetAutoGain { enabled } => res matches Task::Done(list)
                && commands::auto_gain_set(
                *old(state),
                *final(state),
                enabled,
                commands::effects(list@),
            ),
        },
{
    match msg {
        ClientMessage::SetSensitivity { device, index } => {
            match commands::begin_set_sensitivity(device.as_str(), index, state) {
                Ok(change) => Task::SetSensitivity(change),
                Err(e) => Task::Done(one(e.report())),
            }
        },
        ClientMessage::ZeroWCM { device } => match zero::begin_zero(device.as_str(), state) {
            Ok((start, told)) => Task::Zero(start, told),
            Err(e) => Task::Done(one(e.report())),
        },
        ClientMessage::SweepTiming { device } => match sweep::begin_sweep(device.as_str(), state) {
            Ok((config, told)) => Task::Sweep(config, told),
            Err(e) => Task::Done(one(e.report())),
        },
        ClientMessage::RestoreDefaults { device } => {
            match restore::begin_restore(device.as_str(), state) {
                Ok(run) => Task::Restore(run),
                Err(e) => Task::Done(one(e.report())),
            }
        },
        ClientMessage::ClearCalibration => Task::ClearCalibration(
            PushRun::begin(PushPurpose::ClearCalibration, state),
        ),
        ClientMessage::ResetFrontEnds => match reset::begin_reset(state) {
            ResetStart::Busy(told) => Task::Done(one(told)),
            ResetStart::Failed(told) => Task::Done(one(told)),
            ResetStart::Started(run, told) => Task::Reset(run, told),
        },
        ClientMessage::SetBufferSize { size } => Task::Done(
            commands::set_buffer_size(size, state),
        ),
        ClientMessage::SetDeviceOrder { order } => Task::Done(
            commands::set_device_order(order, state),
        ),
        ClientMessage::ClearBuffer { device } => Task::Done(commands::clear_buffer(device, state)),
        ClientMessage::SetAutoGain { enabled } => Task::Done(
            commands::set_auto_gain(enabled, state),
        ),
    }
}

}
