//! Resetting the front-end boxes: their trigger is cut for a while, so that they reboot, and
//! restored, and then the sensitivities are pushed to them again.
//!
//! Devices may share a trigger, so each is toggled once. A box ignores what is pushed to it
//! while its trigger is off, so that the triggers come first.

use vstd::prelude::*;

use crate::commands;
use crate::commands::{notify_all, Effect, EffectView};
use crate::consts::RESET_WAIT_SECS;
use crate::double::Double;
use crate::front_ends;
use crate::front_ends::{FrontEndPushView, PushPurpose, PushRun};
use crate::keys;
use crate::messages::{NotificationLevel, ServerMessage, ServerMessageView};
use crate::order;
use crate::state::{DeviceState, InnerState};
use crate::text;

verus! {

/// The bit pattern of 1.0.
pub const ONE_BITS: u64 = 0x3FF0_0000_0000_0000;

/// What is written to a trigger to switch it on or off.
pub fn trigger_value(on: bool) -> (res: Double)
    ensures
        res.bits == (if on {
            ONE_BITS
        } else {
            0
        }),
{
    if on {
        Double::from_bits(ONE_BITS)
    } else {
        Double::zero()
    }
}

/// What to do next in a reset.
#[derive(Clone, Debug)]
pub enum ResetAction {
    /// Switch a trigger on or off.
    Write { pv: String, on: bool },
    /// Wait for a second.
    Wait,
    /// Put a front-end box into normal operation at a level.
    Push { ip: String, level: u8 },
    /// Nothing: the reset is over.
    Done,
}

#[verifier::ext_equal]
pub enum ResetActionView {
    Write { pv: Seq<char>, on: bool },
    Wait,
    Push { ip: Seq<char>, level: u8 },
    Done,
}

impl View for ResetAction {
    type V = ResetActionView;

    open spec fn view(&self) -> ResetActionView {
        match *self {
            ResetAction::Write { pv, on } => ResetActionView::Write { pv: pv@, on },
            ResetAction::Wait => ResetActionView::Wait,
            ResetAction::Push { ip, level } => ResetActionView::Push { ip: ip@, level },
            ResetAction::Done => ResetActionView::Done,
        }
    }
}

#[derive(Clone, Debug)]
enum Phase {
    Cut { next: usize },
    Undo { next: usize, upto: usize, message: String },
    Count { remaining: u32 },
    Restore { next: usize, error: Option<String> },
    Push { run: PushRun },
    Done,
}

/// How far a reset has come.
#[verifier::ext_equal]
pub enum ResetPhase {
    /// The triggers before `next` are off.
    Cut { next: int },
    /// A trigger could not be cut: those from `next` to `upto` are still off.
    Undo { next: int, upto: int, message: Seq<char> },
    /// All triggers are off.
    Count { remaining: u32 },
    /// The triggers from `next` on are off. Writing that one may have failed once.
    Restore { next: int, error: Option<Seq<char>> },
    /// Boxes are being pushed.
    Push { pending: Seq<FrontEndPushView> },
    Done,
}

/// A reset that is running.
#[derive(Clone, Debug)]
pub struct ResetRun {
    triggers: Vec<String>,
    phase: Phase,
}

#[verifier::ext_equal]
pub struct ResetView {
    pub triggers: Seq<Seq<char>>,
    pub phase: ResetPhase,
}

impl View for ResetRun {
    type V = ResetView;

    closed spec fn view(&self) -> ResetView {
        ResetView {
            triggers: text::texts(self.triggers@),
            phase: match self.phase {
                Phase::Cut { next } => ResetPhase::Cut { next: next as int },
                Phase::Undo { next, upto, message } => ResetPhase::Undo {
                    next: next as int,
                    upto: upto as int,
                    message: message@,
                },
                Phase::Count { remaining } => ResetPhase::Count { remaining },
                Phase::Restore { next, error } => ResetPhase::Restore {
                    next: next as int,
                    error: text::opt_text(error),
                },
                Phase::Push { run } => ResetPhase::Push { pending: run.pending() },
                Phase::Done => ResetPhase::Done,
            },
        }
    }
}

/// A countdown as it is sent to the clients.
pub open spec fn progress(remaining: u32) -> EffectView {
    EffectView::Send(
        ServerMessageView::ResetProgress { remaining_secs: remaining, total_secs: RESET_WAIT_SECS },
    )
}

/// What the operators are told at the end.
pub open spec fn success() -> EffectView {
    commands::general_notice(
        NotificationLevel::Success,
        PushPurpose::ReapplySensitivity.success(),
    )
}

/// What the operators are told when something went wrong.
pub open spec fn trouble(message: Seq<char>) -> EffectView {
    commands::general_notice(NotificationLevel::Error, message)
}

/// A reset, and what it brings about on its way there.
pub struct ResetStep {
    pub run: ResetView,
    pub effects: Seq<EffectView>,
}

impl ResetView {
    pub open spec fn wf(self) -> bool {
        let n = self.triggers.len();
        &&& n > 0
        &&& match self.phase {
            ResetPhase::Cut { next } => 0 <= next < n,
            ResetPhase::Undo { next, upto, .. } => 0 <= next < upto < n,
            ResetPhase::Count { remaining } => 1 <= remaining <= RESET_WAIT_SECS,
            ResetPhase::Restore { next, .. } => 0 <= next < n,
            ResetPhase::Push { pending } => pending.len() > 0,
            ResetPhase::Done => true,
        }
    }

    /// What to do next.
    pub open spec fn action(self) -> ResetActionView {
        match self.phase {
            ResetPhase::Cut { next } => ResetActionView::Write {
                pv: self.triggers[next],
                on: false,
            },
            ResetPhase::Undo { next, .. } => ResetActionView::Write {
                pv: self.triggers[next],
                on: true,
            },
            ResetPhase::Count { .. } => ResetActionView::Wait,
            ResetPhase::Restore { next, .. } => ResetActionView::Write {
                pv: self.triggers[next],
                on: true,
            },
            ResetPhase::Push { pending } => ResetActionView::Push {
                ip: pending[0].ip,
                level: pending[0].level,
            },
            ResetPhase::Done => ResetActionView::Done,
        }
    }

    pub open spec fn at(self, phase: ResetPhase) -> ResetView {
        ResetView { triggers: self.triggers, phase }
    }

    /// The triggers that were cut and not written back yet.
    pub open spec fn still_cut(self) -> Seq<Seq<char>> {
        match self.phase {
            ResetPhase::Cut { next } => self.triggers.take(next),
            ResetPhase::Undo { next, upto, .. } => self.triggers.subrange(next, upto),
            ResetPhase::Count { .. } => self.triggers,
            ResetPhase::Restore { next, .. } => self.triggers.skip(next),
            _ => Seq::empty(),
        }
    }

    /// The countdown that a client is shown which connects now.
    pub open spec fn shown(self) -> Option<(u32, u32)> {
        match self.phase {
            ResetPhase::Count { remaining } => Some((remaining, RESET_WAIT_SECS)),
            ResetPhase::Restore { .. } => Some((1, RESET_WAIT_SECS)),
            _ => None,
        }
    }

    /// The message about a trigger that could not be cut.
    pub open spec fn cut_failure(self, next: int, e: Seq<char>) -> Seq<char> {
        "Failed to disable trigger "@ + self.triggers[next] + ": "@ + e + " — reset aborted"@
    }

    /// Past a trigger that was written back, or given up.
    pub open spec fn restored(self, next: int, devices: Seq<DeviceState>) -> ResetStep {
        if next + 1 < self.triggers.len() {
            ResetStep {
                run: self.at(ResetPhase::Restore { next: next + 1, error: None }),
                effects: Seq::empty(),
            }
        } else if front_ends::pushes(devices).len() == 0 {
            ResetStep { run: self.at(ResetPhase::Done), effects: seq![progress(0), success()] }
        } else {
            ResetStep {
                run: self.at(ResetPhase::Push { pending: front_ends::pushes(devices) }),
                effects: seq![progress(0)],
            }
        }
    }

    /// What follows when the action was done, or failed with an error. `devices` is what is
    /// known of the devices by then.
    pub open spec fn after(self, error: Option<Seq<char>>, devices: Seq<DeviceState>) -> ResetStep {
        match (self.phase, error) {
            (ResetPhase::Cut { next }, None) => if next + 1 < self.triggers.len() {
                ResetStep {
                    run: self.at(ResetPhase::Cut { next: next + 1 }),
                    effects: Seq::empty(),
                }
            } else {
                ResetStep {
                    run: self.at(ResetPhase::Count { remaining: RESET_WAIT_SECS }),
                    effects: seq![progress(RESET_WAIT_SECS)],
                }
            },
            (ResetPhase::Cut { next }, Some(e)) => {
                let message = self.cut_failure(next, e);
                if next == 0 {
                    ResetStep { run: self.at(ResetPhase::Done), effects: seq![trouble(message)] }
                } else {
                    ResetStep {
                        run: self.at(ResetPhase::Undo { next: 0, upto: next, message }),
                        effects: Seq::empty(),
                    }
                }
            },
            (ResetPhase::Undo { next, upto, message }, _) => if next + 1 < upto {
                ResetStep {
                    run: self.at(ResetPhase::Undo { next: next + 1, upto, message }),
                    effects: Seq::empty(),
                }
            } else {
                ResetStep { run: self.at(ResetPhase::Done), effects: seq![trouble(message)] }
            },
            (ResetPhase::Count { remaining }, _) => if remaining > 1 {
                ResetStep {
                    run: self.at(ResetPhase::Count { remaining: (remaining - 1) as u32 }),
                    effects: seq![progress((remaining - 1) as u32)],
                }
            } else {
                ResetStep {
                    run: self.at(ResetPhase::Restore { next: 0, error: None }),
                    effects: Seq::empty(),
                }
            },
            (ResetPhase::Restore { next, error: None }, Some(e)) => ResetStep {
                run: self.at(ResetPhase::Restore { next, error: Some(e) }),
                effects: Seq::empty(),
            },
            (ResetPhase::Restore { next, error: Some(first) }, Some(e)) => {
                let step = self.restored(next, devices);
                let message = "FAILED TO RE-ENABLE TRIGGER "@ + self.triggers[next] + ": "@ + first
                    + "; retry: "@ + e;
                ResetStep { run: step.run, effects: seq![trouble(message)] + step.effects }
            },
            (ResetPhase::Restore { next, .. }, None) => self.restored(next, devices),
            (ResetPhase::Push { pending }, _) => {
                let told = match error {
                    Some(e) => seq![
                        front_ends::push_failure(PushPurpose::ReapplySensitivity, pending[0], e),
                    ],
                    None => Seq::empty(),
                };
                if pending.len() > 1 {
                    ResetStep {
                        run: self.at(ResetPhase::Push { pending: pending.skip(1) }),
                        effects: told,
                    }
                } else {
                    ResetStep { run: self.at(ResetPhase::Done), effects: told.push(success()) }
                }
            },
            (ResetPhase::Done, _) => ResetStep { run: self, effects: Seq::empty() },
        }
    }

    /// A bound on how many steps are left, when there are at most `boxes` boxes to push.
    pub open spec fn steps_left(self, boxes: nat) -> int {
        let n = self.triggers.len();
        match self.phase {
            ResetPhase::Cut { next } => (n - next) + RESET_WAIT_SECS + 2 * n + boxes + 1,
            ResetPhase::Undo { next, upto, .. } => upto - next,
            ResetPhase::Count { remaining } => remaining + 2 * n + boxes + 1,
            ResetPhase::Restore { next, error } => 2 * (n - next) + boxes + (if error is None {
                1int
            } else {
                0
            }),
            ResetPhase::Push { pending } => pending.len() as int,
            ResetPhase::Done => 0,
        }
    }
}

/// A reset that is started.
pub enum ResetStart {
    /// Another one is running.
    Busy(Effect),
    /// There is nothing to reset.
    Failed(Effect),
    Started(ResetRun, Effect),
}

/// The triggers of the devices.
pub open spec fn trigger_set(devices: Seq<DeviceState>) -> Set<Seq<char>>
    decreases devices.len(),
{
    if devices.len() == 0 {
        Set::empty()
    } else {
        let rest = trigger_set(devices.drop_last());
        match commands::pv_of(devices.last().config, keys::RESET_TRIGGER@) {
            Some(pv) => rest.insert(pv),
            None => rest,
        }
    }
}

fn triggers_of(state: &InnerState) -> (res: Vec<String>)
    ensures
        order::strictly_ordered(text::texts(res@)),
        text::texts(res@).to_set() == trigger_set(state.devices@),
{
    let mut out: Vec<String> = Vec::new();
    let ghost all = state.devices@;
    let mut i: usize = 0;
    assert(text::texts(out@).to_set() =~= trigger_set(all.take(0)));
    while i < state.devices.len()
        invariant
            i <= all.len(),
            all == state.devices@,
            order::strictly_ordered(text::texts(out@)),
            text::texts(out@).to_set() == trigger_set(all.take(i as int)),
        decreases all.len() - i,
    {
        assert(all.take(i as int + 1).drop_last() =~= all.take(i as int));
        if let Some(pv) = state.devices[i].config.pvs.get(keys::RESET_TRIGGER) {
            order::add_to_set(&mut out, pv.as_str());
        }
        i += 1;
    }
    assert(all.take(i as int) =~= all);
    out
}

/// What starting a reset comes to.
pub open spec fn is_reset_start(was: InnerState, now: InnerState, start: ResetStart) -> bool {
    let triggers = trigger_set(was.devices@);
    if was.reset_running {
        &&& now == was
        &&& start matches ResetStart::Busy(told)
        &&& told@ == commands::general_notice(
            NotificationLevel::Warning,
            "A front-end reset is already running"@,
        )
    } else if triggers == Set::<Seq<char>>::empty() {
        &&& now == was
        &&& start matches ResetStart::Failed(told)
        &&& told@ == trouble("No '"@ + keys::RESET_TRIGGER@ + "' PV configured for any device"@)
    } else {
        &&& now == (InnerState { reset_running: true, ..was })
        &&& start matches ResetStart::Started(run, told)
        &&& run.wf()
        &&& order::strictly_ordered(run@.triggers)
        &&& run@.triggers.to_set() == triggers
        &&& run@.phase == (ResetPhase::Cut { next: 0 })
        &&& told@ == commands::general_notice(
            NotificationLevel::Info,
            "Resetting front ends: trigger off for "@ + text::decimal(RESET_WAIT_SECS as nat)
                + "s..."@,
        )
    }
}

/// Starts a reset, unless one is running or there is no trigger to cut.
pub fn begin_reset(state: &mut InnerState) -> (res: ResetStart)
    ensures
        is_reset_start(*old(state), *final(state), res),
        old(state).wf() ==> final(state).wf(),
{
    if state.reset_running {
        return ResetStart::Busy(
            notify_all(
                NotificationLevel::Warning,
                "A front-end reset is already running".to_string(),
            ),
        );
    }
    let triggers = triggers_of(state);
    if triggers.len() == 0 {
        assert(text::texts(triggers@).to_set() =~= Set::<Seq<char>>::empty());
        return ResetStart::Failed(
            notify_all(
                NotificationLevel::Error,
                text::cat3("No '", keys::RESET_TRIGGER, "' PV configured for any device"),
            ),
        );
    }
    proof {
        let list = text::texts(triggers@);
        assert(list.to_set().contains(list[0]));
    }
    state.reset_running = true;
    let told = notify_all(
        NotificationLevel::Info,
        text::cat3(
            "Resetting front ends: trigger off for ",
            text::decimal_text(RESET_WAIT_SECS as u64).as_str(),
            "s...",
        ),
    );
    ResetStart::Started(ResetRun { triggers, phase: Phase::Cut { next: 0 } }, told)
}

fn show_progress(remaining: u32) -> (res: Effect)
    ensures
        res@ == progress(remaining),
{
    Effect::Send(
        ServerMessage::ResetProgress { remaining_secs: remaining, total_secs: RESET_WAIT_SECS },
    )
}

impl ResetRun {
    pub closed spec fn wf(self) -> bool {
        &&& self@.wf()
        &&& match self.phase {
            Phase::Push { run } => run.wf() && run.aim() == PushPurpose::ReapplySensitivity,
            _ => true,
        }
    }

    /// A sound reset is at a sound place.
    pub proof fn wf_view(self)
        requires
            self.wf(),
        ensures
            self@.wf(),
    {
    }

    /// What to do next.
    pub fn action(&self) -> (res: ResetAction)
        requires
            self.wf(),
        ensures
            res@ == self@.action(),
    {
        match &self.phase {
            Phase::Cut { next } => ResetAction::Write {
                pv: self.triggers[*next].clone(),
                on: false,
            },
            Phase::Undo { next, .. } => ResetAction::Write {
                pv: self.triggers[*next].clone(),
                on: true,
            },
            Phase::Count { .. } => ResetAction::Wait,
            Phase::Restore { next, .. } => ResetAction::Write {
                pv: self.triggers[*next].clone(),
                on: true,
            },
            Phase::Push { run } => match run.next_push() {
                Some(p) => ResetAction::Push { ip: p.ip.clone(), level: p.level },
                None => ResetAction::Done,
            },
            Phase::Done => ResetAction::Done,
        }
    }

    /// Past a trigger that was written back, or given up.
    fn past(triggers: Vec<String>, next: usize, state: &InnerState, told: &mut Vec<Effect>) -> (res:
        ResetRun)
        requires
            next < triggers@.len(),
        ensures
            res.wf(),
            ({
                let here = ResetView {
                    triggers: text::texts(triggers@),
                    phase: ResetPhase::Restore { next: next as int, error: None },
                };
                let step = here.restored(next as int, state.devices@);
                &&& res@ == step.run
                &&& commands::effects(final(told)@) == commands::effects(old(told)@) + step.effects
            }),
    {
        let ghost was = commands::effects(told@);
        if next < triggers.len() - 1 {
            assert(was + Seq::<EffectView>::empty() =~= was);
            return ResetRun { triggers, phase: Phase::Restore { next: next + 1, error: None } };
        }
        told.push(show_progress(0));
        assert(commands::effects(told@) =~= was + seq![progress(0)]);
        let run = PushRun::begin(PushPurpose::ReapplySensitivity, state);
        if run.next_push().is_none() {
            told.push(run.finish());
            assert(commands::effects(told@) =~= was + seq![progress(0), success()]);
            return ResetRun { triggers, phase: Phase::Done };
        }
        ResetRun { triggers, phase: Phase::Push { run } }
    }

    /// Goes on when the action was done, or failed. What clients that connect are shown of the
    /// reset follows it, and so does whether another one can be started.
    pub fn step(self, outcome: Result<(), String>, state: &mut InnerState) -> (res: (
        ResetRun,
        Vec<Effect>,
    ))
        requires
            self.wf(),
        ensures
            res.0.wf(),
            ({
                let step = self@.after(text::error_text(outcome), old(state).devices@);
                &&& res.0@ == step.run
                &&& commands::effects(res.1@) == step.effects
            }),
            *final(state) == (InnerState {
                reset_progress: res.0@.shown(),
                reset_running: !(res.0@.phase is Done),
                ..*old(state)
            }),
            old(state).wf() ==> final(state).wf(),
    {
        let mut told: Vec<Effect> = Vec::new();
        let ghost view = self@;
        let ghost want = view.after(text::error_text(outcome), state.devices@);
        assert(commands::effects(told@) =~= Seq::<EffectView>::empty());
        let triggers = self.triggers;
        let run = match self.phase {
            Phase::Cut { next } => match outcome {
                Ok(_) => if next < triggers.len() - 1 {
                    ResetRun { triggers, phase: Phase::Cut { next: next + 1 } }
                } else {
                    told.push(show_progress(RESET_WAIT_SECS));
                    ResetRun { triggers, phase: Phase::Count { remaining: RESET_WAIT_SECS } }
                },
                Err(e) => {
                    let message = text::cat5(
                        "Failed to disable trigger ",
                        triggers[next].as_str(),
                        ": ",
                        e.as_str(),
                        " — reset aborted",
                    );
                    if next == 0 {
                        told.push(notify_all(NotificationLevel::Error, message));
                        ResetRun { triggers, phase: Phase::Done }
                    } else {
                        ResetRun { triggers, phase: Phase::Undo { next: 0, upto: next, message } }
                    }
                },
            },
            Phase::Undo { next, upto, message } => if next + 1 < upto {
                ResetRun { triggers, phase: Phase::Undo { next: next + 1, upto, message } }
            } else {
                told.push(notify_all(NotificationLevel::Error, message));
                ResetRun { triggers, phase: Phase::Done }
            },
            Phase::Count { remaining } => if remaining > 1 {
                told.push(show_progress(remaining - 1));
                ResetRun { triggers, phase: Phase::Count { remaining: remaining - 1 } }
            } else {
                ResetRun { triggers, phase: Phase::Restore { next: 0, error: None } }
            },
            Phase::Restore { next, error: first } => match outcome {
                Ok(_) => ResetRun::past(triggers, next, state, &mut told),
                Err(e) => match first {
                    None => ResetRun { triggers, phase: Phase::Restore { next, error: Some(e) } },
                    Some(first) => {
                        let head = text::cat4(
                            "FAILED TO RE-ENABLE TRIGGER ",
                            triggers[next].as_str(),
                            ": ",
                            first.as_str(),
                        );
                        told.push(
                            notify_all(
                                NotificationLevel::Error,
                                text::cat3(head.as_str(), "; retry: ", e.as_str()),
                            ),
                        );
                        ResetRun::past(triggers, next, state, &mut told)
                    },
                },
            },
            Phase::Push { run } => {
                let mut run = run;
                if let Some(failed) = run.pushed(outcome) {
                    told.push(failed);
                }
                if run.next_push().is_none() {
                    told.push(run.finish());
                    ResetRun { triggers, phase: Phase::Done }
                } else {
                    ResetRun { triggers, phase: Phase::Push { run } }
                }
            },
            Phase::Done => ResetRun { triggers, phase: Phase::Done },
        };
        assert(commands::effects(told@) =~= want.effects);
        state.reset_progress = match &run.phase {
            Phase::Count { remaining } => Some((*remaining, RESET_WAIT_SECS)),
            Phase::Restore { .. } => Some((1, RESET_WAIT_SECS)),
            _ => None,
        };
        state.reset_running = match &run.phase {
            Phase::Done => false,
            _ => true,
        };
        (run, told)
    }
}

/// A reset keeps account of the triggers: what it cuts it writes back, and in the end none is
/// left. A trigger is given up only when writing it back failed twice, or when the reset is
/// being undone. Boxes are pushed only when no trigger is left.
pub proof fn reset_accounts_for_triggers(
    run: ResetView,
    error: Option<Seq<char>>,
    devices: Seq<DeviceState>,
)
    requires
        run.wf(),
    ensures
        ({
            let next = run.after(error, devices).run;
            &&& next.wf()
            &&& match run.action() {
                ResetActionView::Write { pv, on: false } => next.still_cut() == (match error {
                    None => run.still_cut().push(pv),
                    Some(_) => run.still_cut(),
                }),
                ResetActionView::Write { pv, on: true } => {
                    &&& run.still_cut().len() > 0
                    &&& run.still_cut()[0] == pv
                    &&& next.still_cut() == (match (run.phase, error) {
                        (ResetPhase::Restore { error: None, .. }, Some(_)) => run.still_cut(),
                        _ => run.still_cut().skip(1),
                    })
                },
                ResetActionView::Wait => next.still_cut() == run.still_cut(),
                ResetActionView::Push { .. } => run.still_cut().len() == 0
                    && next.still_cut().len() == 0,
                ResetActionView::Done => run.still_cut().len() == 0 && next == run,
            }
        }),
{
    let next = run.after(error, devices).run;
    match run.action() {
        ResetActionView::Write { pv, on } => {
            if on {
                assert(run.still_cut().skip(1) =~= next.still_cut() || run.still_cut()
                    =~= next.still_cut());
            } else {
                assert(next.still_cut() =~= (match error {
                    None => run.still_cut().push(pv),
                    Some(_) => run.still_cut(),
                }));
            }
        },
        _ => {
            assert(next.still_cut() =~= run.still_cut());
        },
    }
}

/// A reset comes to an end, whatever fails.
pub proof fn reset_ends(
    run: ResetView,
    error: Option<Seq<char>>,
    devices: Seq<DeviceState>,
    boxes: nat,
)
    requires
        run.wf(),
        !(run.phase is Done),
        front_ends::pushes(devices).len() <= boxes,
    ensures
        0 <= run.after(error, devices).run.steps_left(boxes) < run.steps_left(boxes),
{
}

/// What came of the actions of a reset, one after the other: the error, if any, and what was
/// known of the devices by then.
pub struct ResetOutcome {
    pub error: Option<Seq<char>>,
    pub devices: Seq<DeviceState>,
}

/// A reset after outcomes.
pub open spec fn ran(run: ResetView, outcomes: Seq<ResetOutcome>) -> ResetView
    decreases outcomes.len(),
{
    if outcomes.len() == 0 {
        run
    } else {
        ran(run, outcomes.drop_last()).after(outcomes.last().error, outcomes.last().devices).run
    }
}

/// What a reset does in a step.
pub open spec fn action_at(run: ResetView, outcomes: Seq<ResetOutcome>, k: int) -> ResetActionView {
    ran(run, outcomes.take(k)).action()
}

proof fn lemma_ran_step(run: ResetView, outcomes: Seq<ResetOutcome>, k: int)
    requires
        run.wf(),
        0 <= k < outcomes.len(),
    ensures
        ran(run, outcomes.take(k + 1)) == ran(run, outcomes.take(k)).after(
            outcomes[k].error,
            outcomes[k].devices,
        ).run,
        ran(run, outcomes.take(k)).wf(),
        ran(run, outcomes.take(k + 1)).wf(),
    decreases k,
{
    assert(outcomes.take(k + 1).drop_last() =~= outcomes.take(k));
    if k > 0 {
        lemma_ran_step(run, outcomes, k - 1);
    } else {
        assert(outcomes.take(0) =~= Seq::<ResetOutcome>::empty());
    }
    reset_accounts_for_triggers(
        ran(run, outcomes.take(k)),
        outcomes[k].error,
        outcomes[k].devices,
    );
}

proof fn lemma_written_back(run: ResetView, outcomes: Seq<ResetOutcome>, pv: Seq<char>, k: int) -> (j:
    int)
    requires
        run.wf(),
        0 <= k <= outcomes.len(),
        ran(run, outcomes.take(k)).still_cut().contains(pv),
        ran(run, outcomes).phase is Done,
    ensures
        k <= j < outcomes.len(),
        action_at(run, outcomes, j) == (ResetActionView::Write { pv, on: true }),
    decreases outcomes.len() - k,
{
    let here = ran(run, outcomes.take(k));
    let cut = here.still_cut();
    if k == outcomes.len() {
        assert(outcomes.take(k) =~= outcomes);
        assert(cut.len() == 0);
        k
    } else {
        lemma_ran_step(run, outcomes, k);
        reset_accounts_for_triggers(here, outcomes[k].error, outcomes[k].devices);
        let next = ran(run, outcomes.take(k + 1));
        let i = choose|i: int| 0 <= i < cut.len() && cut[i] == pv;
        match here.action() {
            ResetActionView::Write { pv: other, on } => {
                if on && other == pv {
                    k
                } else {
                    if on {
                        assert(cut[0] == other);
                        if next.still_cut() == cut.skip(1) {
                            assert(next.still_cut()[i - 1] == pv);
                        } else {
                            assert(next.still_cut()[i] == pv);
                        }
                    } else {
                        assert(next.still_cut()[i] == pv);
                    }
                    assert(next.still_cut().contains(pv));
                    lemma_written_back(run, outcomes, pv, k + 1)
                }
            },
            ResetActionView::Wait => {
                assert(next.still_cut()[i] == pv);
                lemma_written_back(run, outcomes, pv, k + 1)
            },
            _ => {
                assert(cut.len() == 0);
                k
            },
        }
    }
}

/// In a reset that has come to its end, every trigger that was cut was written back after that,
/// whatever else failed.
pub proof fn cut_triggers_are_written_back(
    run: ResetView,
    outcomes: Seq<ResetOutcome>,
    pv: Seq<char>,
    k: int,
)
    requires
        run.wf(),
        ran(run, outcomes).phase is Done,
        0 <= k < outcomes.len(),
        action_at(run, outcomes, k) == (ResetActionView::Write { pv, on: false }),
        outcomes[k].error is None,
    ensures
        exists|j: int|
            k < j < outcomes.len() && #[trigger] action_at(run, outcomes, j) == (
            ResetActionView::Write { pv, on: true }),
{
    lemma_ran_step(run, outcomes, k);
    let here = ran(run, outcomes.take(k));
    let next = ran(run, outcomes.take(k + 1));
    reset_accounts_for_triggers(here, outcomes[k].error, outcomes[k].devices);
    assert(next.still_cut()[here.still_cut().len() as int] == pv);
    assert(next.still_cut().contains(pv));
    let j = lemma_written_back(run, outcomes, pv, k + 1);
    assert(action_at(run, outcomes, j) == (ResetActionView::Write { pv, on: true }));
}

/// A reset starts in step with what clients are shown, and leaves nothing behind: one that is over,
/// be it because it was aborted, has left the state as it was, as far as nothing else has changed
/// it.
pub proof fn reset_leaves_nothing_behind(
    was: InnerState,
    begun: InnerState,
    start: ResetStart,
    outcomes: Seq<ResetOutcome>,
    ended: InnerState,
)
    requires
        was.wf(),
        is_reset_start(was, begun, start),
        start matches ResetStart::Started(run, _) && ran(run@, outcomes).phase is Done && ended == (
        InnerState {
            reset_progress: ran(run@, outcomes).shown(),
            reset_running: !(ran(run@, outcomes).phase is Done),
            ..begun
        }),
    ensures
        start matches ResetStart::Started(run, _) && begun.reset_progress == run@.shown(),
        ended == was,
{
}

/// A reset toggles the triggers of the devices and nothing else, each of them once, though devices
/// share it.
pub proof fn triggers_are_those_of_the_devices(devices: Seq<DeviceState>, pv: Seq<char>)
    ensures
        trigger_set(devices).contains(pv) <==> exists|i: int|
            0 <= i < devices.len() && (#[trigger] devices[i]).config.pvs@.contains_key(
                "reset_trigger"@,
            ) && devices[i].config.pvs@["reset_trigger"@]@ == pv,
    decreases devices.len(),
{
    if devices.len() > 0 {
        let front = devices.drop_last();
        let last = devices.len() - 1;
        triggers_are_those_of_the_devices(front, pv);
        assert(devices.last() == devices[last]);
        if trigger_set(front).contains(pv) {
            let i = choose|i: int|
                0 <= i < front.len() && (#[trigger] front[i]).config.pvs@.contains_key(
                    "reset_trigger"@,
                ) && front[i].config.pvs@["reset_trigger"@]@ == pv;
            assert(front[i] == devices[i]);
        }
        if exists|i: int|
            0 <= i < devices.len() && (#[trigger] devices[i]).config.pvs@.contains_key(
                "reset_trigger"@,
            ) && devices[i].config.pvs@["reset_trigger"@]@ == pv {
            let i = choose|i: int|
                0 <= i < devices.len() && (#[trigger] devices[i]).config.pvs@.contains_key(
                    "reset_trigger"@,
                ) && devices[i].config.pvs@["reset_trigger"@]@ == pv;
            if i < last {
                assert(front[i] == devices[i]);
            }
        }
    }
}

/// Only one reset runs at a time, and one that has nothing to toggle is not started: the operators
/// are told so, and nothing changes. Any other starts by cutting its first trigger.
pub proof fn one_reset_runs_at_a_time(was: InnerState, now: InnerState, start: ResetStart)
    requires
        is_reset_start(was, now, start),
    ensures
        was.reset_running ==> now == was && (start matches ResetStart::Busy(told)
            && told@ is Notify),
        !was.reset_running && (forall|i: int|
            0 <= i < was.devices@.len() ==> !(
            #[trigger] was.devices@[i]).config.pvs@.contains_key("reset_trigger"@)) ==> now == was
            && (start matches ResetStart::Failed(told) && told@ is Notify),
        start matches ResetStart::Started(run, _) ==> !was.reset_running && now.reset_running
            && now.devices == was.devices && run@.triggers.len() > 0 && run@.action() == (
        ResetActionView::Write { pv: run@.triggers[0], on: false }),
        !was.reset_running && (exists|i: int|
            0 <= i < was.devices@.len() && (
            #[trigger] was.devices@[i]).config.pvs@.contains_key("reset_trigger"@))
            ==> start is Started,
{
    let devices = was.devices@;
    let set = trigger_set(devices);
    if !was.reset_running && (exists|i: int|
        0 <= i < devices.len() && (#[trigger] devices[i]).config.pvs@.contains_key(
            "reset_trigger"@,
        )) {
        let i = choose|i: int|
            0 <= i < devices.len() && (#[trigger] devices[i]).config.pvs@.contains_key(
                "reset_trigger"@,
            );
        triggers_are_those_of_the_devices(devices, devices[i].config.pvs@["reset_trigger"@]@);
        assert(set.contains(devices[i].config.pvs@["reset_trigger"@]@));
    }
    if forall|i: int|
        0 <= i < devices.len() ==> !(#[trigger] devices[i]).config.pvs@.contains_key(
            "reset_trigger"@,
        ) {
        assert forall|pv: Seq<char>| !set.contains(pv) by {
            triggers_are_those_of_the_devices(devices, pv);
        }
        assert(set =~= Set::<Seq<char>>::empty());
    }
    if let ResetStart::Started(run, _) = start {
        run.wf_view();
    }
}

/// The triggers are off for sixty-five seconds: when the last of them was cut, the reset waits for
/// a second sixty-five times, and shows how many are left, before it writes the first one back.
pub proof fn triggers_are_off_for_sixty_five_seconds(
    run: ResetView,
    outcomes: Seq<ResetOutcome>,
    k: int,
)
    requires
        run.wf(),
        run.phase == (ResetPhase::Cut { next: run.triggers.len() - 1 }),
        outcomes.len() == 66,
        outcomes[0].error is None,
        1 <= k <= 65,
    ensures
        action_at(run, outcomes, k) == ResetActionView::Wait,
        ran(run, outcomes.take(k)).shown() == Some(((66 - k) as u32, 65u32)),
        ran(run, outcomes).action() == (ResetActionView::Write { pv: run.triggers[0], on: true }),
{
    lemma_countdown(run, outcomes, k);
    lemma_countdown(run, outcomes, 65);
    lemma_ran_step(run, outcomes, 65);
    assert(outcomes.take(66) =~= outcomes);
}

proof fn lemma_countdown(run: ResetView, outcomes: Seq<ResetOutcome>, k: int)
    requires
        run.wf(),
        run.phase == (ResetPhase::Cut { next: run.triggers.len() - 1 }),
        outcomes.len() == 66,
        outcomes[0].error is None,
        1 <= k <= 65,
    ensures
        ran(run, outcomes.take(k)) == run.at(ResetPhase::Count { remaining: (66 - k) as u32 }),
    decreases k,
{
    lemma_ran_step(run, outcomes, k - 1);
    if k == 1 {
        assert(outcomes.take(0) =~= Seq::<ResetOutcome>::empty());
    } else {
        lemma_countdown(run, outcomes, k - 1);
    }
}

/// A trigger that cannot be written back is tried once more, and only then given up, which the
/// operators are told as an error.
pub proof fn triggers_are_written_back_twice_if_need_be(
    run: ResetView,
    first: Seq<char>,
    second: Seq<char>,
    devices: Seq<DeviceState>,
)
    requires
        run.wf(),
        run.phase matches ResetPhase::Restore { error, .. } && error is None,
    ensures
        ({
            let again = run.after(Some(first), devices);
            let past = again.run.after(Some(second), devices);
            &&& again.run.action() == run.action()
            &&& again.effects.len() == 0
            &&& past.run.phase is Restore ==> past.run.phase->Restore_next
                == run.phase->Restore_next + 1
            &&& past.effects.len() > 0
            &&& past.effects[0] matches EffectView::Notify { level, .. } && level
                == NotificationLevel::Error
        }),
{
}

/// A reset that fails to cut a trigger does nothing more than write back what it has cut: it does
/// not wait and pushes nothing, and the operators are told of the failure when it is over.
pub proof fn aborted_reset_only_writes_back(
    run: ResetView,
    error: Option<Seq<char>>,
    devices: Seq<DeviceState>,
)
    requires
        run.wf(),
        run.phase is Undo,
    ensures
        ({
            let step = run.after(error, devices);
            &&& run.action() matches ResetActionView::Write { on, .. } && on
            &&& step.run.phase is Undo || step.run.phase is Done
            &&& step.run.phase is Done ==> step.effects.len() == 1 && (
            step.effects[0] matches EffectView::Notify { level, .. } && level
                == NotificationLevel::Error)
        }),
{
}

/// When the last trigger is back, every box is pushed at the level that is selected by then, one
/// after the other; one that fails is reported, and the rest still go. The operators are told when
/// all were tried.
pub proof fn reset_ends_by_pushing_every_box(
    run: ResetView,
    devices: Seq<DeviceState>,
    error: Option<Seq<char>>,
    later: Seq<DeviceState>,
)
    requires
        run.wf(),
        run.phase == (ResetPhase::Restore { next: run.triggers.len() - 1, error: None }),
        front_ends::pushes(devices).len() > 0,
    ensures
        ({
            let pushing = run.after(None, devices).run;
            let list = front_ends::pushes(devices);
            let step = pushing.after(error, later);
            &&& pushing.action() == (ResetActionView::Push { ip: list[0].ip, level: list[0].level })
            &&& list.len() > 1 ==> step.run.action() == (ResetActionView::Push {
                ip: list[1].ip,
                level: list[1].level,
            })
            &&& list.len() == 1 ==> step.run.action() == ResetActionView::Done
                && step.effects.len() > 0 && (step.effects.last() matches EffectView::Notify {
                level,
                ..
            } && level == NotificationLevel::Success)
            &&& error is Some ==> step.effects.len() > 0 && (
            step.effects[0] matches EffectView::Notify { level, device, .. } && level
                == NotificationLevel::Error && device == Some(list[0].name))
        }),
{
}

/// A reset with no box to push is over when the last trigger is back, and the operators are told so.
pub proof fn reset_without_boxes_is_over(run: ResetView, devices: Seq<DeviceState>)
    requires
        run.wf(),
        run.phase == (ResetPhase::Restore { next: run.triggers.len() - 1, error: None }),
        forall|i: int|
            0 <= i < devices.len() ==> (#[trigger] devices[i]).config.device_type
                == crate::messages::DeviceType::Dq || devices[i].config.device_type
                == crate::messages::DeviceType::Ict,
    ensures
        ({
            let step = run.after(None, devices);
            &&& step.run.action() == ResetActionView::Done
            &&& step.effects.len() > 0
            &&& step.effects.last() matches EffectView::Notify { level, .. } && level
                == NotificationLevel::Success
        }),
{
    lemma_no_pushes(devices);
}

proof fn lemma_no_pushes(devices: Seq<DeviceState>)
    requires
        forall|i: int|
            0 <= i < devices.len() ==> (#[trigger] devices[i]).config.device_type
                == crate::messages::DeviceType::Dq || devices[i].config.device_type
                == crate::messages::DeviceType::Ict,
    ensures
        front_ends::pushes(devices).len() == 0,
    decreases devices.len(),
{
    if devices.len() > 0 {
        let front = devices.drop_last();
        assert forall|i: int| 0 <= i < front.len() implies (
        #[trigger] front[i]).config.device_type == crate::messages::DeviceType::Dq
            || front[i].config.device_type == crate::messages::DeviceType::Ict by {
            assert(front[i] == devices[i]);
        }
        assert(devices.last() == devices[devices.len() - 1]);
        lemma_no_pushes(front);
    }
}

}
