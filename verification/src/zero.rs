//! Zeroing a wall current monitor: its offset is set to zero, fresh readings are averaged, and
//! their mean becomes the new offset.

use vstd::prelude::*;

use crate::buffer::RECENT_COUNT;
use crate::chart;
use crate::commands::{
    device_not_found, notify, pv_text, CommandError, CommandErrorView, Effect, EffectView, PvWrite,
};
use crate::commands;
use crate::double::Double;
use crate::keys;
use crate::messages::{NotificationLevel, Point};
use crate::state::InnerState;
use crate::text;

verus! {

/// How many fresh readings are averaged.
pub const ZERO_SAMPLE_COUNT: u64 = 100;

/// How long to wait for them, in milliseconds.
pub const ZERO_TIMEOUT_MS: u64 = 20000;

/// How long to wait between two looks at how many there are, in milliseconds.
pub const ZERO_POLL_MS: u64 = 100;

/// A zeroing whose offset is being set to zero.
#[derive(Clone, Debug)]
pub struct ZeroStart {
    pub device: String,
    /// The process variable of the offset.
    pub pv: String,
}

impl ZeroStart {
    /// The write that sets the offset to zero.
    pub fn write(&self) -> (res: PvWrite)
        ensures
            res.pv@ == self.pv@,
            res.value.bits == 0,
    {
        PvWrite { pv: self.pv.clone(), value: Double::zero() }
    }
}

/// A zeroing that waits for fresh readings.
#[derive(Clone, Debug)]
pub struct ZeroWait {
    pub device: String,
    pub pv: String,
    /// How many readings there had been when the offset became zero.
    pub baseline: u64,
}

/// What to do about a zeroing that waits.
#[derive(Clone, Debug)]
pub enum ZeroPoll {
    /// Look again later.
    Wait,
    /// The device is gone: give up.
    Gone,
    /// Enough readings have come.
    Ready,
    /// They took too long.
    Failed(CommandError),
}

/// Why a device cannot be zeroed, if it cannot.
pub open spec fn zero_fault(state: InnerState, device: Seq<char>) -> Option<CommandErrorView> {
    match state.find(device) {
        None => Some(commands::not_found(device)),
        Some(i) => match commands::pv_of(state.devices@[i].config, keys::CORR_B@) {
            None => Some(commands::failure("No corrB PV for "@ + device, device)),
            Some(_) => None,
        },
    }
}

/// Whether `start` is the start of a zeroing, and `told` what the operators are told of it.
pub open spec fn is_zero_start(
    state: InnerState,
    device: Seq<char>,
    start: ZeroStart,
    told: EffectView,
) -> bool {
    &&& zero_fault(state, device) is None
    &&& state.find(device) matches Some(i)
    &&& start.device@ == device
    &&& commands::pv_of(state.devices@[i].config, keys::CORR_B@) == Some(start.pv@)
    &&& told == commands::notice(
        NotificationLevel::Info,
        "Zeroing "@ + device + "... collecting "@ + text::decimal(ZERO_SAMPLE_COUNT as nat)
            + " samples"@,
        device,
    )
}

/// Starts a zeroing. The operators are told, and zero is then to be written to the offset.
pub fn begin_zero(device_name: &str, state: &InnerState) -> (res: Result<
    (ZeroStart, Effect),
    CommandError,
>)
    ensures
        match res {
            Err(e) => zero_fault(*state, device_name@) == Some(e@),
            Ok((start, told)) => is_zero_start(*state, device_name@, start, told@),
        },
{
    let device = match state.device(device_name) {
        Some(device) => device,
        None => {
            return Err(device_not_found(device_name));
        },
    };
    match pv_text(&device.config, keys::CORR_B) {
        None => Err(
            CommandError::for_device(text::cat2("No corrB PV for ", device_name), device_name),
        ),
        Some(pv) => {
            let told = notify(
                NotificationLevel::Info,
                text::cat5(
                    "Zeroing ",
                    device_name,
                    "... collecting ",
                    text::decimal_text(ZERO_SAMPLE_COUNT).as_str(),
                    " samples",
                ),
                device_name,
            );
            Ok((ZeroStart { device: device_name.to_string(), pv }, told))
        },
    }
}

/// How many readings of a device there have been.
pub open spec fn readings(state: InnerState, device: Seq<char>) -> Option<u64> {
    match state.find(device) {
        Some(i) => Some(state.devices@[i].buffer.pushed()),
        None => None,
    }
}

fn sample_push_count(state: &InnerState, device_name: &str) -> (res: Option<u64>)
    ensures
        res == readings(*state, device_name@),
{
    match state.device(device_name) {
        Some(device) => Some(device.buffer.total_pushed()),
        None => None,
    }
}

/// Goes on when zero was written to the offset: `written` is what came of that. None if the
/// device is gone.
pub fn zeroed(start: ZeroStart, written: Result<(), String>, state: &InnerState) -> (res: Result<
    Option<ZeroWait>,
    CommandError,
>)
    ensures
        match (written, res) {
            (Err(e), Err(failed)) => failed@ == commands::failure(
                "Failed to zero "@ + start.device@ + ": "@ + e@,
                start.device@,
            ),
            (Ok(_), Ok(Some(wait))) => wait.device == start.device && wait.pv == start.pv
                && readings(*state, start.device@) == Some(wait.baseline),
            (Ok(_), Ok(None)) => readings(*state, start.device@) is None,
            _ => false,
        },
{
    if let Err(e) = written {
        return Err(
            CommandError::for_device(
                text::cat4("Failed to zero ", start.device.as_str(), ": ", e.as_str()),
                start.device.as_str(),
            ),
        );
    }
    match sample_push_count(state, start.device.as_str()) {
        Some(baseline) => Ok(
            Some(ZeroWait { device: start.device, pv: start.pv, baseline }),
        ),
        None => Ok(None),
    }
}

/// How many readings were counted between two counts that may have wrapped around.
pub open spec fn counted(from: u64, to: u64) -> int {
    if to >= from {
        to - from
    } else {
        to - from + u64::MAX + 1
    }
}

/// What to do about a zeroing that waits, `elapsed_ms` after the wait began.
pub open spec fn is_poll(
    wait: ZeroWait,
    state: InnerState,
    elapsed_ms: u64,
    res: ZeroPoll,
) -> bool {
    match readings(state, wait.device@) {
        None => res is Gone,
        Some(now) => if counted(wait.baseline, now) >= ZERO_SAMPLE_COUNT {
            res is Ready
        } else if elapsed_ms > ZERO_TIMEOUT_MS {
            res matches ZeroPoll::Failed(e) && e@ == commands::failure(
                "Zeroing "@ + wait.device@ + ": timed out waiting for charge readings"@,
                wait.device@,
            )
        } else {
            res is Wait
        },
    }
}

impl ZeroWait {
    /// Looks whether enough fresh readings have come, `elapsed_ms` after the wait began.
    pub fn poll(&self, state: &InnerState, elapsed_ms: u64) -> (res: ZeroPoll)
        ensures
            is_poll(*self, *state, elapsed_ms, res),
    {
        let now: u64 = match sample_push_count(state, self.device.as_str()) {
            Some(now) => now,
            None => {
                return ZeroPoll::Gone;
            },
        };
        if now.wrapping_sub(self.baseline) >= ZERO_SAMPLE_COUNT {
            return ZeroPoll::Ready;
        }
        if elapsed_ms > ZERO_TIMEOUT_MS {
            return ZeroPoll::Failed(
                CommandError::for_device(
                    text::cat3(
                        "Zeroing ",
                        self.device.as_str(),
                        ": timed out waiting for charge readings",
                    ),
                    self.device.as_str(),
                ),
            );
        }
        ZeroPoll::Wait
    }

    /// The readings whose mean becomes the offset: the newest hundred that were pushed, whatever
    /// the size of the buffer. None if the device is gone.
    pub fn samples(&self, state: &InnerState) -> (res: Result<Option<Vec<Point>>, CommandError>)
        requires
            state.wf(),
        ensures
            match state.find(self.device@) {
                None => res matches Ok(None),
                Some(i) => {
                    let recent = state.devices@[i].buffer.recent();
                    if recent.len() < ZERO_SAMPLE_COUNT {
                        res matches Err(e) && e@ == commands::failure(
                            "Zeroing "@ + self.device@ + ": no charge readings available"@,
                            self.device@,
                        )
                    } else {
                        res matches Ok(Some(points)) && points@ == recent && points@.len()
                            == ZERO_SAMPLE_COUNT
                    }
                },
            },
    {
        match state.device(self.device.as_str()) {
            None => Ok(None),
            Some(device) => {
                let points = device.buffer.recent_points();
                proof {
                    crate::buffer::recent_is_bounded(device.buffer);
                }
                if points.len() < ZERO_SAMPLE_COUNT as usize {
                    Err(
                        CommandError::for_device(
                            text::cat3(
                                "Zeroing ",
                                self.device.as_str(),
                                ": no charge readings available",
                            ),
                            self.device.as_str(),
                        ),
                    )
                } else {
                    Ok(Some(points))
                }
            },
        }
    }

    /// Ends a zeroing: `written` is what came of writing the mean, which is `mean` in words.
    pub fn finish(self, written: Result<(), String>, mean: &str) -> (res: Result<
        Effect,
        CommandError,
    >)
        ensures
            match (written, res) {
                (Err(e), Err(failed)) => failed@ == commands::failure(
                    "Failed to set offset for "@ + self.device@ + ": "@ + e@,
                    self.device@,
                ),
                (Ok(_), Ok(told)) => told@ == commands::notice(
                    NotificationLevel::Success,
                    "Zeroed "@ + self.device@ + ": offset = "@ + mean@,
                    self.device@,
                ),
                _ => false,
            },
    {
        match written {
            Err(e) => Err(
                CommandError::for_device(
                    text::cat4(
                        "Failed to set offset for ",
                        self.device.as_str(),
                        ": ",
                        e.as_str(),
                    ),
                    self.device.as_str(),
                ),
            ),
            Ok(_) => Ok(
                notify(
                    NotificationLevel::Success,
                    text::cat4("Zeroed ", self.device.as_str(), ": offset = ", mean),
                    self.device.as_str(),
                ),
            ),
        }
    }
}

/// A zeroing averages a hundred readings, and only such that came after the offset was zero. Once
/// a hundred have come since the baseline, `fresh` being what was pushed since, what it averages
/// is the newest hundred of them: whatever the buffer held before, whatever its capacity is, and
/// though it was resized or cleared meanwhile, which leaves the newest readings as they are.
pub proof fn zero_averages_a_hundred_fresh_readings(
    baseline: u64,
    now: u64,
    before: Seq<Point>,
    fresh: Seq<Point>,
)
    requires
        counted(baseline, now) >= ZERO_SAMPLE_COUNT,
        fresh.len() == counted(baseline, now),
        before.len() <= RECENT_COUNT,
    ensures
        ({
            let recent = chart::appended(before, fresh, RECENT_COUNT as nat);
            &&& recent.len() == ZERO_SAMPLE_COUNT
            &&& recent == chart::last_of(fresh, ZERO_SAMPLE_COUNT as nat)
        }),
{
    assert(chart::appended(before, fresh, RECENT_COUNT as nat) =~= chart::last_of(
        fresh,
        ZERO_SAMPLE_COUNT as nat,
    ));
}

/// What was pushed since the baseline is known as far as the newest readings go, however many
/// pushes it took: one more reading is one more that is fresh.
pub proof fn fresh_readings_add_up(before: Seq<Point>, fresh: Seq<Point>, reading: Point)
    ensures
        chart::appended(
            chart::appended(before, fresh, RECENT_COUNT as nat),
            seq![reading],
            RECENT_COUNT as nat,
        ) == chart::appended(before, fresh.push(reading), RECENT_COUNT as nat),
{
    chart::appended_twice(before, fresh, seq![reading], RECENT_COUNT as nat);
    assert(fresh + seq![reading] =~= fresh.push(reading));
}

/// Every device that is known and has an offset can be zeroed, and its own offset is what is
/// written.
pub proof fn offset_is_that_of_the_device(
    state: InnerState,
    device: Seq<char>,
    start: ZeroStart,
    told: EffectView,
)
    ensures
        zero_fault(state, device) is None <==> (state.find(device) matches Some(i)
            && state.devices@[i].config.pvs@.contains_key("corrB"@)),
        is_zero_start(state, device, start, told) ==> start.device@ == device && (state.find(
            device,
        ) matches Some(i) && start.pv@ == state.devices@[i].config.pvs@["corrB"@]@),
{
}

/// The count between two counts is the number of readings that came between them, though the counter
/// may have started anew.
pub proof fn counts_are_of_readings(from: u64, came: nat)
    requires
        came <= u64::MAX,
    ensures
        counted(from, ((from + came) % 0x1_0000_0000_0000_0000) as u64) == came,
{
    if from + came > u64::MAX {
        assert((from + came) % 0x1_0000_0000_0000_0000 == from + came - 0x1_0000_0000_0000_0000);
    }
}

/// A zeroing is ready if and only if at least a hundred readings have come since its offset became
/// zero; it fails only if they have not after twenty seconds, and else goes on to wait.
pub proof fn zeroing_waits_for_a_hundred_readings(
    wait: ZeroWait,
    state: InnerState,
    elapsed_ms: u64,
    res: ZeroPoll,
    i: int,
    came: nat,
)
    requires
        is_poll(wait, state, elapsed_ms, res),
        state.find(wait.device@) == Some(i),
        came <= u64::MAX,
        state.devices@[i].buffer.pushed() == (wait.baseline + came) % 0x1_0000_0000_0000_0000,
    ensures
        res is Ready <==> came >= 100,
        res is Failed <==> came < 100 && elapsed_ms > 20000,
        res is Wait <==> came < 100 && elapsed_ms <= 20000,
{
    counts_are_of_readings(wait.baseline, came);
}

}
