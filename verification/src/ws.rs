//! What is sent to the clients, and how fast they may send commands.

use std::collections::VecDeque;

use vstd::prelude::*;

use crate::chart;
use crate::config::DefaultValue;
use crate::consts::MAX_COMMANDS_PER_SEC;
use crate::double::Double;
use crate::messages::{
    ChartSnapshot, ChartView, DeviceDelta, DeviceStatus, DeviceStatusView, Notification,
    NotificationLevel, NotificationView, Point, ServerMessage, ServerMessageView,
};
use crate::state::{DeviceState, InnerState};
use crate::table::Table;
use crate::text;

verus! {

/// The whole buffer of a device.
pub open spec fn snapshot(devices: Seq<DeviceState>, i: int) -> ChartView {
    ChartView {
        device: i as nat,
        points: devices[i].buffer.held(),
        stats: devices[i].buffer.stats(),
        cursor: devices[i].buffer.pushed(),
    }
}

/// The whole buffers of all devices.
pub open spec fn snapshots(devices: Seq<DeviceState>) -> Seq<ChartView> {
    Seq::new(devices.len(), |i: int| snapshot(devices, i))
}

/// The message with the whole buffers of all devices.
pub fn build_chart_snapshot(state: &InnerState) -> (res: ServerMessage)
    requires
        state.wf(),
    ensures
        res@ == (ServerMessageView::ChartData { snapshots: snapshots(state.devices@) }),
{
    let mut out: Vec<ChartSnapshot> = Vec::new();
    let ghost want = snapshots(state.devices@);
    let ghost f = |s: ChartSnapshot| s@;
    let mut i: usize = 0;
    assert(out@.map_values(f) =~= want.take(0));
    while i < state.devices.len()
        invariant
            state.wf(),
            i <= state.devices@.len(),
            want == snapshots(state.devices@),
            f == |s: ChartSnapshot| s@,
            out@.map_values(f) == want.take(i as int),
        decreases state.devices@.len() - i,
    {
        let buffer = &state.devices[i].buffer;
        let ghost before = out@.map_values(f);
        let shot = ChartSnapshot {
            device: i,
            points: buffer.as_points(),
            stats: buffer.statistics(),
            cursor: buffer.total_pushed(),
        };
        let ghost added = shot@;
        out.push(shot);
        assert(out@.map_values(f) =~= before.push(added));
        assert(added =~= want[i as int]);
        assert(out@.map_values(f) =~= want.take(i as int + 1));
        i += 1;
    }
    assert(want.take(i as int) =~= want);
    ServerMessage::ChartData { snapshots: out }
}

/// The defaults at a sensitivity.
pub open spec fn defaults_at(defaults: Map<Seq<char>, DefaultValue>, index: nat) -> Map<
    Seq<char>,
    Double,
> {
    defaults.map_values(|v: DefaultValue| v.value(index))
}

fn current_defaults(defaults: &Table<DefaultValue>, index: usize) -> (res: Table<Double>)
    ensures
        res@ == defaults_at(defaults@, index as nat),
{
    let mut out: Table<Double> = Table::new();
    let ghost names = defaults.keys();
    let mut i: usize = 0;
    proof {
        defaults.keys_are_domain();
    }
    while i < defaults.len()
        invariant
            i <= names.len(),
            names == defaults.keys(),
            forall|k: Seq<char>| defaults@.contains_key(k) <==> #[trigger] names.contains(k),
            forall|k: Seq<char>| #[trigger]
                out@.contains_key(k) ==> defaults@.contains_key(k) && out@[k]
                    == defaults@[k].value(index as nat),
            forall|j: int| 0 <= j < i ==> out@.contains_key(#[trigger] names[j]),
        decreases names.len() - i,
    {
        let key = defaults.key_at(i);
        assert(names.contains(key@));
        if let Some(value) = defaults.get(key) {
            out.insert(key.to_string(), value.for_sensitivity(index));
        }
        i += 1;
    }
    proof {
        let want = defaults_at(defaults@, index as nat);
        assert forall|k: Seq<char>| #[trigger]
            out@.dom().contains(k) <==> want.dom().contains(k) by {
            if defaults@.contains_key(k) {
                assert(names.contains(k));
                let j = choose|j: int| 0 <= j < names.len() && names[j] == k;
                assert(out@.contains_key(names[j]));
            }
            if out@.contains_key(k) {
                assert(defaults@.contains_key(k));
            }
        }
        assert forall|k: Seq<char>| #[trigger] out@.dom().contains(k) implies out@[k]
            == want[k] by {
            assert(out@.contains_key(k));
        }
        assert(out@ =~= want);
    }
    out
}

/// What a client is told of a device when it connects.
pub open spec fn status(device: DeviceState) -> DeviceStatusView {
    DeviceStatusView {
        name: device.name@,
        device_type: device.config.device_type,
        current_sensitivity: device.current_sensitivity as nat,
        sensitivities: device.config.sensitivities@,
        stats: device.buffer.stats(),
        connected: device.connected,
        fe_alive: device.fe_alive,
        last_data_time: device.last_data_time,
        defaults: defaults_at(device.config.defaults@, device.current_sensitivity as nat),
        calibration_mismatch: device.calibration_mismatch,
        peak_misaligned: device.peak_misaligned,
        saturation_charges: device.config.saturation_charges@,
    }
}

fn status_of(device: &DeviceState) -> (res: DeviceStatus)
    requires
        device.buffer.wf(),
    ensures
        res@ == status(*device),
{
    let levels: Vec<u8> = device.config.sensitivities.clone();
    let limits: Vec<Double> = device.config.saturation_charges.clone();
    assert(levels@ =~= device.config.sensitivities@);
    assert(limits@ =~= device.config.saturation_charges@);
    DeviceStatus {
        name: device.name.clone(),
        device_type: device.config.device_type,
        current_sensitivity: device.current_sensitivity,
        sensitivities: levels,
        stats: device.buffer.statistics(),
        connected: device.connected,
        fe_alive: device.fe_alive,
        last_data_time: device.last_data_time,
        defaults: current_defaults(&device.config.defaults, device.current_sensitivity),
        calibration_mismatch: device.calibration_mismatch,
        peak_misaligned: device.peak_misaligned,
        saturation_charges: limits,
    }
}

/// The first message to a client.
pub open spec fn init_message(state: InnerState) -> ServerMessageView {
    ServerMessageView::Init {
        devices: state.devices@.map_values(|d: DeviceState| status(d)),
        buffer_size: state.buffer_size as nat,
        device_order: text::texts(state.device_order@),
        reset_progress: state.reset_progress,
        auto_gain: state.auto_gain,
    }
}

/// The message with the state of the server.
pub fn build_init_message(state: &InnerState) -> (res: ServerMessage)
    requires
        state.wf(),
    ensures
        res@ == init_message(*state),
{
    let mut out: Vec<DeviceStatus> = Vec::new();
    let ghost want = state.devices@.map_values(|d: DeviceState| status(d));
    let ghost f = |d: DeviceStatus| d@;
    let mut i: usize = 0;
    assert(out@.map_values(f) =~= want.take(0));
    while i < state.devices.len()
        invariant
            state.wf(),
            i <= state.devices@.len(),
            want == state.devices@.map_values(|d: DeviceState| status(d)),
            f == |d: DeviceStatus| d@,
            out@.map_values(f) == want.take(i as int),
        decreases state.devices@.len() - i,
    {
        let ghost before = out@.map_values(f);
        let one = status_of(&state.devices[i]);
        let ghost added = one@;
        out.push(one);
        assert(out@.map_values(f) =~= before.push(added));
        assert(out@.map_values(f) =~= want.take(i as int + 1));
        i += 1;
    }
    assert(want.take(i as int) =~= want);
    ServerMessage::Init {
        devices: out,
        buffer_size: state.buffer_size,
        device_order: text::copy_texts(&state.device_order),
        reset_progress: state.reset_progress,
        auto_gain: state.auto_gain,
    }
}

/// A notification at a time.
pub fn notification(
    level: NotificationLevel,
    message: String,
    device: Option<String>,
    timestamp: Double,
) -> (res: ServerMessage)
    ensures
        res@ == ServerMessageView::Notify(
            NotificationView {
                level,
                message: message@,
                device: text::opt_text(device),
                timestamp,
            },
        ),
{
    ServerMessage::Notify(Notification { level, message, device, timestamp })
}

/// The messages to a client that has just connected: the state, and then the buffers.
pub fn greeting(state: &InnerState) -> (res: (ServerMessage, ServerMessage))
    requires
        state.wf(),
    ensures
        res.0@ == init_message(*state),
        res.1@ == (ServerMessageView::ChartData { snapshots: snapshots(state.devices@) }),
{
    (build_init_message(state), build_chart_snapshot(state))
}

/// How many readings a count has grown by; none if it went back.
pub open spec fn growth(from: u64, to: u64) -> nat {
    if to >= from {
        (to - from) as nat
    } else {
        0
    }
}

/// The readings of a device since a count.
pub open spec fn delta(devices: Seq<DeviceState>, i: int, from: u64) -> ChartView {
    ChartView {
        device: i as nat,
        points: chart::last_of(
            devices[i].buffer.held(),
            growth(from, devices[i].buffer.pushed()),
        ),
        stats: devices[i].buffer.stats(),
        cursor: devices[i].buffer.pushed(),
    }
}

/// The readings of the first `n` devices since their counts were `from`, where there are any.
pub open spec fn deltas(devices: Seq<DeviceState>, from: Seq<u64>, n: int) -> Seq<ChartView>
    decreases n,
{
    if n <= 0 {
        Seq::empty()
    } else {
        let rest = deltas(devices, from, n - 1);
        if devices[n - 1].buffer.pushed() == from[n - 1] {
            rest
        } else {
            rest.push(delta(devices, n - 1, from[n - 1]))
        }
    }
}

/// The counts of readings of the devices.
pub open spec fn cursors(devices: Seq<DeviceState>) -> Seq<u64> {
    devices.map_values(|d: DeviceState| d.buffer.pushed())
}

/// Tells the clients of new readings.
#[derive(Clone, Debug)]
pub struct ChartBroadcaster {
    prev: Vec<u64>,
}

impl ChartBroadcaster {
    /// The counts of readings that the clients have been told of.
    pub closed spec fn told(self) -> Seq<u64> {
        self.prev@
    }

    /// The counts from which to go on, for `n` devices.
    pub open spec fn start(self, n: nat) -> Seq<u64> {
        if self.told().len() == n {
            self.told()
        } else {
            Seq::new(n, |i: int| 0u64)
        }
    }

    pub fn new() -> (res: ChartBroadcaster)
        ensures
            res.told() == Seq::<u64>::empty(),
    {
        ChartBroadcaster { prev: Vec::new() }
    }

    /// The message about the readings since the last one, if there are clients and anything to
    /// tell. Without clients the counts go on, since a client that connects is sent the whole
    /// buffers.
    pub fn tick(&mut self, state: &InnerState, have_receivers: bool) -> (res: Option<ServerMessage>)
        requires
            state.wf(),
        ensures
            final(self).told() == cursors(state.devices@),
            ({
                let n = state.devices@.len();
                let updates = deltas(state.devices@, old(self).start(n), n as int);
                match res {
                    Some(msg) => have_receivers && updates.len() > 0 && msg@ == (
                    ServerMessageView::ChartDelta { updates }),
                    None => !have_receivers || updates.len() == 0,
                }
            }),
    {
        let n: usize = state.devices.len();
        let ghost from = self.start(n as nat);
        if self.prev.len() != n {
            let mut zeros: Vec<u64> = Vec::new();
            let mut k: usize = 0;
            while k < n
                invariant
                    k <= n,
                    zeros@.len() == k,
                    forall|j: int| 0 <= j < k ==> #[trigger] zeros@[j] == 0,
                decreases n - k,
            {
                zeros.push(0);
                k += 1;
            }
            self.prev = zeros;
        }
        assert(self.prev@ =~= from);
        let mut out: Vec<DeviceDelta> = Vec::new();
        let ghost f = |u: DeviceDelta| u@;
        let ghost devices = state.devices@;
        let mut i: usize = 0;
        assert(out@.map_values(f) =~= Seq::<ChartView>::empty());
        while i < n
            invariant
                i <= n,
                n == devices.len(),
                devices == state.devices@,
                state.wf(),
                from.len() == n,
                self.prev@.len() == n,
                f == |u: DeviceDelta| u@,
                have_receivers ==> out@.map_values(f) == deltas(devices, from, i as int),
                !have_receivers ==> out@.len() == 0,
                forall|j: int| 0 <= j < i ==> #[trigger] self.prev@[j] == devices[j].buffer.pushed(),
                forall|j: int| i <= j < n ==> #[trigger] self.prev@[j] == from[j],
            decreases n - i,
        {
            let buffer = &state.devices[i].buffer;
            let current: u64 = buffer.total_pushed();
            let known: u64 = self.prev[i];
            assert(known == from[i as int]);
            if current != known {
                if have_receivers {
                    let count: u64 = current.saturating_sub(known);
                    let fresh: usize = if count < buffer.len() as u64 {
                        count as usize
                    } else {
                        buffer.len()
                    };
                    let update = DeviceDelta {
                        device: i,
                        new_points: buffer.last_points(fresh),
                        stats: buffer.statistics(),
                        cursor: current,
                    };
                    let ghost before = out@.map_values(f);
                    let ghost added = update@;
                    proof {
                        assert(added =~= delta(devices, i as int, known));
                    }
                    out.push(update);
                    assert(out@.map_values(f) =~= before.push(added));
                }
                self.prev.set(i, current);
            }
            i += 1;
        }
        assert(self.prev@ =~= cursors(devices));
        if have_receivers && out.len() > 0 {
            let ghost updates = out@.map_values(f);
            let msg = ServerMessage::ChartDelta { updates: out };
            assert(msg@ == (ServerMessageView::ChartDelta { updates }));
            Some(msg)
        } else {
            assert(have_receivers ==> deltas(devices, from, n as int).len() == out@.len());
            None
        }
    }
}

/// A client that is told of every tick stays in step with the server: if it holds what the
/// server's buffer held at its cursor, which is not before the last tick, and `fresh` was pushed
/// since, the delta of this tick makes it hold what the buffer holds now.
pub proof fn tick_keeps_clients_in_step(
    devices: Seq<DeviceState>,
    i: int,
    from: u64,
    held: Seq<Point>,
    applied: u64,
    fresh: Seq<Point>,
)
    requires
        0 <= i < devices.len(),
        from <= applied,
        held.len() <= applied,
        held.len() <= devices[i].buffer.cap(),
        devices[i].buffer.cap() > 0,
        fresh.len() > 0,
        devices[i].buffer.held() == chart::appended(held, fresh, devices[i].buffer.cap()),
        devices[i].buffer.pushed() == applied + fresh.len(),
    ensures
        ({
            let sent = delta(devices, i, from);
            chart::after_delta(held, applied, sent.points, sent.cursor, devices[i].buffer.cap())
                == devices[i].buffer.held()
        }),
{
    chart::delta_keeps_in_sync(
        held,
        applied,
        fresh,
        growth(from, devices[i].buffer.pushed()),
        devices[i].buffer.cap(),
    );
}

/// A second, in nanoseconds.
pub const SECOND_NS: u64 = 1000000000;

/// Those of the times that are less than a second before `now`.
pub open spec fn recent(times: Seq<u64>, now: u64) -> Seq<u64>
    decreases times.len(),
{
    if times.len() == 0 {
        times
    } else {
        let rest = recent(times.drop_last(), now);
        if now < times.last() + SECOND_NS {
            rest.push(times.last())
        } else {
            rest
        }
    }
}

/// Whether a command that comes at `now` is admitted after those at `times`.
pub open spec fn admits(times: Seq<u64>, now: u64) -> bool {
    recent(times, now).len() < MAX_COMMANDS_PER_SEC
}

/// Admits so many commands of a client in any second.
#[derive(Clone, Debug)]
pub struct RateLimiter {
    times: VecDeque<u64>,
}

impl View for RateLimiter {
    type V = Seq<u64>;

    /// When the commands were admitted that may still count.
    closed spec fn view(&self) -> Seq<u64> {
        self.times@
    }
}

impl RateLimiter {
    pub fn new() -> (res: RateLimiter)
        ensures
            res@ == Seq::<u64>::empty(),
    {
        RateLimiter { times: VecDeque::new() }
    }

    /// Whether a command that comes at `now` is admitted. Times are in nanoseconds.
    pub fn allow(&mut self, now: u64) -> (res: bool)
        ensures
            res == admits(old(self)@, now),
            final(self)@ == (if res {
                recent(old(self)@, now).push(now)
            } else {
                recent(old(self)@, now)
            }),
    {
        let mut kept: VecDeque<u64> = VecDeque::new();
        let mut i: usize = 0;
        assert(kept@ =~= recent(self.times@.take(0), now));
        while i < self.times.len()
            invariant
                i <= self.times@.len(),
                self.times == old(self).times,
                kept@ == recent(self.times@.take(i as int), now),
            decreases self.times@.len() - i,
        {
            let t: u64 = self.times[i];
            assert(self.times@.take(i as int + 1).drop_last() =~= self.times@.take(i as int));
            if t > now || now - t < SECOND_NS {
                kept.push_back(t);
            }
            i += 1;
        }
        assert(self.times@.take(i as int) =~= self.times@);
        self.times = kept;
        if self.times.len() >= MAX_COMMANDS_PER_SEC {
            return false;
        }
        self.times.push_back(now);
        true
    }
}

/// What holds of a limiter that has admitted commands at the times `admitted`, the last one that
/// came not after `last`: it remembers those that may still count, and no second saw more than
/// the limit.
pub open spec fn is_limited(admitted: Seq<u64>, times: Seq<u64>, last: u64) -> bool {
    let n = admitted.len();
    &&& times.len() <= n
    &&& times == admitted.skip(n - times.len())
    &&& forall|i: int| 0 <= i < n ==> #[trigger] admitted[i] <= last
    &&& forall|i: int, j: int| 0 <= i <= j < n ==> #[trigger] admitted[i] <= #[trigger] admitted[j]
    &&& forall|i: int| 0 <= i < n - times.len() ==> #[trigger] admitted[i] + SECOND_NS <= last
    &&& forall|i: int, j: int|
        0 <= i && j == i + MAX_COMMANDS_PER_SEC && j < n ==> #[trigger] admitted[i] + SECOND_NS
            <= #[trigger] admitted[j]
}

proof fn lemma_recent(times: Seq<u64>, now: u64)
    requires
        forall|i: int, j: int| 0 <= i <= j < times.len() ==> #[trigger] times[i] <= #[trigger] times[j],
    ensures
        recent(times, now).len() <= times.len(),
        recent(times, now) == times.skip(times.len() - recent(times, now).len()),
        forall|i: int|
            0 <= i < times.len() - recent(times, now).len() ==> #[trigger] times[i] + SECOND_NS
                <= now,
    decreases times.len(),
{
    if times.len() > 0 {
        let front = times.drop_last();
        lemma_recent(front, now);
        let kept = recent(front, now);
        if now < times.last() + SECOND_NS {
            assert(recent(times, now) =~= times.skip(times.len() - recent(times, now).len()));
            assert forall|i: int|
                0 <= i < times.len() - recent(times, now).len() implies #[trigger] times[i]
                + SECOND_NS <= now by {
                assert(front[i] == times[i]);
            }
        } else {
            if kept.len() > 0 {
                let k = front.len() - kept.len();
                assert(kept[0] == front[k]);
                lemma_recent_counts(front, now, 0);
                assert(times[k] <= times.last());
            }
            assert(times.skip(times.len() as int) =~= Seq::<u64>::empty());
            assert forall|i: int| 0 <= i < times.len() implies #[trigger] times[i] + SECOND_NS
                <= now by {
                assert(times[i] <= times[times.len() - 1]);
            }
        }
    } else {
        assert(times.skip(0) =~= times);
    }
}

proof fn lemma_recent_counts(times: Seq<u64>, now: u64, i: int)
    requires
        0 <= i < recent(times, now).len(),
    ensures
        now < recent(times, now)[i] + SECOND_NS,
    decreases times.len(),
{
    if times.len() > 0 {
        let rest = recent(times.drop_last(), now);
        if i < rest.len() {
            lemma_recent_counts(times.drop_last(), now, i);
        }
    }
}

/// A limiter that has admitted nothing.
pub proof fn new_limiter_is_limited(last: u64)
    ensures
        is_limited(Seq::empty(), Seq::empty(), last),
{
    assert(Seq::<u64>::empty().skip(0) =~= Seq::<u64>::empty());
}

/// However many commands come, a client is never admitted more than the limit in a second: of
/// any eleven that are admitted in a row, the last comes at least a second after the first.
pub proof fn limiter_stays_limited(admitted: Seq<u64>, times: Seq<u64>, last: u64, now: u64)
    requires
        is_limited(admitted, times, last),
        last <= now,
    ensures
        recent(times, now).len() < MAX_COMMANDS_PER_SEC ==> is_limited(
            admitted.push(now),
            recent(times, now).push(now),
            now,
        ),
        recent(times, now).len() >= MAX_COMMANDS_PER_SEC ==> is_limited(
            admitted,
            recent(times, now),
            now,
        ),
{
    let n = admitted.len();
    let old_from = n - times.len();
    assert forall|i: int, j: int| 0 <= i <= j < times.len() implies #[trigger] times[i]
        <= #[trigger] times[j] by {
        assert(times[i] == admitted[old_from + i]);
        assert(times[j] == admitted[old_from + j]);
    }
    lemma_recent(times, now);
    let kept = recent(times, now);
    let from = n - kept.len();
    assert(kept =~= admitted.skip(from));
    assert forall|i: int| 0 <= i < from implies #[trigger] admitted[i] + SECOND_NS <= now by {
        if i >= old_from {
            assert(times[i - old_from] == admitted[i]);
        }
    }
    if kept.len() < MAX_COMMANDS_PER_SEC {
        let more = admitted.push(now);
        assert(kept.push(now) =~= more.skip(from));
        assert forall|i: int, j: int|
            0 <= i && j == i + MAX_COMMANDS_PER_SEC && j < more.len() implies #[trigger] more[i]
            + SECOND_NS <= #[trigger] more[j] by {
            if j < n {
                assert(more[i] == admitted[i] && more[j] == admitted[j]);
            } else {
                assert(i < from);
                assert(more[i] == admitted[i]);
            }
        }
    }
}

/// A command is admitted if and only if fewer than ten of those that are remembered came less than
/// a second before it. What is remembered afterwards are those, in their order.
pub proof fn ten_commands_are_admitted_in_a_second(times: Seq<u64>, now: u64)
    ensures
        admits(times, now) <==> times.filter(|t: u64| now < t + 1_000_000_000).len() < 10,
        recent(times, now) == times.filter(|t: u64| now < t + 1_000_000_000),
    decreases times.len(),
{
    reveal(Seq::filter);
    if times.len() > 0 {
        ten_commands_are_admitted_in_a_second(times.drop_last(), now);
    }
}

/// A tick tells of every device that has new readings, once: as many of its newest readings as came
/// since, as far as its buffer still holds them, in their order, with the count up to the last of
/// them. Of a device without new readings it tells nothing.
pub proof fn ticks_tell_what_is_new(devices: Seq<DeviceState>, from: Seq<u64>, n: int, i: int)
    requires
        0 <= i < n <= devices.len(),
        from.len() == devices.len(),
        from[i] <= devices[i].buffer.pushed(),
    ensures
        devices[i].buffer.pushed() == from[i] ==> forall|k: int|
            0 <= k < deltas(devices, from, n).len() ==> (
            #[trigger] deltas(devices, from, n)[k]).device != i,
        devices[i].buffer.pushed() > from[i] ==> exists|k: int|
            #![trigger deltas(devices, from, n)[k]]
            {
                let sent = deltas(devices, from, n)[k];
                let held = devices[i].buffer.held();
                let fresh = devices[i].buffer.pushed() - from[i];
                &&& 0 <= k < deltas(devices, from, n).len()
                &&& sent.device == i
                &&& sent.cursor == devices[i].buffer.pushed()
                &&& sent.stats == devices[i].buffer.stats()
                &&& sent.points.len() == vstd::math::min(fresh, held.len() as int)
                &&& forall|m: int|
                    0 <= m < sent.points.len() ==> #[trigger] sent.points[m] == held[held.len()
                        - sent.points.len() + m]
            },
    decreases n,
{
    let rest = deltas(devices, from, n - 1);
    let all = deltas(devices, from, n);
    lemma_delta_devices(devices, from, n - 1);
    assert forall|k: int| 0 <= k < rest.len() implies all[k] == #[trigger] rest[k] by {}
    if i < n - 1 {
        ticks_tell_what_is_new(devices, from, n - 1, i);
        if devices[i].buffer.pushed() > from[i] {
            let k = choose|k: int|
                #![trigger deltas(devices, from, n - 1)[k]]
                {
                    let sent = deltas(devices, from, n - 1)[k];
                    let held = devices[i].buffer.held();
                    let fresh = devices[i].buffer.pushed() - from[i];
                    &&& 0 <= k < deltas(devices, from, n - 1).len()
                    &&& sent.device == i
                    &&& sent.cursor == devices[i].buffer.pushed()
                    &&& sent.stats == devices[i].buffer.stats()
                    &&& sent.points.len() == vstd::math::min(fresh, held.len() as int)
                    &&& forall|m: int|
                        0 <= m < sent.points.len() ==> #[trigger] sent.points[m] == held[held.len()
                            - sent.points.len() + m]
                };
            assert(all[k] == rest[k]);
        } else {
            assert forall|k: int| 0 <= k < all.len() implies (#[trigger] all[k]).device != i by {
                if k < rest.len() {
                    assert(all[k] == rest[k]);
                }
            }
        }
    } else {
        if devices[i].buffer.pushed() > from[i] {
            let sent = all[rest.len() as int];
            assert(sent == delta(devices, i, from[i]));
        } else {
            assert forall|k: int| 0 <= k < all.len() implies (#[trigger] all[k]).device != i by {
                assert(all[k] == rest[k]);
            }
        }
    }
}

proof fn lemma_delta_devices(devices: Seq<DeviceState>, from: Seq<u64>, n: int)
    ensures
        forall|k: int|
            0 <= k < deltas(devices, from, n).len() ==> 0 <= (
            #[trigger] deltas(devices, from, n)[k]).device < n,
    decreases n,
{
    if n > 0 {
        let rest = deltas(devices, from, n - 1);
        lemma_delta_devices(devices, from, n - 1);
        assert forall|k: int| 0 <= k < deltas(devices, from, n).len() implies 0 <= (
        #[trigger] deltas(devices, from, n)[k]).device < n by {
            if k < rest.len() {
                assert(deltas(devices, from, n)[k] == rest[k]);
            }
        }
    }
}

/// Readings are told once: a broadcaster that has told of the readings of some devices goes on behind
/// them, and one that has told of nothing yet begins with the first reading of every device.
pub proof fn readings_are_told_once(
    broadcaster: ChartBroadcaster,
    devices: Seq<DeviceState>,
    i: int,
)
    requires
        0 <= i < devices.len(),
    ensures
        broadcaster.told() == cursors(devices) ==> broadcaster.start(devices.len())[i]
            == devices[i].buffer.pushed(),
        broadcaster.told().len() == 0 ==> broadcaster.start(devices.len())[i] == 0,
{
}

}
