//! Clients stay in step with the server.

use vstd::prelude::*;

use crate::buffer;
use crate::chart;
use crate::client;
use crate::client::{ClientView, DeviceChartView};
use crate::commands;
use crate::double::Double;
use crate::lineup;
use crate::messages::{Point, ServerMessageView};
use crate::state::{DeviceState, InnerState};
use crate::text;
use crate::ws;

verus! {

/// Whether a chart holds what a device's buffer holds.
pub open spec fn is_in_step(chart: DeviceChartView, device: DeviceState) -> bool {
    &&& chart.held == device.buffer.held()
    &&& chart.applied == device.buffer.pushed()
    &&& chart.stats == device.buffer.stats()
}

/// Whether a chart held what a device's buffer held before `fresh` was pushed.
pub open spec fn is_behind_by(
    chart: DeviceChartView,
    device: DeviceState,
    fresh: Seq<Point>,
) -> bool {
    &&& device.buffer.pushed() == chart.applied + fresh.len()
    &&& device.buffer.held() == chart::appended(chart.held, fresh, device.buffer.cap())
    &&& fresh.len() == 0 ==> chart.stats == device.buffer.stats()
}

/// Whether a chart can catch up by what is told of a device's readings after the first `from`:
/// it is behind, but no further than that.
pub open spec fn can_catch_up(chart: DeviceChartView, device: DeviceState, from: u64) -> bool {
    &&& from <= chart.applied
    &&& chart.held.len() <= chart.applied
    &&& chart.held.len() <= device.buffer.cap()
    &&& device.buffer.cap() > 0
    &&& exists|fresh: Seq<Point>| #[trigger] is_behind_by(chart, device, fresh)
}

/// A reading leaves a chart that can catch up behind, but still able to: it is only one more
/// reading that the chart does not have.
pub proof fn reading_leaves_chart_behind(
    chart: DeviceChartView,
    was: DeviceState,
    now: DeviceState,
    from: u64,
    reading: Point,
)
    requires
        can_catch_up(chart, was, from),
        was.buffer.pushed() < u64::MAX,
        now.buffer.cap() == was.buffer.cap(),
        now.buffer.pushed() == was.buffer.pushed() + 1,
        now.buffer.held() == chart::appended(
            was.buffer.held(),
            seq![reading],
            was.buffer.cap(),
        ),
    ensures
        can_catch_up(chart, now, from),
{
    let fresh = choose|fresh: Seq<Point>| is_behind_by(chart, was, fresh);
    chart::appended_twice(chart.held, fresh, seq![reading], was.buffer.cap());
    assert(is_behind_by(chart, now, fresh + seq![reading]));
}

/// A chart that is in step can catch up with what comes.
pub proof fn chart_in_step_can_catch_up(chart: DeviceChartView, device: DeviceState, from: u64)
    requires
        is_in_step(chart, device),
        from <= chart.applied,
        device.buffer.is_counted(),
        device.buffer.cap() > 0,
    ensures
        can_catch_up(chart, device, from),
{
    let none = Seq::<Point>::empty();
    assert(chart::appended(chart.held, none, device.buffer.cap()) =~= chart.held);
    assert(is_behind_by(chart, device, none));
}

proof fn lemma_catches_up(
    devices: Seq<DeviceState>,
    from: Seq<u64>,
    charts: Seq<DeviceChartView>,
    cap: nat,
    n: int,
)
    requires
        0 <= n <= devices.len(),
        devices.len() == charts.len(),
        devices.len() == from.len(),
        forall|i: int| 0 <= i < devices.len() ==> (#[trigger] devices[i]).buffer.cap() == cap,
        forall|i: int|
            0 <= i < devices.len() ==> can_catch_up(#[trigger] charts[i], devices[i], from[i]),
    ensures
        ({
            let now = client::with_deltas(charts, ws::deltas(devices, from, n), cap);
            &&& now.len() == charts.len()
            &&& forall|i: int| n <= i < now.len() ==> #[trigger] now[i] == charts[i]
            &&& forall|i: int| 0 <= i < n ==> is_in_step(#[trigger] now[i], devices[i])
        }),
    decreases n,
{
    if n > 0 {
        let last = n - 1;
        lemma_catches_up(devices, from, charts, cap, last);
        let rest = ws::deltas(devices, from, last);
        let before = client::with_deltas(charts, rest, cap);
        let device = devices[last];
        let chart = charts[last];
        assert(before[last] == chart);
        assert(can_catch_up(chart, device, from[last]));
        let fresh = choose|fresh: Seq<Point>| is_behind_by(chart, device, fresh);
        if fresh.len() == 0 {
            assert(chart::appended(chart.held, fresh, cap) =~= chart.held);
        }
        if device.buffer.pushed() == from[last] {
            assert(fresh.len() == 0);
        } else {
            let sent = ws::delta(devices, last, from[last]);
            assert(rest.push(sent).drop_last() =~= rest);
            if fresh.len() > 0 {
                ws::tick_keeps_clients_in_step(
                    devices,
                    last,
                    from[last],
                    chart.held,
                    chart.applied,
                    fresh,
                );
            }
            let now = client::with_deltas(charts, rest.push(sent), cap);
            assert(now == before.update(last, before[last].with_delta(sent, cap)));
        }
    }
}

/// A client that was in step with the server at some time since the last tick is in step again
/// after the next one, whatever was pushed in between, and however it overlaps with what the
/// client already has.
pub proof fn tick_brings_charts_in_step(
    devices: Seq<DeviceState>,
    from: Seq<u64>,
    charts: Seq<DeviceChartView>,
    cap: nat,
)
    requires
        devices.len() == charts.len(),
        devices.len() == from.len(),
        forall|i: int| 0 <= i < devices.len() ==> (#[trigger] devices[i]).buffer.cap() == cap,
        forall|i: int|
            0 <= i < devices.len() ==> can_catch_up(#[trigger] charts[i], devices[i], from[i]),
    ensures
        ({
            let updates = ws::deltas(devices, from, devices.len() as int);
            let now = client::with_deltas(charts, updates, cap);
            now.len() == devices.len() && forall|i: int|
                0 <= i < now.len() ==> is_in_step(#[trigger] now[i], devices[i])
        }),
{
    lemma_catches_up(devices, from, charts, cap, devices.len() as int);
}

/// A client that is in step with the server stays so from tick to tick, whatever is pushed in
/// between: the buffers of `was` are what it holds, and those of `now` have got the `fresh`
/// readings since. It may have been sent a part of them already.
pub proof fn ticks_keep_charts_in_step(
    was: Seq<DeviceState>,
    now: Seq<DeviceState>,
    fresh: Seq<Seq<Point>>,
    from: Seq<u64>,
    charts: Seq<DeviceChartView>,
    cap: nat,
)
    requires
        cap > 0,
        was.len() == charts.len(),
        now.len() == charts.len(),
        fresh.len() == charts.len(),
        from.len() == charts.len(),
        forall|i: int|
            0 <= i < charts.len() ==> {
                &&& is_in_step(#[trigger] charts[i], was[i])
                &&& was[i].buffer.is_counted()
                &&& was[i].buffer.cap() == cap
                &&& from[i] <= was[i].buffer.pushed()
                &&& buffer::is_extended(was[i].buffer, now[i].buffer, fresh[i])
                &&& fresh[i].len() == 0 ==> now[i].buffer.stats() == was[i].buffer.stats()
            },
    ensures
        ({
            let updates = ws::deltas(now, from, now.len() as int);
            let after = client::with_deltas(charts, updates, cap);
            after.len() == now.len() && forall|i: int|
                0 <= i < after.len() ==> is_in_step(#[trigger] after[i], now[i])
        }),
{
    assert forall|i: int| 0 <= i < now.len() implies can_catch_up(
        #[trigger] charts[i],
        now[i],
        from[i],
    ) by {
        assert(is_behind_by(charts[i], now[i], fresh[i]));
    }
    assert forall|i: int| 0 <= i < now.len() implies (#[trigger] now[i]).buffer.cap() == cap by {
        assert(is_in_step(charts[i], was[i]));
    }
    tick_brings_charts_in_step(now, from, charts, cap);
}

proof fn lemma_snapshots(
    devices: Seq<DeviceState>,
    charts: Seq<DeviceChartView>,
    cap: nat,
    n: int,
)
    requires
        0 <= n <= devices.len(),
        devices.len() == charts.len(),
        forall|i: int|
            0 <= i < devices.len() ==> (#[trigger] devices[i]).buffer.held().len() <= cap,
    ensures
        ({
            let now = client::with_snapshots(charts, ws::snapshots(devices).take(n), cap);
            &&& now.len() == charts.len()
            &&& forall|i: int| 0 <= i < n ==> is_in_step(#[trigger] now[i], devices[i])
        }),
    decreases n,
{
    let all = ws::snapshots(devices);
    if n > 0 {
        lemma_snapshots(devices, charts, cap, n - 1);
        assert(all.take(n).drop_last() =~= all.take(n - 1));
        assert(all.take(n).last() == ws::snapshot(devices, n - 1));
        let before = client::with_snapshots(charts, all.take(n - 1), cap);
        let now = client::with_snapshots(charts, all.take(n), cap);
        assert(devices[n - 1].buffer.held().len() <= cap);
        assert(now == before.update(
            n - 1,
            before[n - 1].with_snapshot(ws::snapshot(devices, n - 1), cap),
        ));
    }
}

/// Whatever a client holds, the whole buffers bring it in step with the server.
pub proof fn snapshots_bring_charts_in_step(
    devices: Seq<DeviceState>,
    charts: Seq<DeviceChartView>,
    cap: nat,
)
    requires
        devices.len() == charts.len(),
        forall|i: int|
            0 <= i < devices.len() ==> (#[trigger] devices[i]).buffer.held().len() <= cap,
    ensures
        ({
            let now = client::with_snapshots(charts, ws::snapshots(devices), cap);
            now.len() == devices.len() && forall|i: int|
                0 <= i < now.len() ==> is_in_step(#[trigger] now[i], devices[i])
        }),
{
    lemma_snapshots(devices, charts, cap, devices.len() as int);
    assert(ws::snapshots(devices).take(devices.len() as int) =~= ws::snapshots(devices));
}

/// A client that was greeted knows the state of the server: the same of every device, the same
/// settings, and the same readings in every chart.
pub proof fn greeted_client_knows_the_state(client: ClientView, state: InnerState, i: int)
    requires
        0 <= i < state.devices@.len(),
        forall|k: int|
            0 <= k < state.devices@.len() ==> (#[trigger] state.devices@[k]).buffer.held().len()
                <= state.buffer_size,
    ensures
        ({
            let known = client.after(ws::init_message(state)).after(
                ServerMessageView::ChartData { snapshots: ws::snapshots(state.devices@) },
            );
            let device = state.devices@[i];
            let status = known.devices[i];
            &&& known.devices.len() == state.devices@.len()
            &&& known.charts.len() == state.devices@.len()
            &&& known.charts[i].held == device.buffer.held()
            &&& known.charts[i].applied == device.buffer.pushed()
            &&& known.buffer_size == state.buffer_size
            &&& known.auto_gain == state.auto_gain
            &&& client.device_order.len() == 0 ==> known.device_order == text::texts(
                state.device_order@,
            )
            &&& known.reset_progress == state.reset_progress
            &&& status.name == device.name@
            &&& status.device_type == device.config.device_type
            &&& status.current_sensitivity == device.current_sensitivity
            &&& status.sensitivities == device.config.sensitivities@
            &&& status.saturation_charges == device.config.saturation_charges@
            &&& status.stats == device.buffer.stats()
            &&& known.charts[i].stats == device.buffer.stats()
            &&& status.connected == device.connected
            &&& status.fe_alive == device.fe_alive
            &&& status.last_data_time == device.last_data_time
            &&& status.calibration_mismatch == device.calibration_mismatch
            &&& status.peak_misaligned == device.peak_misaligned
        }),
{
    let first = client.after(ws::init_message(state));
    snapshots_bring_charts_in_step(state.devices@, first.charts, state.buffer_size as nat);
    let now = client::with_snapshots(
        first.charts,
        ws::snapshots(state.devices@),
        state.buffer_size as nat,
    );
    assert(is_in_step(now[i], state.devices@[i]));
    if client.device_order.len() == 0 {
        assert(client.device_order =~= Seq::<Seq<char>>::empty());
        lineup::nothing_remembered_is_the_given_order(text::texts(state.device_order@));
    }
}

/// The defaults that a client shows are those at the current sensitivity of the device.
pub proof fn shown_defaults_are_those_at_the_sensitivity(
    device: DeviceState,
    key: Seq<char>,
    value: Double,
)
    requires
        device.config.defaults@.contains_key(key),
        commands::holds_at(
            device.config.defaults@[key],
            device.current_sensitivity as nat,
            value,
        ),
    ensures
        ws::status(device).defaults.contains_key(key),
        ws::status(device).defaults[key] == value,
{
}

}
