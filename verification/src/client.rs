//! What a client knows and shows.

use vstd::prelude::*;

use crate::auto_gain;
use crate::chart;
use crate::chart::PointBuffer;
use crate::consts::DEFAULT_BUFFER_SIZE;
use crate::double::Double;
use crate::lineup;
use crate::messages::{
    ChartSnapshot, ChartView, ClientMessage, ClientMessageView, DeviceDelta, DeviceStatus,
    DeviceStatusView, DeviceType, Point, ServerMessage, ServerMessageView, Stats,
};
use crate::notices;
use crate::notices::{NoticeLog, NoticeView};
use crate::state;
use crate::text;

verus! {

/// The chart of a device.
#[derive(Clone, Debug)]
pub struct DeviceChart {
    pub name: String,
    pub buffer: PointBuffer,
    pub stats: Stats,
}

#[verifier::ext_equal]
pub struct DeviceChartView {
    pub name: Seq<char>,
    pub held: Seq<Point>,
    pub applied: u64,
    pub stats: Stats,
}

impl View for DeviceChart {
    type V = DeviceChartView;

    open spec fn view(&self) -> DeviceChartView {
        DeviceChartView {
            name: self.name@,
            held: self.buffer.held(),
            applied: self.buffer.applied(),
            stats: self.stats,
        }
    }
}

impl DeviceChartView {
    /// An empty chart.
    pub open spec fn empty(name: Seq<char>) -> DeviceChartView {
        DeviceChartView {
            name,
            held: Seq::empty(),
            applied: 0,
            stats: crate::messages::no_stats(),
        }
    }

    /// The chart after a snapshot.
    pub open spec fn with_snapshot(self, s: ChartView, cap: nat) -> DeviceChartView {
        DeviceChartView {
            name: self.name,
            held: chart::last_of(s.points, cap),
            applied: s.cursor,
            stats: s.stats,
        }
    }

    /// The chart after a delta. One that brings nothing new changes nothing.
    pub open spec fn with_delta(self, d: ChartView, cap: nat) -> DeviceChartView {
        if d.cursor <= self.applied {
            self
        } else {
            DeviceChartView {
                name: self.name,
                held: chart::after_delta(self.held, self.applied, d.points, d.cursor, cap),
                applied: d.cursor,
                stats: d.stats,
            }
        }
    }

    /// The chart with another capacity.
    pub open spec fn with_capacity(self, cap: nat) -> DeviceChartView {
        DeviceChartView { held: chart::last_of(self.held, cap), ..self }
    }
}

impl DeviceChart {
    pub fn new(name: String) -> (res: DeviceChart)
        ensures
            res@ == DeviceChartView::empty(name@),
    {
        DeviceChart { name, buffer: PointBuffer::new(), stats: Stats::default() }
    }

    pub fn set_snapshot(&mut self, points: Vec<Point>, stats: Stats, cursor: u64, cap: usize)
        ensures
            final(self)@ == old(self)@.with_snapshot(
                (ChartView { device: 0, points: points@, stats, cursor }),
                cap as nat,
            ),
    {
        self.buffer.set_snapshot(points, cursor, cap);
        self.stats = stats;
    }

    /// Takes a delta. One that brings nothing new brings no newer statistics either.
    pub fn apply_delta(&mut self, new_points: Vec<Point>, stats: Stats, cursor: u64, cap: usize)
        ensures
            final(self)@ == old(self)@.with_delta(
                (ChartView { device: 0, points: new_points@, stats, cursor }),
                cap as nat,
            ),
    {
        if cursor <= self.buffer.cursor() {
            return ;
        }
        self.buffer.apply_delta(new_points, cursor, cap);
        self.stats = stats;
    }

    pub fn set_capacity(&mut self, cap: usize)
        ensures
            final(self)@ == old(self)@.with_capacity(cap as nat),
    {
        self.buffer.set_capacity(cap);
    }
}

/// Which devices are shown.
#[derive(Clone, Debug)]
pub struct DisplayFilter {
    pub show_wcm: bool,
    pub show_dq: bool,
    pub show_fcup: bool,
    pub show_ict: bool,
    pub hidden_devices: Vec<String>,
}

impl Default for DisplayFilter {
    /// Everything is shown.
    fn default() -> (res: DisplayFilter)
        ensures
            res.show_wcm && res.show_dq && res.show_fcup && res.show_ict,
            res.hidden_devices@.len() == 0,
    {
        DisplayFilter {
            show_wcm: true,
            show_dq: true,
            show_fcup: true,
            show_ict: true,
            hidden_devices: Vec::new(),
        }
    }
}

impl DisplayFilter {
    /// Whether devices of a type are shown.
    pub open spec fn shows_type(self, device_type: DeviceType) -> bool {
        match device_type {
            DeviceType::Wcm => self.show_wcm,
            DeviceType::Dq => self.show_dq,
            DeviceType::Fcup => self.show_fcup,
            DeviceType::Ict => self.show_ict,
        }
    }

    /// The devices that are hidden one by one.
    pub open spec fn hidden(self) -> Set<Seq<char>> {
        text::texts(self.hidden_devices@).to_set()
    }

    /// Whether a device is shown.
    pub open spec fn shows(self, device: DeviceStatusView) -> bool {
        self.shows_type(device.device_type) && !self.hidden().contains(device.name)
    }

    /// Whether a device is shown.
    pub fn is_visible(&self, device: &DeviceStatus) -> (res: bool)
        ensures
            res == self.shows(device@),
    {
        let type_visible = match device.device_type {
            DeviceType::Wcm => self.show_wcm,
            DeviceType::Dq => self.show_dq,
            DeviceType::Fcup => self.show_fcup,
            DeviceType::Ict => self.show_ict,
        };
        type_visible && !text::contains_text(&self.hidden_devices, device.name.as_str())
    }

    /// Hides one device, or shows it again.
    pub fn set_visible(&mut self, name: &str, visible: bool)
        ensures
            *final(self) == (DisplayFilter {
                hidden_devices: final(self).hidden_devices,
                ..*old(self)
            }),
            final(self).hidden() == (if visible {
                old(self).hidden().remove(name@)
            } else {
                old(self).hidden().insert(name@)
            }),
    {
        let ghost was = text::texts(self.hidden_devices@);
        let mut kept: Vec<String> = Vec::new();
        let mut i: usize = 0;
        while i < self.hidden_devices.len()
            invariant
                i <= self.hidden_devices@.len(),
                was == text::texts(self.hidden_devices@),
                forall|x: Seq<char>| #[trigger]
                    text::texts(kept@).contains(x) <==> x != name@ && was.take(i as int).contains(x),
            decreases self.hidden_devices@.len() - i,
        {
            let ghost before = text::texts(kept@);
            let ghost item = self.hidden_devices@[i as int]@;
            if !text::same_text(self.hidden_devices[i].as_str(), name) {
                kept.push(self.hidden_devices[i].clone());
                assert(text::texts(kept@) =~= before.push(item));
            }
            proof {
                let seen = was.take(i as int);
                let more = was.take(i as int + 1);
                assert(more =~= seen.push(item));
                let now = text::texts(kept@);
                assert forall|x: Seq<char>| #[trigger] now.contains(x) <==> x != name@
                    && more.contains(x) by {
                    lemma_push_contains(seen, item, x);
                    lemma_push_contains(before, item, x);
                    assert(before.contains(x) <==> x != name@ && seen.contains(x));
                }
            }
            i += 1;
        }
        assert(was.take(i as int) =~= was);
        let ghost without = text::texts(kept@);
        assert(without.to_set() =~= was.to_set().remove(name@));
        if !visible {
            kept.push(name.to_string());
            proof {
                assert(text::texts(kept@) =~= without.push(name@));
                assert forall|x: Seq<char>| #[trigger]
                    text::texts(kept@).to_set().contains(x) <==> was.to_set().insert(name@).contains(
                        x,
                    ) by {
                    lemma_push_contains(without, name@, x);
                    assert(without.contains(x) <==> x != name@ && was.contains(x));
                }
                assert(text::texts(kept@).to_set() =~= was.to_set().insert(name@));
            }
        }
        self.hidden_devices = kept;
    }
}

proof fn lemma_push_contains(s: Seq<Seq<char>>, item: Seq<char>, x: Seq<char>)
    ensures
        s.push(item).contains(x) <==> s.contains(x) || x == item,
{
    if s.contains(x) {
        let k = choose|k: int| 0 <= k < s.len() && s[k] == x;
        assert(s.push(item)[k] == x);
    }
    if x == item {
        assert(s.push(item)[s.len() as int] == x);
    }
    if s.push(item).contains(x) {
        let k = choose|k: int| 0 <= k < s.push(item).len() && s.push(item)[k] == x;
        if k < s.len() {
            assert(s[k] == x);
        }
    }
}

/// How the Y axes of the charts are scaled.
#[derive(Clone, Copy, Debug, PartialEq, Eq, Structural)]
pub enum YAxisScale {
    /// To fit the data.
    Auto,
    /// To fit the data and zero.
    ZeroBased,
    Manual { min: Double, max: Double },
}

impl YAxisScale {
    /// The scale after bounds were typed, as far as they are numbers.
    pub open spec fn committed(self, min: Option<Double>, max: Option<Double>) -> YAxisScale {
        match (self, min, max) {
            (YAxisScale::Manual { .. }, Some(low), Some(high)) => if low.below(high) {
                YAxisScale::Manual { min: low, max: high }
            } else {
                self
            },
            _ => self,
        }
    }
}

/// The scale, and what was typed into the boxes for a manual one.
#[derive(Clone, Debug)]
pub struct YAxisState {
    pub scale: YAxisScale,
    pub min_str: String,
    pub max_str: String,
}

/// The bit pattern of 100.0.
pub const HUNDRED_BITS: u64 = 0x4059_0000_0000_0000;

impl Default for YAxisState {
    fn default() -> (res: YAxisState)
        ensures
            res.scale == YAxisScale::Auto,
            res.min_str@.len() == 0,
            res.max_str@.len() == 0,
    {
        YAxisState { scale: YAxisScale::Auto, min_str: String::new(), max_str: String::new() }
    }
}

impl YAxisState {
    /// Selects the manual scale, from zero to a hundred unless it is selected already.
    pub fn select_manual(&mut self)
        ensures
            if old(self).scale is Manual {
                *final(self) == *old(self)
            } else {
                &&& final(self).scale == (YAxisScale::Manual {
                    min: Double { bits: 0 },
                    max: Double { bits: HUNDRED_BITS },
                })
                &&& final(self).min_str@ == "0"@
                &&& final(self).max_str@ == "100"@
            },
    {
        if let YAxisScale::Manual { .. } = self.scale {
            return ;
        }
        self.scale = YAxisScale::Manual {
            min: Double::zero(),
            max: Double::from_bits(HUNDRED_BITS),
        };
        self.min_str = "0".to_string();
        self.max_str = "100".to_string();
    }

    /// Takes the bounds that were typed, as far as they are numbers. The lower must be below the
    /// upper one; else they are ignored.
    pub fn commit(&mut self, min: Option<Double>, max: Option<Double>)
        ensures
            final(self).min_str == old(self).min_str,
            final(self).max_str == old(self).max_str,
            final(self).scale == old(self).scale.committed(min, max),
    {
        if let YAxisScale::Manual { .. } = self.scale {
            if let Some(low) = min {
                if let Some(high) = max {
                    if low.lt(high) {
                        self.scale = YAxisScale::Manual { min: low, max: high };
                    }
                }
            }
        }
    }
}

/// The buffer size, and what was typed into its box.
#[derive(Clone, Debug)]
pub struct BufferState {
    pub size: usize,
    pub input: String,
}

impl BufferState {
    /// Whether the box shows the size.
    pub open spec fn is_in_step(self) -> bool {
        self.input@ == text::decimal(self.size as nat)
    }

    /// What taking what was typed comes to.
    pub open spec fn is_committed(self, now: BufferState, asked: Option<ClientMessage>) -> bool {
        match text::parsed(self.input@, usize::MAX as nat) {
            Some(n) => {
                &&& now.size == n
                &&& now.input == self.input
                &&& match asked {
                    Some(msg) => n != self.size && msg@ == (ClientMessageView::SetBufferSize {
                        size: n,
                    }),
                    None => n == self.size,
                }
            },
            None => {
                &&& now.size == self.size
                &&& now.is_in_step()
                &&& asked is None
            },
        }
    }

    pub fn new(size: usize) -> (res: BufferState)
        ensures
            res.size == size,
            res.is_in_step(),
    {
        BufferState { size, input: text::decimal_text(size as u64) }
    }

    /// Takes what was typed. Another size is asked of the server; what is no number snaps back.
    pub fn commit(&mut self) -> (res: Option<ClientMessage>)
        ensures
            old(self).is_committed(*final(self), res),
    {
        match text::parse_number(self.input.as_str(), usize::MAX as u64) {
            Some(n) => {
                let size: usize = n as usize;
                if size != self.size {
                    self.size = size;
                    Some(ClientMessage::SetBufferSize { size })
                } else {
                    None
                }
            },
            None => {
                self.input = text::decimal_text(self.size as u64);
                None
            },
        }
    }
}

/// Everything a client knows, and what its operator has selected.
#[derive(Clone, Debug)]
pub struct ClientState {
    pub devices: Vec<DeviceStatus>,
    /// The charts of the devices, in the same order.
    pub charts: Vec<DeviceChart>,
    pub notices: NoticeLog,
    pub buffer: BufferState,
    pub connected: bool,
    pub filter: DisplayFilter,
    /// The names of the devices in the order of display.
    pub device_order: Vec<String>,
    /// The statistics that are held for writing down, by device name.
    pub frozen_stats: Option<Vec<(String, Stats)>>,
    pub frame_count: u64,
    pub y_axis: YAxisState,
    /// How many seconds of how many are left of a front-end reset.
    pub reset_progress: Option<(u32, u32)>,
    pub auto_gain: bool,
}

/// What messages from the server can change.
#[verifier::ext_equal]
pub struct ClientView {
    pub devices: Seq<DeviceStatusView>,
    pub charts: Seq<DeviceChartView>,
    pub notices: Seq<NoticeView>,
    pub buffer_size: nat,
    pub input: Seq<char>,
    pub device_order: Seq<Seq<char>>,
    pub frame: u64,
    pub reset_progress: Option<(u32, u32)>,
    pub auto_gain: bool,
}

impl View for ClientState {
    type V = ClientView;

    open spec fn view(&self) -> ClientView {
        ClientView {
            devices: statuses(self.devices@),
            charts: chart_views(self.charts@),
            notices: self.notices@,
            buffer_size: self.buffer.size as nat,
            input: self.buffer.input@,
            device_order: text::texts(self.device_order@),
            frame: self.frame_count,
            reset_progress: self.reset_progress,
            auto_gain: self.auto_gain,
        }
    }
}

/// What is known of the devices.
pub open spec fn statuses(devices: Seq<DeviceStatus>) -> Seq<DeviceStatusView> {
    devices.map_values(|d: DeviceStatus| d@)
}

/// What the charts hold.
pub open spec fn chart_views(charts: Seq<DeviceChart>) -> Seq<DeviceChartView> {
    charts.map_values(|c: DeviceChart| c@)
}

/// The names of the devices.
pub open spec fn device_names(devices: Seq<DeviceStatusView>) -> Seq<Seq<char>> {
    devices.map_values(|d: DeviceStatusView| d.name)
}

/// The names of the charts.
pub open spec fn chart_names(charts: Seq<DeviceChartView>) -> Seq<Seq<char>> {
    charts.map_values(|c: DeviceChartView| c.name)
}

/// The charts after snapshots, one after the other. One of a device that is not known is
/// ignored.
pub open spec fn with_snapshots(
    charts: Seq<DeviceChartView>,
    list: Seq<ChartView>,
    cap: nat,
) -> Seq<DeviceChartView>
    decreases list.len(),
{
    if list.len() == 0 {
        charts
    } else {
        let rest = with_snapshots(charts, list.drop_last(), cap);
        let s = list.last();
        if s.device < rest.len() {
            rest.update(s.device as int, rest[s.device as int].with_snapshot(s, cap))
        } else {
            rest
        }
    }
}

/// The charts after deltas, one after the other. One of a device that is not known is ignored.
pub open spec fn with_deltas(
    charts: Seq<DeviceChartView>,
    list: Seq<ChartView>,
    cap: nat,
) -> Seq<DeviceChartView>
    decreases list.len(),
{
    if list.len() == 0 {
        charts
    } else {
        let rest = with_deltas(charts, list.drop_last(), cap);
        let d = list.last();
        if d.device < rest.len() {
            rest.update(d.device as int, rest[d.device as int].with_delta(d, cap))
        } else {
            rest
        }
    }
}

impl ClientView {
    /// What a client knows after a message.
    pub open spec fn after(self, msg: ServerMessageView) -> ClientView {
        match msg {
            ServerMessageView::Init {
                devices,
                buffer_size,
                device_order,
                reset_progress,
                auto_gain,
            } => ClientView {
                devices,
                charts: devices.map_values(|d: DeviceStatusView| DeviceChartView::empty(d.name)),
                buffer_size,
                device_order: lineup::reconciled(self.device_order, device_order),
                reset_progress,
                auto_gain,
                ..self
            },
            ServerMessageView::ChartData { snapshots } => ClientView {
                charts: with_snapshots(self.charts, snapshots, self.buffer_size),
                ..self
            },
            ServerMessageView::ChartDelta { updates } => ClientView {
                charts: with_deltas(self.charts, updates, self.buffer_size),
                ..self
            },
            ServerMessageView::StateUpdate { device, sensitivity, calibration_mismatch } =>
            match lineup::first_index(device_names(self.devices), device) {
                Some(i) => ClientView {
                    devices: self.devices.update(
                        i,
                        (DeviceStatusView {
                            current_sensitivity: sensitivity,
                            calibration_mismatch,
                            ..self.devices[i]
                        }),
                    ),
                    ..self
                },
                None => self,
            },
            ServerMessageView::BufferSizeChanged { size } => ClientView {
                buffer_size: size,
                input: text::decimal(size),
                charts: self.charts.map_values(|c: DeviceChartView| c.with_capacity(size)),
                ..self
            },
            ServerMessageView::DeviceOrderChanged { .. } => self,
            ServerMessageView::ResetProgress { remaining_secs, total_secs } => ClientView {
                reset_progress: if remaining_secs == 0 {
                    None
                } else {
                    Some((remaining_secs, total_secs))
                },
                ..self
            },
            ServerMessageView::PeakAlignment { device, misaligned } => match lineup::first_index(
                device_names(self.devices),
                device,
            ) {
                Some(i) => ClientView {
                    devices: self.devices.update(
                        i,
                        (DeviceStatusView { peak_misaligned: misaligned, ..self.devices[i] }),
                    ),
                    ..self
                },
                None => self,
            },
            ServerMessageView::AutoGainChanged { enabled } => ClientView {
                auto_gain: enabled,
                ..self
            },
            ServerMessageView::Notify(notice) => ClientView {
                notices: notices::with_notice(
                    self.notices,
                    NoticeView { notice, frame: self.frame },
                ),
                ..self
            },
        }
    }
}

impl ClientState {
    /// No more notifications than are kept.
    pub open spec fn wf(self) -> bool {
        self.notices@.len() <= notices::MAX_NOTIFICATIONS
    }

    pub fn new() -> (res: ClientState)
        ensures
            res.wf(),
            res@ == (ClientView {
                devices: Seq::empty(),
                charts: Seq::empty(),
                notices: Seq::empty(),
                buffer_size: DEFAULT_BUFFER_SIZE as nat,
                input: text::decimal(DEFAULT_BUFFER_SIZE as nat),
                device_order: Seq::empty(),
                frame: 0,
                reset_progress: None,
                auto_gain: false,
            }),
            !res.connected,
            res.frozen_stats is None,
            res.filter.show_wcm && res.filter.show_dq && res.filter.show_fcup
                && res.filter.show_ict,
            res.filter.hidden_devices@.len() == 0,
            res.y_axis.scale == YAxisScale::Auto,
            res.y_axis.min_str@.len() == 0,
            res.y_axis.max_str@.len() == 0,
    {
        let res = ClientState {
            devices: Vec::new(),
            charts: Vec::new(),
            notices: NoticeLog::new(),
            buffer: BufferState::new(DEFAULT_BUFFER_SIZE),
            connected: false,
            filter: DisplayFilter::default(),
            device_order: Vec::new(),
            frozen_stats: None,
            frame_count: 0,
            y_axis: YAxisState::default(),
            reset_progress: None,
            auto_gain: false,
        };
        assert(res@.devices =~= Seq::<DeviceStatusView>::empty());
        assert(res@.charts =~= Seq::<DeviceChartView>::empty());
        assert(res@.device_order =~= Seq::<Seq<char>>::empty());
        res
    }

    fn first_named(&self, name: &str) -> (res: Option<usize>)
        ensures
            match res {
                Some(i) => lineup::first_index(device_names(self@.devices), name@) == Some(i as int)
                    && i < self.devices@.len(),
                None => lineup::first_index(device_names(self@.devices), name@) is None,
            },
    {
        let ghost list = device_names(self@.devices);
        let mut i: usize = 0;
        while i < self.devices.len()
            invariant
                i <= self.devices@.len(),
                list == device_names(self@.devices),
                forall|k: int| 0 <= k < i ==> #[trigger] list[k] != name@,
            decreases self.devices@.len() - i,
        {
            if text::same_text(self.devices[i].name.as_str(), name) {
                proof {
                    lineup::lemma_first_index(list, name@, i as int);
                }
                return Some(i);
            }
            i += 1;
        }
        proof {
            lineup::lemma_first_index(list, name@, i as int);
        }
        None
    }

    /// What messages do not change.
    pub open spec fn same_selection(self, other: ClientState) -> bool {
        &&& self.connected == other.connected
        &&& self.filter == other.filter
        &&& self.frozen_stats == other.frozen_stats
        &&& self.y_axis == other.y_axis
    }

    fn take_snapshots(&mut self, snapshots: Vec<ChartSnapshot>)
        ensures
            *final(self) == (ClientState { charts: final(self).charts, ..*old(self) }),
            chart_views(final(self).charts@) == with_snapshots(
                chart_views(old(self).charts@),
                snapshots@.map_values(|s: ChartSnapshot| s@),
                old(self).buffer.size as nat,
            ),
    {
        let cap: usize = self.buffer.size;
        let ghost was = chart_views(self.charts@);
        let ghost list = snapshots@.map_values(|s: ChartSnapshot| s@);
        assert(list.take(0) =~= Seq::<ChartView>::empty());
        for snap in it: snapshots
            invariant
                it.seq() == snapshots@,
                cap == old(self).buffer.size,
                list == snapshots@.map_values(|s: ChartSnapshot| s@),
                *self == (ClientState { charts: self.charts, ..*old(self) }),
                chart_views(self.charts@) == with_snapshots(
                    was,
                    list.take(it.index()),
                    cap as nat,
                ),
        {
            proof {
                let k = it.index();
                assert(list.take(k + 1).drop_last() =~= list.take(k));
                assert(list.take(k + 1).last() == snap@);
            }
            let ghost before = chart_views(self.charts@);
            let at: usize = snap.device;
            let ghost shot = snap@;
            if at < self.charts.len() {
                self.charts[at].set_snapshot(snap.points, snap.stats, snap.cursor, cap);
                assert(chart_views(self.charts@) =~= before.update(
                    at as int,
                    before[at as int].with_snapshot(shot, cap as nat),
                ));
            }
        }
        assert(list.take(list.len() as int) =~= list);
    }

    fn take_deltas(&mut self, updates: Vec<DeviceDelta>)
        ensures
            *final(self) == (ClientState { charts: final(self).charts, ..*old(self) }),
            chart_views(final(self).charts@) == with_deltas(
                chart_views(old(self).charts@),
                updates@.map_values(|u: DeviceDelta| u@),
                old(self).buffer.size as nat,
            ),
    {
        let cap: usize = self.buffer.size;
        let ghost was = chart_views(self.charts@);
        let ghost list = updates@.map_values(|u: DeviceDelta| u@);
        assert(list.take(0) =~= Seq::<ChartView>::empty());
        for update in it: updates
            invariant
                it.seq() == updates@,
                cap == old(self).buffer.size,
                list == updates@.map_values(|u: DeviceDelta| u@),
                *self == (ClientState { charts: self.charts, ..*old(self) }),
                chart_views(self.charts@) == with_deltas(was, list.take(it.index()), cap as nat),
        {
            proof {
                let k = it.index();
                assert(list.take(k + 1).drop_last() =~= list.take(k));
                assert(list.take(k + 1).last() == update@);
            }
            let ghost before = chart_views(self.charts@);
            let at: usize = update.device;
            let ghost sent = update@;
            if at < self.charts.len() {
                self.charts[at].apply_delta(update.new_points, update.stats, update.cursor, cap);
                assert(chart_views(self.charts@) =~= before.update(
                    at as int,
                    before[at as int].with_delta(sent, cap as nat),
                ));
            }
        }
        assert(list.take(list.len() as int) =~= list);
    }

    fn resize(&mut self, size: usize)
        ensures
            final(self).wf() == old(self).wf(),
            final(self).same_selection(*old(self)),
            final(self)@ == old(self)@.after(
                ServerMessageView::BufferSizeChanged { size: size as nat },
            ),
    {
        self.buffer.size = size;
        self.buffer.input = text::decimal_text(size as u64);
        let ghost was = chart_views(self.charts@);
        let mut i: usize = 0;
        while i < self.charts.len()
            invariant
                i <= was.len(),
                self.charts@.len() == was.len(),
                was == chart_views(old(self).charts@),
                self.buffer.size == size,
                self.buffer.input@ == text::decimal(size as nat),
                *self == (ClientState {
                    charts: self.charts,
                    buffer: self.buffer,
                    ..*old(self)
                }),
                forall|k: int| i <= k < was.len() ==> (#[trigger] self.charts@[k])@ == was[k],
                forall|k: int|
                    0 <= k < i ==> (#[trigger] self.charts@[k])@ == was[k].with_capacity(
                        size as nat,
                    ),
            decreases was.len() - i,
        {
            assert(self.charts@[i as int]@ == was[i as int]);
            self.charts[i].set_capacity(size);
            i += 1;
        }
        assert(chart_views(self.charts@) =~= was.map_values(
            |c: DeviceChartView| c.with_capacity(size as nat),
        ));
    }

    fn start(
        &mut self,
        devices: Vec<DeviceStatus>,
        buffer_size: usize,
        device_order: Vec<String>,
        reset_progress: Option<(u32, u32)>,
        auto_gain: bool,
    )
        ensures
            final(self).wf() == old(self).wf(),
            final(self).same_selection(*old(self)),
            final(self)@ == old(self)@.after(
                ServerMessageView::Init {
                    devices: statuses(devices@),
                    buffer_size: buffer_size as nat,
                    device_order: text::texts(device_order@),
                    reset_progress,
                    auto_gain,
                },
            ),
    {
        let mut charts: Vec<DeviceChart> = Vec::new();
        let ghost want = statuses(devices@).map_values(
            |d: DeviceStatusView| DeviceChartView::empty(d.name),
        );
        let mut i: usize = 0;
        assert(chart_views(charts@) =~= want.take(0));
        while i < devices.len()
            invariant
                i <= devices@.len(),
                want == statuses(devices@).map_values(
                    |d: DeviceStatusView| DeviceChartView::empty(d.name),
                ),
                chart_views(charts@) == want.take(i as int),
            decreases devices@.len() - i,
        {
            let ghost before = chart_views(charts@);
            let chart = DeviceChart::new(devices[i].name.clone());
            let ghost added = chart@;
            charts.push(chart);
            assert(chart_views(charts@) =~= before.push(added));
            assert(chart_views(charts@) =~= want.take(i as int + 1));
            i += 1;
        }
        assert(want.take(i as int) =~= want);
        self.device_order = lineup::reconcile(&self.device_order, &device_order);
        self.devices = devices;
        self.charts = charts;
        self.buffer.size = buffer_size;
        self.reset_progress = reset_progress;
        self.auto_gain = auto_gain;
    }

    fn take_sensitivity(&mut self, device: &str, sensitivity: usize, calibration_mismatch: bool)
        ensures
            final(self).wf() == old(self).wf(),
            final(self).same_selection(*old(self)),
            final(self)@ == old(self)@.after(
                ServerMessageView::StateUpdate {
                    device: device@,
                    sensitivity: sensitivity as nat,
                    calibration_mismatch,
                },
            ),
    {
        if let Some(i) = self.first_named(device) {
            let ghost was = self@.devices;
            let d = &mut self.devices[i];
            d.current_sensitivity = sensitivity;
            d.calibration_mismatch = calibration_mismatch;
            assert(self@.devices =~= was.update(
                i as int,
                (DeviceStatusView {
                    current_sensitivity: sensitivity as nat,
                    calibration_mismatch,
                    ..was[i as int]
                }),
            ));
        }
    }

    fn take_alignment(&mut self, device: &str, misaligned: bool)
        ensures
            final(self).wf() == old(self).wf(),
            final(self).same_selection(*old(self)),
            final(self)@ == old(self)@.after(
                ServerMessageView::PeakAlignment { device: device@, misaligned },
            ),
    {
        if let Some(i) = self.first_named(device) {
            let ghost was = self@.devices;
            self.devices[i].peak_misaligned = misaligned;
            assert(self@.devices =~= was.update(
                i as int,
                (DeviceStatusView { peak_misaligned: misaligned, ..was[i as int] }),
            ));
        }
    }

    /// Takes a message from the server. What the operator of this client has selected stays as
    /// it is: a new list of devices is fitted into the order of display, and orders that others
    /// choose are theirs.
    pub fn apply(&mut self, msg: ServerMessage)
        requires
            old(self).wf(),
        ensures
            final(self).wf(),
            final(self).same_selection(*old(self)),
            final(self)@ == old(self)@.after(msg@),
    {
        match msg {
            ServerMessage::Init {
                devices,
                buffer_size,
                device_order,
                reset_progress,
                auto_gain,
            } => {
                self.start(devices, buffer_size, device_order, reset_progress, auto_gain);
            },
            ServerMessage::ChartData { snapshots } => {
                self.take_snapshots(snapshots);
            },
            ServerMessage::ChartDelta { updates } => {
                self.take_deltas(updates);
            },
            ServerMessage::StateUpdate { device, sensitivity, calibration_mismatch } => {
                self.take_sensitivity(device.as_str(), sensitivity, calibration_mismatch);
            },
            ServerMessage::BufferSizeChanged { size } => {
                self.resize(size);
            },
            ServerMessage::DeviceOrderChanged { .. } => {},
            ServerMessage::ResetProgress { remaining_secs, total_secs } => {
                self.reset_progress = if remaining_secs == 0 {
                    None
                } else {
                    Some((remaining_secs, total_secs))
                };
            },
            ServerMessage::PeakAlignment { device, misaligned } => {
                self.take_alignment(device.as_str(), misaligned);
            },
            ServerMessage::AutoGainChanged { enabled } => {
                self.auto_gain = enabled;
            },
            ServerMessage::Notify(notice) => {
                self.notices.take(notice, self.frame_count);
            },
        }
    }

    /// Goes on to the next frame.
    pub fn next_frame(&mut self)
        ensures
            *final(self) == (ClientState { frame_count: final(self).frame_count, ..*old(self) }),
            final(self).frame_count == (if old(self).frame_count == u64::MAX {
                u64::MAX
            } else {
                (old(self).frame_count + 1) as u64
            }),
    {
        if self.frame_count < u64::MAX {
            self.frame_count = self.frame_count + 1;
        }
    }

    /// Holds the statistics of all charts as they are, or lets them go.
    pub fn toggle_freeze(&mut self)
        ensures
            *final(self) == (ClientState { frozen_stats: final(self).frozen_stats, ..*old(self) }),
            match (old(self).frozen_stats, final(self).frozen_stats) {
                (Some(_), None) => true,
                (None, Some(list)) => frozen_views(list@) == chart_stats(old(self)@.charts),
                _ => false,
            },
    {
        if self.frozen_stats.is_some() {
            self.frozen_stats = None;
            return ;
        }
        let mut list: Vec<(String, Stats)> = Vec::new();
        let ghost want = chart_stats(self@.charts);
        let mut i: usize = 0;
        assert(frozen_views(list@) =~= want.take(0));
        while i < self.charts.len()
            invariant
                i <= self.charts@.len(),
                *self == *old(self),
                want == chart_stats(self@.charts),
                frozen_views(list@) == want.take(i as int),
            decreases self.charts@.len() - i,
        {
            let ghost before = frozen_views(list@);
            list.push((self.charts[i].name.clone(), self.charts[i].stats));
            assert(frozen_views(list@) =~= before.push(want[i as int]));
            assert(frozen_views(list@) =~= want.take(i as int + 1));
            i += 1;
        }
        assert(want.take(i as int) =~= want);
        self.frozen_stats = Some(list);
    }

    /// The statistics to show for a chart instead of its own, if they are held.
    pub fn frozen(&self, name: &str) -> (res: Option<Stats>)
        ensures
            res == (match self.frozen_stats {
                Some(list) => held_stats(frozen_views(list@), name@),
                None => None,
            }),
    {
        match &self.frozen_stats {
            None => None,
            Some(list) => {
                let ghost views = frozen_views(list@);
                let mut i: usize = 0;
                assert(views.skip(0) =~= views);
                while i < list.len()
                    invariant
                        i <= list@.len(),
                        self.frozen_stats == Some(*list),
                        views == frozen_views(list@),
                        held_stats(views, name@) == held_stats(views.skip(i as int), name@),
                    decreases list@.len() - i,
                {
                    assert(views.skip(i as int)[0] == (list@[i as int].0@, list@[i as int].1));
                    assert(views.skip(i as int).skip(1) =~= views.skip(i as int + 1));
                    if text::same_text(list[i].0.as_str(), name) {
                        return Some(list[i].1);
                    }
                    i += 1;
                }
                None
            },
        }
    }

    fn last_device(&self, name: &str) -> (res: Option<usize>)
        ensures
            match res {
                Some(i) => state::last_index(device_names(self@.devices), name@) == Some(i as int)
                    && i < self.devices@.len(),
                None => state::last_index(device_names(self@.devices), name@) is None,
            },
    {
        let ghost list = device_names(self@.devices);
        let mut n: usize = self.devices.len();
        while n > 0
            invariant
                n <= self.devices@.len(),
                list == device_names(self@.devices),
                forall|i: int| n <= i < list.len() ==> #[trigger] list[i] != name@,
            decreases n,
        {
            if text::same_text(self.devices[n - 1].name.as_str(), name) {
                proof {
                    state::lemma_last_index(list, name@, n as int);
                    assert(list.take(n as int).last() == list[n - 1]);
                }
                return Some(n - 1);
            }
            n -= 1;
        }
        proof {
            state::lemma_last_index(list, name@, 0);
        }
        None
    }

    fn last_chart(&self, name: &str) -> (res: Option<usize>)
        ensures
            match res {
                Some(i) => state::last_index(chart_names(self@.charts), name@) == Some(i as int)
                    && i < self.charts@.len(),
                None => state::last_index(chart_names(self@.charts), name@) is None,
            },
    {
        let ghost list = chart_names(self@.charts);
        let mut n: usize = self.charts.len();
        while n > 0
            invariant
                n <= self.charts@.len(),
                list == chart_names(self@.charts),
                forall|i: int| n <= i < list.len() ==> #[trigger] list[i] != name@,
            decreases n,
        {
            if text::same_text(self.charts[n - 1].name.as_str(), name) {
                proof {
                    state::lemma_last_index(list, name@, n as int);
                    assert(list.take(n as int).last() == list[n - 1]);
                }
                return Some(n - 1);
            }
            n -= 1;
        }
        proof {
            state::lemma_last_index(list, name@, 0);
        }
        None
    }

    /// The device with a name.
    pub fn device(&self, name: &str) -> (res: Option<&DeviceStatus>)
        ensures
            match res {
                Some(d) => state::last_index(device_names(self@.devices), name@) matches Some(i)
                    && d@ == self@.devices[i],
                None => state::last_index(device_names(self@.devices), name@) is None,
            },
    {
        match self.last_device(name) {
            Some(i) => Some(&self.devices[i]),
            None => None,
        }
    }

    /// The charts that are shown, in the order of display.
    pub fn visible_charts(&self) -> (res: Vec<usize>)
        ensures
            res@.map_values(|i: usize| i as int) == shown_charts(
                self@,
                self.filter,
                self@.device_order,
            ),
            forall|k: int| 0 <= k < res@.len() ==> (#[trigger] res@[k]) < self.charts@.len(),
    {
        let mut out: Vec<usize> = Vec::new();
        let ghost f = |i: usize| i as int;
        let ghost all = text::texts(self.device_order@);
        let mut i: usize = 0;
        assert(out@.map_values(f) =~= shown_charts(self@, self.filter, all.take(0)));
        while i < self.device_order.len()
            invariant
                i <= self.device_order@.len(),
                all == text::texts(self.device_order@),
                f == |i: usize| i as int,
                out@.map_values(f) == shown_charts(self@, self.filter, all.take(i as int)),
                forall|k: int| 0 <= k < out@.len() ==> (#[trigger] out@[k]) < self.charts@.len(),
            decreases self.device_order@.len() - i,
        {
            let name = self.device_order[i].as_str();
            let ghost before = out@.map_values(f);
            proof {
                assert(all.take(i as int + 1).drop_last() =~= all.take(i as int));
                assert(all.take(i as int + 1).last() == name@);
            }
            if let Some(d) = self.last_device(name) {
                if self.filter.is_visible(&self.devices[d]) {
                    if let Some(c) = self.last_chart(name) {
                        out.push(c);
                        assert(out@.map_values(f) =~= before.push(c as int));
                    }
                }
            }
            i += 1;
        }
        assert(all.take(i as int) =~= all);
        out
    }

    /// Whether a chart carries the warning that its device clips: its mean is past the limit of
    /// the current sensitivity.
    pub fn is_saturating(&self, chart: usize) -> (res: bool)
        requires
            chart < self.charts@.len(),
        ensures
            res == saturates(self@, chart as int),
    {
        let c = &self.charts[chart];
        match self.last_device(c.name.as_str()) {
            Some(i) => {
                let d = &self.devices[i];
                auto_gain::is_past_limit(&d.saturation_charges, d.current_sensitivity, c.stats.mean)
            },
            None => false,
        }
    }
}

/// The statistics that are held, by device name.
pub open spec fn frozen_views(list: Seq<(String, Stats)>) -> Seq<(Seq<char>, Stats)> {
    list.map_values(|f: (String, Stats)| (f.0@, f.1))
}

/// The statistics of charts, by device name.
pub open spec fn chart_stats(charts: Seq<DeviceChartView>) -> Seq<(Seq<char>, Stats)> {
    charts.map_values(|c: DeviceChartView| (c.name, c.stats))
}

/// The first statistics that are held for a name.
pub open spec fn held_stats(list: Seq<(Seq<char>, Stats)>, name: Seq<char>) -> Option<Stats>
    decreases list.len(),
{
    if list.len() == 0 {
        None
    } else if list[0].0 == name {
        Some(list[0].1)
    } else {
        held_stats(list.skip(1), name)
    }
}

/// The charts that are shown of the devices in `names`, in that order.
pub open spec fn shown_charts(
    client: ClientView,
    filter: DisplayFilter,
    names: Seq<Seq<char>>,
) -> Seq<int>
    decreases names.len(),
{
    if names.len() == 0 {
        Seq::empty()
    } else {
        let rest = shown_charts(client, filter, names.drop_last());
        match (
            state::last_index(device_names(client.devices), names.last()),
            state::last_index(chart_names(client.charts), names.last()),
        ) {
            (Some(d), Some(c)) => if filter.shows(client.devices[d]) {
                rest.push(c)
            } else {
                rest
            },
            _ => rest,
        }
    }
}

/// Whether a chart's mean is past the limit of its device's sensitivity.
pub open spec fn saturates(client: ClientView, chart: int) -> bool {
    match state::last_index(device_names(client.devices), client.charts[chart].name) {
        Some(i) => auto_gain::past_limit(
            auto_gain::limit_at(
                client.devices[i].saturation_charges,
                client.devices[i].current_sensitivity,
            ),
            client.charts[chart].stats.mean,
        ),
        None => false,
    }
}

/// Which controls a device has.
#[derive(Clone, Copy, Debug, PartialEq, Eq, Structural)]
pub struct DeviceControls {
    /// Whether there is a front-end box whose state is shown.
    pub front_end: bool,
    /// Whether sensitivities can be selected.
    pub sensitivities: bool,
    pub zero: bool,
    pub sweep: bool,
}

/// The controls of a device of a type with so many levels.
pub open spec fn controls(device_type: DeviceType, levels: nat) -> DeviceControls {
    DeviceControls {
        front_end: device_type != DeviceType::Ict,
        sensitivities: device_type != DeviceType::Dq && levels > 0,
        zero: device_type == DeviceType::Wcm,
        sweep: device_type != DeviceType::Dq && device_type != DeviceType::Ict,
    }
}

/// The controls of a device, beside those that restore its defaults and clear its buffer, which
/// every device has. A dark-charge device follows its wall current monitor.
pub fn controls_for(device: &DeviceStatus) -> (res: DeviceControls)
    ensures
        res == controls(device.device_type, device.sensitivities@.len()),
{
    DeviceControls {
        front_end: device.device_type != DeviceType::Ict,
        sensitivities: device.device_type != DeviceType::Dq && device.sensitivities.len() > 0,
        zero: device.device_type == DeviceType::Wcm,
        sweep: device.device_type != DeviceType::Dq && device.device_type != DeviceType::Ict,
    }
}

proof fn lemma_chart_names_kept(
    charts: Seq<DeviceChartView>,
    list: Seq<ChartView>,
    cap: nat,
)
    ensures
        chart_names(with_snapshots(charts, list, cap)) == chart_names(charts),
        chart_names(with_deltas(charts, list, cap)) == chart_names(charts),
    decreases list.len(),
{
    if list.len() > 0 {
        lemma_chart_names_kept(charts, list.drop_last(), cap);
        let a = with_snapshots(charts, list.drop_last(), cap);
        let b = with_deltas(charts, list.drop_last(), cap);
        assert(a.len() == chart_names(a).len() && b.len() == chart_names(b).len());
        assert forall|i: int| 0 <= i < a.len() implies chart_names(
            with_snapshots(charts, list, cap),
        )[i] == chart_names(a)[i] by {}
        assert forall|i: int| 0 <= i < b.len() implies chart_names(
            with_deltas(charts, list, cap),
        )[i] == chart_names(b)[i] by {}
        assert(chart_names(with_snapshots(charts, list, cap)) =~= chart_names(a));
        assert(chart_names(with_deltas(charts, list, cap)) =~= chart_names(b));
    }
}

/// Every device has its chart in its place, whatever messages come.
pub proof fn charts_stay_with_devices(client: ClientView, msg: ServerMessageView)
    requires
        chart_names(client.charts) == device_names(client.devices),
    ensures
        chart_names(client.after(msg).charts) == device_names(client.after(msg).devices),
{
    let next = client.after(msg);
    match msg {
        ServerMessageView::ChartData { snapshots } => {
            lemma_chart_names_kept(client.charts, snapshots, client.buffer_size);
        },
        ServerMessageView::ChartDelta { updates } => {
            lemma_chart_names_kept(client.charts, updates, client.buffer_size);
        },
        _ => {
            assert(client.charts.len() == chart_names(client.charts).len());
            assert(client.devices.len() == device_names(client.devices).len());
            if let ServerMessageView::StateUpdate { device, .. } = msg {
                lineup::lemma_first_index_in_range(device_names(client.devices), device);
                assert(device_names(next.devices) =~= device_names(client.devices));
            } else if let ServerMessageView::PeakAlignment { device, .. } = msg {
                lineup::lemma_first_index_in_range(device_names(client.devices), device);
                assert(device_names(next.devices) =~= device_names(client.devices));
            } else {
                assert(chart_names(next.charts) =~= device_names(next.devices)) by {
                    assert forall|i: int| 0 <= i < next.charts.len() implies chart_names(
                        next.charts,
                    )[i] == device_names(next.devices)[i] by {
                        if !(msg is Init) {
                            assert(chart_names(client.charts)[i] == device_names(client.devices)[i]);
                        }
                    }
                }
            }
        },
    }
}

/// After a first message that lists every device, every device is in the order of display, and
/// nothing else is.
pub proof fn every_device_is_displayed(
    client: ClientView,
    devices: Seq<DeviceStatusView>,
    buffer_size: nat,
    device_order: Seq<Seq<char>>,
    reset_progress: Option<(u32, u32)>,
    auto_gain: bool,
)
    requires
        forall|n: Seq<char>| #[trigger]
            device_order.contains(n) <==> device_names(devices).contains(n),
    ensures
        ({
            let next = client.after(
                ServerMessageView::Init {
                    devices,
                    buffer_size,
                    device_order,
                    reset_progress,
                    auto_gain,
                },
            );
            forall|n: Seq<char>| #[trigger]
                next.device_order.contains(n) <==> device_names(next.devices).contains(n)
        }),
{
    lineup::reconciled_is_complete(client.device_order, device_order);
}

/// Zeroing is offered for wall current monitors; sweeping for them and for Faraday cups; levels for
/// both, if there are any; and the state of a front-end box for all but the transformers.
pub proof fn controls_go_by_the_kind_of_device(levels: nat)
    requires
        levels > 0,
    ensures
        controls(DeviceType::Wcm, levels) == (DeviceControls {
            front_end: true,
            sensitivities: true,
            zero: true,
            sweep: true,
        }),
        controls(DeviceType::Fcup, levels) == (DeviceControls {
            front_end: true,
            sensitivities: true,
            zero: false,
            sweep: true,
        }),
        controls(DeviceType::Dq, levels) == (DeviceControls {
            front_end: true,
            sensitivities: false,
            zero: false,
            sweep: false,
        }),
        controls(DeviceType::Ict, 0) == (DeviceControls {
            front_end: false,
            sensitivities: false,
            zero: false,
            sweep: false,
        }),
        !controls(DeviceType::Fcup, 0).sensitivities && !controls(DeviceType::Wcm, 0).sensitivities,
{
}

/// A manual scale takes bounds that are numbers of which the lower is less, and ignores others. Any
/// other scale stays what it is.
pub proof fn manual_bounds_are_in_order(scale: YAxisScale, low: Double, high: Double)
    ensures
        scale is Manual && !low.nan() && !high.nan() && low.rank() < high.rank()
            ==> scale.committed(Some(low), Some(high)) == (YAxisScale::Manual {
            min: low,
            max: high,
        }),
        !(scale is Manual) || low.nan() || high.nan() || low.rank() >= high.rank()
            ==> scale.committed(Some(low), Some(high)) == scale,
        scale.committed(None, Some(high)) == scale,
        scale.committed(Some(low), None) == scale,
        scale.committed(None, None) == scale,
{
}

/// A client knows of a device what it was last told: its sensitivity and whether the calibration may
/// be stale. Nothing else of it changes, and no other device does.
pub proof fn sensitivities_follow_the_server(
    client: ClientView,
    i: int,
    sensitivity: nat,
    calibration_mismatch: bool,
)
    requires
        0 <= i < client.devices.len(),
        device_names(client.devices).no_duplicates(),
    ensures
        ({
            let next = client.after(
                ServerMessageView::StateUpdate {
                    device: client.devices[i].name,
                    sensitivity,
                    calibration_mismatch,
                },
            );
            &&& next == (ClientView { devices: next.devices, ..client })
            &&& next.devices.len() == client.devices.len()
            &&& next.devices[i] == (DeviceStatusView {
                current_sensitivity: sensitivity,
                calibration_mismatch,
                ..client.devices[i]
            })
            &&& forall|k: int|
                0 <= k < client.devices.len() && k != i ==> #[trigger] next.devices[k]
                    == client.devices[k]
        }),
{
    let names = device_names(client.devices);
    assert forall|k: int| 0 <= k < i implies #[trigger] names[k] != names[i] by {}
    lineup::lemma_first_index(names, names[i], i);
}

/// A client knows of the window of a device what it was last told, and nothing else changes by that.
pub proof fn alignment_follows_the_server(client: ClientView, i: int, misaligned: bool)
    requires
        0 <= i < client.devices.len(),
        device_names(client.devices).no_duplicates(),
    ensures
        ({
            let next = client.after(
                ServerMessageView::PeakAlignment { device: client.devices[i].name, misaligned },
            );
            &&& next == (ClientView { devices: next.devices, ..client })
            &&& next.devices.len() == client.devices.len()
            &&& next.devices[i] == (DeviceStatusView { peak_misaligned: misaligned, ..client.devices[i] })
            &&& forall|k: int|
                0 <= k < client.devices.len() && k != i ==> #[trigger] next.devices[k]
                    == client.devices[k]
        }),
{
    let names = device_names(client.devices);
    assert forall|k: int| 0 <= k < i implies #[trigger] names[k] != names[i] by {}
    lineup::lemma_first_index(names, names[i], i);
}

/// What is shared is as the server says: the countdown of a reset as long as there is something left
/// of it, automatic gain, the buffer size, and with it how much the charts hold. The order of
/// display is the operator's own, and nobody else's order changes it.
pub proof fn shared_settings_follow_the_server(
    client: ClientView,
    remaining: u32,
    total: u32,
    enabled: bool,
    size: nat,
    order: Seq<Seq<char>>,
    i: int,
)
    requires
        0 <= i < client.charts.len(),
    ensures
        client.after(
            ServerMessageView::ResetProgress { remaining_secs: remaining, total_secs: total },
        ).reset_progress == (if remaining > 0 {
            Some((remaining, total))
        } else {
            None
        }),
        client.after(ServerMessageView::AutoGainChanged { enabled }).auto_gain == enabled,
        client.after(ServerMessageView::DeviceOrderChanged { order }) == client,
        ({
            let next = client.after(ServerMessageView::BufferSizeChanged { size });
            let was = client.charts[i].held;
            let held = next.charts[i].held;
            &&& next.buffer_size == size
            &&& text::parsed(next.input, size) == Some(size)
            &&& next.charts.len() == client.charts.len()
            &&& held.len() == vstd::math::min(was.len() as int, size as int)
            &&& forall|k: int|
                0 <= k < held.len() ==> #[trigger] held[k] == was[was.len() - held.len() + k]
            &&& next.charts[i].name == client.charts[i].name
            &&& next.charts[i].applied == client.charts[i].applied
            &&& next.charts[i].stats == client.charts[i].stats
            &&& next.device_order == client.device_order
        }),
{
    text::decimal_reads_back(size, size);
}

proof fn lemma_last_index_is(list: Seq<Seq<char>>, i: int)
    requires
        0 <= i < list.len(),
        list.no_duplicates(),
    ensures
        state::last_index(list, list[i]) == Some(i),
{
    assert forall|k: int| i + 1 <= k < list.len() implies #[trigger] list[k] != list[i] by {}
    state::lemma_last_index(list, list[i], i + 1);
    assert(list.take(i + 1).last() == list[i]);
}

/// A chart is shown if and only if its device is in the order of display, devices of its type are
/// shown, and it is not hidden by itself.
pub proof fn shown_charts_are_those_selected(
    client: ClientView,
    filter: DisplayFilter,
    names: Seq<Seq<char>>,
    i: int,
)
    requires
        0 <= i < client.devices.len(),
        device_names(client.devices).no_duplicates(),
        chart_names(client.charts) == device_names(client.devices),
    ensures
        shown_charts(client, filter, names).contains(i) <==> names.contains(client.devices[i].name)
            && (match client.devices[i].device_type {
            DeviceType::Wcm => filter.show_wcm,
            DeviceType::Dq => filter.show_dq,
            DeviceType::Fcup => filter.show_fcup,
            DeviceType::Ict => filter.show_ict,
        }) && forall|k: int|
            0 <= k < filter.hidden_devices@.len() ==> (#[trigger] filter.hidden_devices@[k])@
                != client.devices[i].name,
    decreases names.len(),
{
    let list = device_names(client.devices);
    let name = client.devices[i].name;
    let hidden = text::texts(filter.hidden_devices@);
    assert(list[i] == name);
    assert(filter.hidden().contains(name) <==> exists|k: int|
        0 <= k < filter.hidden_devices@.len() && (#[trigger] filter.hidden_devices@[k])@ == name)
        by {
        if hidden.contains(name) {
            let k = choose|k: int| 0 <= k < hidden.len() && hidden[k] == name;
            assert(filter.hidden_devices@[k]@ == name);
        }
        if exists|k: int|
            0 <= k < filter.hidden_devices@.len() && (#[trigger] filter.hidden_devices@[k])@ == name {
            let k = choose|k: int|
                0 <= k < filter.hidden_devices@.len() && (#[trigger] filter.hidden_devices@[k])@
                    == name;
            assert(hidden[k] == name);
        }
    }
    if names.len() > 0 {
        let front = names.drop_last();
        let rest = shown_charts(client, filter, front);
        let all = shown_charts(client, filter, names);
        shown_charts_are_those_selected(client, filter, front, i);
        lemma_last_index_is(list, i);
        state::lemma_found(list, names.last());
        assert(names.contains(name) <==> front.contains(name) || names.last() == name) by {
            if front.contains(name) {
                let k = choose|k: int| 0 <= k < front.len() && front[k] == name;
                assert(names[k] == name);
            }
            if names.last() == name {
                assert(names[names.len() - 1] == name);
            }
            if names.contains(name) {
                let k = choose|k: int| 0 <= k < names.len() && names[k] == name;
                if k < front.len() {
                    assert(front[k] == name);
                }
            }
        }
        assert(all.contains(i) <==> rest.contains(i) || (all.len() > rest.len() && all.last() == i))
            by {
            if rest.contains(i) {
                let k = choose|k: int| 0 <= k < rest.len() && rest[k] == i;
                assert(all[k] == i);
            }
            if all.contains(i) {
                let k = choose|k: int| 0 <= k < all.len() && all[k] == i;
                if k < rest.len() {
                    assert(rest[k] == i);
                }
            }
            if all.len() > rest.len() && all.last() == i {
                assert(all[all.len() - 1] == i);
            }
        }
        if all.len() > rest.len() && all.last() == i {
            assert(list[i] == names.last());
        }
    }
}

/// A chart warns of saturation if and only if its mean is past the limit of its device's current
/// level, above it or below its negative.
pub proof fn saturation_warning_goes_by_the_mean(client: ClientView, i: int)
    requires
        0 <= i < client.devices.len(),
        device_names(client.devices).no_duplicates(),
        chart_names(client.charts) == device_names(client.devices),
    ensures
        ({
            let limits = client.devices[i].saturation_charges;
            let at = client.devices[i].current_sensitivity as int;
            let mean = client.charts[i].stats.mean;
            saturates(client, i) <==> at < limits.len() && !limits[at].nan() && !mean.nan() && (
            limits[at].rank() < mean.rank() || mean.rank() < -limits[at].rank())
        }),
{
    let list = device_names(client.devices);
    assert(client.charts.len() == chart_names(client.charts).len());
    assert(chart_names(client.charts)[i] == client.charts[i].name);
    assert(list[i] == client.charts[i].name);
    lemma_last_index_is(list, i);
}

/// Statistics that are held are those which the chart had when they were taken, whatever has come
/// since.
pub proof fn frozen_statistics_are_those_of_the_chart(charts: Seq<DeviceChartView>, i: int)
    requires
        0 <= i < charts.len(),
        chart_names(charts).no_duplicates(),
    ensures
        held_stats(chart_stats(charts), charts[i].name) == Some(charts[i].stats),
    decreases charts.len(),
{
    let list = chart_stats(charts);
    let names = chart_names(charts);
    assert(list[0] == (charts[0].name, charts[0].stats));
    if i > 0 {
        let rest = charts.skip(1);
        assert(names[0] != names[i]);
        assert forall|a: int, b: int|
            0 <= a < rest.len() && 0 <= b < rest.len() && a != b implies chart_names(rest)[a]
            != chart_names(rest)[b] by {
            assert(names[a + 1] != names[b + 1]);
        }
        frozen_statistics_are_those_of_the_chart(rest, i - 1);
        assert(list.skip(1) =~= chart_stats(rest));
    }
}

/// A number that is typed as a buffer size is asked of the server, unless it is the size already;
/// whatever else is typed snaps back to the size, and nothing is asked.
pub proof fn typed_sizes_are_asked_for(
    was: BufferState,
    now: BufferState,
    asked: Option<ClientMessage>,
    n: nat,
)
    requires
        was.is_committed(now, asked),
        n <= usize::MAX,
    ensures
        was.input@ == text::decimal(n) ==> now.size == n && now.input@ == text::decimal(n) && (
        asked is Some <==> n != was.size) && (asked matches Some(msg) ==> msg@ == (
        ClientMessageView::SetBufferSize { size: n })),
        was.input@.len() == 0 || (exists|i: int|
            0 < i < was.input@.len() && !text::is_digit(#[trigger] was.input@[i])) ==> asked is None
            && now.size == was.size && now.input@ == text::decimal(was.size as nat),
{
    text::decimal_reads_back(n, usize::MAX as nat);
    if exists|i: int| 0 < i < was.input@.len() && !text::is_digit(#[trigger] was.input@[i]) {
        let i = choose|i: int| 0 < i < was.input@.len() && !text::is_digit(#[trigger] was.input@[i]);
        let rest = was.input@.skip(1);
        assert(rest[i - 1] == was.input@[i]);
    }
}

/// A message changes what it speaks of and nothing else. A list of devices leaves the notifications
/// and what was typed as they are.
pub proof fn messages_change_what_they_speak_of(client: ClientView, msg: ServerMessageView)
    ensures
        ({
            let next = client.after(msg);
            &&& next.frame == client.frame
            &&& !(msg is Notify) ==> next.notices == client.notices
            &&& !(msg is BufferSizeChanged) ==> next.input == client.input
            &&& !(msg is Init) ==> next.device_order == client.device_order
            &&& !(msg is Init || msg is StateUpdate || msg is PeakAlignment) ==> next.devices
                == client.devices
            &&& !(msg is Init || msg is ChartData || msg is ChartDelta || msg is BufferSizeChanged)
                ==> next.charts == client.charts
            &&& !(msg is Init || msg is BufferSizeChanged) ==> next.buffer_size
                == client.buffer_size
            &&& !(msg is Init || msg is ResetProgress) ==> next.reset_progress
                == client.reset_progress
            &&& !(msg is Init || msg is AutoGainChanged) ==> next.auto_gain == client.auto_gain
        }),
{
}

/// What is said of a device that is not known is ignored.
pub proof fn unknown_devices_are_ignored(
    client: ClientView,
    device: Seq<char>,
    sensitivity: nat,
    flag: bool,
)
    requires
        !device_names(client.devices).contains(device),
    ensures
        client.after(
            ServerMessageView::StateUpdate { device, sensitivity, calibration_mismatch: flag },
        ) == client,
        client.after(ServerMessageView::PeakAlignment { device, misaligned: flag }) == client,
{
    lineup::lemma_first_index_in_range(device_names(client.devices), device);
}

/// Messages leave alone what the operator has chosen: the filter, the scale and the statistics that
/// are frozen.
pub proof fn choices_are_the_operators_own(was: ClientState, now: ClientState)
    requires
        was.same_selection(now),
    ensures
        now.filter == was.filter,
        now.frozen_stats == was.frozen_stats,
        now.y_axis == was.y_axis,
        now.connected == was.connected,
{
}

/// There is no warning on a chart whose device is not known.
pub proof fn unknown_devices_do_not_saturate(client: ClientView, i: int)
    requires
        0 <= i < client.charts.len(),
        !device_names(client.devices).contains(client.charts[i].name),
    ensures
        !saturates(client, i),
{
    state::lemma_found(device_names(client.devices), client.charts[i].name);
}

}
