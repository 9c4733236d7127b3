//! The state of the server: what is known of each device, and what the operators have set.

use vstd::prelude::*;

use crate::buffer::{RollingBuffer, RECENT_COUNT};
use crate::chart;
use crate::config::DeviceConfig;
use crate::consts::WATCHDOG_STALE_SECS_BITS;
use crate::double::Double;
use crate::messages::Point;
use crate::text;

verus! {

/// What is known of a device.
#[derive(Clone, Debug)]
pub struct DeviceState {
    pub config: DeviceConfig,
    pub name: String,
    pub buffer: RollingBuffer,
    /// Index into the configured sensitivities.
    pub current_sensitivity: usize,
    /// Whether charge data is arriving.
    pub connected: bool,
    /// Whether the front-end box answers.
    pub fe_alive: bool,
    /// When data last arrived, in seconds since the epoch; zero for never.
    pub last_data_time: Double,
    /// The peak window does not bracket the pulse.
    pub peak_misaligned: bool,
    /// The sensitivity was changed by someone else.
    pub calibration_mismatch: bool,
}

impl DeviceState {
    /// Whether the device has had data, but none for too long: `age` is how many seconds ago data
    /// last arrived.
    pub open spec fn is_stale(self, age: Double) -> bool {
        &&& self.connected
        &&& (Double { bits: 0 }).below(self.last_data_time)
        &&& (Double { bits: WATCHDOG_STALE_SECS_BITS }).below(age)
    }

    /// Marks the device disconnected if it has had data, but none for too long. `age` is how
    /// many seconds ago data last arrived. Says whether the device was marked.
    pub fn mark_if_stale(&mut self, age: Double) -> (res: bool)
        ensures
            res == old(self).is_stale(age),
            *final(self) == (DeviceState {
                connected: old(self).connected && !res,
                ..*old(self)
            }),
    {
        let limit = Double::from_bits(WATCHDOG_STALE_SECS_BITS);
        if self.connected && Double::zero().lt(self.last_data_time) && limit.lt(age) {
            self.connected = false;
            true
        } else {
            false
        }
    }
}

/// A reading of a device.
#[derive(Clone, Copy, Debug, PartialEq, Eq, Structural)]
pub struct EpicsUpdate {
    pub device_index: usize,
    pub timestamp: Double,
    pub value: Double,
}

/// The names of the devices.
pub open spec fn names(devices: Seq<DeviceState>) -> Seq<Seq<char>> {
    devices.map_values(|d: DeviceState| d.name@)
}

/// Where `name` last stands in a list.
pub open spec fn last_index(list: Seq<Seq<char>>, name: Seq<char>) -> Option<int>
    decreases list.len(),
{
    if list.len() == 0 {
        None
    } else if list.last() == name {
        Some(list.len() - 1)
    } else {
        last_index(list.drop_last(), name)
    }
}

/// Only what is before the last of them matters when the rest is other names.
pub proof fn lemma_last_index(list: Seq<Seq<char>>, name: Seq<char>, n: int)
    requires
        0 <= n <= list.len(),
        forall|i: int| n <= i < list.len() ==> #[trigger] list[i] != name,
    ensures
        last_index(list, name) == last_index(list.take(n), name),
    decreases list.len() - n,
{
    if n < list.len() {
        assert(list.last() == list[list.len() - 1]);
        lemma_last_index(list.drop_last(), name, n);
        assert(list.drop_last().take(n) =~= list.take(n));
    } else {
        assert(list.take(n) =~= list);
    }
}

/// Of devices whose names are distinct, each is found by its own name.
pub proof fn names_find_their_devices(state: InnerState, i: int)
    requires
        0 <= i < state.devices@.len(),
        names(state.devices@).no_duplicates(),
    ensures
        state.find(state.devices@[i].name@) == Some(i),
{
    let list = names(state.devices@);
    assert forall|k: int| i + 1 <= k < list.len() implies #[trigger] list[k] != list[i] by {}
    lemma_last_index(list, list[i], i + 1);
    assert(list.take(i + 1).last() == list[i]);
}

/// Everything the tasks of the server share.
#[derive(Clone, Debug)]
pub struct InnerState {
    /// The devices, in the order of their names.
    pub devices: Vec<DeviceState>,
    /// The capacity of every buffer.
    pub buffer_size: usize,
    /// The names of the devices in the order of display.
    pub device_order: Vec<String>,
    /// How many seconds of how many are left of a front-end reset.
    pub reset_progress: Option<(u32, u32)>,
    /// Whether saturating devices are switched to a less sensitive level.
    pub auto_gain: bool,
    /// Whether a front-end reset is running.
    pub reset_running: bool,
}

impl InnerState {
    /// Every buffer is sound, and there is a countdown only while a reset is running.
    pub open spec fn wf(self) -> bool {
        &&& forall|i: int|
            0 <= i < self.devices@.len() ==> (#[trigger] self.devices@[i]).buffer.wf()
        &&& !self.reset_running ==> self.reset_progress is None
    }

    /// Every buffer has the capacity that is set, and holds no more than that. Without any
    /// capacity it may hold a single reading.
    pub open spec fn sized(self) -> bool {
        forall|i: int|
            0 <= i < self.devices@.len() ==> (#[trigger] self.devices@[i]).buffer.cap()
                == self.buffer_size && (self.devices@[i].buffer.held().len() <= self.buffer_size
                || self.devices@[i].buffer.held().len() == 1)
    }

    /// Every buffer holds no more than it has room for, and no more than were ever pushed.
    pub open spec fn counted(self) -> bool {
        forall|i: int|
            0 <= i < self.devices@.len() ==> (#[trigger] self.devices@[i]).buffer.is_counted()
    }

    /// The index of the device with a name.
    pub open spec fn find(self, name: Seq<char>) -> Option<int> {
        last_index(names(self.devices@), name)
    }

    pub fn new(
        devices: Vec<DeviceState>,
        buffer_size: usize,
        device_order: Vec<String>,
    ) -> (res: InnerState)
        ensures
            res == (InnerState {
                devices,
                buffer_size,
                device_order,
                reset_progress: None,
                auto_gain: false,
                reset_running: false,
            }),
    {
        InnerState {
            devices,
            buffer_size,
            device_order,
            reset_progress: None,
            auto_gain: false,
            reset_running: false,
        }
    }

    /// The index of the device with a name.
    pub fn device_index(&self, name: &str) -> (res: Option<usize>)
        ensures
            match res {
                Some(i) => self.find(name@) == Some(i as int) && i < self.devices@.len()
                    && self.devices@[i as int].name@ == name@,
                None => self.find(name@) is None,
            },
    {
        let ghost list = names(self.devices@);
        let mut n: usize = self.devices.len();
        while n > 0
            invariant
                n <= self.devices@.len(),
                list == names(self.devices@),
                forall|i: int| n <= i < list.len() ==> #[trigger] list[i] != name@,
            decreases n,
        {
            if text::same_text(self.devices[n - 1].name.as_str(), name) {
                proof {
                    lemma_last_index(list, name@, n as int);
                    assert(list.take(n as int).last() == list[n - 1]);
                }
                return Some(n - 1);
            }
            n -= 1;
        }
        proof {
            lemma_last_index(list, name@, 0);
        }
        None
    }

    /// The device with a name.
    pub fn device(&self, name: &str) -> (res: Option<&DeviceState>)
        ensures
            match res {
                Some(d) => self.find(name@) matches Some(i) && 0 <= i < self.devices@.len() && *d
                    == self.devices@[i] && d.name@ == name@,
                None => self.find(name@) is None,
            },
    {
        match self.device_index(name) {
            Some(i) => Some(&self.devices[i]),
            None => None,
        }
    }

    /// The device with a name, to change it.
    pub fn device_mut(&mut self, name: &str) -> (res: Option<&mut DeviceState>)
        ensures
            match res {
                Some(d) => {
                    &&& old(self).find(name@) matches Some(i)
                    &&& 0 <= i < old(self).devices@.len()
                    &&& *d == old(self).devices@[i]
                    &&& d.name@ == name@
                    &&& final(self).devices@ == old(self).devices@.update(i, *final(d))
                    &&& *final(self) == (InnerState { devices: final(self).devices, ..*old(self) })
                },
                None => old(self).find(name@) is None && *final(self) == *old(self),
            },
    {
        match self.device_index(name) {
            Some(i) => Some(&mut self.devices[i]),
            None => None,
        }
    }

    /// What taking a reading comes to. `evicted` is the reading that left the buffer for it.
    pub open spec fn is_updated(
        self,
        now: InnerState,
        update: EpicsUpdate,
        evicted: Option<Point>,
    ) -> bool {
        &&& now == (InnerState { devices: now.devices, ..self })
        &&& if update.device_index < self.devices@.len() {
            let old_device = self.devices@[update.device_index as int];
            let device = now.devices@[update.device_index as int];
            let reading = Point { timestamp: update.timestamp, value: update.value };
            &&& now.devices@ == self.devices@.update(update.device_index as int, device)
            &&& device == (DeviceState {
                buffer: device.buffer,
                connected: true,
                last_data_time: update.timestamp,
                ..old_device
            })
            &&& device.buffer.held() == chart::appended(
                old_device.buffer.held(),
                seq![reading],
                old_device.buffer.cap(),
            )
            &&& device.buffer.recent() == chart::appended(
                old_device.buffer.recent(),
                seq![reading],
                RECENT_COUNT as nat,
            )
            &&& device.buffer.cap() == old_device.buffer.cap()
            &&& device.buffer.moments_view() == old_device.buffer.moments_view()
            &&& device.buffer.pushed() == (if old_device.buffer.pushed() == u64::MAX {
                0
            } else {
                (old_device.buffer.pushed() + 1) as u64
            })
            &&& evicted == (if old_device.buffer.held().len() >= old_device.buffer.cap()
                && old_device.buffer.held().len() > 0 {
                Some(old_device.buffer.held()[0])
            } else {
                None
            })
        } else {
            now.devices@ == self.devices@ && evicted is None
        }
    }

    /// Takes a reading into the buffer of a device, which is then connected. Returns the
    /// reading that left the buffer for it. There may be no such device.
    pub fn apply_update(&mut self, update: EpicsUpdate) -> (res: Option<Point>)
        requires
            old(self).wf(),
        ensures
            final(self).wf(),
            old(self).sized() ==> final(self).sized(),
            old(self).counted() && (update.device_index < old(self).devices@.len()
                ==> old(self).devices@[update.device_index as int].buffer.pushed() < u64::MAX)
                ==> final(self).counted(),
            old(self).is_updated(*final(self), update, res),
    {
        if update.device_index >= self.devices.len() {
            return None;
        }
        let device = &mut self.devices[update.device_index];
        let evicted = device.buffer.push(update.timestamp, update.value);
        device.connected = true;
        device.last_data_time = update.timestamp;
        evicted
    }

    /// Marks a device disconnected whose subscription ended.
    pub fn disconnect(&mut self, device_index: usize)
        ensures
            *final(self) == (InnerState { devices: final(self).devices, ..*old(self) }),
            final(self).devices@ == disconnected(old(self).devices@, device_index as nat),
    {
        if device_index < self.devices.len() {
            self.devices[device_index].connected = false;
        }
    }

    /// The devices that have a front-end box: their indices and addresses.
    pub fn front_ends(&self) -> (res: Vec<(usize, String)>)
        ensures
            res@.map_values(|t: (usize, String)| (t.0 as int, t.1@)) == boxes(self.devices@),
    {
        let mut out: Vec<(usize, String)> = Vec::new();
        let ghost f = |t: (usize, String)| (t.0 as int, t.1@);
        let ghost all = self.devices@;
        let mut i: usize = 0;
        assert(out@.map_values(f) =~= boxes(all.take(0)));
        while i < self.devices.len()
            invariant
                i <= all.len(),
                all == self.devices@,
                f == |t: (usize, String)| (t.0 as int, t.1@),
                out@.map_values(f) == boxes(all.take(i as int)),
            decreases all.len() - i,
        {
            let ghost before = out@;
            assert(all.take(i as int + 1).drop_last() =~= all.take(i as int));
            if self.devices[i].config.ip.as_str().unicode_len() > 0 {
                out.push((i, self.devices[i].config.ip.clone()));
                assert(out@.map_values(f) =~= before.map_values(f).push(
                    (i as int, all[i as int].config.ip@),
                ));
            }
            i += 1;
        }
        assert(all.take(i as int) =~= all);
        out
    }

    /// Records which front-end boxes answered. A device may be gone.
    pub fn apply_pings(&mut self, results: &Vec<(usize, bool)>)
        ensures
            *final(self) == (InnerState { devices: final(self).devices, ..*old(self) }),
            final(self).devices@ == pinged(old(self).devices@, results@),
    {
        let mut i: usize = 0;
        assert(results@.take(0) =~= Seq::<(usize, bool)>::empty());
        while i < results.len()
            invariant
                i <= results@.len(),
                *self == (InnerState { devices: self.devices, ..*old(self) }),
                self.devices@ == pinged(old(self).devices@, results@.take(i as int)),
            decreases results@.len() - i,
        {
            let (index, alive) = results[i];
            assert(results@.take(i as int + 1).drop_last() =~= results@.take(i as int));
            if index < self.devices.len() {
                self.devices[index].fe_alive = alive;
            }
            i += 1;
        }
        assert(results@.take(i as int) =~= results@);
    }
}

/// The indices and addresses of the front-end boxes.
pub open spec fn boxes(devices: Seq<DeviceState>) -> Seq<(int, Seq<char>)>
    decreases devices.len(),
{
    if devices.len() == 0 {
        Seq::empty()
    } else {
        let rest = boxes(devices.drop_last());
        if devices.last().config.ip@.len() > 0 {
            rest.push((devices.len() - 1, devices.last().config.ip@))
        } else {
            rest
        }
    }
}

/// The devices after pings were answered or not, one after the other.
pub open spec fn pinged(devices: Seq<DeviceState>, results: Seq<(usize, bool)>) -> Seq<DeviceState>
    decreases results.len(),
{
    if results.len() == 0 {
        devices
    } else {
        let rest = pinged(devices, results.drop_last());
        let (index, alive) = results.last();
        if index < rest.len() {
            rest.update(index as int, DeviceState { fe_alive: alive, ..rest[index as int] })
        } else {
            rest
        }
    }
}

/// A device is disconnected by silence if and only if it was connected, data had come from it, and
/// none has for more than a minute. The bit pattern is that of sixty.
pub proof fn silence_of_a_minute_disconnects(device: DeviceState, age: Double)
    ensures
        device.is_stale(age) <==> device.connected && !age.nan() && !device.last_data_time.nan()
            && device.last_data_time.rank() > 0 && age.rank() > (Double { bits: 0x404E_0000_0000_0000 }).rank(),
{
}

/// A reading is the newest in the buffer of its own device and in what is known of the newest ones;
/// what the buffer held before comes before it in its order, but for the one that had to leave. One
/// more is counted, from zero again behind the greatest count. The device is then connected, and no
/// other changes.
pub proof fn readings_are_taken_in(
    was: InnerState,
    now: InnerState,
    update: EpicsUpdate,
    evicted: Option<Point>,
)
    requires
        was.is_updated(now, update, evicted),
        update.device_index < was.devices@.len(),
    ensures
        ({
            let at = update.device_index as int;
            let before = was.devices@[at].buffer.held();
            let held = now.devices@[at].buffer.held();
            let reading = Point { timestamp: update.timestamp, value: update.value };
            &&& now.devices@.len() == was.devices@.len()
            &&& held.len() > 0 && held.last() == reading
            &&& now.devices@[at].buffer.recent().len() > 0
            &&& now.devices@[at].buffer.recent().last() == reading
            &&& match evicted {
                None => held.drop_last() == before && (before.len()
                    < was.devices@[at].buffer.cap() || before.len() == 0),
                Some(first) => before.len() > 0 && before.len() >= was.devices@[at].buffer.cap()
                    && first == before[0] && held.drop_last() == before.skip(1),
            }
            &&& now.devices@[at].buffer.pushed() == (was.devices@[at].buffer.pushed() + 1)
                % 0x1_0000_0000_0000_0000
            &&& now.devices@[at].buffer.cap() == was.devices@[at].buffer.cap()
            &&& now.devices@[at].connected
            &&& now.devices@[at].last_data_time == update.timestamp
            &&& now.devices@[at].current_sensitivity == was.devices@[at].current_sensitivity
        }),
        forall|i: int|
            0 <= i < was.devices@.len() && i != update.device_index ==> #[trigger] now.devices@[i]
                == was.devices@[i],
{
    let at = update.device_index as int;
    let before = was.devices@[at].buffer.held();
    let held = now.devices@[at].buffer.held();
    assert(held.drop_last() =~= if evicted is None {
        before
    } else {
        before.skip(1)
    });
}

/// The devices that are pinged are those with an address, each at its own.
pub proof fn boxes_are_the_devices_with_an_address(devices: Seq<DeviceState>, i: int)
    requires
        0 <= i < devices.len(),
    ensures
        devices[i].config.ip@.len() > 0 ==> boxes(devices).contains((i, devices[i].config.ip@)),
        forall|k: int|
            0 <= k < boxes(devices).len() && (#[trigger] boxes(devices)[k]).0 == i
                ==> devices[i].config.ip@.len() > 0 && boxes(devices)[k].1 == devices[i].config.ip@,
    decreases devices.len(),
{
    let front = devices.drop_last();
    let last = devices.len() - 1;
    let rest = boxes(front);
    let all = boxes(devices);
    lemma_box_indices(front);
    assert forall|k: int| 0 <= k < rest.len() implies all[k] == #[trigger] rest[k] by {}
    if i < last {
        boxes_are_the_devices_with_an_address(front, i);
        assert(front[i] == devices[i]);
        if devices[i].config.ip@.len() > 0 {
            let k = choose|k: int| 0 <= k < rest.len() && rest[k] == (i, devices[i].config.ip@);
            assert(all[k] == rest[k]);
        }
        assert forall|k: int| 0 <= k < all.len() && (#[trigger] all[k]).0 == i implies devices[i].config.ip@.len()
            > 0 && all[k].1 == devices[i].config.ip@ by {
            assert(all[k] == rest[k]);
        }
    } else {
        assert(devices.last() == devices[i]);
        if devices[i].config.ip@.len() > 0 {
            assert(all[rest.len() as int] == (i, devices[i].config.ip@));
        }
        assert forall|k: int| 0 <= k < all.len() && (#[trigger] all[k]).0 == i implies devices[i].config.ip@.len()
            > 0 && all[k].1 == devices[i].config.ip@ by {
            if k < rest.len() {
                assert(rest[k].0 < last);
            }
        }
    }
}

proof fn lemma_box_indices(devices: Seq<DeviceState>)
    ensures
        forall|k: int|
            0 <= k < boxes(devices).len() ==> 0 <= (#[trigger] boxes(devices)[k]).0
                < devices.len(),
    decreases devices.len(),
{
    if devices.len() > 0 {
        let rest = boxes(devices.drop_last());
        lemma_box_indices(devices.drop_last());
        assert forall|k: int| 0 <= k < boxes(devices).len() implies 0 <= (
        #[trigger] boxes(devices)[k]).0 < devices.len() by {
            if k < rest.len() {
                assert(boxes(devices)[k] == rest[k]);
            }
        }
    }
}

/// Whether a box answers is what it last answered; a device that was not pinged stays as it is, and
/// nothing else of any device changes.
pub proof fn boxes_are_as_they_last_answered(
    devices: Seq<DeviceState>,
    results: Seq<(usize, bool)>,
    i: int,
    k: int,
)
    requires
        0 <= i < devices.len(),
        -1 <= k < results.len(),
        k >= 0 ==> results[k].0 == i,
        forall|j: int| k < j < results.len() ==> (#[trigger] results[j]).0 != i,
    ensures
        pinged(devices, results).len() == devices.len(),
        pinged(devices, results)[i] == (DeviceState {
            fe_alive: if k >= 0 {
                results[k].1
            } else {
                devices[i].fe_alive
            },
            ..devices[i]
        }),
    decreases results.len(),
{
    if results.len() > 0 {
        let front = results.drop_last();
        let last = results.len() - 1;
        if k < last {
            assert(results[last].0 != i);
            boxes_are_as_they_last_answered(devices, front, i, k);
        } else {
            lemma_pinged_elsewhere(devices, front, i);
        }
        assert(results.last() == results[last]);
    }
}

proof fn lemma_pinged_elsewhere(devices: Seq<DeviceState>, results: Seq<(usize, bool)>, i: int)
    requires
        0 <= i < devices.len(),
    ensures
        pinged(devices, results).len() == devices.len(),
        pinged(devices, results)[i] == (DeviceState {
            fe_alive: pinged(devices, results)[i].fe_alive,
            ..devices[i]
        }),
    decreases results.len(),
{
    if results.len() > 0 {
        lemma_pinged_elsewhere(devices, results.drop_last(), i);
    }
}

/// The devices when the subscription of one has ended.
pub open spec fn disconnected(devices: Seq<DeviceState>, device_index: nat) -> Seq<DeviceState> {
    if device_index < devices.len() {
        devices.update(
            device_index as int,
            DeviceState { connected: false, ..devices[device_index as int] },
        )
    } else {
        devices
    }
}

/// A device whose subscription ended is no longer connected; what is known of it stays known, and no
/// other device changes.
pub proof fn ended_subscriptions_disconnect(
    devices: Seq<DeviceState>,
    device_index: nat,
    i: int,
)
    requires
        0 <= i < devices.len(),
    ensures
        disconnected(devices, device_index).len() == devices.len(),
        i == device_index ==> !disconnected(devices, device_index)[i].connected,
        i != device_index ==> disconnected(devices, device_index)[i] == devices[i],
        disconnected(devices, device_index)[i].buffer == devices[i].buffer,
        disconnected(devices, device_index)[i].last_data_time == devices[i].last_data_time,
        disconnected(devices, device_index)[i].current_sensitivity
            == devices[i].current_sensitivity,
{
}

/// What is found under a name has that name.
pub proof fn lemma_found(list: Seq<Seq<char>>, name: Seq<char>)
    ensures
        last_index(list, name) matches Some(i) ==> 0 <= i < list.len() && list[i] == name,
        last_index(list, name) is None ==> !list.contains(name),
    decreases list.len(),
{
    if list.len() > 0 && list.last() != name {
        lemma_found(list.drop_last(), name);
        if list.contains(name) {
            let k = choose|k: int| 0 <= k < list.len() && list[k] == name;
            assert(list.drop_last()[k] == name);
        }
    }
}

}
