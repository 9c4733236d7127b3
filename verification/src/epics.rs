//! Readings over Channel Access.

use vstd::prelude::*;

use crate::commands;
use crate::consts::MAX_RETRY_DELAY_SECS;
use crate::double::Double;
use crate::keys;
use crate::state::{DeviceState, InnerState};
use crate::text;

verus! {

/// A value of a process variable. Single-precision numbers are held in double precision.
#[derive(Clone, Debug)]
pub enum DbrValue {
    Enum(u16),
    String(Vec<String>),
    Char(Vec<i8>),
    Int(Vec<i16>),
    Long(Vec<i32>),
    Float(Vec<Double>),
    Double(Vec<Double>),
}

/// Whether `d` is the integer `n`.
pub open spec fn is_integer(d: Double, n: int) -> bool {
    &&& d.is_whole()
    &&& d.truncated() == n
    &&& n == 0 ==> d.bits == 0
}

/// How many numbers a value holds; none if it holds texts.
pub open spec fn number_count(value: DbrValue) -> nat {
    match value {
        DbrValue::Enum(_) => 1,
        DbrValue::String(_) => 0,
        DbrValue::Char(v) => v@.len(),
        DbrValue::Int(v) => v@.len(),
        DbrValue::Long(v) => v@.len(),
        DbrValue::Float(v) => v@.len(),
        DbrValue::Double(v) => v@.len(),
    }
}

/// Whether `d` is the `i`th number of a value.
pub open spec fn is_number(value: DbrValue, i: int, d: Double) -> bool {
    match value {
        DbrValue::Enum(n) => is_integer(d, n as int),
        DbrValue::String(_) => false,
        DbrValue::Char(v) => is_integer(d, v@[i] as int),
        DbrValue::Int(v) => is_integer(d, v@[i] as int),
        DbrValue::Long(v) => is_integer(d, v@[i] as int),
        DbrValue::Float(v) => d == v@[i],
        DbrValue::Double(v) => d == v@[i],
    }
}

fn number_at(value: &DbrValue, i: usize) -> (res: Double)
    requires
        i < number_count(*value),
    ensures
        is_number(*value, i as int, res),
{
    match value {
        DbrValue::Enum(n) => Double::from_i32(*n as i32),
        DbrValue::String(_) => Double::zero(),
        DbrValue::Char(v) => Double::from_i32(v[i] as i32),
        DbrValue::Int(v) => Double::from_i32(v[i] as i32),
        DbrValue::Long(v) => Double::from_i32(v[i]),
        DbrValue::Float(v) => v[i],
        DbrValue::Double(v) => v[i],
    }
}

fn count_numbers(value: &DbrValue) -> (res: usize)
    ensures
        res == number_count(*value),
{
    match value {
        DbrValue::Enum(_) => 1,
        DbrValue::String(_) => 0,
        DbrValue::Char(v) => v.len(),
        DbrValue::Int(v) => v.len(),
        DbrValue::Long(v) => v.len(),
        DbrValue::Float(v) => v.len(),
        DbrValue::Double(v) => v.len(),
    }
}

/// The first number of a value, if it holds any.
pub fn extract_f64(value: &DbrValue) -> (res: Option<Double>)
    ensures
        match res {
            Some(d) => number_count(*value) > 0 && is_number(*value, 0, d),
            None => number_count(*value) == 0,
        },
{
    if count_numbers(value) > 0 {
        Some(number_at(value, 0))
    } else {
        None
    }
}

/// All numbers of a value, unless it holds texts.
pub fn extract_f64_array(value: &DbrValue) -> (res: Option<Vec<Double>>)
    ensures
        match res {
            Some(list) => {
                &&& !(value is String)
                &&& list@.len() == number_count(*value)
                &&& forall|i: int| 0 <= i < list@.len() ==> is_number(*value, i, #[trigger] list@[i])
            },
            None => value is String,
        },
{
    if let DbrValue::String(_) = value {
        return None;
    }
    let n: usize = count_numbers(value);
    let mut out: Vec<Double> = Vec::new();
    let mut i: usize = 0;
    while i < n
        invariant
            i <= n,
            n == number_count(*value),
            out@.len() == i,
            forall|k: int| 0 <= k < i ==> is_number(*value, k, #[trigger] out@[k]),
        decreases n - i,
    {
        out.push(number_at(value, i));
        i += 1;
    }
    Some(out)
}

/// The process variables that charge is read from, with the indices of their devices.
pub open spec fn charge_pvs(devices: Seq<DeviceState>) -> Seq<(int, Seq<char>)>
    decreases devices.len(),
{
    if devices.len() == 0 {
        Seq::empty()
    } else {
        let rest = charge_pvs(devices.drop_last());
        match commands::pv_of(devices.last().config, keys::CHARGE@) {
            Some(pv) => rest.push((devices.len() - 1, pv)),
            None => rest,
        }
    }
}

/// The process variables to subscribe to, with the indices of their devices.
pub fn subscriptions(state: &InnerState) -> (res: Vec<(usize, String)>)
    ensures
        res@.map_values(|t: (usize, String)| (t.0 as int, t.1@)) == charge_pvs(state.devices@),
{
    let mut out: Vec<(usize, String)> = Vec::new();
    let ghost f = |t: (usize, String)| (t.0 as int, t.1@);
    let ghost all = state.devices@;
    let mut i: usize = 0;
    assert(out@.map_values(f) =~= charge_pvs(all.take(0)));
    while i < state.devices.len()
        invariant
            i <= all.len(),
            all == state.devices@,
            f == |t: (usize, String)| (t.0 as int, t.1@),
            out@.map_values(f) == charge_pvs(all.take(i as int)),
        decreases all.len() - i,
    {
        let ghost before = out@;
        assert(all.take(i as int + 1).drop_last() =~= all.take(i as int));
        if let Some(pv) = state.devices[i].config.pvs.get(keys::CHARGE) {
            out.push((i, pv.clone()));
            assert(out@.map_values(f) =~= before.map_values(f).push((i as int, pv@)));
        }
        i += 1;
    }
    assert(all.take(i as int) =~= all);
    out
}

/// How long the first connection of a device is put off, in milliseconds, so that not all are
/// made at once.
pub fn first_delay_ms(device_index: usize) -> (res: u64)
    ensures
        res == (device_index * 200) % 1000,
{
    let step: u64 = (device_index % 5) as u64;
    assert((device_index * 200) % 1000 == (device_index % 5) * 200) by (nonlinear_arith);
    step * 200
}

/// The delay before the attempt after the next to connect again: twice the next one, up to a
/// limit.
pub open spec fn doubled(delay: int) -> int {
    if 2 * delay <= MAX_RETRY_DELAY_SECS {
        2 * delay
    } else {
        MAX_RETRY_DELAY_SECS as int
    }
}

/// The delay before the attempt after the next to connect again, in seconds.
pub fn next_delay(delay: u64) -> (res: u64)
    ensures
        res == doubled(delay as int),
{
    if delay <= MAX_RETRY_DELAY_SECS / 2 {
        2 * delay
    } else {
        MAX_RETRY_DELAY_SECS
    }
}

/// Delays between attempts grow until they reach the limit, and stay there.
pub proof fn delays_grow_to_limit(delay: int)
    requires
        0 < delay <= MAX_RETRY_DELAY_SECS,
    ensures
        delay <= doubled(delay) <= MAX_RETRY_DELAY_SECS,
        delay < doubled(delay) || delay == MAX_RETRY_DELAY_SECS,
{
}

/// Waveforms that are being collected.
#[derive(Clone, Debug)]
pub struct WaveformCollector {
    count: usize,
    waveforms: Vec<Vec<Double>>,
}

impl WaveformCollector {
    pub closed spec fn wanted(self) -> nat {
        self.count as nat
    }

    pub closed spec fn collected(self) -> Seq<Vec<Double>> {
        self.waveforms@
    }

    pub fn new(count: usize) -> (res: WaveformCollector)
        ensures
            res.wanted() == count,
            res.collected().len() == 0,
    {
        WaveformCollector { count, waveforms: Vec::new() }
    }

    /// Whether there are enough.
    pub fn is_done(&self) -> (res: bool)
        ensures
            res == (self.collected().len() >= self.wanted()),
    {
        self.waveforms.len() >= self.count
    }

    /// Takes a value. One that holds texts is no waveform.
    pub fn take(&mut self, value: &DbrValue)
        ensures
            final(self).wanted() == old(self).wanted(),
            if value is String {
                final(self).collected() == old(self).collected()
            } else {
                let last = final(self).collected().last()@;
                &&& final(self).collected().len() == old(self).collected().len() + 1
                &&& final(self).collected().drop_last() == old(self).collected()
                &&& last.len() == number_count(*value)
                &&& forall|i: int|
                    0 <= i < last.len() ==> is_number(*value, i, #[trigger] last[i])
            },
    {
        if let Some(list) = extract_f64_array(value) {
            self.waveforms.push(list);
            assert(self.waveforms@.drop_last() =~= old(self).waveforms@);
        }
    }

    /// The waveforms.
    pub fn finish(self) -> (res: Vec<Vec<Double>>)
        ensures
            res@ == self.collected(),
    {
        self.waveforms
    }
}

/// The error when waveforms did not come in time.
pub fn waveforms_late(count: usize, pv: &str) -> (res: String)
    ensures
        res@ == "timed out collecting "@ + text::decimal(count as nat) + " waveforms from "@ + pv@,
{
    text::cat4(
        "timed out collecting ",
        text::decimal_text(count as u64).as_str(),
        " waveforms from ",
        pv,
    )
}

/// What came of writing a process variable.
#[derive(Clone, Debug)]
pub enum WriteOutcome {
    Written,
    /// The connection could not be made in time.
    NoClient,
    /// The connection could not be made for another reason.
    ClientFailed(String),
    Failed(String),
    TimedOut,
}

/// What a write comes to, and whether the connection is to be given up, so that the next write
/// makes a new one.
pub fn write_result(pv: &str, outcome: WriteOutcome) -> (res: (Result<(), String>, bool))
    ensures
        match (outcome, res.0) {
            (WriteOutcome::Written, Ok(_)) => !res.1,
            (WriteOutcome::NoClient, Err(e)) => res.1 && e@
                == "timeout creating CA client to write "@ + pv@,
            (WriteOutcome::ClientFailed(cause), Err(e)) => res.1 && e@ == cause@,
            (WriteOutcome::Failed(cause), Err(e)) => res.1 && e@ == "failed to write "@ + pv@
                + ": "@ + cause@,
            (WriteOutcome::TimedOut, Err(e)) => res.1 && e@ == "timeout writing "@ + pv@,
            _ => false,
        },
{
    match outcome {
        WriteOutcome::Written => (Ok(()), false),
        WriteOutcome::NoClient => (
            Err(text::cat2("timeout creating CA client to write ", pv)),
            true,
        ),
        WriteOutcome::ClientFailed(cause) => (Err(cause), true),
        WriteOutcome::Failed(cause) => (
            Err(text::cat4("failed to write ", pv, ": ", cause.as_str())),
            true,
        ),
        WriteOutcome::TimedOut => (Err(text::cat2("timeout writing ", pv)), true),
    }
}

/// Charge is read of every device that has a process variable for it, and of no other.
pub proof fn charge_is_read_of_every_device(devices: Seq<DeviceState>, i: int)
    requires
        0 <= i < devices.len(),
    ensures
        devices[i].config.pvs@.contains_key("charge"@) ==> charge_pvs(devices).contains(
            (i, devices[i].config.pvs@["charge"@]@),
        ),
        forall|k: int|
            0 <= k < charge_pvs(devices).len() && (#[trigger] charge_pvs(devices)[k]).0 == i
                ==> devices[i].config.pvs@.contains_key("charge"@) && charge_pvs(devices)[k].1
                == devices[i].config.pvs@["charge"@]@,
    decreases devices.len(),
{
    let front = devices.drop_last();
    let last = devices.len() - 1;
    let rest = charge_pvs(front);
    let all = charge_pvs(devices);
    lemma_charge_indices(front);
    assert forall|k: int| 0 <= k < rest.len() implies all[k] == #[trigger] rest[k] by {}
    if i < last {
        charge_is_read_of_every_device(front, i);
        assert(front[i] == devices[i]);
        if devices[i].config.pvs@.contains_key("charge"@) {
            let item = (i, devices[i].config.pvs@["charge"@]@);
            let k = choose|k: int| 0 <= k < rest.len() && rest[k] == item;
            assert(all[k] == rest[k]);
        }
        assert forall|k: int| 0 <= k < all.len() && (#[trigger] all[k]).0 == i implies devices[i].config.pvs@.contains_key(
            "charge"@,
        ) && all[k].1 == devices[i].config.pvs@["charge"@]@ by {
            assert(all[k] == rest[k]);
        }
    } else {
        assert(devices.last() == devices[i]);
        if devices[i].config.pvs@.contains_key("charge"@) {
            assert(all[rest.len() as int] == (i, devices[i].config.pvs@["charge"@]@));
        }
        assert forall|k: int| 0 <= k < all.len() && (#[trigger] all[k]).0 == i implies devices[i].config.pvs@.contains_key(
            "charge"@,
        ) && all[k].1 == devices[i].config.pvs@["charge"@]@ by {
            if k < rest.len() {
                assert(rest[k].0 < last);
            }
        }
    }
}

proof fn lemma_charge_indices(devices: Seq<DeviceState>)
    ensures
        forall|k: int|
            0 <= k < charge_pvs(devices).len() ==> 0 <= (#[trigger] charge_pvs(devices)[k]).0
                < devices.len(),
    decreases devices.len(),
{
    if devices.len() > 0 {
        let rest = charge_pvs(devices.drop_last());
        lemma_charge_indices(devices.drop_last());
        assert forall|k: int| 0 <= k < charge_pvs(devices).len() implies 0 <= (
        #[trigger] charge_pvs(devices)[k]).0 < devices.len() by {
            if k < rest.len() {
                assert(charge_pvs(devices)[k] == rest[k]);
            }
        }
    }
}

/// Each delay before a lost connection is tried again is twice the one before, but at most a minute.
pub proof fn delays_double_up_to_a_minute(delay: int)
    requires
        0 < delay,
    ensures
        doubled(delay) == vstd::math::min(2 * delay, 60),
{
}

}
