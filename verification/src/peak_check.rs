//! Checking that the peak window of a device brackets its pulse.
//!
//! The window is checked when it is first read, and whenever it has changed. A window that
//! misses the pulse means that charge is integrated in the wrong place. Without a clear pulse
//! nothing is judged, and the check is tried again.

use vstd::prelude::*;

use crate::commands;
use crate::commands::{notify, Effect, EffectView};
use crate::double::Double;
use crate::keys;
use crate::messages::{DeviceType, NotificationLevel, ServerMessage, ServerMessageView};
use crate::state::{DeviceState, InnerState};
use crate::sweep;
use crate::sweep::{find_peak, mean_peak_index, MeanIndex};
use crate::text;

verus! {

/// The time between two readings of a window, in seconds.
pub const POLL_INTERVAL_SECS: u64 = 30;

/// How long reading a bound of a window may take, in seconds.
pub const CAGET_TIMEOUT_SECS: u64 = 5;

/// How many waveforms are averaged.
pub const CHECK_WAVEFORMS: usize = 10;

/// How long collecting them may take, in milliseconds.
pub const CHECK_TIMEOUT_MS: u64 = 20000;

/// What part of a waveform may lie between two high samples of one pulse.
pub const PULSE_BREAK_PART: usize = 40;

/// A device whose window can be checked.
#[derive(Clone, Debug)]
pub struct Target {
    pub index: usize,
    pub name: String,
    pub digitizer: String,
    pub low_pv: String,
    pub high_pv: String,
    /// Whether the pulse goes up.
    pub find_max: bool,
}

#[verifier::ext_equal]
pub struct TargetView {
    pub index: int,
    pub name: Seq<char>,
    pub digitizer: Seq<char>,
    pub low_pv: Seq<char>,
    pub high_pv: Seq<char>,
    pub find_max: bool,
}

impl View for Target {
    type V = TargetView;

    open spec fn view(&self) -> TargetView {
        TargetView {
            index: self.index as int,
            name: self.name@,
            digitizer: self.digitizer@,
            low_pv: self.low_pv@,
            high_pv: self.high_pv@,
            find_max: self.find_max,
        }
    }
}

/// The check of a device, if it has a single pulse and a window for it: that of a wall current
/// monitor goes up, that of a Faraday cup goes down.
pub open spec fn target(device: DeviceState, index: int) -> Option<TargetView> {
    let config = device.config;
    match (commands::pv_of(config, keys::PEAK_LOW@), commands::pv_of(config, keys::PEAK_HIGH@)) {
        (Some(low_pv), Some(high_pv)) => if config.device_type == DeviceType::Wcm
            || config.device_type == DeviceType::Fcup {
            Some(
                TargetView {
                    index,
                    name: device.name@,
                    digitizer: config.digitizer@,
                    low_pv,
                    high_pv,
                    find_max: config.device_type == DeviceType::Wcm,
                },
            )
        } else {
            None
        },
        _ => None,
    }
}

/// The checks of the devices.
pub open spec fn targets(devices: Seq<DeviceState>) -> Seq<TargetView>
    decreases devices.len(),
{
    if devices.len() == 0 {
        Seq::empty()
    } else {
        let rest = targets(devices.drop_last());
        match target(devices.last(), devices.len() - 1) {
            Some(t) => rest.push(t),
            None => rest,
        }
    }
}

/// What a list of checks comes to.
pub open spec fn target_views(list: Seq<Target>) -> Seq<TargetView> {
    list.map_values(|t: Target| t@)
}

fn check_of(device: &DeviceState, index: usize) -> (res: Option<Target>)
    ensures
        match res {
            Some(t) => target(*device, index as int) == Some(t@),
            None => target(*device, index as int) is None,
        },
{
    let config = &device.config;
    let find_max = match config.device_type {
        DeviceType::Wcm => true,
        DeviceType::Fcup => false,
        _ => {
            return None;
        },
    };
    match (commands::pv_text(config, keys::PEAK_LOW), commands::pv_text(config, keys::PEAK_HIGH)) {
        (Some(low_pv), Some(high_pv)) => Some(
            Target {
                index,
                name: device.name.clone(),
                digitizer: config.digitizer.clone(),
                low_pv,
                high_pv,
                find_max,
            },
        ),
        _ => None,
    }
}

/// The checks to run.
pub fn peak_targets(state: &InnerState) -> (res: Vec<Target>)
    ensures
        target_views(res@) == targets(state.devices@),
{
    let mut out: Vec<Target> = Vec::new();
    let ghost all = state.devices@;
    let mut i: usize = 0;
    assert(target_views(out@) =~= targets(all.take(0)));
    while i < state.devices.len()
        invariant
            i <= all.len(),
            all == state.devices@,
            target_views(out@) == targets(all.take(i as int)),
        decreases all.len() - i,
    {
        let ghost before = target_views(out@);
        assert(all.take(i as int + 1).drop_last() =~= all.take(i as int));
        if let Some(t) = check_of(&state.devices[i], i) {
            let ghost added = t@;
            out.push(t);
            assert(target_views(out@) =~= before.push(added));
        }
        i += 1;
    }
    assert(all.take(i as int) =~= all);
    out
}

/// How far apart two neighbouring high samples of one pulse may be in a waveform of a length.
pub open spec fn pulse_break(len: nat) -> int {
    if len < PULSE_BREAK_PART {
        1
    } else {
        len as int / PULSE_BREAK_PART as int
    }
}

/// The value at the peak of a waveform.
pub open spec fn peak_sample(samples: Seq<Double>, find_max: bool) -> Double {
    samples[sweep::peak_index(samples, find_max)]
}

/// Whether a sample is high: the peak of some waveform is not beyond it.
pub open spec fn is_high(sample: Double, waveforms: Seq<Vec<Double>>, find_max: bool) -> bool {
    exists|k: int|
        0 <= k < waveforms.len() && (#[trigger] waveforms[k])@.len() > 0 && !sweep::is_better(
            peak_sample(waveforms[k]@, find_max),
            sample,
            find_max,
        )
}

/// Whether the peak of a waveform is beyond some sample of it, so that it is not flat.
pub open spec fn is_uneven(samples: Seq<Double>, find_max: bool) -> bool {
    exists|i: int|
        0 <= i < samples.len() && sweep::is_better(
            peak_sample(samples, find_max),
            #[trigger] samples[i],
            find_max,
        )
}

/// Whether the high samples of a waveform are in one place: there is another one between any two
/// that are further apart than the samples of one pulse may be.
pub open spec fn in_one_place(
    samples: Seq<Double>,
    waveforms: Seq<Vec<Double>>,
    find_max: bool,
) -> bool {
    forall|i: int, j: int|
        0 <= i && i + pulse_break(samples.len()) < j && j < samples.len() && is_high(
            #[trigger] samples[i],
            waveforms,
            find_max,
        ) && is_high(#[trigger] samples[j], waveforms, find_max) ==> exists|m: int|
            i < m < j && is_high(#[trigger] samples[m], waveforms, find_max)
}

/// Whether waveforms show a clear pulse: there is data, and every waveform that is not empty is
/// uneven and has its high samples in one place, however wide that is. In noise the highest samples
/// of one waveform are scattered, and beyond the peaks of others.
pub open spec fn is_clear_pulse(waveforms: Seq<Vec<Double>>, find_max: bool) -> bool {
    &&& sweep::usable(waveforms) > 0
    &&& forall|k: int|
        0 <= k < waveforms.len() && (#[trigger] waveforms[k])@.len() > 0 ==> is_uneven(
            waveforms[k]@,
            find_max,
        ) && in_one_place(waveforms[k]@, waveforms, find_max)
}

/// A flat waveform is never judged: where one waveform has the same value throughout, there is no
/// clear pulse.
pub proof fn flat_waveform_is_no_pulse(waveforms: Seq<Vec<Double>>, find_max: bool, k: int)
    requires
        0 <= k < waveforms.len(),
        waveforms[k]@.len() > 0,
        forall|i: int, j: int|
            0 <= i < waveforms[k]@.len() && 0 <= j < waveforms[k]@.len()
                ==> #[trigger] waveforms[k]@[i] == #[trigger] waveforms[k]@[j],
    ensures
        !is_clear_pulse(waveforms, find_max),
{
    let samples = waveforms[k]@;
    sweep::peak_is_in_range(samples, find_max);
    let peak = peak_sample(samples, find_max);
    assert forall|i: int| 0 <= i < samples.len() implies !sweep::is_better(
        peak,
        #[trigger] samples[i],
        find_max,
    ) by {
        assert(samples[sweep::peak_index(samples, find_max)] == samples[i]);
    }
    assert(!is_uneven(samples, find_max));
}

/// Waveforms in which two high samples are far apart, with none between them, show no clear pulse.
pub proof fn scattered_heights_are_no_pulse(
    waveforms: Seq<Vec<Double>>,
    find_max: bool,
    k: int,
    i: int,
    j: int,
)
    requires
        0 <= k < waveforms.len(),
        0 <= i,
        i + pulse_break(waveforms[k]@.len()) < j < waveforms[k]@.len(),
        is_high(waveforms[k]@[i], waveforms, find_max),
        is_high(waveforms[k]@[j], waveforms, find_max),
        forall|m: int| i < m < j ==> !is_high(#[trigger] waveforms[k]@[m], waveforms, find_max),
    ensures
        !is_clear_pulse(waveforms, find_max),
{
    assert(!in_one_place(waveforms[k]@, waveforms, find_max));
}

/// A pulse may be of any width and flat on its top: waveforms whose high samples are one run each,
/// with something lower beside it, show a clear pulse.
pub proof fn one_run_is_a_clear_pulse(
    waveforms: Seq<Vec<Double>>,
    find_max: bool,
    runs: Seq<(int, int)>,
)
    requires
        sweep::usable(waveforms) > 0,
        runs.len() == waveforms.len(),
        forall|k: int, i: int|
            0 <= k < waveforms.len() && 0 <= i < waveforms[k]@.len() ==> (is_high(
                #[trigger] waveforms[k]@[i],
                waveforms,
                find_max,
            ) <==> runs[k].0 <= i <= runs[k].1),
        forall|k: int|
            0 <= k < waveforms.len() && (#[trigger] waveforms[k])@.len() > 0 ==> 0 < runs[k].0
                || runs[k].1 < waveforms[k]@.len() - 1,
    ensures
        is_clear_pulse(waveforms, find_max),
{
    assert forall|k: int| 0 <= k < waveforms.len() && (#[trigger] waveforms[k])@.len() > 0 implies is_uneven(
        waveforms[k]@,
        find_max,
    ) && in_one_place(waveforms[k]@, waveforms, find_max) by {
        let samples = waveforms[k]@;
        let (low, high) = runs[k];
        let beside = if 0 < low {
            0int
        } else {
            samples.len() - 1
        };
        assert(!is_high(waveforms[k]@[beside], waveforms, find_max));
        assert(sweep::is_better(peak_sample(samples, find_max), samples[beside], find_max));
        assert forall|i: int, j: int|
            0 <= i && i + pulse_break(samples.len()) < j && j < samples.len() && is_high(
                #[trigger] samples[i],
                waveforms,
                find_max,
            ) && is_high(#[trigger] samples[j], waveforms, find_max) implies exists|m: int|
            i < m < j && is_high(#[trigger] samples[m], waveforms, find_max) by {
            lemma_break(samples.len());
            assert(is_high(waveforms[k]@[i], waveforms, find_max));
            assert(is_high(waveforms[k]@[j], waveforms, find_max));
            assert(is_high(waveforms[k]@[i + 1], waveforms, find_max));
            assert(is_high(samples[i + 1], waveforms, find_max));
        }
    }
}

proof fn lemma_break(len: nat)
    ensures
        1 <= pulse_break(len),
{
    if len >= PULSE_BREAK_PART {
        assert(len as int / PULSE_BREAK_PART as int >= 1);
    }
}

fn better(sample: Double, best: Double, find_max: bool) -> (res: bool)
    ensures
        res == sweep::is_better(sample, best, find_max),
{
    if find_max {
        best.lt(sample)
    } else {
        sample.lt(best)
    }
}

/// Whether a value is the peak of some waveform.
spec fn is_some_peak(value: Double, waveforms: Seq<Vec<Double>>, find_max: bool) -> bool {
    exists|k: int|
        0 <= k < waveforms.len() && (#[trigger] waveforms[k])@.len() > 0 && peak_sample(
            waveforms[k]@,
            find_max,
        ) == value
}

/// Whether these are the peaks of the waveforms that are not empty.
spec fn are_peaks(peaks: Seq<Double>, waveforms: Seq<Vec<Double>>, find_max: bool) -> bool {
    &&& forall|k: int|
        0 <= k < waveforms.len() && (#[trigger] waveforms[k])@.len() > 0 ==> peaks.contains(
            peak_sample(waveforms[k]@, find_max),
        )
    &&& forall|j: int|
        0 <= j < peaks.len() ==> is_some_peak(#[trigger] peaks[j], waveforms, find_max)
}

fn peaks_of(waveforms: &Vec<Vec<Double>>, find_max: bool) -> (res: Vec<Double>)
    ensures
        are_peaks(res@, waveforms@, find_max),
{
    let mut peaks: Vec<Double> = Vec::new();
    let mut i: usize = 0;
    while i < waveforms.len()
        invariant
            i <= waveforms@.len(),
            forall|k: int|
                0 <= k < i && (#[trigger] waveforms@[k])@.len() > 0 ==> peaks@.contains(
                    peak_sample(waveforms@[k]@, find_max),
                ),
            forall|j: int|
                0 <= j < peaks@.len() ==> is_some_peak(#[trigger] peaks@[j], waveforms@, find_max),
        decreases waveforms@.len() - i,
    {
        if waveforms[i].len() > 0 {
            let ghost before = peaks@;
            peaks.push(waveforms[i][find_peak(&waveforms[i], find_max)]);
            proof {
                assert(peaks@[before.len() as int] == peak_sample(waveforms@[i as int]@, find_max));
                assert forall|d: Double| #[trigger] before.contains(d) implies peaks@.contains(
                    d,
                ) by {
                    let j = choose|j: int| 0 <= j < before.len() && before[j] == d;
                    assert(peaks@[j] == d);
                }
                assert(waveforms@[i as int]@.len() > 0);
                assert(is_some_peak(peaks@[before.len() as int], waveforms@, find_max));
                assert forall|j: int| 0 <= j < peaks@.len() implies is_some_peak(
                    #[trigger] peaks@[j],
                    waveforms@,
                    find_max,
                ) by {
                    if j < before.len() {
                        assert(peaks@[j] == before[j]);
                    }
                }
            }
        }
        i += 1;
    }
    peaks
}

fn high(
    sample: Double,
    peaks: &Vec<Double>,
    waveforms: &Vec<Vec<Double>>,
    find_max: bool,
) -> (res: bool)
    requires
        are_peaks(peaks@, waveforms@, find_max),
    ensures
        res == is_high(sample, waveforms@, find_max),
{
    let mut j: usize = 0;
    while j < peaks.len()
        invariant
            j <= peaks@.len(),
            are_peaks(peaks@, waveforms@, find_max),
            forall|n: int|
                0 <= n < j ==> sweep::is_better(#[trigger] peaks@[n], sample, find_max),
        decreases peaks@.len() - j,
    {
        if !better(peaks[j], sample, find_max) {
            assert(is_some_peak(peaks@[j as int], waveforms@, find_max));
            return true;
        }
        j += 1;
    }
    false
}

fn uneven(samples: &Vec<Double>, find_max: bool) -> (res: bool)
    requires
        samples@.len() > 0,
    ensures
        res == is_uneven(samples@, find_max),
{
    let peak: Double = samples[find_peak(samples, find_max)];
    let mut i: usize = 0;
    while i < samples.len()
        invariant
            i <= samples@.len(),
            peak == peak_sample(samples@, find_max),
            forall|j: int|
                0 <= j < i ==> !sweep::is_better(peak, #[trigger] samples@[j], find_max),
        decreases samples@.len() - i,
    {
        if better(peak, samples[i], find_max) {
            return true;
        }
        i += 1;
    }
    false
}

fn one_place(
    samples: &Vec<Double>,
    peaks: &Vec<Double>,
    waveforms: &Vec<Vec<Double>>,
    find_max: bool,
) -> (res: bool)
    requires
        are_peaks(peaks@, waveforms@, find_max),
    ensures
        res == in_one_place(samples@, waveforms@, find_max),
{
    let gap: usize = if samples.len() < PULSE_BREAK_PART {
        1
    } else {
        samples.len() / PULSE_BREAK_PART
    };
    let mut last: Option<usize> = None;
    let mut i: usize = 0;
    while i < samples.len()
        invariant
            i <= samples@.len(),
            gap == pulse_break(samples@.len()),
            are_peaks(peaks@, waveforms@, find_max),
            match last {
                Some(l) => {
                    &&& l < i
                    &&& is_high(samples@[l as int], waveforms@, find_max)
                    &&& forall|m: int|
                        l < m < i ==> !is_high(#[trigger] samples@[m], waveforms@, find_max)
                },
                None => forall|m: int|
                    0 <= m < i ==> !is_high(#[trigger] samples@[m], waveforms@, find_max),
            },
            forall|a: int, b: int|
                0 <= a && a + gap < b && b < i && is_high(
                    #[trigger] samples@[a],
                    waveforms@,
                    find_max,
                ) && is_high(#[trigger] samples@[b], waveforms@, find_max) ==> exists|m: int|
                    a < m < b && is_high(#[trigger] samples@[m], waveforms@, find_max),
        decreases samples@.len() - i,
    {
        if high(samples[i], peaks, waveforms, find_max) {
            if let Some(l) = last {
                if i - l > gap {
                    assert(is_high(samples@[i as int], waveforms@, find_max));
                    return false;
                }
                assert forall|a: int|
                    0 <= a && a + gap < i && is_high(
                        #[trigger] samples@[a],
                        waveforms@,
                        find_max,
                    ) implies exists|m: int|
                    a < m < i && is_high(#[trigger] samples@[m], waveforms@, find_max) by {
                    assert(a < l && is_high(samples@[l as int], waveforms@, find_max));
                }
            }
            last = Some(i);
        }
        i += 1;
    }
    true
}

proof fn lemma_usable(waveforms: Seq<Vec<Double>>)
    ensures
        sweep::usable(waveforms) > 0 <==> exists|i: int|
            0 <= i < waveforms.len() && (#[trigger] waveforms[i])@.len() > 0,
    decreases waveforms.len(),
{
    if waveforms.len() > 0 {
        let front = waveforms.drop_last();
        lemma_usable(front);
        if sweep::usable(front) > 0 {
            let i = choose|i: int| 0 <= i < front.len() && (#[trigger] front[i])@.len() > 0;
            assert(waveforms[i]@.len() > 0);
        }
        if waveforms.last()@.len() > 0 {
            assert(waveforms[waveforms.len() - 1]@.len() > 0);
        }
        if exists|i: int| 0 <= i < waveforms.len() && (#[trigger] waveforms[i])@.len() > 0 {
            let i = choose|i: int| 0 <= i < waveforms.len() && (#[trigger] waveforms[i])@.len() > 0;
            if i < front.len() {
                assert(front[i]@.len() > 0);
            }
        }
    }
}

/// Whether waveforms show a clear pulse.
pub fn has_clear_pulse(waveforms: &Vec<Vec<Double>>, find_max: bool) -> (res: bool)
    ensures
        res == is_clear_pulse(waveforms@, find_max),
{
    let peaks = peaks_of(waveforms, find_max);
    let mut some = false;
    let mut i: usize = 0;
    proof {
        lemma_usable(waveforms@);
    }
    while i < waveforms.len()
        invariant
            i <= waveforms@.len(),
            are_peaks(peaks@, waveforms@, find_max),
            some == (exists|k: int| 0 <= k < i && (#[trigger] waveforms@[k])@.len() > 0),
            forall|k: int|
                0 <= k < i && (#[trigger] waveforms@[k])@.len() > 0 ==> is_uneven(
                    waveforms@[k]@,
                    find_max,
                ) && in_one_place(waveforms@[k]@, waveforms@, find_max),
        decreases waveforms@.len() - i,
    {
        if waveforms[i].len() > 0 {
            if !uneven(&waveforms[i], find_max) || !one_place(
                &waveforms[i],
                &peaks,
                waveforms,
                find_max,
            ) {
                assert(waveforms@[i as int]@.len() > 0);
                return false;
            }
            some = true;
            assert(waveforms@[i as int]@.len() > 0);
        }
        i += 1;
    }
    some
}

/// A check that goes on and on.
#[derive(Clone, Debug)]
pub struct PeakCheck {
    pub target: Target,
    /// The window that was checked last.
    pub last_checked: Option<(Double, Double)>,
}

/// Whether a window was checked already.
pub open spec fn was_checked(last: Option<(Double, Double)>, low: Double, high: Double) -> bool {
    match last {
        Some((l, h)) => l.equals(low) && h.equals(high),
        None => false,
    }
}

/// Whether a peak lies outside a window.
pub open spec fn is_outside(peak: Double, low: Double, high: Double) -> bool {
    peak.below(low) || high.below(peak)
}

/// The message about a window that misses the pulse; the numbers are in words.
pub open spec fn misalignment(
    name: Seq<char>,
    peak: Seq<char>,
    low: Seq<char>,
    high: Seq<char>,
) -> Seq<char> {
    "Peak window misaligned for "@ + name + ": digitizer peak at sample "@ + peak + ", window ["@
        + low + ", "@ + high + "] — run Sweep Timing"@
}

/// What it comes to that a peak was found inside or outside the window of a device. The
/// operators are told only of a change.
pub open spec fn alignment_set(
    was: InnerState,
    now: InnerState,
    index: int,
    name: Seq<char>,
    misaligned: bool,
    message: Seq<char>,
    told: Seq<EffectView>,
) -> bool {
    &&& now == (InnerState { devices: now.devices, ..was })
    &&& if index < was.devices@.len() && was.devices@[index].peak_misaligned != misaligned {
        let update = EffectView::Send(
            ServerMessageView::PeakAlignment { device: name, misaligned },
        );
        &&& now.devices@ == was.devices@.update(
            index,
            (DeviceState { peak_misaligned: misaligned, ..was.devices@[index] }),
        )
        &&& told == (if misaligned {
            seq![update, commands::notice(NotificationLevel::Warning, message, name)]
        } else {
            seq![update]
        })
    } else {
        now.devices@ == was.devices@ && told == Seq::<EffectView>::empty()
    }
}

/// What judging the window of a device comes to. `words` are the index of the pulse and the bounds
/// of the window in words.
pub open spec fn is_judged(
    was: InnerState,
    now: InnerState,
    target: Target,
    low: Double,
    high: Double,
    peak: Double,
    words: (Seq<char>, Seq<char>, Seq<char>),
    told: Seq<EffectView>,
) -> bool {
    alignment_set(
        was,
        now,
        target.index as int,
        target.name@,
        is_outside(peak, low, high),
        misalignment(target.name@, words.0, words.1, words.2),
        told,
    )
}

impl PeakCheck {
    pub fn new(target: Target) -> (res: PeakCheck)
        ensures
            res.target == target,
            res.last_checked is None,
    {
        PeakCheck { target, last_checked: None }
    }

    /// Whether the window as it was just read is to be checked.
    pub fn is_due(&self, low: Double, high: Double) -> (res: bool)
        ensures
            res == !was_checked(self.last_checked, low, high),
    {
        match self.last_checked {
            Some((l, h)) => !(l.same_value(low) && h.same_value(high)),
            None => true,
        }
    }

    /// Where the pulse is in the waveforms that were collected, if there is a clear one.
    pub fn locate(&self, waveforms: &Vec<Vec<Double>>) -> (res: Option<MeanIndex>)
        ensures
            match res {
                Some(mean) => {
                    &&& is_clear_pulse(waveforms@, self.target.find_max)
                    &&& sweep::is_mean_peak(waveforms@, self.target.find_max, mean)
                },
                None => !is_clear_pulse(waveforms@, self.target.find_max),
            },
    {
        if !has_clear_pulse(waveforms, self.target.find_max) {
            return None;
        }
        mean_peak_index(waveforms, self.target.find_max)
    }

    /// Judges a window by the mean index of the pulse. `words` are that index and the bounds of
    /// the window in words.
    pub fn judge(
        &mut self,
        low: Double,
        high: Double,
        peak: Double,
        words: (&str, &str, &str),
        state: &mut InnerState,
    ) -> (res: Vec<Effect>)
        requires
            old(state).wf(),
        ensures
            final(state).wf(),
            final(self).target == old(self).target,
            final(self).last_checked == Some((low, high)),
            is_judged(
                *old(state),
                *final(state),
                old(self).target,
                low,
                high,
                peak,
                (words.0@, words.1@, words.2@),
                commands::effects(res@),
            ),
    {
        self.last_checked = Some((low, high));
        let misaligned = peak.lt(low) || high.lt(peak);
        let mut out: Vec<Effect> = Vec::new();
        assert(commands::effects(out@) =~= Seq::<EffectView>::empty());
        let index: usize = self.target.index;
        if index >= state.devices.len() || state.devices[index].peak_misaligned == misaligned {
            return out;
        }
        state.devices[index].peak_misaligned = misaligned;
        let name = self.target.name.as_str();
        let update = Effect::Send(
            ServerMessage::PeakAlignment { device: name.to_string(), misaligned },
        );
        let ghost told = update@;
        out.push(update);
        assert(commands::effects(out@) =~= seq![told]);
        if misaligned {
            let head = text::cat5(
                "Peak window misaligned for ",
                name,
                ": digitizer peak at sample ",
                words.0,
                ", window [",
            );
            let warning = notify(
                NotificationLevel::Warning,
                text::cat5(
                    head.as_str(),
                    words.1,
                    ", ",
                    words.2,
                    "] — run Sweep Timing",
                ),
                name,
            );
            let ghost warned = warning@;
            out.push(warning);
            assert(commands::effects(out@) =~= seq![told, warned]);
        }
        out
    }
}

/// A window that was judged is not due again until it changes.
pub proof fn judged_window_is_not_due(low: Double, high: Double)
    requires
        !low.nan(),
        !high.nan(),
    ensures
        was_checked(Some((low, high)), low, high),
{
}

/// A device that was judged is flagged if and only if its window does not bracket the pulse,
/// whether the pulse lies before the window or after it. A bound that is no number bounds nothing. No
/// other device changes, nor anything else of it.
pub proof fn window_is_flagged_unless_it_brackets_the_pulse(
    was: InnerState,
    now: InnerState,
    target: Target,
    low: Double,
    high: Double,
    peak: Double,
    words: (Seq<char>, Seq<char>, Seq<char>),
    told: Seq<EffectView>,
)
    requires
        is_judged(was, now, target, low, high, peak, words, told),
        target.index < was.devices@.len(),
    ensures
        now.devices@.len() == was.devices@.len(),
        !low.nan() && !high.nan() && !peak.nan() ==> (
        now.devices@[target.index as int].peak_misaligned <==> !(low.rank() <= peak.rank()
            <= high.rank())),
        now.devices@[target.index as int].peak_misaligned <==> !peak.nan() && ((!low.nan()
            && peak.rank() < low.rank()) || (!high.nan() && high.rank() < peak.rank())),
        now.devices@[target.index as int] == (DeviceState {
            peak_misaligned: now.devices@[target.index as int].peak_misaligned,
            ..was.devices@[target.index as int]
        }),
        forall|i: int|
            0 <= i < was.devices@.len() && i != target.index ==> #[trigger] now.devices@[i]
                == was.devices@[i],
{
}

/// The operators hear of a window when its flag changes and only then. All clients are told how it
/// is now; a warning comes with it when the window has come to miss the pulse.
pub proof fn changes_of_alignment_are_told(
    was: InnerState,
    now: InnerState,
    target: Target,
    low: Double,
    high: Double,
    peak: Double,
    words: (Seq<char>, Seq<char>, Seq<char>),
    told: Seq<EffectView>,
)
    requires
        is_judged(was, now, target, low, high, peak, words, told),
        target.index < was.devices@.len(),
    ensures
        ({
            let before = was.devices@[target.index as int].peak_misaligned;
            let after = now.devices@[target.index as int].peak_misaligned;
            &&& before == after ==> told.len() == 0
            &&& before != after ==> told.len() == (if after {
                2nat
            } else {
                1nat
            }) && told[0] == EffectView::Send(
                ServerMessageView::PeakAlignment { device: target.name@, misaligned: after },
            )
            &&& !before && after ==> (told[1] matches EffectView::Notify { level, device, .. }
                && level == NotificationLevel::Warning && device == Some(target.name@))
        }),
{
}

/// A window is checked on every wall current monitor and every Faraday cup that has both bounds of
/// one, and on nothing else: by the bounds of the device itself, in the waveforms of its own
/// digitizer, and for a pulse that goes up on the former and down on the latter, as a sweep of the
/// same device looks for it.
pub proof fn checks_are_those_of_the_devices(devices: Seq<DeviceState>, i: int)
    requires
        0 <= i < devices.len(),
    ensures
        ({
            let device = devices[i];
            let pvs = device.config.pvs@;
            let checked = (device.config.device_type == DeviceType::Wcm
                || device.config.device_type == DeviceType::Fcup) && pvs.contains_key("peak_low"@)
                && pvs.contains_key("peak_high"@);
            &&& checked ==> targets(devices).contains(
                TargetView {
                    index: i,
                    name: device.name@,
                    digitizer: device.config.digitizer@,
                    low_pv: pvs["peak_low"@]@,
                    high_pv: pvs["peak_high"@]@,
                    find_max: device.config.device_type == DeviceType::Wcm,
                },
            )
            &&& !checked ==> forall|k: int|
                0 <= k < targets(devices).len() ==> (#[trigger] targets(devices)[k]).index != i
            &&& checked ==> sweep::pulse_goes_up(device.config.device_type) == (
            device.config.device_type == DeviceType::Wcm)
        }),
    decreases devices.len(),
{
    let last = devices.len() - 1;
    let front = devices.drop_last();
    let rest = targets(front);
    let all = targets(devices);
    lemma_target_indices(front);
    if i < last {
        checks_are_those_of_the_devices(front, i);
        assert(front[i] == devices[i]);
        assert forall|t: TargetView| #[trigger] rest.contains(t) implies all.contains(t) by {
            let k = choose|k: int| 0 <= k < rest.len() && rest[k] == t;
            assert(all[k] == t);
        }
        assert forall|k: int| 0 <= k < all.len() implies all[k].index == last || rest.contains(
            #[trigger] all[k],
        ) by {
            if k < rest.len() {
                assert(all[k] == rest[k]);
            }
        }
    } else {
        assert(devices.last() == devices[i]);
        if target(devices.last(), last) is Some {
            assert(all[rest.len() as int] == target(devices.last(), last).unwrap());
        }
    }
}

proof fn lemma_target_indices(devices: Seq<DeviceState>)
    ensures
        forall|k: int|
            0 <= k < targets(devices).len() ==> 0 <= (#[trigger] targets(devices)[k]).index
                < devices.len(),
    decreases devices.len(),
{
    if devices.len() > 0 {
        let rest = targets(devices.drop_last());
        lemma_target_indices(devices.drop_last());
        assert forall|k: int| 0 <= k < targets(devices).len() implies 0 <= (
        #[trigger] targets(devices)[k]).index < devices.len() by {
            if k < rest.len() {
                assert(targets(devices)[k] == rest[k]);
            }
        }
    }
}

/// The check looks for the pulse where a sweep finds it: in the same waveforms of a device both
/// find the same place.
pub proof fn check_and_sweep_find_the_same(
    device: DeviceState,
    index: int,
    config: sweep::SweepConfig,
    waveforms: Seq<Vec<Double>>,
    swept: MeanIndex,
    todo: Seq<(Seq<char>, int)>,
    checked: MeanIndex,
)
    requires
        target(device, index) matches Some(t) && sweep::is_mean_peak(
            waveforms,
            t.find_max,
            checked,
        ),
        config.device_type == device.config.device_type,
        sweep::is_swept(config, waveforms, swept, todo),
    ensures
        checked == swept,
{
}

/// A pulse that is as high in every waveform, flat on its top and of any width, is clear, wherever
/// it is in each of them: no other sample reaches its height.
pub proof fn level_pulses_are_clear(
    waveforms: Seq<Vec<Double>>,
    runs: Seq<(int, int)>,
    height: int,
    find_max: bool,
)
    requires
        waveforms.len() > 0,
        runs.len() == waveforms.len(),
        forall|k: int|
            0 <= k < waveforms.len() ==> 0 <= runs[k].0 <= runs[k].1 < (
            #[trigger] waveforms[k])@.len() && (0 < runs[k].0 || runs[k].1
                < waveforms[k]@.len() - 1),
        forall|k: int, i: int|
            0 <= k < waveforms.len() && 0 <= i < waveforms[k]@.len() ==> !(
            #[trigger] waveforms[k]@[i]).nan(),
        forall|k: int, i: int|
            0 <= k < waveforms.len() && runs[k].0 <= i <= runs[k].1 ==> (
            #[trigger] waveforms[k]@[i]).rank() == height,
        forall|k: int, i: int|
            0 <= k < waveforms.len() && 0 <= i < waveforms[k]@.len() && (i < runs[k].0 || runs[k].1
                < i) ==> if find_max {
                (#[trigger] waveforms[k]@[i]).rank() < height
            } else {
                height < waveforms[k]@[i].rank()
            },
    ensures
        is_clear_pulse(waveforms, find_max),
{
    assert(waveforms[0]@.len() > 0);
    lemma_usable(waveforms);
    assert forall|k: int| 0 <= k < waveforms.len() implies peak_sample(
        (#[trigger] waveforms[k])@,
        find_max,
    ).rank() == height && !peak_sample(waveforms[k]@, find_max).nan() by {
        let samples = waveforms[k]@;
        assert forall|i: int| 0 <= i < samples.len() implies !(#[trigger] samples[i]).nan() by {
            assert(!waveforms[k]@[i].nan());
        }
        sweep::peak_is_first_extremum(samples, find_max);
        let at = sweep::peak_index(samples, find_max);
        let top = runs[k].0;
        assert(waveforms[k]@[top].rank() == height);
        assert(!waveforms[k]@[at].nan() && !waveforms[k]@[top].nan());
        assert(!sweep::is_better(samples[top], samples[at], find_max));
        if at < runs[k].0 || runs[k].1 < at {
            assert(waveforms[k]@[at].rank() != height);
        } else {
            assert(waveforms[k]@[at].rank() == height);
        }
    }
    assert forall|k: int, i: int|
        0 <= k < waveforms.len() && 0 <= i < waveforms[k]@.len() implies (is_high(
        #[trigger] waveforms[k]@[i],
        waveforms,
        find_max,
    ) <==> runs[k].0 <= i <= runs[k].1) by {
        assert(!waveforms[k]@[i].nan());
        if runs[k].0 <= i <= runs[k].1 {
            assert(waveforms[k]@[i].rank() == height);
            assert(waveforms[0]@.len() > 0);
            assert(!sweep::is_better(
                peak_sample(waveforms[0]@, find_max),
                waveforms[k]@[i],
                find_max,
            ));
        } else {
            assert(waveforms[k]@[i].rank() != height);
        }
    }
    one_run_is_a_clear_pulse(waveforms, find_max, runs);
}

/// A waveform that reaches its height in two places further apart than a fortieth of it, and not
/// in between, shows no clear pulse by itself.
pub proof fn two_peaks_are_no_clear_pulse(
    waveform: Vec<Double>,
    i: int,
    j: int,
    find_max: bool,
)
    requires
        0 <= i,
        40 <= waveform@.len(),
        i + waveform@.len() / 40 < j < waveform@.len(),
        forall|m: int| 0 <= m < waveform@.len() ==> !(#[trigger] waveform@[m]).nan(),
        waveform@[i].rank() == waveform@[j].rank(),
        forall|m: int|
            0 <= m < waveform@.len() ==> if find_max {
                (#[trigger] waveform@[m]).rank() <= waveform@[i].rank()
            } else {
                waveform@[i].rank() <= waveform@[m].rank()
            },
        forall|m: int|
            i < m < j ==> (#[trigger] waveform@[m]).rank() != waveform@[i].rank(),
    ensures
        !is_clear_pulse(seq![waveform], find_max),
{
    let all = seq![waveform];
    let samples = waveform@;
    assert(all[0]@ == samples);
    sweep::peak_is_first_extremum(samples, find_max);
    let peak = peak_sample(samples, find_max);
    assert(!sweep::is_better(samples[i], peak, find_max));
    assert(peak.rank() == samples[i].rank());
    assert forall|m: int| 0 <= m < samples.len() implies (is_high(
        #[trigger] samples[m],
        all,
        find_max,
    ) <==> samples[m].rank() == samples[i].rank()) by {
        assert(is_high(samples[m], all, find_max) <==> !sweep::is_better(
            peak,
            samples[m],
            find_max,
        ));
    }
    assert forall|m: int| i < m < j implies !is_high(#[trigger] all[0]@[m], all, find_max) by {
        assert(samples[m].rank() != samples[i].rank());
    }
    scattered_heights_are_no_pulse(all, find_max, 0, i, j);
}

/// A window is checked again if and only if one of its bounds has changed since it was checked last,
/// or is no number; one that was never checked is.
pub proof fn changed_windows_are_checked_again(
    was_low: Double,
    was_high: Double,
    low: Double,
    high: Double,
)
    ensures
        !was_checked(Some((was_low, was_high)), low, high) <==> was_low.nan() || was_high.nan()
            || low.nan() || high.nan() || was_low.rank() != low.rank() || was_high.rank()
            != high.rank(),
        !was_checked(None, low, high),
{
}

/// Without data there is no pulse: waveforms that are all empty show none.
pub proof fn empty_waveforms_show_no_pulse(waveforms: Seq<Vec<Double>>, find_max: bool)
    requires
        forall|k: int| 0 <= k < waveforms.len() ==> (#[trigger] waveforms[k])@.len() == 0,
    ensures
        !is_clear_pulse(waveforms, find_max),
{
    lemma_none_usable(waveforms);
}

proof fn lemma_none_usable(waveforms: Seq<Vec<Double>>)
    requires
        forall|k: int| 0 <= k < waveforms.len() ==> (#[trigger] waveforms[k])@.len() == 0,
    ensures
        sweep::usable(waveforms) == 0,
    decreases waveforms.len(),
{
    if waveforms.len() > 0 {
        assert forall|k: int| 0 <= k < waveforms.drop_last().len() implies (
        #[trigger] waveforms.drop_last()[k])@.len() == 0 by {
            assert(waveforms.drop_last()[k] == waveforms[k]);
        }
        assert(waveforms.last() == waveforms[waveforms.len() - 1]);
        lemma_none_usable(waveforms.drop_last());
    }
}

}
