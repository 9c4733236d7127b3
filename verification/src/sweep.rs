//! Sweeping the timing: the charge pulse is located in the digitizer's waveforms, and the sample
//! windows are centred on it.

use vstd::prelude::*;

use crate::commands;
use crate::commands::{
    default_value, device_not_found, notify, CommandError, CommandErrorView, Effect, EffectView,
};
use crate::config::DeviceConfig;
use crate::double::Double;
use crate::keys;
use crate::messages::{DeviceType, NotificationLevel};
use crate::state::InnerState;
use crate::table::Table;
use crate::text;

verus! {

/// How many waveforms are averaged.
pub const SWEEP_WAVEFORM_COUNT: usize = 100;

/// How long collecting them may take, in milliseconds.
pub const SWEEP_TIMEOUT_MS: u64 = 20000;

/// Whether one sample is more of a peak than another.
pub open spec fn is_better(sample: Double, best: Double, find_max: bool) -> bool {
    if find_max {
        best.below(sample)
    } else {
        sample.below(best)
    }
}

/// Where the peak of a waveform is: the first sample, unless a later one beats the best so far.
pub open spec fn peak_index(samples: Seq<Double>, find_max: bool) -> int
    decreases samples.len(),
{
    if samples.len() <= 1 {
        0
    } else {
        let best = peak_index(samples.drop_last(), find_max);
        if is_better(samples.last(), samples[best], find_max) {
            samples.len() - 1
        } else {
            best
        }
    }
}

/// The peak of a waveform of numbers is the first of its greatest samples, or of its least.
pub proof fn peak_is_first_extremum(samples: Seq<Double>, find_max: bool)
    requires
        samples.len() > 0,
        forall|i: int| 0 <= i < samples.len() ==> !(#[trigger] samples[i]).nan(),
    ensures
        0 <= peak_index(samples, find_max) < samples.len(),
        forall|i: int|
            0 <= i < samples.len() ==> !is_better(
                #[trigger] samples[i],
                samples[peak_index(samples, find_max)],
                find_max,
            ),
        forall|i: int|
            0 <= i < peak_index(samples, find_max) ==> is_better(
                samples[peak_index(samples, find_max)],
                #[trigger] samples[i],
                find_max,
            ),
    decreases samples.len(),
{
    if samples.len() > 1 {
        let front = samples.drop_last();
        peak_is_first_extremum(front, find_max);
        let best = peak_index(front, find_max);
        let peak = peak_index(samples, find_max);
        assert forall|i: int| 0 <= i < samples.len() implies !is_better(
            #[trigger] samples[i],
            samples[peak],
            find_max,
        ) by {
            if i < front.len() {
                assert(front[i] == samples[i]);
            }
        }
        assert forall|i: int| 0 <= i < peak implies is_better(
            samples[peak],
            #[trigger] samples[i],
            find_max,
        ) by {
            assert(front[i] == samples[i]);
            assert(!is_better(front[i], front[best], find_max));
        }
    }
}

/// The peak of a waveform is one of its samples.
pub proof fn peak_is_in_range(samples: Seq<Double>, find_max: bool)
    requires
        samples.len() > 0,
    ensures
        0 <= peak_index(samples, find_max) < samples.len(),
    decreases samples.len(),
{
    if samples.len() > 1 {
        peak_is_in_range(samples.drop_last(), find_max);
    }
}

/// A mean of sample indices, as a fraction.
#[derive(Clone, Copy, Debug, PartialEq, Eq, Structural)]
pub struct MeanIndex {
    pub sum: u128,
    pub count: u64,
}

impl MeanIndex {
    /// The whole part of the mean.
    pub open spec fn whole(self) -> int {
        self.sum as int / self.count as int
    }

    /// There are indices, and each is an index.
    pub open spec fn wf(self) -> bool {
        self.count > 0 && self.sum <= self.count * u64::MAX
    }
}

/// The sum of the peak indices of the waveforms that are not empty.
pub open spec fn peak_sum(waveforms: Seq<Vec<Double>>, find_max: bool) -> nat
    decreases waveforms.len(),
{
    if waveforms.len() == 0 {
        0
    } else {
        let rest = peak_sum(waveforms.drop_last(), find_max);
        if waveforms.last()@.len() == 0 {
            rest
        } else {
            rest + peak_index(waveforms.last()@, find_max) as nat
        }
    }
}

/// How many waveforms are not empty.
pub open spec fn usable(waveforms: Seq<Vec<Double>>) -> nat
    decreases waveforms.len(),
{
    if waveforms.len() == 0 {
        0
    } else {
        usable(waveforms.drop_last()) + if waveforms.last()@.len() == 0 {
            0nat
        } else {
            1nat
        }
    }
}

/// Whether `mean` is the mean index of the peaks of the waveforms that are not empty.
pub open spec fn is_mean_peak(
    waveforms: Seq<Vec<Double>>,
    find_max: bool,
    mean: MeanIndex,
) -> bool {
    &&& mean.wf()
    &&& mean.sum == peak_sum(waveforms, find_max)
    &&& mean.count == usable(waveforms)
}

/// The index of the peak of a waveform.
pub(crate) fn find_peak(samples: &Vec<Double>, find_max: bool) -> (res: usize)
    requires
        samples@.len() > 0,
    ensures
        res == peak_index(samples@, find_max),
        res < samples@.len(),
{
    let mut best: usize = 0;
    let mut i: usize = 1;
    assert(samples@.take(1).len() == 1);
    while i < samples.len()
        invariant
            1 <= i <= samples@.len(),
            best < i,
            best == peak_index(samples@.take(i as int), find_max),
        decreases samples@.len() - i,
    {
        let better = if find_max {
            samples[best].lt(samples[i])
        } else {
            samples[i].lt(samples[best])
        };
        proof {
            let more = samples@.take(i as int + 1);
            assert(more.drop_last() =~= samples@.take(i as int));
            assert(more.last() == samples@[i as int]);
            assert(more[best as int] == samples@[best as int]);
        }
        if better {
            best = i;
        }
        i += 1;
    }
    assert(samples@.take(i as int) =~= samples@);
    best
}

/// The mean index of the peaks of the waveforms: their greatest samples, or their least.
/// Empty waveforms do not count.
pub fn mean_peak_index(waveforms: &Vec<Vec<Double>>, find_max: bool) -> (res: Option<MeanIndex>)
    ensures
        match res {
            Some(mean) => is_mean_peak(waveforms@, find_max, mean),
            None => usable(waveforms@) == 0,
        },
{
    let mut sum: u128 = 0;
    let mut n: u64 = 0;
    let mut i: usize = 0;
    assert(waveforms@.take(0) =~= Seq::<Vec<Double>>::empty());
    while i < waveforms.len()
        invariant
            i <= waveforms@.len(),
            n <= i,
            n == usable(waveforms@.take(i as int)),
            sum == peak_sum(waveforms@.take(i as int), find_max),
            sum <= n * u64::MAX,
        decreases waveforms@.len() - i,
    {
        assert(waveforms@.take(i as int + 1).drop_last() =~= waveforms@.take(i as int));
        assert(waveforms@.take(i as int + 1).last() == waveforms@[i as int]);
        if waveforms[i].len() > 0 {
            let index: usize = find_peak(&waveforms[i], find_max);
            assert(n * u64::MAX + u64::MAX == (n + 1) * u64::MAX) by (nonlinear_arith);
            assert((n + 1) * u64::MAX <= 0xffff_ffff_ffff_ffff * 0xffff_ffff_ffff_ffff)
                by (nonlinear_arith)
                requires
                    n + 1 <= u64::MAX,
            ;
            sum = sum + index as u128;
            n = n + 1;
        }
        i += 1;
    }
    assert(waveforms@.take(i as int) =~= waveforms@);
    if n == 0 {
        None
    } else {
        Some(MeanIndex { sum, count: n })
    }
}

/// The sample windows of a device by default.
#[derive(Clone, Copy, Debug, PartialEq, Eq, Structural)]
pub struct WindowDefaults {
    pub peak_low: i64,
    pub peak_high: i64,
    pub base_low: i64,
    pub base_high: i64,
}

/// A fraction rounded towards zero.
pub open spec fn toward_zero(num: int, den: int) -> int {
    if num >= 0 {
        num / den
    } else {
        -((-num) / den)
    }
}

/// An integer brought into the range of 64 bits.
pub open spec fn saturated(n: int) -> int {
    if n < i64::MIN {
        i64::MIN as int
    } else if n > i64::MAX {
        i64::MAX as int
    } else {
        n
    }
}

/// The mean index less `shift`, rounded towards zero.
pub open spec fn shifted(peak: MeanIndex, shift: int) -> int {
    saturated(toward_zero(peak.sum - shift * peak.count, peak.count as int))
}

proof fn lemma_shifted(sum: int, count: int, q: int, r: int, shift: int)
    requires
        count > 0,
        sum == q * count + r,
        0 <= r < count,
    ensures
        toward_zero(sum - shift * count, count) == (if q - shift >= 0 || r == 0 {
            q - shift
        } else {
            q - shift + 1
        }),
{
    let d = q - shift;
    assert(sum - shift * count == d * count + r) by (nonlinear_arith)
        requires
            sum == q * count + r,
            d == q - shift,
    ;
    if d >= 0 {
        assert(d * count >= 0) by (nonlinear_arith)
            requires
                d >= 0,
                count > 0,
        ;
        vstd::arithmetic::div_mod::lemma_fundamental_div_mod_converse(d * count + r, count, d, r);
    } else if r == 0 {
        assert(d * count < 0) by (nonlinear_arith)
            requires
                d < 0,
                count > 0,
        ;
        assert(-(d * count) == (-d) * count) by (nonlinear_arith);
        vstd::arithmetic::div_mod::lemma_fundamental_div_mod_converse((-d) * count, count, -d, 0);
    } else {
        let e = -(d + 1);
        assert(-(d * count + r) == e * count + (count - r)) by (nonlinear_arith)
            requires
                e == -(d + 1),
        ;
        assert(e * count >= 0) by (nonlinear_arith)
            requires
                e >= 0,
                count > 0,
        ;
        vstd::arithmetic::div_mod::lemma_fundamental_div_mod_converse(
            e * count + (count - r),
            count,
            e,
            count - r,
        );
    }
}

fn shift_by(peak: MeanIndex, shift: i128) -> (res: i64)
    requires
        peak.wf(),
        -0x10_0000_0000_0000_0000 <= shift <= 0x10_0000_0000_0000_0000,
    ensures
        res == shifted(peak, shift as int),
{
    let count: u128 = peak.count as u128;
    let q: u128 = peak.sum / count;
    let r: u128 = peak.sum % count;
    proof {
        let s = peak.sum as int;
        let c = count as int;
        vstd::arithmetic::div_mod::lemma_fundamental_div_mod(s, c);
        assert(q * c == c * q) by (nonlinear_arith);
        assert(q <= u64::MAX) by (nonlinear_arith)
            requires
                s == c * q + r,
                s <= c * 0xffff_ffff_ffff_ffff,
                c > 0,
                r >= 0,
        ;
        lemma_shifted(s, c, q as int, r as int, shift as int);
    }
    let d: i128 = q as i128 - shift;
    let n: i128 = if d >= 0 || r == 0 {
        d
    } else {
        d + 1
    };
    if n < i64::MIN as i128 {
        i64::MIN
    } else if n > i64::MAX as i128 {
        i64::MAX
    } else {
        n as i64
    }
}

/// Half the width of the peak window, rounded towards zero.
pub open spec fn peak_offset(d: WindowDefaults) -> int {
    if d.peak_high >= d.peak_low {
        (d.peak_high - d.peak_low) / 2
    } else {
        -((d.peak_low - d.peak_high) / 2)
    }
}

/// The windows to set: the peak window is centred on the peak. That of a wall current monitor's
/// base lies before it by as much as it does by default.
pub open spec fn windows(
    peak: MeanIndex,
    device_type: DeviceType,
    d: WindowDefaults,
) -> Seq<(Seq<char>, int)> {
    let offset = peak_offset(d);
    let own = seq![
        (keys::PEAK_LOW@, shifted(peak, offset)),
        (keys::PEAK_HIGH@, shifted(peak, -offset)),
    ];
    if device_type == DeviceType::Wcm {
        own.push((keys::BASE_LOW@, shifted(peak, offset + (d.peak_low - d.base_low)))).push(
            (keys::BASE_HIGH@, shifted(peak, offset + (d.peak_high - d.base_high))),
        )
    } else {
        own
    }
}

/// What a list of window bounds comes to.
pub open spec fn bounds(list: Seq<(&'static str, i64)>) -> Seq<(Seq<char>, int)> {
    list.map_values(|b: (&'static str, i64)| (b.0@, b.1 as int))
}

/// The window bounds to set, by their keys.
pub fn compute_windows(peak: MeanIndex, device_type: DeviceType, d: &WindowDefaults) -> (res: Vec<
    (&'static str, i64),
>)
    requires
        peak.wf(),
    ensures
        bounds(res@) == windows(peak, device_type, *d),
{
    let width: i128 = d.peak_high as i128 - d.peak_low as i128;
    let offset: i128 = if width >= 0 {
        width / 2
    } else {
        -((-width) / 2)
    };
    let mut out: Vec<(&'static str, i64)> = Vec::new();
    out.push((keys::PEAK_LOW, shift_by(peak, offset)));
    out.push((keys::PEAK_HIGH, shift_by(peak, -offset)));
    if device_type == DeviceType::Wcm {
        let low: i128 = offset + (d.peak_low as i128 - d.base_low as i128);
        let high: i128 = offset + (d.peak_high as i128 - d.base_high as i128);
        out.push((keys::BASE_LOW, shift_by(peak, low)));
        out.push((keys::BASE_HIGH, shift_by(peak, high)));
    }
    assert(bounds(out@) =~= windows(peak, device_type, *d));
    out
}

/// A swept peak window lies around the peak: it reaches as far below the whole part of the
/// peak's index as above it, and is as wide as by default, if that width is even.
pub proof fn sweep_centres_window(peak: MeanIndex, device_type: DeviceType, d: WindowDefaults)
    requires
        peak.wf(),
        0 <= peak_offset(d) <= peak.whole(),
        peak.whole() + peak_offset(d) <= i64::MAX,
    ensures
        ({
            let whole = peak.whole();
            let set = windows(peak, device_type, d);
            set[0].1 == whole - peak_offset(d) && set[1].1 == whole + peak_offset(d)
        }),
{
    let s = peak.sum as int;
    let c = peak.count as int;
    vstd::arithmetic::div_mod::lemma_fundamental_div_mod(s, c);
    vstd::arithmetic::div_mod::lemma_mod_bound(s, c);
    assert((s / c) * c == c * (s / c)) by (nonlinear_arith);
    lemma_shifted(s, c, s / c, s % c, peak_offset(d));
    lemma_shifted(s, c, s / c, s % c, -peak_offset(d));
}

/// Everything needed to sweep the timing of a device.
#[derive(Clone, Debug)]
pub struct SweepConfig {
    pub device: String,
    pub digitizer: String,
    pub device_type: DeviceType,
    /// The process variables of the window bounds by their keys.
    pub window_pvs: Table<String>,
    pub defaults: WindowDefaults,
}

/// A window bound to write.
#[derive(Clone, Debug)]
pub struct WindowWrite {
    pub pv: String,
    pub value: i64,
}

/// What a list of window bounds to write comes to.
pub open spec fn bound_writes(list: Seq<WindowWrite>) -> Seq<(Seq<char>, int)> {
    list.map_values(|w: WindowWrite| (w.pv@, w.value as int))
}

/// The bounds that have a process variable, with its name.
pub open spec fn writable(
    list: Seq<(Seq<char>, int)>,
    pvs: Map<Seq<char>, String>,
) -> Seq<(Seq<char>, int)>
    decreases list.len(),
{
    if list.len() == 0 {
        Seq::empty()
    } else {
        let rest = writable(list.drop_last(), pvs);
        let (key, value) = list.last();
        if pvs.contains_key(key) {
            rest.push((pvs[key]@, value))
        } else {
            rest
        }
    }
}

/// Why the timing of a device cannot be swept, if it cannot.
pub open spec fn sweep_fault(state: InnerState, device: Seq<char>) -> Option<CommandErrorView> {
    match state.find(device) {
        None => Some(commands::not_found(device)),
        Some(i) => {
            let defaults = state.devices@[i].config.defaults@;
            if !defaults.contains_key(keys::PEAK_LOW@) || !defaults.contains_key(keys::PEAK_HIGH@) {
                Some(
                    commands::failure(
                        "Sweep timing: "@ + device + " has no peak-window defaults configured"@,
                        device,
                    ),
                )
            } else {
                None
            }
        },
    }
}

/// The default of a window bound, zero if there is none.
pub open spec fn default_bound(config: DeviceConfig, key: Seq<char>, index: nat) -> int {
    match commands::default_of(config, key, index) {
        Some(value) => value.truncated(),
        None => 0,
    }
}

/// The default windows of a device at a sensitivity.
pub open spec fn window_defaults(config: DeviceConfig, index: nat) -> WindowDefaults {
    WindowDefaults {
        peak_low: default_bound(config, keys::PEAK_LOW@, index) as i64,
        peak_high: default_bound(config, keys::PEAK_HIGH@, index) as i64,
        base_low: default_bound(config, keys::BASE_LOW@, index) as i64,
        base_high: default_bound(config, keys::BASE_HIGH@, index) as i64,
    }
}

impl SweepConfig {
    /// The process variables are those of the configuration.
    pub open spec fn has_pvs_of(self, config: DeviceConfig) -> bool {
        &&& forall|key: Seq<char>| #[trigger]
            self.window_pvs@.contains_key(key) ==> config.pvs@.contains_key(key)
                && self.window_pvs@[key]@ == config.pvs@[key]@
        &&& forall|k: int|
            0 <= k < 4 && config.pvs@.contains_key(#[trigger] keys::WINDOW_KEYS@[k]@)
                ==> self.window_pvs@.contains_key(keys::WINDOW_KEYS@[k]@)
    }
}

fn bound_default(config: &DeviceConfig, key: &str, index: usize) -> (res: i64)
    ensures
        res == default_bound(*config, key@, index as nat),
{
    match default_value(config, key, index) {
        Some(value) => value.to_i64(),
        None => 0,
    }
}

/// Whether `sweep` is the start of a sweep, and `told` what the operators are told of it.
pub open spec fn is_sweep_start(
    state: InnerState,
    device: Seq<char>,
    sweep: SweepConfig,
    told: EffectView,
) -> bool {
    &&& sweep_fault(state, device) is None
    &&& state.find(device) matches Some(i)
    &&& sweep.device@ == device
    &&& sweep.digitizer@ == state.devices@[i].config.digitizer@
    &&& sweep.device_type == state.devices@[i].config.device_type
    &&& sweep.has_pvs_of(state.devices@[i].config)
    &&& sweep.defaults == window_defaults(
        state.devices@[i].config,
        state.devices@[i].current_sensitivity as nat,
    )
    &&& told == commands::notice(
        NotificationLevel::Info,
        "Sweeping timing for "@ + device + "... collecting waveforms"@,
        device,
    )
}

/// Starts a sweep: what the operators are told, and what to sweep. The waveforms are then to be
/// collected.
pub fn begin_sweep(device_name: &str, state: &InnerState) -> (res: Result<
    (SweepConfig, Effect),
    CommandError,
>)
    ensures
        match res {
            Err(e) => sweep_fault(*state, device_name@) == Some(e@),
            Ok((sweep, told)) => is_sweep_start(*state, device_name@, sweep, told@),
        },
{
    let device = match state.device(device_name) {
        Some(device) => device,
        None => {
            return Err(device_not_found(device_name));
        },
    };
    let config = &device.config;
    if !config.defaults.contains_key(keys::PEAK_LOW) || !config.defaults.contains_key(
        keys::PEAK_HIGH,
    ) {
        return Err(
            CommandError::for_device(
                text::cat3(
                    "Sweep timing: ",
                    device_name,
                    " has no peak-window defaults configured",
                ),
                device_name,
            ),
        );
    }
    let mut window_pvs: Table<String> = Table::new();
    let window_keys = keys::WINDOW_KEYS;
    let mut k: usize = 0;
    while k < 4
        invariant
            k <= 4,
            window_keys@ == keys::WINDOW_KEYS@,
            forall|key: Seq<char>| #[trigger]
                window_pvs@.contains_key(key) ==> config.pvs@.contains_key(key)
                    && window_pvs@[key]@ == config.pvs@[key]@,
            forall|j: int|
                0 <= j < k && config.pvs@.contains_key(#[trigger] keys::WINDOW_KEYS@[j]@)
                    ==> window_pvs@.contains_key(keys::WINDOW_KEYS@[j]@),
        decreases 4 - k,
    {
        let key = window_keys[k];
        if let Some(pv) = config.pvs.get(key) {
            window_pvs.insert(key.to_string(), pv.clone());
        }
        k += 1;
    }
    let index: usize = device.current_sensitivity;
    let sweep = SweepConfig {
        device: device_name.to_string(),
        digitizer: config.digitizer.clone(),
        device_type: config.device_type,
        window_pvs,
        defaults: WindowDefaults {
            peak_low: bound_default(config, keys::PEAK_LOW, index),
            peak_high: bound_default(config, keys::PEAK_HIGH, index),
            base_low: bound_default(config, keys::BASE_LOW, index),
            base_high: bound_default(config, keys::BASE_HIGH, index),
        },
    };
    let told = notify(
        NotificationLevel::Info,
        text::cat3("Sweeping timing for ", device_name, "... collecting waveforms"),
        device_name,
    );
    Ok((sweep, told))
}

/// The process variable that a digitizer's waveforms are read from.
pub fn waveform_pv(digitizer: &str) -> (res: String)
    ensures
        res@ == digitizer@ + "-READ"@,
{
    text::cat2(digitizer, "-READ")
}

/// Whether pulses of a device go up. Those of a Faraday cup go down.
pub open spec fn pulse_goes_up(device_type: DeviceType) -> bool {
    device_type != DeviceType::Fcup
}

/// Whether `peak` is what a sweep finds in waveforms, and `todo` which window bounds it sets.
pub open spec fn is_swept(
    sweep: SweepConfig,
    waveforms: Seq<Vec<Double>>,
    peak: MeanIndex,
    todo: Seq<(Seq<char>, int)>,
) -> bool {
    &&& is_mean_peak(waveforms, pulse_goes_up(sweep.device_type), peak)
    &&& todo == writable(
        windows(peak, sweep.device_type, sweep.defaults),
        sweep.window_pvs@,
    )
}

/// Goes on when the waveforms were collected, or could not be: where the peak is, and which
/// window bounds are to be written.
pub fn collected(
    sweep: &SweepConfig,
    waveforms: Result<Vec<Vec<Double>>, String>,
) -> (res: Result<(MeanIndex, Vec<WindowWrite>), CommandError>)
    ensures
        match waveforms {
            Err(e) => res matches Err(failed) && failed@ == commands::failure(
                "Sweep timing for "@ + sweep.device@ + ": "@ + e@,
                sweep.device@,
            ),
            Ok(list) => if usable(list@) == 0 {
                res matches Err(failed) && failed@ == commands::failure(
                    "Sweep timing for "@ + sweep.device@ + ": no usable waveform data"@,
                    sweep.device@,
                )
            } else {
                res matches Ok((peak, todo)) && is_swept(*sweep, list@, peak, bound_writes(todo@))
            },
        },
{
    let list = match waveforms {
        Ok(list) => list,
        Err(e) => {
            return Err(
                CommandError::for_device(
                    text::cat4("Sweep timing for ", sweep.device.as_str(), ": ", e.as_str()),
                    sweep.device.as_str(),
                ),
            );
        },
    };
    let find_max = sweep.device_type != DeviceType::Fcup;
    let peak = match mean_peak_index(&list, find_max) {
        Some(peak) => peak,
        None => {
            return Err(
                CommandError::for_device(
                    text::cat3(
                        "Sweep timing for ",
                        sweep.device.as_str(),
                        ": no usable waveform data",
                    ),
                    sweep.device.as_str(),
                ),
            );
        },
    };
    let set = compute_windows(peak, sweep.device_type, &sweep.defaults);
    let ghost wanted = windows(peak, sweep.device_type, sweep.defaults);
    let mut out: Vec<WindowWrite> = Vec::new();
    let mut i: usize = 0;
    while i < set.len()
        invariant
            i <= set@.len(),
            bounds(set@) == wanted,
            bound_writes(out@) == writable(wanted.take(i as int), sweep.window_pvs@),
        decreases set@.len() - i,
    {
        let (key, value) = set[i];
        let ghost before = out@;
        proof {
            assert(wanted.take(i as int + 1).drop_last() =~= wanted.take(i as int));
            assert(bounds(set@)[i as int] == (key@, value as int));
        }
        if let Some(pv) = sweep.window_pvs.get(key) {
            out.push(WindowWrite { pv: pv.clone(), value });
            assert(bound_writes(out@) =~= bound_writes(before).push(
                (sweep.window_pvs@[key@]@, value as int),
            ));
        }
        i += 1;
    }
    assert(wanted.take(i as int) =~= wanted);
    Ok((peak, out))
}

/// Ends a sweep: what the operators are told. `peak` is the mean index in words.
pub fn finish_sweep(sweep: &SweepConfig, peak: &str) -> (res: Effect)
    ensures
        res@ == commands::notice(
            NotificationLevel::Success,
            "Sweep timing for "@ + sweep.device@ + ": peak at sample "@ + peak@
                + ", windows updated"@,
            sweep.device@,
        ),
{
    notify(
        NotificationLevel::Success,
        text::cat5(
            "Sweep timing for ",
            sweep.device.as_str(),
            ": peak at sample ",
            peak,
            ", windows updated",
        ),
        sweep.device.as_str(),
    )
}

proof fn lemma_peak_of_numbers(samples: Seq<Double>, find_max: bool)
    requires
        samples.len() > 0,
        !samples[0].nan(),
    ensures
        0 <= peak_index(samples, find_max) < samples.len(),
        !samples[peak_index(samples, find_max)].nan(),
        forall|i: int|
            0 <= i < samples.len() ==> !is_better(
                #[trigger] samples[i],
                samples[peak_index(samples, find_max)],
                find_max,
            ),
        forall|i: int|
            0 <= i < peak_index(samples, find_max) ==> (#[trigger] samples[i]).nan() || is_better(
                samples[peak_index(samples, find_max)],
                samples[i],
                find_max,
            ),
    decreases samples.len(),
{
    if samples.len() > 1 {
        let front = samples.drop_last();
        lemma_peak_of_numbers(front, find_max);
        let best = peak_index(front, find_max);
        let peak = peak_index(samples, find_max);
        assert forall|i: int| 0 <= i < samples.len() implies !is_better(
            #[trigger] samples[i],
            samples[peak],
            find_max,
        ) by {
            if i < front.len() {
                assert(front[i] == samples[i]);
            }
        }
        assert forall|i: int| 0 <= i < peak implies (#[trigger] samples[i]).nan() || is_better(
            samples[peak],
            samples[i],
            find_max,
        ) by {
            assert(front[i] == samples[i]);
            assert(!is_better(front[i], front[best], find_max));
        }
    }
}

proof fn lemma_peak_at(samples: Seq<Double>, find_max: bool, at: int)
    requires
        0 <= at < samples.len(),
        !samples[0].nan(),
        !samples[at].nan(),
        find_max ==> forall|i: int|
            0 <= i < samples.len() ==> (#[trigger] samples[i]).nan() || samples[i].rank()
                <= samples[at].rank(),
        find_max ==> forall|i: int|
            0 <= i < at ==> (#[trigger] samples[i]).nan() || samples[i].rank()
                < samples[at].rank(),
        !find_max ==> forall|i: int|
            0 <= i < samples.len() ==> (#[trigger] samples[i]).nan() || samples[at].rank()
                <= samples[i].rank(),
        !find_max ==> forall|i: int|
            0 <= i < at ==> (#[trigger] samples[i]).nan() || samples[at].rank()
                < samples[i].rank(),
    ensures
        peak_index(samples, find_max) == at,
{
    lemma_peak_of_numbers(samples, find_max);
    let peak = peak_index(samples, find_max);
    if peak < at {
        assert(!is_better(samples[at], samples[peak], find_max));
    }
    if at < peak {
        assert(is_better(samples[peak], samples[at], find_max));
    }
}

/// A waveform that begins with what is no number is taken to have its peak there.
pub proof fn waveform_without_a_beginning(samples: Seq<Double>, find_max: bool)
    requires
        samples.len() > 0,
        samples[0].nan(),
    ensures
        peak_index(samples, find_max) == 0,
    decreases samples.len(),
{
    if samples.len() > 1 {
        waveform_without_a_beginning(samples.drop_last(), find_max);
    }
}

proof fn lemma_mean_peak(waveforms: Seq<Vec<Double>>, find_max: bool, at: Seq<int>)
    requires
        at.len() == waveforms.len(),
        forall|k: int|
            0 <= k < waveforms.len() ==> if (#[trigger] waveforms[k])@.len() == 0 {
                at[k] == 0
            } else {
                at[k] >= 0 && peak_index(waveforms[k]@, find_max) == at[k]
            },
    ensures
        peak_sum(waveforms, find_max) == at.fold_left(0, |sum: int, i: int| sum + i),
        usable(waveforms) == waveforms.filter(|w: Vec<Double>| w@.len() > 0).len(),
    decreases waveforms.len(),
{
    reveal(Seq::filter);
    if waveforms.len() > 0 {
        let front = waveforms.drop_last();
        let last = waveforms.len() - 1;
        assert forall|k: int| 0 <= k < front.len() implies if (#[trigger] front[k])@.len() == 0 {
            at.drop_last()[k] == 0
        } else {
            at.drop_last()[k] >= 0 && peak_index(front[k]@, find_max) == at.drop_last()[k]
        } by {
            assert(front[k] == waveforms[k]);
        }
        lemma_mean_peak(front, find_max, at.drop_last());
        assert(waveforms.last() == waveforms[last]);
        assert(at.last() == at[last]);
    }
}

/// The pulse of a Faraday cup goes down: what a sweep of one finds is the mean index of the least
/// samples of its waveforms, the first where several are least. Empty waveforms do not count, and
/// what is no number is passed over.
pub proof fn cup_sweep_finds_the_dips(
    sweep: SweepConfig,
    waveforms: Seq<Vec<Double>>,
    peak: MeanIndex,
    todo: Seq<(Seq<char>, int)>,
    at: Seq<int>,
)
    requires
        is_swept(sweep, waveforms, peak, todo),
        sweep.device_type == DeviceType::Fcup,
        at.len() == waveforms.len(),
        forall|k: int|
            0 <= k < waveforms.len() ==> if (#[trigger] waveforms[k])@.len() == 0 {
                at[k] == 0
            } else {
                0 <= at[k] < waveforms[k]@.len() && !waveforms[k]@[0].nan()
                    && !waveforms[k]@[at[k]].nan()
            },
        forall|k: int, i: int|
            0 <= k < waveforms.len() && 0 <= i < waveforms[k]@.len() ==> (
            #[trigger] waveforms[k]@[i]).nan() || waveforms[k]@[at[k]].rank()
                <= waveforms[k]@[i].rank(),
        forall|k: int, i: int|
            0 <= k < waveforms.len() && 0 <= i < at[k] ==> (#[trigger] waveforms[k]@[i]).nan()
                || waveforms[k]@[at[k]].rank() < waveforms[k]@[i].rank(),
    ensures
        peak.sum == at.fold_left(0, |sum: int, i: int| sum + i),
        peak.count == waveforms.filter(|w: Vec<Double>| w@.len() > 0).len(),
{
    assert forall|k: int|
        0 <= k < waveforms.len() && (#[trigger] waveforms[k])@.len() > 0 implies peak_index(
        waveforms[k]@,
        false,
    ) == at[k] by {
        lemma_peak_at(waveforms[k]@, false, at[k]);
    }
    lemma_mean_peak(waveforms, false, at);
}

/// The pulse of a wall current monitor goes up, and so does that of every device but a Faraday cup:
/// what a sweep finds is the mean index of the greatest samples of its waveforms, the first where
/// several are greatest. Empty waveforms do not count, and what is no number is passed over.
pub proof fn monitor_sweep_finds_the_peaks(
    sweep: SweepConfig,
    waveforms: Seq<Vec<Double>>,
    peak: MeanIndex,
    todo: Seq<(Seq<char>, int)>,
    at: Seq<int>,
)
    requires
        is_swept(sweep, waveforms, peak, todo),
        sweep.device_type != DeviceType::Fcup,
        at.len() == waveforms.len(),
        forall|k: int|
            0 <= k < waveforms.len() ==> if (#[trigger] waveforms[k])@.len() == 0 {
                at[k] == 0
            } else {
                0 <= at[k] < waveforms[k]@.len() && !waveforms[k]@[0].nan()
                    && !waveforms[k]@[at[k]].nan()
            },
        forall|k: int, i: int|
            0 <= k < waveforms.len() && 0 <= i < waveforms[k]@.len() ==> (
            #[trigger] waveforms[k]@[i]).nan() || waveforms[k]@[i].rank()
                <= waveforms[k]@[at[k]].rank(),
        forall|k: int, i: int|
            0 <= k < waveforms.len() && 0 <= i < at[k] ==> (#[trigger] waveforms[k]@[i]).nan()
                || waveforms[k]@[i].rank() < waveforms[k]@[at[k]].rank(),
    ensures
        peak.sum == at.fold_left(0, |sum: int, i: int| sum + i),
        peak.count == waveforms.filter(|w: Vec<Double>| w@.len() > 0).len(),
{
    assert forall|k: int|
        0 <= k < waveforms.len() && (#[trigger] waveforms[k])@.len() > 0 implies peak_index(
        waveforms[k]@,
        true,
    ) == at[k] by {
        lemma_peak_at(waveforms[k]@, true, at[k]);
    }
    lemma_mean_peak(waveforms, true, at);
}

/// A sweep centres the peak window on the whole part of the mean index, as wide as it is by
/// default, and writes each bound to the process variable of its own key.
pub proof fn sweep_moves_window_to_the_pulse(
    sweep: SweepConfig,
    waveforms: Seq<Vec<Double>>,
    peak: MeanIndex,
    todo: Seq<(Seq<char>, int)>,
)
    requires
        is_swept(sweep, waveforms, peak, todo),
        0 <= sweep.defaults.peak_low <= sweep.defaults.peak_high,
        sweep.defaults.peak_high <= peak.sum as int / peak.count as int,
        peak.sum as int / peak.count as int + sweep.defaults.peak_high <= i64::MAX,
    ensures
        sweep.window_pvs@.contains_key("peak_low"@) ==> todo.contains(
            (
                sweep.window_pvs@["peak_low"@]@,
                peak.sum as int / peak.count as int - (sweep.defaults.peak_high
                    - sweep.defaults.peak_low) / 2,
            ),
        ),
        sweep.window_pvs@.contains_key("peak_high"@) ==> todo.contains(
            (
                sweep.window_pvs@["peak_high"@]@,
                peak.sum as int / peak.count as int + (sweep.defaults.peak_high
                    - sweep.defaults.peak_low) / 2,
            ),
        ),
{
    let all = windows(peak, sweep.device_type, sweep.defaults);
    lemma_peak_window(peak, sweep.device_type, sweep.defaults);
    lemma_writable(all, sweep.window_pvs@);
    assert(all[0].0 == "peak_low"@);
    assert(all[1].0 == "peak_high"@);
}

proof fn lemma_peak_window(peak: MeanIndex, device_type: DeviceType, d: WindowDefaults)
    requires
        peak.wf(),
        0 <= d.peak_low <= d.peak_high,
        d.peak_high <= peak.sum as int / peak.count as int,
        peak.sum as int / peak.count as int + d.peak_high <= i64::MAX,
    ensures
        windows(peak, device_type, d)[0].1 == peak.sum as int / peak.count as int - (d.peak_high
            - d.peak_low) / 2,
        windows(peak, device_type, d)[1].1 == peak.sum as int / peak.count as int + (d.peak_high
            - d.peak_low) / 2,
{
    let s = peak.sum as int;
    let c = peak.count as int;
    let half = peak_offset(d);
    vstd::arithmetic::div_mod::lemma_fundamental_div_mod(s, c);
    vstd::arithmetic::div_mod::lemma_mod_bound(s, c);
    assert((s / c) * c == c * (s / c)) by (nonlinear_arith);
    lemma_shifted(s, c, s / c, s % c, half);
    lemma_shifted(s, c, s / c, s % c, -half);
}

/// The sweep of a device that is no wall current monitor sets its peak window and nothing else.
pub proof fn sweep_sets_no_base_but_a_monitors(
    sweep: SweepConfig,
    waveforms: Seq<Vec<Double>>,
    peak: MeanIndex,
    todo: Seq<(Seq<char>, int)>,
    k: int,
)
    requires
        is_swept(sweep, waveforms, peak, todo),
        sweep.device_type != DeviceType::Wcm,
        0 <= k < todo.len(),
    ensures
        todo.len() <= 2,
        (sweep.window_pvs@.contains_key("peak_low"@) && todo[k].0
            == sweep.window_pvs@["peak_low"@]@) || (sweep.window_pvs@.contains_key("peak_high"@)
            && todo[k].0 == sweep.window_pvs@["peak_high"@]@),
{
    let all = windows(peak, sweep.device_type, sweep.defaults);
    lemma_writable(all, sweep.window_pvs@);
    assert(comes_from(writable(all, sweep.window_pvs@)[k], all, sweep.window_pvs@));
    assert(all.len() == 2);
    assert(all[0].0 == "peak_low"@);
    assert(all[1].0 == "peak_high"@);
}

/// The base window of a wall current monitor moves along with its peak window: each of its bounds
/// is as far before the peak window's lower one as it is by default before the bound of its own
/// side.
pub proof fn sweep_moves_base_along(
    sweep: SweepConfig,
    waveforms: Seq<Vec<Double>>,
    peak: MeanIndex,
    todo: Seq<(Seq<char>, int)>,
    low: int,
)
    requires
        is_swept(sweep, waveforms, peak, todo),
        sweep.device_type == DeviceType::Wcm,
        0 <= sweep.defaults.peak_low <= sweep.defaults.peak_high,
        low == peak.sum as int / peak.count as int - (sweep.defaults.peak_high
            - sweep.defaults.peak_low) / 2,
        low <= i64::MAX,
        0 <= sweep.defaults.peak_low - sweep.defaults.base_low <= low,
        0 <= sweep.defaults.peak_high - sweep.defaults.base_high <= low,
    ensures
        sweep.window_pvs@.contains_key("base_low"@) ==> todo.contains(
            (
                sweep.window_pvs@["base_low"@]@,
                low - (sweep.defaults.peak_low - sweep.defaults.base_low),
            ),
        ),
        sweep.window_pvs@.contains_key("base_high"@) ==> todo.contains(
            (
                sweep.window_pvs@["base_high"@]@,
                low - (sweep.defaults.peak_high - sweep.defaults.base_high),
            ),
        ),
{
    let d = sweep.defaults;
    let all = windows(peak, sweep.device_type, d);
    let s = peak.sum as int;
    let c = peak.count as int;
    let half = peak_offset(d);
    vstd::arithmetic::div_mod::lemma_fundamental_div_mod(s, c);
    vstd::arithmetic::div_mod::lemma_mod_bound(s, c);
    assert((s / c) * c == c * (s / c)) by (nonlinear_arith);
    lemma_shifted(s, c, s / c, s % c, half + (d.peak_low - d.base_low));
    lemma_shifted(s, c, s / c, s % c, half + (d.peak_high - d.base_high));
    lemma_writable(all, sweep.window_pvs@);
    assert(all[2] == ("base_low"@, low - (d.peak_low - d.base_low)));
    assert(all[3] == ("base_high"@, low - (d.peak_high - d.base_high)));
}

/// Whether a write is that of one of the bounds.
spec fn comes_from(
    item: (Seq<char>, int),
    list: Seq<(Seq<char>, int)>,
    pvs: Map<Seq<char>, String>,
) -> bool {
    exists|k: int|
        0 <= k < list.len() && pvs.contains_key((#[trigger] list[k]).0) && item == (
            pvs[list[k].0]@,
            list[k].1,
        )
}

proof fn lemma_writable(list: Seq<(Seq<char>, int)>, pvs: Map<Seq<char>, String>)
    ensures
        writable(list, pvs).len() <= list.len(),
        forall|k: int|
            0 <= k < list.len() && pvs.contains_key((#[trigger] list[k]).0) ==> writable(
                list,
                pvs,
            ).contains((pvs[list[k].0]@, list[k].1)),
        forall|j: int|
            0 <= j < writable(list, pvs).len() ==> comes_from(
                #[trigger] writable(list, pvs)[j],
                list,
                pvs,
            ),
    decreases list.len(),
{
    if list.len() > 0 {
        let front = list.drop_last();
        let rest = writable(front, pvs);
        let all = writable(list, pvs);
        lemma_writable(front, pvs);
        assert forall|k: int|
            0 <= k < list.len() && pvs.contains_key((#[trigger] list[k]).0) implies all.contains(
            (pvs[list[k].0]@, list[k].1),
        ) by {
            if k < front.len() {
                assert(front[k] == list[k]);
                let item = (pvs[front[k].0]@, front[k].1);
                assert(rest.contains(item));
                let j = choose|j: int| 0 <= j < rest.len() && rest[j] == item;
                assert(all[j] == item);
            } else {
                assert(all[rest.len() as int] == (pvs[list[k].0]@, list[k].1));
            }
        }
        assert forall|j: int| 0 <= j < all.len() implies comes_from(#[trigger] all[j], list, pvs) by {
            if j < rest.len() {
                assert(all[j] == rest[j]);
                assert(comes_from(rest[j], front, pvs));
                let k = choose|k: int|
                    0 <= k < front.len() && pvs.contains_key((#[trigger] front[k]).0) && rest[j]
                        == (pvs[front[k].0]@, front[k].1);
                assert(front[k] == list[k]);
            } else {
                assert(list[list.len() - 1] == list.last());
            }
        }
    }
}

/// A sweep goes by the device that was named: its kind, its digitizer, the process variables of its
/// own windows, and its default windows at the current sensitivity, whole numbers of samples. Every
/// device that is known and has a default peak window can be swept.
pub proof fn sweep_goes_by_the_device(
    state: InnerState,
    device: Seq<char>,
    sweep: SweepConfig,
    told: EffectView,
    i: int,
    key: Seq<char>,
)
    requires
        state.find(device) == Some(i),
        is_sweep_start(state, device, sweep, told),
        key == "peak_low"@ || key == "peak_high"@ || key == "base_low"@ || key == "base_high"@,
    ensures
        sweep.device@ == device,
        sweep.device_type == state.devices@[i].config.device_type,
        sweep.digitizer@ == state.devices@[i].config.digitizer@,
        sweep.window_pvs@.contains_key(key) <==> state.devices@[i].config.pvs@.contains_key(key),
        sweep.window_pvs@.contains_key(key) ==> sweep.window_pvs@[key]@
            == state.devices@[i].config.pvs@[key]@,
        state.devices@[i].config.defaults@.contains_key("peak_low"@),
        state.devices@[i].config.defaults@.contains_key("peak_high"@),
        forall|value: Double|
            state.devices@[i].config.defaults@.contains_key(key) && #[trigger] commands::holds_at(
                state.devices@[i].config.defaults@[key],
                state.devices@[i].current_sensitivity as nat,
                value,
            ) && i64::MIN <= value.truncated() <= i64::MAX ==> value.truncated() == (if key
                == "peak_low"@ {
                sweep.defaults.peak_low
            } else if key == "peak_high"@ {
                sweep.defaults.peak_high
            } else if key == "base_low"@ {
                sweep.defaults.base_low
            } else {
                sweep.defaults.base_high
            }),
{
    let all = keys::WINDOW_KEYS@;
    assert(all[0]@ == "peak_low"@ && all[1]@ == "peak_high"@ && all[2]@ == "base_low"@ && all[3]@
        == "base_high"@);
    reveal_strlit("peak_low");
    reveal_strlit("peak_high");
    reveal_strlit("base_low");
    reveal_strlit("base_high");
    assert("peak_low"@.len() == 8 && "base_low"@.len() == 8 && "peak_low"@[0] == 'p'
        && "base_low"@[0] == 'b');
    assert("peak_high"@.len() == 9 && "base_high"@.len() == 9 && "peak_high"@[0] == 'p'
        && "base_high"@[0] == 'b');
}

/// A sweep is refused only where there is no such device, or where it has no default peak window.
pub proof fn sweep_needs_a_default_window(state: InnerState, device: Seq<char>)
    ensures
        sweep_fault(state, device) is None <==> (state.find(device) matches Some(i)
            && state.devices@[i].config.defaults@.contains_key("peak_low"@)
            && state.devices@[i].config.defaults@.contains_key("peak_high"@)),
{
}

/// Window bounds are rounded towards zero to whole samples: by less than one, and never away from
/// it. They stay within the 64-bit integers.
pub proof fn bounds_are_rounded_towards_zero(num: int, den: int)
    requires
        den > 0,
    ensures
        num >= 0 ==> 0 <= toward_zero(num, den) * den <= num < (toward_zero(num, den) + 1) * den,
        num <= 0 ==> (toward_zero(num, den) - 1) * den < num <= toward_zero(num, den) * den <= 0,
        i64::MIN <= saturated(num) <= i64::MAX,
        i64::MIN <= num <= i64::MAX ==> saturated(num) == num,
        num > i64::MAX ==> saturated(num) == i64::MAX,
        num < i64::MIN ==> saturated(num) == i64::MIN,
{
    let n = if num >= 0 {
        num
    } else {
        -num
    };
    vstd::arithmetic::div_mod::lemma_fundamental_div_mod(n, den);
    vstd::arithmetic::div_mod::lemma_mod_bound(n, den);
    vstd::arithmetic::div_mod::lemma_div_pos_is_pos(n, den);
    let q = n / den;
    assert(q * den == den * q) by (nonlinear_arith);
    assert((q + 1) * den == den * q + den) by (nonlinear_arith);
    assert((-q) * den == -(den * q)) by (nonlinear_arith);
    assert((-q - 1) * den == -(den * q) - den) by (nonlinear_arith);
    assert(0 <= den * q) by (nonlinear_arith)
        requires
            den > 0,
            q >= 0,
    ;
    if num < 0 {
        assert(toward_zero(num, den) == -q);
    } else {
        assert(toward_zero(num, den) == q);
        if num == 0 {
            assert(q == 0) by (nonlinear_arith)
                requires
                    den > 0,
                    q >= 0,
                    den * q <= 0,
            ;
        }
    }
}

}
