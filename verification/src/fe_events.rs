//! The events of the front-end boxes.
//!
//! A box streams its settings whenever one of them changes, whoever changed it. A sensitivity
//! that was changed by someone else is taken over, and the operators are warned. What the server
//! itself has set is recorded before the box tells of it, so that it makes no noise. A wall current
//! monitor and its dark-charge device share a box, which tells of the change to both: the latter
//! then follows the former.

use vstd::prelude::*;

use crate::commands;
use crate::commands::{notify, Effect, EffectView};
use crate::json;
use crate::json::{find_json, JsonAt, JsonAtView};
use crate::messages::{DeviceType, NotificationLevel, ServerMessage, ServerMessageView};
use crate::state::{DeviceState, InnerState};
use crate::text;

verus! {

/// Where the first blank line of a stream begins: two line feeds in a row.
pub open spec fn blank_line(s: Seq<char>) -> Option<int>
    decreases s.len(),
{
    if s.len() < 2 {
        None
    } else if s[0] == '\n' && s[1] == '\n' {
        Some(0)
    } else {
        match blank_line(s.skip(1)) {
            Some(i) => Some(i + 1),
            None => None,
        }
    }
}

proof fn lemma_blank_line(s: Seq<char>)
    ensures
        match blank_line(s) {
            Some(i) => {
                &&& 0 <= i
                &&& i + 1 < s.len()
                &&& s[i] == '\n' && s[i + 1] == '\n'
                &&& forall|k: int| 0 <= k < i ==> !(#[trigger] s[k] == '\n' && s[k + 1] == '\n')
            },
            None => forall|k: int|
                0 <= k < s.len() - 1 ==> !(#[trigger] s[k] == '\n' && s[k + 1] == '\n'),
        },
    decreases s.len(),
{
    if s.len() >= 2 && !(s[0] == '\n' && s[1] == '\n') {
        let rest = s.skip(1);
        lemma_blank_line(rest);
        assert forall|k: int|
            0 < k < (match blank_line(rest) {
                Some(i) => i + 1,
                None => s.len() - 1,
            }) implies !(#[trigger] s[k] == '\n' && s[k + 1] == '\n') by {
            assert(rest[k - 1] == s[k] && rest[k] == s[k + 1]);
        }
    }
}

proof fn lemma_blank_line_is(s: Seq<char>, i: int)
    requires
        0 <= i,
        i + 1 < s.len(),
        s[i] == '\n' && s[i + 1] == '\n',
        forall|k: int| 0 <= k < i ==> !(#[trigger] s[k] == '\n' && s[k + 1] == '\n'),
    ensures
        blank_line(s) == Some(i),
{
    lemma_blank_line(s);
    match blank_line(s) {
        Some(j) => {
            if j < i {
                assert(!(s[j] == '\n' && s[j + 1] == '\n'));
            }
            if i < j {
                assert(!(s[i] == '\n' && s[i + 1] == '\n'));
            }
        },
        None => {
            assert(!(s[i] == '\n' && s[i + 1] == '\n'));
        },
    }
}

/// The complete frames of a stream, each up to the blank line that ends it.
pub open spec fn frames(s: Seq<char>) -> Seq<Seq<char>>
    decreases s.len(),
    via frames_decreases
{
    match blank_line(s) {
        Some(i) => seq![s.take(i + 2)] + frames(s.skip(i + 2)),
        None => Seq::empty(),
    }
}

#[via_fn]
proof fn frames_decreases(s: Seq<char>) {
    lemma_blank_line(s);
}

/// What is left of a stream behind its last complete frame.
pub open spec fn leftover(s: Seq<char>) -> Seq<char>
    decreases s.len(),
    via leftover_decreases
{
    match blank_line(s) {
        Some(i) => leftover(s.skip(i + 2)),
        None => s,
    }
}

#[via_fn]
proof fn leftover_decreases(s: Seq<char>) {
    lemma_blank_line(s);
}

/// However a stream is cut into pieces, it has the same frames: those of its beginning, and
/// those of what that left over together with the rest.
pub proof fn frames_do_not_depend_on_chunks(a: Seq<char>, b: Seq<char>)
    ensures
        frames(a + b) == frames(a) + frames(leftover(a) + b),
        leftover(a + b) == leftover(leftover(a) + b),
    decreases a.len(),
{
    lemma_blank_line(a);
    match blank_line(a) {
        Some(i) => {
            let all = a + b;
            assert forall|k: int| 0 <= k <= i + 1 implies #[trigger] all[k] == a[k] by {}
            lemma_blank_line_is(all, i);
            assert(all.take(i + 2) =~= a.take(i + 2));
            assert(all.skip(i + 2) =~= a.skip(i + 2) + b);
            frames_do_not_depend_on_chunks(a.skip(i + 2), b);
            assert(frames(all) =~= frames(a) + frames(leftover(a) + b));
        },
        None => {
            assert(frames(a) + frames(a + b) =~= frames(a + b));
        },
    }
}

/// The text that `String::from_utf8_lossy` makes of bytes.
pub uninterp spec fn lossy(bytes: Seq<u8>) -> Seq<char>;

/// Calls `String::from_utf8_lossy`. The result depends on the bytes alone, and has the name
/// `lossy`. Bytes that are valid are decoded; of others, what is invalid is replaced.
#[verifier::external_body]
fn lossy_text(bytes: &Vec<u8>) -> (res: String)
    ensures
        res@ == lossy(bytes@),
        vstd::utf8::valid_utf8(bytes@) ==> res@ == vstd::utf8::decode_utf8(bytes@),
{
    String::from_utf8_lossy(bytes).into_owned()
}

/// The part of an event stream that is not a complete frame yet.
#[derive(Clone, Debug)]
pub struct SseBuffer {
    pending: Vec<char>,
}

impl View for SseBuffer {
    type V = Seq<char>;

    closed spec fn view(&self) -> Seq<char> {
        self.pending@
    }
}

impl SseBuffer {
    pub fn new() -> (res: SseBuffer)
        ensures
            res@ == Seq::<char>::empty(),
    {
        SseBuffer { pending: Vec::new() }
    }

    /// Takes the next bytes of the stream, and gives the frames that are complete now. Each piece
    /// is decoded by itself, so that a character that is cut in two is lost.
    pub fn feed(&mut self, bytes: &Vec<u8>) -> (res: Vec<String>)
        ensures
            text::texts(res@) == frames(old(self)@ + lossy(bytes@)),
            final(self)@ == leftover(old(self)@ + lossy(bytes@)),
            vstd::utf8::valid_utf8(bytes@) ==> lossy(bytes@) == vstd::utf8::decode_utf8(bytes@)
                && text::texts(res@) == frames(old(self)@ + vstd::utf8::decode_utf8(bytes@)),
    {
        let chunk = lossy_text(bytes);
        self.feed_text(chunk.as_str())
    }

    /// Takes the next text of the stream, and gives the frames that are complete now.
    pub fn feed_text(&mut self, chunk: &str) -> (res: Vec<String>)
        ensures
            text::texts(res@) == frames(old(self)@ + chunk@),
            final(self)@ == leftover(old(self)@ + chunk@),
    {
        let mut more = text::chars_of(chunk);
        let ghost all = self.pending@ + chunk@;
        self.pending.append(&mut more);
        let mut out: Vec<String> = Vec::new();
        let mut start: usize = 0;
        let mut i: usize = 0;
        assert(all.skip(0) =~= all);
        assert(text::texts(out@) + frames(all) =~= frames(all));
        while i < self.pending.len() && i < self.pending.len() - 1
            invariant
                self.pending@ == all,
                0 <= start <= i <= all.len(),
                frames(all) == text::texts(out@) + frames(all.skip(start as int)),
                leftover(all) == leftover(all.skip(start as int)),
                forall|k: int|
                    start <= k < i ==> !(#[trigger] all[k] == '\n' && all[k + 1] == '\n'),
            decreases all.len() - i,
        {
            if self.pending[i] == '\n' && self.pending[i + 1] == '\n' {
                let frame = text::text_of(&self.pending, start, i + 2);
                proof {
                    let rest = all.skip(start as int);
                    let at = i - start;
                    assert forall|k: int| 0 <= k < at implies !(#[trigger] rest[k] == '\n'
                        && rest[k + 1] == '\n') by {
                        assert(rest[k] == all[start + k] && rest[k + 1] == all[start + k + 1]);
                    }
                    lemma_blank_line_is(rest, at as int);
                    assert(rest.take(at + 2) =~= all.subrange(start as int, i + 2));
                    assert(rest.skip(at + 2) =~= all.skip(i + 2));
                    assert(text::texts(out@) + frames(rest) =~= text::texts(out@).push(frame@)
                        + frames(all.skip(i + 2)));
                    assert(text::texts(out@.push(frame)) =~= text::texts(out@).push(frame@));
                }
                out.push(frame);
                start = i + 2;
                i = start;
            } else {
                i += 1;
            }
        }
        proof {
            let rest = all.skip(start as int);
            lemma_blank_line(rest);
            if let Some(at) = blank_line(rest) {
                assert(all[start + at] == rest[at] && all[start + at + 1] == rest[at + 1]);
            }
            assert(text::texts(out@) + frames(rest) =~= text::texts(out@));
        }
        let end: usize = self.pending.len();
        self.pending = text::slice_of(&self.pending, start, end);
        assert(self.pending@ =~= all.skip(start as int));
        out
    }
}

/// The payload of a line: what follows `data:` and one space, if there is one.
pub open spec fn payload(line: Seq<char>) -> Option<Seq<char>> {
    if "data:"@.is_prefix_of(line) {
        let value = line.skip("data:"@.len() as int);
        if value.len() > 0 && value[0] == ' ' {
            Some(value.skip(1))
        } else {
            Some(value)
        }
    } else {
        None
    }
}

/// The payloads of the lines that have one.
pub open spec fn payloads(lines: Seq<Seq<char>>) -> Seq<Seq<char>>
    decreases lines.len(),
{
    if lines.len() == 0 {
        Seq::empty()
    } else {
        let rest = payloads(lines.drop_last());
        match payload(lines.last()) {
            Some(value) => rest.push(value),
            None => rest,
        }
    }
}

/// The data of a frame: the payloads of its lines, joined by line feeds. None if there is no
/// such line.
pub open spec fn frame_data(frame: Seq<char>) -> Option<Seq<char>> {
    let data = payloads(text::lines(frame));
    if data.len() == 0 {
        None
    } else {
        Some(text::joined(data))
    }
}

/// The data of a frame.
pub fn sse_data(frame: &str) -> (res: Option<String>)
    ensures
        text::opt_text(res) == frame_data(frame@),
{
    let lines = text::lines_of(frame);
    let mut data: Vec<String> = Vec::new();
    let ghost all = text::lines(frame@);
    let mut i: usize = 0;
    assert(payloads(all.take(0)) =~= text::texts(data@));
    proof {
        reveal_strlit("data:");
    }
    while i < lines.len()
        invariant
            i <= lines@.len(),
            lines.deep_view() == all,
            "data:"@.len() == 5,
            text::texts(data@) == payloads(all.take(i as int)),
        decreases lines@.len() - i,
    {
        let line = &lines[i];
        let ghost before = text::texts(data@);
        proof {
            assert(all.take(i as int + 1).drop_last() =~= all.take(i as int));
            assert(all[i as int] == lines@[i as int].deep_view());
            assert(lines@[i as int].deep_view() =~= line@);
        }
        if text::starts_with(line, "data:") {
            let from: usize = if line.len() > 5 && line[5] == ' ' {
                6
            } else {
                5
            };
            let value = text::text_of(line, from, line.len());
            assert(payload(line@) == Some(value@)) by {
                let v = line@.skip(5);
                if v.len() > 0 && v[0] == ' ' {
                    assert(v.skip(1) =~= line@.subrange(6, line@.len() as int));
                } else {
                    assert(v =~= line@.subrange(5, line@.len() as int));
                }
            }
            data.push(value);
            assert(text::texts(data@) =~= before.push(value@));
        }
        i += 1;
    }
    assert(all.take(i as int) =~= all);
    if data.len() == 0 {
        None
    } else {
        Some(text::join_lines(&data))
    }
}

/// The level that an integrator's name gives.
pub open spec fn level_of(name: Seq<char>) -> Option<u8> {
    if "FB"@.is_prefix_of(name) {
        match text::parsed(name.skip("FB"@.len() as int), 255) {
            Some(n) => Some(n as u8),
            None => None,
        }
    } else {
        None
    }
}

/// The level that an integrator's name gives.
pub fn integrator_level(s: &str) -> (res: Option<u8>)
    ensures
        res == level_of(s@),
{
    let chars = text::chars_of(s);
    proof {
        reveal_strlit("FB");
    }
    if !text::starts_with(&chars, "FB") {
        return None;
    }
    let number = text::text_of(&chars, 2, chars.len());
    assert(number@ =~= s@.skip(2));
    match text::parse_number(number.as_str(), 255) {
        Some(n) => Some(n as u8),
        None => None,
    }
}

/// The name that is given to a level is read as that level.
pub proof fn level_name_reads_back(level: u8)
    ensures
        level_of(crate::hardware::level_name(level)) == Some(level),
{
    let name = crate::hardware::level_name(level);
    let number = text::decimal(level as nat);
    assert("FB"@ =~= name.subrange(0, "FB"@.len() as int));
    assert(name.skip("FB"@.len() as int) =~= number);
    text::decimal_reads_back(level as nat, 255);
}

/// Where a level first stands among the sensitivities of a device.
pub open spec fn level_index(levels: Seq<u8>, level: u8) -> Option<int>
    decreases levels.len(),
{
    if levels.len() == 0 {
        None
    } else if levels[0] == level {
        Some(0)
    } else {
        match level_index(levels.skip(1), level) {
            Some(i) => Some(i + 1),
            None => None,
        }
    }
}

proof fn lemma_level_index(levels: Seq<u8>, level: u8, i: int)
    requires
        0 <= i <= levels.len(),
        forall|k: int| 0 <= k < i ==> #[trigger] levels[k] != level,
        i < levels.len() ==> levels[i] == level,
    ensures
        level_index(levels, level) == (if i < levels.len() {
            Some(i)
        } else {
            None
        }),
    decreases levels.len(),
{
    if i > 0 {
        assert(levels[0] != level);
        assert forall|k: int| 0 <= k < i - 1 implies #[trigger] levels.skip(1)[k] != level by {
            assert(levels[k + 1] != level);
        }
        lemma_level_index(levels.skip(1), level, i - 1);
    }
}

fn find_level(levels: &Vec<u8>, level: u8) -> (res: Option<usize>)
    ensures
        match res {
            Some(i) => level_index(levels@, level) == Some(i as int) && i < levels@.len(),
            None => level_index(levels@, level) is None,
        },
{
    let mut i: usize = 0;
    while i < levels.len()
        invariant
            i <= levels@.len(),
            forall|k: int| 0 <= k < i ==> #[trigger] levels@[k] != level,
        decreases levels@.len() - i,
    {
        if levels[i] == level {
            proof {
                lemma_level_index(levels@, level, i as int);
            }
            return Some(i);
        }
        i += 1;
    }
    proof {
        lemma_level_index(levels@, level, i as int);
    }
    None
}

/// The sensitivity that a device is found to have been switched to, if it is news.
pub open spec fn news(device: DeviceState, level: u8) -> Option<int> {
    match level_index(device.config.sensitivities@, level) {
        Some(index) => if device.current_sensitivity != index {
            Some(index)
        } else {
            None
        },
        None => None,
    }
}

/// The name of the wall current monitor that a dark-charge device shares the hardware of.
pub open spec fn wcm_name(name: Seq<char>) -> Option<Seq<char>> {
    let n = name.len() - ":DQ"@.len();
    if n >= 0 && name.skip(n) == ":DQ"@ {
        Some(name.take(n))
    } else {
        None
    }
}

/// Whether a device has been set to a level here, as far as is known: it is selected, and no one
/// else has changed it.
pub open spec fn was_set_here(device: DeviceState, level: u8) -> bool {
    &&& device.config.device_type == DeviceType::Wcm
    &&& device.current_sensitivity < device.config.sensitivities@.len()
    &&& device.config.sensitivities@[device.current_sensitivity as int] == level
    &&& !device.calibration_mismatch
}

/// Whether a device shares its box with a wall current monitor that has been set to a level here.
pub open spec fn follows(state: InnerState, device: DeviceState, level: u8) -> bool {
    &&& device.config.device_type == DeviceType::Dq
    &&& wcm_name(device.name@) matches Some(name)
    &&& state.find(name) matches Some(i)
    &&& was_set_here(state.devices@[i], level)
}

fn name_of_wcm(name: &str) -> (res: Option<String>)
    ensures
        text::opt_text(res) == wcm_name(name@),
{
    let chars = text::chars_of(name);
    proof {
        reveal_strlit(":DQ");
    }
    if chars.len() < 3 {
        return None;
    }
    let n: usize = chars.len() - 3;
    let ending = text::text_of(&chars, n, chars.len());
    assert(ending@ =~= name@.skip(n as int));
    if text::same_text(ending.as_str(), ":DQ") {
        let head = text::text_of(&chars, 0, n);
        assert(head@ =~= name@.take(n as int));
        Some(head)
    } else {
        None
    }
}

fn is_follower(state: &InnerState, device: &DeviceState, level: u8) -> (res: bool)
    ensures
        res == follows(*state, *device, level),
{
    if device.config.device_type != DeviceType::Dq {
        return false;
    }
    match name_of_wcm(device.name.as_str()) {
        Some(name) => match state.device(name.as_str()) {
            Some(wcm) => wcm.config.device_type == DeviceType::Wcm && wcm.current_sensitivity
                < wcm.config.sensitivities.len()
                && wcm.config.sensitivities[wcm.current_sensitivity] == level
                && !wcm.calibration_mismatch,
            None => false,
        },
        None => false,
    }
}

/// The warning about a sensitivity that someone else has changed.
pub open spec fn foreign_change(device: Seq<char>, level: u8) -> EffectView {
    commands::notice(
        NotificationLevel::Warning,
        "Sensitivity changed externally to FB"@ + text::decimal(level as nat) + " for "@ + device,
        device,
    )
}

/// What it comes to that a box reports a level.
pub open spec fn level_taken(
    was: InnerState,
    now: InnerState,
    device_index: nat,
    level: u8,
    told: Seq<EffectView>,
) -> bool {
    &&& now == (InnerState { devices: now.devices, ..was })
    &&& if device_index < was.devices@.len() && news(
        was.devices@[device_index as int],
        level,
    ) is Some {
        let device = was.devices@[device_index as int];
        let index = news(device, level).unwrap();
        let mismatch = device.calibration_mismatch || !follows(was, device, level);
        let update = EffectView::Send(
            ServerMessageView::StateUpdate {
                device: device.name@,
                sensitivity: index as nat,
                calibration_mismatch: mismatch,
            },
        );
        &&& now.devices@ == was.devices@.update(
            device_index as int,
            (DeviceState {
                current_sensitivity: index as usize,
                calibration_mismatch: mismatch,
                ..device
            }),
        )
        &&& told == (if follows(was, device, level) {
            seq![update]
        } else {
            seq![update, foreign_change(device.name@, level)]
        })
    } else {
        now.devices@ == was.devices@ && told == Seq::<EffectView>::empty()
    }
}

/// Takes over a level that a box reports. If it is news, the calibration may no longer match, and
/// the operators are warned, unless the device follows one that has been set here.
pub fn take_level(level: u8, device_index: usize, state: &mut InnerState) -> (res: Vec<Effect>)
    requires
        old(state).wf(),
    ensures
        final(state).wf(),
        level_taken(
            *old(state),
            *final(state),
            device_index as nat,
            level,
            commands::effects(res@),
        ),
{
    let mut out: Vec<Effect> = Vec::new();
    assert(commands::effects(out@) =~= Seq::<EffectView>::empty());
    if device_index >= state.devices.len() {
        return out;
    }
    let index: usize = match find_level(&state.devices[device_index].config.sensitivities, level) {
        Some(index) => index,
        None => {
            return out;
        },
    };
    if state.devices[device_index].current_sensitivity == index {
        return out;
    }
    let follower = is_follower(state, &state.devices[device_index], level);
    let mismatch = state.devices[device_index].calibration_mismatch || !follower;
    let device = &mut state.devices[device_index];
    device.current_sensitivity = index;
    device.calibration_mismatch = mismatch;
    let name: String = state.devices[device_index].name.clone();
    let update = Effect::Send(
        ServerMessage::StateUpdate {
            device: name.clone(),
            sensitivity: index,
            calibration_mismatch: mismatch,
        },
    );
    let ghost first = update@;
    out.push(update);
    if follower {
        assert(commands::effects(out@) =~= seq![first]);
        return out;
    }
    let warning = notify(
        NotificationLevel::Warning,
        text::cat4(
            "Sensitivity changed externally to FB",
            text::decimal_text(level as u64).as_str(),
            " for ",
            name.as_str(),
        ),
        name.as_str(),
    );
    let ghost told = seq![first, warning@];
    out.push(warning);
    assert(commands::effects(out@) =~= told);
    out
}

/// The level that settings report.
pub open spec fn reported_level(found: JsonAtView) -> Option<u8> {
    match found {
        JsonAtView::Text(name) => level_of(name),
        _ => None,
    }
}

/// The level that is reported by what was found in settings as the integrator.
pub fn level_found(found: &JsonAt) -> (res: Option<u8>)
    ensures
        res == reported_level(found@),
{
    match found {
        JsonAt::Text(name) => integrator_level(name.as_str()),
        _ => None,
    }
}

/// Takes over the settings that a box reports. Settings without a level are ignored.
pub fn handle_settings(settings: &str, device_index: usize, state: &mut InnerState) -> (res: Vec<
    Effect,
>)
    requires
        old(state).wf(),
    ensures
        final(state).wf(),
        match reported_level(json::json_at(settings@, "/integrator"@)) {
            Some(level) => level_taken(
                *old(state),
                *final(state),
                device_index as nat,
                level,
                commands::effects(res@),
            ),
            None => *final(state) == *old(state) && res@.len() == 0,
        },
{
    match level_found(&find_json(settings, "/integrator")) {
        Some(level) => take_level(level, device_index, state),
        None => Vec::new(),
    }
}

/// What the server has set itself is no news when the box reports it: a device whose levels are
/// distinct, at an index, is found at that index by the level there.
pub proof fn own_change_is_no_news(device: DeviceState)
    requires
        device.current_sensitivity < device.config.sensitivities@.len(),
        device.config.sensitivities@.no_duplicates(),
    ensures
        news(
            device,
            device.config.sensitivities@[device.current_sensitivity as int],
        ) is None,
{
    let levels = device.config.sensitivities@;
    let index = device.current_sensitivity as int;
    assert forall|k: int| 0 <= k < index implies #[trigger] levels[k] != levels[index] by {}
    lemma_level_index(levels, levels[index], index);
}

/// Nor is it for the dark-charge device that shares the box: it takes over the level of a wall
/// current monitor that was set here, where it has that level, without a warning and without being
/// marked.
pub proof fn own_change_is_no_news_to_companion(
    was: InnerState,
    now: InnerState,
    wcm: int,
    dq: nat,
    told: Seq<EffectView>,
)
    requires
        0 <= wcm < was.devices@.len(),
        dq < was.devices@.len(),
        crate::state::names(was.devices@).no_duplicates(),
        was.devices@[dq as int].name@ == was.devices@[wcm].name@ + ":DQ"@,
        was.devices@[dq as int].config.device_type == DeviceType::Dq,
        was.devices@[wcm].config.device_type == DeviceType::Wcm,
        was.devices@[wcm].current_sensitivity < was.devices@[wcm].config.sensitivities@.len(),
        !was.devices@[wcm].calibration_mismatch,
        level_taken(
            was,
            now,
            dq,
            was.devices@[wcm].config.sensitivities@[was.devices@[wcm].current_sensitivity as int],
            told,
        ),
    ensures
        now.devices@.len() == was.devices@.len(),
        now.devices@[dq as int].calibration_mismatch == was.devices@[dq as int].calibration_mismatch,
        match level_index(
            was.devices@[dq as int].config.sensitivities@,
            was.devices@[wcm].config.sensitivities@[was.devices@[wcm].current_sensitivity as int],
        ) {
            Some(index) => now.devices@[dq as int].current_sensitivity == index,
            None => now.devices@ == was.devices@,
        },
        forall|k: int| 0 <= k < told.len() ==> !(#[trigger] told[k] is Notify),
{
    let device = was.devices@[dq as int];
    let name = was.devices@[wcm].name@;
    let n = name.len() as int;
    assert(device.name@.skip(n) =~= ":DQ"@);
    assert(device.name@.take(n) =~= name);
    crate::state::names_find_their_devices(was, wcm);
    let level = was.devices@[wcm].config.sensitivities@[was.devices@[wcm].current_sensitivity as int];
    assert(follows(was, device, level));
    lemma_level_index_fits(device.config.sensitivities@, level);
    assert(device.config.sensitivities@.len() == device.config.sensitivities.len());
}

proof fn lemma_level_index_fits(levels: Seq<u8>, level: u8)
    ensures
        level_index(levels, level) matches Some(i) ==> 0 <= i < levels.len(),
    decreases levels.len(),
{
    if levels.len() > 0 && levels[0] != level {
        lemma_level_index_fits(levels.skip(1), level);
    }
}

/// A level that a box reports is taken for the first place where it stands among the levels of the
/// device, and for none if it stands nowhere.
pub proof fn levels_stand_for_their_place(levels: Seq<u8>, level: u8, i: int)
    requires
        0 <= i <= levels.len(),
        forall|k: int| 0 <= k < i ==> #[trigger] levels[k] != level,
        i < levels.len() ==> levels[i] == level,
    ensures
        i < levels.len() ==> level_index(levels, level) == Some(i),
        i == levels.len() ==> level_index(levels, level) is None,
{
    lemma_level_index(levels, level, i);
}

/// A change that was not made here is taken over: the device is at the place of the level that its
/// box reports, marked as of doubtful calibration, and all clients are told, with a warning that
/// names the device. No other device changes. A change of a dark-charge device was made here only if
/// its wall current monitor is at that level and not marked itself.
pub proof fn foreign_changes_are_taken_over(
    was: InnerState,
    now: InnerState,
    device_index: nat,
    level: u8,
    told: Seq<EffectView>,
    i: int,
)
    requires
        level_taken(was, now, device_index, level, told),
        device_index < was.devices@.len(),
        was.devices@[device_index as int].config.device_type == DeviceType::Dq ==> forall|j: int|
            0 <= j < was.devices@.len() && (#[trigger] was.devices@[j]).name@ + ":DQ"@
                == was.devices@[device_index as int].name@ && was.devices@[j].config.device_type
                == DeviceType::Wcm && !was.devices@[j].calibration_mismatch
                && was.devices@[j].current_sensitivity
                < was.devices@[j].config.sensitivities@.len()
                ==> was.devices@[j].config.sensitivities@[was.devices@[j].current_sensitivity as int]
                != level,
        0 <= i < was.devices@[device_index as int].config.sensitivities@.len(),
        was.devices@[device_index as int].config.sensitivities@.len() <= usize::MAX,
        was.devices@[device_index as int].config.sensitivities@[i] == level,
        forall|k: int|
            0 <= k < i ==> #[trigger] was.devices@[device_index as int].config.sensitivities@[k]
                != level,
        was.devices@[device_index as int].current_sensitivity != i,
    ensures
        ({
            let before = was.devices@[device_index as int];
            let after = now.devices@[device_index as int];
            &&& after == (DeviceState {
                current_sensitivity: i as usize,
                calibration_mismatch: true,
                ..before
            })
            &&& told.contains(
                EffectView::Send(
                    ServerMessageView::StateUpdate {
                        device: before.name@,
                        sensitivity: i as nat,
                        calibration_mismatch: true,
                    },
                ),
            )
            &&& told.len() == 2
            &&& told[1] matches EffectView::Notify { level, device, .. } && level
                == NotificationLevel::Warning && device == Some(before.name@)
        }),
        forall|k: int|
            0 <= k < was.devices@.len() && k != device_index ==> #[trigger] now.devices@[k]
                == was.devices@[k],
        now == (InnerState { devices: now.devices, ..was }),
{
    let before = was.devices@[device_index as int];
    lemma_level_index(before.config.sensitivities@, level, i);
    if follows(was, before, level) {
        let name = wcm_name(before.name@).unwrap();
        let j = was.find(name).unwrap();
        crate::state::lemma_found(crate::state::names(was.devices@), name);
        assert(was.devices@[j].name@ == name);
        assert(name + ":DQ"@ =~= before.name@);
    }
    assert(told[0] == EffectView::Send(
        ServerMessageView::StateUpdate {
            device: before.name@,
            sensitivity: i as nat,
            calibration_mismatch: true,
        },
    ));
}

/// A level that the device does not have, or that is selected already, changes nothing and makes no
/// noise.
pub proof fn levels_that_are_no_news_change_nothing(
    was: InnerState,
    now: InnerState,
    device_index: nat,
    level: u8,
    told: Seq<EffectView>,
    i: int,
)
    requires
        level_taken(was, now, device_index, level, told),
        device_index < was.devices@.len(),
        0 <= i <= was.devices@[device_index as int].config.sensitivities@.len(),
        forall|k: int|
            0 <= k < i ==> #[trigger] was.devices@[device_index as int].config.sensitivities@[k]
                != level,
        i < was.devices@[device_index as int].config.sensitivities@.len()
            ==> was.devices@[device_index as int].config.sensitivities@[i] == level
            && was.devices@[device_index as int].current_sensitivity == i,
    ensures
        now.devices@ == was.devices@,
        now == (InnerState { devices: now.devices, ..was }),
        told.len() == 0,
{
    lemma_level_index(was.devices@[device_index as int].config.sensitivities@, level, i);
}

/// Nothing of a stream is lost or made up: its frames, one after the other, and what is left over
/// are the stream. Each frame ends with its only blank line, and there is none in what is left over.
pub proof fn frames_lose_nothing(s: Seq<char>)
    ensures
        frames(s).flatten() + leftover(s) == s,
        forall|k: int|
            0 <= k < frames(s).len() ==> (#[trigger] frames(s)[k]).len() >= 2 && blank_line(
                frames(s)[k],
            ) == Some(frames(s)[k].len() - 2),
        forall|k: int|
            0 <= k < leftover(s).len() - 1 ==> !(#[trigger] leftover(s)[k] == '\n' && leftover(
                s,
            )[k + 1] == '\n'),
    decreases s.len(),
{
    lemma_blank_line(s);
    match blank_line(s) {
        Some(i) => {
            let first = s.take(i + 2);
            let rest = s.skip(i + 2);
            frames_lose_nothing(rest);
            assert forall|k: int| 0 <= k < i implies !(#[trigger] first[k] == '\n' && first[k + 1]
                == '\n') by {
                assert(!(s[k] == '\n' && s[k + 1] == '\n'));
            }
            lemma_blank_line_is(first, i);
            assert(frames(s)[0] == first);
            assert(frames(s).drop_first() =~= frames(rest));
            assert(frames(s).flatten() == first + frames(rest).flatten());
            assert(first + (frames(rest).flatten() + leftover(rest)) =~= s);
            assert(frames(s).flatten() + leftover(s) =~= s);
            assert forall|k: int| 0 <= k < frames(s).len() implies (#[trigger] frames(s)[k]).len()
                >= 2 && blank_line(frames(s)[k]) == Some(frames(s)[k].len() - 2) by {
                if k > 0 {
                    assert(frames(s)[k] == frames(rest)[k - 1]);
                }
            }
        },
        None => {
            assert(frames(s).flatten() + leftover(s) =~= s);
        },
    }
}

/// What a frame carries as one line of data is read from it as it is.
pub proof fn data_reads_back(data: Seq<char>)
    requires
        !data.contains('\n'),
        data.len() > 0 ==> data.last() != '\r',
    ensures
        frame_data("data: "@ + data + "\n\n"@) == Some(data),
{
    reveal_strlit("data: ");
    reveal_strlit("data:");
    reveal_strlit("\n\n");
    let line = "data: "@ + data;
    let frame = line + "\n\n"@;
    let n = line.len() as int;
    assert forall|i: int| 0 <= i < n implies frame[i] != '\n' by {
        if i >= 6 {
            assert(frame[i] == data[i - 6]);
            assert(data.contains(data[i - 6]));
        }
    }
    text::lemma_first_at_is(frame, '\n', n);
    assert(frame.take(n) =~= line);
    assert(line.last() != '\r') by {
        if data.len() > 0 {
            assert(line.last() == data.last());
        } else {
            assert(line.last() == "data: "@[5]);
        }
    }
    let rest = frame.skip(n + 1);
    assert(rest =~= seq!['\n']);
    text::lemma_first_at_is(rest, '\n', 0);
    assert(rest.take(0) =~= Seq::<char>::empty());
    assert(rest.skip(1) =~= Seq::<char>::empty());
    reveal_with_fuel(text::lines, 4);
    let all = text::lines(frame);
    assert(all =~= seq![line, Seq::<char>::empty()]);
    reveal_with_fuel(payloads, 4);
    assert("data:"@ =~= line.subrange(0, 5));
    assert(line.skip(5)[0] == ' ');
    assert(line.skip(5).skip(1) =~= data);
    assert(payload(line) == Some(data));
    assert(payload(Seq::<char>::empty()) is None);
    assert(all.drop_last() =~= seq![line]);
    assert(all.drop_last().drop_last() =~= Seq::<Seq<char>>::empty());
    assert(payloads(all) =~= seq![data]);
    assert(frame =~= "data: "@ + data + "\n\n"@);
}

/// A line of data loses one space behind its name, if it has one, and nothing else. Other lines
/// carry nothing.
pub proof fn one_space_is_dropped(data: Seq<char>, line: Seq<char>)
    ensures
        payload("data: "@ + data) == Some(data),
        data.len() == 0 || data[0] != ' ' ==> payload("data:"@ + data) == Some(data),
        payload(line) is None <==> !"data:"@.is_prefix_of(line),
{
    reveal_strlit("data: ");
    reveal_strlit("data:");
    assert("data:"@ =~= ("data: "@ + data).subrange(0, 5));
    assert(("data: "@ + data).skip(5).skip(1) =~= data);
    assert("data:"@ =~= ("data:"@ + data).subrange(0, 5));
    assert(("data:"@ + data).skip(5) =~= data);
}

}
