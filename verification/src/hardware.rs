//! What is sent to the front-end boxes, and what their answers mean.
//!
//! A box takes settings over HTTP. Boxes with older firmware take a line of JSON over a plain
//! connection to the same port.

use vstd::prelude::*;

use crate::consts::FRONT_END_PORT;
use crate::json;
use crate::json::{find_json, set_json, JsonAt, JsonAtView};
use crate::text;

verus! {

/// How a box takes its settings.
#[derive(Clone, Copy, Debug, PartialEq, Eq, Structural)]
pub enum FrontEndApi {
    Http,
    Legacy,
}

/// A status of success.
pub open spec fn is_success(status: u16) -> bool {
    200 <= status <= 299
}

/// How a box takes its settings, by the status with which it answered.
pub open spec fn api_of(status: Option<u16>) -> FrontEndApi {
    match status {
        Some(code) => if is_success(code) {
            FrontEndApi::Http
        } else {
            FrontEndApi::Legacy
        },
        None => FrontEndApi::Legacy,
    }
}

/// How a box takes its settings, by the status with which it answered a request for them. A box
/// that gives no answer is an old one.
pub fn detect_api(status: Option<u16>) -> (res: FrontEndApi)
    ensures
        res == api_of(status),
{
    match status {
        Some(code) => if 200 <= code && code <= 299 {
            FrontEndApi::Http
        } else {
            FrontEndApi::Legacy
        },
        None => FrontEndApi::Legacy,
    }
}

/// The text of the front-end port.
pub open spec fn port_text() -> Seq<char> {
    text::decimal(FRONT_END_PORT as nat)
}

/// Where a box is reached over HTTP.
pub fn base_url(ip: &str) -> (res: String)
    ensures
        res@ == "http://"@ + ip@ + ":"@ + port_text(),
{
    text::cat4("http://", ip, ":", text::decimal_text(FRONT_END_PORT as u64).as_str())
}

/// Where a box is reached over a plain connection.
pub fn address(ip: &str) -> (res: String)
    ensures
        res@ == ip@ + ":"@ + port_text(),
{
    text::cat3(ip, ":", text::decimal_text(FRONT_END_PORT as u64).as_str())
}

/// Where the settings of a box are.
pub fn settings_url(base_url: &str) -> (res: String)
    ensures
        res@ == base_url@ + "/settings"@,
{
    text::cat2(base_url, "/settings")
}

/// Where the events of a box are.
pub fn events_url(ip: &str) -> (res: String)
    ensures
        res@ == "http://"@ + ip@ + ":"@ + port_text() + "/events"@,
{
    text::cat2(base_url(ip).as_str(), "/events")
}

/// The error about a device without a box.
pub open spec fn no_address() -> Seq<char> {
    "No IP address configured for device"@
}

/// Tells whether a device has a box at all.
pub fn check_address(ip: &str) -> (res: Result<(), String>)
    ensures
        match res {
            Ok(_) => ip@.len() > 0,
            Err(e) => ip@.len() == 0 && e@ == no_address(),
        },
{
    if ip.unicode_len() == 0 {
        Err("No IP address configured for device".to_string())
    } else {
        Ok(())
    }
}

/// What the answer to a request means: an error for any status but success.
pub fn check_response(url: &str, status: u16, status_text: &str, body: &str) -> (res: Result<
    (),
    String,
>)
    ensures
        match res {
            Ok(_) => is_success(status),
            Err(e) => !is_success(status) && e@ == url@ + " returned "@ + status_text@ + ": "@
                + body@,
        },
{
    if 200 <= status && status <= 299 {
        Ok(())
    } else {
        Err(text::cat5(url, " returned ", status_text, ": ", body))
    }
}

/// A text to be posted as JSON.
#[derive(Clone, Debug)]
pub struct FieldPost {
    pub url: String,
    pub value: String,
}

/// The posts, one after the other.
pub open spec fn posts(list: Seq<FieldPost>) -> Seq<(Seq<char>, Seq<char>)> {
    list.map_values(|p: FieldPost| (p.url@, p.value@))
}

/// Where a field of the settings is.
pub open spec fn field_url(ip: Seq<char>, path: Seq<char>) -> Seq<char> {
    "http://"@ + ip + ":"@ + port_text() + "/settings/"@ + path
}

fn field_post(ip: &str, path: &str, value: String) -> (res: FieldPost)
    ensures
        res.url@ == field_url(ip@, path@),
        res.value == value,
{
    let base = base_url(ip);
    FieldPost { url: text::cat3(base.as_str(), "/settings/", path), value }
}

/// The name of a feedback level.
pub open spec fn level_name(level: u8) -> Seq<char> {
    "FB"@ + text::decimal(level as nat)
}

fn level_text(level: u8) -> (res: String)
    ensures
        res@ == level_name(level),
{
    text::cat2("FB", text::decimal_text(level as u64).as_str())
}

/// The settings of an old box.
#[derive(Clone, Debug)]
pub struct FrontEndSettings {
    pub calibration: Calibration,
    pub io: InputOutput,
    pub integrator: String,
    pub power: Power,
    pub meta: Meta,
}

#[derive(Clone, Debug)]
pub struct Calibration {
    pub reference: String,
    pub level: u16,
    pub trigger: u16,
    pub offset: u16,
}

#[derive(Clone, Debug)]
pub struct InputOutput {
    pub input: String,
    pub output: String,
    pub reference: String,
}

#[derive(Clone, Copy, Debug, PartialEq, Eq, Structural)]
pub struct Power {
    pub positive: bool,
    pub negative: bool,
    pub integrator: bool,
}

#[derive(Clone, Debug)]
pub struct Meta {
    pub last_changed: [u64; 2],
    pub device_name: String,
    pub device_location: String,
}

impl FrontEndSettings {
    /// The settings of normal operation with an integrator.
    pub open spec fn is_normal(self, integrator: Seq<char>) -> bool {
        &&& self.calibration.reference@ == "REF2048mV"@
        &&& self.calibration.level == 128
        &&& self.calibration.trigger == 1
        &&& self.calibration.offset == 1
        &&& self.io.input@ == "EXT"@
        &&& self.io.output@ == "TERM"@
        &&& self.io.reference@ == "REF500mV"@
        &&& self.integrator@ == integrator
        &&& self.power == (Power { positive: true, negative: true, integrator: true })
        &&& self.meta.last_changed@ == seq![0u64, 0u64]
        &&& self.meta.device_name@.len() == 0
        &&& self.meta.device_location@.len() == 0
    }
}

impl Default for FrontEndSettings {
    fn default() -> (res: FrontEndSettings)
        ensures
            res.is_normal("FB0"@),
    {
        let res = FrontEndSettings {
            calibration: Calibration {
                reference: "REF2048mV".to_string(),
                level: 128,
                trigger: 1,
                offset: 1,
            },
            io: InputOutput {
                input: "EXT".to_string(),
                output: "TERM".to_string(),
                reference: "REF500mV".to_string(),
            },
            integrator: "FB0".to_string(),
            power: Power { positive: true, negative: true, integrator: true },
            meta: Meta {
                last_changed: [0, 0],
                device_name: String::new(),
                device_location: String::new(),
            },
        };
        assert(res.meta.last_changed@ =~= seq![0u64, 0u64]);
        res
    }
}

/// The settings of an old box at a level.
pub fn settings_for_sensitivity(level: u8) -> (res: FrontEndSettings)
    ensures
        res.is_normal(level_name(level)),
{
    let mut settings = FrontEndSettings::default();
    settings.integrator = level_text(level);
    settings
}

/// The settings of an old box at a level, with calibration mode off.
pub fn settings_for_clear_calibration(level: u8) -> (res: FrontEndSettings)
    ensures
        res.is_normal(level_name(level)),
{
    let mut settings = settings_for_sensitivity(level);
    settings.io.input = "EXT".to_string();
    settings
}

/// What is sent to a box.
#[derive(Clone, Debug)]
pub enum FrontEndRequest {
    /// Posts, to be sent one after the other by a `PostRun`.
    Http(Vec<FieldPost>),
    /// A line of JSON.
    Legacy { address: String, settings: FrontEndSettings },
}

/// The posts of a request that are being sent, one after the other. The first that fails ends it.
#[derive(Clone, Debug)]
pub struct PostRun {
    todo: Vec<FieldPost>,
    next: usize,
}

impl PostRun {
    /// The posts that are still to be sent.
    pub closed spec fn pending(self) -> Seq<(Seq<char>, Seq<char>)> {
        posts(self.todo@).skip(self.next as int)
    }

    pub closed spec fn wf(self) -> bool {
        self.next <= self.todo@.len()
    }

    /// Starts to send posts.
    pub fn begin(list: Vec<FieldPost>) -> (res: PostRun)
        ensures
            res.wf(),
            res.pending() == posts(list@),
    {
        let res = PostRun { todo: list, next: 0 };
        assert(res.pending() =~= posts(list@));
        res
    }

    /// The next post, if any is left.
    pub fn next_post(&self) -> (res: Option<&FieldPost>)
        requires
            self.wf(),
        ensures
            match res {
                Some(p) => self.pending().len() > 0 && (p.url@, p.value@) == self.pending()[0],
                None => self.pending().len() == 0,
            },
    {
        if self.next < self.todo.len() {
            Some(&self.todo[self.next])
        } else {
            None
        }
    }

    /// Takes what came of the next post. Gives what came of the request, if that is known now: an
    /// error ends it with that error, and what is left is not sent; it succeeds when the last
    /// post did.
    pub fn posted(&mut self, outcome: Result<(), String>) -> (res: Option<Result<(), String>>)
        requires
            old(self).wf(),
            old(self).pending().len() > 0,
        ensures
            final(self).wf(),
            final(self).pending() == pending_after(
                old(self).pending(),
                text::error_text(outcome),
            ),
            match res {
                Some(result) => request_result(old(self).pending(), text::error_text(outcome))
                    == Some(text::error_text(result)),
                None => request_result(old(self).pending(), text::error_text(outcome)) is None,
            },
    {
        match outcome {
            Ok(_) => {
                assert(self.next < self.todo.len());
                self.next = self.next + 1;
                assert(self.pending() =~= old(self).pending().skip(1));
                if self.next < self.todo.len() {
                    None
                } else {
                    Some(Ok(()))
                }
            },
            Err(e) => {
                self.next = self.todo.len();
                assert(self.pending() =~= Seq::empty());
                Some(Err(e))
            },
        }
    }
}

/// What is still to be sent after a post that succeeded, or failed with an error.
pub open spec fn pending_after(
    pending: Seq<(Seq<char>, Seq<char>)>,
    error: Option<Seq<char>>,
) -> Seq<(Seq<char>, Seq<char>)> {
    match error {
        None => pending.skip(1),
        Some(_) => Seq::empty(),
    }
}

/// What came of a request, if that is known after a post: no error, or the one that ended it.
pub open spec fn request_result(
    pending: Seq<(Seq<char>, Seq<char>)>,
    error: Option<Seq<char>>,
) -> Option<Option<Seq<char>>> {
    match error {
        None => if pending.len() == 1 {
            Some(None)
        } else {
            None
        },
        Some(e) => Some(Some(e)),
    }
}

/// What is still to be sent after what came of the posts before, one after the other.
pub open spec fn pending_past(
    pending: Seq<(Seq<char>, Seq<char>)>,
    errors: Seq<Option<Seq<char>>>,
) -> Seq<(Seq<char>, Seq<char>)>
    decreases errors.len(),
{
    if errors.len() == 0 {
        pending
    } else {
        pending_after(pending_past(pending, errors.drop_last()), errors.last())
    }
}

/// A request sends its posts in order until one fails: after `sent` posts that did not, the next
/// of them comes. If that fails, its error is what came of the request, and no further one is
/// sent. The request succeeds if and only if the last post does, and with it all of them.
pub proof fn first_failed_post_ends_request(
    pending: Seq<(Seq<char>, Seq<char>)>,
    sent: nat,
    error: Option<Seq<char>>,
)
    requires
        sent < pending.len(),
    ensures
        ({
            let so_far = Seq::new(sent, |k: int| None::<Seq<char>>);
            let left = pending_past(pending, so_far);
            &&& left == pending.skip(sent as int)
            &&& left[0] == pending[sent as int]
            &&& error is Some ==> pending_past(pending, so_far.push(error)).len() == 0
            &&& error is Some ==> request_result(left, error) == Some(error)
            &&& error is None ==> pending_past(pending, so_far.push(error)) == pending.skip(
                sent as int + 1,
            )
            &&& request_result(left, error) == Some(None::<Seq<char>>) <==> error is None && sent
                + 1 == pending.len()
        }),
    decreases sent,
{
    let so_far = Seq::new(sent, |k: int| None::<Seq<char>>);
    assert(so_far.push(error).drop_last() =~= so_far);
    if sent == 0 {
        assert(pending.skip(0) =~= pending);
    } else {
        let before = Seq::new((sent - 1) as nat, |k: int| None::<Seq<char>>);
        first_failed_post_ends_request(pending, (sent - 1) as nat, None);
        assert(so_far =~= before.push(None));
    }
    assert(pending.skip(sent as int).skip(1) =~= pending.skip(sent as int + 1));
}

/// Whether a request sets the level of a box.
pub open spec fn sets_level(
    ip: Seq<char>,
    level: u8,
    api: FrontEndApi,
    request: FrontEndRequest,
) -> bool {
    match request {
        FrontEndRequest::Http(list) => api == FrontEndApi::Http && posts(list@) == seq![
            (field_url(ip, "integrator"@), level_name(level)),
        ],
        FrontEndRequest::Legacy { address, settings } => api == FrontEndApi::Legacy && address@
            == ip + ":"@ + port_text() && settings.is_normal(level_name(level)),
    }
}

/// Whether a request puts a box into normal operation at a level.
pub open spec fn sets_normal(
    ip: Seq<char>,
    level: u8,
    api: FrontEndApi,
    request: FrontEndRequest,
) -> bool {
    match request {
        FrontEndRequest::Http(list) => api == FrontEndApi::Http && posts(list@) == seq![
            (field_url(ip, "io/input"@), "EXT"@),
            (field_url(ip, "integrator"@), level_name(level)),
        ],
        FrontEndRequest::Legacy { address, settings } => api == FrontEndApi::Legacy && address@
            == ip + ":"@ + port_text() && settings.is_normal(level_name(level)),
    }
}

/// What sets the level of a box.
pub fn set_sensitivity(ip: &str, level: u8, api: FrontEndApi) -> (res: Result<
    FrontEndRequest,
    String,
>)
    ensures
        match res {
            Err(e) => ip@.len() == 0 && e@ == no_address(),
            Ok(request) => ip@.len() > 0 && sets_level(ip@, level, api, request),
        },
{
    if let Err(e) = check_address(ip) {
        return Err(e);
    }
    match api {
        FrontEndApi::Http => {
            let list = vec![field_post(ip, "integrator", level_text(level))];
            assert(posts(list@) =~= seq![(field_url(ip@, "integrator"@), level_name(level))]);
            Ok(FrontEndRequest::Http(list))
        },
        FrontEndApi::Legacy => Ok(
            FrontEndRequest::Legacy {
                address: address(ip),
                settings: settings_for_sensitivity(level),
            },
        ),
    }
}

/// What puts a box into normal operation at a level: external input, and the integrator.
pub fn clear_calibration(ip: &str, level: u8, api: FrontEndApi) -> (res: Result<
    FrontEndRequest,
    String,
>)
    ensures
        match res {
            Err(e) => ip@.len() == 0 && e@ == no_address(),
            Ok(request) => ip@.len() > 0 && sets_normal(ip@, level, api, request),
        },
{
    if let Err(e) = check_address(ip) {
        return Err(e);
    }
    match api {
        FrontEndApi::Http => {
            let list = vec![
                field_post(ip, "io/input", "EXT".to_string()),
                field_post(ip, "integrator", level_text(level)),
            ];
            assert(posts(list@) =~= seq![
                (field_url(ip@, "io/input"@), "EXT"@),
                (field_url(ip@, "integrator"@), level_name(level)),
            ]);
            Ok(FrontEndRequest::Http(list))
        },
        FrontEndApi::Legacy => Ok(
            FrontEndRequest::Legacy {
                address: address(ip),
                settings: settings_for_clear_calibration(level),
            },
        ),
    }
}

/// What to do about the name of a box.
#[derive(Clone, Debug)]
pub enum NameAction {
    /// It has one: leave it.
    Keep,
    /// Post these settings to it.
    Write(String),
    /// Its settings cannot be given a name.
    Refuse,
}

/// Where the name of a box is in its settings.
pub open spec fn name_pointer() -> Seq<char> {
    json::member("meta"@) + json::member("device_name"@)
}

/// What the settings of a box say its name is; nothing if they say none.
pub open spec fn box_name(found: JsonAtView) -> Seq<char> {
    match found {
        JsonAtView::Text(name) => name,
        _ => Seq::empty(),
    }
}

/// Whether settings can be given a name, by what they are and what their `meta` is.
pub open spec fn can_be_named(root: JsonAtView, meta: JsonAtView) -> bool {
    (root is Null || root is Object) && json::can_hold(meta)
}

/// What to do about the name of a box, by what its settings are found to hold. What is written to
/// it are its own settings with the name in them.
pub open spec fn is_name_action(
    settings: Seq<char>,
    name: Seq<char>,
    res: NameAction,
) -> bool {
    let root = json::json_at(settings, ""@);
    let meta = json::json_at(settings, json::member("meta"@));
    if box_name(json::json_at(settings, name_pointer())).len() > 0 {
        res is Keep
    } else if can_be_named(root, meta) {
        &&& res matches NameAction::Write(body)
        &&& body@ == json::json_with(settings, "meta"@, "device_name"@, name)
        &&& json::json_at(body@, name_pointer()) == JsonAtView::Text(name)
        &&& json::json_at(body@, ""@) is Object
        &&& json::json_at(body@, json::member("meta"@)) is Object
        &&& forall|pointer: Seq<char>|
            json::is_apart(pointer, "meta"@, "device_name"@) ==> #[trigger] json::json_at(
                body@,
                pointer,
            ) == json::json_at(settings, pointer)
    } else {
        res is Refuse
    }
}

/// Decides by what was found in a box's settings whether it needs a name, and whether it can
/// be given one.
pub fn needs_name(root: &JsonAt, meta: &JsonAt, name: &JsonAt) -> (res: Option<bool>)
    ensures
        res == (if box_name(name@).len() > 0 {
            Some(false)
        } else if can_be_named(root@, meta@) {
            Some(true)
        } else {
            None
        }),
{
    if let JsonAt::Text(current) = name {
        if current.as_str().unicode_len() > 0 {
            return Some(false);
        }
    }
    let holds = matches!(root, JsonAt::Null | JsonAt::Object);
    let fits = matches!(meta, JsonAt::Null | JsonAt::Object | JsonAt::Missing);
    if holds && fits {
        Some(true)
    } else {
        None
    }
}

/// Gives a box a name, unless it has one: what to do, given its settings.
pub fn ensure_device_name(settings: &str, name: &str) -> (res: NameAction)
    ensures
        is_name_action(settings@, name@, res),
{
    let pointer = text::cat4("/", "meta", "/", "device_name");
    let meta_pointer = text::cat2("/", "meta");
    assert(pointer@ =~= name_pointer());
    let root = find_json(settings, "");
    let meta = find_json(settings, meta_pointer.as_str());
    let current = find_json(settings, pointer.as_str());
    match needs_name(&root, &meta, &current) {
        Some(false) => NameAction::Keep,
        Some(true) => {
            proof {
                reveal_strlit("meta");
                reveal_strlit("device_name");
            }
            NameAction::Write(set_json(settings, "meta", "device_name", name))
        },
        None => NameAction::Refuse,
    }
}

/// A box that was given a name keeps it: asked again, nothing is written.
pub proof fn given_name_is_kept(
    settings: Seq<char>,
    name: Seq<char>,
    first: NameAction,
    other: Seq<char>,
    second: NameAction,
)
    requires
        name.len() > 0,
        is_name_action(settings, name, first),
        first matches NameAction::Write(body) && is_name_action(body@, other, second),
    ensures
        second is Keep,
{
}

/// A box that is given a name keeps its other settings: each text of them is posted back as it
/// was, and what was not there is not added.
pub proof fn naming_changes_no_other_setting(
    settings: Seq<char>,
    name: Seq<char>,
    action: NameAction,
    key: Seq<char>,
)
    requires
        is_name_action(settings, name, action),
        action is Write,
        json::plain_key(key),
        key != "meta"@,
    ensures
        action matches NameAction::Write(body) && json::json_at(body@, json::member(key))
            == json::json_at(settings, json::member(key)),
{
    let pointer = json::member(key);
    let meta = json::member("meta"@);
    reveal_strlit("/");
    assert(pointer.skip(1) =~= key);
    assert(meta.skip(1) =~= "meta"@);
    let target = name_pointer();
    let at = meta.len() as int;
    assert(target[at] == '/');
    if pointer == target {
        assert(key[at - 1] == '/');
    }
    if (target + "/"@).is_prefix_of(pointer) {
        assert((target + "/"@)[at] == '/');
        assert(pointer[at] == pointer.subrange(0, (target + "/"@).len() as int)[at]);
        assert(key[at - 1] == '/');
    }
}

/// A box takes its settings over HTTP if and only if it answered with a status in the two hundreds.
pub proof fn success_is_in_the_two_hundreds(status: u16)
    ensures
        is_success(status) <==> status / 100 == 2,
        api_of(Some(status)) == FrontEndApi::Http <==> status / 100 == 2,
        api_of(None) == FrontEndApi::Legacy,
{
}

/// What a box is sent is the level that it reports once it is set: the last of the posts, or the
/// line to an old box, names an integrator that is read as that level. Setting a level posts nothing
/// else; normal operation first switches the input to the external one.
pub proof fn boxes_are_sent_the_level(
    ip: Seq<char>,
    level: u8,
    api: FrontEndApi,
    set: FrontEndRequest,
    normal: FrontEndRequest,
)
    requires
        sets_level(ip, level, api, set),
        sets_normal(ip, level, api, normal),
    ensures
        match set {
            FrontEndRequest::Http(list) => list@.len() == 1 && crate::fe_events::level_of(
                list@[0].value@,
            ) == Some(level),
            FrontEndRequest::Legacy { settings, .. } => crate::fe_events::level_of(
                settings.integrator@,
            ) == Some(level),
        },
        match normal {
            FrontEndRequest::Http(list) => list@.len() == 2 && list@[0].value@ == "EXT"@
                && crate::fe_events::level_of(list@[1].value@) == Some(level),
            FrontEndRequest::Legacy { settings, .. } => settings.io.input@ == "EXT"@
                && crate::fe_events::level_of(settings.integrator@) == Some(level),
        },
{
    crate::fe_events::level_name_reads_back(level);
    if let FrontEndRequest::Http(list) = set {
        assert(posts(list@).len() == list@.len());
        assert(posts(list@)[0] == (list@[0].url@, list@[0].value@));
    }
    if let FrontEndRequest::Http(list) = normal {
        assert(posts(list@).len() == list@.len());
        assert(posts(list@)[0] == (list@[0].url@, list@[0].value@));
        assert(posts(list@)[1] == (list@[1].url@, list@[1].value@));
    }
}

/// A box that has a name keeps it. One that has none is given the name, where its settings are an
/// object or nothing and so is what they say of it, and else refused.
pub proof fn boxes_are_named_once(settings: Seq<char>, name: Seq<char>, res: NameAction)
    requires
        is_name_action(settings, name, res),
    ensures
        ({
            let found = json::json_at(settings, name_pointer());
            let root = json::json_at(settings, ""@);
            let meta = json::json_at(settings, json::member("meta"@));
            let named = found matches JsonAtView::Text(had) && had.len() > 0;
            &&& res is Keep <==> named
            &&& root is NotJson || root is Array || root is Number || root is Text || root is Bool
                ==> !(res is Write)
            &&& meta is Array || meta is Number || meta is Text || meta is Bool ==> !(res is Write)
            &&& !named && (root is Null || root is Object) && (meta is Missing || meta is Null
                || meta is Object) ==> res is Write
        }),
{
}

}
