//! JSON texts, as far as they are read and written here.

use vstd::prelude::*;


verus! {

/// What is found in a JSON text at a pointer.
#[derive(Clone, Debug)]
pub enum JsonAt {
    /// The text is not JSON.
    NotJson,
    /// There is nothing at the pointer.
    Missing,
    Null,
    Object,
    Text(String),
    Bool(bool),
    /// A number, whichever it is.
    Number,
    Array,
}

#[verifier::ext_equal]
pub enum JsonAtView {
    NotJson,
    Missing,
    Null,
    Object,
    Text(Seq<char>),
    Bool(bool),
    Number,
    Array,
}

impl View for JsonAt {
    type V = JsonAtView;

    open spec fn view(&self) -> JsonAtView {
        match *self {
            JsonAt::NotJson => JsonAtView::NotJson,
            JsonAt::Missing => JsonAtView::Missing,
            JsonAt::Null => JsonAtView::Null,
            JsonAt::Object => JsonAtView::Object,
            JsonAt::Text(s) => JsonAtView::Text(s@),
            JsonAt::Bool(b) => JsonAtView::Bool(b),
            JsonAt::Number => JsonAtView::Number,
            JsonAt::Array => JsonAtView::Array,
        }
    }
}

/// What `serde_json` finds at a pointer in a text.
pub uninterp spec fn json_at(json: Seq<char>, pointer: Seq<char>) -> JsonAtView;

/// Calls `serde_json::Value::pointer` on the value that the text is parsed into by
/// `serde_json::from_str`. What it finds depends on the text and the pointer alone, and has
/// the name `json_at`.
#[verifier::external_body]
pub(crate) fn find_json(json: &str, pointer: &str) -> (res: JsonAt)
    ensures
        res@ == json_at(json@, pointer@),
{
    match serde_json::from_str::<serde_json::Value>(json) {
        Err(_) => JsonAt::NotJson,
        Ok(value) => match value.pointer(pointer) {
            None => JsonAt::Missing,
            Some(serde_json::Value::Null) => JsonAt::Null,
            Some(serde_json::Value::Object(_)) => JsonAt::Object,
            Some(serde_json::Value::String(s)) => JsonAt::Text(s.clone()),
            Some(serde_json::Value::Bool(b)) => JsonAt::Bool(*b),
            Some(serde_json::Value::Number(_)) => JsonAt::Number,
            Some(serde_json::Value::Array(_)) => JsonAt::Array,
        },
    }
}

/// A key that stands for itself in a pointer.
pub open spec fn plain_key(key: Seq<char>) -> bool {
    !key.contains('/') && !key.contains('~')
}

/// The pointer to what is under a key.
pub open spec fn member(key: Seq<char>) -> Seq<char> {
    "/"@ + key
}

/// Whether the value at a pointer can be given members: it is an object, or can become one.
pub open spec fn can_hold(found: JsonAtView) -> bool {
    found is Null || found is Object || found is Missing
}

/// The text that `serde_json` writes for a JSON text in which the member `inner` of the member
/// `outer` was set to a text.
pub uninterp spec fn json_with(
    json: Seq<char>,
    outer: Seq<char>,
    inner: Seq<char>,
    value: Seq<char>,
) -> Seq<char>;

/// Whether a pointer leads neither to the member `inner` of the member `outer`, nor below it, nor
/// to one of the two objects around it.
pub open spec fn is_apart(pointer: Seq<char>, outer: Seq<char>, inner: Seq<char>) -> bool {
    let target = member(outer) + member(inner);
    &&& pointer.len() > 0
    &&& pointer != member(outer)
    &&& pointer != target
    &&& !(target + "/"@).is_prefix_of(pointer)
}

/// Assigns to a member of a member by the `IndexMut` of `serde_json::Value`, on the value that
/// the text is parsed into, and writes it out again by its `Display`. The result depends on the
/// arguments alone, and has the name `json_with`. The text that was set is found in it where it
/// was put, in an object within an object. Everything else is found as before: `IndexMut` makes an
/// object of a null and adds a member that is missing, and changes no other member. Which number a
/// number is, is not said: a fraction is read and written to the nearest only.
#[verifier::external_body]
pub(crate) fn set_json(json: &str, outer: &str, inner: &str, value: &str) -> (res: String)
    requires
        plain_key(outer@),
        plain_key(inner@),
        json_at(json@, ""@) is Null || json_at(json@, ""@) is Object,
        can_hold(json_at(json@, member(outer@))),
    ensures
        res@ == json_with(json@, outer@, inner@, value@),
        json_at(res@, member(outer@) + member(inner@)) == JsonAtView::Text(value@),
        json_at(res@, ""@) is Object,
        json_at(res@, member(outer@)) is Object,
        forall|pointer: Seq<char>|
            is_apart(pointer, outer@, inner@) ==> #[trigger] json_at(res@, pointer) == json_at(
                json@,
                pointer,
            ),
{
    let mut settings: serde_json::Value = serde_json::from_str(json).unwrap_or_default();
    settings[outer][inner] = serde_json::Value::String(value.to_string());
    settings.to_string()
}

/// Keys with the texts under them.
pub open spec fn field_views(fields: Seq<(String, String)>) -> Seq<(Seq<char>, Seq<char>)> {
    fields.map_values(|f: (String, String)| (f.0@, f.1@))
}

/// No key occurs twice, and each stands for itself in a pointer.
pub open spec fn plain_fields(fields: Seq<(Seq<char>, Seq<char>)>) -> bool {
    &&& forall|i: int| 0 <= i < fields.len() ==> plain_key((#[trigger] fields[i]).0)
    &&& forall|i: int, j: int|
        0 <= i < j < fields.len() ==> (#[trigger] fields[i]).0 != (#[trigger] fields[j]).0
}

/// The text that `serde_json` writes for an object of texts.
pub uninterp spec fn json_object(fields: Seq<(Seq<char>, Seq<char>)>) -> Seq<char>;

/// Collects the fields into a `serde_json::Value`, which makes them an object, and writes it out
/// by its `Display`. The result depends on the fields alone, and has the name `json_object`. It
/// is one line, since control characters are escaped, and each text is found in it under its
/// key.
#[verifier::external_body]
pub(crate) fn write_object(fields: Vec<(String, String)>) -> (res: String)
    ensures
        res@ == json_object(field_views(fields@)),
        !res@.contains('\n') && !res@.contains('\r'),
        plain_fields(field_views(fields@)) ==> forall|i: int|
            0 <= i < fields@.len() ==> json_at(res@, member((#[trigger] fields@[i]).0@))
                == JsonAtView::Text(fields@[i].1@),
{
    fields.into_iter().collect::<serde_json::Value>().to_string()
}

}
