//! The audit log: a line of JSON for every connection and every command.

use vstd::prelude::*;

use crate::json;
use crate::json::write_object;
use crate::text;

verus! {

/// The size past which the log is rotated, in bytes.
pub const MAX_LOG_SIZE: u64 = 104857600;

/// How many files there are at most: the log, and those before it.
pub const MAX_LOG_FILES: usize = 5;

/// A character as it is logged: a line break becomes a space.
pub open spec fn clean_char(c: char) -> char {
    if c == '\n' || c == '\r' {
        ' '
    } else {
        c
    }
}

/// A text as it is logged.
pub open spec fn cleaned(s: Seq<char>) -> Seq<char> {
    s.map_values(|c: char| clean_char(c))
}

fn clean(s: &str) -> (res: String)
    ensures
        res@ == cleaned(s@),
{
    let chars = text::chars_of(s);
    let mut out = String::new();
    let mut i: usize = 0;
    while i < chars.len()
        invariant
            i <= chars@.len(),
            chars@ == s@,
            out@ == cleaned(s@).take(i as int),
        decreases chars@.len() - i,
    {
        let c: char = chars[i];
        let c: char = if c == '\n' || c == '\r' {
            ' '
        } else {
            c
        };
        out.push(c);
        assert(out@ =~= cleaned(s@).take(i as int + 1));
        i += 1;
    }
    assert(cleaned(s@).take(i as int) =~= cleaned(s@));
    out
}

/// The fields of a log line.
pub open spec fn entry_fields(ts: Seq<char>, action: Seq<char>, detail: Seq<char>) -> Seq<
    (Seq<char>, Seq<char>),
> {
    seq![("ts"@, ts), ("action"@, cleaned(action)), ("detail"@, cleaned(detail))]
}

/// The line that logs an action, without the line feed that ends it. Whatever was logged is
/// one line, and can be read from it again.
pub fn log_line(ts: &str, action: &str, detail: &str) -> (res: String)
    ensures
        res@ == json::json_object(entry_fields(ts@, action@, detail@)),
        !res@.contains('\n') && !res@.contains('\r'),
        json::json_at(res@, json::member("ts"@)) == json::JsonAtView::Text(ts@),
        json::json_at(res@, json::member("action"@)) == json::JsonAtView::Text(cleaned(action@)),
        json::json_at(res@, json::member("detail"@)) == json::JsonAtView::Text(cleaned(detail@)),
{
    let fields = vec![
        ("ts".to_string(), ts.to_string()),
        ("action".to_string(), clean(action)),
        ("detail".to_string(), clean(detail)),
    ];
    proof {
        reveal_strlit("ts");
        reveal_strlit("action");
        reveal_strlit("detail");
        let views = json::field_views(fields@);
        assert(views =~= entry_fields(ts@, action@, detail@));
        assert("ts"@.len() == 2 && "action"@.len() == 6 && "detail"@.len() == 6);
        assert("action"@[0] == 'a' && "detail"@[0] == 'd');
        assert(json::plain_fields(views));
        assert(fields@[0].0@ == "ts"@ && fields@[1].0@ == "action"@ && fields@[2].0@ == "detail"@);
    }
    write_object(fields)
}

/// The line that logs a connection.
pub fn log_connect(ts: &str, addr: &str) -> (res: String)
    ensures
        res@ == json::json_object(entry_fields(ts@, "CONNECT"@, addr@)),
        !res@.contains('\n') && !res@.contains('\r'),
{
    log_line(ts, "CONNECT", addr)
}

/// The line that logs the end of a connection.
pub fn log_disconnect(ts: &str, addr: &str) -> (res: String)
    ensures
        res@ == json::json_object(entry_fields(ts@, "DISCONNECT"@, addr@)),
        !res@.contains('\n') && !res@.contains('\r'),
{
    log_line(ts, "DISCONNECT", addr)
}

/// The line that logs a command.
pub fn log_command(ts: &str, addr: &str, command: &str) -> (res: String)
    ensures
        res@ == json::json_object(entry_fields(ts@, "COMMAND"@, addr@ + " -> "@ + command@)),
        !res@.contains('\n') && !res@.contains('\r'),
{
    log_line(ts, "COMMAND", text::cat3(addr, " -> ", command).as_str())
}

/// Whether a log of `size` bytes is to be rotated.
pub fn needs_rotation(size: u64) -> (res: bool)
    ensures
        res == (size > MAX_LOG_SIZE),
{
    size > MAX_LOG_SIZE
}

/// The name of the `n`th rotated log; the log itself for zero.
pub open spec fn rotated(path: Seq<char>, n: nat) -> Seq<char> {
    if n == 0 {
        path
    } else {
        path + "."@ + text::decimal(n)
    }
}

/// What a list of renames comes to.
pub open spec fn renames(list: Seq<(String, String)>) -> Seq<(Seq<char>, Seq<char>)> {
    list.map_values(|r: (String, String)| (r.0@, r.1@))
}

/// The renames that rotate a log, in their order: the oldest but one goes first, onto the oldest,
/// and the log itself last.
pub open spec fn rotation_list(path: Seq<char>) -> Seq<(Seq<char>, Seq<char>)> {
    Seq::new(
        (MAX_LOG_FILES - 1) as nat,
        |i: int|
            (
                rotated(path, (MAX_LOG_FILES - 2 - i) as nat),
                rotated(path, (MAX_LOG_FILES - 1 - i) as nat),
            ),
    )
}

/// The renames that rotate a log. What they move onto is overwritten.
pub fn rotation(path: &str) -> (res: Vec<(String, String)>)
    ensures
        renames(res@) == rotation_list(path@),
{
    let mut out: Vec<(String, String)> = Vec::new();
    let ghost want = rotation_list(path@);
    let mut n: usize = MAX_LOG_FILES - 1;
    assert(renames(out@) =~= want.take(0));
    while n > 0
        invariant
            n <= MAX_LOG_FILES - 1,
            want == rotation_list(path@),
            renames(out@) == want.take(MAX_LOG_FILES - 1 - n),
        decreases n,
    {
        let to = text::cat3(path, ".", text::decimal_text(n as u64).as_str());
        let from = if n == 1 {
            path.to_string()
        } else {
            text::cat3(path, ".", text::decimal_text(n as u64 - 1).as_str())
        };
        let ghost before = renames(out@);
        let ghost pair = (from@, to@);
        out.push((from, to));
        assert(renames(out@) =~= before.push(pair));
        assert(renames(out@) =~= want.take(MAX_LOG_FILES - n));
        n -= 1;
    }
    assert(want.take(MAX_LOG_FILES - 1) =~= want);
    out
}

/// The files after a rename: what was under the new name is gone. A rename of a file that is
/// not there changes nothing.
pub open spec fn renamed<T>(files: Map<Seq<char>, T>, from: Seq<char>, to: Seq<char>) -> Map<
    Seq<char>,
    T,
> {
    if files.contains_key(from) {
        files.remove(from).insert(to, files[from])
    } else {
        files
    }
}

/// The files after renames, one after the other.
pub open spec fn after_renames<T>(
    files: Map<Seq<char>, T>,
    list: Seq<(Seq<char>, Seq<char>)>,
) -> Map<Seq<char>, T>
    decreases list.len(),
{
    if list.len() == 0 {
        files
    } else {
        renamed(after_renames(files, list.drop_last()), list.last().0, list.last().1)
    }
}

proof fn lemma_rotated_distinct(path: Seq<char>, a: nat, b: nat)
    requires
        a < b < 10,
    ensures
        rotated(path, a) != rotated(path, b),
{
    reveal_strlit(".");
    let p = path + "."@;
    assert(rotated(path, b) == p + text::decimal(b));
    assert(text::decimal(b).len() == 1);
    if a > 0 {
        assert(text::decimal(a).len() == 1);
        assert(rotated(path, a)[p.len() as int] == text::digit_char(a));
        assert(rotated(path, b)[p.len() as int] == text::digit_char(b));
    } else {
        assert(rotated(path, b).len() == path.len() + 2);
    }
}

/// A rotation moves each log to the next name and drops the oldest, so that the log itself can be
/// started anew. No other file changes, and none arises.
pub proof fn rotation_drops_the_oldest_log<T>(files: Map<Seq<char>, T>, path: Seq<char>)
    requires
        forall|k: nat| k < MAX_LOG_FILES ==> #[trigger] files.contains_key(rotated(path, k)),
    ensures
        after_renames(files, rotation_list(path)) == files.insert(
            rotated(path, 4),
            files[rotated(path, 3)],
        ).insert(rotated(path, 3), files[rotated(path, 2)]).insert(
            rotated(path, 2),
            files[rotated(path, 1)],
        ).insert(rotated(path, 1), files[path]).remove(path),
        !after_renames(files, rotation_list(path)).contains_key(path),
        after_renames(files, rotation_list(path)).contains_key(rotated(path, 5))
            == files.contains_key(rotated(path, 5)),
{
    assert forall|a: nat, b: nat| a < b < 10 implies rotated(path, a) != rotated(path, b) by {
        lemma_rotated_distinct(path, a, b);
    }
    assert(rotated(path, 0) == path);
    assert(files.contains_key(rotated(path, 0)) && files.contains_key(rotated(path, 1))
        && files.contains_key(rotated(path, 2)) && files.contains_key(rotated(path, 3)));
    let list = rotation_list(path);
    let first = list.drop_last().drop_last().drop_last();
    assert(first.drop_last() =~= Seq::<(Seq<char>, Seq<char>)>::empty());
    reveal_with_fuel(after_renames, 5);
    assert(after_renames(files, list) =~= files.insert(
        rotated(path, 4),
        files[rotated(path, 3)],
    ).insert(rotated(path, 3), files[rotated(path, 2)]).insert(
        rotated(path, 2),
        files[rotated(path, 1)],
    ).insert(rotated(path, 1), files[path]).remove(path));
}

/// What is logged is what was said, but for line breaks, which become spaces: no line break is left,
/// and no other character is lost or changed.
pub proof fn logged_text_is_one_line(s: Seq<char>)
    ensures
        cleaned(s).len() == s.len(),
        !cleaned(s).contains('\n'),
        !cleaned(s).contains('\r'),
        forall|i: int|
            0 <= i < s.len() ==> #[trigger] cleaned(s)[i] == s[i] || cleaned(s)[i] == ' ' && (s[i]
                == '\n' || s[i] == '\r'),
{
}

}
