//! Texts that are shown to the operators.

use vstd::prelude::*;

use crate::double::Double;
use crate::keys;
use crate::order;
use crate::text;

verus! {

/// So many zeros.
pub open spec fn zeros(n: nat) -> Seq<char> {
    Seq::new(n, |i: int| '0')
}

/// The decimal notation of a number, with zeros before it to a width.
pub open spec fn padded(n: nat, width: nat) -> Seq<char> {
    let digits = text::decimal(n);
    if digits.len() >= width {
        digits
    } else {
        zeros((width - digits.len()) as nat) + digits
    }
}

fn padded_text(n: u64, width: usize) -> (res: String)
    ensures
        res@ == padded(n as nat, width as nat),
{
    let digits = text::decimal_text(n);
    let len: usize = digits.as_str().unicode_len();
    if len >= width {
        return digits;
    }
    let mut out = String::new();
    let mut i: usize = len;
    while i < width
        invariant
            len <= i <= width,
            out@ == zeros((i - len) as nat),
        decreases width - i,
    {
        out.push('0');
        assert(out@ =~= zeros((i + 1 - len) as nat));
        i += 1;
    }
    text::cat2(out.as_str(), digits.as_str())
}

/// The second of the day that a time in seconds is in.
pub open spec fn second_of_day(secs: Double) -> int {
    secs.truncated() % 86400
}

/// A time of day.
pub open spec fn clock(second: int) -> Seq<char> {
    padded((second / 3600) as nat, 2) + ":"@ + padded(((second % 3600) / 60) as nat, 2) + ":"@
        + padded((second % 60) as nat, 2)
}

/// The time of day of a time in seconds, as `HH:MM:SS`.
pub fn hms(secs: Double) -> (res: String)
    ensures
        res@ == clock(second_of_day(secs)),
{
    let whole: i64 = secs.to_i64();
    let rest: i64 = whole % 86400;
    let second: u64 = if rest < 0 {
        (rest + 86400) as u64
    } else {
        rest as u64
    };
    assert(second == second_of_day(secs));
    let hours = padded_text(second / 3600, 2);
    let minutes = padded_text((second % 3600) / 60, 2);
    let seconds = padded_text(second % 60, 2);
    text::cat5(hours.as_str(), ":", minutes.as_str(), ":", seconds.as_str())
}

/// The label of a mark on the time axis: its time of day, with milliseconds if there are any.
pub fn format_timestamp(secs: Double, millis: u32) -> (res: String)
    ensures
        res@ == (if millis > 0 {
            clock(second_of_day(secs)) + "."@ + padded(millis as nat, 3)
        } else {
            clock(second_of_day(secs))
        }),
{
    let base = hms(secs);
    if millis > 0 {
        text::cat3(base.as_str(), ".", padded_text(millis as u64, 3).as_str())
    } else {
        base
    }
}

/// Where the server is, by where the page is: over a secure connection if the page is.
pub fn ws_url(location: &str, host: &str) -> (res: String)
    ensures
        res@ == (if "https"@.is_prefix_of(location@) {
            "wss"@
        } else {
            "ws"@
        }) + "://"@ + host@ + "/ws"@,
{
    let chars = text::chars_of(location);
    let scheme = if text::starts_with(&chars, "https") {
        "wss"
    } else {
        "ws"
    };
    text::cat4(scheme, "://", host, "/ws")
}

/// The label of a sensitivity button.
pub fn level_label(level: u8) -> (res: String)
    ensures
        res@ == crate::hardware::level_name(level),
{
    text::cat2("FB", text::decimal_text(level as u64).as_str())
}

/// The label of a front-end reset that is running.
pub fn reset_label(remaining: u32) -> (res: String)
    ensures
        res@ == "Resetting front ends... "@ + text::decimal(remaining as nat) + "s"@,
{
    text::cat3("Resetting front ends... ", text::decimal_text(remaining as u64).as_str(), "s")
}

/// The lines about defaults, by their keys and values: all but the charge.
pub open spec fn default_lines(fields: Seq<(String, String)>) -> Seq<Seq<char>>
    decreases fields.len(),
{
    if fields.len() == 0 {
        Seq::empty()
    } else {
        let rest = default_lines(fields.drop_last());
        let (key, value) = fields.last();
        if key@ == keys::CHARGE@ {
            rest
        } else {
            rest.push(key@ + ": "@ + value@)
        }
    }
}

/// The lines of the tooltip, in order.
pub open spec fn is_sorted_list(fields: Seq<(String, String)>, lines: Seq<Seq<char>>) -> bool {
    order::ordered(lines) && lines.to_multiset() == default_lines(fields).to_multiset()
}

/// What restoring the defaults of a device will write, by keys and values in words.
pub fn restore_defaults_tooltip(fields: &Vec<(String, String)>) -> (res: String)
    ensures
        fields@.len() == 0 ==> res@ == "Restore all PV defaults for this device"@,
        fields@.len() > 0 ==> exists|lines: Seq<Seq<char>>| #[trigger]
            is_sorted_list(fields@, lines) && res@ == "Restore defaults:\n"@ + text::joined(lines),
{
    if fields.len() == 0 {
        return "Restore all PV defaults for this device".to_string();
    }
    let mut out: Vec<String> = Vec::new();
    let mut i: usize = 0;
    assert(text::texts(out@) =~= default_lines(fields@.take(0)));
    while i < fields.len()
        invariant
            i <= fields@.len(),
            text::texts(out@) == default_lines(fields@.take(i as int)),
        decreases fields@.len() - i,
    {
        let ghost before = text::texts(out@);
        assert(fields@.take(i as int + 1).drop_last() =~= fields@.take(i as int));
        if !text::same_text(fields[i].0.as_str(), keys::CHARGE) {
            let line = text::cat3(fields[i].0.as_str(), ": ", fields[i].1.as_str());
            let ghost added = line@;
            out.push(line);
            assert(text::texts(out@) =~= before.push(added));
        }
        i += 1;
    }
    assert(fields@.take(i as int) =~= fields@);
    let sorted = order::sort_texts(&out);
    assert(is_sorted_list(fields@, text::texts(sorted@)));
    let list = text::join_lines(&sorted);
    text::cat2("Restore defaults:\n", list.as_str())
}

proof fn lemma_two_digits(n: nat)
    requires
        n < 100,
    ensures
        padded(n, 2).len() == 2,
{
    assert(text::decimal(n / 10).len() == 1);
    assert(text::decimal(n).len() <= 2);
}

/// A time of day has two digits each for hours, minutes and seconds.
pub proof fn clock_has_fixed_width(second: int)
    requires
        0 <= second < 86400,
    ensures
        clock(second).len() == 8,
        clock(second)[2] == ':',
        clock(second)[5] == ':',
{
    lemma_two_digits((second / 3600) as nat);
    lemma_two_digits(((second % 3600) / 60) as nat);
    lemma_two_digits((second % 60) as nat);
    reveal_strlit(":");
}

proof fn lemma_padded_value(n: nat)
    requires
        n < 100,
    ensures
        text::digits_value(padded(n, 2)) == n,
{
    let s = padded(n, 2);
    lemma_two_digits(n);
    reveal_with_fuel(text::digits_value, 3);
    assert(s.drop_last().drop_last() =~= Seq::<char>::empty());
    if n < 10 {
        assert(s =~= seq!['0', text::digit_char(n)]);
        assert(text::digit_char(n) as nat == 48 + n);
    } else {
        assert(text::decimal(n / 10) =~= seq![text::digit_char(n / 10)]);
        assert(s =~= seq![text::digit_char(n / 10), text::digit_char(n % 10)]);
        assert(text::digit_char(n / 10) as nat == 48 + n / 10);
        assert(text::digit_char(n % 10) as nat == 48 + n % 10);
    }
}

/// The time of day that is shown is that of the time: what its three numbers write down are the
/// hours, minutes and seconds that make up the second of the day, and that is as far from the time
/// as whole days are.
pub proof fn clock_shows_the_time(secs: Double)
    ensures
        ({
            let second = second_of_day(secs);
            let shown = clock(second);
            &&& 0 <= second < 86400
            &&& (secs.truncated() - second) % 86400 == 0
            &&& text::digits_value(shown.subrange(0, 2)) * 3600 + text::digits_value(
                shown.subrange(3, 5),
            ) * 60 + text::digits_value(shown.subrange(6, 8)) == second
            &&& text::digits_value(shown.subrange(3, 5)) < 60
            &&& text::digits_value(shown.subrange(6, 8)) < 60
        }),
{
    let second = second_of_day(secs);
    let shown = clock(second);
    let h = (second / 3600) as nat;
    let m = ((second % 3600) / 60) as nat;
    let s = (second % 60) as nat;
    lemma_two_digits(h);
    lemma_two_digits(m);
    lemma_two_digits(s);
    lemma_padded_value(h);
    lemma_padded_value(m);
    lemma_padded_value(s);
    reveal_strlit(":");
    assert(shown.subrange(0, 2) =~= padded(h, 2));
    assert(shown.subrange(3, 5) =~= padded(m, 2));
    assert(shown.subrange(6, 8) =~= padded(s, 2));
}

/// The tooltip lists every default with its value, but for the charge, and nothing else.
pub proof fn tooltip_lists_every_default(fields: Seq<(String, String)>, i: int)
    requires
        0 <= i < fields.len(),
    ensures
        fields[i].0@ != "charge"@ ==> default_lines(fields).contains(
            fields[i].0@ + ": "@ + fields[i].1@,
        ),
        default_lines(fields).len() == fields.filter(
            |f: (String, String)| f.0@ != "charge"@,
        ).len(),
    decreases fields.len(),
{
    let front = fields.drop_last();
    let rest = default_lines(front);
    let all = default_lines(fields);
    lemma_line_count(fields);
    if fields[i].0@ != "charge"@ {
        let line = fields[i].0@ + ": "@ + fields[i].1@;
        if i < front.len() {
            tooltip_lists_every_default(front, i);
            assert(front[i] == fields[i]);
            let k = choose|k: int| 0 <= k < rest.len() && rest[k] == line;
            assert(all[k] == line);
        } else {
            assert(fields.last() == fields[i]);
            assert(all[rest.len() as int] == line);
        }
    }
}

proof fn lemma_line_count(fields: Seq<(String, String)>)
    ensures
        default_lines(fields).len() == fields.filter(
            |f: (String, String)| f.0@ != "charge"@,
        ).len(),
    decreases fields.len(),
{
    reveal(Seq::filter);
    if fields.len() > 0 {
        lemma_line_count(fields.drop_last());
    }
}

/// The lines of the tooltip are those of the defaults, each as often, in the order of their texts.
pub proof fn tooltip_is_in_order(fields: Seq<(String, String)>, lines: Seq<Seq<char>>, i: int)
    requires
        is_sorted_list(fields, lines),
        0 <= i < fields.len(),
    ensures
        fields[i].0@ != "charge"@ ==> lines.contains(fields[i].0@ + ": "@ + fields[i].1@),
        lines.len() == fields.filter(|f: (String, String)| f.0@ != "charge"@).len(),
        forall|a: int, b: int|
            0 <= a < b < lines.len() ==> lines[a] == lines[b] || order::before(
                #[trigger] lines[a],
                #[trigger] lines[b],
            ),
{
    tooltip_lists_every_default(fields, i);
    lines.to_multiset_ensures();
    default_lines(fields).to_multiset_ensures();
    if fields[i].0@ != "charge"@ {
        let line = fields[i].0@ + ": "@ + fields[i].1@;
        assert(default_lines(fields).to_multiset().count(line) > 0);
        assert(lines.to_multiset().count(line) > 0);
    }
    assert forall|a: int, b: int| 0 <= a < b < lines.len() implies lines[a] == lines[b]
        || order::before(#[trigger] lines[a], #[trigger] lines[b]) by {
        order::before_total(lines[a], lines[b]);
    }
}

}
