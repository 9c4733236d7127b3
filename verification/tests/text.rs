use charge_overview::order::{add_to_set, is_before, sort_texts};
use charge_overview::text::{decimal_text, join_lines, lines_of, parse_number};

fn strings(list: &[&str]) -> Vec<String> {
    list.iter().map(|s| s.to_string()).collect()
}

#[test]
fn numbers_are_written_in_decimal() {
    for n in [0, 7, 10, 42, 100, 65535, u64::MAX] {
        assert_eq!(decimal_text(n), format!("{n}"));
        assert_eq!(parse_number(&decimal_text(n), u64::MAX), Some(n));
    }
}

#[test]
fn numbers_are_read_like_the_standard_library_does() {
    for s in ["", "+", "0", "+0", "007", "12a", " 1", "-1", "255", "256", "99999999999999999999"] {
        assert_eq!(parse_number(s, 255), s.parse::<u8>().ok().map(|n| n as u64), "{s}");
        assert_eq!(parse_number(s, u64::MAX), s.parse::<u64>().ok(), "{s}");
    }
}

#[test]
fn lines_are_split_like_the_standard_library_does() {
    for s in ["", "\n", "a", "a\n", "a\nb", "a\r\nb\r", "\r\n\n", "a\n\nb\n"] {
        let ours: Vec<String> = lines_of(s).iter().map(|l| l.iter().collect()).collect();
        let theirs: Vec<String> = s.lines().map(|l| l.to_string()).collect();
        assert_eq!(ours, theirs, "{s:?}");
    }
}

#[test]
fn texts_are_joined_by_line_feeds() {
    assert_eq!(join_lines(&vec![]), "");
    assert_eq!(join_lines(&strings(&["a"])), "a");
    assert_eq!(join_lines(&strings(&["a", "", "b"])), "a\n\nb");
}

#[test]
fn texts_are_ordered_like_the_standard_library_does() {
    let list = ["", "a", "ab", "b", "B", "é", "a:DQ", "a-1", "\u{10000}", "\u{ffff}"];
    for a in list {
        for b in list {
            assert_eq!(is_before(a, b), a < b, "{a:?} < {b:?}");
        }
    }
    let mut expected = strings(&list);
    expected.push("a".to_string());
    let sorted = sort_texts(&expected);
    expected.sort();
    assert_eq!(sorted, expected);
}

#[test]
fn sets_are_kept_in_order() {
    let mut set: Vec<String> = Vec::new();
    for name in ["m", "c", "x", "c", "a", "m"] {
        add_to_set(&mut set, name);
    }
    assert_eq!(set, strings(&["a", "c", "m", "x"]));
}
