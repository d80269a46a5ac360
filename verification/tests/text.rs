use glidewin::text::{
    chars_of, decimal_of, ends_with, find_char, is_whitespace, join, lowercase, part_begins_with,
    replace_all, same, signed_decimal_of, split_words, string_of, trim, trim_range,
};

fn chars(s: &str) -> Vec<char> {
    s.chars().collect()
}

fn strings(parts: &[&str]) -> Vec<String> {
    parts.iter().map(|p| p.to_string()).collect()
}

#[test]
fn white_space_is_that_of_unicode() {
    for c in '\u{0}'..=char::MAX {
        assert_eq!(is_whitespace(c), c.is_whitespace(), "{:?}", c);
    }
}

#[test]
fn trims_both_ends() {
    for s in ["", " ", "a", "  a b\t\n", "\u{3000}x\u{a0}", "x", "\u{200b} x", "\n\n"] {
        assert_eq!(trim(s), s.trim());
    }
}

#[test]
fn trims_a_part() {
    let cs = chars("ab  cd  ef");
    assert_eq!(trim_range(&cs, 2, 8), (4, 6));
    assert_eq!(trim_range(&cs, 2, 4), (4, 4));
}

#[test]
fn strings_and_characters_go_back_and_forth() {
    let cs = chars_of("aé漢😀");
    assert_eq!(cs, vec!['a', 'é', '漢', '😀']);
    assert_eq!(string_of(&cs, 1, 3), "é漢");
    assert_eq!(string_of(&cs, 2, 2), "");
}

#[test]
fn compares_text() {
    assert!(same("data", "data"));
    assert!(!same("data", "date"));
    assert!(!same("data", "dat"));
    assert!(ends_with("skill.json", ".json"));
    assert!(ends_with("abc", ""));
    assert!(!ends_with("json", ".json"));
    assert!(part_begins_with(&chars("xdata: y"), 1, 8, "data: "));
    assert!(!part_begins_with(&chars("data: "), 0, 5, "data: "));
}

#[test]
fn finds_characters() {
    let cs = chars("a\nb\nc");
    assert_eq!(find_char(&cs, 0, '\n'), 1);
    assert_eq!(find_char(&cs, 2, '\n'), 3);
    assert_eq!(find_char(&cs, 4, '\n'), 5);
}

#[test]
fn replaces_from_the_left_without_overlap() {
    for (s, pat, rep) in [
        ("aaa", "aa", "b"),
        ("&amp;amp;", "&amp;", "&"),
        ("", "x", "y"),
        ("xyxy", "xy", ""),
        ("abc", "abcd", "z"),
    ] {
        let out: String = replace_all(&chars(s), pat, rep).iter().collect();
        assert_eq!(out, s.replace(pat, rep));
    }
}

#[test]
fn lowers_ascii_only() {
    let cs = chars("xScRiPt ÄZ@[");
    let out: String = lowercase(&cs, 1, cs.len()).iter().collect();
    assert_eq!(out, "script Äz@[");
}

#[test]
fn splits_into_words() {
    assert_eq!(split_words(&chars("  a  bc\u{a0}d\n")), strings(&["a", "bc", "d"]));
    assert_eq!(split_words(&chars(" \t ")), strings(&[]));
}

#[test]
fn joins_with_separators_between() {
    assert_eq!(join(&strings(&[]), ", "), "");
    assert_eq!(join(&strings(&["a"]), ", "), "a");
    assert_eq!(join(&strings(&["a", "", "c"]), ", "), "a, , c");
}

#[test]
fn writes_numbers_in_decimal() {
    for n in [0, 7, 10, 99, 100, 1024, u64::MAX] {
        assert_eq!(decimal_of(n), n.to_string());
    }
    for n in [0, -1, 42, i32::MIN, i32::MAX] {
        assert_eq!(signed_decimal_of(n), n.to_string());
    }
}
