use local_sync::text::{
    append_chars, chars_eq, from_chars, split_lines, sub_chars, to_chars, trim_chars,
    trim_end_chars,
};

fn chars(s: &str) -> Vec<char> {
    s.chars().collect()
}

fn line_strings(s: &str) -> Vec<String> {
    split_lines(&chars(s)).iter().map(|l| l.iter().collect::<String>()).collect()
}

#[test]
fn to_chars_and_back_keeps_the_text() {
    let v = to_chars("héllo/wörld");
    assert_eq!(v, chars("héllo/wörld"));
    assert_eq!(from_chars(&v), "héllo/wörld");
    assert_eq!(from_chars(&Vec::new()), "");
}

#[test]
fn sub_chars_takes_the_half_open_range() {
    let v = chars("abcdef");
    assert_eq!(sub_chars(&v, 1, 4), chars("bcd"));
    assert_eq!(sub_chars(&v, 2, 2), chars(""));
    assert_eq!(sub_chars(&v, 0, 6), chars("abcdef"));
}

#[test]
fn append_chars_extends_in_order() {
    let mut v = chars("ab");
    append_chars(&mut v, &chars("cd"));
    assert_eq!(v, chars("abcd"));
    append_chars(&mut v, &chars(""));
    assert_eq!(v, chars("abcd"));
}

#[test]
fn chars_eq_compares_content() {
    assert!(chars_eq(&chars("+a.txt"), &chars("+a.txt")));
    assert!(!chars_eq(&chars("+a.txt"), &chars("+a.txT")));
    assert!(!chars_eq(&chars("+a.txt"), &chars("+a.tx")));
    assert!(chars_eq(&chars(""), &chars("")));
}

#[test]
fn trim_removes_white_space_at_both_ends_only() {
    assert_eq!(trim_chars(&chars("  a b \t\r\n")), chars("a b"));
    assert_eq!(trim_chars(&chars("a")), chars("a"));
    assert_eq!(trim_chars(&chars(" \n ")), chars(""));
    assert_eq!(trim_chars(&chars("")), chars(""));
    assert_eq!(trim_chars(&chars("\u{a0}x\u{3000}")), chars("x"));
}

#[test]
fn trim_matches_the_standard_library() {
    for s in ["", " ", "x", "  x  ", "\t/mnt/nas \n", "a  b", "\u{2003}y\u{85}"] {
        assert_eq!(from_chars(&trim_chars(&chars(s))), s.trim());
        assert_eq!(from_chars(&trim_end_chars(&chars(s))), s.trim_end());
    }
}

#[test]
fn trim_end_keeps_leading_white_space() {
    assert_eq!(trim_end_chars(&chars("  a \n\n")), chars("  a"));
    assert_eq!(trim_end_chars(&chars("\n")), chars(""));
}

#[test]
fn lines_split_at_line_feeds() {
    assert_eq!(line_strings("a\nb\nc"), vec!["a", "b", "c"]);
    assert_eq!(line_strings("a\nb\n"), vec!["a", "b"]);
    assert_eq!(line_strings("a\n\nb"), vec!["a", "", "b"]);
    assert_eq!(line_strings("\n"), vec![""]);
    assert_eq!(line_strings(""), Vec::<String>::new());
    assert_eq!(line_strings("one"), vec!["one"]);
}

#[test]
fn lines_drop_a_carriage_return_before_a_line_feed_only() {
    assert_eq!(line_strings("a\r\nb\r\n"), vec!["a", "b"]);
    assert_eq!(line_strings("a\rb\n"), vec!["a\rb"]);
    assert_eq!(line_strings("a\r"), vec!["a\r"]);
    assert_eq!(line_strings("\r\n"), vec![""]);
    assert_eq!(line_strings("a\r\r\n"), vec!["a\r"]);
}

#[test]
fn lines_match_the_standard_library() {
    for s in ["", "\n", "a", "a\n", "a\nb", "a\r\nb\r\n", "\n\n", "x\r", "\r\n\r\n", "a\n\r\nb\r"] {
        let expected: Vec<String> = s.lines().map(|l| l.to_string()).collect();
        assert_eq!(line_strings(s), expected);
    }
}
