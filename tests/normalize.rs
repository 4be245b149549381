use blink_search::{normalize_record, normalize_stream, split_records, PathSep, Separator};

#[test]
fn nul_stream_gives_two_native_lines() {
    let out = normalize_stream(b"a/b\0./c\\d\0\0", Separator::Null, PathSep::Slash);
    assert_eq!(out, vec!["a/b".to_string(), "c/d".to_string()]);
}

#[test]
fn nul_stream_with_backslash_separator() {
    let out = normalize_stream(b"a/b\0./c\\d\0\0", Separator::Null, PathSep::Backslash);
    assert_eq!(out, vec!["a\\b".to_string(), "c\\d".to_string()]);
}

#[test]
fn records_split_on_runs_of_delimiters() {
    let recs = split_records(b"\0\0ab\0\0c\0", 0, 0);
    assert_eq!(recs, vec![b"ab".to_vec(), b"c".to_vec()]);
    let recs = split_records(b"x\ny\rz", b'\n', b'\r');
    assert_eq!(recs, vec![b"x".to_vec(), b"y".to_vec(), b"z".to_vec()]);
    assert!(split_records(b"", 0, 0).is_empty());
}

#[test]
fn controls_are_replaced_not_dropped() {
    let out = normalize_stream(b"a\tb\0c\x07\0", Separator::Null, PathSep::Slash);
    assert_eq!(out, vec!["a\u{FFFD}b".to_string(), "c\u{FFFD}".to_string()]);
}

#[test]
fn newline_inside_nul_record_is_a_control() {
    let out = normalize_stream(b"a\nb\0", Separator::Null, PathSep::Slash);
    assert_eq!(out, vec!["a\u{FFFD}b".to_string()]);
}

#[test]
fn markers_and_white_space_are_stripped() {
    assert_eq!(normalize_record("  ./x/y  ", PathSep::Slash), "x/y");
    assert_eq!(normalize_record(".\\x", PathSep::Slash), "x");
    assert_eq!(normalize_record("././.\\x", PathSep::Slash), "x");
    assert_eq!(normalize_record("../x", PathSep::Slash), "../x");
    assert_eq!(normalize_record(".hidden", PathSep::Slash), ".hidden");
}

#[test]
fn blank_records_give_no_line() {
    let out = normalize_stream(b"a\n   \n./\n\nb\n", Separator::Newline, PathSep::Slash);
    assert_eq!(out, vec!["a".to_string(), "b".to_string()]);
    assert!(normalize_stream(b"", Separator::Newline, PathSep::Slash).is_empty());
}

#[test]
fn invalid_utf8_becomes_replacement_character() {
    let out = normalize_stream(b"\xffa\n", Separator::Newline, PathSep::Slash);
    assert_eq!(out, vec!["\u{FFFD}a".to_string()]);
}

#[test]
fn record_count_matches_non_blank_records() {
    let input = b"one\0 two \0\0./three\0\x01\0";
    let out = normalize_stream(input, Separator::Null, PathSep::Slash);
    assert_eq!(out.len(), 4);
    for line in &out {
        assert!(!line.chars().any(|c| c.is_control()));
        assert!(!line.starts_with("./") && !line.starts_with(".\\"));
    }
}

#[test]
fn renormalizing_changes_nothing() {
    let first = normalize_stream(b" ./a\\b \0c\td\0./ ./e\0", Separator::Null, PathSep::Slash);
    let mut text = String::new();
    for line in &first {
        text.push_str(line);
        text.push('\n');
    }
    let second = normalize_stream(text.as_bytes(), Separator::Newline, PathSep::Slash);
    assert_eq!(first, second);
    assert_eq!(first, vec!["a/b".to_string(), "c\u{FFFD}d".to_string(), "e".to_string()]);
}

#[test]
fn separator_bytes() {
    assert_eq!(Separator::Null.byte(), 0);
    assert_eq!(Separator::Newline.byte(), b'\n');
}
