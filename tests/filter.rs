use blink_search::{
    decode_line, decode_selection, next_step, reconcile, FilterError, OpenAction, OutputDecoder, PathSep, SessionStep,
};

fn open_path(r: &Result<OpenAction, FilterError>) -> Option<String> {
    match r {
        Ok(OpenAction::Open(p)) => Some(p.clone()),
        _ => None,
    }
}

#[test]
fn abort_with_menu_line_gives_menu() {
    let mut d = OutputDecoder::new();
    assert_eq!(d.feed("TAB", "/data", "/cfg/blink.yml", PathSep::Slash), Ok(()));
    assert!(matches!(d.finish(130), Ok(OpenAction::Menu)));
}

#[test]
fn selection_opens_under_location_root() {
    let mut d = OutputDecoder::new();
    assert_eq!(d.feed("docs/report.pdf", "/data", "/cfg/blink.yml", PathSep::Slash), Ok(()));
    let r = d.finish(0);
    assert_eq!(open_path(&r), Some("/data/docs/report.pdf".to_string()));
}

#[test]
fn no_line_and_other_code_is_an_error() {
    let d = OutputDecoder::new();
    assert!(matches!(d.finish(2), Err(FilterError::Exit(2))));
    assert!(matches!(reconcile(130, None), Err(FilterError::Exit(130))));
}

#[test]
fn menu_line_without_abort_code_is_an_error() {
    assert!(matches!(reconcile(0, Some(OpenAction::Menu)), Err(FilterError::Exit(0))));
}

#[test]
fn selection_wins_over_unusual_exit_code() {
    let r = reconcile(1, Some(OpenAction::Open("/x".to_string())));
    assert_eq!(open_path(&r), Some("/x".to_string()));
}

#[test]
fn edit_config_opens_the_configuration() {
    let a = decode_line("EDIT_CONFIG", "/data", "/cfg/blink.yml", PathSep::Slash);
    assert!(matches!(a, Some(OpenAction::Open(ref p)) if p == "/cfg/blink.yml"));
}

#[test]
fn second_line_is_a_protocol_violation() {
    let mut d = OutputDecoder::new();
    assert_eq!(d.feed("a.txt", "/data", "/cfg", PathSep::Slash), Ok(()));
    assert_eq!(d.feed("b.txt", "/data", "/cfg", PathSep::Slash), Err(FilterError::ExtraLine));
    assert_eq!(open_path(&d.finish(0)), Some("/data/a.txt".to_string()));
}

#[test]
fn empty_line_names_nothing() {
    assert!(decode_line("", "/data", "/cfg", PathSep::Slash).is_none());
    let mut d = OutputDecoder::new();
    assert_eq!(d.feed("", "/data", "/cfg", PathSep::Slash), Ok(()));
    assert!(d.pending.is_none());
    assert!(matches!(d.finish(0), Err(FilterError::Exit(0))));
}

#[test]
fn white_space_line_opens_the_root() {
    let a = decode_line("   ", "/data", "/cfg", PathSep::Slash);
    assert!(matches!(a, Some(OpenAction::Open(ref p)) if p == "/data/"));
    let a = decode_line("\"\"", "/data", "/cfg", PathSep::Slash);
    assert!(matches!(a, Some(OpenAction::Open(ref p)) if p == "/data/"));
    let mut d = OutputDecoder::new();
    assert_eq!(d.feed("  ", "/data", "/cfg", PathSep::Slash), Ok(()));
    assert!(matches!(d.finish(0), Ok(OpenAction::Open(ref p)) if p == "/data/"));
}

#[test]
fn rooted_selection_replaces_the_root() {
    let a = decode_line("/etc/hosts", "/data", "/cfg", PathSep::Slash);
    assert!(matches!(a, Some(OpenAction::Open(ref p)) if p == "/etc/hosts"));
    let a = decode_line("D:\\x.txt", "C:\\data", "/cfg", PathSep::Backslash);
    assert!(matches!(a, Some(OpenAction::Open(ref p)) if p == "D:\\x.txt"));
}

#[test]
fn quoted_selection_is_unescaped() {
    assert_eq!(decode_selection("\"a\\\\b\""), "a\\b");
    assert_eq!(decode_selection("  plain/path  "), "plain/path");
    assert_eq!(decode_selection("\""), "\"");
    assert_eq!(decode_selection("\"\\\\\\\\\\\""), "\\\\\\");
}

#[test]
fn root_with_trailing_separator_is_not_doubled() {
    let a = decode_line("x.txt", "C:\\data\\", "/cfg", PathSep::Backslash);
    assert!(matches!(a, Some(OpenAction::Open(ref p)) if p == "C:\\data\\x.txt"));
    let a = decode_line("x.txt", "", "/cfg", PathSep::Slash);
    assert!(matches!(a, Some(OpenAction::Open(ref p)) if p == "x.txt"));
}

#[test]
fn any_line_after_the_first_is_a_protocol_violation() {
    let mut d = OutputDecoder::new();
    assert_eq!(d.feed("a.txt", "/data", "/cfg", PathSep::Slash), Ok(()));
    assert_eq!(d.feed("", "/data", "/cfg", PathSep::Slash), Err(FilterError::ExtraLine));
    let mut d = OutputDecoder::new();
    assert_eq!(d.feed("  ", "/data", "/cfg", PathSep::Slash), Ok(()));
    assert_eq!(d.feed("TAB", "/data", "/cfg", PathSep::Slash), Err(FilterError::ExtraLine));
    assert!(matches!(d.pending, Some(OpenAction::Open(ref p)) if p == "/data/"));
}

#[test]
fn session_steps() {
    assert!(matches!(next_step(OpenAction::Menu), SessionStep::PickLocation));
    assert!(matches!(next_step(OpenAction::Open("/a/b".to_string())), SessionStep::Launch(ref p) if p == "/a/b"));
}
