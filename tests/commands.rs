use blink_search::{
    enumerator_args, filter_args, history_path, join_path, location_to_id, menu_args, menu_history_path,
    normalize_arg, opener_target, program_name, Location, LocationMode, PathSep, Separator,
};

#[test]
fn history_key_keeps_lowercased_letters_and_digits() {
    assert_eq!(location_to_id("My Home-2"), "myhome2");
    assert_eq!(location_to_id("NAS/Share_ü"), "nasshare");
    assert_eq!(location_to_id(""), "");
}

#[test]
fn history_paths() {
    assert_eq!(history_path("/cfg/blink-search", "My Home", PathSep::Slash), "/cfg/blink-search/history-myhome.txt");
    assert_eq!(menu_history_path("/cfg/", PathSep::Slash), "/cfg/history-menu.txt");
}

#[test]
fn enumerator_arguments_by_mode() {
    let l = Location { path: "/x".to_string(), mode: LocationMode::Files, cache_file: None };
    assert_eq!(enumerator_args(&l, &None), vec![".", "--print0", "--type", "f"]);
    let l = Location { path: "/x".to_string(), mode: LocationMode::Folders, cache_file: None };
    let flags = Some(vec!["-H".to_string(), "--exclude=.git".to_string()]);
    assert_eq!(enumerator_args(&l, &flags), vec![".", "--print0", "--type", "d", "-H", "--exclude=.git"]);
}

#[test]
fn filter_arguments() {
    let a = filter_args("/h.txt", "/bin/blink", "home", &Some(vec!["--exact".to_string()]));
    assert_eq!(
        a,
        vec![
            "--scheme=path",
            "--history=/h.txt",
            "--bind=tab:execute(echo TAB)+abort",
            "--bind=ctrl-x:execute(\"/bin/blink\" --open-path={} home)",
            "--bind=alt-c:execute(echo EDIT_CONFIG)+abort",
            "--exact",
        ]
    );
}

#[test]
fn menu_arguments() {
    assert_eq!(menu_args("/m.txt", None, &None), vec!["--history=/m.txt", "--bind", "tab:accept"]);
    assert_eq!(
        menu_args("/m.txt", Some("ho"), &Some(vec!["-e".to_string()])),
        vec!["--history=/m.txt", "--bind", "tab:accept", "--query=ho", "-e"]
    );
}

#[test]
fn program_names() {
    assert_eq!(program_name("fzf", true), "fzf.exe");
    assert_eq!(program_name("fzf", false), "fzf");
    assert_eq!(normalize_arg(Separator::Null), "--normalize-paths=null");
    assert_eq!(normalize_arg(Separator::Newline), "--normalize-paths=newline");
}

#[test]
fn opener_target_on_unix() {
    assert_eq!(opener_target("  /home//me\\docs/  ", false), "/home/me/docs/");
    assert_eq!(opener_target("a///b", false), "a/b");
}

#[test]
fn opener_target_on_windows() {
    assert_eq!(opener_target("C:\\Users\\\\x\\ ", true), "C:\\Users\\x");
    assert_eq!(opener_target("\\\\nas\\share", true), "\\\\nas\\share");
    assert_eq!(opener_target("//nas//share//", true), "\\\\nas\\share");
}

#[test]
fn join_paths() {
    assert_eq!(join_path("/data", "a/b", PathSep::Slash), "/data/a/b");
    assert_eq!(join_path("/data/", "a", PathSep::Slash), "/data/a");
    assert_eq!(join_path("", "a", PathSep::Slash), "a");
    assert_eq!(join_path("D:", "a", PathSep::Backslash), "D:\\a");
    assert_eq!(join_path("/data", "/x", PathSep::Slash), "/x");
    assert_eq!(join_path("/data", "\\x", PathSep::Slash), "/data/\\x");
    assert_eq!(join_path("C:\\data", "\\x", PathSep::Backslash), "\\x");
    assert_eq!(join_path("C:\\data", "d:x", PathSep::Backslash), "d:x");
    assert_eq!(join_path("a\\", "b", PathSep::Slash), "a\\/b");
}
