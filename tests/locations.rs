use blink_search::{
    matches_folded,
    candidate_source, menu_choice, menu_lines, resolve, CandidateSource, Config, Location, LocationMode,
    MenuError, PathSep, Resolution, Separator,
};
use linked_hash_map::LinkedHashMap;

fn loc(path: &str) -> Location {
    Location { path: path.to_string(), mode: LocationMode::Files, cache_file: None }
}

fn two_locations() -> Config {
    let mut m = LinkedHashMap::new();
    m.insert("home".to_string(), loc("/home/u"));
    m.insert("host".to_string(), loc("/srv/host"));
    Config { locations: m, fd_flags: None, fzf_flags: None }
}

fn found(r: Resolution) -> Option<String> {
    match r {
        Resolution::Found(n) => Some(n),
        _ => None,
    }
}

#[test]
fn ambiguous_prefix_calls_for_the_menu() {
    let c = two_locations();
    assert!(matches!(resolve(Some("ho"), &c), Resolution::Ambiguous));
}

#[test]
fn exact_name_is_taken() {
    let c = two_locations();
    assert_eq!(found(resolve(Some("home"), &c)), Some("home".to_string()));
}

#[test]
fn unknown_name_is_not_found() {
    let c = two_locations();
    assert!(matches!(resolve(Some("zzz"), &c), Resolution::NotFound));
}

#[test]
fn no_name_takes_the_first_location() {
    let c = two_locations();
    assert_eq!(found(resolve(None, &c)), Some("home".to_string()));
    assert!(matches!(resolve(None, &Config::default()), Resolution::NotFound));
}

#[test]
fn unique_match_ignores_case() {
    let c = two_locations();
    assert_eq!(found(resolve(Some("HOS"), &c)), Some("host".to_string()));
    assert_eq!(found(resolve(Some("me"), &c)), Some("home".to_string()));
}

#[test]
fn menu_shows_name_and_path() {
    let c = two_locations();
    assert_eq!(menu_lines(&c), vec!["home (/home/u)".to_string(), "host (/srv/host)".to_string()]);
}

#[test]
fn menu_choice_maps_back_to_the_name() {
    let c = two_locations();
    assert_eq!(menu_choice(0, "host (/srv/host)\n", &c), Ok("host".to_string()));
    assert_eq!(menu_choice(1, "host (/srv/host)\n", &c), Err(MenuError::Exit(1)));
    assert_eq!(menu_choice(130, "", &c), Err(MenuError::Exit(130)));
    assert_eq!(menu_choice(0, "nowhere", &c), Err(MenuError::NoMatch));
}

#[test]
fn absolute_cache_file_stands_alone() {
    let l = Location { path: "/nas".to_string(), mode: LocationMode::Files, cache_file: Some("/var/cache/all.txt".to_string()) };
    let s = candidate_source(&l, &None, PathSep::Slash);
    assert!(matches!(s, CandidateSource::CacheFile(ref p) if p == "/var/cache/all.txt"));
}

#[test]
fn cache_file_is_read_with_newline_records() {
    let l = Location {
        path: "/nas".to_string(),
        mode: LocationMode::Folders,
        cache_file: Some(".blink/all.txt".to_string()),
    };
    let s = candidate_source(&l, &None, PathSep::Slash);
    assert!(matches!(s, CandidateSource::CacheFile(ref p) if p == "/nas/.blink/all.txt"));
    assert_eq!(s.separator(), Separator::Newline);
}

#[test]
fn scan_without_cache_file() {
    let l = Location { path: "/nas".to_string(), mode: LocationMode::Folders, cache_file: None };
    let s = candidate_source(&l, &Some(vec!["--hidden".to_string()]), PathSep::Slash);
    assert_eq!(s.separator(), Separator::Null);
    match s {
        CandidateSource::Scan(args) => assert_eq!(args, vec![".", "--print0", "--type", "d", "--hidden"]),
        CandidateSource::CacheFile(_) => panic!("expected a scan"),
    }
}

#[test]
fn defaults() {
    let l = Location::default();
    assert_eq!(l.path, "");
    assert_eq!(l.mode, LocationMode::Files);
    assert!(l.cache_file.is_none());
    assert_eq!(LocationMode::default(), LocationMode::Files);
    let c = Config::default();
    assert!(c.locations.is_empty());
    assert!(c.fd_flags.is_none() && c.fzf_flags.is_none());
}

#[test]
fn folded_matching() {
    assert!(matches_folded("home", "ho"));
    assert!(matches_folded("host", "ho"));
    assert!(!matches_folded("home", "zzz"));
    assert!(matches_folded("home", ""));
    assert!(!matches_folded("ho", "home"));
}
