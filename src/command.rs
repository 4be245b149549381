use vstd::prelude::*;
use vstd::string::StringExecFns;
use regex::Regex;
use crate::config::{Location, LocationMode};
use crate::normalize::Separator;
use crate::text::{chars_of, join, join_path, string_of, PathSep};

verus! {

pub open spec fn is_ascii_alnum(c: char) -> bool {
    ('a' <= c && c <= 'z') || ('A' <= c && c <= 'Z') || ('0' <= c && c <= '9')
}

/// The ASCII letters and digits of `s`, in order.
pub open spec fn keep_alnum(s: Seq<char>) -> Seq<char>
    decreases s.len(),
{
    if s.len() == 0 {
        s
    } else if is_ascii_alnum(s.last()) {
        keep_alnum(s.drop_last()).push(s.last())
    } else {
        keep_alnum(s.drop_last())
    }
}

pub open spec fn ascii_lower(c: char) -> char {
    if 'A' <= c && c <= 'Z' {
        (((c as u8) + 32) as u8) as char
    } else {
        c
    }
}

/// The key under which a location keeps its own filter history: its
/// ASCII letters and digits, lower-cased.
pub open spec fn location_key(name: Seq<char>) -> Seq<char> {
    keep_alnum(name).map_values(|c: char| ascii_lower(c))
}

/// Relies on `regex::Regex::replace_all` with the pattern `[^a-zA-Z0-9]`
/// and an empty replacement: every character but an ASCII letter or digit
/// is dropped.
#[verifier::external_body]
fn drop_non_alnum(s: &str) -> (r: String)
    ensures
        r@ == keep_alnum(s@),
{
    Regex::new(r"[^a-zA-Z0-9]").unwrap().replace_all(s, "").into_owned()
}

/// The history key of a location name.
pub fn location_to_id(location: &str) -> (r: String)
    ensures
        r@ == location_key(location@),
{
    let kept = drop_non_alnum(location);
    let cs = chars_of(kept.as_str());
    let mut out: Vec<char> = Vec::new();
    let mut i: usize = 0;
    while i < cs.len()
        invariant
            i <= cs@.len(),
            out@ =~= cs@.take(i as int).map_values(|c: char| ascii_lower(c)),
        decreases cs@.len() - i,
    {
        let c = cs[i];
        let l = if 'A' <= c && c <= 'Z' {
            let b: u8 = (c as u8) + 32;
            b as char
        } else {
            c
        };
        out.push(l);
        proof {
            assert(cs@.take(i + 1) =~= cs@.take(i as int).push(c));
        }
        i = i + 1;
    }
    proof {
        assert(cs@.take(i as int) =~= cs@);
    }
    string_of(&out)
}

/// `a` followed by `b`.
fn cat(a: &str, b: &str) -> (r: String)
    ensures
        r@ == a@ + b@,
{
    let mut r = String::from_str(a);
    r.append(b);
    r
}

fn lit(s: &str) -> (r: String)
    ensures
        r@ == s@,
{
    String::from_str(s)
}

/// The views of the user's extra arguments, none when absent.
pub open spec fn flag_views(flags: Option<Vec<String>>) -> Seq<Seq<char>> {
    match flags {
        None => Seq::empty(),
        Some(v) => v@.map_values(|s: String| s@),
    }
}

pub open spec fn views(v: Seq<String>) -> Seq<Seq<char>> {
    v.map_values(|s: String| s@)
}

/// Appends copies of the extra arguments, in order.
fn push_flags(out: &mut Vec<String>, flags: &Option<Vec<String>>)
    ensures
        views(final(out)@) == views(old(out)@) + flag_views(*flags),
{
    match flags {
        None => {
            proof {
                assert(views(out@) =~= views(out@) + Seq::<Seq<char>>::empty());
            }
        },
        Some(v) => {
            let ghost start = views(out@);
            let mut i: usize = 0;
            while i < v.len()
                invariant
                    i <= v@.len(),
                    views(out@) =~= start + views(v@.take(i as int)),
                decreases v@.len() - i,
            {
                let ghost before = out@;
                out.push(v[i].clone());
                proof {
                    assert(views(out@) =~= views(before).push(v@[i as int]@));
                    assert(views(v@.take(i + 1)) =~= views(v@.take(i as int)).push(v@[i as int]@));
                }
                i = i + 1;
            }
            proof {
                assert(v@.take(i as int) =~= v@);
            }
        },
    }
}

/// The entry-type argument of the enumerator for a mode.
pub open spec fn type_flag(mode: LocationMode) -> Seq<char> {
    match mode {
        LocationMode::Files => "f"@,
        LocationMode::Folders => "d"@,
    }
}

/// The enumerator's arguments for a mode and the user's extra arguments.
pub open spec fn scan_args(mode: LocationMode, fd_flags: Option<Vec<String>>) -> Seq<Seq<char>> {
    seq!["."@, "--print0"@, "--type"@, type_flag(mode)] + flag_views(fd_flags)
}

/// Arguments of the directory enumerator for a location: every entry, NUL
/// delimited, of the location's type, then the user's extra arguments.
pub fn enumerator_args(location: &Location, fd_flags: &Option<Vec<String>>) -> (r: Vec<String>)
    ensures
        views(r@) == scan_args(location.mode, *fd_flags),
{
    let mut out: Vec<String> = Vec::new();
    out.push(lit("."));
    out.push(lit("--print0"));
    out.push(lit("--type"));
    match location.mode {
        LocationMode::Files => out.push(lit("f")),
        LocationMode::Folders => out.push(lit("d")),
    }
    proof {
        assert(views(out@) =~= seq!["."@, "--print0"@, "--type"@, type_flag(location.mode)]);
    }
    push_flags(&mut out, fd_flags);
    out
}

/// Path of the history file of the location named `location_name`.
pub open spec fn history_file(base_dir: Seq<char>, location_name: Seq<char>, native: char) -> Seq<
    char,
> {
    join(base_dir, "history-"@ + location_key(location_name) + ".txt"@, native)
}

/// The history file of a location under the directory `base_dir`.
pub fn history_path(base_dir: &str, location_name: &str, native: PathSep) -> (r: String)
    ensures
        r@ == history_file(base_dir@, location_name@, native.spec_char()),
{
    let id = location_to_id(location_name);
    let name = cat(cat("history-", id.as_str()).as_str(), ".txt");
    join_path(base_dir, name.as_str(), native)
}

/// The history file of the location menu under the directory `base_dir`.
pub fn menu_history_path(base_dir: &str, native: PathSep) -> (r: String)
    ensures
        r@ == join(base_dir@, "history-menu.txt"@, native.spec_char()),
{
    join_path(base_dir, "history-menu.txt", native)
}

/// The key binding that reopens this program on the highlighted entry.
pub open spec fn open_binding(exe: Seq<char>, location_name: Seq<char>) -> Seq<char> {
    "--bind=ctrl-x:execute(\""@ + exe + "\" --open-path={} "@ + location_name + ")"@
}

/// Arguments of the filter run on a location: path matching, the
/// location's history, the bindings that signal the menu, reopen this
/// program and ask for the configuration, then the user's extra arguments.
pub fn filter_args(
    history: &str,
    exe: &str,
    location_name: &str,
    fzf_flags: &Option<Vec<String>>,
) -> (r: Vec<String>)
    ensures
        views(r@) == seq![
            "--scheme=path"@,
            "--history="@ + history@,
            "--bind=tab:execute(echo TAB)+abort"@,
            open_binding(exe@, location_name@),
            "--bind=alt-c:execute(echo EDIT_CONFIG)+abort"@,
        ] + flag_views(*fzf_flags),
{
    let mut out: Vec<String> = Vec::new();
    out.push(lit("--scheme=path"));
    out.push(cat("--history=", history));
    out.push(lit("--bind=tab:execute(echo TAB)+abort"));
    let b1 = cat("--bind=ctrl-x:execute(\"", exe);
    let b2 = cat(b1.as_str(), "\" --open-path={} ");
    let b3 = cat(b2.as_str(), location_name);
    out.push(cat(b3.as_str(), ")"));
    out.push(lit("--bind=alt-c:execute(echo EDIT_CONFIG)+abort"));
    proof {
        assert(views(out@) =~= seq![
            "--scheme=path"@,
            "--history="@ + history@,
            "--bind=tab:execute(echo TAB)+abort"@,
            open_binding(exe@, location_name@),
            "--bind=alt-c:execute(echo EDIT_CONFIG)+abort"@,
        ]);
    }
    push_flags(&mut out, fzf_flags);
    out
}

/// Arguments of the filter run as location menu: the shared history, tab
/// accepts, the typed query if any, then the user's extra arguments.
pub fn menu_args(history: &str, query: Option<&str>, fzf_flags: &Option<Vec<String>>) -> (r: Vec<
    String,
>)
    ensures
        views(r@) == seq!["--history="@ + history@, "--bind"@, "tab:accept"@] + match query {
            None => Seq::<Seq<char>>::empty(),
            Some(q) => seq!["--query="@ + q@],
        } + flag_views(*fzf_flags),
{
    let mut out: Vec<String> = Vec::new();
    out.push(cat("--history=", history));
    out.push(lit("--bind"));
    out.push(lit("tab:accept"));
    match query {
        None => {
            proof {
                assert(views(out@) =~= seq!["--history="@ + history@, "--bind"@, "tab:accept"@]
                    + Seq::<Seq<char>>::empty());
            }
        },
        Some(q) => {
            out.push(cat("--query=", q));
            proof {
                assert(views(out@) =~= seq!["--history="@ + history@, "--bind"@, "tab:accept"@]
                    + seq!["--query="@ + q@]);
            }
        },
    }
    push_flags(&mut out, fzf_flags);
    out
}

/// The name under which a helper program is run: `.exe` is added on
/// Windows.
pub fn program_name(exe: &str, windows: bool) -> (r: String)
    ensures
        r@ == if windows {
            exe@ + ".exe"@
        } else {
            exe@
        },
{
    if windows {
        cat(exe, ".exe")
    } else {
        lit(exe)
    }
}

/// The argument that starts this program as normaliser of a stream.
pub fn normalize_arg(sep: Separator) -> (r: String)
    ensures
        r@ == "--normalize-paths="@ + match sep {
            Separator::Null => "null"@,
            Separator::Newline => "newline"@,
        },
{
    match sep {
        Separator::Null => cat("--normalize-paths=", "null"),
        Separator::Newline => cat("--normalize-paths=", "newline"),
    }
}

/// Where the candidates of a location come from.
pub enum CandidateSource {
    /// A cache file of newline-delimited paths, at this path.
    CacheFile(String),
    /// A live scan by the enumerator, run in the location's directory with
    /// these arguments, NUL delimited.
    Scan(Vec<String>),
}

impl CandidateSource {
    /// The record delimiter of the stream that this source yields.
    pub fn separator(&self) -> (r: Separator)
        ensures
            r == match self {
                CandidateSource::CacheFile(_) => Separator::Newline,
                CandidateSource::Scan(_) => Separator::Null,
            },
    {
        match self {
            CandidateSource::CacheFile(_) => Separator::Newline,
            CandidateSource::Scan(_) => Separator::Null,
        }
    }
}

/// The source of a location's candidates: its cache file, joined onto its
/// path, when it names one; else a scan of its directory.
pub fn candidate_source(location: &Location, fd_flags: &Option<Vec<String>>, native: PathSep) -> (r:
    CandidateSource)
    ensures
        match location.cache_file {
            Some(c) => r is CacheFile && r->CacheFile_0@ == join(location.path@, c@, native.spec_char()),
            None => r is Scan && views(r->Scan_0@) == scan_args(location.mode, *fd_flags),
        },
{
    match &location.cache_file {
        Some(c) => CandidateSource::CacheFile(join_path(location.path.as_str(), c.as_str(), native)),
        None => CandidateSource::Scan(enumerator_args(location, fd_flags)),
    }
}

} // verus!
