use vstd::prelude::*;
use crate::text::{chars_of, join, join_path, same_text, string_of, trim, trim_bounds, PathSep};

verus! {

/// Exit code with which the filter reports that the user aborted it.
pub const ABORT_CODE: i32 = 130;

/// What one run of the filter asks for.
#[derive(Debug, Clone)]
pub enum OpenAction {
    /// Open this path.
    Open(String),
    /// Go to the location menu.
    Menu,
}

/// Why a run of the filter gave no action.
#[derive(Debug, Clone, Copy, PartialEq, Eq, Structural)]
pub enum FilterError {
    /// The filter exited with this code and no usable line.
    Exit(i32),
    /// The filter wrote more than one line.
    ExtraLine,
}

/// `a` is `Open(p)` with `p` viewed as `path`.
pub open spec fn opens(a: OpenAction, path: Seq<char>) -> bool {
    a is Open && a->Open_0@ == path
}

/// `s` with doubled backslashes made single, from left to right.
pub open spec fn unescape(s: Seq<char>) -> Seq<char>
    decreases s.len(),
{
    if s.len() == 0 {
        s
    } else if s.len() >= 2 && s[0] == '\\' && s[1] == '\\' {
        seq!['\\'] + unescape(s.skip(2))
    } else {
        seq![s[0]] + unescape(s.drop_first())
    }
}

pub open spec fn is_quoted(t: Seq<char>) -> bool {
    t.len() >= 2 && t[0] == '"' && t.last() == '"'
}

/// The relative path that a selection line names: trimmed, and when quoted,
/// unquoted with doubled backslashes made single.
pub open spec fn selection(line: Seq<char>) -> Seq<char> {
    let t = trim(line);
    if is_quoted(t) {
        unescape(t.subrange(1, t.len() - 1))
    } else {
        t
    }
}

/// Decodes one selection line of the filter into a relative path.
pub fn decode_selection(line: &str) -> (r: String)
    ensures
        r@ == selection(line@),
{
    let cs = chars_of(line);
    let (a, b) = trim_bounds(&cs);
    let ghost t = cs@.subrange(a as int, b as int);
    if b - a >= 2 && cs[a] == '"' && cs[b - 1] == '"' {
        let end: usize = b - 1;
        let ghost inner = cs@.subrange(a + 1, end as int);
        proof {
            assert(t.subrange(1, t.len() - 1) =~= inner);
        }
        let mut out: Vec<char> = Vec::new();
        let mut i: usize = a + 1;
        proof {
            assert(cs@.subrange(i as int, end as int) =~= inner);
            assert(out@ + unescape(inner) =~= unescape(inner));
        }
        while i < end
            invariant
                a + 1 <= i <= end,
                end < cs@.len(),
                out@ + unescape(cs@.subrange(i as int, end as int)) == unescape(inner),
            decreases end - i,
        {
            let ghost cur = cs@.subrange(i as int, end as int);
            if end - i >= 2 && cs[i] == '\\' && cs[i + 1] == '\\' {
                proof {
                    assert(cur.skip(2) =~= cs@.subrange(i + 2, end as int));
                    assert(out@.push('\\') + unescape(cur.skip(2)) =~= out@ + (seq!['\\']
                        + unescape(cur.skip(2))));
                }
                out.push('\\');
                i = i + 2;
            } else {
                proof {
                    assert(cur.drop_first() =~= cs@.subrange(i + 1, end as int));
                    assert(out@.push(cs@[i as int]) + unescape(cur.drop_first()) =~= out@ + (seq![
                        cur[0]] + unescape(cur.drop_first())));
                }
                out.push(cs[i]);
                i = i + 1;
            }
        }
        proof {
            assert(out@ + unescape(cs@.subrange(i as int, end as int)) =~= out@);
        }
        string_of(&out)
    } else {
        let mut out: Vec<char> = Vec::new();
        let mut i: usize = a;
        while i < b
            invariant
                a <= i <= b <= cs@.len(),
                out@ =~= cs@.subrange(a as int, i as int),
            decreases b - i,
        {
            out.push(cs[i]);
            i = i + 1;
        }
        string_of(&out)
    }
}

/// The action that one output line of the filter stands for, if any:
/// `TAB` asks for the menu, `EDIT_CONFIG` for the configuration file, and
/// any other non-empty line for its selection joined onto `root`. An empty
/// line stands for nothing.
pub open spec fn line_action(
    line: Seq<char>,
    root: Seq<char>,
    config_path: Seq<char>,
    native: char,
) -> Option<Option<Seq<char>>> {
    if line == "TAB"@ {
        Some(None)
    } else if line == "EDIT_CONFIG"@ {
        Some(Some(config_path))
    } else if line.len() == 0 {
        None
    } else {
        Some(Some(join(root, selection(line), native)))
    }
}

/// `r` is the action that `m` describes: `None` for the menu, `Some(p)` for
/// opening `p`.
pub open spec fn is_action(r: OpenAction, m: Option<Seq<char>>) -> bool {
    match m {
        None => r is Menu,
        Some(p) => opens(r, p),
    }
}

/// Decodes one output line of the filter run on the location rooted at
/// `root`.
pub fn decode_line(
    line: &str,
    root: &str,
    config_path: &str,
    native: PathSep,
) -> (r: Option<OpenAction>)
    ensures
        match line_action(line@, root@, config_path@, native.spec_char()) {
            None => r is None,
            Some(m) => r is Some && is_action(r->Some_0, m),
        },
{
    if same_text(line, "TAB") {
        Some(OpenAction::Menu)
    } else if same_text(line, "EDIT_CONFIG") {
        Some(OpenAction::Open(crate::text::copy_str(config_path)))
    } else {
        if line.is_empty() {
            None
        } else {
            let sel = decode_selection(line);
            Some(OpenAction::Open(join_path(root, sel.as_str(), native)))
        }
    }
}

/// Combines the action decoded from the filter's output with its exit code:
/// a path to open wins whatever the code, the menu is taken on the abort
/// code, and anything else is an error that carries the code.
pub fn reconcile(code: i32, pending: Option<OpenAction>) -> (r: Result<OpenAction, FilterError>)
    ensures
        match pending {
            Some(OpenAction::Open(p)) => r is Ok && opens(r->Ok_0, p@),
            Some(OpenAction::Menu) => if code == ABORT_CODE {
                r is Ok && r->Ok_0 is Menu
            } else {
                r == Err::<OpenAction, FilterError>(FilterError::Exit(code))
            },
            None => r == Err::<OpenAction, FilterError>(FilterError::Exit(code)),
        },
{
    match pending {
        Some(OpenAction::Open(p)) => Ok(OpenAction::Open(p)),
        Some(OpenAction::Menu) => if code == ABORT_CODE {
            Ok(OpenAction::Menu)
        } else {
            Err(FilterError::Exit(code))
        },
        None => Err(FilterError::Exit(code)),
    }
}

/// Reads the filter's output line by line and holds the action that its
/// one line names.
pub struct OutputDecoder {
    pub pending: Option<OpenAction>,
    /// Whether a line has been read yet.
    pub seen_line: bool,
}

impl OutputDecoder {
    pub fn new() -> (r: Self)
        ensures
            r.pending is None,
            !r.seen_line,
    {
        OutputDecoder { pending: None, seen_line: false }
    }

    /// Takes one output line. Any line after the first is a protocol
    /// violation and leaves the decoder as it was; the first one sets the
    /// action that it names, if any.
    pub fn feed(
        &mut self,
        line: &str,
        root: &str,
        config_path: &str,
        native: PathSep,
    ) -> (r: Result<(), FilterError>)
        ensures
            old(self).seen_line ==> r == Err::<(), FilterError>(FilterError::ExtraLine)
                && final(self).pending == old(self).pending && final(self).seen_line,
            !old(self).seen_line ==> r is Ok && final(self).seen_line && match line_action(
                line@,
                root@,
                config_path@,
                native.spec_char(),
            ) {
                None => final(self).pending == old(self).pending,
                Some(m) => final(self).pending is Some && is_action(final(self).pending->Some_0, m),
            },
    {
        if self.seen_line {
            return Err(FilterError::ExtraLine);
        }
        self.seen_line = true;
        match decode_line(line, root, config_path, native) {
            None => Ok(()),
            Some(a) => {
                self.pending = Some(a);
                Ok(())
            },
        }
    }

    /// The outcome of the run once the filter exited with `code`.
    pub fn finish(self, code: i32) -> (r: Result<OpenAction, FilterError>)
        ensures
            match self.pending {
                Some(OpenAction::Open(p)) => r is Ok && opens(r->Ok_0, p@),
                Some(OpenAction::Menu) => if code == ABORT_CODE {
                    r is Ok && r->Ok_0 is Menu
                } else {
                    r == Err::<OpenAction, FilterError>(FilterError::Exit(code))
                },
                None => r == Err::<OpenAction, FilterError>(FilterError::Exit(code)),
            },
    {
        reconcile(code, self.pending)
    }
}

/// What the session does after one run of the filter.
#[derive(Debug, Clone)]
pub enum SessionStep {
    /// Hand this path to the file opener; the session ends.
    Launch(String),
    /// Let the user pick another location, then run the filter there.
    PickLocation,
}

/// The session's next step after the filter asked for `action`: an open
/// ends the session, a menu request goes back to the location menu.
pub fn next_step(action: OpenAction) -> (r: SessionStep)
    ensures
        match action {
            OpenAction::Open(p) => r is Launch && r->Launch_0@ == p@,
            OpenAction::Menu => r is PickLocation,
        },
{
    match action {
        OpenAction::Open(p) => SessionStep::Launch(p),
        OpenAction::Menu => SessionStep::PickLocation,
    }
}

} // verus!
