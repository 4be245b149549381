use vstd::prelude::*;
use regex::Regex;
use crate::text::{chars_of, string_of, trim, trim_bounds};

verus! {

pub open spec fn forward(c: char) -> char {
    if c == '\\' {
        '/'
    } else {
        c
    }
}

pub open spec fn backward(c: char) -> char {
    if c == '/' {
        '\\'
    } else {
        c
    }
}

/// `s` with every run of `/` made a single `/`.
pub open spec fn squeeze(s: Seq<char>) -> Seq<char>
    decreases s.len(),
{
    if s.len() == 0 {
        s
    } else if s.last() == '/' && s.len() >= 2 && s[s.len() - 2] == '/' {
        squeeze(s.drop_last())
    } else {
        squeeze(s.drop_last()).push(s.last())
    }
}

/// `s` without trailing backslashes.
pub open spec fn trim_end_backslash(s: Seq<char>) -> Seq<char>
    decreases s.len(),
{
    if s.len() > 0 && s.last() == '\\' {
        trim_end_backslash(s.drop_last())
    } else {
        s
    }
}

/// The path handed to the platform's file opener: trimmed, separators made
/// `/` and runs of them single. On Windows a leading `/` is doubled (a
/// network share), separators become `\` and trailing ones go.
pub open spec fn opener_path(path: Seq<char>, windows: bool) -> Seq<char> {
    let p = squeeze(trim(path).map_values(|c: char| forward(c)));
    if windows {
        let q = if p.len() > 0 && p[0] == '/' {
            seq!['/'] + p
        } else {
            p
        };
        trim_end_backslash(q.map_values(|c: char| backward(c)))
    } else {
        p
    }
}

/// Relies on `regex::Regex::replace_all` with the pattern `/+` and the
/// replacement `/`: each run of slashes becomes one.
#[verifier::external_body]
fn collapse_slashes(s: &str) -> (r: String)
    ensures
        r@ == squeeze(s@),
{
    Regex::new(r"/+").unwrap().replace_all(s, "/").into_owned()
}

/// The path that the file opener is given for `path`.
pub fn opener_target(path: &str, windows: bool) -> (r: String)
    ensures
        r@ == opener_path(path@, windows),
{
    let cs = chars_of(path);
    let (a, b) = trim_bounds(&cs);
    let mut fwd: Vec<char> = Vec::new();
    let mut i: usize = a;
    while i < b
        invariant
            a <= i <= b <= cs@.len(),
            fwd@ =~= cs@.subrange(a as int, i as int).map_values(|c: char| forward(c)),
        decreases b - i,
    {
        let c = cs[i];
        fwd.push(if c == '\\' {
            '/'
        } else {
            c
        });
        i = i + 1;
    }
    let joined = string_of(&fwd);
    let p = collapse_slashes(joined.as_str());
    if !windows {
        return p;
    }
    let pc = chars_of(p.as_str());
    let mut w: Vec<char> = Vec::new();
    let ghost q = if pc@.len() > 0 && pc@[0] == '/' {
        seq!['/'] + pc@
    } else {
        pc@
    };
    if pc.len() > 0 && pc[0] == '/' {
        w.push('\\');
    }
    let ghost lead = w@.len();
    proof {
        assert(forall|j: int| 0 <= j < pc@.len() ==> #[trigger] q[lead + j] == pc@[j]);
    }
    let mut k: usize = 0;
    while k < pc.len()
        invariant
            k <= pc@.len(),
            lead <= 1,
            w@.len() == lead + k,
            q.len() == lead + pc@.len(),
            forall|j: int| 0 <= j < pc@.len() ==> #[trigger] q[lead + j] == pc@[j],
            forall|j: int| 0 <= j < lead + k ==> #[trigger] w@[j] == backward(q[j]),
        decreases pc@.len() - k,
    {
        let c = pc[k];
        w.push(if c == '/' {
            '\\'
        } else {
            c
        });
        proof {
            assert(q[lead + k] == c);
        }
        k = k + 1;
    }
    proof {
        assert(w@ =~= q.map_values(|c: char| backward(c)));
    }
    let ghost full = w@;
    loop
        invariant
            trim_end_backslash(w@) == trim_end_backslash(full),
        ensures
            trim_end_backslash(w@) == trim_end_backslash(full),
            !(w@.len() > 0 && w@.last() == '\\'),
        decreases w@.len(),
    {
        if w.len() == 0 || w[w.len() - 1] != '\\' {
            break;
        }
        let ghost before = w@;
        w.pop();
        proof {
            assert(w@ =~= before.drop_last());
        }
    }
    string_of(&w)
}

} // verus!
