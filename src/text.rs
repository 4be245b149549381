use vstd::prelude::*;
use crate::normalize::{is_space, is_path_sep};

verus! {

pub open spec fn trim_start(s: Seq<char>) -> Seq<char>
    decreases s.len(),
{
    if s.len() > 0 && is_space(s[0]) {
        trim_start(s.drop_first())
    } else {
        s
    }
}

/// `s` without white space at either end.
pub open spec fn trim(s: Seq<char>) -> Seq<char> {
    trim_start(crate::normalize::trim_end(s))
}

/// `c` separates path components where `native` is the host separator:
/// `/` always, `\` only where the host writes `\`.
pub open spec fn is_sep_of(c: char, native: char) -> bool {
    c == '/' || (native == '\\' && c == '\\')
}

/// `rel` stands on its own: it starts with a separator or, where the host
/// writes `\`, with a drive prefix such as `C:`.
pub open spec fn is_rooted(rel: Seq<char>, native: char) -> bool {
    (rel.len() > 0 && is_sep_of(rel[0], native)) || (native == '\\' && rel.len() >= 2 && (('a'
        <= rel[0] && rel[0] <= 'z') || ('A' <= rel[0] && rel[0] <= 'Z')) && rel[1] == ':')
}

/// `rel` joined onto `base`: a rooted `rel` replaces `base`; otherwise it is
/// appended, with `native` between them unless `base` is empty or already
/// ends with a separator.
pub open spec fn join(base: Seq<char>, rel: Seq<char>, native: char) -> Seq<char> {
    if is_rooted(rel, native) || base.len() == 0 {
        rel
    } else if is_sep_of(base.last(), native) {
        base + rel
    } else {
        base + seq![native] + rel
    }
}

/// The separator that paths are written with on the host.
#[derive(Debug, Clone, Copy, PartialEq, Eq, Structural)]
pub enum PathSep {
    /// `/`
    Slash,
    /// `\`
    Backslash,
}

impl PathSep {
    pub open spec fn spec_char(self) -> char {
        match self {
            PathSep::Slash => '/',
            PathSep::Backslash => '\\',
        }
    }

    /// The separator character.
    pub fn as_char(self) -> (r: char)
        ensures
            r == self.spec_char(),
            is_path_sep(r),
    {
        match self {
            PathSep::Slash => '/',
            PathSep::Backslash => '\\',
        }
    }
}

/// Relies on `str::chars`, collected: the characters of `s` in order.
#[verifier::external_body]
pub(crate) fn chars_of(s: &str) -> (r: Vec<char>)
    ensures
        r@ == s@,
{
    s.chars().collect()
}

/// Relies on `String::from_iter` over characters: the string of `v`.
#[verifier::external_body]
pub(crate) fn string_of(v: &Vec<char>) -> (r: String)
    ensures
        r@ == v@,
{
    v.iter().collect()
}

/// Bounds of the part of `cs` that `trim` keeps.
pub(crate) fn trim_bounds(cs: &Vec<char>) -> (r: (usize, usize))
    ensures
        r.0 <= r.1 <= cs@.len(),
        cs@.subrange(r.0 as int, r.1 as int) == trim(cs@),
{
    let mut end: usize = cs.len();
    proof {
        assert(cs@.take(end as int) =~= cs@);
    }
    loop
        invariant
            end <= cs@.len(),
            crate::normalize::trim_end(cs@.take(end as int)) == crate::normalize::trim_end(cs@),
        ensures
            end <= cs@.len(),
            crate::normalize::trim_end(cs@.take(end as int)) == crate::normalize::trim_end(cs@),
            end == 0 || !is_space(cs@[end - 1]),
        decreases end,
    {
        if end == 0 || !crate::normalize::is_space_exec(cs[end - 1]) {
            break;
        }
        proof {
            assert(cs@.take(end as int).drop_last() =~= cs@.take(end - 1));
        }
        end = end - 1;
    }
    let ghost t = cs@.take(end as int);
    proof {
        assert(crate::normalize::trim_end(t) == t);
        assert(t.subrange(0, end as int) =~= t);
    }
    let mut start: usize = 0;
    loop
        invariant
            start <= end <= cs@.len(),
            t == cs@.take(end as int),
            trim_start(cs@.subrange(start as int, end as int)) == trim_start(t),
        ensures
            start <= end,
            trim_start(cs@.subrange(start as int, end as int)) == trim_start(t),
            !(start < end && is_space(cs@[start as int])),
        decreases end - start,
    {
        if start < end && crate::normalize::is_space_exec(cs[start]) {
            proof {
                assert(cs@.subrange(start as int, end as int).drop_first() =~= cs@.subrange(
                    start + 1,
                    end as int,
                ));
            }
            start = start + 1;
        } else {
            break;
        }
    }
    (start, end)
}

/// `a` and `b` hold the same characters.
pub(crate) fn same_text(a: &str, b: &str) -> (r: bool)
    ensures
        r == (a@ == b@),
{
    let x = chars_of(a);
    let y = chars_of(b);
    if x.len() != y.len() {
        return false;
    }
    let mut i: usize = 0;
    while i < x.len()
        invariant
            i <= x@.len(),
            x@.len() == y@.len(),
            x@ == a@,
            y@ == b@,
            forall|j: int| 0 <= j < i ==> x@[j] == y@[j],
        decreases x@.len() - i,
    {
        if x[i] != y[i] {
            return false;
        }
        i = i + 1;
    }
    proof {
        assert(x@ =~= y@);
    }
    true
}

/// Joins `rel` onto `base` with `native` as separator.
pub fn join_path(base: &str, rel: &str, native: PathSep) -> (r: String)
    ensures
        r@ == join(base@, rel@, native.spec_char()),
{
    let n = native.as_char();
    let rs = chars_of(rel);
    let rooted = (rs.len() > 0 && (rs[0] == '/' || (n == '\\' && rs[0] == '\\'))) || (n == '\\'
        && rs.len() >= 2 && (('a' <= rs[0] && rs[0] <= 'z') || ('A' <= rs[0] && rs[0] <= 'Z'))
        && rs[1] == ':');
    if rooted {
        return string_of(&rs);
    }
    let b = chars_of(base);
    let mut out: Vec<char> = chars_of(base);
    if b.len() > 0 && !(b[b.len() - 1] == '/' || (n == '\\' && b[b.len() - 1] == '\\')) {
        out.push(n);
    }
    let ghost start = out@;
    let mut i: usize = 0;
    while i < rs.len()
        invariant
            i <= rs@.len(),
            out@ == start + rs@.take(i as int),
        decreases rs@.len() - i,
    {
        out.push(rs[i]);
        proof {
            assert(rs@.take(i + 1) =~= rs@.take(i as int).push(rs@[i as int]));
        }
        i = i + 1;
    }
    proof {
        assert(rs@.take(i as int) =~= rs@);
        if b@.len() > 0 {
            assert(b@.last() == b@[b@.len() - 1]);
        }
    }
    string_of(&out)
}

/// A new string with the characters of `s`.
pub(crate) fn copy_str(s: &str) -> (r: String)
    ensures
        r@ == s@,
{
    let cs = chars_of(s);
    string_of(&cs)
}

} // verus!
