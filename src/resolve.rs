use vstd::prelude::*;
use crate::config::{entries_of, names_of, table_names, Config, Location};
use crate::text::{chars_of, copy_str, string_of, trim, trim_bounds};

verus! {

/// What `str::to_lowercase` makes of a string.
pub uninterp spec fn lower_of(s: Seq<char>) -> Seq<char>;

/// Relies on `str::to_lowercase`: the result depends on the characters alone.
#[verifier::external_body]
fn lowercase(s: &str) -> (r: String)
    ensures
        r@ == lower_of(s@),
{
    s.to_lowercase()
}

/// `n` occurs in `h` as a contiguous part.
pub open spec fn has_infix(h: Seq<char>, n: Seq<char>) -> bool {
    exists|i: int| 0 <= i && i + n.len() <= h.len() && #[trigger] h.subrange(i, i + n.len()) == n
}

/// `name` holds `query`, case folded.
pub open spec fn name_matches(name: Seq<char>, query: Seq<char>) -> bool {
    has_infix(lower_of(name), lower_of(query))
}

/// The names that hold `query`, case folded, in order.
pub open spec fn matches_of(names: Seq<Seq<char>>, query: Seq<char>) -> Seq<Seq<char>>
    decreases names.len(),
{
    if names.len() == 0 {
        Seq::empty()
    } else {
        let prev = matches_of(names.drop_last(), query);
        if name_matches(names.last(), query) {
            prev.push(names.last())
        } else {
            prev
        }
    }
}

/// Whether the case-folded name holds the case-folded query.
pub fn matches_folded(name_folded: &str, query_folded: &str) -> (r: bool)
    ensures
        r == has_infix(name_folded@, query_folded@),
{
    let h = chars_of(name_folded);
    let n = chars_of(query_folded);
    contains_text(&h, &n)
}

/// Whether `n` occurs in `h`.
fn contains_text(h: &Vec<char>, n: &Vec<char>) -> (r: bool)
    ensures
        r == has_infix(h@, n@),
{
    if n.len() > h.len() {
        return false;
    }
    let hl: usize = h.len();
    let last: usize = hl - n.len();
    let mut i: usize = 0;
    loop
        invariant
            i <= last,
            hl == h@.len(),
            last == h@.len() - n@.len(),
            n@.len() <= h@.len(),
            forall|k: int| 0 <= k < i ==> #[trigger] h@.subrange(k, k + n@.len()) != n@,
        ensures
            forall|k: int| 0 <= k <= last ==> #[trigger] h@.subrange(k, k + n@.len()) != n@,
        decreases last - i,
    {
        let mut j: usize = 0;
        while j < n.len()
            invariant
                i <= last,
                hl == h@.len(),
                last == h@.len() - n@.len(),
                n@.len() <= h@.len(),
                j <= n@.len(),
                forall|t: int| 0 <= t < j ==> h@[i + t] == n@[t],
            ensures
                j <= n@.len(),
                forall|t: int| 0 <= t < j ==> h@[i + t] == n@[t],
                j < n@.len() ==> h@[i + j] != n@[j as int],
            decreases n@.len() - j,
        {
            assert(i + j < hl);
            if h[i + j] != n[j] {
                break;
            }
            j = j + 1;
        }
        if j == n.len() {
            proof {
                assert(h@.subrange(i as int, i + n@.len()) =~= n@);
            }
            return true;
        }
        proof {
            assert(h@.subrange(i as int, i + n@.len())[j as int] == h@[i + j]);
        }
        if i == last {
            break;
        }
        i = i + 1;
    }
    false
}

/// Which location a requested name stands for.
#[derive(Debug, Clone)]
pub enum Resolution {
    /// This location.
    Found(String),
    /// Several names hold the request: the user picks in the menu.
    Ambiguous,
    /// No location fits.
    NotFound,
}

/// Resolves a requested location name: none asks for the first location;
/// an exact name is taken as it is; otherwise the names that hold the
/// request, case folded, decide: one is taken, none is an error, several
/// call for the menu.
pub fn resolve(requested: Option<&str>, config: &Config) -> (r: Resolution)
    ensures
        ({
            let names = names_of(config.locations);
            match requested {
                None => if names.len() == 0 {
                    r is NotFound
                } else {
                    r is Found && r->Found_0@ == names[0]
                },
                Some(q) => if names.contains(q@) {
                    r is Found && r->Found_0@ == q@
                } else if matches_of(names, q@).len() == 0 {
                    r is NotFound
                } else if matches_of(names, q@).len() == 1 {
                    r is Found && r->Found_0@ == matches_of(names, q@)[0]
                } else {
                    r is Ambiguous
                },
            }
        }),
{
    let names = table_names(&config.locations);
    let ghost nv = names_of(config.locations);
    proof {
        assert(nv.len() == names@.len());
        assert(forall|k: int| 0 <= k < nv.len() ==> nv[k] == #[trigger] names@[k]@);
    }
    match requested {
        None => {
            if names.len() == 0 {
                Resolution::NotFound
            } else {
                Resolution::Found(copy_str(names[0].as_str()))
            }
        },
        Some(q) => {
            if config.table_get(q).is_some() {
                return Resolution::Found(copy_str(q));
            }
            let lq = lowercase(q);
            let mut count: usize = 0;
            let mut first: usize = 0;
            let mut i: usize = 0;
            while i < names.len()
                invariant
                    i <= names@.len(),
                    nv.len() == names@.len(),
                    forall|k: int| 0 <= k < nv.len() ==> nv[k] == #[trigger] names@[k]@,
                    lq@ == lower_of(q@),
                    count == matches_of(nv.take(i as int), q@).len(),
                    count <= i,
                    count > 0 ==> first < i && nv[first as int] == matches_of(
                        nv.take(i as int),
                        q@,
                    )[0],
                decreases names@.len() - i,
            {
                let ln = lowercase(names[i].as_str());
                let hit = matches_folded(ln.as_str(), lq.as_str());
                proof {
                    assert(nv.take(i + 1).drop_last() =~= nv.take(i as int));
                    assert(nv.take(i + 1).last() == nv[i as int]);
                }
                if hit {
                    if count == 0 {
                        first = i;
                    }
                    count = count + 1;
                }
                i = i + 1;
            }
            proof {
                assert(nv.take(i as int) =~= nv);
            }
            if count == 0 {
                Resolution::NotFound
            } else if count == 1 {
                Resolution::Found(copy_str(names[first].as_str()))
            } else {
                Resolution::Ambiguous
            }
        },
    }
}

/// The line that shows a location in the menu: `name (path)`.
pub open spec fn menu_label(name: Seq<char>, path: Seq<char>) -> Seq<char> {
    name + seq![' ', '('] + path + seq![')']
}

/// The menu label of the `i`-th entry of a location table.
pub open spec fn entry_label(entries: Seq<(Seq<char>, Location)>, i: int) -> Seq<char> {
    menu_label(entries[i].0, entries[i].1.path@)
}

fn push_all(out: &mut Vec<char>, s: &str)
    ensures
        final(out)@ == old(out)@ + s@,
{
    let cs = chars_of(s);
    let mut i: usize = 0;
    while i < cs.len()
        invariant
            i <= cs@.len(),
            cs@ == s@,
            out@ == old(out)@ + cs@.take(i as int),
        decreases cs@.len() - i,
    {
        out.push(cs[i]);
        proof {
            assert(cs@.take(i + 1) =~= cs@.take(i as int).push(cs@[i as int]));
        }
        i = i + 1;
    }
    proof {
        assert(cs@.take(i as int) =~= cs@);
    }
}

/// The menu line of a location.
pub fn menu_line(name: &str, path: &str) -> (r: String)
    ensures
        r@ == menu_label(name@, path@),
{
    let mut out: Vec<char> = Vec::new();
    push_all(&mut out, name);
    out.push(' ');
    out.push('(');
    push_all(&mut out, path);
    out.push(')');
    proof {
        assert(out@ =~= menu_label(name@, path@));
    }
    string_of(&out)
}

/// The location stored under the `i`-th name of the table.
fn entry_at<'a>(config: &'a Config, names: &Vec<String>, i: usize) -> (r: &'a Location)
    requires
        i < names@.len(),
        names@.len() == entries_of(config.locations).len(),
        forall|k: int| 0 <= k < names@.len() ==> #[trigger] names@[k]@ == entries_of(config.locations)[k].0,
        forall|a: int, b: int| 0 <= a < b < names@.len() ==> #[trigger] names@[a]@ != #[trigger] names@[b]@,
    ensures
        *r == entries_of(config.locations)[i as int].1,
{
    let ghost es = entries_of(config.locations);
    proof {
        assert(names_of(config.locations)[i as int] == names@[i as int]@);
    }
    let found = config.table_get(names[i].as_str());
    proof {
        assert(names_of(config.locations).contains(names@[i as int]@));
    }
    let loc = found.unwrap();
    proof {
        let k = choose|k: int| 0 <= k < es.len() && es[k] == (names@[i as int]@, *loc);
        if k < i {
            assert(names@[k]@ != names@[i as int]@);
        } else if k > i {
            assert(names@[i as int]@ != names@[k]@);
        }
    }
    loc
}

/// The menu: one line per location, in table order.
pub fn menu_lines(config: &Config) -> (r: Vec<String>)
    ensures
        r@.len() == entries_of(config.locations).len(),
        forall|i: int|
            0 <= i < r@.len() ==> #[trigger] r@[i]@ == entry_label(entries_of(config.locations), i),
{
    let names = table_names(&config.locations);
    let ghost es = entries_of(config.locations);
    let mut out: Vec<String> = Vec::new();
    let mut i: usize = 0;
    while i < names.len()
        invariant
            i <= names@.len(),
            names@.len() == es.len(),
            es == entries_of(config.locations),
            forall|k: int| 0 <= k < names@.len() ==> #[trigger] names@[k]@ == es[k].0,
            forall|a: int, b: int| 0 <= a < b < names@.len() ==> #[trigger] names@[a]@ != #[trigger] names@[b]@,
            out@.len() == i,
            forall|k: int| 0 <= k < i ==> #[trigger] out@[k]@ == entry_label(es, k),
        decreases names@.len() - i,
    {
        let loc = entry_at(config, &names, i);
        out.push(menu_line(names[i].as_str(), loc.path.as_str()));
        i = i + 1;
    }
    out
}

/// Why the menu gave no location.
#[derive(Debug, Clone, Copy, PartialEq, Eq, Structural)]
pub enum MenuError {
    /// The filter exited with this non-zero code.
    Exit(i32),
    /// The chosen line is no location's line.
    NoMatch,
}

/// The location that the menu's output names: on exit code 0, the first
/// location whose line equals the trimmed output.
pub fn menu_choice(code: i32, output: &str, config: &Config) -> (r: Result<String, MenuError>)
    ensures
        ({
            let es = entries_of(config.locations);
            let t = trim(output@);
            &&& code != 0 ==> r == Err::<String, MenuError>(MenuError::Exit(code))
            &&& (code == 0 && exists|i: int| 0 <= i < es.len() && #[trigger] entry_label(es, i) == t)
                ==> r is Ok
            &&& (code == 0 && forall|i: int| 0 <= i < es.len() ==> entry_label(es, i) != t) ==> r
                == Err::<String, MenuError>(MenuError::NoMatch)
            &&& r is Ok ==> exists|i: int|
                0 <= i < es.len() && es[i].0 == r->Ok_0@ && #[trigger] entry_label(es, i) == t && forall|
                    j: int,
                | 0 <= j < i ==> entry_label(es, j) != t
        }),
{
    if code != 0 {
        return Err(MenuError::Exit(code));
    }
    let cs = chars_of(output);
    let (a, b) = trim_bounds(&cs);
    let mut kept: Vec<char> = Vec::new();
    let mut k: usize = a;
    while k < b
        invariant
            a <= k <= b <= cs@.len(),
            kept@ =~= cs@.subrange(a as int, k as int),
        decreases b - k,
    {
        kept.push(cs[k]);
        k = k + 1;
    }
    let t = string_of(&kept);
    let lines = menu_lines(config);
    let names = table_names(&config.locations);
    let ghost es = entries_of(config.locations);
    let mut i: usize = 0;
    while i < lines.len()
        invariant
            i <= lines@.len(),
            code == 0,
            es == entries_of(config.locations),
            lines@.len() == es.len(),
            names@.len() == es.len(),
            t@ == trim(output@),
            forall|k: int| 0 <= k < names@.len() ==> #[trigger] names@[k]@ == es[k].0,
            forall|k: int| 0 <= k < lines@.len() ==> #[trigger] lines@[k]@ == entry_label(es, k),
            forall|j: int| 0 <= j < i ==> entry_label(es, j) != t@,
        decreases lines@.len() - i,
    {
        if crate::text::same_text(lines[i].as_str(), t.as_str()) {
            let chosen = copy_str(names[i].as_str());
            proof {
                assert(lines@[i as int]@ == entry_label(es, i as int));
                assert(es[i as int].0 == chosen@);
            }
            return Ok(chosen);
        }
        i = i + 1;
    }
    Err(MenuError::NoMatch)
}

} // verus!
