use vstd::prelude::*;
use vstd::slice::{slice_subrange, slice_to_vec};
use vstd::utf8::{decode_utf8, encode_scalar, encode_utf8, valid_utf8};
use crate::text::{chars_of, string_of, trim, trim_start, PathSep};

verus! {

/// Record delimiter of a raw path stream.
#[derive(Debug, Clone, Copy, PartialEq, Eq, Structural)]
pub enum Separator {
    Null,
    Newline,
}

impl Separator {
    pub open spec fn byte_spec(self) -> u8 {
        match self {
            Separator::Null => 0u8,
            Separator::Newline => 10u8,
        }
    }

    /// The byte that ends a record.
    pub fn byte(self) -> (r: u8)
        ensures
            r == self.byte_spec(),
    {
        match self {
            Separator::Null => 0u8,
            Separator::Newline => 10u8,
        }
    }
}

pub open spec fn is_delim(b: u8, d1: u8, d2: u8) -> bool {
    b == d1 || b == d2
}

/// Index of the first delimiter byte of `s`, or its length when it holds none.
pub open spec fn delim_pos(s: Seq<u8>, d1: u8, d2: u8) -> nat
    decreases s.len(),
{
    if s.len() == 0 {
        0
    } else if is_delim(s[0], d1, d2) {
        0
    } else {
        1 + delim_pos(s.drop_first(), d1, d2)
    }
}

/// The records of `s`: the maximal non-empty runs of bytes that are not
/// delimiters, in order. A run of delimiters ends one record.
pub open spec fn records(s: Seq<u8>, d1: u8, d2: u8) -> Seq<Seq<u8>>
    decreases s.len(),
{
    if s.len() == 0 {
        Seq::empty()
    } else {
        let i = delim_pos(s, d1, d2);
        let head = s.take(i as int);
        let rest = if i < s.len() {
            s.skip(i + 1 as int)
        } else {
            Seq::<u8>::empty()
        };
        if head.len() > 0 {
            seq![head] + records(rest, d1, d2)
        } else {
            records(rest, d1, d2)
        }
    }
}

proof fn lemma_delim_pos(s: Seq<u8>, d1: u8, d2: u8, i: nat)
    requires
        i <= s.len(),
        forall|j: int| 0 <= j < i ==> !is_delim(#[trigger] s[j], d1, d2),
        i < s.len() ==> is_delim(s[i as int], d1, d2),
    ensures
        delim_pos(s, d1, d2) == i,
    decreases i,
{
    if i > 0 {
        let t = s.drop_first();
        assert forall|j: int| 0 <= j < i - 1 implies !is_delim(#[trigger] t[j], d1, d2) by {
            assert(t[j] == s[j + 1]);
        }
        assert(!is_delim(s[0], d1, d2));
        lemma_delim_pos(t, d1, d2, (i - 1) as nat);
    }
}

/// Relies on `memchr::memchr2`: the index of the first byte of the haystack
/// that equals either needle, if any.
#[verifier::external_body]
fn find_delim(d1: u8, d2: u8, hay: &[u8]) -> (r: Option<usize>)
    ensures
        match r {
            Some(i) => i < hay@.len() && is_delim(hay@[i as int], d1, d2) && forall|j: int|
                0 <= j < i ==> !is_delim(#[trigger] hay@[j], d1, d2),
            None => forall|j: int| 0 <= j < hay@.len() ==> !is_delim(#[trigger] hay@[j], d1, d2),
        },
{
    memchr::memchr2(d1, d2, hay)
}

/// Splits `input` into its records, delimited by runs of `d1` or `d2` bytes.
pub fn split_records(input: &[u8], d1: u8, d2: u8) -> (r: Vec<Vec<u8>>)
    ensures
        r@.map_values(|v: Vec<u8>| v@) == records(input@, d1, d2),
{
    let mut out: Vec<Vec<u8>> = Vec::new();
    let mut pos: usize = 0;
    proof {
        assert(input@.skip(0) =~= input@);
        assert(out@.map_values(|v: Vec<u8>| v@) =~= Seq::<Seq<u8>>::empty());
    }
    while pos < input.len()
        invariant
            pos <= input@.len(),
            out@.map_values(|v: Vec<u8>| v@) + records(input@.skip(pos as int), d1, d2)
                == records(input@, d1, d2),
        decreases input@.len() - pos,
    {
        let rest = slice_subrange(input, pos, input.len());
        let found = find_delim(d1, d2, rest);
        let end: usize = match found {
            Some(i) => pos + i,
            None => input.len(),
        };
        let ghost old_out = out@.map_values(|v: Vec<u8>| v@);
        proof {
            assert(rest@ =~= input@.skip(pos as int));
            lemma_delim_pos(rest@, d1, d2, (end - pos) as nat);
        }
        if end > pos {
            let rec = slice_to_vec(slice_subrange(input, pos, end));
            out.push(rec);
            proof {
                assert(rec@ =~= rest@.take((end - pos) as int));
                assert(out@.map_values(|v: Vec<u8>| v@) =~= old_out.push(rec@));
            }
        }
        let next: usize = if end < input.len() {
            end + 1
        } else {
            input.len()
        };
        proof {
            let tail = if end < input.len() {
                rest@.skip((end - pos) + 1 as int)
            } else {
                Seq::<u8>::empty()
            };
            assert(tail =~= input@.skip(next as int));
            let head = rest@.take((end - pos) as int);
            if head.len() > 0 {
                assert(out@.map_values(|v: Vec<u8>| v@) + records(tail, d1, d2) =~= old_out + (seq![
                    head] + records(tail, d1, d2)));
            } else {
                assert(out@.map_values(|v: Vec<u8>| v@) =~= old_out);
            }
        }
        pos = next;
    }
    proof {
        assert(input@.skip(pos as int) =~= Seq::<u8>::empty());
        assert(out@.map_values(|v: Vec<u8>| v@) + Seq::<Seq<u8>>::empty() =~= out@.map_values(
            |v: Vec<u8>| v@));
    }
    out
}


/// White space as Unicode's `White_Space` property lists it.
pub open spec fn is_space(c: char) -> bool {
    let u = c as u32;
    (9 <= u && u <= 13) || u == 32 || u == 0x85 || u == 0xa0 || u == 0x1680 || (0x2000 <= u && u
        <= 0x200a) || u == 0x2028 || u == 0x2029 || u == 0x202f || u == 0x205f || u == 0x3000
}

/// Control characters (general category `Cc`).
pub open spec fn is_control(c: char) -> bool {
    let u = c as u32;
    u <= 0x1f || (0x7f <= u && u <= 0x9f)
}

pub open spec fn is_path_sep(c: char) -> bool {
    c == '/' || c == '\\'
}

/// `s` begins with a `./` or `.\` marker.
pub open spec fn starts_with_marker(s: Seq<char>) -> bool {
    s.len() >= 2 && s[0] == '.' && is_path_sep(s[1])
}

pub open spec fn trim_end(s: Seq<char>) -> Seq<char>
    decreases s.len(),
{
    if s.len() > 0 && is_space(s.last()) {
        trim_end(s.drop_last())
    } else {
        s
    }
}

/// Drops leading white space and `./` / `.\` markers, as long as any is left.
pub open spec fn strip_lead(s: Seq<char>) -> Seq<char>
    decreases s.len(),
{
    if s.len() > 0 && is_space(s[0]) {
        strip_lead(s.drop_first())
    } else if starts_with_marker(s) {
        strip_lead(s.skip(2))
    } else {
        s
    }
}

/// One character of a normalised path: controls become U+FFFD and either
/// separator becomes the host's.
pub open spec fn render(c: char, native: char) -> char {
    if is_control(c) {
        '\u{FFFD}'
    } else if is_path_sep(c) {
        native
    } else {
        c
    }
}

/// The normalised form of one decoded record.
pub open spec fn normalized(s: Seq<char>, native: char) -> Seq<char> {
    strip_lead(trim_end(s)).map_values(|c: char| render(c, native))
}

pub(crate) fn is_space_exec(c: char) -> (r: bool)
    ensures
        r == is_space(c),
{
    let u = c as u32;
    (9 <= u && u <= 13) || u == 32 || u == 0x85 || u == 0xa0 || u == 0x1680 || (0x2000 <= u && u
        <= 0x200a) || u == 0x2028 || u == 0x2029 || u == 0x202f || u == 0x205f || u == 0x3000
}

fn render_exec(c: char, native: char) -> (r: char)
    ensures
        r == render(c, native),
{
    let u = c as u32;
    if u <= 0x1f || (0x7f <= u && u <= 0x9f) {
        '\u{FFFD}'
    } else if c == '/' || c == '\\' {
        native
    } else {
        c
    }
}

/// Normalises one decoded record: surrounding white space and leading
/// `./` / `.\` markers go, controls become U+FFFD, separators become `native`.
pub fn normalize_record(s: &str, native: PathSep) -> (r: String)
    ensures
        r@ == normalized(s@, native.spec_char()),
{
    let n = native.as_char();
    let cs = chars_of(s);
    let mut end: usize = cs.len();
    proof {
        assert(cs@.take(end as int) =~= s@);
    }
    loop
        invariant
            end <= cs@.len(),
            trim_end(cs@.take(end as int)) == trim_end(s@),
            cs@ == s@,
        ensures
            end <= cs@.len(),
            trim_end(cs@.take(end as int)) == trim_end(s@),
            end == 0 || !is_space(cs@[end - 1]),
        decreases end,
    {
        if end == 0 || !is_space_exec(cs[end - 1]) {
            break;
        }
        proof {
            assert(cs@.take(end as int).drop_last() =~= cs@.take(end - 1));
        }
        end = end - 1;
    }
    let ghost trimmed = cs@.take(end as int);
    proof {
        assert(trim_end(trimmed) == trimmed);
        assert(trimmed.subrange(0, end as int) =~= trimmed);
    }
    let mut start: usize = 0;
    loop
        invariant
            start <= end <= cs@.len(),
            trimmed == cs@.take(end as int),
            strip_lead(cs@.subrange(start as int, end as int)) == strip_lead(trimmed),
        ensures
            start <= end,
            strip_lead(cs@.subrange(start as int, end as int)) == strip_lead(trimmed),
            !(start < end && is_space(cs@[start as int])),
            !(end - start >= 2 && cs@[start as int] == '.' && is_path_sep(cs@[start + 1])),
        decreases end - start,
    {
        let ghost cur = cs@.subrange(start as int, end as int);
        if start < end && is_space_exec(cs[start]) {
            proof {
                assert(cur.drop_first() =~= cs@.subrange(start + 1, end as int));
            }
            start = start + 1;
        } else if end - start >= 2 && cs[start] == '.' && (cs[start + 1] == '/' || cs[start + 1]
            == '\\') {
            proof {
                assert(cur.skip(2) =~= cs@.subrange(start + 2, end as int));
            }
            start = start + 2;
        } else {
            break;
        }
    }
    let ghost kept = cs@.subrange(start as int, end as int);
    proof {
        assert(strip_lead(kept) == kept);
    }
    let mut out: Vec<char> = Vec::new();
    let mut i: usize = start;
    while i < end
        invariant
            start <= i <= end <= cs@.len(),
            kept == cs@.subrange(start as int, end as int),
            n == native.spec_char(),
            out@ =~= cs@.subrange(start as int, i as int).map_values(|c: char| render(c, n)),
        decreases end - i,
    {
        out.push(render_exec(cs[i], n));
        i = i + 1;
    }
    proof {
        assert(kept =~= cs@.subrange(start as int, i as int));
    }
    string_of(&out)
}


/// What lossy UTF-8 decoding makes of a byte sequence.
pub uninterp spec fn lossy_of(b: Seq<u8>) -> Seq<char>;

/// The text of a record: its UTF-8 decoding where it is valid UTF-8.
pub open spec fn decoded(b: Seq<u8>) -> Seq<char> {
    if valid_utf8(b) {
        decode_utf8(b)
    } else {
        lossy_of(b)
    }
}

/// Relies on `String::from_utf8_lossy`: valid UTF-8 is decoded as it is;
/// otherwise each invalid sequence becomes U+FFFD.
#[verifier::external_body]
fn decode_lossy(b: &[u8]) -> (r: String)
    ensures
        r@ == (if valid_utf8(b@) {
            decode_utf8(b@)
        } else {
            lossy_of(b@)
        }),
{
    String::from_utf8_lossy(b).into_owned()
}

/// The lines that the records `recs` normalise to; records that normalise to
/// nothing give no line.
pub open spec fn normalized_lines(recs: Seq<Seq<u8>>, native: char) -> Seq<Seq<char>>
    decreases recs.len(),
{
    if recs.len() == 0 {
        Seq::empty()
    } else {
        let prev = normalized_lines(recs.drop_last(), native);
        let line = normalized(decoded(recs.last()), native);
        if line.len() > 0 {
            prev.push(line)
        } else {
            prev
        }
    }
}

/// How many of the records `recs` normalise to a non-empty line.
pub open spec fn count_nonblank(recs: Seq<Seq<u8>>, native: char) -> nat
    decreases recs.len(),
{
    if recs.len() == 0 {
        0
    } else {
        count_nonblank(recs.drop_last(), native) + if normalized(decoded(recs.last()), native).len()
            > 0 {
            1nat
        } else {
            0nat
        }
    }
}

/// Normalises a raw path stream whose records end with `sep`: one line per
/// record that is not blank once normalised, in order, with `native` as
/// path separator.
pub fn normalize_stream(input: &[u8], sep: Separator, native: PathSep) -> (r: Vec<String>)
    ensures
        r@.map_values(|l: String| l@) == normalized_lines(
            records(input@, sep.byte_spec(), sep.byte_spec()),
            native.spec_char(),
        ),
{
    let d = sep.byte();
    let recs = split_records(input, d, d);
    let ghost rs = recs@.map_values(|v: Vec<u8>| v@);
    let mut out: Vec<String> = Vec::new();
    let mut i: usize = 0;
    while i < recs.len()
        invariant
            i <= recs@.len(),
            rs == recs@.map_values(|v: Vec<u8>| v@),
            out@.map_values(|l: String| l@) == normalized_lines(rs.take(i as int), native.spec_char()),
        decreases recs@.len() - i,
    {
        let text = decode_lossy(recs[i].as_slice());
        let line = normalize_record(text.as_str(), native);
        proof {
            assert(rs.take(i + 1).drop_last() =~= rs.take(i as int));
            assert(rs.take(i + 1).last() == recs@[i as int]@);
        }
        if !line.as_str().is_empty() {
            let ghost before = out@.map_values(|l: String| l@);
            out.push(line);
            proof {
                assert(out@.map_values(|l: String| l@) =~= before.push(line@));
            }
        }
        i = i + 1;
    }
    proof {
        assert(rs.take(i as int) =~= rs);
    }
    out
}

proof fn lemma_trim_end(s: Seq<char>)
    ensures
        trim_end(s).len() <= s.len(),
        trim_end(s) =~= s.take(trim_end(s).len() as int),
        trim_end(s).len() > 0 ==> !is_space(trim_end(s).last()),
    decreases s.len(),
{
    if s.len() > 0 && is_space(s.last()) {
        lemma_trim_end(s.drop_last());
    }
}

proof fn lemma_strip_lead(s: Seq<char>)
    ensures
        strip_lead(s).len() <= s.len(),
        strip_lead(s) =~= s.skip(s.len() - strip_lead(s).len()),
        strip_lead(s).len() > 0 ==> !is_space(strip_lead(s)[0]),
        !starts_with_marker(strip_lead(s)),
    decreases s.len(),
{
    if s.len() > 0 && is_space(s[0]) {
        lemma_strip_lead(s.drop_first());
    } else if starts_with_marker(s) {
        lemma_strip_lead(s.skip(2));
    }
}

/// The body of a normalised record: no white space at either end, and no
/// leading marker.
proof fn lemma_kept(s: Seq<char>)
    ensures
        ({
            let k = strip_lead(trim_end(s));
            &&& k.len() > 0 ==> !is_space(k[0]) && !is_space(k.last())
            &&& !starts_with_marker(k)
        }),
{
    let t = trim_end(s);
    lemma_trim_end(s);
    lemma_strip_lead(t);
    let k = strip_lead(t);
    if k.len() > 0 {
        assert(k.last() == t.last());
    }
}

/// A normalised line holds no control character and starts with no `./` or
/// `.\` marker.
proof fn lemma_normalized_clean(s: Seq<char>, native: char)
    requires
        is_path_sep(native),
    ensures
        forall|i: int|
            0 <= i < normalized(s, native).len() ==> !is_control(#[trigger] normalized(s, native)[i]),
        !starts_with_marker(normalized(s, native)),
{
    lemma_kept(s);
    let k = strip_lead(trim_end(s));
    let r = normalized(s, native);
    if r.len() >= 2 && r[0] == '.' && is_path_sep(r[1]) {
        assert(r[0] == render(k[0], native));
        assert(r[1] == render(k[1], native));
        assert(starts_with_marker(k));
    }
}

/// Normalising a normalised line changes nothing.
proof fn lemma_normalized_idempotent(s: Seq<char>, native: char)
    requires
        is_path_sep(native),
    ensures
        normalized(normalized(s, native), native) == normalized(s, native),
{
    lemma_kept(s);
    lemma_normalized_clean(s, native);
    let k = strip_lead(trim_end(s));
    let r = normalized(s, native);
    if r.len() > 0 {
        assert(r.last() == render(k.last(), native));
        assert(r.drop_last().len() < r.len());
    }
    assert(trim_end(r) == r);
    if r.len() > 0 {
        assert(r[0] == render(k[0], native));
    }
    assert(strip_lead(r) == r);
    assert(r.map_values(|c: char| render(c, native)) =~= r);
}

proof fn stream_lines_at(input: Seq<u8>, sep: Separator, native: char)
    requires
        is_path_sep(native),
    ensures
        ({
            let recs = records(input, sep.byte_spec(), sep.byte_spec());
            let lines = normalized_lines(recs, native);
            &&& lines.len() == count_nonblank(recs, native)
            &&& forall|i: int| 0 <= i < lines.len() ==> #[trigger] lines[i].len() > 0
                && !starts_with_marker(lines[i]) && forall|j: int|
                0 <= j < lines[i].len() ==> !is_control(#[trigger] lines[i][j])
        }),
{
    lemma_lines_of(records(input, sep.byte_spec(), sep.byte_spec()), native);
}

proof fn lemma_lines_of(recs: Seq<Seq<u8>>, native: char)
    requires
        is_path_sep(native),
    ensures
        ({
            let lines = normalized_lines(recs, native);
            &&& lines.len() == count_nonblank(recs, native)
            &&& forall|i: int| 0 <= i < lines.len() ==> #[trigger] lines[i].len() > 0
                && !starts_with_marker(lines[i]) && forall|j: int|
                0 <= j < lines[i].len() ==> !is_control(#[trigger] lines[i][j])
            &&& forall|i: int| 0 <= i < lines.len() ==> normalized(#[trigger] lines[i], native) == lines[i]
        }),
    decreases recs.len(),
{
    if recs.len() > 0 {
        lemma_lines_of(recs.drop_last(), native);
        lemma_normalized_clean(decoded(recs.last()), native);
        lemma_normalized_idempotent(decoded(recs.last()), native);
    }
}

/// A normalised stream as text: each line followed by a newline.
pub open spec fn stream_text(lines: Seq<Seq<char>>) -> Seq<char>
    decreases lines.len(),
{
    if lines.len() == 0 {
        Seq::empty()
    } else {
        lines[0] + seq!['\n'] + stream_text(lines.drop_first())
    }
}

proof fn lemma_encode_concat(a: Seq<char>, b: Seq<char>)
    ensures
        encode_utf8(a + b) == encode_utf8(a) + encode_utf8(b),
    decreases a.len(),
{
    if a.len() == 0 {
        assert(a + b =~= b);
        assert(encode_utf8(a) + encode_utf8(b) =~= encode_utf8(b));
    } else {
        assert((a + b).drop_first() =~= a.drop_first() + b);
        assert((a + b)[0] == a[0]);
        lemma_encode_concat(a.drop_first(), b);
        assert(encode_utf8(a + b) =~= encode_utf8(a) + encode_utf8(b));
    }
}

proof fn lemma_width_1_byte(s: u32)
    by (bit_vector)
    requires
        s <= 0x7f,
    ensures
        (s & 0x7f) as u8 == s as u8,
        (s == 10u32) <==> ((s & 0x7f) as u8 == 10u8),
{
}

proof fn lemma_high_bytes(s: u32)
    by (bit_vector)
    ensures
        0xC0u8 | ((s >> 6u32) & 0x1Fu32) as u8 != 10u8,
        0xE0u8 | ((s >> 12u32) & 0x0Fu32) as u8 != 10u8,
        0xF0u8 | ((s >> 18u32) & 0x7u32) as u8 != 10u8,
        0x80u8 | (s & 0x3Fu32) as u8 != 10u8,
        0x80u8 | ((s >> 6u32) & 0x3Fu32) as u8 != 10u8,
        0x80u8 | ((s >> 12u32) & 0x3Fu32) as u8 != 10u8,
{
}

/// The encoding of a character is non-empty, and holds the newline byte
/// only for the newline character, which encodes as that byte alone.
proof fn lemma_scalar_bytes(c: char)
    ensures
        encode_scalar(c as u32).len() > 0,
        c == '\n' ==> encode_scalar(c as u32) == seq![10u8],
        c != '\n' ==> forall|k: int|
            0 <= k < encode_scalar(c as u32).len() ==> #[trigger] encode_scalar(c as u32)[k] != 10u8,
{
    let s = c as u32;
    vstd::utf8::char_is_scalar(c);
    lemma_high_bytes(s);
    if s <= 0x7f {
        lemma_width_1_byte(s);
        if s == 10 {
            vstd::utf8::char_u32_cast(c, s);
            vstd::utf8::char_u32_cast('\n', s);
        }
        if c == '\n' {
            assert(encode_scalar(c as u32) =~= seq![10u8]);
        }
    }
}

proof fn lemma_encode_no_newline(s: Seq<char>)
    requires
        forall|i: int| 0 <= i < s.len() ==> #[trigger] s[i] != '\n',
    ensures
        forall|k: int| 0 <= k < encode_utf8(s).len() ==> #[trigger] encode_utf8(s)[k] != 10u8,
        s.len() > 0 ==> encode_utf8(s).len() > 0,
    decreases s.len(),
{
    if s.len() > 0 {
        let t = s.drop_first();
        assert forall|i: int| 0 <= i < t.len() implies #[trigger] t[i] != '\n' by {
            assert(t[i] == s[i + 1]);
        }
        lemma_encode_no_newline(t);
        lemma_scalar_bytes(s[0]);
        let e = encode_scalar(s[0] as u32);
        assert forall|k: int| 0 <= k < encode_utf8(s).len() implies #[trigger] encode_utf8(s)[k] != 10u8 by {
            if k >= e.len() {
                assert(encode_utf8(s)[k] == encode_utf8(t)[k - e.len()]);
            } else {
                assert(encode_utf8(s)[k] == e[k]);
            }
        }
    }
}

/// The records of the encoded text of non-empty lines without newlines are
/// the encoded lines.
proof fn lemma_records_of_text(lines: Seq<Seq<char>>)
    requires
        forall|i: int| 0 <= i < lines.len() ==> #[trigger] lines[i].len() > 0,
        forall|i: int, j: int| 0 <= i < lines.len() && 0 <= j < lines[i].len() ==> #[trigger] lines[i][j] != '\n',
    ensures
        records(encode_utf8(stream_text(lines)), 10u8, 10u8) == lines.map_values(
            |l: Seq<char>| encode_utf8(l),
        ),
    decreases lines.len(),
{
    if lines.len() == 0 {
        assert(lines.map_values(|l: Seq<char>| encode_utf8(l)) =~= Seq::<Seq<u8>>::empty());
    } else {
        let l = lines[0];
        let rest = lines.drop_first();
        assert forall|i: int, j: int| 0 <= i < rest.len() && 0 <= j < rest[i].len() implies #[trigger] rest[i][j] != '\n' by {
            assert(rest[i] == lines[i + 1]);
        }
        assert forall|i: int| 0 <= i < rest.len() implies #[trigger] rest[i].len() > 0 by {
            assert(rest[i] == lines[i + 1]);
        }
        lemma_records_of_text(rest);
        assert forall|j: int| 0 <= j < l.len() implies #[trigger] l[j] != '\n' by {
            assert(lines[0][j] != '\n');
        }
        lemma_encode_no_newline(l);
        lemma_scalar_bytes('\n');
        lemma_encode_concat(l + seq!['\n'], stream_text(rest));
        lemma_encode_concat(l, seq!['\n']);
        let e = encode_utf8(l);
        let t = encode_utf8(stream_text(rest));
        assert(encode_utf8(seq!['\n']) =~= seq![10u8]) by {
            let nl = seq!['\n'];
            assert(nl[0] == '\n');
            assert(nl.drop_first() =~= Seq::<char>::empty());
            assert(encode_utf8(nl.drop_first()) =~= Seq::<u8>::empty());
            assert(encode_utf8(nl) == encode_scalar(nl[0] as u32) + encode_utf8(nl.drop_first()));
        }
        let whole = encode_utf8(stream_text(lines));
        assert(whole =~= e + seq![10u8] + t);
        assert forall|j: int| 0 <= j < e.len() implies !is_delim(#[trigger] whole[j], 10u8, 10u8) by {
            assert(whole[j] == e[j]);
        }
        lemma_delim_pos(whole, 10u8, 10u8, e.len());
        assert(whole.take(e.len() as int) =~= e);
        assert(whole.skip(e.len() + 1 as int) =~= t);
        assert(lines.map_values(|l: Seq<char>| encode_utf8(l)) =~= seq![e] + rest.map_values(
            |l: Seq<char>| encode_utf8(l),
        ));
    }
}

/// Lines that are each non-empty and already normalised come back
/// unchanged from their encodings.
proof fn lemma_lines_fixed(lines: Seq<Seq<char>>, native: char)
    requires
        forall|i: int| 0 <= i < lines.len() ==> #[trigger] lines[i].len() > 0,
        forall|i: int| 0 <= i < lines.len() ==> normalized(#[trigger] lines[i], native) == lines[i],
    ensures
        normalized_lines(lines.map_values(|l: Seq<char>| encode_utf8(l)), native) == lines,
    decreases lines.len(),
{
    let m = lines.map_values(|l: Seq<char>| encode_utf8(l));
    if lines.len() == 0 {
        assert(m =~= Seq::<Seq<u8>>::empty());
        assert(lines =~= Seq::<Seq<char>>::empty());
    } else {
        let init = lines.drop_last();
        assert(m.drop_last() =~= init.map_values(|l: Seq<char>| encode_utf8(l)));
        assert forall|i: int| 0 <= i < init.len() implies #[trigger] init[i].len() > 0 by {
            assert(init[i] == lines[i]);
        }
        assert forall|i: int| 0 <= i < init.len() implies normalized(#[trigger] init[i], native) == init[i] by {
            assert(init[i] == lines[i]);
        }
        lemma_lines_fixed(init, native);
        let last = lines[lines.len() - 1];
        assert(m.last() == encode_utf8(last));
        vstd::utf8::encode_utf8_valid_utf8(last);
        vstd::utf8::encode_utf8_decode_utf8(last);
        assert(decoded(m.last()) == last);
        assert(lines.last() == last);
        assert(init.push(last) =~= lines);
    }
}

proof fn stream_idempotent_at(input: Seq<u8>, sep: Separator, native: char)
    requires
        is_path_sep(native),
    ensures
        ({
            let lines = normalized_lines(records(input, sep.byte_spec(), sep.byte_spec()), native);
            let d = Separator::Newline.byte_spec();
            normalized_lines(records(encode_utf8(stream_text(lines)), d, d), native) == lines
        }),
{
    let lines = normalized_lines(records(input, sep.byte_spec(), sep.byte_spec()), native);
    lemma_lines_of(records(input, sep.byte_spec(), sep.byte_spec()), native);
    assert forall|i: int, j: int| 0 <= i < lines.len() && 0 <= j < lines[i].len() implies #[trigger] lines[i][j] != '\n' by {
        assert(!is_control(lines[i][j]));
    }
    lemma_records_of_text(lines);
    lemma_lines_fixed(lines, native);
}

/// How many of the records `recs` are non-empty once decoded and trimmed.
pub open spec fn count_trimmed(recs: Seq<Seq<u8>>) -> nat
    decreases recs.len(),
{
    if recs.len() == 0 {
        0
    } else {
        count_trimmed(recs.drop_last()) + if trim(decoded(recs.last())).len() > 0 {
            1nat
        } else {
            0nat
        }
    }
}

proof fn lemma_strip_lead_trim_start(t: Seq<char>)
    ensures
        strip_lead(t).len() > 0 ==> trim_start(t).len() > 0,
    decreases t.len(),
{
    if t.len() > 0 && is_space(t[0]) {
        lemma_strip_lead_trim_start(t.drop_first());
    }
}

proof fn lemma_count_trimmed(recs: Seq<Seq<u8>>, native: char)
    requires
        forall|i: int|
            0 <= i < recs.len() && #[trigger] trim(decoded(recs[i])).len() > 0 ==> normalized(
                decoded(recs[i]),
                native,
            ).len() > 0,
    ensures
        count_nonblank(recs, native) == count_trimmed(recs),
    decreases recs.len(),
{
    if recs.len() > 0 {
        let init = recs.drop_last();
        assert forall|i: int|
            0 <= i < init.len() && #[trigger] trim(decoded(init[i])).len() > 0 implies normalized(
                decoded(init[i]),
                native,
            ).len() > 0 by {
            assert(init[i] == recs[i]);
        }
        lemma_count_trimmed(init, native);
        let last = recs[recs.len() - 1];
        assert(recs.last() == last);
        lemma_strip_lead_trim_start(trim_end(decoded(last)));
    }
}

proof fn stream_count_at(input: Seq<u8>, sep: Separator, native: char)
    requires
        is_path_sep(native),
        ({
            let recs = records(input, sep.byte_spec(), sep.byte_spec());
            forall|i: int|
                0 <= i < recs.len() && #[trigger] trim(decoded(recs[i])).len() > 0 ==> normalized(
                    decoded(recs[i]),
                    native,
                ).len() > 0
        }),
    ensures
        ({
            let recs = records(input, sep.byte_spec(), sep.byte_spec());
            normalized_lines(recs, native).len() == count_trimmed(recs)
        }),
{
    let recs = records(input, sep.byte_spec(), sep.byte_spec());
    lemma_lines_of(recs, native);
    lemma_count_trimmed(recs, native);
}

/// The normalised stream has exactly one line for each record that does not
/// normalise to nothing, and each line is non-empty, free of control
/// characters and of a leading `./` or `.\` marker.
pub proof fn lemma_stream_lines(input: Seq<u8>, sep: Separator, native: PathSep)
    ensures
        ({
            let recs = records(input, sep.byte_spec(), sep.byte_spec());
            let lines = normalized_lines(recs, native.spec_char());
            &&& lines.len() == count_nonblank(recs, native.spec_char())
            &&& forall|i: int| 0 <= i < lines.len() ==> #[trigger] lines[i].len() > 0
                && !starts_with_marker(lines[i]) && forall|j: int|
                0 <= j < lines[i].len() ==> !is_control(#[trigger] lines[i][j])
        }),
{
    stream_lines_at(input, sep, native.spec_char());
}

/// Normalising the text of a normalised stream again, as newline-delimited
/// records, gives the same lines.
pub proof fn lemma_stream_idempotent(input: Seq<u8>, sep: Separator, native: PathSep)
    ensures
        ({
            let n = native.spec_char();
            let lines = normalized_lines(records(input, sep.byte_spec(), sep.byte_spec()), n);
            let d = Separator::Newline.byte_spec();
            normalized_lines(records(encode_utf8(stream_text(lines)), d, d), n) == lines
        }),
{
    stream_idempotent_at(input, sep, native.spec_char());
}

/// When no record is made of `./` / `.\` markers and white space alone,
/// the normalised stream has exactly as many lines as the input has
/// records that are non-empty once trimmed.
pub proof fn lemma_stream_count(input: Seq<u8>, sep: Separator, native: PathSep)
    requires
        ({
            let recs = records(input, sep.byte_spec(), sep.byte_spec());
            forall|i: int|
                0 <= i < recs.len() && #[trigger] trim(decoded(recs[i])).len() > 0 ==> normalized(
                    decoded(recs[i]),
                    native.spec_char(),
                ).len() > 0
        }),
    ensures
        ({
            let recs = records(input, sep.byte_spec(), sep.byte_spec());
            normalized_lines(recs, native.spec_char()).len() == count_trimmed(recs)
        }),
{
    stream_count_at(input, sep, native.spec_char());
}

} // verus!
