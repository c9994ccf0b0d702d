//! Server-sent events as the responses stream carries them: where a frame ends, which fields a
//! frame has, the payload of its `data:` lines, and how frames are written back.
use vstd::prelude::*;
use crate::json::{parse_json, spec_json_parse};
use crate::redis_protocol::{CR, LF};
use crate::text::{
    char_is_ws, chars_of, decode_utf8_bytes, lead_ws, lemma_lead_ws, slice_chars, starts_with,
    string_of, trim, trim_bounds,
};

verus! {

/// `u8::is_ascii_whitespace`: space, tab, LF, form feed, CR.
pub open spec fn is_ascii_ws(b: u8) -> bool {
    b == 32 || b == 9 || b == 10 || b == 12 || b == 13
}

/// How many leading bytes are ASCII whitespace.
pub open spec fn lead_ws_bytes(s: Seq<u8>) -> nat
    decreases s.len(),
{
    if s.len() > 0 && is_ascii_ws(s[0]) {
        1 + lead_ws_bytes(s.drop_first())
    } else {
        0
    }
}

/// How many trailing bytes are ASCII whitespace.
pub open spec fn trail_ws_bytes(s: Seq<u8>) -> nat
    decreases s.len(),
{
    if s.len() > 0 && is_ascii_ws(s.last()) {
        1 + trail_ws_bytes(s.drop_last())
    } else {
        0
    }
}

/// `s` without leading and trailing ASCII whitespace.
pub open spec fn trim_ws(s: Seq<u8>) -> Seq<u8> {
    let a = lead_ws_bytes(s);
    if a == s.len() {
        Seq::empty()
    } else {
        s.subrange(a as int, s.len() - trail_ws_bytes(s))
    }
}

pub open spec fn bytes_start_with(s: Seq<u8>, p: Seq<u8>) -> bool {
    p.len() <= s.len() && s.take(p.len() as int) == p
}

pub open spec fn bytes_end_with(s: Seq<u8>, p: Seq<u8>) -> bool {
    p.len() <= s.len() && s.skip(s.len() - p.len()) == p
}

pub open spec fn occurs_at_bytes(s: Seq<u8>, p: Seq<u8>, i: int) -> bool {
    0 <= i && i + p.len() <= s.len() && s.subrange(i, i + p.len()) == p
}

/// Position of the first occurrence of `p` in `s` at or after `i`.
pub open spec fn first_occ_from(s: Seq<u8>, p: Seq<u8>, i: int) -> Option<int>
    decreases s.len() - i,
{
    if i < 0 || i >= s.len() {
        None
    } else if occurs_at_bytes(s, p, i) {
        Some(i)
    } else {
        first_occ_from(s, p, i + 1)
    }
}

/// Position of the first occurrence of `p` in `s`.
pub open spec fn first_occurrence(s: Seq<u8>, p: Seq<u8>) -> Option<int> {
    first_occ_from(s, p, 0)
}

pub open spec fn lflf() -> Seq<u8> {
    seq![LF, LF]
}

pub open spec fn crlfcrlf() -> Seq<u8> {
    seq![CR, LF, CR, LF]
}

/// The length of the first complete frame of `chunk`: up to the first blank line, written as
/// `\n\n` or `\r\n\r\n`, whichever comes first.
pub open spec fn spec_frame_len(chunk: Seq<u8>) -> Option<int> {
    if chunk.len() == 0 {
        None
    } else {
        match (first_occurrence(chunk, lflf()), first_occurrence(chunk, crlfcrlf())) {
            (None, None) => None,
            (Some(p), None) => Some(p + 2),
            (None, Some(p)) => Some(p + 4),
            (Some(p), Some(q)) => if p < q {
                Some(p + 2)
            } else {
                Some(q + 4)
            },
        }
    }
}

/// `[i, j)` is a line of `s`: it starts at the beginning or after an LF, ends at the end or at an
/// LF, and holds no LF.
pub open spec fn is_line(s: Seq<u8>, i: int, j: int) -> bool {
    &&& 0 <= i <= j <= s.len()
    &&& (i == 0 || s[i - 1] == LF)
    &&& (j == s.len() || s[j] == LF)
    &&& forall|k: int| i <= k < j ==> s[k] != LF
}

/// A line without one trailing CR.
pub open spec fn strip_cr(l: Seq<u8>) -> Seq<u8> {
    if l.len() > 0 && l.last() == CR {
        l.drop_last()
    } else {
        l
    }
}

/// The line as fields are read from it: one trailing CR dropped, then trimmed.
pub open spec fn field_line(l: Seq<u8>) -> Seq<u8> {
    trim_ws(strip_cr(l))
}

/// Whether some line of `chunk` starts, once trimmed, with `prefix`.
pub open spec fn spec_has_field(chunk: Seq<u8>, prefix: Seq<u8>) -> bool {
    exists|i: int, j: int| is_line(chunk, i, j) && bytes_start_with(field_line(chunk.subrange(i, j)), prefix)
}

pub open spec fn data_prefix() -> Seq<u8> {
    seq![100u8, 97u8, 116u8, 97u8, 58u8]
}

pub open spec fn event_prefix() -> Seq<u8> {
    seq![101u8, 118u8, 101u8, 110u8, 116u8, 58u8]
}

pub open spec fn id_prefix() -> Seq<u8> {
    seq![105u8, 100u8, 58u8]
}

pub open spec fn retry_prefix() -> Seq<u8> {
    seq![114u8, 101u8, 116u8, 114u8, 121u8, 58u8]
}

pub open spec fn comment_prefix() -> Seq<u8> {
    seq![58u8]
}

pub open spec fn done_marker() -> Seq<u8> {
    seq![91u8, 68u8, 79u8, 78u8, 69u8, 93u8]
}

/// A `data:` line is fine when its payload is empty, the done marker, or JSON.
pub open spec fn data_line_ok(l: Seq<u8>) -> bool {
    let t = field_line(l);
    !bytes_start_with(t, data_prefix()) || {
        let d = trim_ws(t.skip(5));
        d.len() == 0 || d == done_marker() || spec_json_parse(d) is Some
    }
}

pub open spec fn spec_data_lines_valid(chunk: Seq<u8>) -> bool {
    forall|i: int, j: int| is_line(chunk, i, j) ==> data_line_ok(chunk.subrange(i, j))
}

/// Whether the trimmed bytes have an event line but no data line yet.
pub open spec fn spec_needs_more_data(chunk: Seq<u8>) -> bool {
    let t = trim_ws(chunk);
    t.len() > 0 && spec_has_field(t, event_prefix()) && !spec_has_field(t, data_prefix())
}

/// Whether bytes without a closing blank line already hold a whole frame: a data line, whose
/// payloads all parse.
pub open spec fn spec_can_emit_without_delimiter(chunk: Seq<u8>) -> bool {
    let t = trim_ws(chunk);
    t.len() > 0 && spec_has_field(t, data_prefix()) && !spec_needs_more_data(t)
        && spec_data_lines_valid(t)
}

/// Whether a frame carries only header lines (event, id, retry, comment) and no data.
pub open spec fn spec_header_only(frame: Seq<u8>) -> bool {
    let t = trim_ws(frame);
    &&& t.len() > 0
    &&& !spec_has_field(t, data_prefix())
    &&& (spec_has_field(t, event_prefix()) || spec_has_field(t, id_prefix()) || spec_has_field(
        t,
        retry_prefix(),
    ) || spec_has_field(t, comment_prefix()))
}

/// A frame without its closing blank line.
pub open spec fn spec_trim_terminator(frame: Seq<u8>) -> Seq<u8> {
    if bytes_end_with(frame, crlfcrlf()) {
        frame.take(frame.len() - 4)
    } else if bytes_end_with(frame, lflf()) {
        frame.take(frame.len() - 2)
    } else {
        frame
    }
}

/// A held header put in front of the data frame that follows it, on a line of its own.
pub open spec fn spec_merge(header: Seq<u8>, frame: Seq<u8>) -> Seq<u8> {
    let h = spec_trim_terminator(header);
    if !bytes_end_with(h, seq![LF]) && !bytes_start_with(frame, seq![LF]) && !bytes_start_with(
        frame,
        seq![CR],
    ) {
        h.push(LF) + frame
    } else {
        h + frame
    }
}

/// A frame with its closing blank line.
pub open spec fn spec_normalize(frame: Seq<u8>) -> Seq<u8> {
    if bytes_end_with(frame, lflf()) || bytes_end_with(frame, crlfcrlf()) {
        frame
    } else {
        frame + lflf()
    }
}

/// Whether a line start marks the beginning of a field, so that a chunk starting with it
/// continues on a new line.
pub open spec fn field_start(t: Seq<u8>) -> bool {
    bytes_start_with(t, data_prefix()) || bytes_start_with(t, event_prefix()) || bytes_start_with(
        t,
        id_prefix(),
    ) || bytes_start_with(t, retry_prefix()) || bytes_start_with(t, comment_prefix())
}

/// How many leading bytes are spaces or tabs.
pub open spec fn lead_blanks(s: Seq<u8>) -> nat
    decreases s.len(),
{
    if s.len() > 0 && (s[0] == 32 || s[0] == 9) {
        1 + lead_blanks(s.drop_first())
    } else {
        0
    }
}

/// Whether a chunk that opens a new field arrives right after an unfinished line, so that a line
/// break must go between them.
pub open spec fn spec_needs_line_break(pending: Seq<u8>, chunk: Seq<u8>) -> bool {
    &&& pending.len() > 0
    &&& chunk.len() > 0
    &&& pending.last() != LF && pending.last() != CR
    &&& chunk[0] != LF && chunk[0] != CR
    &&& {
        let t = chunk.skip(lead_blanks(chunk) as int);
        t.len() > 0 && field_start(t)
    }
}

// ---------------------------------------------------------------------------------------------
// Byte helpers
// ---------------------------------------------------------------------------------------------

fn ascii_ws(b: u8) -> (r: bool)
    ensures
        r == is_ascii_ws(b),
{
    b == 32 || b == 9 || b == 10 || b == 12 || b == 13
}

proof fn lemma_lead_unique(s: Seq<u8>, n: int)
    requires
        0 <= n <= s.len(),
        forall|k: int| 0 <= k < n ==> is_ascii_ws(s[k]),
        n == s.len() || !is_ascii_ws(s[n]),
    ensures
        lead_ws_bytes(s) == n,
    decreases n,
{
    if n > 0 {
        let t = s.drop_first();
        assert forall|k: int| 0 <= k < n - 1 implies is_ascii_ws(t[k]) by {
            assert(t[k] == s[k + 1]);
        }
        if n < s.len() {
            assert(t[n - 1] == s[n]);
        }
        lemma_lead_unique(t, n - 1);
    }
}

proof fn lemma_trail_unique(s: Seq<u8>, n: int)
    requires
        0 <= n <= s.len(),
        forall|k: int| s.len() - n <= k < s.len() ==> is_ascii_ws(s[k]),
        n == s.len() || !is_ascii_ws(s[s.len() - 1 - n]),
    ensures
        trail_ws_bytes(s) == n,
    decreases n,
{
    if n > 0 {
        let t = s.drop_last();
        assert forall|k: int| t.len() - (n - 1) <= k < t.len() implies is_ascii_ws(t[k]) by {
            assert(t[k] == s[k]);
        }
        if n < s.len() {
            assert(t[t.len() - 1 - (n - 1)] == s[s.len() - 1 - n]);
        }
        lemma_trail_unique(t, n - 1);
    }
}

/// The bounds of `s[from..to]` once trimmed of ASCII whitespace.
fn trim_ws_bounds(s: &[u8], from: usize, to: usize) -> (r: (usize, usize))
    requires
        from <= to <= s@.len(),
    ensures
        from <= r.0 <= r.1 <= to,
        s@.subrange(r.0 as int, r.1 as int) == trim_ws(s@.subrange(from as int, to as int)),
{
    let ghost w = s@.subrange(from as int, to as int);
    let mut a = from;
    while a < to && ascii_ws(s[a])
        invariant
            from <= a <= to <= s@.len(),
            w == s@.subrange(from as int, to as int),
            forall|k: int| from <= k < a ==> is_ascii_ws(s@[k]),
        decreases to - a,
    {
        a = a + 1;
    }
    proof {
        assert forall|k: int| 0 <= k < a - from implies is_ascii_ws(w[k]) by {
            assert(w[k] == s@[from + k]);
        }
        if a < to {
            assert(w[a - from] == s@[a as int]);
        }
        lemma_lead_unique(w, a - from);
    }
    if a == to {
        assert(s@.subrange(a as int, a as int) =~= trim_ws(w));
        return (a, a);
    }
    let mut b = to;
    while b > a && ascii_ws(s[b - 1])
        invariant
            from <= a < to,
            a <= b <= to <= s@.len(),
            !is_ascii_ws(s@[a as int]),
            forall|k: int| b <= k < to ==> is_ascii_ws(s@[k]),
        decreases b,
    {
        b = b - 1;
    }
    proof {
        assert(b > a);
        assert forall|k: int| w.len() - (to - b) <= k < w.len() implies is_ascii_ws(w[k]) by {
            assert(w[k] == s@[from + k]);
        }
        assert(w[w.len() - 1 - (to - b)] == s@[b - 1]);
        lemma_trail_unique(w, to - b);
        assert(s@.subrange(a as int, b as int) =~= trim_ws(w));
    }
    (a, b)
}

/// Whether `p` occurs in `s` at `i`.
fn occurs_at_exec(s: &[u8], p: &[u8], i: usize) -> (r: bool)
    requires
        i <= s@.len(),
    ensures
        r == occurs_at_bytes(s@, p@, i as int),
{
    let n = s.len();
    if p.len() > n - i {
        return false;
    }
    let mut k: usize = 0;
    while k < p.len()
        invariant
            k <= p@.len(),
            n == s@.len(),
            i + p@.len() <= s@.len(),
            forall|m: int| 0 <= m < k ==> s@[i + m] == p@[m],
        decreases p@.len() - k,
    {
        if s[i + k] != p[k] {
            assert(s@.subrange(i as int, i + p@.len())[k as int] != p@[k as int]);
            return false;
        }
        k = k + 1;
    }
    assert(s@.subrange(i as int, i + p@.len()) =~= p@);
    true
}

/// The first position of `p` in `s`.
fn find_bytes(s: &[u8], p: &[u8]) -> (r: Option<usize>)
    ensures
        match first_occurrence(s@, p@) {
            Some(q) => r matches Some(x) && x as int == q,
            None => r is None,
        },
        r matches Some(q) ==> occurs_at_bytes(s@, p@, q as int),
{
    let mut i: usize = 0;
    while i < s.len()
        invariant
            i <= s@.len(),
            first_occurrence(s@, p@) == first_occ_from(s@, p@, i as int),
        decreases s@.len() - i,
    {
        if occurs_at_exec(s, p, i) {
            return Some(i);
        }
        i = i + 1;
    }
    None
}

fn lflf_bytes() -> (r: Vec<u8>)
    ensures
        r@ == lflf(),
{
    let mut v: Vec<u8> = Vec::new();
    v.push(LF);
    v.push(LF);
    assert(v@ =~= lflf());
    v
}

fn crlfcrlf_bytes() -> (r: Vec<u8>)
    ensures
        r@ == crlfcrlf(),
{
    let mut v: Vec<u8> = Vec::new();
    v.push(CR);
    v.push(LF);
    v.push(CR);
    v.push(LF);
    assert(v@ =~= crlfcrlf());
    v
}

/// The length of the first complete frame of `chunk`.
pub fn sse_frame_len(chunk: &[u8]) -> (r: Option<usize>)
    ensures
        match spec_frame_len(chunk@) {
            Some(n) => r matches Some(x) && x as int == n && n <= chunk@.len(),
            None => r is None,
        },
{
    if chunk.len() == 0 {
        return None;
    }
    let lf_pat = lflf_bytes();
    let crlf_pat = crlfcrlf_bytes();
    let lf = find_bytes(chunk, lf_pat.as_slice());
    let crlf = find_bytes(chunk, crlf_pat.as_slice());
    match (lf, crlf) {
        (None, None) => None,
        (Some(p), None) => Some(p + 2),
        (None, Some(q)) => Some(q + 4),
        (Some(p), Some(q)) => {
            if p < q {
                Some(p + 2)
            } else {
                Some(q + 4)
            }
        },
    }
}

/// The end of the line that starts at `i`.
fn line_end(s: &[u8], i: usize) -> (r: usize)
    requires
        i <= s@.len(),
    ensures
        i <= r <= s@.len(),
        r == s@.len() || s@[r as int] == LF,
        forall|k: int| i <= k < r ==> s@[k] != LF,
{
    let mut j = i;
    while j < s.len() && s[j] != LF
        invariant
            i <= j <= s@.len(),
            forall|k: int| i <= k < j ==> s@[k] != LF,
        decreases s@.len() - j,
    {
        j = j + 1;
    }
    j
}

/// A line `[i, j)` that starts at `i` is the one that `line_end` finds.
proof fn lemma_line_at(s: Seq<u8>, i: int, j: int, b: int)
    requires
        is_line(s, i, b),
        i <= j <= s.len(),
        j == s.len() || s[j] == LF,
        forall|k: int| i <= k < j ==> s[k] != LF,
    ensures
        b == j,
{
    if b < j {
        assert(s[b] != LF);
    } else if b > j {
        assert(s[j] != LF);
    }
}

/// The line `[i, j)` read as a field line.
fn field_line_bounds(s: &[u8], i: usize, j: usize) -> (r: (usize, usize))
    requires
        i <= j <= s@.len(),
    ensures
        i <= r.0 <= r.1 <= j,
        s@.subrange(r.0 as int, r.1 as int) == field_line(s@.subrange(i as int, j as int)),
{
    let e = if j > i && s[j - 1] == CR {
        j - 1
    } else {
        j
    };
    assert(s@.subrange(i as int, e as int) =~= strip_cr(s@.subrange(i as int, j as int)));
    trim_ws_bounds(s, i, e)
}

/// Whether `s[a..b]` starts with `p`.
fn starts_with_at(s: &[u8], a: usize, b: usize, p: &[u8]) -> (r: bool)
    requires
        a <= b <= s@.len(),
    ensures
        r == bytes_start_with(s@.subrange(a as int, b as int), p@),
{
    if p.len() > b - a {
        return false;
    }
    let r = occurs_at_exec(s, p, a);
    assert(s@.subrange(a as int, b as int).take(p@.len() as int) =~= s@.subrange(
        a as int,
        a + p@.len(),
    ));
    r
}

/// Whether some line of `chunk` starts, once trimmed, with `prefix`.
pub fn sse_has_field(chunk: &[u8], prefix: &[u8]) -> (r: bool)
    ensures
        r == spec_has_field(chunk@, prefix@),
{
    let mut i: usize = 0;
    loop
        invariant
            i <= chunk@.len(),
            i == 0 || chunk@[i - 1] == LF,
            forall|a: int, b: int|
                is_line(chunk@, a, b) && a < i ==> !bytes_start_with(
                    field_line(#[trigger] chunk@.subrange(a, b)),
                    prefix@,
                ),
        decreases chunk@.len() - i,
    {
        let j = line_end(chunk, i);
        let (a, b) = field_line_bounds(chunk, i, j);
        if starts_with_at(chunk, a, b, prefix) {
            assert(is_line(chunk@, i as int, j as int));
            return true;
        }
        proof {
            assert forall|x: int, y: int|
                is_line(chunk@, x, y) && x < j + 1 implies !bytes_start_with(
                field_line(#[trigger] chunk@.subrange(x, y)),
                prefix@,
            ) by {
                if x >= i {
                    if x > i {
                        assert(chunk@[x - 1] == LF);
                        assert(false);
                    }
                    lemma_line_at(chunk@, i as int, j as int, y);
                }
            }
        }
        if j == chunk.len() {
            proof {
                assert forall|x: int, y: int| is_line(chunk@, x, y) implies !bytes_start_with(
                    field_line(#[trigger] chunk@.subrange(x, y)),
                    prefix@,
                ) by {
                    assert(x < j + 1);
                }
            }
            return false;
        }
        i = j + 1;
    }
}

/// `bytes` without leading and trailing ASCII whitespace.
pub fn trim_ascii_whitespace(bytes: &[u8]) -> (r: &[u8])
    ensures
        r@ == trim_ws(bytes@),
{
    let (a, b) = trim_ws_bounds(bytes, 0, bytes.len());
    assert(bytes@.subrange(0, bytes@.len() as int) =~= bytes@);
    vstd::slice::slice_subrange(bytes, a, b)
}

pub(crate) fn event_prefix_vec() -> (r: Vec<u8>)
    ensures
        r@ == event_prefix(),
{
    event_prefix_bytes()
}

pub(crate) fn data_prefix_vec() -> (r: Vec<u8>)
    ensures
        r@ == data_prefix(),
{
    data_prefix_bytes()
}

/// Whether `s` starts with `p`.
pub(crate) fn starts_with_bytes(s: &[u8], p: &[u8]) -> (r: bool)
    ensures
        r == bytes_start_with(s@, p@),
{
    assert(s@.subrange(0, s@.len() as int) =~= s@);
    starts_with_at(s, 0, s.len(), p)
}

fn data_prefix_bytes() -> (r: Vec<u8>)
    ensures
        r@ == data_prefix(),
{
    let mut v: Vec<u8> = Vec::new();
    v.push(100);
    v.push(97);
    v.push(116);
    v.push(97);
    v.push(58);
    assert(v@ =~= data_prefix());
    v
}

fn event_prefix_bytes() -> (r: Vec<u8>)
    ensures
        r@ == event_prefix(),
{
    let mut v: Vec<u8> = Vec::new();
    v.push(101);
    v.push(118);
    v.push(101);
    v.push(110);
    v.push(116);
    v.push(58);
    assert(v@ =~= event_prefix());
    v
}

fn id_prefix_bytes() -> (r: Vec<u8>)
    ensures
        r@ == id_prefix(),
{
    let mut v: Vec<u8> = Vec::new();
    v.push(105);
    v.push(100);
    v.push(58);
    assert(v@ =~= id_prefix());
    v
}

fn retry_prefix_bytes() -> (r: Vec<u8>)
    ensures
        r@ == retry_prefix(),
{
    let mut v: Vec<u8> = Vec::new();
    v.push(114);
    v.push(101);
    v.push(116);
    v.push(114);
    v.push(121);
    v.push(58);
    assert(v@ =~= retry_prefix());
    v
}

fn comment_prefix_bytes() -> (r: Vec<u8>)
    ensures
        r@ == comment_prefix(),
{
    let mut v: Vec<u8> = Vec::new();
    v.push(58);
    assert(v@ =~= comment_prefix());
    v
}

fn is_done_marker(s: &[u8], a: usize, b: usize) -> (r: bool)
    requires
        a <= b <= s@.len(),
    ensures
        r == (s@.subrange(a as int, b as int) == done_marker()),
{
    if b - a != 6 {
        assert(done_marker().len() == 6);
        return false;
    }
    let r = s[a] == 91 && s[a + 1] == 68 && s[a + 2] == 79 && s[a + 3] == 78 && s[a + 4] == 69
        && s[a + 5] == 93;
    proof {
        let w = s@.subrange(a as int, b as int);
        if r {
            assert(w =~= done_marker());
        } else {
            if w == done_marker() {
                assert(w[0] == 91 && w[1] == 68 && w[2] == 79 && w[3] == 78 && w[4] == 69 && w[5]
                    == 93);
            }
        }
    }
    r
}

/// Whether the line `[i, j)` is fine as a data line.
fn data_line_ok_exec(s: &[u8], i: usize, j: usize) -> (r: bool)
    requires
        i <= j <= s@.len(),
    ensures
        r == data_line_ok(s@.subrange(i as int, j as int)),
{
    let (a, b) = field_line_bounds(s, i, j);
    let prefix = data_prefix_bytes();
    if !starts_with_at(s, a, b, prefix.as_slice()) {
        return true;
    }
    let (c, d) = trim_ws_bounds(s, a + 5, b);
    proof {
        let t = s@.subrange(a as int, b as int);
        assert(t.skip(5) =~= s@.subrange(a + 5, b as int));
    }
    if c == d {
        return true;
    }
    if is_done_marker(s, c, d) {
        return true;
    }
    let data = vstd::slice::slice_subrange(s, c, d);
    parse_json(data).is_some()
}

/// Whether every `data:` line's payload is empty, the done marker, or JSON.
pub fn sse_data_lines_valid(chunk: &[u8]) -> (r: bool)
    ensures
        r == spec_data_lines_valid(chunk@),
{
    let mut i: usize = 0;
    loop
        invariant
            i <= chunk@.len(),
            i == 0 || chunk@[i - 1] == LF,
            forall|a: int, b: int|
                is_line(chunk@, a, b) && a < i ==> data_line_ok(#[trigger] chunk@.subrange(a, b)),
        decreases chunk@.len() - i,
    {
        let j = line_end(chunk, i);
        if !data_line_ok_exec(chunk, i, j) {
            assert(is_line(chunk@, i as int, j as int));
            return false;
        }
        proof {
            assert forall|x: int, y: int| is_line(chunk@, x, y) && x < j + 1 implies data_line_ok(
                #[trigger] chunk@.subrange(x, y),
            ) by {
                if x >= i {
                    if x > i {
                        assert(chunk@[x - 1] == LF);
                        assert(false);
                    }
                    lemma_line_at(chunk@, i as int, j as int, y);
                }
            }
        }
        if j == chunk.len() {
            proof {
                assert forall|x: int, y: int| is_line(chunk@, x, y) implies data_line_ok(
                    #[trigger] chunk@.subrange(x, y),
                ) by {
                    assert(x < j + 1);
                }
            }
            return true;
        }
        i = j + 1;
    }
}

/// Whether the bytes hold an event line but no data line yet.
pub fn sse_needs_more_data(chunk: &[u8]) -> (r: bool)
    ensures
        r == spec_needs_more_data(chunk@),
{
    let t = trim_ascii_whitespace(chunk);
    t.len() > 0 && sse_has_field(t, event_prefix_bytes().as_slice()) && !sse_has_field(
        t,
        data_prefix_bytes().as_slice(),
    )
}

/// Whether bytes without a closing blank line already hold a whole frame.
pub fn sse_can_emit_without_delimiter(chunk: &[u8]) -> (r: bool)
    ensures
        r == spec_can_emit_without_delimiter(chunk@),
{
    let t = trim_ascii_whitespace(chunk);
    t.len() > 0 && sse_has_field(t, data_prefix_bytes().as_slice()) && !sse_needs_more_data(t)
        && sse_data_lines_valid(t)
}

/// Whether a frame carries only header lines.
pub fn is_header_only_sse_frame(frame: &[u8]) -> (r: bool)
    ensures
        r == spec_header_only(frame@),
{
    let t = trim_ascii_whitespace(frame);
    t.len() > 0 && !sse_has_field(t, data_prefix_bytes().as_slice()) && (sse_has_field(
        t,
        event_prefix_bytes().as_slice(),
    ) || sse_has_field(t, id_prefix_bytes().as_slice()) || sse_has_field(
        t,
        retry_prefix_bytes().as_slice(),
    ) || sse_has_field(t, comment_prefix_bytes().as_slice()))
}

fn ends_with_exec(s: &[u8], p: &[u8]) -> (r: bool)
    ensures
        r == bytes_end_with(s@, p@),
{
    if p.len() > s.len() {
        return false;
    }
    let r = occurs_at_exec(s, p, s.len() - p.len());
    assert(s@.skip(s@.len() - p@.len()) =~= s@.subrange(s@.len() - p@.len(), s@.len() as int));
    r
}

/// The length of a frame without its closing blank line.
fn terminator_trimmed_len(frame: &[u8]) -> (r: usize)
    ensures
        r <= frame@.len(),
        frame@.take(r as int) == spec_trim_terminator(frame@),
{
    if ends_with_exec(frame, crlfcrlf_bytes().as_slice()) {
        frame.len() - 4
    } else if ends_with_exec(frame, lflf_bytes().as_slice()) {
        frame.len() - 2
    } else {
        assert(frame@.take(frame@.len() as int) =~= frame@);
        frame.len()
    }
}

/// A frame without its closing blank line.
pub fn trim_sse_frame_terminator(frame: &[u8]) -> (r: &[u8])
    ensures
        r@ == spec_trim_terminator(frame@),
{
    let n = terminator_trimmed_len(frame);
    let r = vstd::slice::slice_subrange(frame, 0, n);
    assert(r@ =~= frame@.take(n as int));
    r
}

/// A held header put in front of the data frame that follows it.
pub fn merge_sse_header_and_frame(header: &[u8], frame: &[u8]) -> (r: Vec<u8>)
    ensures
        r@ == spec_merge(header@, frame@),
{
    let h = trim_sse_frame_terminator(header);
    let mut merged: Vec<u8> = Vec::new();
    crate::text::push_bytes(&mut merged, h);
    let mut lf: Vec<u8> = Vec::new();
    lf.push(LF);
    let mut cr: Vec<u8> = Vec::new();
    cr.push(CR);
    assert(lf@ =~= seq![LF]);
    assert(cr@ =~= seq![CR]);
    if !ends_with_exec(h, lf.as_slice()) && !starts_with_at(frame, 0, frame.len(), lf.as_slice())
        && !starts_with_at(frame, 0, frame.len(), cr.as_slice()) {
        merged.push(LF);
    }
    assert(frame@.subrange(0, frame@.len() as int) =~= frame@);
    crate::text::push_bytes(&mut merged, frame);
    merged
}

/// A frame with its closing blank line.
pub fn normalize_sse_frame_bytes(frame: &[u8]) -> (r: Vec<u8>)
    ensures
        r@ == spec_normalize(frame@),
{
    let mut out: Vec<u8> = Vec::new();
    crate::text::push_bytes(&mut out, frame);
    assert(out@ =~= frame@);
    if ends_with_exec(frame, lflf_bytes().as_slice()) || ends_with_exec(
        frame,
        crlfcrlf_bytes().as_slice(),
    ) {
        return out;
    }
    out.push(LF);
    out.push(LF);
    assert(out@ =~= frame@ + lflf());
    out
}

proof fn lemma_lead_blanks(s: Seq<u8>)
    ensures
        lead_blanks(s) <= s.len(),
        forall|k: int| 0 <= k < lead_blanks(s) ==> (s[k] == 32 || s[k] == 9),
        lead_blanks(s) == s.len() || !(s[lead_blanks(s) as int] == 32 || s[lead_blanks(s) as int]
            == 9),
    decreases s.len(),
{
    if s.len() > 0 && (s[0] == 32 || s[0] == 9) {
        let t = s.drop_first();
        lemma_lead_blanks(t);
        assert forall|k: int| 0 <= k < lead_blanks(s) implies (s[k] == 32 || s[k] == 9) by {
            if k > 0 {
                assert(s[k] == t[k - 1]);
            }
        }
        if lead_blanks(s) < s.len() {
            assert(s[lead_blanks(s) as int] == t[lead_blanks(t) as int]);
        }
    }
}

proof fn lemma_lead_blanks_unique(s: Seq<u8>, n: int)
    requires
        0 <= n <= s.len(),
        forall|k: int| 0 <= k < n ==> (s[k] == 32 || s[k] == 9),
        n == s.len() || !(s[n] == 32 || s[n] == 9),
    ensures
        lead_blanks(s) == n,
    decreases n,
{
    if n > 0 {
        let t = s.drop_first();
        assert forall|k: int| 0 <= k < n - 1 implies (t[k] == 32 || t[k] == 9) by {
            assert(t[k] == s[k + 1]);
        }
        if n < s.len() {
            assert(t[n - 1] == s[n]);
        }
        lemma_lead_blanks_unique(t, n - 1);
    }
}

/// Whether a line break must go between the pending bytes and a chunk that opens a new field.
pub fn sse_needs_line_break(pending: &[u8], chunk: &[u8]) -> (r: bool)
    ensures
        r == spec_needs_line_break(pending@, chunk@),
{
    if pending.len() == 0 || chunk.len() == 0 {
        return false;
    }
    let last = pending[pending.len() - 1];
    if last == LF || last == CR {
        return false;
    }
    if chunk[0] == LF || chunk[0] == CR {
        return false;
    }
    let mut a: usize = 0;
    while a < chunk.len() && (chunk[a] == 32 || chunk[a] == 9)
        invariant
            a <= chunk@.len(),
            forall|k: int| 0 <= k < a ==> (chunk@[k] == 32 || chunk@[k] == 9),
        decreases chunk@.len() - a,
    {
        a = a + 1;
    }
    proof {
        lemma_lead_blanks_unique(chunk@, a as int);
    }
    if a == chunk.len() {
        return false;
    }
    let n = chunk.len();
    proof {
        assert(chunk@.skip(a as int) =~= chunk@.subrange(a as int, n as int));
    }
    starts_with_at(chunk, a, n, data_prefix_bytes().as_slice()) || starts_with_at(
        chunk,
        a,
        n,
        event_prefix_bytes().as_slice(),
    ) || starts_with_at(chunk, a, n, id_prefix_bytes().as_slice()) || starts_with_at(
        chunk,
        a,
        n,
        retry_prefix_bytes().as_slice(),
    ) || starts_with_at(chunk, a, n, comment_prefix_bytes().as_slice())
}

// ---------------------------------------------------------------------------------------------
// Frames of a transcript and the payload of a frame
// ---------------------------------------------------------------------------------------------

/// The frames of a transcript, split at every blank line (`\r\n\r\n` or `\n\n`), scanning from
/// `idx` with the current frame starting at `start`; a last unterminated frame is kept.
pub open spec fn frames_from(b: Seq<u8>, start: int, idx: int) -> Seq<Seq<u8>>
    decreases b.len() - idx,
{
    if idx < 0 || idx >= b.len() {
        if 0 <= start < b.len() {
            seq![b.subrange(start, b.len() as int)]
        } else {
            Seq::empty()
        }
    } else if occurs_at_bytes(b, crlfcrlf(), idx) {
        seq![b.subrange(start, idx)] + frames_from(b, idx + 4, idx + 4)
    } else if occurs_at_bytes(b, lflf(), idx) {
        seq![b.subrange(start, idx)] + frames_from(b, idx + 2, idx + 2)
    } else {
        frames_from(b, start, idx + 1)
    }
}

pub open spec fn spec_frames(b: Seq<u8>) -> Seq<Seq<u8>> {
    frames_from(b, 0, 0)
}

pub open spec fn byte_seqs(v: Seq<Vec<u8>>) -> Seq<Seq<u8>> {
    v.map_values(|x: Vec<u8>| x@)
}

fn bytes_range(b: &[u8], from: usize, to: usize) -> (r: Vec<u8>)
    requires
        from <= to <= b@.len(),
    ensures
        r@ == b@.subrange(from as int, to as int),
{
    let mut v: Vec<u8> = Vec::new();
    crate::text::push_bytes(&mut v, vstd::slice::slice_subrange(b, from, to));
    v
}

/// The frames of a transcript.
pub fn sse_frames(bytes: &[u8]) -> (r: Vec<Vec<u8>>)
    ensures
        byte_seqs(r@) == spec_frames(bytes@),
{
    let crlf = crlfcrlf_bytes();
    let lf = lflf_bytes();
    let mut frames: Vec<Vec<u8>> = Vec::new();
    let mut start: usize = 0;
    let mut index: usize = 0;
    let n = bytes.len();
    while index < n
        invariant
            n == bytes@.len(),
            start <= index <= n,
            crlf@ == crlfcrlf(),
            lf@ == lflf(),
            spec_frames(bytes@) == byte_seqs(frames@) + frames_from(bytes@, start as int, index as int),
        decreases n - index,
    {
        if occurs_at_exec(bytes, crlf.as_slice(), index) {
            let f = bytes_range(bytes, start, index);
            let ghost before = frames@;
            frames.push(f);
            assert(byte_seqs(frames@) =~= byte_seqs(before) + seq![bytes@.subrange(start as int, index as int)]);
            index = index + 4;
            start = index;
        } else if occurs_at_exec(bytes, lf.as_slice(), index) {
            let f = bytes_range(bytes, start, index);
            let ghost before = frames@;
            frames.push(f);
            assert(byte_seqs(frames@) =~= byte_seqs(before) + seq![bytes@.subrange(start as int, index as int)]);
            index = index + 2;
            start = index;
        } else {
            index = index + 1;
        }
    }
    if start < n {
        let f = bytes_range(bytes, start, n);
        let ghost before = frames@;
        frames.push(f);
        assert(byte_seqs(frames@) =~= byte_seqs(before) + seq![bytes@.subrange(start as int, n as int)]);
    } else {
        assert(byte_seqs(frames@) =~= byte_seqs(frames@) + Seq::<Seq<u8>>::empty());
    }
    frames
}

/// The end of the line of text that starts at `i`: the next `\n`, or the end.
pub open spec fn text_line_end(t: Seq<char>, i: int) -> int
    decreases t.len() - i,
{
    if i < 0 || i >= t.len() {
        t.len() as int
    } else if t[i] == '\n' {
        i
    } else {
        text_line_end(t, i + 1)
    }
}

pub proof fn lemma_text_line_end(t: Seq<char>, i: int)
    requires
        0 <= i <= t.len(),
    ensures
        i <= text_line_end(t, i) <= t.len(),
    decreases t.len() - i,
{
    if i < t.len() && t[i] != '\n' {
        lemma_text_line_end(t, i + 1);
    }
}

/// `s` without its leading whitespace (`str::trim_start`).
pub open spec fn trim_start(s: Seq<char>) -> Seq<char> {
    s.skip(lead_ws(s) as int)
}

/// The payloads of the `data:` lines of a text from `i` on: each line trimmed, and what follows
/// `data:` without its leading whitespace.
pub open spec fn data_lines(t: Seq<char>, i: int) -> Seq<Seq<char>>
    decreases t.len() - i,
{
    if i < 0 || i > t.len() {
        Seq::empty()
    } else {
        let j = text_line_end(t, i);
        let line = trim(t.subrange(i, j));
        let rest = if j < t.len() {
            proof {
                lemma_text_line_end(t, i);
            }
            data_lines(t, j + 1)
        } else {
            Seq::empty()
        };
        if starts_with(line, "data:"@) {
            seq![trim_start(line.skip(5))] + rest
        } else {
            rest
        }
    }
}

/// Lines joined with `\n`.
pub open spec fn join_lines(ls: Seq<Seq<char>>) -> Seq<char>
    decreases ls.len(),
{
    if ls.len() == 0 {
        Seq::empty()
    } else if ls.len() == 1 {
        ls[0]
    } else {
        join_lines(ls.drop_last()) + seq!['\n'] + ls.last()
    }
}

/// The payload of a frame: its `data:` lines joined with `\n`; `None` when the frame is not
/// UTF-8 or has no data line.
pub open spec fn spec_data_payload(frame: Seq<u8>) -> Option<Seq<u8>> {
    if !vstd::utf8::valid_utf8(frame) {
        None
    } else {
        let ls = data_lines(vstd::utf8::decode_utf8(frame), 0);
        if ls.len() == 0 {
            None
        } else {
            Some(vstd::utf8::encode_utf8(join_lines(ls)))
        }
    }
}

fn text_line_end_exec(t: &[char], i: usize) -> (r: usize)
    requires
        i <= t@.len(),
    ensures
        r == text_line_end(t@, i as int),
        i <= r <= t@.len(),
{
    let mut j = i;
    while j < t.len() && t[j] != '\n'
        invariant
            i <= j <= t@.len(),
            text_line_end(t@, i as int) == text_line_end(t@, j as int),
        decreases t@.len() - j,
    {
        j = j + 1;
    }
    j
}

/// The payload of a frame's `data:` lines.
pub fn sse_data_payload(frame: &[u8]) -> (r: Option<Vec<u8>>)
    ensures
        match spec_data_payload(frame@) {
            Some(p) => r matches Some(v) && v@ == p,
            None => r is None,
        },
{
    let text = match decode_utf8_bytes(frame) {
        Some(t) => t,
        None => {
            return None;
        },
    };
    proof {
        reveal_strlit("data:");
    }
    let t = chars_of(text.as_str());
    let prefix = chars_of("data:");
    let mut lines: Vec<Vec<char>> = Vec::new();
    let mut joined: Vec<char> = Vec::new();
    let mut i: usize = 0;
    loop
        invariant_except_break
            data_lines(t@, 0) == lines@.map_values(|l: Vec<char>| l@) + data_lines(t@, i as int),
        invariant
            i <= t@.len(),
            prefix@ == "data:"@,
            prefix@.len() == 5,
            joined@ == join_lines(lines@.map_values(|l: Vec<char>| l@)),
        ensures
            data_lines(t@, 0) == lines@.map_values(|l: Vec<char>| l@),
        decreases t@.len() - i,
    {
        let j = text_line_end_exec(t.as_slice(), i);
        let raw = slice_chars(t.as_slice(), i, j);
        let (a, b) = trim_bounds(raw.as_slice());
        let line = slice_chars(raw.as_slice(), a, b);
        let ghost rest = if j < t@.len() {
            data_lines(t@, j + 1)
        } else {
            Seq::<Seq<char>>::empty()
        };
        proof {
            assert(line@ == trim(t@.subrange(i as int, j as int)));
        }
        if line.len() >= 5 && crate::text::matches_at(line.as_slice(), prefix.as_slice(), 0) {
            let mut k: usize = 5;
            while k < line.len() && char_is_ws(line[k])
                invariant
                    5 <= k <= line@.len(),
                    forall|m: int| 5 <= m < k ==> crate::text::is_ws(#[trigger] line@[m]),
                decreases line@.len() - k,
            {
                k = k + 1;
            }
            proof {
                let d = line@.skip(5);
                assert forall|m: int| 0 <= m < k - 5 implies crate::text::is_ws(#[trigger] d[m]) by {
                    assert(d[m] == line@[m + 5]);
                }
                if k < line@.len() {
                    assert(d[k - 5] == line@[k as int]);
                }
                lemma_lead_ws(d, k - 5);
            }
            let payload = slice_chars(line.as_slice(), k, line.len());
            let ghost pv = payload@;
            assert(pv =~= trim_start(line@.skip(5)));
            let ghost before = lines@.map_values(|l: Vec<char>| l@);
            if lines.len() > 0 {
                joined.push('\n');
            }
            let mut m: usize = 0;
            let ghost jbase = joined@;
            while m < payload.len()
                invariant
                    m <= payload@.len(),
                    joined@ == jbase + payload@.take(m as int),
                decreases payload@.len() - m,
            {
                joined.push(payload[m]);
                m = m + 1;
                assert(joined@ =~= jbase + payload@.take(m as int));
            }
            lines.push(payload);
            proof {
                let after = lines@.map_values(|l: Vec<char>| l@);
                assert(after =~= before.push(pv));
                assert(payload@.take(m as int) =~= pv);
                if before.len() == 0 {
                    assert(joined@ =~= join_lines(after));
                } else {
                    assert(after.drop_last() =~= before);
                    assert(joined@ =~= join_lines(after));
                }
                assert(data_lines(t@, i as int) == seq![pv] + rest);
                assert(data_lines(t@, 0) =~= after + rest);
            }
        } else {
            proof {
                if starts_with(line@, "data:"@) {
                    assert(crate::text::occurs_at(line@, "data:"@, 0));
                }
                assert(data_lines(t@, i as int) == rest);
                assert(data_lines(t@, 0) =~= lines@.map_values(|l: Vec<char>| l@) + rest);
            }
        }
        if j == t.len() {
            assert(data_lines(t@, 0) =~= lines@.map_values(|l: Vec<char>| l@));
            break;
        }
        i = j + 1;
    }
    if lines.len() == 0 {
        return None;
    }
    let s = string_of(joined.as_slice());
    let mut out: Vec<u8> = Vec::new();
    crate::text::push_bytes(&mut out, s.as_str().as_bytes());
    Some(out)
}

} // verus!
