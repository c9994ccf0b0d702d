//! The Redis-compatible protocol of the usage queue: reading RESP commands from the bytes a
//! client sent, the replies written back, and the command rules of a connection (AUTH,
//! SUBSCRIBE, LPOP / RPOP, and PING / UNSUBSCRIBE / QUIT once subscribed).
//!
//! Only the small command set the usage consumer needs is served; this is not a Redis server.
use vstd::prelude::*;
use vstd::utf8::{decode_utf8, encode_utf8, valid_utf8};
use crate::text::{
    chars_eq, chars_of, decode_utf8_bytes, lossy_text, lower, lower_vec, push_bytes,
    string_of, trim, trim_str, upper, upper_vec, utf8_lossy,
};
use crate::usage_queue::UsageQueue;

verus! {

pub const CR: u8 = 13;

pub const LF: u8 = 10;

/// `*`, which opens an array.
pub const STAR: u8 = 42;

/// `$`, which opens a bulk string.
pub const DOLLAR: u8 = 36;

/// `+`, which opens a simple string.
pub const PLUS: u8 = 43;

/// `-`, which opens an error.
pub const MINUS: u8 = 45;

/// `:`, which opens an integer.
pub const COLON: u8 = 58;

pub const ZERO: u8 = 48;

pub const ONE: u8 = 49;

pub const NINE: u8 = 57;

/// The first bytes of the RESP value kinds.
pub open spec fn spec_resp_prefix(b: u8) -> bool {
    b == STAR || b == DOLLAR || b == PLUS || b == MINUS || b == COLON
}

/// Whether a connection whose first byte is `prefix` speaks RESP.
pub fn is_resp_prefix(prefix: u8) -> (r: bool)
    ensures
        r == spec_resp_prefix(prefix),
{
    prefix == STAR || prefix == DOLLAR || prefix == PLUS || prefix == MINUS || prefix == COLON
}

/// The outcome of reading one element at a position of a buffer: the element and the position
/// after it, a need for more bytes, or a protocol error.
pub enum Parsed<T> {
    Got(T, int),
    More,
    Bad,
}

/// `s` without its trailing CR and LF bytes.
pub open spec fn trim_crlf(s: Seq<u8>) -> Seq<u8>
    decreases s.len(),
{
    if s.len() > 0 && (s.last() == CR || s.last() == LF) {
        trim_crlf(s.drop_last())
    } else {
        s
    }
}

pub open spec fn has_lf_from(buf: Seq<u8>, from: int) -> bool {
    exists|j: int| from <= j < buf.len() && buf[j] == LF
}

pub open spec fn first_lf_from(buf: Seq<u8>, from: int) -> int {
    choose|j: int| from <= j < buf.len() && buf[j] == LF && forall|k: int| from <= k < j ==> buf[k] != LF
}

/// A line read at `from`: up to and including the first LF, or to the end once the peer has
/// closed, with the trailing CR and LF bytes dropped.
pub open spec fn read_line(buf: Seq<u8>, from: int, eof: bool) -> Parsed<Seq<u8>> {
    if has_lf_from(buf, from) {
        let j = first_lf_from(buf, from);
        Parsed::Got(trim_crlf(buf.subrange(from, j + 1)), j + 1)
    } else if eof {
        Parsed::Got(trim_crlf(buf.subrange(from, buf.len() as int)), buf.len() as int)
    } else {
        Parsed::More
    }
}

pub open spec fn is_digit_byte(b: u8) -> bool {
    ZERO <= b <= NINE
}

pub open spec fn all_digits(s: Seq<u8>) -> bool {
    forall|i: int| 0 <= i < s.len() ==> is_digit_byte(#[trigger] s[i])
}

/// The value of a string of decimal digits.
pub open spec fn digits_value(s: Seq<u8>) -> nat
    decreases s.len(),
{
    if s.len() == 0 {
        0
    } else {
        digits_value(s.drop_last()) * 10 + (s.last() - ZERO) as nat
    }
}

/// The digits of an unsigned number, after an optional `+`.
pub open spec fn unsigned_digits(s: Seq<u8>) -> Seq<u8> {
    if s.len() > 0 && s[0] == PLUS {
        s.skip(1)
    } else {
        s
    }
}

/// What `str::parse::<usize>` gives for the text.
pub open spec fn parse_usize(s: Seq<u8>) -> Option<usize> {
    let d = unsigned_digits(s);
    if d.len() > 0 && all_digits(d) && digits_value(d) <= usize::MAX {
        Some(digits_value(d) as usize)
    } else {
        None
    }
}

/// The length line of a bulk string: a negative length stands for no payload.
#[derive(Debug, Clone, Copy, PartialEq, Eq)]
pub enum BulkLen {
    Absent,
    Len(usize),
}

/// What a length line means, read as `str::parse::<isize>`.
pub open spec fn parse_bulk_len(s: Seq<u8>) -> Option<BulkLen> {
    if s.len() > 0 && s[0] == MINUS {
        let d = s.skip(1);
        if d.len() > 0 && all_digits(d) && digits_value(d) <= -(isize::MIN as int) {
            if digits_value(d) == 0 {
                Some(BulkLen::Len(0))
            } else {
                Some(BulkLen::Absent)
            }
        } else {
            None
        }
    } else {
        let d = unsigned_digits(s);
        if d.len() > 0 && all_digits(d) && digits_value(d) <= isize::MAX {
            Some(BulkLen::Len(digits_value(d) as usize))
        } else {
            None
        }
    }
}

/// One argument read at `pos`: a bulk string (`$`), or a simple string or integer line (`+`,
/// `:`). Bulk payloads decode lossily; lines must be UTF-8.
#[verifier::opaque]
pub open spec fn read_arg(buf: Seq<u8>, pos: int, eof: bool) -> Parsed<Seq<char>> {
    if pos >= buf.len() {
        if eof {
            Parsed::Bad
        } else {
            Parsed::More
        }
    } else if buf[pos] == DOLLAR {
        match read_line(buf, pos + 1, eof) {
            Parsed::Got(l, n) => match parse_bulk_len(l) {
                None => Parsed::Bad,
                Some(BulkLen::Absent) => Parsed::Got(Seq::empty(), n),
                Some(BulkLen::Len(len)) => if n + len + 2 > buf.len() {
                    if eof {
                        Parsed::Bad
                    } else {
                        Parsed::More
                    }
                } else if buf[n + len] == CR && buf[n + len + 1] == LF {
                    Parsed::Got(lossy_text(buf.subrange(n, n + len)), n + len + 2)
                } else {
                    Parsed::Bad
                },
            },
            Parsed::More => Parsed::More,
            Parsed::Bad => Parsed::Bad,
        }
    } else if buf[pos] == PLUS || buf[pos] == COLON {
        match read_line(buf, pos + 1, eof) {
            Parsed::Got(l, n) => if valid_utf8(l) {
                Parsed::Got(decode_utf8(l), n)
            } else {
                Parsed::Bad
            },
            Parsed::More => Parsed::More,
            Parsed::Bad => Parsed::Bad,
        }
    } else {
        Parsed::Bad
    }
}

/// `count` arguments read one after the other from `pos`.
pub open spec fn read_args(buf: Seq<u8>, pos: int, count: nat, eof: bool) -> Parsed<
    Seq<Seq<char>>,
>
    decreases count,
{
    if count == 0 {
        Parsed::Got(Seq::empty(), pos)
    } else {
        match read_args(buf, pos, (count - 1) as nat, eof) {
            Parsed::Got(a, p) => match read_arg(buf, p, eof) {
                Parsed::Got(s, q) => Parsed::Got(a.push(s), q),
                Parsed::More => Parsed::More,
                Parsed::Bad => Parsed::Bad,
            },
            Parsed::More => Parsed::More,
            Parsed::Bad => Parsed::Bad,
        }
    }
}

/// A command at the start of the buffer: `*`, the argument count on its line, then the
/// arguments. `eof` says that the peer has closed and no more bytes will come.
pub open spec fn read_command(buf: Seq<u8>, eof: bool) -> Parsed<Seq<Seq<char>>> {
    if buf.len() == 0 {
        if eof {
            Parsed::Bad
        } else {
            Parsed::More
        }
    } else if buf[0] != STAR {
        Parsed::Bad
    } else {
        match read_line(buf, 1, eof) {
            Parsed::Got(l, n) => match parse_usize(l) {
                Some(c) => read_args(buf, n, c as nat, eof),
                None => Parsed::Bad,
            },
            Parsed::More => Parsed::More,
            Parsed::Bad => Parsed::Bad,
        }
    }
}

/// A command read from the front of the buffer.
#[derive(Debug)]
pub enum RespCommand {
    /// The arguments, and how many bytes they took.
    Complete { args: Vec<String>, consumed: usize },
    /// The command is not complete yet.
    Incomplete,
    /// The bytes break the protocol; the connection ends.
    Malformed,
}

pub open spec fn strings(v: Seq<String>) -> Seq<Seq<char>> {
    v.map_values(|s: String| s@)
}

pub open spec fn command_view(r: RespCommand) -> Parsed<Seq<Seq<char>>> {
    match r {
        RespCommand::Complete { args, consumed } => Parsed::Got(strings(args@), consumed as int),
        RespCommand::Incomplete => Parsed::More,
        RespCommand::Malformed => Parsed::Bad,
    }
}

/// A line found in the buffer: where its content starts and ends, and where the next element
/// begins.
enum LineAt {
    Got(usize, usize, usize),
    More,
}

proof fn lemma_trim_crlf_prefix(s: Seq<u8>)
    ensures
        trim_crlf(s) == s.take(trim_crlf(s).len() as int),
        trim_crlf(s).len() <= s.len(),
        forall|k: int| trim_crlf(s).len() <= k < s.len() ==> (s[k] == CR || s[k] == LF),
        trim_crlf(s).len() == 0 || (s[trim_crlf(s).len() - 1] != CR && s[trim_crlf(s).len() - 1]
            != LF),
    decreases s.len(),
{
    if s.len() > 0 && (s.last() == CR || s.last() == LF) {
        lemma_trim_crlf_prefix(s.drop_last());
        let t = trim_crlf(s.drop_last());
        assert(s.drop_last().take(t.len() as int) =~= s.take(t.len() as int));
        assert forall|k: int| t.len() <= k < s.len() implies (s[k] == CR || s[k] == LF) by {
            if k < s.len() - 1 {
                assert(s[k] == s.drop_last()[k]);
            }
        }
        if t.len() > 0 {
            assert(s[t.len() - 1] == s.drop_last()[t.len() - 1]);
        }
    } else {
        assert(s.take(s.len() as int) =~= s);
    }
}

proof fn lemma_trim_crlf_of(s: Seq<u8>, n: int)
    requires
        0 <= n <= s.len(),
        forall|k: int| n <= k < s.len() ==> (s[k] == CR || s[k] == LF),
        n == 0 || (s[n - 1] != CR && s[n - 1] != LF),
    ensures
        trim_crlf(s) == s.take(n),
    decreases s.len(),
{
    if s.len() > n {
        assert(s.drop_last().len() >= n);
        assert forall|k: int| n <= k < s.drop_last().len() implies (s.drop_last()[k] == CR
            || s.drop_last()[k] == LF) by {
            assert(s.drop_last()[k] == s[k]);
        }
        if n > 0 {
            assert(s.drop_last()[n - 1] == s[n - 1]);
        }
        lemma_trim_crlf_of(s.drop_last(), n);
        assert(s.drop_last().take(n) =~= s.take(n));
    } else {
        assert(s.take(n) =~= s);
    }
}

/// The end of `buf[from..to]` once trailing CR and LF bytes are dropped.
fn trim_crlf_end(buf: &[u8], from: usize, to: usize) -> (r: usize)
    requires
        from <= to <= buf@.len(),
    ensures
        from <= r <= to,
        buf@.subrange(from as int, r as int) == trim_crlf(buf@.subrange(from as int, to as int)),
{
    let mut end = to;
    while end > from && (buf[end - 1] == CR || buf[end - 1] == LF)
        invariant
            from <= end <= to <= buf@.len(),
            forall|k: int| end <= k < to ==> (buf@[k] == CR || buf@[k] == LF),
        decreases end,
    {
        end = end - 1;
    }
    proof {
        let s = buf@.subrange(from as int, to as int);
        let n = (end - from) as int;
        assert forall|k: int| n <= k < s.len() implies (s[k] == CR || s[k] == LF) by {
            assert(s[k] == buf@[from + k]);
        }
        if n > 0 {
            assert(s[n - 1] == buf@[end - 1]);
        }
        lemma_trim_crlf_of(s, n);
        assert(s.take(n) =~= buf@.subrange(from as int, end as int));
    }
    end
}

fn find_lf(buf: &[u8], from: usize) -> (r: Option<usize>)
    requires
        from <= buf@.len(),
    ensures
        r is Some <==> has_lf_from(buf@, from as int),
        r matches Some(j) ==> j == first_lf_from(buf@, from as int) && from <= j < buf@.len(),
{
    let mut j = from;
    while j < buf.len()
        invariant
            from <= j <= buf@.len(),
            forall|k: int| from <= k < j ==> buf@[k] != LF,
        decreases buf@.len() - j,
    {
        if buf[j] == LF {
            proof {
                let f = first_lf_from(buf@, from as int);
                assert(from <= j < buf@.len() && buf@[j as int] == LF);
                if f < j {
                } else if f > j {
                }
            }
            return Some(j);
        }
        j = j + 1;
    }
    None
}

fn line_at(buf: &[u8], from: usize, eof: bool) -> (r: LineAt)
    requires
        from <= buf@.len(),
    ensures
        match r {
            LineAt::Got(start, end, next) => {
                &&& start == from
                &&& start <= end <= next <= buf@.len()
                &&& read_line(buf@, from as int, eof) == Parsed::Got(
                    buf@.subrange(start as int, end as int),
                    next as int,
                )
            },
            LineAt::More => read_line(buf@, from as int, eof) == Parsed::<Seq<u8>>::More,
        },
{
    let n = buf.len();
    match find_lf(buf, from) {
        Some(j) => {
            assert(j < n);
            let end = trim_crlf_end(buf, from, j + 1);
            LineAt::Got(from, end, j + 1)
        },
        None => {
            if eof {
                let end = trim_crlf_end(buf, from, buf.len());
                LineAt::Got(from, end, buf.len())
            } else {
                LineAt::More
            }
        },
    }
}

proof fn lemma_digits_value_grows(s: Seq<u8>, k: int)
    requires
        0 <= k <= s.len(),
    ensures
        digits_value(s.take(k)) <= digits_value(s),
    decreases s.len() - k,
{
    if k < s.len() {
        lemma_digits_value_grows(s, k + 1);
        assert(s.take(k + 1).drop_last() =~= s.take(k));
    } else {
        assert(s.take(k) =~= s);
    }
}

/// The value of the digits `buf[from..to]`, if it is at most `limit`.
fn digits_up_to(buf: &[u8], from: usize, to: usize, limit: usize) -> (r: Option<usize>)
    requires
        from <= to <= buf@.len(),
        all_digits(buf@.subrange(from as int, to as int)),
    ensures
        r matches Some(v) ==> v == digits_value(buf@.subrange(from as int, to as int)) && v
            <= limit,
        r is None ==> digits_value(buf@.subrange(from as int, to as int)) > limit,
{
    let ghost d = buf@.subrange(from as int, to as int);
    let mut acc: usize = 0;
    let mut i = from;
    while i < to
        invariant
            from <= i <= to <= buf@.len(),
            d == buf@.subrange(from as int, to as int),
            all_digits(d),
            acc == digits_value(d.take(i - from)),
            acc <= limit,
        decreases to - i,
    {
        let ghost k = i - from;
        assert(is_digit_byte(d[k as int]));
        assert(d[k as int] == buf@[i as int]);
        let digit = (buf[i] - ZERO) as usize;
        assert(d.take(k + 1).drop_last() =~= d.take(k as int));
        if digit > limit || acc > (limit - digit) / 10 {
            proof {
                assert(acc * 10 + digit > limit) by (nonlinear_arith)
                    requires
                        digit > limit || acc > (limit - digit) / 10,
                        digit >= 0,
                        acc >= 0,
                ;
                lemma_digits_value_grows(d, k + 1);
            }
            return None;
        }
        proof {
            assert(acc * 10 + digit <= limit) by (nonlinear_arith)
                requires
                    acc <= (limit - digit) / 10,
                    digit <= limit,
            ;
        }
        acc = acc * 10 + digit;
        i = i + 1;
    }
    assert(d.take(i - from) =~= d);
    Some(acc)
}

fn all_digits_in(buf: &[u8], from: usize, to: usize) -> (r: bool)
    requires
        from <= to <= buf@.len(),
    ensures
        r == all_digits(buf@.subrange(from as int, to as int)),
{
    let mut i = from;
    while i < to
        invariant
            from <= i <= to <= buf@.len(),
            forall|k: int| from <= k < i ==> is_digit_byte(buf@[k]),
        decreases to - i,
    {
        if !(ZERO <= buf[i] && buf[i] <= NINE) {
            assert(!is_digit_byte(buf@.subrange(from as int, to as int)[i - from]));
            return false;
        }
        i = i + 1;
    }
    assert forall|k: int| 0 <= k < to - from implies is_digit_byte(
        #[trigger] buf@.subrange(from as int, to as int)[k],
    ) by {
        assert(buf@.subrange(from as int, to as int)[k] == buf@[from + k]);
    }
    true
}

/// `str::parse::<usize>` of `buf[from..to]`.
fn parse_usize_at(buf: &[u8], from: usize, to: usize) -> (r: Option<usize>)
    requires
        from <= to <= buf@.len(),
    ensures
        r == parse_usize(buf@.subrange(from as int, to as int)),
{
    let ghost s = buf@.subrange(from as int, to as int);
    let start = if from < to && buf[from] == PLUS {
        from + 1
    } else {
        from
    };
    assert(unsigned_digits(s) =~= buf@.subrange(start as int, to as int));
    if start == to || !all_digits_in(buf, start, to) {
        return None;
    }
    digits_up_to(buf, start, to, usize::MAX)
}

/// The length line `buf[from..to]` of a bulk string.
fn parse_bulk_len_at(buf: &[u8], from: usize, to: usize) -> (r: Option<BulkLen>)
    requires
        from <= to <= buf@.len(),
    ensures
        r == parse_bulk_len(buf@.subrange(from as int, to as int)),
{
    let ghost s = buf@.subrange(from as int, to as int);
    if from < to && buf[from] == MINUS {
        assert(s.skip(1) =~= buf@.subrange(from + 1, to as int));
        if from + 1 == to || !all_digits_in(buf, from + 1, to) {
            return None;
        }
        let limit: usize = (isize::MAX as usize) + 1;
        match digits_up_to(buf, from + 1, to, limit) {
            Some(v) => {
                if v == 0 {
                    Some(BulkLen::Len(0))
                } else {
                    Some(BulkLen::Absent)
                }
            },
            None => None,
        }
    } else {
        let start = if from < to && buf[from] == PLUS {
            from + 1
        } else {
            from
        };
        assert(unsigned_digits(s) =~= buf@.subrange(start as int, to as int));
        if start == to || !all_digits_in(buf, start, to) {
            return None;
        }
        match digits_up_to(buf, start, to, isize::MAX as usize) {
            Some(v) => Some(BulkLen::Len(v)),
            None => None,
        }
    }
}

/// One argument found in the buffer, with the position after it.
enum ArgAt {
    Got(String, usize),
    More,
    Bad,
}

/// One argument at `pos`.
fn read_arg_at(buf: &[u8], pos: usize, eof: bool) -> (r: ArgAt)
    requires
        pos <= buf@.len(),
    ensures
        match read_arg(buf@, pos as int, eof) {
            Parsed::Got(s, n) => r matches ArgAt::Got(t, m) && t@ == s && m == n && pos < m
                <= buf@.len(),
            Parsed::More => r is More,
            Parsed::Bad => r is Bad,
        },
{
    reveal(read_arg);
    if pos >= buf.len() {
        if eof {
            return ArgAt::Bad;
        } else {
            return ArgAt::More;
        }
    }
    if buf[pos] == DOLLAR {
        match line_at(buf, pos + 1, eof) {
            LineAt::More => ArgAt::More,
            LineAt::Got(start, end, next) => {
                match parse_bulk_len_at(buf, start, end) {
                    None => ArgAt::Bad,
                    Some(BulkLen::Absent) => ArgAt::Got(String::new(), next),
                    Some(BulkLen::Len(len)) => {
                        if len > buf.len() - next || buf.len() - next - len < 2 {
                            if eof {
                                ArgAt::Bad
                            } else {
                                ArgAt::More
                            }
                        } else if buf[next + len] == CR && buf[next + len + 1] == LF {
                            let s = utf8_lossy(vstd::slice::slice_subrange(buf, next, next + len));
                            ArgAt::Got(s, next + len + 2)
                        } else {
                            ArgAt::Bad
                        }
                    },
                }
            },
        }
    } else if buf[pos] == PLUS || buf[pos] == COLON {
        match line_at(buf, pos + 1, eof) {
            LineAt::More => ArgAt::More,
            LineAt::Got(start, end, next) => {
                match decode_utf8_bytes(vstd::slice::slice_subrange(buf, start, end)) {
                    Some(s) => ArgAt::Got(s, next),
                    None => ArgAt::Bad,
                }
            },
        }
    } else {
        ArgAt::Bad
    }
}

/// Reads the command at the front of `buf`; `eof` says that the peer has closed.
pub fn parse_command(buf: &[u8], eof: bool) -> (r: RespCommand)
    ensures
        command_view(r) == read_command(buf@, eof),
{
    if buf.len() == 0 {
        if eof {
            return RespCommand::Malformed;
        } else {
            return RespCommand::Incomplete;
        }
    }
    if buf[0] != STAR {
        return RespCommand::Malformed;
    }
    let (start, end, next) = match line_at(buf, 1, eof) {
        LineAt::More => {
            return RespCommand::Incomplete;
        },
        LineAt::Got(start, end, next) => (start, end, next),
    };
    let count = match parse_usize_at(buf, start, end) {
        Some(c) => c,
        None => {
            return RespCommand::Malformed;
        },
    };
    read_args_at(buf, next, count, eof)
}

proof fn lemma_args_push(
    buf: Seq<u8>,
    pos: int,
    k: nat,
    eof: bool,
    a: Seq<Seq<char>>,
    p: int,
    s: Seq<char>,
    q: int,
)
    requires
        read_args(buf, pos, k, eof) == Parsed::Got(a, p),
        read_arg(buf, p, eof) == Parsed::Got(s, q),
    ensures
        read_args(buf, pos, k + 1, eof) == Parsed::Got(a.push(s), q),
{
}

/// `count` arguments from `next`.
fn read_args_at(buf: &[u8], next: usize, count: usize, eof: bool) -> (r: RespCommand)
    requires
        next <= buf@.len(),
    ensures
        command_view(r) == read_args(buf@, next as int, count as nat, eof),
{
    let mut args: Vec<String> = Vec::new();
    let mut pos = next;
    let mut k: usize = 0;
    assert(strings(args@) =~= Seq::<Seq<char>>::empty());
    while k < count
        invariant
            k <= count,
            next <= pos <= buf@.len(),
            read_args(buf@, next as int, k as nat, eof) == Parsed::Got(strings(args@), pos as int),
        decreases count - k,
    {
        match read_arg_at(buf, pos, eof) {
            ArgAt::Got(s, after) => {
                let ghost before = args@;
                let ghost sv = s@;
                proof {
                    if let Parsed::Got(x, n) = read_arg(buf@, pos as int, eof) {
                        lemma_args_push(buf@, next as int, k as nat, eof, strings(before), pos as int, x, n);
                    }
                }
                args.push(s);
                assert(strings(args@) =~= strings(before).push(sv));
                pos = after;
            },
            ArgAt::More => {
                proof {
                    lemma_read_args_stops(buf@, next as int, k as nat, count as nat, eof);
                }
                return RespCommand::Incomplete;
            },
            ArgAt::Bad => {
                proof {
                    lemma_read_args_stops(buf@, next as int, k as nat, count as nat, eof);
                }
                return RespCommand::Malformed;
            },
        }
        k = k + 1;
    }
    RespCommand::Complete { args, consumed: pos }
}

/// Once reading the `k+1`-th argument stops, reading `count >= k+1` arguments stops the same way.
proof fn lemma_read_args_stops(buf: Seq<u8>, pos: int, k: nat, count: nat, eof: bool)
    requires
        k < count,
        read_args(buf, pos, k, eof) is Got,
        !(read_args(buf, pos, k + 1, eof) is Got),
    ensures
        read_args(buf, pos, count, eof) == read_args(buf, pos, k + 1, eof),
    decreases count - k,
{
    if count > k + 1 {
        lemma_read_args_stops(buf, pos, k, (count - 1) as nat, eof);
    }
}

// ---------------------------------------------------------------------------------------------
// Replies
// ---------------------------------------------------------------------------------------------

/// The decimal digits of `n` as ASCII bytes.
pub open spec fn decimal_bytes(n: nat) -> Seq<u8>
    decreases n,
{
    if n < 10 {
        seq![(ZERO + n) as u8]
    } else {
        decimal_bytes(n / 10).push((ZERO + n % 10) as u8)
    }
}

pub open spec fn crlf() -> Seq<u8> {
    seq![CR, LF]
}

pub open spec fn simple_string_reply(value: Seq<char>) -> Seq<u8> {
    seq![PLUS] + encode_utf8(value) + crlf()
}

pub open spec fn error_reply(value: Seq<char>) -> Seq<u8> {
    seq![MINUS] + encode_utf8(value) + crlf()
}

/// `$-1\r\n`, the absent bulk string.
pub open spec fn nil_bulk_reply() -> Seq<u8> {
    seq![DOLLAR, MINUS, ONE, CR, LF]
}

pub open spec fn bulk_reply(value: Seq<u8>) -> Seq<u8> {
    seq![DOLLAR] + decimal_bytes(value.len()) + crlf() + value + crlf()
}

pub open spec fn array_header(count: nat) -> Seq<u8> {
    seq![STAR] + decimal_bytes(count) + crlf()
}

pub open spec fn integer_reply(value: nat) -> Seq<u8> {
    seq![COLON] + decimal_bytes(value) + crlf()
}

/// The bulk strings of `items`, one after the other.
pub open spec fn bulks(items: Seq<Seq<u8>>) -> Seq<u8>
    decreases items.len(),
{
    if items.len() == 0 {
        Seq::empty()
    } else {
        bulks(items.drop_last()) + bulk_reply(items.last())
    }
}

pub open spec fn bulk_array_reply(items: Seq<Seq<u8>>) -> Seq<u8> {
    array_header(items.len()) + bulks(items)
}

pub open spec fn subscribe_reply(channel: Seq<char>, count: nat) -> Seq<u8> {
    array_header(3) + bulk_reply(encode_utf8("subscribe"@)) + bulk_reply(encode_utf8(channel))
        + integer_reply(count)
}

pub open spec fn unsubscribe_reply(channel: Seq<char>, count: nat) -> Seq<u8> {
    array_header(3) + bulk_reply(encode_utf8("unsubscribe"@)) + bulk_reply(encode_utf8(channel))
        + integer_reply(count)
}

pub open spec fn message_reply(channel: Seq<char>, payload: Seq<u8>) -> Seq<u8> {
    array_header(3) + bulk_reply(encode_utf8("message"@)) + bulk_reply(encode_utf8(channel))
        + bulk_reply(payload)
}

pub open spec fn pong_reply(payload: Seq<u8>) -> Seq<u8> {
    array_header(2) + bulk_reply(encode_utf8("pong"@)) + bulk_reply(payload)
}

fn push_decimal(out: &mut Vec<u8>, n: usize)
    ensures
        final(out)@ == old(out)@ + decimal_bytes(n as nat),
    decreases n,
{
    if n >= 10 {
        push_decimal(out, n / 10);
    }
    let d = (n % 10) as u8;
    out.push(ZERO + d);
    proof {
        if n < 10 {
            assert(old(out)@ + decimal_bytes(n as nat) =~= old(out)@.push((ZERO + n) as u8));
        } else {
            assert(old(out)@ + decimal_bytes(n as nat) =~= (old(out)@ + decimal_bytes(
                (n / 10) as nat,
            )).push((ZERO + n % 10) as u8));
        }
    }
}

fn push_crlf(out: &mut Vec<u8>)
    ensures
        final(out)@ == old(out)@ + crlf(),
{
    out.push(CR);
    out.push(LF);
    assert(out@ =~= old(out)@ + crlf());
}

/// Appends `+value\r\n`.
pub fn write_simple_string(out: &mut Vec<u8>, value: &str)
    ensures
        final(out)@ == old(out)@ + simple_string_reply(value@),
{
    out.push(PLUS);
    push_bytes(out, value.as_bytes());
    push_crlf(out);
    assert(out@ =~= old(out)@ + simple_string_reply(value@));
}

/// Appends `-value\r\n`.
pub fn write_error(out: &mut Vec<u8>, value: &str)
    ensures
        final(out)@ == old(out)@ + error_reply(value@),
{
    out.push(MINUS);
    push_bytes(out, value.as_bytes());
    push_crlf(out);
    assert(out@ =~= old(out)@ + error_reply(value@));
}

/// Appends `$-1\r\n`.
pub fn write_nil_bulk_string(out: &mut Vec<u8>)
    ensures
        final(out)@ == old(out)@ + nil_bulk_reply(),
{
    out.push(DOLLAR);
    out.push(MINUS);
    out.push(ONE);
    push_crlf(out);
    assert(out@ =~= old(out)@ + nil_bulk_reply());
}

/// Appends `$len\r\nvalue\r\n`.
pub fn write_bulk_string(out: &mut Vec<u8>, value: &[u8])
    ensures
        final(out)@ == old(out)@ + bulk_reply(value@),
{
    out.push(DOLLAR);
    push_decimal(out, value.len());
    push_crlf(out);
    push_bytes(out, value);
    push_crlf(out);
    assert(out@ =~= old(out)@ + bulk_reply(value@));
}

/// Appends `*count\r\n`.
pub fn write_array_header(out: &mut Vec<u8>, count: usize)
    ensures
        final(out)@ == old(out)@ + array_header(count as nat),
{
    out.push(STAR);
    push_decimal(out, count);
    push_crlf(out);
    assert(out@ =~= old(out)@ + array_header(count as nat));
}

/// Appends `:value\r\n`.
pub fn write_integer(out: &mut Vec<u8>, value: usize)
    ensures
        final(out)@ == old(out)@ + integer_reply(value as nat),
{
    out.push(COLON);
    push_decimal(out, value);
    push_crlf(out);
    assert(out@ =~= old(out)@ + integer_reply(value as nat));
}

pub open spec fn byte_strings(items: Seq<Vec<u8>>) -> Seq<Seq<u8>> {
    items.map_values(|v: Vec<u8>| v@)
}

/// Appends an array of bulk strings.
pub fn write_bulk_array(out: &mut Vec<u8>, items: &Vec<Vec<u8>>)
    ensures
        final(out)@ == old(out)@ + bulk_array_reply(byte_strings(items@)),
{
    write_array_header(out, items.len());
    let ghost head = out@;
    let mut i: usize = 0;
    while i < items.len()
        invariant
            i <= items@.len(),
            head == old(out)@ + array_header(items@.len()),
            out@ == head + bulks(byte_strings(items@).take(i as int)),
        decreases items@.len() - i,
    {
        write_bulk_string(out, items[i].as_slice());
        proof {
            let t = byte_strings(items@).take(i + 1);
            assert(t.drop_last() =~= byte_strings(items@).take(i as int));
            assert(t.last() == items@[i as int]@);
        }
        i = i + 1;
        assert(out@ =~= head + bulks(byte_strings(items@).take(i as int)));
    }
    assert(byte_strings(items@).take(i as int) =~= byte_strings(items@));
    assert(out@ =~= old(out)@ + bulk_array_reply(byte_strings(items@)));
}

/// Appends the confirmation of a subscription.
pub fn write_pubsub_subscribe(out: &mut Vec<u8>, channel: &str, count: usize)
    ensures
        final(out)@ == old(out)@ + subscribe_reply(channel@, count as nat),
{
    write_array_header(out, 3);
    write_bulk_string(out, "subscribe".as_bytes());
    write_bulk_string(out, channel.as_bytes());
    write_integer(out, count);
    assert(out@ =~= old(out)@ + subscribe_reply(channel@, count as nat));
}

/// Appends the confirmation of an unsubscription.
pub fn write_pubsub_unsubscribe(out: &mut Vec<u8>, channel: &str, count: usize)
    ensures
        final(out)@ == old(out)@ + unsubscribe_reply(channel@, count as nat),
{
    write_array_header(out, 3);
    write_bulk_string(out, "unsubscribe".as_bytes());
    write_bulk_string(out, channel.as_bytes());
    write_integer(out, count);
    assert(out@ =~= old(out)@ + unsubscribe_reply(channel@, count as nat));
}

/// Appends a message delivered on a channel.
pub fn write_pubsub_message(out: &mut Vec<u8>, channel: &str, payload: &[u8])
    ensures
        final(out)@ == old(out)@ + message_reply(channel@, payload@),
{
    write_array_header(out, 3);
    write_bulk_string(out, "message".as_bytes());
    write_bulk_string(out, channel.as_bytes());
    write_bulk_string(out, payload);
    assert(out@ =~= old(out)@ + message_reply(channel@, payload@));
}

/// Appends the answer to a PING made while subscribed.
pub fn write_pubsub_pong(out: &mut Vec<u8>, payload: &[u8])
    ensures
        final(out)@ == old(out)@ + pong_reply(payload@),
{
    write_array_header(out, 2);
    write_bulk_string(out, "pong".as_bytes());
    write_bulk_string(out, payload);
    assert(out@ =~= old(out)@ + pong_reply(payload@));
}

// ---------------------------------------------------------------------------------------------
// Commands of a connection
// ---------------------------------------------------------------------------------------------

/// The queue channels a client can read.
#[derive(Debug, Clone, Copy, PartialEq, Eq)]
pub enum QueueChannel {
    Usage,
    Errors,
}

/// What a connection does with a command: write a reply and read on; pop usage records and
/// write them (see `pop_reply`); or write the subscription reply and stream the channel.
#[derive(Debug)]
pub enum ConnectionStep {
    Reply(Vec<u8>),
    Pop { count: usize, has_count: bool },
    Subscribe { channel: QueueChannel, name: String, reply: Vec<u8> },
}

/// The step as values.
pub enum StepModel {
    Reply(Seq<u8>),
    Pop(usize, bool),
    Subscribe(QueueChannel, Seq<char>, Seq<u8>),
}

pub open spec fn step_model(s: ConnectionStep) -> StepModel {
    match s {
        ConnectionStep::Reply(b) => StepModel::Reply(b@),
        ConnectionStep::Pop { count, has_count } => StepModel::Pop(count, has_count),
        ConnectionStep::Subscribe { channel, name, reply } => StepModel::Subscribe(
            channel,
            name@,
            reply@,
        ),
    }
}

/// Whether every character is ASCII.
pub open spec fn ascii_text(s: Seq<char>) -> bool {
    forall|i: int| 0 <= i < s.len() ==> (s[i] as u32) < 128
}

/// The bytes of ASCII text.
pub open spec fn ascii_bytes(s: Seq<char>) -> Seq<u8> {
    Seq::new(s.len(), |i: int| s[i] as u8)
}

/// What `str::parse::<usize>` gives for the text.
pub open spec fn parse_usize_text(s: Seq<char>) -> Option<usize> {
    if ascii_text(s) {
        parse_usize(ascii_bytes(s))
    } else {
        None
    }
}

/// The command word: the first argument, trimmed and upper-cased.
pub open spec fn command_word(args: Seq<Seq<char>>) -> Seq<char> {
    upper(trim(args[0]))
}

/// The password of an AUTH command: the last of one or two arguments.
pub open spec fn spec_auth_password(args: Seq<Seq<char>>) -> Option<Seq<char>> {
    if args.len() == 2 {
        Some(args[1])
    } else if args.len() == 3 {
        Some(args[2])
    } else {
        None
    }
}

/// The channel, count and whether a count was given, of an LPOP or RPOP command.
pub open spec fn spec_pop_args(args: Seq<Seq<char>>) -> Option<(Seq<char>, usize, bool)> {
    if args.len() != 2 && args.len() != 3 {
        None
    } else if args.len() == 2 {
        Some((lower(trim(args[1])), 1, false))
    } else {
        match parse_usize_text(trim(args[2])) {
            Some(c) => Some((lower(trim(args[1])), c, true)),
            None => None,
        }
    }
}

pub open spec fn wrong_arity(command: Seq<char>) -> Seq<char> {
    "ERR wrong number of arguments for '"@ + command + "' command"@
}

pub open spec fn unsupported_channel(channel: Seq<char>) -> Seq<char> {
    "ERR unsupported channel '"@ + channel + "'"@
}

pub open spec fn unknown_command(command: Seq<char>) -> Seq<char> {
    "ERR unknown command '"@ + command + "'"@
}

/// What a command does on a connection that is (or is not yet) authenticated, given the
/// configured password: whether the connection is authenticated afterwards, and the step.
pub open spec fn spec_connection_step(
    authed: bool,
    password: Option<Seq<char>>,
    args: Seq<Seq<char>>,
) -> (bool, StepModel) {
    if args.len() == 0 {
        (authed, StepModel::Reply(error_reply("ERR empty command"@)))
    } else {
        let command = command_word(args);
        if command != "AUTH"@ && !authed {
            (authed, StepModel::Reply(error_reply("NOAUTH Authentication required."@)))
        } else if command == "AUTH"@ {
            match spec_auth_password(args) {
                None => (authed, StepModel::Reply(error_reply(wrong_arity("auth"@)))),
                Some(given) => match password {
                    Some(expected) if given != expected => (
                        authed,
                        StepModel::Reply(error_reply("ERR invalid password"@)),
                    ),
                    _ => (true, StepModel::Reply(simple_string_reply("OK"@))),
                },
            }
        } else if command == "SUBSCRIBE"@ {
            if args.len() != 2 {
                (authed, StepModel::Reply(error_reply(wrong_arity("subscribe"@))))
            } else {
                let channel = lower(trim(args[1]));
                if channel == "usage"@ {
                    (
                        authed,
                        StepModel::Subscribe(QueueChannel::Usage, channel, subscribe_reply(channel, 1)),
                    )
                } else if channel == "errors"@ {
                    (
                        authed,
                        StepModel::Subscribe(
                            QueueChannel::Errors,
                            channel,
                            subscribe_reply(channel, 1),
                        ),
                    )
                } else {
                    (authed, StepModel::Reply(error_reply(unsupported_channel(channel))))
                }
            }
        } else if command == "LPOP"@ || command == "RPOP"@ {
            match spec_pop_args(args) {
                None => (authed, StepModel::Reply(error_reply(wrong_arity(lower(command))))),
                Some((channel, count, has_count)) => if channel != "usage"@ {
                    (authed, StepModel::Reply(error_reply(unsupported_channel(channel))))
                } else if count == 0 {
                    (
                        authed,
                        StepModel::Reply(error_reply("ERR value is not an integer or out of range"@)),
                    )
                } else {
                    (authed, StepModel::Pop(count, has_count))
                },
            }
        } else {
            (authed, StepModel::Reply(error_reply(unknown_command(lower(command)))))
        }
    }
}

/// The reply to a pop: the array of records when a count was given, else the first record or
/// the absent bulk string.
pub open spec fn spec_pop_reply(items: Seq<Seq<u8>>, has_count: bool) -> Seq<u8> {
    if has_count {
        bulk_array_reply(items)
    } else if items.len() > 0 {
        bulk_reply(items[0])
    } else {
        nil_bulk_reply()
    }
}

/// What a connection does once subscribed to `channel`: reply and stay, or reply and end.
#[derive(Debug)]
pub enum SubscriptionStep {
    Reply(Vec<u8>),
    Close(Vec<u8>),
}

pub open spec fn spec_subscription_step(channel: Seq<char>, args: Seq<Seq<char>>) -> (bool, Seq<u8>) {
    if args.len() == 0 {
        (false, error_reply("ERR empty command"@))
    } else {
        let command = command_word(args);
        if command == "PING"@ {
            (
                false,
                pong_reply(
                    if args.len() > 1 {
                        encode_utf8(args[1])
                    } else {
                        Seq::empty()
                    },
                ),
            )
        } else if command == "UNSUBSCRIBE"@ {
            (true, unsubscribe_reply(channel, 0))
        } else if command == "QUIT"@ {
            (true, simple_string_reply("OK"@))
        } else {
            (false, error_reply(unknown_command(lower(command))))
        }
    }
}

/// The password of an AUTH command.
pub fn parse_auth_password(args: &Vec<String>) -> (r: Option<&str>)
    ensures
        match spec_auth_password(strings(args@)) {
            Some(p) => r matches Some(q) && q@ == p,
            None => r is None,
        },
{
    if args.len() == 2 {
        Some(args[1].as_str())
    } else if args.len() == 3 {
        Some(args[2].as_str())
    } else {
        None
    }
}

fn parse_usize_chars(v: &[char]) -> (r: Option<usize>)
    ensures
        r == parse_usize_text(v@),
{
    let mut bytes: Vec<u8> = Vec::new();
    let mut i: usize = 0;
    while i < v.len()
        invariant
            i <= v@.len(),
            ascii_text(v@.take(i as int)),
            bytes@ == ascii_bytes(v@.take(i as int)),
        decreases v@.len() - i,
    {
        let u = v[i] as u32;
        if u >= 128 {
            assert(!ascii_text(v@));
            return None;
        }
        bytes.push(v[i] as u8);
        i = i + 1;
        assert(bytes@ =~= ascii_bytes(v@.take(i as int)));
    }
    assert(v@.take(i as int) =~= v@);
    let n = bytes.len();
    assert(bytes@.subrange(0, n as int) =~= bytes@);
    parse_usize_at(bytes.as_slice(), 0, n)
}

/// The channel, count and whether a count was given, of an LPOP or RPOP command.
pub fn parse_pop_args(args: &Vec<String>) -> (r: Option<(String, usize, bool)>)
    ensures
        match spec_pop_args(strings(args@)) {
            Some((c, n, h)) => r matches Some((rc, rn, rh)) && rc@ == c && rn == n && rh == h,
            None => r is None,
        },
{
    if args.len() != 2 && args.len() != 3 {
        return None;
    }
    let channel = lower_trimmed(args[1].as_str());
    if args.len() == 2 {
        return Some((channel, 1, false));
    }
    let count_text = chars_of(trim_str(args[2].as_str()).as_str());
    match parse_usize_chars(count_text.as_slice()) {
        Some(count) => Some((channel, count, true)),
        None => None,
    }
}

fn lower_trimmed(s: &str) -> (r: String)
    ensures
        r@ == lower(trim(s@)),
{
    let t = trim_str(s);
    let v = chars_of(t.as_str());
    let l = lower_vec(v.as_slice());
    string_of(l.as_slice())
}

fn text_is(v: &Vec<char>, literal: &str) -> (r: bool)
    ensures
        r == (v@ == literal@),
{
    let w = chars_of(literal);
    chars_eq(v.as_slice(), w.as_slice())
}

fn error_bytes(message: &str) -> (r: Vec<u8>)
    ensures
        r@ == error_reply(message@),
{
    let mut out: Vec<u8> = Vec::new();
    write_error(&mut out, message);
    assert(out@ =~= error_reply(message@));
    out
}

fn quoted(prefix: &str, middle: &[char], suffix: &str) -> (r: String)
    ensures
        r@ == prefix@ + middle@ + suffix@,
{
    let mut s = String::from_str(prefix);
    let m = string_of(middle);
    s.append(m.as_str());
    s.append(suffix);
    s
}

/// The state of a connection: whether it has authenticated.
#[derive(Debug, Clone, Copy, PartialEq, Eq, Default)]
pub struct RespConnection {
    pub authed: bool,
}

/// What serving a command leaves to the connection: a reply to write, or the subscription
/// reply after which the connection streams the channel.
#[derive(Debug)]
pub enum ServedCommand {
    Reply(Vec<u8>),
    Subscribe { channel: QueueChannel, name: String, reply: Vec<u8> },
}

pub open spec fn served_model(r: ServedCommand) -> StepModel {
    match r {
        ServedCommand::Reply(b) => StepModel::Reply(b@),
        ServedCommand::Subscribe { channel, name, reply } => StepModel::Subscribe(
            channel,
            name@,
            reply@,
        ),
    }
}

pub open spec fn password_view(p: Option<String>) -> Option<Seq<char>> {
    match p {
        Some(x) => Some(x@),
        None => None,
    }
}

/// How many records a pop of `count` takes from `items`.
pub open spec fn popped(items: Seq<Seq<u8>>, count: usize) -> int {
    if count < items.len() {
        count as int
    } else {
        items.len() as int
    }
}

/// One command served against the buffered records `items`: whether the connection is
/// authenticated afterwards, the records left, and the reply (a pop answered with the oldest
/// records it took) or the subscription.
pub open spec fn spec_serve(
    authed: bool,
    password: Option<Seq<char>>,
    items: Seq<Seq<u8>>,
    args: Seq<Seq<char>>,
) -> (bool, Seq<Seq<u8>>, StepModel) {
    let (a, step) = spec_connection_step(authed, password, args);
    match step {
        StepModel::Pop(count, has_count) => {
            let n = popped(items, count);
            (a, items.skip(n), StepModel::Reply(spec_pop_reply(items.take(n), has_count)))
        },
        _ => (a, items, step),
    }
}

/// A connection after a stream of commands: whether it is authenticated, the records left,
/// the bytes written back, and whether it went over to streaming a channel (the commands after
/// a SUBSCRIBE are read by the subscription, not here).
pub struct SessionV {
    pub authed: bool,
    pub items: Seq<Seq<u8>>,
    pub replies: Seq<u8>,
    pub subscribed: bool,
}

/// The commands `cmds` served one after another from the state (`authed`, `items`).
pub open spec fn spec_session(
    authed: bool,
    password: Option<Seq<char>>,
    items: Seq<Seq<u8>>,
    cmds: Seq<Seq<Seq<char>>>,
) -> SessionV
    decreases cmds.len(),
{
    if cmds.len() == 0 {
        SessionV { authed, items, replies: Seq::empty(), subscribed: false }
    } else {
        let (a, left, step) = spec_serve(authed, password, items, cmds[0]);
        match step {
            StepModel::Reply(b) => {
                let s = spec_session(a, password, left, cmds.drop_first());
                SessionV { authed: s.authed, items: s.items, replies: b + s.replies, subscribed: s.subscribed }
            },
            StepModel::Subscribe(_, _, reply) => SessionV {
                authed: a,
                items: left,
                replies: reply,
                subscribed: true,
            },
            StepModel::Pop(_, _) => SessionV { authed: a, items: left, replies: Seq::empty(), subscribed: false },
        }
    }
}

/// Whether a command is an AUTH.
pub open spec fn is_auth_command(args: Seq<Seq<char>>) -> bool {
    args.len() > 0 && command_word(args) == "AUTH"@
}

/// What an unauthenticated connection writes back to commands none of which is AUTH.
pub open spec fn refusals(cmds: Seq<Seq<Seq<char>>>) -> Seq<u8>
    decreases cmds.len(),
{
    if cmds.len() == 0 {
        Seq::empty()
    } else {
        (if cmds[0].len() == 0 {
            error_reply("ERR empty command"@)
        } else {
            error_reply("NOAUTH Authentication required."@)
        }) + refusals(cmds.drop_first())
    }
}

impl RespConnection {
    /// A connection that has not authenticated.
    pub fn new() -> (r: Self)
        ensures
            !r.authed,
    {
        RespConnection { authed: false }
    }

    /// Handles one command; `password` is the configured password, if any.
    pub fn handle_command(&mut self, args: &Vec<String>, password: &Option<String>) -> (r:
        ConnectionStep)
        ensures
            (final(self).authed, step_model(r)) == spec_connection_step(
                old(self).authed,
                match password {
                    Some(p) => Some(p@),
                    None => None,
                },
                strings(args@),
            ),
    {
        let ghost a = strings(args@);
        if args.len() == 0 {
            return ConnectionStep::Reply(error_bytes("ERR empty command"));
        }
        let trimmed = trim_str(args[0].as_str());
        let command = upper_vec(chars_of(trimmed.as_str()).as_slice());
        assert(command@ == command_word(a));
        let is_auth = text_is(&command, "AUTH");
        if !is_auth && !self.authed {
            return ConnectionStep::Reply(error_bytes("NOAUTH Authentication required."));
        }
        if is_auth {
            let given = match parse_auth_password(args) {
                Some(g) => g,
                None => {
                    let m = quoted(
                        "ERR wrong number of arguments for '",
                        chars_of("auth").as_slice(),
                        "' command",
                    );
                    return ConnectionStep::Reply(error_bytes(m.as_str()));
                },
            };
            if let Some(expected) = password {
                let g = chars_of(given);
                let e = chars_of(expected.as_str());
                if !chars_eq(g.as_slice(), e.as_slice()) {
                    return ConnectionStep::Reply(error_bytes("ERR invalid password"));
                }
            }
            self.authed = true;
            let mut out: Vec<u8> = Vec::new();
            write_simple_string(&mut out, "OK");
            assert(out@ =~= simple_string_reply("OK"@));
            return ConnectionStep::Reply(out);
        }
        if text_is(&command, "SUBSCRIBE") {
            if args.len() != 2 {
                let m = quoted(
                    "ERR wrong number of arguments for '",
                    chars_of("subscribe").as_slice(),
                    "' command",
                );
                return ConnectionStep::Reply(error_bytes(m.as_str()));
            }
            let channel = lower_trimmed(args[1].as_str());
            let cv = chars_of(channel.as_str());
            let queue = if text_is(&cv, "usage") {
                QueueChannel::Usage
            } else if text_is(&cv, "errors") {
                QueueChannel::Errors
            } else {
                let m = quoted("ERR unsupported channel '", cv.as_slice(), "'");
                return ConnectionStep::Reply(error_bytes(m.as_str()));
            };
            let mut reply: Vec<u8> = Vec::new();
            write_pubsub_subscribe(&mut reply, channel.as_str(), 1);
            assert(reply@ =~= subscribe_reply(channel@, 1));
            return ConnectionStep::Subscribe { channel: queue, name: channel, reply };
        }
        if text_is(&command, "LPOP") || text_is(&command, "RPOP") {
            let (channel, count, has_count) = match parse_pop_args(args) {
                Some(p) => p,
                None => {
                    let lc = lower_vec(command.as_slice());
                    let m = quoted("ERR wrong number of arguments for '", lc.as_slice(), "' command");
                    return ConnectionStep::Reply(error_bytes(m.as_str()));
                },
            };
            let cv = chars_of(channel.as_str());
            if !text_is(&cv, "usage") {
                let m = quoted("ERR unsupported channel '", cv.as_slice(), "'");
                return ConnectionStep::Reply(error_bytes(m.as_str()));
            }
            if count == 0 {
                return ConnectionStep::Reply(
                    error_bytes("ERR value is not an integer or out of range"),
                );
            }
            return ConnectionStep::Pop { count, has_count };
        }
        let lc = lower_vec(command.as_slice());
        let m = quoted("ERR unknown command '", lc.as_slice(), "'");
        ConnectionStep::Reply(error_bytes(m.as_str()))
    }
}

impl RespConnection {
    /// Serves one command against the queue: the connection's rules decide, and a pop takes
    /// the oldest buffered records and answers with them.
    pub fn serve_command(&mut self, queue: &mut UsageQueue, args: &Vec<String>, password: &Option<
        String,
    >) -> (r: ServedCommand)
        ensures
            (final(self).authed, final(queue).model().items, served_model(r)) == spec_serve(
                old(self).authed,
                password_view(*password),
                old(queue).model().items,
                strings(args@),
            ),
            final(queue).model().usage == old(queue).model().usage,
            final(queue).model().usage_got == old(queue).model().usage_got,
            final(queue).model().errors == old(queue).model().errors,
            final(queue).model().errors_got == old(queue).model().errors_got,
    {
        match self.handle_command(args, password) {
            ConnectionStep::Reply(b) => ServedCommand::Reply(b),
            ConnectionStep::Pop { count, has_count } => {
                let items = queue.pop_oldest(count);
                let reply = pop_reply(&items, has_count);
                ServedCommand::Reply(reply)
            },
            ConnectionStep::Subscribe { channel, name, reply } => ServedCommand::Subscribe {
                channel,
                name,
                reply,
            },
        }
    }
}

/// The reply to a pop of `items`.
pub fn pop_reply(items: &Vec<Vec<u8>>, has_count: bool) -> (r: Vec<u8>)
    ensures
        r@ == spec_pop_reply(byte_strings(items@), has_count),
{
    let mut out: Vec<u8> = Vec::new();
    if has_count {
        write_bulk_array(&mut out, items);
    } else if items.len() > 0 {
        write_bulk_string(&mut out, items[0].as_slice());
    } else {
        write_nil_bulk_string(&mut out);
    }
    assert(out@ =~= spec_pop_reply(byte_strings(items@), has_count));
    out
}

/// Handles one command of a connection subscribed to `channel`.
pub fn subscription_step(args: &Vec<String>, channel: &str) -> (r: SubscriptionStep)
    ensures
        match r {
            SubscriptionStep::Reply(b) => spec_subscription_step(channel@, strings(args@)) == (
                false,
                b@,
            ),
            SubscriptionStep::Close(b) => spec_subscription_step(channel@, strings(args@)) == (
                true,
                b@,
            ),
        },
{
    if args.len() == 0 {
        return SubscriptionStep::Reply(error_bytes("ERR empty command"));
    }
    let trimmed = trim_str(args[0].as_str());
    let command = upper_vec(chars_of(trimmed.as_str()).as_slice());
    let mut out: Vec<u8> = Vec::new();
    if text_is(&command, "PING") {
        if args.len() > 1 {
            write_pubsub_pong(&mut out, args[1].as_str().as_bytes());
        } else {
            let empty: Vec<u8> = Vec::new();
            write_pubsub_pong(&mut out, empty.as_slice());
        }
        assert(out@ =~= spec_subscription_step(channel@, strings(args@)).1);
        return SubscriptionStep::Reply(out);
    }
    if text_is(&command, "UNSUBSCRIBE") {
        write_pubsub_unsubscribe(&mut out, channel, 0);
        assert(out@ =~= unsubscribe_reply(channel@, 0));
        return SubscriptionStep::Close(out);
    }
    if text_is(&command, "QUIT") {
        write_simple_string(&mut out, "OK");
        assert(out@ =~= simple_string_reply("OK"@));
        return SubscriptionStep::Close(out);
    }
    let lc = lower_vec(command.as_slice());
    let m = quoted("ERR unknown command '", lc.as_slice(), "'");
    SubscriptionStep::Reply(error_bytes(m.as_str()))
}

// ---------------------------------------------------------------------------------------------
// What the parser reads back of what the encoders write
// ---------------------------------------------------------------------------------------------

proof fn lemma_decimal_bytes(n: nat)
    ensures
        decimal_bytes(n).len() > 0,
        all_digits(decimal_bytes(n)),
        digits_value(decimal_bytes(n)) == n,
    decreases n,
{
    if n >= 10 {
        lemma_decimal_bytes(n / 10);
        let d = decimal_bytes(n);
        assert(d.drop_last() =~= decimal_bytes(n / 10));
        assert forall|i: int| 0 <= i < d.len() implies is_digit_byte(#[trigger] d[i]) by {
            if i < d.len() - 1 {
                assert(d[i] == decimal_bytes(n / 10)[i]);
            }
        }
        assert(d.last() == (ZERO + n % 10) as u8);
        assert((d.last() - ZERO) as nat == n % 10);
        assert(n == (n / 10) * 10 + n % 10);
        assert(digits_value(d) == digits_value(d.drop_last()) * 10 + (d.last() - ZERO) as nat);
        assert(digits_value(d.drop_last()) == n / 10);
        assert(digits_value(d) == (n / 10) * 10 + n % 10);
    } else {
        let d = decimal_bytes(n);
        assert(d.drop_last() =~= Seq::<u8>::empty());
        assert((d.last() - ZERO) as nat == n);
        assert(digits_value(d) == digits_value(d.drop_last()) * 10 + (d.last() - ZERO) as nat);
        assert(digits_value(d.drop_last()) == 0);
    }
}

#[verifier::spinoff_prover]
#[verifier::rlimit(40)]
proof fn lemma_line_of_digits(buf: Seq<u8>, from: int, d: Seq<u8>, eof: bool)
    requires
        0 <= from,
        from + d.len() + 2 <= buf.len(),
        buf.subrange(from, from + d.len() + 2) == d + crlf(),
        d.len() > 0,
        all_digits(d),
    ensures
        read_line(buf, from, eof) == Parsed::Got(d, from + d.len() + 2),
{
    let j = from + d.len() + 1;
    assert(buf[j] == (d + crlf())[d.len() + 1 as int]);
    assert forall|k: int| from <= k < j implies buf[k] != LF by {
        assert(buf[k] == (d + crlf())[k - from]);
        if k - from < d.len() {
            assert(is_digit_byte(d[k - from]));
        }
    }
    assert(has_lf_from(buf, from));
    let f = first_lf_from(buf, from);
    if f < j {
    } else if f > j {
    }
    let line = buf.subrange(from, j + 1);
    assert(line =~= d + crlf());
    assert(is_digit_byte(d[d.len() - 1]));
    lemma_trim_crlf_of(line, d.len() as int);
    assert(line.take(d.len() as int) =~= d);
}

#[verifier::spinoff_prover]
#[verifier::rlimit(40)]
proof fn lemma_read_bulk(buf: Seq<u8>, pos: int, e: Seq<u8>, eof: bool)
    requires
        0 <= pos,
        pos + bulk_reply(e).len() <= buf.len(),
        buf.subrange(pos, pos + bulk_reply(e).len()) == bulk_reply(e),
        e.len() <= isize::MAX,
    ensures
        read_arg(buf, pos, eof) == Parsed::Got(lossy_text(e), pos + bulk_reply(e).len()),
{
    reveal(read_arg);
    let d = decimal_bytes(e.len());
    lemma_decimal_bytes(e.len());
    let b = bulk_reply(e);
    assert(buf[pos] == b[0]);
    let n = pos + 1 + d.len() + 2;
    assert(buf.subrange(pos + 1, pos + 1 + d.len() + 2) =~= d + crlf()) by {
        assert forall|k: int| 0 <= k < d.len() + 2 implies buf.subrange(
            pos + 1,
            pos + 1 + d.len() + 2,
        )[k] == (d + crlf())[k] by {
            assert(buf[pos + 1 + k] == b[1 + k]);
        }
    }
    lemma_line_of_digits(buf, pos + 1, d, eof);
    assert(is_digit_byte(d[0]));
    assert(unsigned_digits(d) == d);
    assert(parse_bulk_len(d) == Some(BulkLen::Len(e.len() as usize)));
    let len = e.len() as int;
    assert(buf[n + len] == b[n + len - pos]);
    assert(buf[n + len + 1] == b[n + len + 1 - pos]);
    assert(buf.subrange(n, n + len) =~= e) by {
        assert forall|k: int| 0 <= k < len implies buf.subrange(n, n + len)[k] == e[k] by {
            assert(buf[n + k] == b[n + k - pos]);
        }
    }
}

proof fn lemma_bulks_len(items: Seq<Seq<u8>>, k: int)
    requires
        0 <= k <= items.len(),
    ensures
        bulks(items.take(k)).len() <= bulks(items).len(),
        bulks(items) == bulks(items.take(k)) + bulks(items).subrange(bulks(items.take(k)).len() as int, bulks(items).len() as int),
    decreases items.len() - k,
{
    if k < items.len() {
        lemma_bulks_len(items, k + 1);
        assert(items.take(k + 1).drop_last() =~= items.take(k));
        let a = bulks(items.take(k));
        let b = bulks(items.take(k + 1));
        assert(b == a + bulk_reply(items[k]));
        assert(bulks(items) =~= a + bulks(items).subrange(a.len() as int, bulks(items).len() as int));
    } else {
        assert(items.take(k) =~= items);
        assert(bulks(items) =~= bulks(items) + bulks(items).subrange(bulks(items).len() as int, bulks(items).len() as int));
    }
}

/// A command that a client writes as an array of bulk strings is read back as the same
/// arguments, consuming exactly its bytes, whatever follows it.
pub proof fn law_command_round_trip(args: Seq<Seq<char>>, rest: Seq<u8>, eof: bool)
    requires
        args.len() <= usize::MAX,
        forall|i: int| 0 <= i < args.len() ==> encode_utf8(#[trigger] args[i]).len() <= isize::MAX,
    ensures
        ({
            let request = bulk_array_reply(args.map_values(|s: Seq<char>| encode_utf8(s)));
            read_command(request + rest, eof) == Parsed::Got(args, request.len() as int)
        }),
{
    let items = args.map_values(|s: Seq<char>| encode_utf8(s));
    let header = array_header(items.len());
    let request = bulk_array_reply(items);
    let buf = request + rest;
    let d = decimal_bytes(items.len());
    lemma_decimal_bytes(items.len());
    assert(buf[0] == STAR);
    let dl = d.len() as int;
    assert(buf.subrange(1, 1 + dl + 2) =~= d + crlf()) by {
        assert forall|k: int| 0 <= k < dl + 2 implies buf.subrange(1, 1 + dl + 2)[k]
            == (d + crlf())[k] by {
            assert(buf[1 + k] == header[1 + k]);
        }
    }
    lemma_line_of_digits(buf, 1, d, eof);
    assert(is_digit_byte(d[0]));
    assert(unsigned_digits(d) == d);
    let h = header.len() as int;
    assert forall|k: int| 0 <= k <= items.len() implies read_args(buf, h, k as nat, eof)
        == Parsed::Got(args.take(k), h + bulks(items.take(k)).len()) by {
        lemma_read_args_prefix(args, items, rest, eof, k);
    }
    assert(args.take(args.len() as int) =~= args);
    assert(items.take(items.len() as int) =~= items);
}

proof fn lemma_read_args_prefix(
    args: Seq<Seq<char>>,
    items: Seq<Seq<u8>>,
    rest: Seq<u8>,
    eof: bool,
    k: int,
)
    requires
        items == args.map_values(|s: Seq<char>| encode_utf8(s)),
        forall|i: int| 0 <= i < args.len() ==> encode_utf8(#[trigger] args[i]).len() <= isize::MAX,
        0 <= k <= items.len(),
    ensures
        ({
            let buf = bulk_array_reply(items) + rest;
            let h = array_header(items.len()).len() as int;
            read_args(buf, h, k as nat, eof) == Parsed::Got(
                args.take(k),
                h + bulks(items.take(k)).len(),
            )
        }),
    decreases k,
{
    let buf = bulk_array_reply(items) + rest;
    let header = array_header(items.len());
    let h = header.len() as int;
    if k == 0 {
        assert(args.take(0) =~= Seq::<Seq<char>>::empty());
        assert(items.take(0) =~= Seq::<Seq<u8>>::empty());
    } else {
        lemma_read_args_prefix(args, items, rest, eof, k - 1);
        let p = h + bulks(items.take(k - 1)).len();
        let e = items[k - 1];
        assert(items.take(k).drop_last() =~= items.take(k - 1));
        let bk = bulks(items.take(k));
        assert(bk == bulks(items.take(k - 1)) + bulk_reply(e));
        lemma_bulks_len(items, k);
        let whole = bulks(items);
        assert(buf.subrange(p, p + bulk_reply(e).len()) =~= bulk_reply(e)) by {
            assert forall|q: int| 0 <= q < bulk_reply(e).len() implies buf.subrange(
                p,
                p + bulk_reply(e).len(),
            )[q] == bulk_reply(e)[q] by {
                let at = bulks(items.take(k - 1)).len() + q;
                assert(bk[at] == bulk_reply(e)[q]);
                assert(whole[at] == bk[at]);
                assert(buf[p + q] == whole[at]);
            }
        }
        assert(e == encode_utf8(args[k - 1]));
        lemma_read_bulk(buf, p, e, eof);
        vstd::utf8::encode_utf8_valid_utf8(args[k - 1]);
        vstd::utf8::encode_utf8_decode_utf8(args[k - 1]);
        assert(args.take(k) =~= args.take(k - 1).push(args[k - 1]));
    }
}

/// Until a connection authenticates, nothing it sends pops a record or subscribes it: to a
/// stream of commands none of which is AUTH, every command is refused (an empty command as
/// empty, any other as needing authentication) and the queue is left as it was.
pub proof fn law_session_needs_auth(
    password: Option<Seq<char>>,
    items: Seq<Seq<u8>>,
    cmds: Seq<Seq<Seq<char>>>,
)
    requires
        forall|i: int| 0 <= i < cmds.len() ==> !is_auth_command(#[trigger] cmds[i]),
    ensures
        spec_session(false, password, items, cmds) == (SessionV {
            authed: false,
            items,
            replies: refusals(cmds),
            subscribed: false,
        }),
    decreases cmds.len(),
{
    if cmds.len() > 0 {
        assert(!is_auth_command(cmds[0]));
        let rest = cmds.drop_first();
        assert forall|i: int| 0 <= i < rest.len() implies !is_auth_command(#[trigger] rest[i]) by {
            assert(rest[i] == cmds[i + 1]);
        }
        law_session_needs_auth(password, items, rest);
    }
}

/// A stream of commands only ever takes the oldest buffered records: what is left is the
/// buffer without some number of its first records.
pub proof fn law_session_takes_oldest(
    authed: bool,
    password: Option<Seq<char>>,
    items: Seq<Seq<u8>>,
    cmds: Seq<Seq<Seq<char>>>,
)
    ensures
        exists|k: int|
            0 <= k <= items.len() && spec_session(authed, password, items, cmds).items
                == items.skip(k),
    decreases cmds.len(),
{
    if cmds.len() == 0 {
        assert(items.skip(0) =~= items);
    } else {
        let (a, left, step) = spec_serve(authed, password, items, cmds[0]);
        let (a1, st) = spec_connection_step(authed, password, cmds[0]);
        let n: int = match st {
            StepModel::Pop(count, _) => popped(items, count),
            _ => 0,
        };
        assert(left =~= items.skip(n));
        match step {
            StepModel::Reply(_) => {
                law_session_takes_oldest(a, password, left, cmds.drop_first());
                let k = choose|k: int|
                    0 <= k <= left.len() && spec_session(
                        a,
                        password,
                        left,
                        cmds.drop_first(),
                    ).items == left.skip(k);
                assert(left.skip(k) =~= items.skip(n + k));
            },
            _ => {},
        }
    }
}

/// With a password configured, a connection that never sends it stays unauthenticated and
/// leaves the queue as it was, whatever else it sends.
pub proof fn law_wrong_password_keeps_queue(
    password: Seq<char>,
    items: Seq<Seq<u8>>,
    cmds: Seq<Seq<Seq<char>>>,
)
    requires
        forall|i: int|
            0 <= i < cmds.len() ==> spec_auth_password(#[trigger] cmds[i]) != Some(password),
    ensures
        !spec_session(false, Some(password), items, cmds).authed,
        spec_session(false, Some(password), items, cmds).items == items,
        !spec_session(false, Some(password), items, cmds).subscribed,
    decreases cmds.len(),
{
    if cmds.len() > 0 {
        assert(spec_auth_password(cmds[0]) != Some(password));
        let rest = cmds.drop_first();
        assert forall|i: int| 0 <= i < rest.len() implies spec_auth_password(#[trigger] rest[i])
            != Some(password) by {
            assert(rest[i] == cmds[i + 1]);
        }
        law_wrong_password_keeps_queue(password, items, rest);
    }
}

} // verus!
