//! Byte-level scanning of one raw request buffer: the request line and its
//! two tokens, the brace-delimited body candidate, and the decimal task
//! identifier taken from the path.
//!
//! The buffer is scanned as bytes. Every byte the scanner cares about —
//! line feeds, whitespace, braces, digits, the route names — is ASCII, and
//! ASCII bytes stand for themselves in any text the buffer may hold.

use vstd::prelude::*;

verus! {

/// The whitespace bytes the request line is split on (the ASCII characters
/// `str::split_whitespace` splits on).
pub open spec fn is_ws(b: u8) -> bool {
    b == 32 || b == 9 || b == 10 || b == 11 || b == 12 || b == 13
}

fn is_ws_exec(b: u8) -> (r: bool)
    ensures
        r == is_ws(b),
{
    b == 32 || b == 9 || b == 10 || b == 11 || b == 12 || b == 13
}

/// The first line of the buffer: everything before the first line feed
/// (the whole buffer when there is none), with a carriage return stripped
/// from a line-feed-terminated line.
pub open spec fn first_line(s: Seq<u8>) -> Seq<u8> {
    match s.index_of_first(10u8) {
        Some(i) => if i > 0 && s[i - 1] == 13 {
            s.subrange(0, i - 1)
        } else {
            s.subrange(0, i)
        },
        None => s,
    }
}

/// The first position at or after `i` holding a non-whitespace byte, or the
/// length when there is none.
pub open spec fn skip_ws(s: Seq<u8>, i: int) -> int
    decreases s.len() - i,
{
    if i < 0 || i >= s.len() {
        s.len() as int
    } else if is_ws(s[i]) {
        skip_ws(s, i + 1)
    } else {
        i
    }
}

/// The first position at or after `i` holding a whitespace byte, or the
/// length when there is none.
pub open spec fn token_end(s: Seq<u8>, i: int) -> int
    decreases s.len() - i,
{
    if i < 0 || i >= s.len() {
        s.len() as int
    } else if !is_ws(s[i]) {
        token_end(s, i + 1)
    } else {
        i
    }
}

pub proof fn lemma_skip_ws_bounds(s: Seq<u8>, i: int)
    requires
        0 <= i <= s.len(),
    ensures
        i <= skip_ws(s, i) <= s.len(),
    decreases s.len() - i,
{
    if i < s.len() && is_ws(s[i]) {
        lemma_skip_ws_bounds(s, i + 1);
    }
}

pub proof fn lemma_token_end_bounds(s: Seq<u8>, i: int)
    requires
        0 <= i <= s.len(),
    ensures
        i <= token_end(s, i) <= s.len(),
    decreases s.len() - i,
{
    if i < s.len() && !is_ws(s[i]) {
        lemma_token_end_bounds(s, i + 1);
    }
}

/// The first whitespace-separated token of the request line: the method.
pub open spec fn method_of(line: Seq<u8>) -> Seq<u8> {
    let a = skip_ws(line, 0);
    line.subrange(a, token_end(line, a))
}

/// The second whitespace-separated token of the request line: the path
/// (empty when the line has fewer than two tokens).
pub open spec fn path_of(line: Seq<u8>) -> Seq<u8> {
    let a = skip_ws(line, 0);
    let b = token_end(line, a);
    let c = skip_ws(line, b);
    line.subrange(c, token_end(line, c))
}

fn skip_ws_exec(s: &[u8], i: usize) -> (r: usize)
    requires
        i <= s@.len(),
    ensures
        r as int == skip_ws(s@, i as int),
        i <= r <= s@.len(),
{
    let mut j = i;
    while j < s.len() && is_ws_exec(s[j])
        invariant
            i <= j <= s@.len(),
            skip_ws(s@, i as int) == skip_ws(s@, j as int),
        decreases s@.len() - j,
    {
        j = j + 1;
    }
    j
}

fn token_end_exec(s: &[u8], i: usize) -> (r: usize)
    requires
        i <= s@.len(),
    ensures
        r as int == token_end(s@, i as int),
        i <= r <= s@.len(),
{
    let mut j = i;
    while j < s.len() && !is_ws_exec(s[j])
        invariant
            i <= j <= s@.len(),
            token_end(s@, i as int) == token_end(s@, j as int),
        decreases s@.len() - j,
    {
        j = j + 1;
    }
    j
}

/// A copy of `s[a..b]`.
pub fn subrange_vec(s: &[u8], a: usize, b: usize) -> (r: Vec<u8>)
    requires
        a <= b <= s@.len(),
    ensures
        r@ == s@.subrange(a as int, b as int),
{
    let mut r: Vec<u8> = Vec::new();
    let mut i = a;
    while i < b
        invariant
            a <= i <= b <= s@.len(),
            r@ =~= s@.subrange(a as int, i as int),
        decreases b - i,
    {
        r.push(s[i]);
        proof {
            assert(r@ =~= s@.subrange(a as int, i + 1));
        }
        i = i + 1;
    }
    r
}

/// The position of the first occurrence of `b`, if any.
pub fn find_first_byte(s: &[u8], b: u8) -> (r: Option<usize>)
    ensures
        match r {
            Some(i) => s@.index_of_first(b) == Some(i as int),
            None => s@.index_of_first(b) is None,
        },
{
    proof {
        s@.index_of_first_ensures(b);
    }
    let mut i: usize = 0;
    while i < s.len()
        invariant
            i <= s@.len(),
            forall|j: int| 0 <= j < i ==> s@[j] != b,
        decreases s@.len() - i,
    {
        if s[i] == b {
            proof {
                s@.index_of_first_ensures(b);
                if s@.index_of_first(b) is None {
                    assert(s@[i as int] != b);
                }
                let k = s@.index_of_first(b)->Some_0;
                if k < i {
                    assert(s@[k] != b);
                } else if k > i {
                    assert(s@[i as int] != b);
                }
            }
            return Some(i);
        }
        i = i + 1;
    }
    proof {
        s@.index_of_first_ensures(b);
        match s@.index_of_first(b) {
            Some(k) => {
                assert(s@[k] != b);
            },
            None => {},
        }
    }
    None
}

/// The position of the last occurrence of `b`, if any.
pub fn find_last_byte(s: &[u8], b: u8) -> (r: Option<usize>)
    ensures
        match r {
            Some(i) => s@.index_of_last(b) == Some(i as int),
            None => s@.index_of_last(b) is None,
        },
{
    let mut i: usize = s.len();
    while i > 0
        invariant
            i <= s@.len(),
            forall|j: int| i <= j < s@.len() ==> s@[j] != b,
        decreases i,
    {
        i = i - 1;
        if s[i] == b {
            proof {
                s@.index_of_last_ensures(b);
                if s@.index_of_last(b) is None {
                    assert(s@[i as int] != b);
                }
                let k = s@.index_of_last(b)->Some_0;
                if k < i {
                    assert(s@[i as int] != b);
                } else if k > i {
                    assert(s@[k] != b);
                }
            }
            return Some(i);
        }
    }
    proof {
        s@.index_of_last_ensures(b);
        match s@.index_of_last(b) {
            Some(k) => {
                assert(s@[k] != b);
            },
            None => {},
        }
    }
    None
}

/// Whether two byte strings hold the same bytes.
pub fn bytes_eq(a: &[u8], b: &[u8]) -> (r: bool)
    ensures
        r == (a@ == b@),
{
    if a.len() != b.len() {
        proof {
            if a@ == b@ {
                assert(a@.len() == b@.len());
            }
        }
        return false;
    }
    let mut i: usize = 0;
    while i < a.len()
        invariant
            i <= a@.len(),
            a@.len() == b@.len(),
            forall|j: int| 0 <= j < i ==> a@[j] == b@[j],
        decreases a@.len() - i,
    {
        if a[i] != b[i] {
            proof {
                if a@ == b@ {
                    assert(a@[i as int] == b@[i as int]);
                }
            }
            return false;
        }
        i = i + 1;
    }
    proof {
        assert(a@ =~= b@);
    }
    true
}

/// Whether `a` begins with the bytes of `p`.
pub fn bytes_starts_with(a: &[u8], p: &[u8]) -> (r: bool)
    ensures
        r == (a@.len() >= p@.len() && a@.subrange(0, p@.len() as int) == p@),
{
    if a.len() < p.len() {
        return false;
    }
    let mut i: usize = 0;
    while i < p.len()
        invariant
            i <= p@.len() <= a@.len(),
            forall|j: int| 0 <= j < i ==> a@[j] == p@[j],
        decreases p@.len() - i,
    {
        if a[i] != p[i] {
            proof {
                if a@.subrange(0, p@.len() as int) == p@ {
                    assert(a@.subrange(0, p@.len() as int)[i as int] == p@[i as int]);
                }
            }
            return false;
        }
        i = i + 1;
    }
    proof {
        assert(a@.subrange(0, p@.len() as int) =~= p@);
    }
    true
}

/// The request line's two tokens: the method and the path, each a copy.
pub fn request_line_tokens(input: &[u8]) -> (r: (Vec<u8>, Vec<u8>))
    ensures
        r.0@ == method_of(first_line(input@)),
        r.1@ == path_of(first_line(input@)),
{
    proof {
        input@.index_of_first_ensures(10u8);
    }
    let line_end: usize = match find_first_byte(input, 10) {
        Some(i) => {
            if i > 0 && input[i - 1] == 13 {
                i - 1
            } else {
                i
            }
        },
        None => input.len(),
    };
    proof {
        assert(first_line(input@) =~= input@.subrange(0, line_end as int));
    }
    let a = skip_ws_exec(input, 0);
    let ghost line = first_line(input@);
    let a = if a > line_end {
        line_end
    } else {
        a
    };
    proof {
        lemma_skip_ws_restrict(input@, line_end as int, 0);
    }
    let b = token_end_exec(input, a);
    let b = if b > line_end {
        line_end
    } else {
        b
    };
    proof {
        lemma_token_end_restrict(input@, line_end as int, skip_ws(line, 0));
        lemma_skip_ws_bounds(line, 0);
        lemma_token_end_bounds(line, skip_ws(line, 0));
    }
    let method = subrange_vec(input, a, b);
    let c = skip_ws_exec(input, b);
    let c = if c > line_end {
        line_end
    } else {
        c
    };
    proof {
        lemma_skip_ws_restrict(input@, line_end as int, token_end(line, skip_ws(line, 0)));
    }
    let d = token_end_exec(input, c);
    let d = if d > line_end {
        line_end
    } else {
        d
    };
    proof {
        lemma_token_end_restrict(
            input@,
            line_end as int,
            skip_ws(line, token_end(line, skip_ws(line, 0))),
        );
        lemma_skip_ws_bounds(line, token_end(line, skip_ws(line, 0)));
        lemma_token_end_bounds(line, skip_ws(line, token_end(line, skip_ws(line, 0))));
    }
    let path = subrange_vec(input, c, d);
    proof {
        assert(method@ =~= method_of(line));
        assert(path@ =~= path_of(line));
    }
    (method, path)
}

/// Scanning the whole buffer and scanning its first line agree on `skip_ws`
/// while the result stays inside the line; past the line's end the line scan
/// stops at the line's length while the buffer scan may go on, but only
/// through whitespace — the line ends at a line feed (or at the buffer's
/// end), and everything the line scan would have to skip, the buffer scan
/// skips too.
proof fn lemma_skip_ws_restrict(s: Seq<u8>, line_end: int, i: int)
    requires
        0 <= i,
        0 <= line_end <= s.len(),
        first_line(s) == s.subrange(0, line_end),
        i <= line_end,
    ensures
        skip_ws(s, i) < line_end ==> skip_ws(s.subrange(0, line_end), i) == skip_ws(s, i),
        skip_ws(s, i) >= line_end ==> skip_ws(s.subrange(0, line_end), i) == line_end,
    decreases line_end - i,
{
    let line = s.subrange(0, line_end);
    lemma_skip_ws_bounds(s, i);
    lemma_skip_ws_bounds(line, i);
    if i < line_end {
        if is_ws(s[i]) {
            lemma_skip_ws_restrict(s, line_end, i + 1);
        }
    } else {
        if i < s.len() && is_ws(s[i]) {
            lemma_line_end_boundary(s, line_end, i);
        }
    }
}

/// The same restriction property for `token_end`: a token inside the first
/// line ends at the same place whether the line or the whole buffer is
/// scanned, because the line feed that ends the line is itself whitespace.
proof fn lemma_token_end_restrict(s: Seq<u8>, line_end: int, i: int)
    requires
        0 <= i,
        0 <= line_end <= s.len(),
        first_line(s) == s.subrange(0, line_end),
        i <= line_end,
    ensures
        token_end(s, i) < line_end ==> token_end(s.subrange(0, line_end), i) == token_end(s, i),
        token_end(s, i) >= line_end ==> token_end(s.subrange(0, line_end), i) == line_end,
    decreases line_end - i,
{
    let line = s.subrange(0, line_end);
    lemma_token_end_bounds(s, i);
    lemma_token_end_bounds(line, i);
    if i < line_end {
        if !is_ws(s[i]) {
            lemma_token_end_restrict(s, line_end, i + 1);
        }
    } else {
        assert(i == line_end);
        if i < s.len() && !is_ws(s[i]) {
            lemma_line_end_boundary(s, line_end, i);
        }
    }
}

/// Why a body candidate could not be cut out of the buffer.
#[derive(Clone, Copy, PartialEq, Eq, Structural, Debug)]
pub enum BodyError {
    MissingOpen,
    MissingClose,
}

/// The body candidate: the bytes from the first `{` to the last `}` of the
/// whole buffer, both included. With no `{` the opening brace is missing;
/// with no `}` at all, or none after the first `{`, the closing brace is.
/// The candidate always starts with `{` and ends with `}`, so there is no
/// buffer padding or surrounding whitespace left to strip from it.
pub open spec fn body_span(s: Seq<u8>) -> Result<Seq<u8>, BodyError> {
    match s.index_of_first(123u8) {
        None => Err(BodyError::MissingOpen),
        Some(a) => match s.index_of_last(125u8) {
            None => Err(BodyError::MissingClose),
            Some(b) => if a <= b {
                Ok(s.subrange(a, b + 1))
            } else {
                Err(BodyError::MissingClose)
            },
        },
    }
}

/// Cuts the body candidate out of the buffer, as `body_span` describes.
pub fn extract_body(s: &[u8]) -> (r: Result<Vec<u8>, BodyError>)
    ensures
        match r {
            Ok(b) => body_span(s@) == Ok::<Seq<u8>, BodyError>(b@),
            Err(e) => body_span(s@) == Err::<Seq<u8>, BodyError>(e),
        },
{
    proof {
        s@.index_of_first_ensures(123u8);
        s@.index_of_last_ensures(125u8);
    }
    match find_first_byte(s, 123) {
        None => Err(BodyError::MissingOpen),
        Some(a) => match find_last_byte(s, 125) {
            None => Err(BodyError::MissingClose),
            Some(b) => {
                if a <= b {
                    let n = s.len();
                    proof {
                        assert(s@.index_of_last(125u8) == Some(b as int));
                        assert((b as int) < s@.len());
                        assert(b < n);
                    }
                    Ok(subrange_vec(s, a, b + 1))
                } else {
                    Err(BodyError::MissingClose)
                }
            },
        },
    }
}

/// A decimal digit byte.
pub open spec fn is_digit(b: u8) -> bool {
    48 <= b <= 57
}

pub open spec fn all_digits(s: Seq<u8>) -> bool {
    forall|i: int| 0 <= i < s.len() ==> is_digit(#[trigger] s[i])
}

/// The number a digit string denotes.
pub open spec fn dec_value(s: Seq<u8>) -> int
    decreases s.len(),
{
    if s.len() == 0 {
        0
    } else {
        dec_value(s.drop_last()) * 10 + (s.last() - 48)
    }
}

/// The digits of a decimal literal: everything after one optional leading
/// plus sign (the sign `u32` parsing accepts).
pub open spec fn digits_of(s: Seq<u8>) -> Seq<u8> {
    if s.len() > 0 && s[0] == 43 {
        s.drop_first()
    } else {
        s
    }
}

/// What parsing the bytes as a `u32` yields: the denoted number when the
/// bytes are an optional plus sign followed by one or more decimal digits
/// and the number fits; nothing otherwise.
pub open spec fn parse_u32_spec(s: Seq<u8>) -> Option<u32> {
    let d = digits_of(s);
    if d.len() > 0 && all_digits(d) && dec_value(d) <= u32::MAX {
        Some(dec_value(d) as u32)
    } else {
        None
    }
}

/// A digit string denotes at least as much as any of its prefixes.
proof fn lemma_dec_value_bounds(s: Seq<u8>, k: int)
    requires
        all_digits(s),
        0 <= k <= s.len(),
    ensures
        0 <= dec_value(s.take(k)) <= dec_value(s),
    decreases s.len() - k,
{
    lemma_dec_value_nonneg(s.take(k));
    if k < s.len() {
        lemma_dec_value_bounds(s, k + 1);
        assert(s.take(k + 1).drop_last() =~= s.take(k));
        assert(s.take(k + 1).last() == s[k]);
        lemma_dec_value_nonneg(s.take(k));
    } else {
        assert(s.take(k) =~= s);
    }
}

proof fn lemma_dec_value_nonneg(s: Seq<u8>)
    requires
        all_digits(s),
    ensures
        dec_value(s) >= 0,
    decreases s.len(),
{
    if s.len() > 0 {
        assert(all_digits(s.drop_last())) by {
            assert(forall|i: int|
                0 <= i < s.len() - 1 ==> s.drop_last()[i] == #[trigger] s[i]);
        }
        lemma_dec_value_nonneg(s.drop_last());
    }
}

/// Parses the bytes as a `u32`, exactly as `parse_u32_spec` describes.
pub fn parse_u32(s: &[u8]) -> (r: Option<u32>)
    ensures
        r == parse_u32_spec(s@),
{
    let ghost d = digits_of(s@);
    let start: usize = if s.len() > 0 && s[0] == 43 {
        1
    } else {
        0
    };
    proof {
        assert(d =~= s@.subrange(start as int, s@.len() as int));
    }
    if s.len() == start {
        return None;
    }
    let mut acc: u64 = 0;
    let mut i: usize = start;
    while i < s.len()
        invariant
            start <= i <= s@.len(),
            d == digits_of(s@),
            d == s@.subrange(start as int, s@.len() as int),
            all_digits(d.take(i - start)),
            acc == dec_value(d.take(i - start)),
            acc <= u32::MAX,
        decreases s@.len() - i,
    {
        let b = s[i];
        if b < 48 || b > 57 {
            proof {
                assert(d[i - start] == s@[i as int]);
                assert(!is_digit(d[i - start]));
                assert(!all_digits(d));
            }
            return None;
        }
        proof {
            assert(d.take(i + 1 - start).drop_last() =~= d.take(i - start));
            assert(d.take(i + 1 - start).last() == s@[i as int]);
            assert(all_digits(d.take(i + 1 - start)));
        }
        acc = acc * 10 + ((b - 48) as u64);
        i = i + 1;
        proof {
            assert(acc == dec_value(d.take(i - start)));
        }
        if acc > (u32::MAX as u64) {
            proof {
                if all_digits(d) {
                    lemma_dec_value_bounds(d, i - start);
                    assert(dec_value(d) >= dec_value(d.take(i - start)));
                    assert(dec_value(d) > u32::MAX);
                }
                assert(parse_u32_spec(s@) is None);
            }
            return None;
        }
    }
    proof {
        assert(d.take(i - start) =~= d);
    }
    Some(acc as u32)
}

/// Right after the first line there is either nothing or whitespace: the
/// line is ended by a line feed, possibly preceded by a carriage return,
/// both of which are whitespace bytes.
proof fn lemma_line_end_boundary(s: Seq<u8>, line_end: int, i: int)
    requires
        0 <= line_end <= s.len(),
        first_line(s) == s.subrange(0, line_end),
        i == line_end,
        i < s.len(),
    ensures
        is_ws(s[i]),
{
    s.index_of_first_ensures(10u8);
    match s.index_of_first(10u8) {
        Some(k) => {
            if k > 0 && s[k - 1] == 13 {
                assert(first_line(s).len() == k - 1);
                assert(line_end == k - 1);
            } else {
                assert(first_line(s).len() == k);
                assert(line_end == k);
            }
        },
        None => {
            assert(first_line(s).len() == s.len());
        },
    }
}

} // verus!
