//! HTTP/1.1 message framing over a byte buffer.
use vstd::prelude::*;
use vstd::utf8::*;
use vstd::slice::slice_subrange;
use crate::scan::{bytes_at, find_bytes, find_from, lemma_find_from, match_at};
use crate::text::{
    chars_of, eq_ignore_case, find_char, first_index, lemma_split_nonempty, parse_bounded,
    parse_unsigned, range_eq, range_eq_ignore_case, split_ranges, split_seq, string_of, trim_range,
    trim_seq, utf8_to_string,
};
use super::policy::{
    any_piece, any_piece_in, capture_body, capture_spec, decision_spec, decision_view,
    header_value, header_value_spec, headers_view, payload_decision, PayloadDecision,
};
use super::{HttpBody, HttpRequest, HttpResponse, HttpVersion, RequestView, ResponseView};

verus! {

pub const MAX_HEADER_BYTES: usize = 64 * 1024;

pub const MAX_MESSAGE_BYTES: usize = 1024 * 1024;

#[derive(Debug, Clone, PartialEq, Eq)]
pub enum HttpParseResult<T> {
    Incomplete,
    Invalid,
    Complete { message: T, consumed: usize },
}

pub open spec fn crlf() -> Seq<u8> {
    seq![13u8, 10u8]
}

pub open spec fn crlf_crlf() -> Seq<u8> {
    seq![13u8, 10u8, 13u8, 10u8]
}

pub open spec fn lf_lf() -> Seq<u8> {
    seq![10u8, 10u8]
}

/// `str::trim_end_matches('\r')`.
pub open spec fn trim_cr(s: Seq<char>) -> Seq<char>
    decreases s.len(),
{
    if s.len() > 0 && s.last() == '\r' {
        trim_cr(s.drop_last())
    } else {
        s
    }
}

/// How the header block of a buffer reads.
pub enum HeadSplit {
    /// The header block is too large or not UTF-8.
    Invalid,
    /// The blank line that ends the header block has not arrived.
    Pending,
    /// The header block ends at the given offset and holds these lines.
    Found(int, Seq<Seq<char>>),
}

/// The end of the header block and the length of its delimiter.
pub open spec fn head_end(buf: Seq<u8>) -> Option<(int, int)> {
    match find_from(buf, crlf_crlf(), 0) {
        Some(i) => Some((i + 4, 4)),
        None => match find_from(buf, lf_lf(), 0) {
            Some(i) => Some((i + 2, 2)),
            None => None,
        },
    }
}

pub open spec fn header_lines_spec(buf: Seq<u8>) -> HeadSplit {
    match head_end(buf) {
        None => if buf.len() >= MAX_HEADER_BYTES {
            HeadSplit::Invalid
        } else {
            HeadSplit::Pending
        },
        Some((end, delimiter)) => {
            let block = buf.subrange(0, end - delimiter);
            if end > MAX_HEADER_BYTES || !valid_utf8(block) {
                HeadSplit::Invalid
            } else {
                HeadSplit::Found(
                    end,
                    split_seq(decode_utf8(block), '\n').map_values(|l: Seq<char>| trim_cr(l)),
                )
            }
        },
    }
}

/// An RFC 9110 token character.
pub open spec fn tchar(c: char) -> bool {
    ('0' <= c && c <= '9') || ('a' <= c && c <= 'z') || ('A' <= c && c <= 'Z') || c == '!' || c
        == '#' || c == '$' || c == '%' || c == '&' || c == '\'' || c == '*' || c == '+' || c == '-'
        || c == '.' || c == '^' || c == '_' || c == '`' || c == '|' || c == '~'
}

pub open spec fn is_token(s: Seq<char>) -> bool {
    s.len() > 0 && forall|i: int| 0 <= i < s.len() ==> tchar(#[trigger] s[i])
}

/// Method and target of a request line `METHOD SP TARGET SP HTTP/1.1`.
pub open spec fn request_line(l: Seq<char>) -> Option<(Seq<char>, Seq<char>)> {
    match first_index(l, ' ') {
        None => None,
        Some(a) => {
            let method = l.subrange(0, a);
            let rest = l.subrange(a + 1, l.len() as int);
            match first_index(rest, ' ') {
                None => None,
                Some(b) => {
                    let path = rest.subrange(0, b);
                    let version = rest.subrange(b + 1, rest.len() as int);
                    if method.len() > 0 && path.len() > 0 && version == "HTTP/1.1"@ && is_token(
                        method,
                    ) {
                        Some((method, path))
                    } else {
                        None
                    }
                },
            }
        },
    }
}

/// Status and reason of a status line `HTTP/1.1 SP NNN [SP REASON]`.
pub open spec fn response_line(l: Seq<char>) -> Option<(u16, Seq<char>)> {
    match first_index(l, ' ') {
        None => None,
        Some(a) => {
            let version = l.subrange(0, a);
            let rest = l.subrange(a + 1, l.len() as int);
            let status = match first_index(rest, ' ') {
                Some(b) => rest.subrange(0, b),
                None => rest,
            };
            let reason = match first_index(rest, ' ') {
                Some(b) => rest.subrange(b + 1, rest.len() as int),
                None => Seq::empty(),
            };
            if version != "HTTP/1.1"@ || status.len() != 3 {
                None
            } else {
                match parse_bounded(status, 10, 65535) {
                    Some(code) => Some((code as u16, reason)),
                    None => None,
                }
            }
        },
    }
}

/// Headers read so far, the declared content length, and whether the body is chunked.
pub type HeaderState = (Seq<(Seq<char>, Seq<char>)>, Option<usize>, bool);

/// One header line applied to the state, or `None` when the line is malformed.
pub open spec fn header_step(acc: HeaderState, line: Seq<char>) -> Option<HeaderState> {
    if line.len() == 0 {
        Some(acc)
    } else {
        match first_index(line, ':') {
            None => None,
            Some(c) => {
                let name = line.subrange(0, c);
                let value = trim_seq(line.subrange(c + 1, line.len() as int));
                let length: Option<Option<usize>> = if eq_ignore_case(name, "content-length"@) {
                    match parse_bounded(value, 10, usize::MAX as nat) {
                        None => None,
                        Some(n) => if n > MAX_MESSAGE_BYTES {
                            None
                        } else if acc.1 matches Some(e) && e != n {
                            None
                        } else {
                            Some(Some(n as usize))
                        },
                    }
                } else {
                    Some(acc.1)
                };
                if !is_token(name) {
                    None
                } else {
                    match length {
                        None => None,
                        Some(cl) => Some(
                            (
                                acc.0.push((name, value)),
                                cl,
                                acc.2 || (eq_ignore_case(name, "transfer-encoding"@) && any_piece(
                                    value,
                                    ',',
                                    "chunked"@,
                                    true,
                                )),
                            ),
                        ),
                    }
                }
            },
        }
    }
}

pub open spec fn headers_fold(acc: HeaderState, lines: Seq<Seq<char>>) -> Option<HeaderState>
    decreases lines.len(),
{
    if lines.len() == 0 {
        Some(acc)
    } else {
        match header_step(acc, lines[0]) {
            None => None,
            Some(next) => headers_fold(next, lines.drop_first()),
        }
    }
}

pub open spec fn parse_headers_spec(lines: Seq<Seq<char>>) -> Option<HeaderState> {
    headers_fold((Seq::empty(), None, false), lines)
}

/// The size announced by the chunk-size line `buf[cursor..line_end]`.
pub open spec fn chunk_size(buf: Seq<u8>, cursor: int, line_end: int) -> Option<nat> {
    let raw = buf.subrange(cursor, line_end);
    if !valid_utf8(raw) {
        None
    } else {
        parse_bounded(trim_seq(split_seq(decode_utf8(raw), ';')[0]), 16, usize::MAX as nat)
    }
}

/// Where a chunked body that starts at `cursor` ends (trailers included);
/// `usize::MAX` marks a malformed body, `None` one still arriving.
pub open spec fn chunked_end(buf: Seq<u8>, cursor: int) -> Option<int>
    decreases buf.len() - cursor,
{
    if cursor < 0 {
        None
    } else {
        match find_from(buf, crlf(), cursor) {
            None => None,
            Some(line_end) => match chunk_size(buf, cursor, line_end) {
                None => None,
                Some(size) => {
                    let next = line_end + 2;
                    if size > MAX_MESSAGE_BYTES {
                        Some(usize::MAX as int)
                    } else if size == 0 {
                        if match_at(buf, crlf(), next) {
                            Some(next + 2)
                        } else {
                            match find_from(buf, crlf_crlf(), next) {
                                None => None,
                                Some(t) => Some(t + 4),
                            }
                        }
                    } else if next + size + 2 > usize::MAX {
                        None
                    } else if next + size + 2 > buf.len() {
                        None
                    } else if !match_at(buf, crlf(), next + size) {
                        Some(usize::MAX as int)
                    } else {
                        proof {
                            lemma_find_from(buf, crlf(), cursor);
                        }
                        chunked_end(buf, next + size + 2)
                    }
                },
            },
        }
    }
}

/// Where a message whose header block ends at `header_end` ends.
pub open spec fn body_end_spec(buf: Seq<u8>, header_end: int, length: Option<usize>, chunked: bool) -> Option<
    int,
> {
    if chunked {
        chunked_end(buf, header_end)
    } else {
        let consumed = header_end + match length {
            Some(n) => n as int,
            None => 0,
        };
        if consumed > usize::MAX {
            None
        } else if consumed > MAX_MESSAGE_BYTES {
            Some(usize::MAX as int)
        } else if buf.len() >= consumed {
            Some(consumed)
        } else {
            None
        }
    }
}

/// Status codes whose responses carry no body.
pub open spec fn bodiless_status(status: u16) -> bool {
    (100 <= status && status < 200) || status == 204 || status == 304
}

/// What `parse_request_frame` gives for a buffer.
pub open spec fn request_frame(buf: Seq<u8>) -> HttpParseResult<RequestView> {
    match header_lines_spec(buf) {
        HeadSplit::Invalid => HttpParseResult::Invalid,
        HeadSplit::Pending => HttpParseResult::Incomplete,
        HeadSplit::Found(end, lines) => match request_line(lines[0]) {
            None => HttpParseResult::Invalid,
            Some((method, path)) => match parse_headers_spec(lines.drop_first()) {
                None => HttpParseResult::Invalid,
                Some((headers, length, chunked)) => match body_end_spec(buf, end, length, chunked) {
                    None => HttpParseResult::Incomplete,
                    Some(consumed) => if consumed >= usize::MAX {
                        HttpParseResult::Invalid
                    } else {
                        HttpParseResult::Complete {
                            message: RequestView {
                                method,
                                host: header_value_spec(headers, "host"@),
                                path,
                                headers,
                                content_length: length,
                                body: capture_spec(headers, length, buf.subrange(end, consumed)),
                            },
                            consumed: consumed as usize,
                        }
                    },
                },
            },
        },
    }
}

/// What `parse_response_frame` gives for a buffer.
pub open spec fn response_frame(buf: Seq<u8>) -> HttpParseResult<ResponseView> {
    match header_lines_spec(buf) {
        HeadSplit::Invalid => HttpParseResult::Invalid,
        HeadSplit::Pending => HttpParseResult::Incomplete,
        HeadSplit::Found(end, lines) => match response_line(lines[0]) {
            None => HttpParseResult::Invalid,
            Some((status, reason)) => match parse_headers_spec(lines.drop_first()) {
                None => HttpParseResult::Invalid,
                Some((headers, length, chunked)) => {
                    let body_length = if bodiless_status(status) {
                        Some(0usize)
                    } else {
                        length
                    };
                    match body_end_spec(buf, end, body_length, chunked) {
                        None => HttpParseResult::Incomplete,
                        Some(consumed) => if consumed >= usize::MAX {
                            HttpParseResult::Invalid
                        } else {
                            HttpParseResult::Complete {
                                message: ResponseView {
                                    status,
                                    reason,
                                    headers,
                                    content_length: length,
                                    body: capture_spec(headers, length, buf.subrange(end, consumed)),
                                },
                                consumed: consumed as usize,
                            }
                        },
                    }
                },
            },
        },
    }
}

/// The payload decision for a request whose head has arrived.
pub open spec fn request_policy(buf: Seq<u8>) -> Option<Option<Seq<char>>> {
    match header_lines_spec(buf) {
        HeadSplit::Found(_end, lines) => match request_line(lines[0]) {
            Some(_) => match parse_headers_spec(lines.drop_first()) {
                Some((headers, length, _chunked)) => Some(decision_spec(headers, length)),
                None => None,
            },
            None => None,
        },
        _ => None,
    }
}

/// The payload decision for a response whose head has arrived.
pub open spec fn response_policy(buf: Seq<u8>) -> Option<Option<Seq<char>>> {
    match header_lines_spec(buf) {
        HeadSplit::Found(_end, lines) => match response_line(lines[0]) {
            Some(_) => match parse_headers_spec(lines.drop_first()) {
                Some((headers, length, _chunked)) => Some(decision_spec(headers, length)),
                None => None,
            },
            None => None,
        },
        _ => None,
    }
}

pub open spec fn request_result_view(r: HttpParseResult<HttpRequest>) -> HttpParseResult<RequestView> {
    match r {
        HttpParseResult::Incomplete => HttpParseResult::Incomplete,
        HttpParseResult::Invalid => HttpParseResult::Invalid,
        HttpParseResult::Complete { message, consumed } => HttpParseResult::Complete {
            message: message@,
            consumed,
        },
    }
}

pub open spec fn response_result_view(r: HttpParseResult<HttpResponse>) -> HttpParseResult<
    ResponseView,
> {
    match r {
        HttpParseResult::Incomplete => HttpParseResult::Incomplete,
        HttpParseResult::Invalid => HttpParseResult::Invalid,
        HttpParseResult::Complete { message, consumed } => HttpParseResult::Complete {
            message: message@,
            consumed,
        },
    }
}

pub open spec fn policy_view(p: Option<PayloadDecision>) -> Option<Option<Seq<char>>> {
    match p {
        Some(d) => Some(decision_view(d)),
        None => None,
    }
}

/// The header block: its text, and each line as a range of that text.
enum HeadLines {
    Invalid,
    Pending,
    Found(usize, Vec<char>, Vec<(usize, usize)>),
}

spec fn ranges_hold(text: Seq<char>, ranges: Seq<(usize, usize)>, lines: Seq<Seq<char>>) -> bool {
    &&& ranges.len() == lines.len()
    &&& forall|k: int|
        0 <= k < ranges.len() ==> (#[trigger] ranges[k]).0 <= ranges[k].1 <= text.len()
            && text.subrange(ranges[k].0 as int, ranges[k].1 as int) == lines[k]
}

spec fn head_lines_hold(r: HeadLines, buf: Seq<u8>) -> bool {
    match header_lines_spec(buf) {
        HeadSplit::Invalid => r is Invalid,
        HeadSplit::Pending => r is Pending,
        HeadSplit::Found(end, lines) => r matches HeadLines::Found(e, text, ranges) && e == end
            && ranges_hold(text@, ranges@, lines),
    }
}

fn needle_crlf() -> (r: Vec<u8>)
    ensures
        r@ == crlf(),
{
    let mut r: Vec<u8> = Vec::new();
    r.push(13u8);
    r.push(10u8);
    assert(r@ =~= crlf());
    r
}

fn needle_crlf_crlf() -> (r: Vec<u8>)
    ensures
        r@ == crlf_crlf(),
{
    let mut r: Vec<u8> = Vec::new();
    r.push(13u8);
    r.push(10u8);
    r.push(13u8);
    r.push(10u8);
    assert(r@ =~= crlf_crlf());
    r
}

fn needle_lf_lf() -> (r: Vec<u8>)
    ensures
        r@ == lf_lf(),
{
    let mut r: Vec<u8> = Vec::new();
    r.push(10u8);
    r.push(10u8);
    assert(r@ =~= lf_lf());
    r
}

fn header_lines(buffer: &[u8]) -> (r: HeadLines)
    ensures
        head_lines_hold(r, buffer@),
{
    let n4 = needle_crlf_crlf();
    let n2 = needle_lf_lf();
    let blen = buffer.len();
    let (header_end, delimiter) = match find_bytes(buffer, 0, n4.as_slice()) {
        Some(i) => {
            proof {
                lemma_find_from(buffer@, crlf_crlf(), 0);
            }
            (i + 4, 4usize)
        },
        None => match find_bytes(buffer, 0, n2.as_slice()) {
            Some(i) => {
                proof {
                    lemma_find_from(buffer@, lf_lf(), 0);
                }
                (i + 2, 2usize)
            },
            None => {
                if buffer.len() >= MAX_HEADER_BYTES {
                    return HeadLines::Invalid;
                }
                return HeadLines::Pending;
            },
        },
    };
    if header_end > MAX_HEADER_BYTES {
        return HeadLines::Invalid;
    }
    let block = slice_subrange(buffer, 0, header_end - delimiter);
    let text = match utf8_to_string(block) {
        Some(t) => t,
        None => {
            return HeadLines::Invalid;
        },
    };
    let chars = chars_of(text.as_str());
    let ghost pieces = split_seq(chars@, '\n');
    let ghost lines = pieces.map_values(|l: Seq<char>| trim_cr(l));
    assert(chars@.subrange(0, chars@.len() as int) =~= chars@);
    let raw = split_ranges(&chars, 0, chars.len(), '\n');
    let mut ranges: Vec<(usize, usize)> = Vec::new();
    let mut k: usize = 0;
    while k < raw.len()
        invariant
            pieces == split_seq(chars@, '\n'),
            lines == pieces.map_values(|l: Seq<char>| trim_cr(l)),
            raw@.len() == pieces.len(),
            forall|j: int|
                0 <= j < raw@.len() ==> 0 <= (#[trigger] raw@[j]).0 <= raw@[j].1 <= chars@.len()
                    && chars@.subrange(raw@[j].0 as int, raw@[j].1 as int) == pieces[j],
            k <= raw@.len(),
            ranges_hold(chars@, ranges@, lines.take(k as int)),
        decreases raw.len() - k,
    {
        let (a, b) = raw[k];
        assert(raw@[k as int] == (a, b));
        let mut e = b;
        while e > a && chars[e - 1] == '\r'
            invariant
                a <= e <= b <= chars@.len(),
                trim_cr(chars@.subrange(a as int, b as int)) == trim_cr(
                    chars@.subrange(a as int, e as int),
                ),
            decreases e - a,
        {
            assert(chars@.subrange(a as int, e as int).drop_last() =~= chars@.subrange(
                a as int,
                e - 1,
            ));
            e -= 1;
        }
        assert(trim_cr(chars@.subrange(a as int, e as int)) == chars@.subrange(a as int, e as int));
        ranges.push((a, e));
        assert(lines.take(k + 1) =~= lines.take(k as int).push(lines[k as int]));
        k += 1;
    }
    assert(lines.take(k as int) =~= lines);
    HeadLines::Found(header_end, chars, ranges)
}

fn is_tchar(c: char) -> (r: bool)
    ensures
        r == tchar(c),
{
    ('0' <= c && c <= '9') || ('a' <= c && c <= 'z') || ('A' <= c && c <= 'Z') || c == '!' || c
        == '#' || c == '$' || c == '%' || c == '&' || c == '\'' || c == '*' || c == '+' || c == '-'
        || c == '.' || c == '^' || c == '_' || c == '`' || c == '|' || c == '~'
}

fn token_at(v: &Vec<char>, lo: usize, hi: usize) -> (r: bool)
    requires
        lo <= hi <= v@.len(),
    ensures
        r == is_token(v@.subrange(lo as int, hi as int)),
{
    if lo == hi {
        return false;
    }
    let mut i = lo;
    while i < hi
        invariant
            lo <= i <= hi <= v@.len(),
            forall|j: int| lo <= j < i ==> tchar(#[trigger] v@[j]),
        decreases hi - i,
    {
        if !is_tchar(v[i]) {
            assert(!tchar(v@.subrange(lo as int, hi as int)[i - lo]));
            return false;
        }
        i += 1;
    }
    assert forall|j: int| 0 <= j < hi - lo implies tchar(
        #[trigger] v@.subrange(lo as int, hi as int)[j],
    ) by {
        assert(tchar(v@[lo + j]));
    }
    true
}

/// Method and target of the request line `v[lo..hi]`.
fn parse_request_line(v: &Vec<char>, lo: usize, hi: usize) -> (r: Option<(String, String)>)
    requires
        lo <= hi <= v@.len(),
    ensures
        match request_line(v@.subrange(lo as int, hi as int)) {
            Some((m, p)) => r matches Some(x) && x.0@ == m && x.1@ == p,
            None => r is None,
        },
{
    let ghost l = v@.subrange(lo as int, hi as int);
    proof {
        crate::text::lemma_first_index(l, ' ');
    }
    let a = match find_char(v, lo, hi, ' ') {
        Some(a) => a,
        None => {
            return None;
        },
    };
    proof {
        crate::text::lemma_first_index(l.subrange(a - lo + 1, l.len() as int), ' ');
    }
    let ghost rest = l.subrange(a - lo + 1, l.len() as int);
    assert(rest =~= v@.subrange(a + 1, hi as int));
    assert(l.subrange(0, a - lo) =~= v@.subrange(lo as int, a as int));
    let b = match find_char(v, a + 1, hi, ' ') {
        Some(b) => b,
        None => {
            return None;
        },
    };
    assert(rest.subrange(0, b - (a + 1)) =~= v@.subrange(a + 1, b as int));
    assert(rest.subrange(b - (a + 1) + 1, rest.len() as int) =~= v@.subrange(b + 1, hi as int));
    if a == lo || b == a + 1 || !range_eq(v, b + 1, hi, "HTTP/1.1") || !token_at(v, lo, a) {
        return None;
    }
    Some((string_of(v, lo, a), string_of(v, a + 1, b)))
}

/// Status and reason of the status line `v[lo..hi]`.
fn parse_status_line(v: &Vec<char>, lo: usize, hi: usize) -> (r: Option<(u16, String)>)
    requires
        lo <= hi <= v@.len(),
    ensures
        match response_line(v@.subrange(lo as int, hi as int)) {
            Some((s, reason)) => r matches Some(x) && x.0 == s && x.1@ == reason,
            None => r is None,
        },
{
    let ghost l = v@.subrange(lo as int, hi as int);
    proof {
        crate::text::lemma_first_index(l, ' ');
    }
    let a = match find_char(v, lo, hi, ' ') {
        Some(a) => a,
        None => {
            return None;
        },
    };
    proof {
        crate::text::lemma_first_index(l.subrange(a - lo + 1, l.len() as int), ' ');
    }
    let ghost rest = l.subrange(a - lo + 1, l.len() as int);
    assert(rest =~= v@.subrange(a + 1, hi as int));
    assert(l.subrange(0, a - lo) =~= v@.subrange(lo as int, a as int));
    let (status_end, reason_start) = match find_char(v, a + 1, hi, ' ') {
        Some(b) => {
            assert(rest.subrange(0, b - (a + 1)) =~= v@.subrange(a + 1, b as int));
            assert(rest.subrange(b - (a + 1) + 1, rest.len() as int) =~= v@.subrange(
                b + 1,
                hi as int,
            ));
            (b, b + 1)
        },
        None => {
            assert(v@.subrange(hi as int, hi as int) =~= Seq::<char>::empty());
            (hi, hi)
        },
    };
    if !range_eq(v, lo, a, "HTTP/1.1") || status_end - (a + 1) != 3 {
        return None;
    }
    let status = match parse_unsigned(v, a + 1, status_end, 10, 65535) {
        Some(s) => s as u16,
        None => {
            return None;
        },
    };
    Some((status, string_of(v, reason_start, hi)))
}

spec fn state_view(headers: Seq<(String, String)>, length: Option<usize>, chunked: bool) -> HeaderState {
    (headers_view(headers), length, chunked)
}

/// The header lines `ranges[1..]` of `text`.
fn parse_headers(text: &Vec<char>, ranges: &Vec<(usize, usize)>) -> (r: Option<
    (Vec<(String, String)>, Option<usize>, bool),
>)
    requires
        ranges@.len() >= 1,
        forall|k: int|
            0 <= k < ranges@.len() ==> (#[trigger] ranges@[k]).0 <= ranges@[k].1 <= text@.len(),
    ensures
        match parse_headers_spec(
            ranges@.drop_first().map_values(
                |p: (usize, usize)| text@.subrange(p.0 as int, p.1 as int),
            ),
        ) {
            Some(st) => r matches Some(x) && state_view(x.0@, x.1, x.2) == st,
            None => r is None,
        },
{
    let ghost lines = ranges@.drop_first().map_values(
        |p: (usize, usize)| text@.subrange(p.0 as int, p.1 as int),
    );
    let mut headers: Vec<(String, String)> = Vec::new();
    let mut length: Option<usize> = None;
    let mut chunked = false;
    let mut k: usize = 1;
    assert(lines.subrange(0, lines.len() as int) =~= lines);
    assert(headers_view(headers@) =~= Seq::empty());
    while k < ranges.len()
        invariant
            1 <= k <= ranges@.len(),
            lines == ranges@.drop_first().map_values(
                |p: (usize, usize)| text@.subrange(p.0 as int, p.1 as int),
            ),
            forall|j: int|
                0 <= j < ranges@.len() ==> (#[trigger] ranges@[j]).0 <= ranges@[j].1 <= text@.len(),
            parse_headers_spec(lines) == headers_fold(
                state_view(headers@, length, chunked),
                lines.subrange(k - 1, lines.len() as int),
            ),
        decreases ranges.len() - k,
    {
        let ghost acc = state_view(headers@, length, chunked);
        let ghost rest = lines.subrange(k - 1, lines.len() as int);
        assert(rest.drop_first() =~= lines.subrange(k as int, lines.len() as int));
        let (lo, hi) = ranges[k];
        assert(ranges@[k as int] == (lo, hi));
        let ghost line = text@.subrange(lo as int, hi as int);
        assert(rest[0] == line);
        if lo == hi {
            k += 1;
            continue;
        }
        proof {
            crate::text::lemma_first_index(line, ':');
        }
        let c = match find_char(text, lo, hi, ':') {
            Some(c) => c,
            None => {
                return None;
            },
        };
        assert(line.subrange(0, c - lo) =~= text@.subrange(lo as int, c as int));
        assert(line.subrange(c - lo + 1, line.len() as int) =~= text@.subrange(c + 1, hi as int));
        let (vlo, vhi) = trim_range(text, c + 1, hi);
        let ghost name = text@.subrange(lo as int, c as int);
        let ghost value = text@.subrange(vlo as int, vhi as int);
        if !token_at(text, lo, c) {
            return None;
        }
        if range_eq_ignore_case(text, lo, c, "content-length") {
            let n = match parse_unsigned(text, vlo, vhi, 10, usize::MAX as u64) {
                Some(n) => n as usize,
                None => {
                    return None;
                },
            };
            if n > MAX_MESSAGE_BYTES {
                return None;
            }
            match length {
                Some(e) => {
                    if e != n {
                        return None;
                    }
                },
                None => {},
            }
            length = Some(n);
        }
        if range_eq_ignore_case(text, lo, c, "transfer-encoding") && any_piece_in(
            text,
            vlo,
            vhi,
            ',',
            "chunked",
            true,
        ) {
            chunked = true;
        }
        let name_s = string_of(text, lo, c);
        let value_s = string_of(text, vlo, vhi);
        headers.push((name_s, value_s));
        assert(headers_view(headers@) =~= acc.0.push((name, value)));
        k += 1;
    }
    assert(lines.subrange(k - 1, lines.len() as int).len() == 0);
    Some((headers, length, chunked))
}

fn chunked_body_end(buffer: &[u8], body_start: usize) -> (r: Option<usize>)
    ensures
        match chunked_end(buffer@, body_start as int) {
            Some(e) => r == Some(e as usize),
            None => r is None,
        },
{
    let crlf_n = needle_crlf();
    let crlf_crlf_n = needle_crlf_crlf();
    let len = buffer.len();
    let mut cursor = body_start;
    loop
        invariant
            len == buffer@.len(),
            crlf_n@ == crlf(),
            crlf_crlf_n@ == crlf_crlf(),
            chunked_end(buffer@, body_start as int) == chunked_end(buffer@, cursor as int),
        decreases len - cursor,
    {
        let line_end = match find_bytes(buffer, cursor, crlf_n.as_slice()) {
            Some(e) => e,
            None => {
                return None;
            },
        };
        proof {
            lemma_find_from(buffer@, crlf(), cursor as int);
        }
        let raw = slice_subrange(buffer, cursor, line_end);
        let text = match utf8_to_string(raw) {
            Some(t) => t,
            None => {
                return None;
            },
        };
        let v = chars_of(text.as_str());
        assert(v@.subrange(0, v@.len() as int) =~= v@);
        let pieces = split_ranges(&v, 0, v.len(), ';');
        proof {
            lemma_split_nonempty(v@, ';');
        }
        let (a, b) = pieces[0];
        let (c, d) = trim_range(&v, a, b);
        let size = match parse_unsigned(&v, c, d, 16, usize::MAX as u64) {
            Some(s) => s as usize,
            None => {
                return None;
            },
        };
        if size > MAX_MESSAGE_BYTES {
            return Some(usize::MAX);
        }
        let next = line_end + 2;
        if size == 0 {
            if bytes_at(buffer, next, crlf_n.as_slice()) {
                return Some(next + 2);
            }
            proof {
                lemma_find_from(buffer@, crlf_crlf(), next as int);
            }
            return match find_bytes(buffer, next, crlf_crlf_n.as_slice()) {
                Some(t) => Some(t + 4),
                None => None,
            };
        }
        if next > usize::MAX - 2 - size {
            return None;
        }
        let data_end = next + size + 2;
        if data_end > len {
            return None;
        }
        if !bytes_at(buffer, next + size, crlf_n.as_slice()) {
            return Some(usize::MAX);
        }
        cursor = data_end;
    }
}

fn body_end(buffer: &[u8], header_end: usize, length: Option<usize>, chunked: bool) -> (r: Option<
    usize,
>)
    ensures
        match body_end_spec(buffer@, header_end as int, length, chunked) {
            Some(e) => r == Some(e as usize),
            None => r is None,
        },
{
    if chunked {
        return chunked_body_end(buffer, header_end);
    }
    let n = match length {
        Some(n) => n,
        None => 0,
    };
    if header_end > usize::MAX - n {
        return None;
    }
    let consumed = header_end + n;
    if consumed > MAX_MESSAGE_BYTES {
        return Some(usize::MAX);
    }
    if buffer.len() >= consumed {
        Some(consumed)
    } else {
        None
    }
}

/// A request head: start line and headers, before the body is located.
enum Head<L> {
    Invalid,
    Incomplete,
    Found(usize, L, Vec<(String, String)>, Option<usize>, bool),
}

fn request_head(buffer: &[u8]) -> (r: Head<(String, String)>)
    ensures
        match header_lines_spec(buffer@) {
            HeadSplit::Invalid => r is Invalid,
            HeadSplit::Pending => r is Incomplete,
            HeadSplit::Found(end, lines) => match request_line(lines[0]) {
                None => r is Invalid,
                Some((m, p)) => match parse_headers_spec(lines.drop_first()) {
                    None => r is Invalid,
                    Some(st) => r matches Head::Found(e, line, hs, len, ch) && e == end
                        && line.0@ == m && line.1@ == p && state_view(hs@, len, ch) == st,
                },
            },
        },
{
    match header_lines(buffer) {
        HeadLines::Invalid => Head::Invalid,
        HeadLines::Pending => Head::Incomplete,
        HeadLines::Found(end, text, ranges) => {
            let ghost lines = match header_lines_spec(buffer@) {
                HeadSplit::Found(_e, l) => l,
                _ => Seq::empty(),
            };
            proof {
                lemma_head_lines(buffer@);
                assert(ranges@.drop_first().map_values(
                    |p: (usize, usize)| text@.subrange(p.0 as int, p.1 as int),
                ) =~= lines.drop_first());
            }
            let (lo, hi) = ranges[0];
            assert(ranges@[0] == (lo, hi));
            let line = match parse_request_line(&text, lo, hi) {
                Some(l) => l,
                None => {
                    return Head::Invalid;
                },
            };
            match parse_headers(&text, &ranges) {
                Some((hs, len, ch)) => Head::Found(end, line, hs, len, ch),
                None => Head::Invalid,
            }
        },
    }
}

fn response_head(buffer: &[u8]) -> (r: Head<(u16, String)>)
    ensures
        match header_lines_spec(buffer@) {
            HeadSplit::Invalid => r is Invalid,
            HeadSplit::Pending => r is Incomplete,
            HeadSplit::Found(end, lines) => match response_line(lines[0]) {
                None => r is Invalid,
                Some((s, reason)) => match parse_headers_spec(lines.drop_first()) {
                    None => r is Invalid,
                    Some(st) => r matches Head::Found(e, line, hs, len, ch) && e == end
                        && line.0 == s && line.1@ == reason && state_view(hs@, len, ch) == st,
                },
            },
        },
{
    match header_lines(buffer) {
        HeadLines::Invalid => Head::Invalid,
        HeadLines::Pending => Head::Incomplete,
        HeadLines::Found(end, text, ranges) => {
            let ghost lines = match header_lines_spec(buffer@) {
                HeadSplit::Found(_e, l) => l,
                _ => Seq::empty(),
            };
            proof {
                lemma_head_lines(buffer@);
                assert(ranges@.drop_first().map_values(
                    |p: (usize, usize)| text@.subrange(p.0 as int, p.1 as int),
                ) =~= lines.drop_first());
            }
            let (lo, hi) = ranges[0];
            assert(ranges@[0] == (lo, hi));
            let line = match parse_status_line(&text, lo, hi) {
                Some(l) => l,
                None => {
                    return Head::Invalid;
                },
            };
            match parse_headers(&text, &ranges) {
                Some((hs, len, ch)) => Head::Found(end, line, hs, len, ch),
                None => Head::Invalid,
            }
        },
    }
}

/// The header block, once found, has at least one line and ends inside the buffer.
proof fn lemma_head_lines(buf: Seq<u8>)
    ensures
        header_lines_spec(buf) matches HeadSplit::Found(end, lines) ==> lines.len() >= 1 && 2
            <= end <= buf.len(),
{
    lemma_find_from(buf, crlf_crlf(), 0);
    lemma_find_from(buf, lf_lf(), 0);
    if let HeadSplit::Found(end, lines) = header_lines_spec(buf) {
        let (e, d) = head_end(buf).unwrap();
        lemma_split_nonempty(decode_utf8(buf.subrange(0, e - d)), '\n');
    }
}

#[derive(Debug, Default)]
pub struct HttpParser;

impl HttpParser {
    pub fn parse_request(&self, buffer: &[u8]) -> (r: Option<HttpRequest>)
        ensures
            match request_frame(buffer@) {
                HttpParseResult::Complete { message, .. } => r matches Some(m) && m@ == message,
                _ => r is None,
            },
    {
        match self.parse_request_frame(buffer) {
            HttpParseResult::Complete { message, .. } => Some(message),
            _ => None,
        }
    }

    pub fn parse_response(&self, buffer: &[u8]) -> (r: Option<HttpResponse>)
        ensures
            match response_frame(buffer@) {
                HttpParseResult::Complete { message, .. } => r matches Some(m) && m@ == message,
                _ => r is None,
            },
    {
        match self.parse_response_frame(buffer) {
            HttpParseResult::Complete { message, .. } => Some(message),
            _ => None,
        }
    }

    pub fn parse_request_frame(&self, buffer: &[u8]) -> (r: HttpParseResult<HttpRequest>)
        ensures
            request_result_view(r) == request_frame(buffer@),
    {
        let blen = buffer.len();
        proof {
            lemma_head_lines(buffer@);
        }
        let (end, line, headers, length, chunked) = match request_head(buffer) {
            Head::Invalid => {
                return HttpParseResult::Invalid;
            },
            Head::Incomplete => {
                return HttpParseResult::Incomplete;
            },
            Head::Found(end, line, hs, len, ch) => (end, line, hs, len, ch),
        };
        let consumed = match body_end(buffer, end, length, chunked) {
            Some(c) => c,
            None => {
                return HttpParseResult::Incomplete;
            },
        };
        proof {
            lemma_body_end_bounds(buffer@, end as int, length, chunked);
        }
        if consumed == usize::MAX {
            return HttpParseResult::Invalid;
        }
        let host = match header_value(headers.as_slice(), "host") {
            Some(h) => Some(h.clone()),
            None => None,
        };
        let body = capture_body(headers.as_slice(), length, slice_subrange(buffer, end, consumed));
        let (method, path) = line;
        HttpParseResult::Complete {
            message: HttpRequest {
                version: HttpVersion::Http11,
                method,
                host,
                path,
                headers,
                content_length: length,
                body,
            },
            consumed,
        }
    }

    pub fn parse_response_frame(&self, buffer: &[u8]) -> (r: HttpParseResult<HttpResponse>)
        ensures
            response_result_view(r) == response_frame(buffer@),
    {
        let blen = buffer.len();
        proof {
            lemma_head_lines(buffer@);
        }
        let (end, line, headers, length, chunked) = match response_head(buffer) {
            Head::Invalid => {
                return HttpParseResult::Invalid;
            },
            Head::Incomplete => {
                return HttpParseResult::Incomplete;
            },
            Head::Found(end, line, hs, len, ch) => (end, line, hs, len, ch),
        };
        let (status, reason) = line;
        let body_length = if (100 <= status && status < 200) || status == 204 || status == 304 {
            Some(0usize)
        } else {
            length
        };
        let consumed = match body_end(buffer, end, body_length, chunked) {
            Some(c) => c,
            None => {
                return HttpParseResult::Incomplete;
            },
        };
        proof {
            lemma_body_end_bounds(buffer@, end as int, body_length, chunked);
        }
        if consumed == usize::MAX {
            return HttpParseResult::Invalid;
        }
        let body = capture_body(headers.as_slice(), length, slice_subrange(buffer, end, consumed));
        HttpParseResult::Complete {
            message: HttpResponse {
                version: HttpVersion::Http11,
                status,
                reason,
                headers,
                content_length: length,
                body,
            },
            consumed,
        }
    }

    /// The payload decision of a request once its head has arrived.
    pub fn request_payload_policy(&self, buffer: &[u8]) -> (r: Option<PayloadDecision>)
        ensures
            policy_view(r) == request_policy(buffer@),
    {
        match request_head(buffer) {
            Head::Found(_end, _line, hs, len, _ch) => Some(payload_decision(hs.as_slice(), len)),
            _ => None,
        }
    }

    /// The payload decision of a response once its head has arrived.
    pub fn response_payload_policy(&self, buffer: &[u8]) -> (r: Option<PayloadDecision>)
        ensures
            policy_view(r) == response_policy(buffer@),
    {
        match response_head(buffer) {
            Head::Found(_end, _line, hs, len, _ch) => Some(payload_decision(hs.as_slice(), len)),
            _ => None,
        }
    }
}

/// A complete frame takes at least one byte and no more than the buffer holds.
pub proof fn lemma_frame_bounds(buf: Seq<u8>)
    ensures
        request_frame(buf) matches HttpParseResult::Complete { consumed, .. } ==> 0 < consumed
            <= buf.len(),
        response_frame(buf) matches HttpParseResult::Complete { consumed, .. } ==> 0 < consumed
            <= buf.len(),
{
    lemma_head_lines(buf);
    if let HeadSplit::Found(end, lines) = header_lines_spec(buf) {
        if let Some((headers, length, chunked)) = parse_headers_spec(lines.drop_first()) {
            lemma_body_end_bounds(buf, end, length, chunked);
            lemma_body_end_bounds(buf, end, Some(0usize), chunked);
        }
    }
}

/// A located body ends inside the buffer, after its head.
proof fn lemma_body_end_bounds(buf: Seq<u8>, header_end: int, length: Option<usize>, chunked: bool)
    requires
        0 <= header_end <= buf.len(),
    ensures
        body_end_spec(buf, header_end, length, chunked) matches Some(e) ==> (e != usize::MAX
            ==> header_end <= e <= buf.len()),
{
    if chunked {
        lemma_chunked_end_bounds(buf, header_end);
    }
}

proof fn lemma_chunked_end_bounds(buf: Seq<u8>, cursor: int)
    requires
        0 <= cursor <= buf.len(),
    ensures
        chunked_end(buf, cursor) matches Some(e) ==> (e != usize::MAX ==> cursor <= e <= buf.len()),
    decreases buf.len() - cursor,
{
    lemma_find_from(buf, crlf(), cursor);
    if let Some(line_end) = find_from(buf, crlf(), cursor) {
        lemma_find_from(buf, crlf_crlf(), line_end + 2);
        if let Some(size) = chunk_size(buf, cursor, line_end) {
            let next = line_end + 2;
            if size <= MAX_MESSAGE_BYTES && size != 0 && next + size + 2 <= usize::MAX && next + size
                + 2 <= buf.len() && match_at(buf, crlf(), next + size) {
                lemma_chunked_end_bounds(buf, next + size + 2);
            }
        }
    }
}

} // verus!
