//! Bounded payload handling for HTTP messages.
//!
//! Readable application text is kept as a bounded preview, while media,
//! archives, encoded bodies and unknown binary data keep only their HTTP
//! metadata and byte count.
use vstd::prelude::*;
use vstd::utf8::*;
use crate::text::{
    chars_of, eq_ignore_case, lemma_split_nonempty, lower, lower_char, lower_seq, range_ends_with, range_eq,
    range_eq_ignore_case, range_starts_with, split_ranges, split_seq, trim_range, trim_seq,
    utf8_to_string,
};

verus! {

pub const MAX_TEXT_PREVIEW_BYTES: usize = 64 * 1024;

/// Whether a body is kept, or why it is not.
#[derive(Debug, Clone, Copy, PartialEq, Eq)]
pub enum PayloadDecision {
    Capture,
    Skip(&'static str),
}

/// `None` for `Capture`, the reason's text for `Skip`.
pub open spec fn decision_view(d: PayloadDecision) -> Option<Seq<char>> {
    match d {
        PayloadDecision::Capture => None,
        PayloadDecision::Skip(reason) => Some(reason@),
    }
}

#[derive(Debug, Clone, Default, PartialEq, Eq)]
pub struct HttpBody {
    pub preview: Option<String>,
    pub bytes: usize,
    pub truncated: bool,
    pub skipped: bool,
    pub skip_reason: Option<String>,
}

pub struct BodyView {
    pub preview: Option<Seq<char>>,
    pub bytes: nat,
    pub truncated: bool,
    pub skipped: bool,
    pub skip_reason: Option<Seq<char>>,
}

impl View for HttpBody {
    type V = BodyView;

    open spec fn view(&self) -> BodyView {
        BodyView {
            preview: opt_view(self.preview),
            bytes: self.bytes as nat,
            truncated: self.truncated,
            skipped: self.skipped,
            skip_reason: opt_view(self.skip_reason),
        }
    }
}

pub open spec fn opt_view(s: Option<String>) -> Option<Seq<char>> {
    match s {
        Some(t) => Some(t@),
        None => None,
    }
}

pub open spec fn empty_body() -> BodyView {
    BodyView { preview: None, bytes: 0, truncated: false, skipped: false, skip_reason: None }
}

pub open spec fn skipped_view(bytes: nat, reason: Seq<char>) -> BodyView {
    BodyView {
        preview: None,
        bytes,
        truncated: false,
        skipped: true,
        skip_reason: Some(reason),
    }
}

impl HttpBody {
    pub fn empty() -> (r: Self)
        ensures
            r@ == empty_body(),
    {
        HttpBody { preview: None, bytes: 0, truncated: false, skipped: false, skip_reason: None }
    }
}

/// Header pairs as character sequences.
pub open spec fn headers_view(h: Seq<(String, String)>) -> Seq<(Seq<char>, Seq<char>)> {
    h.map_values(|p: (String, String)| (p.0@, p.1@))
}

/// The value of the first header whose name equals `name`, ASCII case ignored.
pub open spec fn header_value_spec(headers: Seq<(Seq<char>, Seq<char>)>, name: Seq<char>) -> Option<
    Seq<char>,
>
    decreases headers.len(),
{
    if headers.len() == 0 {
        None
    } else if eq_ignore_case(headers[0].0, name) {
        Some(headers[0].1)
    } else {
        header_value_spec(headers.drop_first(), name)
    }
}

/// Whether some `sep`-separated piece of `v`, trimmed, equals `word` (ASCII
/// case ignored) exactly when `want` holds.
pub open spec fn any_piece(v: Seq<char>, sep: char, word: Seq<char>, want: bool) -> bool {
    exists|k: int|
        0 <= k < split_seq(v, sep).len() && eq_ignore_case(
            trim_seq(#[trigger] split_seq(v, sep)[k]),
            word,
        ) == want
}

/// The media type of a `Content-Type` value: before any `;`, trimmed, lower case.
pub open spec fn media_type(v: Seq<char>) -> Seq<char> {
    lower_seq(trim_seq(split_seq(v, ';')[0]))
}

pub open spec fn is_text_type(ct: Seq<char>) -> bool {
    "text/"@.is_prefix_of(ct) || ct == "application/json"@ || "+json"@.is_suffix_of(ct) || ct
        == "application/xml"@ || "+xml"@.is_suffix_of(ct) || ct == "application/javascript"@ || ct
        == "application/ecmascript"@ || ct == "application/x-javascript"@ || ct
        == "text/javascript"@ || ct == "text/css"@ || ct == "application/x-www-form-urlencoded"@
        || ct == "application/graphql"@
}

pub open spec fn is_binary_type(ct: Seq<char>) -> bool {
    "image/"@.is_prefix_of(ct) || "audio/"@.is_prefix_of(ct) || "video/"@.is_prefix_of(ct)
        || "font/"@.is_prefix_of(ct) || ct == "application/octet-stream"@ || ct
        == "application/zip"@ || ct == "application/gzip"@ || ct == "application/x-gzip"@ || ct
        == "application/x-7z-compressed"@ || ct == "application/x-rar-compressed"@ || ct
        == "application/x-tar"@ || ct == "application/pdf"@ || ct == "application/wasm"@ || ct
        == "application/protobuf"@ || ct == "application/x-protobuf"@ || ct
        == "multipart/form-data"@
}

pub open spec fn declares_chunked(headers: Seq<(Seq<char>, Seq<char>)>) -> bool {
    match header_value_spec(headers, "transfer-encoding"@) {
        Some(v) => any_piece(v, ',', "chunked"@, true),
        None => false,
    }
}

pub open spec fn declares_encoding(headers: Seq<(Seq<char>, Seq<char>)>) -> bool {
    match header_value_spec(headers, "content-encoding"@) {
        Some(v) => any_piece(v, ',', "identity"@, false),
        None => false,
    }
}

/// The payload decision: `None` to capture, or the reason to skip.
pub open spec fn decision_spec(headers: Seq<(Seq<char>, Seq<char>)>, content_length: Option<usize>) -> Option<
    Seq<char>,
> {
    if content_length == Some(0usize) {
        None
    } else if !(content_length is Some || declares_chunked(headers)) {
        None
    } else if declares_encoding(headers) {
        Some("content_encoded"@)
    } else {
        match header_value_spec(headers, "content-type"@) {
            None => Some("unknown_content_type"@),
            Some(v) => {
                let ct = media_type(v);
                if is_text_type(ct) {
                    if content_length matches Some(n) && n > MAX_TEXT_PREVIEW_BYTES {
                        Some("body_too_large"@)
                    } else {
                        None
                    }
                } else if is_binary_type(ct) {
                    Some("binary_content"@)
                } else {
                    Some("unsupported_content_type"@)
                }
            },
        }
    }
}

/// `char::is_ascii_graphic` or `char::is_ascii_whitespace`.
pub open spec fn text_char(c: char) -> bool {
    ('!' <= c && c <= '~') || c == ' ' || c == '\t' || c == '\n' || c == '\x0C' || c == '\r'
}

/// Valid UTF-8 made of printable ASCII and ASCII whitespace only.
pub open spec fn probably_text(body: Seq<u8>) -> bool {
    valid_utf8(body) && forall|i: int|
        0 <= i < decode_utf8(body).len() ==> text_char(#[trigger] decode_utf8(body)[i])
}

/// What is kept of a body.
pub open spec fn capture_spec(
    headers: Seq<(Seq<char>, Seq<char>)>,
    content_length: Option<usize>,
    body: Seq<u8>,
) -> BodyView {
    if body.len() == 0 {
        empty_body()
    } else {
        match decision_spec(headers, content_length) {
            Some(reason) if reason != "unknown_content_type"@ || !probably_text(body) => skipped_view(
                body.len(),
                reason,
            ),
            _ => if body.len() > MAX_TEXT_PREVIEW_BYTES {
                skipped_view(body.len(), "body_too_large"@)
            } else if !valid_utf8(body) {
                skipped_view(body.len(), "non_utf8_text"@)
            } else {
                BodyView {
                    preview: Some(decode_utf8(body)),
                    bytes: body.len(),
                    truncated: false,
                    skipped: false,
                    skip_reason: None,
                }
            },
        }
    }
}

pub(crate) fn header_value<'a>(headers: &'a [(String, String)], name: &str) -> (r: Option<&'a String>)
    ensures
        match header_value_spec(headers_view(headers@), name@) {
            Some(v) => r matches Some(s) && s@ == v,
            None => r is None,
        },
{
    let ghost all = headers_view(headers@);
    assert(all.subrange(0, all.len() as int) =~= all);
    let mut i: usize = 0;
    while i < headers.len()
        invariant
            i <= headers@.len(),
            all == headers_view(headers@),
            header_value_spec(all, name@) == header_value_spec(
                all.subrange(i as int, all.len() as int),
                name@,
            ),
        decreases headers.len() - i,
    {
        let ghost rest = all.subrange(i as int, all.len() as int);
        assert(rest.drop_first() =~= all.subrange(i + 1, all.len() as int));
        assert(rest[0] == (headers@[i as int].0@, headers@[i as int].1@));
        let name_chars = chars_of(headers[i].0.as_str());
        if range_eq_ignore_case(&name_chars, 0, name_chars.len(), name) {
            assert(name_chars@.subrange(0, name_chars@.len() as int) =~= name_chars@);
            return Some(&headers[i].1);
        }
        assert(name_chars@.subrange(0, name_chars@.len() as int) =~= name_chars@);
        i += 1;
    }
    assert(all.subrange(i as int, all.len() as int).len() == 0);
    None
}

/// Whether some `sep`-separated piece of `v[lo..hi]`, trimmed, equals `word`
/// (ASCII case ignored) exactly when `want` holds.
pub(crate) fn any_piece_in(v: &Vec<char>, lo: usize, hi: usize, sep: char, word: &str, want: bool) -> (r: bool)
    requires
        lo <= hi <= v@.len(),
    ensures
        r == any_piece(v@.subrange(lo as int, hi as int), sep, word@, want),
{
    let ranges = split_ranges(v, lo, hi, sep);
    let ghost pieces = split_seq(v@.subrange(lo as int, hi as int), sep);
    let mut k: usize = 0;
    while k < ranges.len()
        invariant
            lo <= hi <= v@.len(),
            pieces == split_seq(v@.subrange(lo as int, hi as int), sep),
            ranges@.len() == pieces.len(),
            forall|j: int|
                0 <= j < ranges@.len() ==> lo <= (#[trigger] ranges@[j]).0 <= ranges@[j].1 <= hi
                    && v@.subrange(ranges@[j].0 as int, ranges@[j].1 as int) == pieces[j],
            k <= ranges@.len(),
            forall|j: int| 0 <= j < k ==> eq_ignore_case(trim_seq(#[trigger] pieces[j]), word@) != want,
        decreases ranges.len() - k,
    {
        let (a, b) = ranges[k];
        assert(ranges@[k as int] == (a, b));
        let (c, d) = trim_range(v, a, b);
        if range_eq_ignore_case(v, c, d, word) == want {
            assert(eq_ignore_case(trim_seq(pieces[k as int]), word@) == want);
            return true;
        }
        k += 1;
    }
    false
}

fn any_piece_of(value: &String, sep: char, word: &str, want: bool) -> (r: bool)
    ensures
        r == any_piece(value@, sep, word@, want),
{
    let v = chars_of(value.as_str());
    assert(v@.subrange(0, v@.len() as int) =~= value@);
    any_piece_in(&v, 0, v.len(), sep, word, want)
}

/// The media type of a `Content-Type` value, as characters.
fn media_type_of(value: &String) -> (r: Vec<char>)
    ensures
        r@ == media_type(value@),
{
    let v = chars_of(value.as_str());
    assert(v@.subrange(0, v@.len() as int) =~= value@);
    let ranges = split_ranges(&v, 0, v.len(), ';');
    proof {
        lemma_split_nonempty(value@, ';');
    }
    let (a, b) = ranges[0];
    let (c, d) = trim_range(&v, a, b);
    let mut out: Vec<char> = Vec::new();
    let mut i = c;
    while i < d
        invariant
            c <= i <= d <= v@.len(),
            out@ == lower_seq(v@.subrange(c as int, i as int)),
        decreases d - i,
    {
        out.push(lower(v[i]));
        assert(v@.subrange(c as int, i + 1) =~= v@.subrange(c as int, i as int).push(v@[i as int]));
        assert(lower_seq(v@.subrange(c as int, i + 1)) =~= lower_seq(v@.subrange(c as int, i as int)).push(
            lower_char(v@[i as int]),
        ));
        i += 1;
    }
    out
}

fn is_text_content_type(ct: &Vec<char>) -> (r: bool)
    ensures
        r == is_text_type(ct@),
{
    let n = ct.len();
    assert(ct@.subrange(0, n as int) =~= ct@);
    range_starts_with(ct, 0, n, "text/") || range_eq(ct, 0, n, "application/json")
        || range_ends_with(ct, 0, n, "+json") || range_eq(ct, 0, n, "application/xml")
        || range_ends_with(ct, 0, n, "+xml") || range_eq(ct, 0, n, "application/javascript")
        || range_eq(ct, 0, n, "application/ecmascript") || range_eq(
        ct,
        0,
        n,
        "application/x-javascript",
    ) || range_eq(ct, 0, n, "text/javascript") || range_eq(ct, 0, n, "text/css") || range_eq(
        ct,
        0,
        n,
        "application/x-www-form-urlencoded",
    ) || range_eq(ct, 0, n, "application/graphql")
}

fn is_binary_content_type(ct: &Vec<char>) -> (r: bool)
    ensures
        r == is_binary_type(ct@),
{
    let n = ct.len();
    assert(ct@.subrange(0, n as int) =~= ct@);
    range_starts_with(ct, 0, n, "image/") || range_starts_with(ct, 0, n, "audio/")
        || range_starts_with(ct, 0, n, "video/") || range_starts_with(ct, 0, n, "font/")
        || range_eq(ct, 0, n, "application/octet-stream") || range_eq(ct, 0, n, "application/zip")
        || range_eq(ct, 0, n, "application/gzip") || range_eq(ct, 0, n, "application/x-gzip")
        || range_eq(ct, 0, n, "application/x-7z-compressed") || range_eq(
        ct,
        0,
        n,
        "application/x-rar-compressed",
    ) || range_eq(ct, 0, n, "application/x-tar") || range_eq(ct, 0, n, "application/pdf")
        || range_eq(ct, 0, n, "application/wasm") || range_eq(ct, 0, n, "application/protobuf")
        || range_eq(ct, 0, n, "application/x-protobuf") || range_eq(
        ct,
        0,
        n,
        "multipart/form-data",
    )
}

/// Decides whether a body is safe and useful to retain, from its headers
/// alone, before the complete frame is available.
pub fn payload_decision(headers: &[(String, String)], content_length: Option<usize>) -> (r:
    PayloadDecision)
    ensures
        decision_view(r) == decision_spec(headers_view(headers@), content_length),
{
    if content_length == Some(0usize) {
        return PayloadDecision::Capture;
    }
    let chunked = match header_value(headers, "transfer-encoding") {
        Some(v) => any_piece_of(v, ',', "chunked", true),
        None => false,
    };
    let has_body = content_length.is_some() || chunked;
    if !has_body {
        return PayloadDecision::Capture;
    }
    let encoded = match header_value(headers, "content-encoding") {
        Some(v) => any_piece_of(v, ',', "identity", false),
        None => false,
    };
    if encoded {
        return PayloadDecision::Skip("content_encoded");
    }
    let content_type = match header_value(headers, "content-type") {
        Some(v) => media_type_of(v),
        None => {
            return PayloadDecision::Skip("unknown_content_type");
        },
    };
    if is_text_content_type(&content_type) {
        match content_length {
            Some(n) if n > MAX_TEXT_PREVIEW_BYTES => PayloadDecision::Skip("body_too_large"),
            _ => PayloadDecision::Capture,
        }
    } else if is_binary_content_type(&content_type) {
        PayloadDecision::Skip("binary_content")
    } else {
        PayloadDecision::Skip("unsupported_content_type")
    }
}

fn skipped_body(bytes: usize, reason: &'static str) -> (r: HttpBody)
    ensures
        r@ == skipped_view(bytes as nat, reason@),
{
    HttpBody {
        preview: None,
        bytes,
        truncated: false,
        skipped: true,
        skip_reason: Some(reason.to_owned()),
    }
}

fn is_text_char(c: char) -> (r: bool)
    ensures
        r == text_char(c),
{
    ('!' <= c && c <= '~') || c == ' ' || c == '\t' || c == '\n' || c == '\x0C' || c == '\r'
}

fn is_probably_text(body: &[u8]) -> (r: bool)
    ensures
        r == probably_text(body@),
{
    let text = match utf8_to_string(body) {
        Some(t) => t,
        None => {
            return false;
        },
    };
    let chars = chars_of(text.as_str());
    let mut i: usize = 0;
    while i < chars.len()
        invariant
            chars@ == decode_utf8(body@),
            valid_utf8(body@),
            i <= chars@.len(),
            forall|j: int| 0 <= j < i ==> text_char(#[trigger] chars@[j]),
        decreases chars.len() - i,
    {
        if !is_text_char(chars[i]) {
            return false;
        }
        i += 1;
    }
    true
}

fn is_unknown_type_reason(reason: &'static str) -> (r: bool)
    ensures
        r == (reason@ == "unknown_content_type"@),
{
    let v = chars_of(reason);
    let r = range_eq(&v, 0, v.len(), "unknown_content_type");
    assert(v@.subrange(0, v@.len() as int) =~= v@);
    r
}

/// Keeps a bounded text preview of a body, or records why it was skipped.
pub fn capture_body(headers: &[(String, String)], content_length: Option<usize>, body: &[u8]) -> (r:
    HttpBody)
    ensures
        r@ == capture_spec(headers_view(headers@), content_length, body@),
{
    if body.len() == 0 {
        return HttpBody::empty();
    }
    let decision = payload_decision(headers, content_length);
    if let PayloadDecision::Skip(reason) = decision {
        if !is_unknown_type_reason(reason) || !is_probably_text(body) {
            return skipped_body(body.len(), reason);
        }
    }
    if body.len() > MAX_TEXT_PREVIEW_BYTES {
        return skipped_body(body.len(), "body_too_large");
    }
    let preview = match utf8_to_string(body) {
        Some(p) => p,
        None => {
            return skipped_body(body.len(), "non_utf8_text");
        },
    };
    HttpBody { preview: Some(preview), bytes: body.len(), truncated: false, skipped: false, skip_reason: None }
}


/// A body that is not encoded, whose media type is a text one, and that is
/// small enough (or has no length, or is empty) is captured. The text media
/// types are `text/*`, `application/json` and `*+json`, `application/xml`
/// and `*+xml`, `application/javascript`, `application/ecmascript`,
/// `application/x-javascript`, `text/css`, `application/x-www-form-urlencoded`
/// and `application/graphql`.
pub proof fn law_text_bodies_are_captured(headers: Seq<(Seq<char>, Seq<char>)>, content_length: Option<usize>, v: Seq<char>)
    requires
        !declares_encoding(headers),
        header_value_spec(headers, "content-type"@) == Some(v),
        ({
            let ct = media_type(v);
            ||| "text/"@.is_prefix_of(ct)
            ||| ct == "application/json"@
            ||| "+json"@.is_suffix_of(ct)
            ||| ct == "application/xml"@
            ||| "+xml"@.is_suffix_of(ct)
            ||| ct == "application/javascript"@
            ||| ct == "application/ecmascript"@
            ||| ct == "application/x-javascript"@
            ||| ct == "text/css"@
            ||| ct == "application/x-www-form-urlencoded"@
            ||| ct == "application/graphql"@
        }),
        content_length matches Some(n) ==> n <= MAX_TEXT_PREVIEW_BYTES,
    ensures
        decision_spec(headers, content_length) is None,
{
}
} // verus!
