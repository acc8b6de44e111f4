//! The local read-only HTTP API: which resource a request asks for, how a
//! response is framed, and the figures the summary and process views show.
use vstd::prelude::*;
use crate::capture::strings_view;
use crate::events::{lossy_utf8, utf8_lossy, ConnectionState};
use crate::network::tracker::ConnectionRecord;
use crate::text::{chars_of, decimal, field_ranges, first_index, find_char, lemma_first_index, push_decimal, push_str, string_of, white_fields};

verus! {

/// What a request asks for.
#[derive(Debug, Clone, Copy, PartialEq, Eq, Structural)]
pub enum ApiRoute {
    /// A CORS preflight (`OPTIONS`).
    Preflight,
    /// Any method but `GET` and `OPTIONS`.
    MethodNotAllowed,
    Health,
    Summary,
    Processes,
    Connections,
    NotFound,
}

/// The first line of a text, without its line break.
pub open spec fn first_line(s: Seq<char>) -> Seq<char> {
    match first_index(s, '\n') {
        Some(i) => s.take(i),
        None => s,
    }
}

/// The `n`th whitespace-separated word of the first line, empty if there is
/// none.
pub open spec fn request_word(s: Seq<char>, n: int) -> Seq<char> {
    let words = white_fields(first_line(s));
    if n < words.len() {
        words[n]
    } else {
        Seq::empty()
    }
}

pub open spec fn route_of(method: Seq<char>, path: Seq<char>) -> ApiRoute {
    if method == "OPTIONS"@ {
        ApiRoute::Preflight
    } else if method != "GET"@ {
        ApiRoute::MethodNotAllowed
    } else if path == "/api/health"@ {
        ApiRoute::Health
    } else if path == "/api/summary"@ {
        ApiRoute::Summary
    } else if path == "/api/processes"@ {
        ApiRoute::Processes
    } else if path == "/api/connections"@ {
        ApiRoute::Connections
    } else {
        ApiRoute::NotFound
    }
}

/// The method and path of a request, read from its first line (the request
/// bytes taken as UTF-8, invalid sequences replaced).
pub fn request_target(request: &[u8]) -> (r: (String, String))
    ensures
        r.0@ == request_word(lossy_utf8(request@), 0),
        r.1@ == request_word(lossy_utf8(request@), 1),
{
    let text = utf8_lossy(request);
    let chars = chars_of(text.as_str());
    let ghost s = chars@;
    let end = match find_char(&chars, 0, chars.len(), '\n') {
        Some(i) => i,
        None => chars.len(),
    };
    proof {
        lemma_first_index(s, '\n');
        assert(s.subrange(0, s.len() as int) =~= s);
        assert(chars@.subrange(0, end as int) =~= first_line(s));
    }
    let fields = field_ranges(&chars, 0, end);
    let method = if fields.len() > 0 {
        string_of(&chars, fields[0].0, fields[0].1)
    } else {
        String::new()
    };
    let path = if fields.len() > 1 {
        string_of(&chars, fields[1].0, fields[1].1)
    } else {
        String::new()
    };
    (method, path)
}

pub fn route_for(method: &str, path: &str) -> (r: ApiRoute)
    ensures
        r == route_of(method@, path@),
{
    if crate::keyed::same_text(method, "OPTIONS") {
        ApiRoute::Preflight
    } else if !crate::keyed::same_text(method, "GET") {
        ApiRoute::MethodNotAllowed
    } else if crate::keyed::same_text(path, "/api/health") {
        ApiRoute::Health
    } else if crate::keyed::same_text(path, "/api/summary") {
        ApiRoute::Summary
    } else if crate::keyed::same_text(path, "/api/processes") {
        ApiRoute::Processes
    } else if crate::keyed::same_text(path, "/api/connections") {
        ApiRoute::Connections
    } else {
        ApiRoute::NotFound
    }
}

/// The resource a request asks for.
pub fn route(request: &[u8]) -> (r: ApiRoute)
    ensures
        r == route_of(request_word(lossy_utf8(request@), 0), request_word(lossy_utf8(request@), 1)),
{
    let (method, path) = request_target(request);
    route_for(method.as_str(), path.as_str())
}

pub open spec fn reason_of(status: u16) -> Seq<char> {
    if status == 200 {
        "OK"@
    } else if status == 204 {
        "No Content"@
    } else if status == 404 {
        "Not Found"@
    } else if status == 405 {
        "Method Not Allowed"@
    } else {
        "Internal Server Error"@
    }
}

pub fn status_reason(status: u16) -> (r: &'static str)
    ensures
        r@ == reason_of(status),
{
    if status == 200 {
        "OK"
    } else if status == 204 {
        "No Content"
    } else if status == 404 {
        "Not Found"
    } else if status == 405 {
        "Method Not Allowed"
    } else {
        "Internal Server Error"
    }
}

/// A whole response: status line, headers (content type, open CORS for
/// `GET` and `OPTIONS`, length, no keep-alive) and body.
pub open spec fn response_text(status: u16, content_type: Seq<char>, body: Seq<char>, body_len: nat) -> Seq<char> {
    "HTTP/1.1 "@ + decimal(status as nat) + " "@ + reason_of(status) + "\r\nContent-Type: "@
        + content_type + "\r\nAccess-Control-Allow-Origin: *\r\nAccess-Control-Allow-Methods: GET, OPTIONS\r\nContent-Length: "@
        + decimal(body_len) + "\r\nConnection: close\r\n\r\n"@ + body
}

/// Frames a response; the length header counts the body's UTF-8 bytes.
pub fn response(status: u16, body: &str, content_type: &str) -> (r: String)
    ensures
        r@ == response_text(status, content_type@, body@, body.len() as nat),
{
    let mut text = String::new();
    push_str(&mut text, "HTTP/1.1 ");
    push_decimal(&mut text, status as u64);
    push_str(&mut text, " ");
    push_str(&mut text, status_reason(status));
    push_str(&mut text, "\r\nContent-Type: ");
    push_str(&mut text, content_type);
    push_str(&mut text, "\r\nAccess-Control-Allow-Origin: *\r\nAccess-Control-Allow-Methods: GET, OPTIONS\r\nContent-Length: ");
    push_decimal(&mut text, body.len() as u64);
    push_str(&mut text, "\r\nConnection: close\r\n\r\n");
    push_str(&mut text, body);
    text
}

/// The JSON error body `{"error":"<message>"}`.
pub fn error_body(message: &str) -> (r: String)
    ensures
        r@ == "{\"error\":\""@ + message@ + "\"}"@,
{
    let mut text = String::new();
    push_str(&mut text, "{\"error\":\"");
    push_str(&mut text, message);
    push_str(&mut text, "\"}");
    text
}

/// How many of the records are not closed.
pub open spec fn active_count(rs: Seq<ConnectionRecord>) -> nat
    decreases rs.len(),
{
    if rs.len() == 0 {
        0
    } else {
        active_count(rs.drop_last()) + if rs.last().connection.state != ConnectionState::Closed {
            1nat
        } else {
            0nat
        }
    }
}

proof fn lemma_active_count_bound(rs: Seq<ConnectionRecord>)
    ensures
        active_count(rs) <= rs.len(),
    decreases rs.len(),
{
    if rs.len() > 0 {
        lemma_active_count_bound(rs.drop_last());
    }
}

pub fn active_connections(records: &Vec<ConnectionRecord>) -> (r: usize)
    ensures
        r == active_count(records@),
{
    let mut count: usize = 0;
    let mut i: usize = 0;
    assert(records@.take(0) =~= Seq::<ConnectionRecord>::empty());
    while i < records.len()
        invariant
            i <= records@.len(),
            count == active_count(records@.take(i as int)),
        decreases records.len() - i,
    {
        assert(records@.take(i + 1).drop_last() =~= records@.take(i as int));
        proof {
            lemma_active_count_bound(records@.take(i as int));
        }
        if records[i].connection.state != ConnectionState::Closed {
            count += 1;
        }
        i += 1;
    }
    assert(records@.take(i as int) =~= records@);
    count
}

/// The domains the records name.
pub open spec fn named_domains(rs: Seq<ConnectionRecord>) -> Set<Seq<char>> {
    Set::new(
        |d: Seq<char>|
            exists|j: int| 0 <= j < rs.len() && #[trigger] domain_named_at(rs, j, d),
    )
}

pub open spec fn domain_named_at(rs: Seq<ConnectionRecord>, j: int, d: Seq<char>) -> bool {
    rs[j].connection.domain matches Some(x) && x@ == d
}

fn has_text(v: &Vec<String>, t: &String) -> (r: bool)
    ensures
        r == strings_view(v@).contains(t@),
{
    let mut i: usize = 0;
    while i < v.len()
        invariant
            i <= v@.len(),
            forall|j: int| 0 <= j < i ==> v@[j]@ != t@,
        decreases v.len() - i,
    {
        if v[i] == *t {
            assert(strings_view(v@)[i as int] == t@);
            return true;
        }
        i += 1;
    }
    proof {
        if strings_view(v@).contains(t@) {
            let j = choose|j: int| 0 <= j < v@.len() && #[trigger] strings_view(v@)[j] == t@;
            assert(v@[j]@ == t@);
        }
    }
    false
}

/// The domains the first `n` records name.
pub open spec fn named_upto(rs: Seq<ConnectionRecord>, n: int) -> Set<Seq<char>> {
    Set::new(|d: Seq<char>| exists|j: int| 0 <= j < n && #[trigger] domain_named_at(rs, j, d))
}

proof fn lemma_named_step(rs: Seq<ConnectionRecord>, n: int)
    requires
        0 <= n < rs.len(),
    ensures
        named_upto(rs, n + 1) == match rs[n].connection.domain {
            Some(x) => named_upto(rs, n).insert(x@),
            None => named_upto(rs, n),
        },
{
    let target = match rs[n].connection.domain {
        Some(x) => named_upto(rs, n).insert(x@),
        None => named_upto(rs, n),
    };
    assert forall|d: Seq<char>| named_upto(rs, n + 1).contains(d) == target.contains(d) by {
        if named_upto(rs, n + 1).contains(d) {
            let j = choose|j: int| 0 <= j < n + 1 && #[trigger] domain_named_at(rs, j, d);
            if j < n {
                assert(named_upto(rs, n).contains(d));
            }
        }
        if named_upto(rs, n).contains(d) {
            let j = choose|j: int| 0 <= j < n && #[trigger] domain_named_at(rs, j, d);
            assert(domain_named_at(rs, j, d));
        }
        if rs[n].connection.domain matches Some(x) && x@ == d {
            assert(domain_named_at(rs, n, d));
        }
    }
    assert(named_upto(rs, n + 1) =~= target);
}

/// How many different domains the records name.
pub fn distinct_domains(records: &Vec<ConnectionRecord>) -> (r: usize)
    ensures
        r == named_domains(records@).len(),
{
    let mut seen: Vec<String> = Vec::new();
    let mut i: usize = 0;
    assert(strings_view(seen@).to_set() =~= named_upto(records@, 0));
    while i < records.len()
        invariant
            i <= records@.len(),
            seen@.len() <= i,
            strings_view(seen@).no_duplicates(),
            strings_view(seen@).to_set() == named_upto(records@, i as int),
        decreases records.len() - i,
    {
        let ghost before = strings_view(seen@);
        proof {
            lemma_named_step(records@, i as int);
        }
        if let Some(d) = &records[i].connection.domain {
            if !has_text(&seen, d) {
                seen.push(d.clone());
                assert(strings_view(seen@) =~= before.push(d@));
                assert(before.push(d@).to_set() =~= before.to_set().insert(d@)) by {
                    before.lemma_push_to_set_commute(d@);
                }
            } else {
                assert(before.to_set().insert(d@) =~= before.to_set());
            }
        }
        i += 1;
    }
    proof {
        strings_view(seen@).unique_seq_to_set();
        assert(named_domains(records@) =~= named_upto(records@, records@.len() as int));
    }
    seen.len()
}

/// A process's traffic: its open connections, and the bytes all its
/// connections sent and received (each sum saturating at `u64::MAX`).
pub open spec fn traffic_of(rs: Seq<ConnectionRecord>, pid: u32) -> (nat, nat, nat)
    decreases rs.len(),
{
    if rs.len() == 0 {
        (0, 0, 0)
    } else {
        let (c, s, r) = traffic_of(rs.drop_last(), pid);
        let x = rs.last();
        if x.pid == Some(pid) {
            (
                c + if x.connection.state != ConnectionState::Closed { 1nat } else { 0nat },
                sat_u64(s + x.connection.sent_bytes),
                sat_u64(r + x.connection.received_bytes),
            )
        } else {
            (c, s, r)
        }
    }
}

pub open spec fn sat_u64(n: int) -> nat {
    if n > u64::MAX {
        u64::MAX as nat
    } else if n < 0 {
        0
    } else {
        n as nat
    }
}

proof fn lemma_traffic_bounds(rs: Seq<ConnectionRecord>, pid: u32)
    ensures
        traffic_of(rs, pid).0 <= rs.len(),
        traffic_of(rs, pid).1 <= u64::MAX,
        traffic_of(rs, pid).2 <= u64::MAX,
    decreases rs.len(),
{
    if rs.len() > 0 {
        lemma_traffic_bounds(rs.drop_last(), pid);
    }
}

pub fn process_traffic(records: &Vec<ConnectionRecord>, pid: u32) -> (r: (usize, u64, u64))
    ensures
        (r.0 as nat, r.1 as nat, r.2 as nat) == traffic_of(records@, pid),
{
    let mut count: usize = 0;
    let mut sent: u64 = 0;
    let mut received: u64 = 0;
    let mut i: usize = 0;
    assert(records@.take(0) =~= Seq::<ConnectionRecord>::empty());
    while i < records.len()
        invariant
            i <= records@.len(),
            (count as nat, sent as nat, received as nat) == traffic_of(records@.take(i as int), pid),
        decreases records.len() - i,
    {
        assert(records@.take(i + 1).drop_last() =~= records@.take(i as int));
        proof {
            lemma_traffic_bounds(records@.take(i as int), pid);
        }
        let record = &records[i];
        if record.pid == Some(pid) {
            if record.connection.state != ConnectionState::Closed {
                count += 1;
            }
            sent = sent.saturating_add(record.connection.sent_bytes);
            received = received.saturating_add(record.connection.received_bytes);
        }
        i += 1;
    }
    assert(records@.take(i as int) =~= records@);
    (count, sent, received)
}

} // verus!
