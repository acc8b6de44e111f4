//! The durable event store's statements: the names events are filed under,
//! the filter a query becomes, and the bounds of a page.
use vstd::prelude::*;
use crate::events::{EventKind, EventSource};
use crate::storage::{page_limit, EventQuery};
use crate::text::push_str;

verus! {

/// The name an event kind is stored under.
pub open spec fn kind_column(k: EventKind) -> Seq<char> {
    match k {
        EventKind::ProcessExec => "process_exec"@,
        EventKind::ProcessExit => "process_exit"@,
        EventKind::TcpConnect => "tcp_connect"@,
        EventKind::TcpClose => "tcp_close"@,
        EventKind::TcpStateChanged => "tcp_state_changed"@,
        EventKind::TcpBytes => "tcp_bytes"@,
        EventKind::DnsQuery => "dns_query"@,
        EventKind::DnsResponse => "dns_response"@,
        EventKind::TlsMetadata => "tls_metadata"@,
        EventKind::Plaintext => "plaintext"@,
        EventKind::HttpCapture => "http_capture"@,
        EventKind::Http => "http"@,
        EventKind::FileOpen => "file_open"@,
        EventKind::FileRead => "file_read"@,
        EventKind::ObservationChanged => "observation_changed"@,
    }
}

pub fn event_kind_name(kind: EventKind) -> (r: &'static str)
    ensures
        r@ == kind_column(kind),
{
    match kind {
        EventKind::ProcessExec => "process_exec",
        EventKind::ProcessExit => "process_exit",
        EventKind::TcpConnect => "tcp_connect",
        EventKind::TcpClose => "tcp_close",
        EventKind::TcpStateChanged => "tcp_state_changed",
        EventKind::TcpBytes => "tcp_bytes",
        EventKind::DnsQuery => "dns_query",
        EventKind::DnsResponse => "dns_response",
        EventKind::TlsMetadata => "tls_metadata",
        EventKind::Plaintext => "plaintext",
        EventKind::HttpCapture => "http_capture",
        EventKind::Http => "http",
        EventKind::FileOpen => "file_open",
        EventKind::FileRead => "file_read",
        EventKind::ObservationChanged => "observation_changed",
    }
}

/// The name an event source is stored under.
pub open spec fn source_column(s: EventSource) -> Seq<char> {
    match s {
        EventSource::Kernel => "kernel"@,
        EventSource::Bpftime => "bpftime"@,
        EventSource::Core => "core"@,
    }
}

pub fn source_name(source: EventSource) -> (r: &'static str)
    ensures
        r@ == source_column(source),
{
    match source {
        EventSource::Kernel => "kernel",
        EventSource::Bpftime => "bpftime",
        EventSource::Core => "core",
    }
}

/// A value bound to a statement parameter.
#[derive(Debug, Clone, PartialEq, Eq)]
pub enum SqlValue {
    Integer(i64),
    Text(String),
}

pub enum SqlValueView {
    Integer(i64),
    Text(Seq<char>),
}

pub open spec fn value_view(v: SqlValue) -> SqlValueView {
    match v {
        SqlValue::Integer(i) => SqlValueView::Integer(i),
        SqlValue::Text(t) => SqlValueView::Text(t@),
    }
}

/// The conditions of a query, each with the value it binds, in the order
/// process, kind, connection.
pub open spec fn filter_terms(q: EventQuery) -> Seq<(Seq<char>, SqlValueView)> {
    let a = match q.pid {
        Some(p) => seq![("pid = ?"@, SqlValueView::Integer(p as i64))],
        None => Seq::empty(),
    };
    let b = match q.kind {
        Some(k) => seq![("kind = ?"@, SqlValueView::Text(kind_column(k)))],
        None => Seq::empty(),
    };
    let c = match q.connection_id {
        Some(id) => seq![("connection_id = ?"@, SqlValueView::Text(id@))],
        None => Seq::empty(),
    };
    a + b + c
}

/// Conditions joined by ` AND `.
pub open spec fn joined_terms(t: Seq<(Seq<char>, SqlValueView)>) -> Seq<char>
    decreases t.len(),
{
    if t.len() == 0 {
        Seq::empty()
    } else if t.len() == 1 {
        t[0].0
    } else {
        joined_terms(t.drop_last()) + " AND "@ + t.last().0
    }
}

proof fn lemma_join_push(t: Seq<(Seq<char>, SqlValueView)>, x: (Seq<char>, SqlValueView))
    ensures
        joined_terms(t.push(x)) == if t.len() == 0 {
            x.0
        } else {
            joined_terms(t) + " AND "@ + x.0
        },
{
    assert(t.push(x).drop_last() =~= t);
}

/// The `WHERE` clause of a query: empty without conditions.
pub open spec fn where_clause(q: EventQuery) -> Seq<char> {
    let t = filter_terms(q);
    if t.len() == 0 {
        Seq::empty()
    } else {
        "WHERE "@ + joined_terms(t)
    }
}

/// The `WHERE` clause of a query and the values it binds, in order.
pub fn build_filter(query: &EventQuery) -> (r: (String, Vec<SqlValue>))
    ensures
        r.0@ == where_clause(*query),
        r.1@.map_values(|v: SqlValue| value_view(v)) == filter_terms(*query).map_values(
            |t: (Seq<char>, SqlValueView)| t.1,
        ),
{
    let ghost terms = filter_terms(*query);
    let mut clause = String::new();
    let mut values: Vec<SqlValue> = Vec::new();
    let ghost mut taken: Seq<(Seq<char>, SqlValueView)> = Seq::empty();
    if let Some(pid) = query.pid {
        push_str(&mut clause, "pid = ?");
        values.push(SqlValue::Integer(pid as i64));
        proof {
            lemma_join_push(taken, ("pid = ?"@, SqlValueView::Integer(pid as i64)));
            taken = taken.push(("pid = ?"@, SqlValueView::Integer(pid as i64)));
        }
    }
    assert(clause@ == joined_terms(taken));
    assert(values@.len() == taken.len());
    if let Some(kind) = query.kind {
        if values.len() > 0 {
            push_str(&mut clause, " AND ");
        }
        push_str(&mut clause, "kind = ?");
        values.push(SqlValue::Text(event_kind_name(kind).to_owned()));
        proof {
            lemma_join_push(taken, ("kind = ?"@, SqlValueView::Text(kind_column(kind))));
            taken = taken.push(("kind = ?"@, SqlValueView::Text(kind_column(kind))));
        }
    }
    assert(clause@ == joined_terms(taken));
    assert(values@.len() == taken.len());
    if let Some(id) = &query.connection_id {
        if values.len() > 0 {
            push_str(&mut clause, " AND ");
        }
        push_str(&mut clause, "connection_id = ?");
        values.push(SqlValue::Text(id.clone()));
        proof {
            lemma_join_push(taken, ("connection_id = ?"@, SqlValueView::Text(id@)));
            taken = taken.push(("connection_id = ?"@, SqlValueView::Text(id@)));
        }
    }
    assert(taken =~= terms);
    assert(values@.map_values(|v: SqlValue| value_view(v)) =~= terms.map_values(
        |t: (Seq<char>, SqlValueView)| t.1,
    ));
    if values.len() == 0 {
        (String::new(), values)
    } else {
        let mut text = String::new();
        push_str(&mut text, "WHERE ");
        push_str(&mut text, clause.as_str());
        (text, values)
    }
}

/// The page a query asks for among `total` matches: at most `limit` rows
/// (1 to 200) after skipping `offset` (at most `total`) newest ones.
pub fn page_bounds(query: &EventQuery, total: usize) -> (r: (usize, usize))
    ensures
        r.0 == page_limit(query.limit),
        r.1 == (if query.offset < total {
            query.offset
        } else {
            total
        }),
{
    let limit = if query.limit < 1 {
        1
    } else if query.limit > 200 {
        200
    } else {
        query.limit
    };
    let offset = if query.offset < total {
        query.offset
    } else {
        total
    };
    (limit, offset)
}

/// The statement that counts a query's matches.
pub fn count_statement(where_sql: &str) -> (r: String)
    ensures
        r@ == "SELECT COUNT(*) FROM timeline_events "@ + where_sql@,
{
    let mut text = String::new();
    push_str(&mut text, "SELECT COUNT(*) FROM timeline_events ");
    push_str(&mut text, where_sql);
    text
}

/// The statement that reads a page of a query's matches, newest first; its
/// last two parameters are the limit and the offset.
pub fn page_statement(where_sql: &str) -> (r: String)
    ensures
        r@ == "SELECT payload_json FROM timeline_events "@ + where_sql@
            + " ORDER BY timestamp_ns DESC, sequence DESC LIMIT ? OFFSET ?"@,
{
    let mut text = String::new();
    push_str(&mut text, "SELECT payload_json FROM timeline_events ");
    push_str(&mut text, where_sql);
    push_str(&mut text, " ORDER BY timestamp_ns DESC, sequence DESC LIMIT ? OFFSET ?");
    text
}

/// An event time as a stored integer; times past `i64::MAX` cannot be
/// stored.
pub fn stored_timestamp(timestamp_ns: u64) -> (r: Result<i64, String>)
    ensures
        match r {
            Ok(v) => timestamp_ns <= i64::MAX && v == timestamp_ns,
            Err(e) => timestamp_ns > i64::MAX && e@ == "event timestamp does not fit SQLite INTEGER"@,
        },
{
    if timestamp_ns <= i64::MAX as u64 {
        Ok(timestamp_ns as i64)
    } else {
        Err("event timestamp does not fit SQLite INTEGER".to_owned())
    }
}

/// A stored count as a number of events; a negative one is refused.
pub fn stored_count(value: i64) -> (r: Result<usize, String>)
    ensures
        match r {
            Ok(n) => 0 <= value <= usize::MAX && n == value,
            Err(e) => !(0 <= value <= usize::MAX) && e@ == "event count does not fit usize"@,
        },
{
    if value >= 0 && (value as u64) <= usize::MAX as u64 {
        Ok(value as usize)
    } else {
        Err("event count does not fit usize".to_owned())
    }
}

} // verus!
