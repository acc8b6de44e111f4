//! Timeline queries over the event store: pages of timeline entries, and
//! connection sessions (which connection records a session query lists, in
//! what order, and which events each session shows).
use vstd::prelude::*;
use crate::capture::strings_view;
use crate::events::{
    clone_opt_endpoint, clone_opt_string, event_copy, ConnectionState, EventKind, EventPayload,
    TraceEvent,
};
use crate::keyed::{lemma_text_lt_irreflexive, lemma_text_lt_transitive, text_less, text_lt};
use crate::network::tracker::{ConnectionRecord, ConnectionTracker};
use crate::storage::{matching, page_limit, page_window, EventPage, EventQuery, MemoryStore};
use crate::timeline::{
    projects, shown_connection, ConnectionTimeline, ConnectionTimelineFilter,
    ConnectionTimelinePage, TimelineEntry, TimelineFilter, TimelinePage,
};
use crate::tls::tracker::{linked_to, newest_for_connection, TlsSession, TlsTracker};

verus! {

broadcast use vstd::seq_lib::group_to_multiset_ensures;

/// Whether a session query lists this record.
pub open spec fn session_selected(r: ConnectionRecord, f: ConnectionTimelineFilter) -> bool {
    &&& (f.pid matches Some(p) ==> r.pid == Some(p))
    &&& (f.connection_id matches Some(id) ==> r.connection.id@ == id@)
    &&& (f.include_closed || r.connection.state != ConnectionState::Closed)
}

/// The records a query lists, in the order given.
pub open spec fn selected_sessions(rs: Seq<ConnectionRecord>, f: ConnectionTimelineFilter) -> Seq<
    ConnectionRecord,
>
    decreases rs.len(),
{
    if rs.len() == 0 {
        Seq::empty()
    } else if session_selected(rs.last(), f) {
        selected_sessions(rs.drop_last(), f).push(rs.last())
    } else {
        selected_sessions(rs.drop_last(), f)
    }
}

/// `a` is listed before `b`: it was seen later, or at the same time and its
/// id sorts after that of `b`.
pub open spec fn listed_before(a: ConnectionRecord, b: ConnectionRecord) -> bool {
    ||| a.last_seen_ns > b.last_seen_ns
    ||| (a.last_seen_ns == b.last_seen_ns && text_lt(b.connection.id@, a.connection.id@))
}

/// Where `x` goes in a listing: before the first record it is listed
/// before, after all others.
pub open spec fn recency_slot(t: Seq<ConnectionRecord>, x: ConnectionRecord) -> nat
    decreases t.len(),
{
    if t.len() == 0 {
        0
    } else if listed_before(x, t[0]) {
        0
    } else {
        1 + recency_slot(t.drop_first(), x)
    }
}

/// The records most recent first (ties by greater id), records that compare
/// equal keeping their order: the stable sort by `listed_before`.
pub open spec fn by_recency(rs: Seq<ConnectionRecord>) -> Seq<ConnectionRecord>
    decreases rs.len(),
{
    if rs.len() == 0 {
        Seq::empty()
    } else {
        let t = by_recency(rs.drop_last());
        t.insert(recency_slot(t, rs.last()) as int, rs.last())
    }
}

proof fn lemma_slot_bound(t: Seq<ConnectionRecord>, x: ConnectionRecord)
    ensures
        recency_slot(t, x) <= t.len(),
        forall|j: int| 0 <= j < recency_slot(t, x) ==> !listed_before(x, #[trigger] t[j]),
        recency_slot(t, x) < t.len() ==> listed_before(x, t[recency_slot(t, x) as int]),
    decreases t.len(),
{
    if t.len() > 0 && !listed_before(x, t[0]) {
        lemma_slot_bound(t.drop_first(), x);
        assert forall|j: int| 0 <= j < recency_slot(t, x) implies !listed_before(x, #[trigger] t[j]) by {
            if j > 0 {
                assert(t[j] == t.drop_first()[j - 1]);
            }
        }
    }
}

proof fn lemma_listed_before_transitive(a: ConnectionRecord, b: ConnectionRecord, c: ConnectionRecord)
    requires
        listed_before(a, b),
        listed_before(b, c),
    ensures
        listed_before(a, c),
{
    if a.last_seen_ns == b.last_seen_ns && b.last_seen_ns == c.last_seen_ns {
        lemma_text_lt_transitive(c.connection.id@, b.connection.id@, a.connection.id@);
    }
}

/// Sessions are listed most recent first, and a listing holds exactly the
/// records it was made from.
pub proof fn lemma_sessions_most_recent_first(rs: Seq<ConnectionRecord>)
    ensures
        forall|i: int, j: int|
            0 <= i < j < by_recency(rs).len() ==> !listed_before(
                #[trigger] by_recency(rs)[j],
                #[trigger] by_recency(rs)[i],
            ),
        by_recency(rs).to_multiset() == rs.to_multiset(),
    decreases rs.len(),
{
    if rs.len() > 0 {
        let t = by_recency(rs.drop_last());
        let x = rs.last();
        lemma_sessions_most_recent_first(rs.drop_last());
        lemma_slot_bound(t, x);
        let k = recency_slot(t, x) as int;
        let u = t.insert(k, x);
        t.insert_ensures(k, x);
        assert forall|i: int, j: int| 0 <= i < j < u.len() implies !listed_before(
            #[trigger] u[j],
            #[trigger] u[i],
        ) by {
            if j == k {
                assert(u[i] == t[i]);
            } else if i == k {
                assert(u[j] == t[j - 1]);
                assert(!listed_before(t[j - 1], t[k])) by {
                    if j - 1 == k {
                        lemma_text_lt_irreflexive(t[k].connection.id@);
                    }
                }
                if listed_before(t[j - 1], x) {
                    lemma_listed_before_transitive(t[j - 1], x, t[k]);
                }
            } else {
                let ii = if i < k { i } else { i - 1 };
                let jj = if j < k { j } else { j - 1 };
                assert(u[i] == t[ii]);
                assert(u[j] == t[jj]);
            }
        }
        assert(rs =~= rs.drop_last().push(x));
    }
}

/// Whether `a` is listed before `b`.
fn is_listed_before(a: &ConnectionRecord, b: &ConnectionRecord) -> (r: bool)
    ensures
        r == listed_before(*a, *b),
{
    a.last_seen_ns > b.last_seen_ns || (a.last_seen_ns == b.last_seen_ns && text_less(
        &b.connection.id,
        &a.connection.id,
    ))
}

fn slot_of(t: &Vec<ConnectionRecord>, x: &ConnectionRecord) -> (k: usize)
    ensures
        k == recency_slot(t@, *x),
{
    let mut i: usize = 0;
    assert(t@.skip(0) =~= t@);
    while i < t.len() && !is_listed_before(x, &t[i])
        invariant
            i <= t@.len(),
            i + recency_slot(t@.skip(i as int), *x) == recency_slot(t@, *x),
        decreases t.len() - i,
    {
        assert(t@.skip(i as int)[0] == t@[i as int]);
        assert(t@.skip(i as int).drop_first() =~= t@.skip(i + 1));
        i += 1;
    }
    if i < t.len() {
        assert(t@.skip(i as int)[0] == t@[i as int]);
    }
    i
}

/// The records a session query lists, most recent first.
pub fn sessions_by_recency(records: &Vec<ConnectionRecord>, filter: &ConnectionTimelineFilter) -> (r: Vec<
    ConnectionRecord,
>)
    ensures
        r@ == by_recency(selected_sessions(records@, *filter)),
{
    let mut sorted: Vec<ConnectionRecord> = Vec::new();
    let mut i: usize = 0;
    assert(records@.take(0) =~= Seq::<ConnectionRecord>::empty());
    while i < records.len()
        invariant
            i <= records@.len(),
            sorted@ == by_recency(selected_sessions(records@.take(i as int), *filter)),
        decreases records.len() - i,
    {
        let ghost prefix = records@.take(i as int);
        assert(records@.take(i + 1).drop_last() =~= prefix);
        assert(records@.take(i + 1).last() == records@[i as int]);
        let record = &records[i];
        let pid_ok = match filter.pid {
            Some(p) => record.pid == Some(p),
            None => true,
        };
        let id_ok = match &filter.connection_id {
            Some(id) => record.connection.id == *id,
            None => true,
        };
        let wanted = pid_ok && id_ok && (filter.include_closed || record.connection.state
            != ConnectionState::Closed);
        if wanted {
            let ghost sel = selected_sessions(prefix, *filter);
            assert(sel.push(records@[i as int]).drop_last() =~= sel);
            let k = slot_of(&sorted, record);
            proof {
                lemma_slot_bound(sorted@, *record);
            }
            sorted.insert(k, record.duplicate());
        }
        i += 1;
    }
    assert(records@.take(records@.len() as int) =~= records@);
    sorted
}

/// How long before a connection was first seen a DNS event still counts as
/// its context.
pub const DNS_CONTEXT_WINDOW_NS: u64 = 30_000_000_000;

pub open spec fn event_ids(es: Seq<TraceEvent>) -> Seq<Seq<char>> {
    es.map_values(|e: TraceEvent| e.id@)
}

/// The stored events a session shows: the first event of each id, without
/// plaintext fragments unless they are asked for.
pub open spec fn stored_events(es: Seq<TraceEvent>, include_plaintext: bool) -> Seq<TraceEvent>
    decreases es.len(),
{
    if es.len() == 0 {
        Seq::empty()
    } else {
        let p = stored_events(es.drop_last(), include_plaintext);
        let e = es.last();
        if (include_plaintext || e.kind != EventKind::Plaintext) && !event_ids(p).contains(e.id@) {
            p.push(e)
        } else {
            p
        }
    }
}

/// Whether a DNS event of the connection's process names the connection's
/// domain in the time around it: a query for the domain, or an answer for
/// it that lists the connection's remote address.
pub open spec fn dns_context_match(r: ConnectionRecord, e: TraceEvent) -> bool {
    let start = if r.first_seen_ns >= DNS_CONTEXT_WINDOW_NS {
        r.first_seen_ns - DNS_CONTEXT_WINDOW_NS
    } else {
        0
    };
    &&& e.pid == r.pid
    &&& start <= e.timestamp_ns <= r.last_seen_ns
    &&& r.connection.domain matches Some(d)
    &&& e.payload matches EventPayload::Dns { domain, addresses, .. }
    &&& domain@ == d@
    &&& (e.kind == EventKind::DnsQuery || strings_view(addresses@).contains(
        r.connection.remote.address@,
    ))
}

/// The DNS events added as context, in the order given, each id once and
/// none of those already `seen`.
pub open spec fn dns_context(seen: Seq<Seq<char>>, r: ConnectionRecord, es: Seq<TraceEvent>) -> Seq<
    TraceEvent,
>
    decreases es.len(),
{
    if es.len() == 0 {
        Seq::empty()
    } else {
        let p = dns_context(seen, r, es.drop_last());
        let e = es.last();
        if dns_context_match(r, e) && !(seen + event_ids(p)).contains(e.id@) {
            p.push(e)
        } else {
            p
        }
    }
}

/// Where `x` goes among events in time order: after every event not later
/// than it.
pub open spec fn time_slot(t: Seq<TraceEvent>, x: TraceEvent) -> nat
    decreases t.len(),
{
    if t.len() == 0 {
        0
    } else if x.timestamp_ns < t[0].timestamp_ns {
        0
    } else {
        1 + time_slot(t.drop_first(), x)
    }
}

/// The events oldest first, events of the same time keeping their order.
pub open spec fn by_time(es: Seq<TraceEvent>) -> Seq<TraceEvent>
    decreases es.len(),
{
    if es.len() == 0 {
        Seq::empty()
    } else {
        let t = by_time(es.drop_last());
        t.insert(time_slot(t, es.last()) as int, es.last())
    }
}

/// The last `n` of a sequence.
pub open spec fn last_n<T>(s: Seq<T>, n: nat) -> Seq<T> {
    if s.len() > n {
        s.skip(s.len() - n)
    } else {
        s
    }
}

/// The events a session lists, in the order listed.
pub open spec fn session_events(
    r: ConnectionRecord,
    page: Seq<TraceEvent>,
    dns: Seq<TraceEvent>,
    f: ConnectionTimelineFilter,
) -> Seq<TraceEvent> {
    if f.include_events {
        let s = stored_events(page, f.include_plaintext);
        last_n(by_time(s + dns_context(event_ids(s), r, dns)), page_limit(f.event_limit))
    } else {
        Seq::empty()
    }
}

/// An event as a session entry: its timeline entry, under the session's id.
pub open spec fn shown_in_session(e: TraceEvent, entry: TimelineEntry, id: Seq<char>) -> bool {
    &&& entry.connection_id matches Some(c) && c@ == id
    &&& projects(
        e,
        TimelineEntry {
            connection_id: match shown_connection(e) {
                Some(x) => Some(x.id),
                None => None,
            },
            ..entry
        },
    )
}

pub open spec fn saturating_add(a: nat, b: nat) -> nat {
    if a + b > usize::MAX {
        usize::MAX as nat
    } else {
        a + b
    }
}

/// What a session built from these inputs holds.
pub open spec fn session_of(
    s: ConnectionTimeline,
    r: ConnectionRecord,
    page: Seq<TraceEvent>,
    page_total: nat,
    dns: Seq<TraceEvent>,
    tls: Option<TlsSession>,
    f: ConnectionTimelineFilter,
) -> bool {
    let shown = session_events(r, page, dns, f);
    let added = if f.include_events {
        let kept = stored_events(page, f.include_plaintext);
        dns_context(event_ids(kept), r, dns).len()
    } else {
        0
    };
    &&& s.id@ == r.connection.id@
    &&& s.pid == r.pid
    &&& s.process_name == match r.process {
        Some(p) => p.executable,
        None => None,
    }
    &&& s.process_command_line == match r.process {
        Some(p) => p.command_line,
        None => None,
    }
    &&& s.protocol == r.connection.protocol
    &&& s.local == r.connection.local
    &&& s.remote == r.connection.remote
    &&& s.domain == r.connection.domain
    &&& s.tls_sni == match tls {
        Some(t) => t.server_name,
        None => None,
    }
    &&& s.tls_version == match tls {
        Some(t) => t.version,
        None => None,
    }
    &&& s.state == r.connection.state
    &&& s.tcp_state == r.connection.tcp_state
    &&& s.first_seen_ns == r.first_seen_ns
    &&& s.last_seen_ns == r.last_seen_ns
    &&& s.duration_ns == (if r.last_seen_ns >= r.first_seen_ns {
        r.last_seen_ns - r.first_seen_ns
    } else {
        0
    })
    &&& s.sent_bytes == r.connection.sent_bytes
    &&& s.received_bytes == r.connection.received_bytes
    &&& s.event_count == saturating_add(page_total, added)
    &&& s.events@.len() == shown.len()
    &&& forall|i: int|
        0 <= i < shown.len() ==> shown_in_session(shown[i], #[trigger] s.events@[i], r.connection.id@)
}

proof fn lemma_ids_push(ids: Seq<String>, es: Seq<TraceEvent>, s: String, e: TraceEvent)
    requires
        strings_view(ids) == event_ids(es),
        s@ == e.id@,
    ensures
        strings_view(ids.push(s)) == event_ids(es.push(e)),
{
    let a = strings_view(ids.push(s));
    let b = event_ids(es.push(e));
    assert(ids.len() == strings_view(ids).len());
    assert(es.len() == event_ids(es).len());
    assert forall|i: int| 0 <= i < a.len() implies a[i] == b[i] by {
        if i < ids.len() {
            assert(ids.push(s)[i] == ids[i]);
            assert(es.push(e)[i] == es[i]);
            assert(strings_view(ids)[i] == event_ids(es)[i]);
        }
    }
    assert(a =~= b);
}

fn has_id(ids: &Vec<String>, id: &String) -> (r: bool)
    ensures
        r == strings_view(ids@).contains(id@),
{
    let mut i: usize = 0;
    while i < ids.len()
        invariant
            i <= ids@.len(),
            forall|j: int| 0 <= j < i ==> ids@[j]@ != id@,
        decreases ids.len() - i,
    {
        if ids[i] == *id {
            assert(strings_view(ids@)[i as int] == id@);
            return true;
        }
        i += 1;
    }
    proof {
        if strings_view(ids@).contains(id@) {
            let j = choose|j: int|
                0 <= j < ids@.len() && #[trigger] strings_view(ids@)[j] == id@;
            assert(ids@[j]@ == id@);
        }
    }
    false
}

fn time_slot_of(t: &Vec<TraceEvent>, x: &TraceEvent) -> (k: usize)
    ensures
        k == time_slot(t@, *x),
{
    let mut i: usize = 0;
    assert(t@.skip(0) =~= t@);
    while i < t.len() && x.timestamp_ns >= t[i].timestamp_ns
        invariant
            i <= t@.len(),
            i + time_slot(t@.skip(i as int), *x) == time_slot(t@, *x),
        decreases t.len() - i,
    {
        assert(t@.skip(i as int)[0] == t@[i as int]);
        assert(t@.skip(i as int).drop_first() =~= t@.skip(i + 1));
        i += 1;
    }
    if i < t.len() {
        assert(t@.skip(i as int)[0] == t@[i as int]);
    }
    i
}

proof fn lemma_time_slot_facts(t: Seq<TraceEvent>, x: TraceEvent)
    ensures
        time_slot(t, x) <= t.len(),
        forall|j: int| 0 <= j < time_slot(t, x) ==> (#[trigger] t[j]).timestamp_ns <= x.timestamp_ns,
        time_slot(t, x) < t.len() ==> x.timestamp_ns < t[time_slot(t, x) as int].timestamp_ns,
    decreases t.len(),
{
    if t.len() > 0 && x.timestamp_ns >= t[0].timestamp_ns {
        lemma_time_slot_facts(t.drop_first(), x);
        assert forall|j: int| 0 <= j < time_slot(t, x) implies (#[trigger] t[j]).timestamp_ns
            <= x.timestamp_ns by {
            if j > 0 {
                assert(t[j] == t.drop_first()[j - 1]);
            }
        }
    }
}

/// A session lists its events oldest first, and sorting keeps every event.
pub proof fn lemma_events_oldest_first(es: Seq<TraceEvent>)
    ensures
        forall|i: int, j: int|
            0 <= i < j < by_time(es).len() ==> (#[trigger] by_time(es)[i]).timestamp_ns <= (
            #[trigger] by_time(es)[j]).timestamp_ns,
        by_time(es).to_multiset() == es.to_multiset(),
    decreases es.len(),
{
    if es.len() > 0 {
        let t = by_time(es.drop_last());
        let x = es.last();
        lemma_events_oldest_first(es.drop_last());
        lemma_time_slot_facts(t, x);
        let k = time_slot(t, x) as int;
        let u = t.insert(k, x);
        t.insert_ensures(k, x);
        assert forall|i: int, j: int| 0 <= i < j < u.len() implies (#[trigger] u[i]).timestamp_ns
            <= (#[trigger] u[j]).timestamp_ns by {
            if j == k {
                assert(u[i] == t[i]);
            } else if i == k {
                assert(u[j] == t[j - 1]);
                if j - 1 > k {
                    assert(t[k].timestamp_ns <= t[j - 1].timestamp_ns);
                }
            } else {
                let ii = if i < k { i } else { i - 1 };
                let jj = if j < k { j } else { j - 1 };
                assert(u[i] == t[ii]);
                assert(u[j] == t[jj]);
            }
        }
        assert(es =~= es.drop_last().push(x));
    }
}

/// Events oldest first, events of the same time keeping their order.
pub fn sort_by_time(events: Vec<TraceEvent>) -> (r: Vec<TraceEvent>)
    ensures
        r@ == by_time(events@),
{
    let ghost all = events@;
    let n = events.len();
    let mut rest = events;
    let mut sorted: Vec<TraceEvent> = Vec::new();
    let mut i: usize = 0;
    assert(all.take(0) =~= Seq::<TraceEvent>::empty());
    assert(all.skip(0) =~= all);
    while rest.len() > 0
        invariant
            i <= all.len(),
            all.len() == n,
            rest@ == all.skip(i as int),
            sorted@ == by_time(all.take(i as int)),
        decreases rest.len(),
    {
        let e = rest.remove(0);
        assert(all.take(i + 1).drop_last() =~= all.take(i as int));
        assert(all.take(i + 1).last() == e);
        assert(rest@ =~= all.skip(i + 1));
        let k = time_slot_of(&sorted, &e);
        proof {
            lemma_time_slot_facts(sorted@, e);
        }
        sorted.insert(k, e);
        i += 1;
    }
    assert(all.take(i as int) =~= all);
    sorted
}

fn is_dns_context(r: &ConnectionRecord, e: &TraceEvent) -> (b: bool)
    ensures
        b == dns_context_match(*r, *e),
{
    let start = r.first_seen_ns.saturating_sub(DNS_CONTEXT_WINDOW_NS);
    if e.pid != r.pid || e.timestamp_ns < start || e.timestamp_ns > r.last_seen_ns {
        return false;
    }
    let d = match &r.connection.domain {
        Some(d) => d,
        None => return false,
    };
    match &e.payload {
        EventPayload::Dns { domain, addresses, .. } => {
            if *domain != *d {
                return false;
            }
            e.kind == EventKind::DnsQuery || has_id(addresses, &r.connection.remote.address)
        },
        _ => false,
    }
}

/// The session of a connection record: its metadata, the number of events
/// stored for it, and the events it lists (the stored page and the DNS
/// context, each id once, oldest first, the last `event_limit` of them).
pub fn session_timeline(
    record: &ConnectionRecord,
    page: EventPage,
    dns: Vec<TraceEvent>,
    tls: Option<&TlsSession>,
    filter: &ConnectionTimelineFilter,
) -> (s: ConnectionTimeline)
    ensures
        session_of(
            s,
            *record,
            page.events@,
            page.total as nat,
            dns@,
            match tls {
                Some(t) => Some(*t),
                None => None,
            },
            *filter,
        ),
{
    let ghost pe = page.events@;
    let ghost de = dns@;
    let mut chosen: Vec<TraceEvent> = Vec::new();
    let mut ids: Vec<String> = Vec::new();
    let mut added: usize = 0;
    if filter.include_events {
        let n = page.events.len();
        let mut rest = page.events;
        let mut i: usize = 0;
        assert(pe.take(0) =~= Seq::<TraceEvent>::empty());
        assert(pe.skip(0) =~= pe);
        while rest.len() > 0
            invariant
                i <= pe.len(),
                pe.len() == n,
                rest@ == pe.skip(i as int),
                chosen@ == stored_events(pe.take(i as int), filter.include_plaintext),
                strings_view(ids@) == event_ids(chosen@),
            decreases rest.len(),
        {
            let e = rest.remove(0);
            assert(pe.take(i + 1).drop_last() =~= pe.take(i as int));
            assert(pe.take(i + 1).last() == e);
            assert(rest@ =~= pe.skip(i + 1));
            if (filter.include_plaintext || e.kind != EventKind::Plaintext) && !has_id(&ids, &e.id) {
                proof {
                    lemma_ids_push(ids@, chosen@, e.id, e);
                }
                ids.push(e.id.clone());
                chosen.push(e);
            }
            i += 1;
        }
        assert(pe.take(i as int) =~= pe);
        let ghost kept = chosen@;
        let ghost seen = event_ids(kept);
        let dn = dns.len();
        let mut rest = dns;
        let mut j: usize = 0;
        let ghost start_len = chosen@.len();
        assert(de.take(0) =~= Seq::<TraceEvent>::empty());
        assert(de.skip(0) =~= de);
        assert(kept + dns_context(seen, *record, de.take(0)) =~= kept);
        while rest.len() > 0
            invariant
                j <= de.len(),
                de.len() == dn,
                rest@ == de.skip(j as int),
                seen == event_ids(kept),
                chosen@ == kept + dns_context(seen, *record, de.take(j as int)),
                strings_view(ids@) == event_ids(chosen@),
                added == dns_context(seen, *record, de.take(j as int)).len(),
                added <= j,
            decreases rest.len(),
        {
            let e = rest.remove(0);
            let ghost before = dns_context(seen, *record, de.take(j as int));
            assert(de.take(j + 1).drop_last() =~= de.take(j as int));
            assert(de.take(j + 1).last() == e);
            assert(rest@ =~= de.skip(j + 1));
            assert(event_ids(chosen@) =~= seen + event_ids(before));
            if is_dns_context(record, &e) && !has_id(&ids, &e.id) {
                proof {
                    lemma_ids_push(ids@, chosen@, e.id, e);
                }
                ids.push(e.id.clone());
                chosen.push(e);
                added += 1;
                assert(chosen@ =~= kept + before.push(de[j as int]));
            }
            j += 1;
        }
        assert(de.take(j as int) =~= de);
    }
    let sorted = sort_by_time(chosen);
    let cap: usize = if filter.event_limit < 1 {
        1
    } else if filter.event_limit > 200 {
        200
    } else {
        filter.event_limit
    };
    let mut shown = sorted;
    let ghost all = shown@;
    let start: usize = if shown.len() > cap {
        shown.len() - cap
    } else {
        0
    };
    let mut tail = shown.split_off(start);
    let ghost t = tail@;
    let tn = tail.len();
    assert(t =~= last_n(all, page_limit(filter.event_limit)));
    let mut events: Vec<TimelineEntry> = Vec::new();
    let mut k: usize = 0;
    assert(t.skip(0) =~= t);
    while tail.len() > 0
        invariant
            k <= t.len(),
            t.len() == tn,
            tail@ == t.skip(k as int),
            events@.len() == k,
            forall|m: int| 0 <= m < k ==> shown_in_session(t[m], #[trigger] events@[m], record.connection.id@),
        decreases tail.len(),
    {
        let e = tail.remove(0);
        assert(e == t[k as int]);
        assert(tail@ =~= t.skip(k + 1));
        let ghost ev = e;
        let mut entry = TimelineEntry::from_event(e);
        let ghost projected = entry;
        entry.connection_id = Some(record.connection.id.clone());
        assert(TimelineEntry {
            connection_id: match shown_connection(ev) {
                Some(x) => Some(x.id),
                None => None,
            },
            ..entry
        } == projected);
        events.push(entry);
        k += 1;
    }
    let (process_name, process_command_line) = match &record.process {
        Some(p) => (clone_opt_string(&p.executable), clone_opt_string(&p.command_line)),
        None => (None, None),
    };
    let (tls_sni, tls_version) = match tls {
        Some(t) => (clone_opt_string(&t.server_name), clone_opt_string(&t.version)),
        None => (None, None),
    };
    ConnectionTimeline {
        id: record.connection.id.clone(),
        pid: record.pid,
        process_name,
        process_command_line,
        protocol: record.connection.protocol,
        local: clone_opt_endpoint(&record.connection.local),
        remote: record.connection.remote.duplicate(),
        domain: clone_opt_string(&record.connection.domain),
        tls_sni,
        tls_version,
        state: record.connection.state,
        tcp_state: record.connection.tcp_state,
        first_seen_ns: record.first_seen_ns,
        last_seen_ns: record.last_seen_ns,
        duration_ns: record.last_seen_ns.saturating_sub(record.first_seen_ns),
        sent_bytes: record.connection.sent_bytes,
        received_bytes: record.connection.received_bytes,
        event_count: page.total.saturating_add(added),
        events,
    }
}

/// What a store answers to a query: how many events match, and a page of
/// copies of the stored events.
pub open spec fn store_answer(
    es: Seq<(u64, TraceEvent)>,
    q: EventQuery,
    events: Seq<TraceEvent>,
    total: nat,
) -> bool {
    &&& total == matching(es, q).len()
    &&& events.len() == page_window(es, q).len()
    &&& forall|k: int| 0 <= k < events.len() ==> event_copy(#[trigger] events[k], page_window(es, q)[k].1)
}

/// The query for the events stored under a session's connection.
pub open spec fn session_query(r: ConnectionRecord, f: ConnectionTimelineFilter) -> EventQuery {
    EventQuery {
        pid: None,
        kind: None,
        connection_id: Some(r.connection.id),
        offset: 0,
        limit: if f.include_events {
            f.event_limit
        } else {
            1
        },
    }
}

/// The query for a process's DNS events of one kind.
pub open spec fn dns_query(pid: u32, kind: EventKind) -> EventQuery {
    EventQuery { pid: Some(pid), kind: Some(kind), connection_id: None, offset: 0, limit: 200 }
}

/// The DNS events a session is matched against: when events are listed and
/// the process is known, its newest queries and answers, oldest first.
pub open spec fn dns_answer(
    es: Seq<(u64, TraceEvent)>,
    r: ConnectionRecord,
    f: ConnectionTimelineFilter,
    dns: Seq<TraceEvent>,
) -> bool {
    if f.include_events && r.pid is Some {
        exists|a: Seq<TraceEvent>, at: nat, b: Seq<TraceEvent>, bt: nat|
            #![trigger store_answer(es, dns_query(r.pid->0, EventKind::DnsQuery), a, at), store_answer(es, dns_query(r.pid->0, EventKind::DnsResponse), b, bt)]
            store_answer(es, dns_query(r.pid->0, EventKind::DnsQuery), a, at) && store_answer(
                es,
                dns_query(r.pid->0, EventKind::DnsResponse),
                b,
                bt,
            ) && dns == by_time(a + b)
    } else {
        dns.len() == 0
    }
}

/// The TLS session shown for a connection: the newest linked to it, if any.
pub open spec fn tls_answer(
    sessions: Map<(u32, u64), TlsSession>,
    id: Seq<char>,
    t: Option<TlsSession>,
) -> bool {
    match t {
        Some(s) => exists|k: (u32, u64)| #[trigger] newest_for_connection(sessions, k, id) && s == sessions[k],
        None => forall|k: (u32, u64)| sessions.contains_key(k) ==> !linked_to(#[trigger] sessions[k], id),
    }
}

/// A session of the page, built from what the store and the TLS tracker
/// hold for its record.
pub open spec fn session_answer(
    s: ConnectionTimeline,
    r: ConnectionRecord,
    es: Seq<(u64, TraceEvent)>,
    tls: Map<(u32, u64), TlsSession>,
    f: ConnectionTimelineFilter,
) -> bool {
    exists|pe: Seq<TraceEvent>, pt: nat, dn: Seq<TraceEvent>, tm: Option<TlsSession>|
        #[trigger] session_of(s, r, pe, pt, dn, tm, f) && store_answer(es, session_query(r, f), pe, pt)
            && dns_answer(es, r, f, dn) && tls_answer(tls, r.connection.id@, tm)
}

fn dns_events(store: &MemoryStore, record: &ConnectionRecord, filter: &ConnectionTimelineFilter) -> (r: Vec<
    TraceEvent,
>)
    requires
        store.wf(),
    ensures
        dns_answer(store.entries(), *record, *filter, r@),
{
    match record.pid {
        Some(pid) if filter.include_events => {
            let q1 = EventQuery {
                pid: Some(pid),
                kind: Some(EventKind::DnsQuery),
                connection_id: None,
                offset: 0,
                limit: 200,
            };
            let q2 = EventQuery {
                pid: Some(pid),
                kind: Some(EventKind::DnsResponse),
                connection_id: None,
                offset: 0,
                limit: 200,
            };
            let first = store.query(q1);
            let second = store.query(q2);
            let ghost a = first.events@;
            let ghost b = second.events@;
            let mut all = first.events;
            let mut more = second.events;
            all.append(&mut more);
            let r = sort_by_time(all);
            assert(store_answer(store.entries(), dns_query(pid, EventKind::DnsQuery), a, first.total as nat));
            assert(store_answer(store.entries(), dns_query(pid, EventKind::DnsResponse), b, second.total as nat));
            r
        },
        _ => Vec::new(),
    }
}

/// A page of connection sessions, most recent first: each listed record
/// with the events stored for it, the DNS lookups that led to it and its
/// TLS metadata.
pub fn connection_timeline_page(
    connections: &ConnectionTracker,
    tls: &TlsTracker,
    store: &MemoryStore,
    filter: ConnectionTimelineFilter,
) -> (p: ConnectionTimelinePage)
    requires
        connections.wf(),
        tls.wf(),
        store.wf(),
    ensures
        ({
            let listed = by_recency(selected_sessions(connections.listing(), filter));
            &&& p.total == listed.len()
            &&& p.limit == page_limit(filter.limit)
            &&& p.offset == (if filter.offset < p.total {
                filter.offset
            } else {
                p.total
            })
            &&& p.sessions@.len() == (if p.total - p.offset < p.limit {
                p.total - p.offset
            } else {
                p.limit as int
            })
            &&& p.has_more == (p.offset + p.sessions@.len() < p.total)
            &&& forall|i: int|
                0 <= i < p.sessions@.len() ==> session_answer(
                    #[trigger] p.sessions@[i],
                    listed[p.offset + i],
                    store.entries(),
                    tls.sessions_view(),
                    filter,
                )
        }),
{
    let records = connections.listed();
    let listed = sessions_by_recency(&records, &filter);
    let total = listed.len();
    let limit: usize = if filter.limit < 1 {
        1
    } else if filter.limit > 200 {
        200
    } else {
        filter.limit
    };
    let offset = if filter.offset < total {
        filter.offset
    } else {
        total
    };
    let end = if total - offset < limit {
        total
    } else {
        offset + limit
    };
    let mut sessions: Vec<ConnectionTimeline> = Vec::new();
    let mut i = offset;
    while i < end
        invariant
            offset <= i <= end <= total,
            total == listed@.len(),
            listed@ == by_recency(selected_sessions(connections.listing(), filter)),
            connections.wf(),
            tls.wf(),
            store.wf(),
            sessions@.len() == i - offset,
            forall|k: int|
                0 <= k < sessions@.len() ==> session_answer(
                    #[trigger] sessions@[k],
                    listed@[offset + k],
                    store.entries(),
                    tls.sessions_view(),
                    filter,
                ),
        decreases end - i,
    {
        let record = &listed[i];
        let query = EventQuery {
            pid: None,
            kind: None,
            connection_id: Some(record.connection.id.clone()),
            offset: 0,
            limit: if filter.include_events {
                filter.event_limit
            } else {
                1
            },
        };
        let page = store.query(query);
        let ghost pe = page.events@;
        let ghost pt = page.total as nat;
        assert(store_answer(store.entries(), session_query(*record, filter), pe, pt));
        let dns = dns_events(store, record, &filter);
        let ghost dn = dns@;
        let meta = tls.metadata_for_connection(&record.connection.id);
        let ghost tm = match meta {
            Some(t) => Some(*t),
            None => None,
        };
        assert(tls_answer(tls.sessions_view(), record.connection.id@, tm));
        let session = session_timeline(record, page, dns, meta, &filter);
        assert(session_of(session, *record, pe, pt, dn, tm, filter));
        sessions.push(session);
        i += 1;
    }
    let count = sessions.len();
    ConnectionTimelinePage {
        sessions,
        total,
        offset,
        limit,
        has_more: offset + count < total,
    }
}

/// The store query behind a timeline page.
pub open spec fn timeline_query(f: TimelineFilter) -> EventQuery {
    EventQuery {
        pid: f.pid,
        kind: f.kind,
        connection_id: f.connection_id,
        offset: f.offset,
        limit: f.limit,
    }
}

/// The entry at `k` is the timeline entry of a copy of the event at `k`.
pub open spec fn entry_of_window(window: Seq<(u64, TraceEvent)>, entries: Seq<TimelineEntry>, k: int) -> bool {
    exists|e: TraceEvent| event_copy(e, window[k].1) && #[trigger] projects(e, entries[k])
}

/// A page of the timeline: the matching stored events, newest `offset`
/// skipped, as timeline entries, older first.
pub fn timeline_page(store: &MemoryStore, filter: TimelineFilter) -> (p: TimelinePage)
    requires
        store.wf(),
    ensures
        ({
            let q = timeline_query(filter);
            let window = page_window(store.entries(), q);
            &&& p.total == matching(store.entries(), q).len()
            &&& p.offset == (if filter.offset < p.total {
                filter.offset
            } else {
                p.total
            })
            &&& p.limit == page_limit(filter.limit)
            &&& p.entries@.len() == window.len()
            &&& forall|k: int|
                0 <= k < p.entries@.len() ==> #[trigger] entry_of_window(window, p.entries@, k)
            &&& p.has_more == (p.offset + p.entries@.len() < p.total)
        }),
{
    let ghost q = timeline_query(filter);
    let query = EventQuery {
        pid: filter.pid,
        kind: filter.kind,
        connection_id: filter.connection_id,
        offset: filter.offset,
        limit: filter.limit,
    };
    assert(query == q);
    let page = store.query(query);
    let ghost window = page_window(store.entries(), q);
    let ghost pe = page.events@;
    let n = page.events.len();
    let mut rest = page.events;
    let mut entries: Vec<TimelineEntry> = Vec::new();
    let mut k: usize = 0;
    assert(pe.skip(0) =~= pe);
    while rest.len() > 0
        invariant
            k <= pe.len(),
            pe.len() == n,
            pe.len() == window.len(),
            rest@ == pe.skip(k as int),
            entries@.len() == k,
            forall|m: int| 0 <= m < pe.len() ==> event_copy(#[trigger] pe[m], window[m].1),
            forall|m: int| 0 <= m < k ==> #[trigger] entry_of_window(window, entries@, m),
        decreases rest.len(),
    {
        let e = rest.remove(0);
        assert(e == pe[k as int]);
        assert(rest@ =~= pe.skip(k + 1));
        let ghost ev = e;
        let entry = TimelineEntry::from_event(e);
        assert(event_copy(ev, window[k as int].1) && projects(ev, entry));
        let ghost before = entries@;
        entries.push(entry);
        assert forall|m: int| 0 <= m < k + 1 implies #[trigger] entry_of_window(window, entries@, m) by {
            if m == k {
                assert(entries@[m] == entry);
                assert(projects(ev, entries@[m]));
            } else {
                assert(entries@[m] == before[m]);
                assert(entry_of_window(window, before, m));
            }
        }
        k += 1;
    }
    TimelinePage {
        entries,
        total: page.total,
        offset: page.offset,
        limit: page.limit,
        has_more: page.has_more,
    }
}

/// The part of a listing a session page shows: from `offset` (at most the
/// listing's length) up to `limit` (1 to 200) records.
pub fn session_window(listed_len: usize, filter: &ConnectionTimelineFilter) -> (r: (usize, usize, usize))
    ensures
        r.0 == (if filter.offset < listed_len {
            filter.offset
        } else {
            listed_len
        }),
        r.1 == page_limit(filter.limit),
        r.2 == (if listed_len - r.0 < r.1 {
            listed_len as int
        } else {
            r.0 + r.1
        }),
{
    let limit: usize = if filter.limit < 1 {
        1
    } else if filter.limit > 200 {
        200
    } else {
        filter.limit
    };
    let offset = if filter.offset < listed_len {
        filter.offset
    } else {
        listed_len
    };
    let end = if listed_len - offset < limit {
        listed_len
    } else {
        offset + limit
    };
    (offset, limit, end)
}

} // verus!
