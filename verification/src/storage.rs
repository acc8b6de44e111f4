//! The in-memory event store: a bounded history of events, newest first in
//! pages, filtered by process, kind and connection.
use vstd::prelude::*;
use crate::events::{event_copy, EventKind, TraceEvent};

verus! {

/// Events the memory store keeps by default.
pub const DEFAULT_MEMORY_EVENT_LIMIT: usize = 50_000;

/// Events a page holds at most.
pub const MAX_PAGE: usize = 200;

#[derive(Debug, Clone)]
pub struct EventQuery {
    pub pid: Option<u32>,
    pub kind: Option<EventKind>,
    pub connection_id: Option<String>,
    /// Number of newest matching events to skip before returning older rows.
    pub offset: usize,
    pub limit: usize,
}

impl Default for EventQuery {
    fn default() -> (r: Self)
        ensures
            r.pid is None,
            r.kind is None,
            r.connection_id is None,
            r.offset == 0,
            r.limit == 0,
    {
        EventQuery { pid: None, kind: None, connection_id: None, offset: 0, limit: 0 }
    }
}

#[derive(Debug, Clone)]
pub struct EventPage {
    pub events: Vec<TraceEvent>,
    pub total: usize,
    pub offset: usize,
    pub limit: usize,
    pub has_more: bool,
}

impl Default for EventPage {
    fn default() -> (r: Self)
        ensures
            r.events@.len() == 0,
            r.total == 0,
            r.offset == 0,
            r.limit == 0,
            !r.has_more,
    {
        EventPage { events: Vec::new(), total: 0, offset: 0, limit: 0, has_more: false }
    }
}

/// A stored event and the order in which it first arrived.
#[derive(Debug)]
pub struct StoredEvent {
    pub sequence: u64,
    pub event: TraceEvent,
}

pub open spec fn entry_view(e: StoredEvent) -> (u64, TraceEvent) {
    (e.sequence, e.event)
}

/// Older first: by time, then by arrival.
pub open spec fn key_le(a: (u64, TraceEvent), b: (u64, TraceEvent)) -> bool {
    a.1.timestamp_ns < b.1.timestamp_ns || (a.1.timestamp_ns == b.1.timestamp_ns && a.0 <= b.0)
}

pub open spec fn ordered(es: Seq<(u64, TraceEvent)>) -> bool {
    forall|i: int, j: int| 0 <= i < j < es.len() ==> key_le(#[trigger] es[i], #[trigger] es[j])
}

/// Where an entry goes in an ordered history: after every entry not newer.
pub open spec fn slot(es: Seq<(u64, TraceEvent)>, x: (u64, TraceEvent)) -> nat
    decreases es.len(),
{
    if es.len() == 0 {
        0
    } else {
        slot(es.drop_last(), x) + if key_le(es.last(), x) {
            1nat
        } else {
            0nat
        }
    }
}

pub open spec fn insert_ordered(es: Seq<(u64, TraceEvent)>, x: (u64, TraceEvent)) -> Seq<(u64, TraceEvent)> {
    es.insert(slot(es, x) as int, x)
}

/// The first entry holding an event of the given id.
pub open spec fn position_of_id(es: Seq<(u64, TraceEvent)>, id: Seq<char>) -> Option<int>
    decreases es.len(),
{
    if es.len() == 0 {
        None
    } else {
        match position_of_id(es.drop_last(), id) {
            Some(i) => Some(i),
            None => if es.last().1.id@ == id {
                Some(es.len() - 1)
            } else {
                None
            },
        }
    }
}

/// The first entry of the earliest arrival.
pub open spec fn oldest(es: Seq<(u64, TraceEvent)>) -> int
    decreases es.len(),
{
    if es.len() <= 1 {
        0
    } else {
        let m = oldest(es.drop_last());
        if es.last().0 < es[m].0 {
            es.len() - 1
        } else {
            m
        }
    }
}

pub open spec fn saturating_next(n: u64) -> u64 {
    if n == u64::MAX {
        n
    } else {
        (n + 1) as u64
    }
}

/// Storing an event: one with a stored id replaces it, keeping its
/// arrival; a new one arrives next, pushing out the earliest arrival when
/// the store is full.
pub open spec fn stored_after(es: Seq<(u64, TraceEvent)>, next: u64, capacity: nat, e: TraceEvent) -> (
    Seq<(u64, TraceEvent)>,
    u64,
) {
    match position_of_id(es, e.id@) {
        Some(i) => (insert_ordered(es.remove(i), (es[i].0, e)), next),
        None => {
            let kept = if es.len() >= capacity {
                es.remove(oldest(es))
            } else {
                es
            };
            (insert_ordered(kept, (next, e)), saturating_next(next))
        },
    }
}

pub open spec fn matches_query(e: TraceEvent, q: EventQuery) -> bool {
    &&& (q.pid matches Some(p) ==> e.pid == Some(p))
    &&& (q.kind matches Some(k) ==> e.kind == k)
    &&& (q.connection_id matches Some(id) ==> e.connection matches Some(c) && c.id@ == id@)
}

pub open spec fn page_limit(limit: usize) -> nat {
    if limit < 1 {
        1
    } else if limit > MAX_PAGE {
        MAX_PAGE as nat
    } else {
        limit as nat
    }
}

/// The matching entries, older first.
pub open spec fn matching(es: Seq<(u64, TraceEvent)>, q: EventQuery) -> Seq<(u64, TraceEvent)>
    decreases es.len(),
{
    if es.len() == 0 {
        Seq::empty()
    } else if matches_query(es.last().1, q) {
        matching(es.drop_last(), q).push(es.last())
    } else {
        matching(es.drop_last(), q)
    }
}

/// The page of a query: after skipping `offset` newest matches, up to
/// `limit` (1 to 200) older ones, older first.
pub open spec fn page_window(es: Seq<(u64, TraceEvent)>, q: EventQuery) -> Seq<(u64, TraceEvent)> {
    let m = matching(es, q);
    let total = m.len();
    let offset = if q.offset < total {
        q.offset as nat
    } else {
        total
    };
    let end = total - offset;
    let start = if end > page_limit(q.limit) {
        end - page_limit(q.limit)
    } else {
        0
    };
    m.subrange(start, end)
}

proof fn lemma_slot(es: Seq<(u64, TraceEvent)>, x: (u64, TraceEvent), p: int)
    requires
        ordered(es),
        0 <= p <= es.len(),
        forall|i: int| 0 <= i < p ==> key_le(#[trigger] es[i], x),
        p < es.len() ==> !key_le(es[p], x),
    ensures
        slot(es, x) == p,
    decreases es.len(),
{
    if es.len() > 0 {
        let d = es.drop_last();
        assert(ordered(d)) by {
            assert forall|i: int, j: int| 0 <= i < j < d.len() implies key_le(#[trigger] d[i], #[trigger] d[j]) by {
                assert(d[i] == es[i] && d[j] == es[j]);
            }
        }
        if p == es.len() {
            lemma_slot(d, x, p - 1);
        } else {
            if p < es.len() - 1 {
                assert(key_le(es[p], es[es.len() - 1]));
            }
            lemma_slot(d, x, p);
        }
    }
}

proof fn lemma_insert_ordered(es: Seq<(u64, TraceEvent)>, x: (u64, TraceEvent), p: int)
    requires
        ordered(es),
        0 <= p <= es.len(),
        forall|i: int| 0 <= i < p ==> key_le(#[trigger] es[i], x),
        forall|i: int| p <= i < es.len() ==> !key_le(#[trigger] es[i], x),
    ensures
        ordered(es.insert(p, x)),
{
    let r = es.insert(p, x);
    assert forall|i: int, j: int| 0 <= i < j < r.len() implies key_le(#[trigger] r[i], #[trigger] r[j]) by {
        if j < p {
            assert(r[i] == es[i] && r[j] == es[j]);
        } else if j == p {
            assert(r[i] == es[i]);
        } else if i < p {
            assert(r[i] == es[i] && r[j] == es[j - 1]);
        } else if i == p {
            assert(r[j] == es[j - 1]);
            assert(!key_le(es[j - 1], x));
        } else {
            assert(r[i] == es[i - 1] && r[j] == es[j - 1]);
        }
    }
}

proof fn lemma_remove_ordered(es: Seq<(u64, TraceEvent)>, k: int)
    requires
        ordered(es),
        0 <= k < es.len(),
    ensures
        ordered(es.remove(k)),
{
    let r = es.remove(k);
    assert forall|i: int, j: int| 0 <= i < j < r.len() implies key_le(#[trigger] r[i], #[trigger] r[j]) by {
        let i0 = if i < k { i } else { i + 1 };
        let j0 = if j < k { j } else { j + 1 };
        assert(r[i] == es[i0] && r[j] == es[j0]);
    }
}

proof fn lemma_matching_step(es: Seq<(u64, TraceEvent)>, q: EventQuery, i: int)
    requires
        0 <= i < es.len(),
    ensures
        matching(es.take(i + 1), q) == if matches_query(es[i].1, q) {
            matching(es.take(i), q).push(es[i])
        } else {
            matching(es.take(i), q)
        },
{
    assert(es.take(i + 1).drop_last() =~= es.take(i));
}

#[derive(Debug)]
pub struct MemoryStore {
    next_sequence: u64,
    capacity: usize,
    events: Vec<StoredEvent>,
}

impl MemoryStore {
    pub closed spec fn entries(&self) -> Seq<(u64, TraceEvent)> {
        self.events@.map_values(|e: StoredEvent| entry_view(e))
    }

    pub closed spec fn next(&self) -> u64 {
        self.next_sequence
    }

    pub closed spec fn capacity(&self) -> nat {
        self.capacity as nat
    }

    pub closed spec fn wf(&self) -> bool {
        &&& self.capacity >= 1
        &&& self.events@.len() <= self.capacity
        &&& ordered(self.entries())
    }

    /// An empty store that keeps at most `capacity` events (at least one).
    pub fn memory(capacity: usize) -> (r: Self)
        ensures
            r.wf(),
            r.entries() == Seq::<(u64, TraceEvent)>::empty(),
            r.next() == 0,
            r.capacity() == if capacity < 1 {
                1
            } else {
                capacity as nat
            },
    {
        let r = MemoryStore {
            next_sequence: 0,
            capacity: if capacity < 1 {
                1
            } else {
                capacity
            },
            events: Vec::new(),
        };
        assert(r.entries() =~= Seq::<(u64, TraceEvent)>::empty());
        r
    }

    /// An empty store of the default size.
    pub fn new() -> (r: Self)
        ensures
            r.wf(),
            r.entries() == Seq::<(u64, TraceEvent)>::empty(),
            r.next() == 0,
            r.capacity() == DEFAULT_MEMORY_EVENT_LIMIT,
    {
        Self::memory(DEFAULT_MEMORY_EVENT_LIMIT)
    }

    /// Puts an entry at its place.
    fn place(&mut self, x: StoredEvent)
        requires
            old(self).capacity >= 1,
            old(self).events@.len() < old(self).capacity,
            ordered(old(self).entries()),
        ensures
            final(self).wf(),
            final(self).entries() == insert_ordered(old(self).entries(), entry_view(x)),
            final(self).next() == old(self).next(),
            final(self).capacity() == old(self).capacity(),
    {
        let ghost es = self.entries();
        let p = self.slot_of_unbounded(&x);
        proof {
            lemma_slot_bounds(es, entry_view(x), p as int);
            lemma_insert_ordered(es, entry_view(x), p as int);
        }
        self.events.insert(p, x);
        assert(self.entries() =~= es.insert(p as int, entry_view(x)));
    }

    /// Where an entry goes, for a history that is ordered.
    fn slot_of_unbounded(&self, x: &StoredEvent) -> (p: usize)
        requires
            ordered(self.entries()),
        ensures
            p == slot(self.entries(), entry_view(*x)),
            p <= self.events@.len(),
    {
        let ghost es = self.entries();
        let mut i: usize = 0;
        while i < self.events.len()
            invariant
                ordered(es),
                es == self.entries(),
                i <= self.events@.len(),
                forall|j: int| 0 <= j < i ==> key_le(#[trigger] es[j], entry_view(*x)),
            decreases self.events.len() - i,
        {
            let e = &self.events[i];
            assert(es[i as int] == entry_view(*e));
            let before = e.event.timestamp_ns < x.event.timestamp_ns || (e.event.timestamp_ns
                == x.event.timestamp_ns && e.sequence <= x.sequence);
            if !before {
                proof {
                    lemma_slot(es, entry_view(*x), i as int);
                }
                return i;
            }
            i += 1;
        }
        proof {
            lemma_slot(es, entry_view(*x), i as int);
        }
        i
    }

    /// Stores an event: one whose id is stored replaces it; a new one is
    /// added, pushing out the earliest arrival when the store is full.
    pub fn insert(&mut self, event: TraceEvent)
        requires
            old(self).wf(),
        ensures
            final(self).wf(),
            final(self).capacity() == old(self).capacity(),
            (final(self).entries(), final(self).next()) == stored_after(
                old(self).entries(),
                old(self).next(),
                old(self).capacity(),
                event,
            ),
    {
        let ghost es = self.entries();
        let mut i: usize = 0;
        while i < self.events.len()
            invariant
                self.wf(),
                es == self.entries(),
                es == old(self).entries(),
                self.capacity == old(self).capacity,
                self.next_sequence == old(self).next_sequence,
                i <= self.events@.len(),
                position_of_id(es.take(i as int), event.id@) is None,
            decreases self.events.len() - i,
        {
            assert(es.take(i + 1).drop_last() =~= es.take(i as int));
            assert(es[i as int] == entry_view(self.events@[i as int]));
            if self.events[i].event.id == event.id {
                proof {
                    lemma_position_extend(es, i + 1, i as int, event.id@);
                    lemma_remove_ordered(es, i as int);
                }
                let old_entry = self.events.remove(i);
                assert(self.entries() =~= es.remove(i as int));
                self.place(StoredEvent { sequence: old_entry.sequence, event });
                return;
            }
            i += 1;
        }
        assert(es.take(i as int) =~= es);
        let ghost kept = if es.len() >= self.capacity {
            es.remove(oldest(es))
        } else {
            es
        };
        if self.events.len() >= self.capacity {
            let mut m: usize = 0;
            let mut j: usize = 1;
            assert(es.take(1).len() <= 1);
            while j < self.events.len()
                invariant
                    self.wf(),
                    es == self.entries(),
                    self.capacity == old(self).capacity,
                    self.next_sequence == old(self).next_sequence,
                    1 <= j <= self.events@.len(),
                    m < j,
                    m == oldest(es.take(j as int)),
                decreases self.events.len() - j,
            {
                assert(es.take(j + 1).drop_last() =~= es.take(j as int));
                assert(es.take(j + 1)[m as int] == es[m as int]);
                assert(es[j as int] == entry_view(self.events@[j as int]));
                assert(es[m as int] == entry_view(self.events@[m as int]));
                if self.events[j].sequence < self.events[m].sequence {
                    m = j;
                }
                j += 1;
            }
            assert(es.take(j as int) =~= es);
            proof {
                lemma_remove_ordered(es, m as int);
            }
            self.events.remove(m);
            assert(self.entries() =~= es.remove(m as int));
        }
        let sequence = self.next_sequence;
        self.next_sequence = if self.next_sequence == u64::MAX {
            u64::MAX
        } else {
            self.next_sequence + 1
        };
        self.place(StoredEvent { sequence, event });
    }

    /// Stores a copy of an event.
    pub fn try_insert(&mut self, event: &TraceEvent) -> (r: Result<(), String>)
        requires
            old(self).wf(),
        ensures
            final(self).wf(),
            r is Ok,
            final(self).capacity() == old(self).capacity(),
            exists|c: TraceEvent|
                event_copy(c, *event) && (final(self).entries(), final(self).next()) == stored_after(
                    old(self).entries(),
                    old(self).next(),
                    old(self).capacity(),
                    c,
                ),
    {
        let copy = event.duplicate();
        self.insert(copy);
        Ok(())
    }

    /// A page of the matching events, older first: after skipping
    /// `offset` newest matches, up to `limit` (1 to 200) older ones.
    pub fn query(&self, query: EventQuery) -> (page: EventPage)
        requires
            self.wf(),
        ensures
            page.total == matching(self.entries(), query).len(),
            page.offset == (if query.offset < page.total {
                query.offset
            } else {
                page.total
            }),
            page.limit == page_limit(query.limit),
            page.events@.len() == page_window(self.entries(), query).len(),
            forall|k: int|
                0 <= k < page.events@.len() ==> event_copy(
                    #[trigger] page.events@[k],
                    page_window(self.entries(), query)[k].1,
                ),
            page.has_more == (page.offset + page.events@.len() < page.total),
    {
        let ghost es = self.entries();
        let limit: usize = if query.limit < 1 {
            1
        } else if query.limit > MAX_PAGE {
            MAX_PAGE
        } else {
            query.limit
        };
        let mut total: usize = 0;
        let mut i: usize = 0;
        assert(matching(es.take(0), query) =~= Seq::<(u64, TraceEvent)>::empty());
        while i < self.events.len()
            invariant
                es == self.entries(),
                i <= self.events@.len(),
                total == matching(es.take(i as int), query).len(),
                total <= i,
            decreases self.events.len() - i,
        {
            proof {
                lemma_matching_step(es, query, i as int);
            }
            assert(es[i as int] == entry_view(self.events@[i as int]));
            if self.matches(&self.events[i].event, &query) {
                total += 1;
            }
            i += 1;
        }
        assert(es.take(i as int) =~= es);
        let offset = if query.offset < total {
            query.offset
        } else {
            total
        };
        let end = total - offset;
        let start = if end > limit {
            end - limit
        } else {
            0
        };
        let ghost m = matching(es, query);
        let mut events: Vec<TraceEvent> = Vec::new();
        let mut rank: usize = 0;
        let mut k: usize = 0;
        proof {
            lemma_matching_prefix(es, query, 0);
        }
        while k < self.events.len()
            invariant
                es == self.entries(),
                m == matching(es, query),
                k <= self.events@.len(),
                start <= end <= m.len(),
                rank == matching(es.take(k as int), query).len(),
                rank <= k,
                matching(es.take(k as int), query) == m.take(rank as int),
                events@.len() == (if rank < start {
                    0
                } else if rank < end {
                    rank - start
                } else {
                    end - start
                }),
                forall|j: int| 0 <= j < events@.len() ==> event_copy(#[trigger] events@[j], m[start + j].1),
            decreases self.events.len() - k,
        {
            proof {
                lemma_matching_step(es, query, k as int);
                lemma_matching_prefix(es, query, k + 1);
            }
            assert(es[k as int] == entry_view(self.events@[k as int]));
            if self.matches(&self.events[k].event, &query) {
                assert(m.take(rank + 1).last() == es[k as int]);
                if start <= rank && rank < end {
                    let copy = self.events[k].event.duplicate();
                    events.push(copy);
                }
                rank += 1;
            }
            k += 1;
        }
        assert(es.take(k as int) =~= es);
        let count = events.len();
        EventPage { events, total, offset, limit, has_more: offset + count < total }
    }

    fn matches(&self, event: &TraceEvent, query: &EventQuery) -> (r: bool)
        ensures
            r == matches_query(*event, *query),
    {
        let pid_ok = match query.pid {
            Some(p) => event.pid == Some(p),
            None => true,
        };
        let kind_ok = match query.kind {
            Some(k) => event.kind == k,
            None => true,
        };
        let connection_ok = match &query.connection_id {
            Some(id) => match &event.connection {
                Some(c) => c.id == *id,
                None => false,
            },
            None => true,
        };
        pid_ok && kind_ok && connection_ok
    }

    /// How many events are stored.
    pub fn len(&self) -> (r: usize)
        ensures
            r == self.entries().len(),
    {
        self.events.len()
    }

    pub fn is_empty(&self) -> (r: bool)
        ensures
            r == (self.entries().len() == 0),
    {
        self.events.len() == 0
    }

    /// Copies of all stored events, older first.
    pub fn snapshot(&self) -> (r: Vec<TraceEvent>)
        ensures
            r@.len() == self.entries().len(),
            forall|k: int| 0 <= k < r@.len() ==> event_copy(#[trigger] r@[k], self.entries()[k].1),
    {
        let mut r: Vec<TraceEvent> = Vec::new();
        let mut i: usize = 0;
        while i < self.events.len()
            invariant
                i <= self.events@.len(),
                r@.len() == i,
                forall|k: int| 0 <= k < i ==> event_copy(#[trigger] r@[k], self.entries()[k].1),
            decreases self.events.len() - i,
        {
            r.push(self.events[i].event.duplicate());
            i += 1;
        }
        r
    }

    /// Drops every stored event.
    pub fn clear(&mut self)
        requires
            old(self).wf(),
        ensures
            final(self).wf(),
            final(self).entries() == Seq::<(u64, TraceEvent)>::empty(),
            final(self).next() == old(self).next(),
            final(self).capacity() == old(self).capacity(),
    {
        self.events = Vec::new();
        assert(self.entries() =~= Seq::<(u64, TraceEvent)>::empty());
    }
}


proof fn lemma_slot_bounds(es: Seq<(u64, TraceEvent)>, x: (u64, TraceEvent), p: int)
    requires
        ordered(es),
        p == slot(es, x),
    ensures
        0 <= p <= es.len(),
        forall|i: int| 0 <= i < p ==> key_le(#[trigger] es[i], x),
        forall|i: int| p <= i < es.len() ==> !key_le(#[trigger] es[i], x),
{
    let q = count_prefix(es, x);
    lemma_count_prefix(es, x);
    lemma_slot(es, x, q);
}

/// How many entries from the start are not newer than `x`.
spec fn count_prefix(es: Seq<(u64, TraceEvent)>, x: (u64, TraceEvent)) -> int
    decreases es.len(),
{
    if es.len() == 0 {
        0
    } else {
        let c = count_prefix(es.drop_last(), x);
        if c == es.len() - 1 && key_le(es.last(), x) {
            es.len() as int
        } else {
            c
        }
    }
}

proof fn lemma_count_prefix(es: Seq<(u64, TraceEvent)>, x: (u64, TraceEvent))
    requires
        ordered(es),
    ensures
        0 <= count_prefix(es, x) <= es.len(),
        forall|i: int| 0 <= i < count_prefix(es, x) ==> key_le(#[trigger] es[i], x),
        count_prefix(es, x) < es.len() ==> !key_le(es[count_prefix(es, x)], x),
        forall|i: int| count_prefix(es, x) <= i < es.len() ==> !key_le(#[trigger] es[i], x),
    decreases es.len(),
{
    if es.len() > 0 {
        let d = es.drop_last();
        assert(ordered(d)) by {
            assert forall|i: int, j: int| 0 <= i < j < d.len() implies key_le(#[trigger] d[i], #[trigger] d[j]) by {
                assert(d[i] == es[i] && d[j] == es[j]);
            }
        }
        lemma_count_prefix(d, x);
        let c = count_prefix(d, x);
        assert forall|i: int| 0 <= i < count_prefix(es, x) implies key_le(#[trigger] es[i], x) by {
            if i < d.len() {
                assert(d[i] == es[i]);
            }
        }
        assert forall|i: int| count_prefix(es, x) <= i < es.len() implies !key_le(#[trigger] es[i], x) by {
            if i < d.len() {
                assert(d[i] == es[i]);
            } else if c < d.len() {
                assert(d[c] == es[c]);
                assert(key_le(es[c], es[i]));
            }
        }
    }
}

proof fn lemma_position_extend(es: Seq<(u64, TraceEvent)>, i: int, k: int, id: Seq<char>)
    requires
        0 < i <= es.len(),
        k == i - 1,
        position_of_id(es.take(k), id) is None,
        es[k].1.id@ == id,
    ensures
        position_of_id(es, id) == Some(k),
    decreases es.len() - i,
{
    if i < es.len() {
        assert(es.drop_last().take(k) =~= es.take(k));
        lemma_position_extend(es.drop_last(), i, k, id);
    } else {
        assert(es.drop_last() =~= es.take(k));
    }
}

proof fn lemma_matching_prefix(es: Seq<(u64, TraceEvent)>, q: EventQuery, i: int)
    requires
        0 <= i <= es.len(),
    ensures
        matching(es.take(i), q) == matching(es, q).take(matching(es.take(i), q).len() as int),
        matching(es.take(i), q).len() <= matching(es, q).len(),
    decreases es.len() - i,
{
    if i == es.len() {
        assert(es.take(i) =~= es);
        assert(matching(es, q).take(matching(es, q).len() as int) =~= matching(es, q));
    } else {
        lemma_matching_prefix(es.drop_last(), q, i);
        assert(es.drop_last().take(i) =~= es.take(i));
        let a = matching(es.take(i), q);
        let b = matching(es.drop_last(), q);
        assert(matching(es, q).take(a.len() as int) =~= b.take(a.len() as int));
    }
}


proof fn lemma_matching_matches(es: Seq<(u64, TraceEvent)>, q: EventQuery)
    ensures
        forall|j: int| 0 <= j < matching(es, q).len() ==> matches_query(#[trigger] matching(es, q)[j].1, q),
    decreases es.len(),
{
    if es.len() > 0 {
        lemma_matching_matches(es.drop_last(), q);
        let m = matching(es.drop_last(), q);
        if matches_query(es.last().1, q) {
            assert forall|j: int| 0 <= j < matching(es, q).len() implies matches_query(
                #[trigger] matching(es, q)[j].1,
                q,
            ) by {
                if j < m.len() {
                    assert(matching(es, q)[j] == m[j]);
                }
            }
        }
    }
}

/// A query keeps exactly the stored events that pass each of its filters,
/// in order: the process when a pid is asked for, the kind when a kind is
/// asked for, the connection when a connection id is asked for. So the
/// total counts every such event, and every event of a page passes them.
pub proof fn law_query_filters(es: Seq<(u64, TraceEvent)>, q: EventQuery)
    ensures
        matching(es, q) == es.filter(
            |x: (u64, TraceEvent)|
                (q.pid matches Some(p) ==> x.1.pid == Some(p)) && (q.kind matches Some(k) ==> x.1.kind == k) && (
                q.connection_id matches Some(id) ==> x.1.connection matches Some(c) && c.id@ == id@),
        ),
        forall|j: int|
            0 <= j < page_window(es, q).len() ==> {
                let e = (#[trigger] page_window(es, q)[j]).1;
                &&& q.pid matches Some(p) ==> e.pid == Some(p)
                &&& q.kind matches Some(k) ==> e.kind == k
                &&& q.connection_id matches Some(id) ==> e.connection matches Some(c) && c.id@ == id@
            },
    decreases es.len(),
{
    reveal(Seq::filter);
    if es.len() > 0 {
        law_query_filters(es.drop_last(), q);
    }
    lemma_matching_matches(es, q);
    let m = matching(es, q);
    let total = m.len();
    let offset = if q.offset < total {
        q.offset as nat
    } else {
        total
    };
    let end = total - offset;
    let start = if end > page_limit(q.limit) {
        end - page_limit(q.limit)
    } else {
        0
    };
    assert forall|j: int| 0 <= j < page_window(es, q).len() implies matches_query(
        (#[trigger] page_window(es, q)[j]).1,
        q,
    ) by {
        assert(page_window(es, q)[j] == m[start + j]);
    }
}
} // verus!
