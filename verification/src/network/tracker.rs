//! The connection table: one record per socket, enriched as events arrive.
use vstd::prelude::*;
use crate::capture::strings_view;
use crate::events::{
    clone_opt_endpoint, clone_opt_process, clone_opt_string, ConnectionRef, ConnectionState,
    Endpoint, ProcessRef, TcpState,
};
use crate::table::{Table, TableKey};
use vstd::std_specs::iter::IteratorSpec;

verus! {

#[derive(Debug, Clone)]
pub struct ConnectionRecord {
    pub pid: Option<u32>,
    pub process: Option<ProcessRef>,
    pub connection: ConnectionRef,
    pub first_seen_ns: u64,
    pub last_seen_ns: u64,
}

impl ConnectionRecord {
    pub fn duplicate(&self) -> (r: Self)
        ensures
            r == *self,
    {
        ConnectionRecord {
            pid: self.pid,
            process: clone_opt_process(&self.process),
            connection: self.connection.duplicate(),
            first_seen_ns: self.first_seen_ns,
            last_seen_ns: self.last_seen_ns,
        }
    }
}

/// Endpoints are the same when their address text and port are.
pub open spec fn same_endpoint(a: Endpoint, b: Endpoint) -> bool {
    a.address@ == b.address@ && a.port == b.port
}

pub open spec fn same_local(a: Option<Endpoint>, b: Option<Endpoint>) -> bool {
    match (a, b) {
        (Some(x), Some(y)) => same_endpoint(x, y),
        (None, None) => true,
        _ => false,
    }
}

/// A report under another socket id describes this record's connection: same
/// process, same remote endpoint, and local endpoints that do not disagree.
pub open spec fn reuses(r: ConnectionRecord, pid: Option<u32>, c: ConnectionRef) -> bool {
    &&& r.pid == pid
    &&& same_endpoint(r.connection.remote, c.remote)
    &&& (c.local is None || r.connection.local is None || same_local(r.connection.local, c.local))
}

/// The connection after a new report `c` about the known connection `old`.
pub open spec fn merge_connection(old: ConnectionRef, c: ConnectionRef) -> ConnectionRef {
    let tcp = if c.tcp_state is None {
        old.tcp_state
    } else {
        c.tcp_state
    };
    let handshake_done = (tcp == Some(TcpState::SynSent) || tcp == Some(TcpState::SynRecv))
        && old.tcp_state == Some(TcpState::Established);
    let state = if handshake_done {
        old.state
    } else {
        c.state
    };
    ConnectionRef {
        id: c.id,
        protocol: c.protocol,
        local: if c.local is None {
            old.local
        } else {
            c.local
        },
        remote: c.remote,
        state: if state == ConnectionState::Connecting && old.state == ConnectionState::Established {
            old.state
        } else {
            state
        },
        tcp_state: if handshake_done {
            Some(TcpState::Established)
        } else {
            tcp
        },
        sent_bytes: if c.sent_bytes >= old.sent_bytes {
            c.sent_bytes
        } else {
            old.sent_bytes
        },
        received_bytes: if c.received_bytes >= old.received_bytes {
            c.received_bytes
        } else {
            old.received_bytes
        },
        domain: if c.domain is None {
            old.domain
        } else {
            c.domain
        },
    }
}

pub open spec fn merge_record(
    r: ConnectionRecord,
    pid: Option<u32>,
    process: Option<ProcessRef>,
    c: ConnectionRef,
    ts: u64,
) -> ConnectionRecord {
    ConnectionRecord {
        pid: if pid is Some {
            pid
        } else {
            r.pid
        },
        process: if process is Some {
            process
        } else {
            r.process
        },
        connection: merge_connection(r.connection, c),
        first_seen_ns: r.first_seen_ns,
        last_seen_ns: ts,
    }
}

/// The connection `c` with another id.
pub open spec fn with_id(c: ConnectionRef, id: String) -> ConnectionRef {
    ConnectionRef { id, ..c }
}

/// The record with another domain.
pub open spec fn with_domain(r: ConnectionRecord, domain: Option<String>) -> ConnectionRecord {
    ConnectionRecord { connection: ConnectionRef { domain, ..r.connection }, ..r }
}

/// What the table holds after `observe(pid, process, c, ts)`, given the record
/// id `cid` that the report was filed under.
pub open spec fn observed(
    m: Map<Seq<char>, ConnectionRecord>,
    pid: Option<u32>,
    process: Option<ProcessRef>,
    c: ConnectionRef,
    ts: u64,
    cid: Seq<char>,
) -> Map<Seq<char>, ConnectionRecord> {
    if m.contains_key(cid) {
        let r = m[cid];
        let report = if cid == c.id@ {
            c
        } else {
            with_id(c, r.connection.id)
        };
        m.insert(cid, merge_record(r, pid, process, report, ts))
    } else {
        m.insert(
            cid,
            ConnectionRecord { pid, process, connection: c, first_seen_ns: ts, last_seen_ns: ts },
        )
    }
}

/// The id a report is filed under: its own when known or when nothing matches,
/// otherwise that of a record it `reuses`.
pub open spec fn canonical(
    m: Map<Seq<char>, ConnectionRecord>,
    pid: Option<u32>,
    c: ConnectionRef,
    cid: Seq<char>,
) -> bool {
    if m.contains_key(c.id@) {
        cid == c.id@
    } else if exists|k: Seq<char>| m.contains_key(k) && #[trigger] reuses(m[k], pid, c) {
        m.contains_key(cid) && reuses(m[cid], pid, c)
    } else {
        cid == c.id@
    }
}

#[derive(Debug)]
pub struct ConnectionTracker {
    connections: Table<String, ConnectionRecord>,
}

fn same_pid(a: Option<u32>, b: Option<u32>) -> (r: bool)
    ensures
        r == (a == b),
{
    match (a, b) {
        (Some(x), Some(y)) => x == y,
        (None, None) => true,
        _ => false,
    }
}

fn same_local_endpoint(a: &Option<Endpoint>, b: &Option<Endpoint>) -> (r: bool)
    ensures
        r == same_local(*a, *b),
{
    match (a, b) {
        (Some(x), Some(y)) => x.same_as(y),
        (None, None) => true,
        _ => false,
    }
}

fn merged(old: &ConnectionRef, c: ConnectionRef) -> (r: ConnectionRef)
    ensures
        r == merge_connection(*old, c),
{
    let tcp = if c.tcp_state.is_none() {
        old.tcp_state
    } else {
        c.tcp_state
    };
    let handshake_done = (matches!(tcp, Some(TcpState::SynSent)) || matches!(tcp, Some(TcpState::SynRecv)))
        && matches!(old.tcp_state, Some(TcpState::Established));
    let state = if handshake_done {
        old.state
    } else {
        c.state
    };
    ConnectionRef {
        id: c.id,
        protocol: c.protocol,
        local: if c.local.is_none() {
            clone_opt_endpoint(&old.local)
        } else {
            c.local
        },
        remote: c.remote,
        state: if state == ConnectionState::Connecting && old.state == ConnectionState::Established {
            old.state
        } else {
            state
        },
        tcp_state: if handshake_done {
            Some(TcpState::Established)
        } else {
            tcp
        },
        sent_bytes: if c.sent_bytes >= old.sent_bytes {
            c.sent_bytes
        } else {
            old.sent_bytes
        },
        received_bytes: if c.received_bytes >= old.received_bytes {
            c.received_bytes
        } else {
            old.received_bytes
        },
        domain: if c.domain.is_none() {
            clone_opt_string(&old.domain)
        } else {
            c.domain
        },
    }
}

impl ConnectionTracker {
    /// The records, by connection id.
    pub closed spec fn records(&self) -> Map<Seq<char>, ConnectionRecord> {
        self.connections.map()
    }

    /// Each record is filed under its own connection id.
    pub closed spec fn wf(&self) -> bool {
        &&& self.connections.wf()
        &&& forall|k: Seq<char>| #[trigger]
            self.connections.map().contains_key(k) ==> self.connections.map()[k].connection.id@ == k
    }

    pub fn new() -> (r: Self)
        ensures
            r.wf(),
            r.records() == Map::<Seq<char>, ConnectionRecord>::empty(),
    {
        ConnectionTracker { connections: Table::new() }
    }

    /// The position of the first record that `reuses` the report.
    fn find_reusable(&self, pid: Option<u32>, c: &ConnectionRef) -> (r: Option<usize>)
        requires
            self.wf(),
        ensures
            match r {
                Some(i) => i < self.connections.entries@.len() && reuses(
                    self.connections.entries@[i as int].1,
                    pid,
                    *c,
                ),
                None => !exists|k: Seq<char>| self.records().contains_key(k) && #[trigger] reuses(
                    self.records()[k],
                    pid,
                    *c,
                ),
            },
    {
        let mut i: usize = 0;
        while i < self.connections.entries.len()
            invariant
                self.wf(),
                i <= self.connections.entries@.len(),
                forall|j: int| 0 <= j < i ==> !#[trigger] reuses(self.connections.entries@[j].1, pid, *c),
            decreases self.connections.entries.len() - i,
        {
            let rec = &self.connections.entries[i].1;
            if same_pid(rec.pid, pid) && rec.connection.remote.same_as(&c.remote) && (c.local.is_none()
                || rec.connection.local.is_none() || same_local_endpoint(&rec.connection.local, &c.local)) {
                return Some(i);
            }
            i += 1;
        }
        proof {
            assert forall|k: Seq<char>| self.records().contains_key(k) implies !#[trigger] reuses(
                self.records()[k],
                pid,
                *c,
            ) by {
                let j = self.connections.index_of(k);
                self.connections.lemma_entry(j);
            }
        }
        None
    }

    /// Files a connection report: under its own id when that is known,
    /// otherwise under a record it reuses, otherwise as a new record.
    pub fn observe(
        &mut self,
        pid: Option<u32>,
        process: Option<ProcessRef>,
        connection: ConnectionRef,
        timestamp_ns: u64,
    ) -> (r: String)
        requires
            old(self).wf(),
        ensures
            final(self).wf(),
            canonical(old(self).records(), pid, connection, r@),
            final(self).records() == observed(old(self).records(), pid, process, connection, timestamp_ns, r@),
            final(self).records().dom().finite(),
            final(self).records().len() <= old(self).records().len() + 1,
    {
        proof {
            self.connections.lemma_len();
        }
        let ghost m = self.records();
        let ghost c0 = connection;
        let target = match self.connections.find(&connection.id) {
            Some(i) => Some(i),
            None => self.find_reusable(pid, &connection),
        };
        match target {
            Some(i) => {
                proof {
                    self.connections.lemma_entry(i as int);
                }
                let ghost cid = self.connections.entries@[i as int].0@;
                let rec = &self.connections.entries[i].1;
                let report = if self.connections.entries[i].0 == connection.id {
                    connection
                } else {
                    ConnectionRef { id: rec.connection.id.clone(), ..connection }
                };
                let new_rec = ConnectionRecord {
                    pid: if pid.is_some() {
                        pid
                    } else {
                        rec.pid
                    },
                    process: if process.is_some() {
                        process
                    } else {
                        clone_opt_process(&rec.process)
                    },
                    connection: merged(&rec.connection, report),
                    first_seen_ns: rec.first_seen_ns,
                    last_seen_ns: timestamp_ns,
                };
                let ghost expected = new_rec;
                let filed = self.connections.entries[i].0.clone();
                self.connections.set_value(i, new_rec);
                proof {
                    assert(canonical(m, pid, c0, cid));
                    assert(self.records() == observed(m, pid, process, c0, timestamp_ns, cid));
                    assert forall|k: Seq<char>| #[trigger] self.connections.map().contains_key(k) implies self.connections.map()[k].connection.id@ == k by {
                        if k != cid {
                            assert(m.contains_key(k));
                        }
                    }
                }
                filed
            },
            None => {
                let key = connection.id.clone();
                let filed = connection.id.clone();
                let ghost cid = key@;
                self.connections.insert(
                    key,
                    ConnectionRecord {
                        pid,
                        process,
                        connection,
                        first_seen_ns: timestamp_ns,
                        last_seen_ns: timestamp_ns,
                    },
                );
                proof {
                    assert(canonical(m, pid, c0, cid));
                    assert(self.records() == observed(m, pid, process, c0, timestamp_ns, cid));
                    assert forall|k: Seq<char>| #[trigger] self.connections.map().contains_key(k) implies self.connections.map()[k].connection.id@ == k by {
                        if k != cid {
                            assert(m.contains_key(k));
                        }
                    }
                }
                filed
            },
        }
    }

    fn holds(addresses: &[String], address: &String) -> (r: bool)
        ensures
            r == strings_view(addresses@).contains(address@),
    {
        let mut i: usize = 0;
        while i < addresses.len()
            invariant
                i <= addresses@.len(),
                forall|j: int| 0 <= j < i ==> (#[trigger] addresses@[j])@ != address@,
            decreases addresses.len() - i,
        {
            if addresses[i] == *address {
                assert(strings_view(addresses@)[i as int] == address@);
                return true;
            }
            i += 1;
        }
        assert forall|j: int| 0 <= j < strings_view(addresses@).len() implies strings_view(
            addresses@,
        )[j] != address@ by {
            assert(addresses@[j]@ != address@);
        }
        false
    }

    /// Sets `domain` on the records that match `select` (`pid` given: that
    /// process's records; none given: records without a domain) whose remote
    /// address is among `addresses`.
    fn set_domain_where(&mut self, pid: Option<u32>, addresses: &[String], domain: &str)
        requires
            old(self).wf(),
        ensures
            final(self).wf(),
            domain_named(old(self).records(), final(self).records(), pid, strings_view(addresses@), domain@),
    {
        let ghost before = self.connections;
        let mut i: usize = 0;
        while i < self.connections.entries.len()
            invariant
                self.connections.wf(),
                self.connections.entries@.len() == before.entries@.len(),
                i <= before.entries@.len(),
                forall|j: int| 0 <= j < before.entries@.len() ==> (#[trigger] self.connections.entries@[j]).0
                    == before.entries@[j].0,
                forall|j: int|
                    0 <= j < before.entries@.len() ==> if j < i && domain_target(
                        before.entries@[j].1,
                        pid,
                        strings_view(addresses@),
                    ) {
                        (#[trigger] self.connections.entries@[j]).1.connection.domain matches Some(d)
                            && d@ == domain@ && self.connections.entries@[j].1 == with_domain(
                            before.entries@[j].1,
                            self.connections.entries@[j].1.connection.domain,
                        )
                    } else {
                        self.connections.entries@[j].1 == before.entries@[j].1
                    },
            decreases before.entries@.len() - i,
        {
            let rec = &self.connections.entries[i].1;
            let address = rec.connection.remote.address.clone();
            let selected = match pid {
                Some(p) => same_pid(rec.pid, Some(p)),
                None => rec.connection.domain.is_none(),
            };
            if selected && Self::holds(addresses, &address) {
                let new_rec = ConnectionRecord {
                    connection: ConnectionRef { domain: Some(domain.to_owned()), ..rec.connection.duplicate() },
                    ..rec.duplicate()
                };
                self.connections.set_value(i, new_rec);
            }
            i += 1;
        }
        proof {
            assert forall|k: Seq<char>| #[trigger] self.connections.map().contains_key(k) <==> before.map().contains_key(k) by {
                if self.connections.map().contains_key(k) {
                    let j = self.connections.index_of(k);
                    self.connections.lemma_entry(j);
                    assert(before.entries@[j].0.key_view() == k);
                    before.lemma_entry(j);
                }
                if before.map().contains_key(k) {
                    let j = before.index_of(k);
                    before.lemma_entry(j);
                    assert(self.connections.entries@[j].0.key_view() == k);
                    self.connections.lemma_entry(j);
                }
            }
            assert(self.records().dom() =~= old(self).records().dom());
            assert forall|k: Seq<char>| #[trigger] self.connections.map().contains_key(k) implies self.connections.map()[k] == (
                if domain_target(before.map()[k], pid, strings_view(addresses@)) {
                    with_domain(before.map()[k], self.connections.map()[k].connection.domain)
                } else {
                    before.map()[k]
                }
            ) && self.connections.map()[k].connection.id@ == k && (domain_target(before.map()[k], pid, strings_view(addresses@))
                ==> (self.connections.map()[k].connection.domain matches Some(d) && d@ == domain@)) by {
                let j = self.connections.index_of(k);
                self.connections.lemma_entry(j);
                before.lemma_entry(j);
            }
        }
    }

    /// Names the domain of `pid`'s connections to any of `addresses`.
    pub fn set_domain(&mut self, pid: u32, addresses: &[String], domain: &str)
        requires
            old(self).wf(),
        ensures
            final(self).wf(),
            domain_named(
                old(self).records(),
                final(self).records(),
                Some(pid),
                strings_view(addresses@),
                domain@,
            ),
    {
        self.set_domain_where(Some(pid), addresses, domain);
    }

    /// Names the domain of connections to any of `addresses` that have none yet.
    pub fn set_domain_for_addresses(&mut self, addresses: &[String], domain: &str)
        requires
            old(self).wf(),
        ensures
            final(self).wf(),
            domain_named(
                old(self).records(),
                final(self).records(),
                None,
                strings_view(addresses@),
                domain@,
            ),
    {
        self.set_domain_where(None, addresses, domain);
    }

    pub fn get(&self, id: &str) -> (r: Option<&ConnectionRecord>)
        requires
            self.wf(),
        ensures
            match r {
                Some(rec) => self.records().contains_key(id@) && *rec == self.records()[id@],
                None => !self.records().contains_key(id@),
            },
    {
        self.connections.get(&id.to_owned())
    }

    /// The records in the order the tracker keeps them.
    pub closed spec fn listing(&self) -> Seq<ConnectionRecord> {
        self.connections.entries@.map_values(|e: (String, ConnectionRecord)| e.1)
    }

    /// Every record, once each, in the order the tracker keeps them.
    pub fn listed(&self) -> (r: Vec<ConnectionRecord>)
        requires
            self.wf(),
        ensures
            r@ == self.listing(),
            r@.len() == self.records().len(),
            forall|j: int| 0 <= j < r@.len() ==> self.records().contains_key(
                (#[trigger] r@[j]).connection.id@,
            ) && self.records()[r@[j].connection.id@] == r@[j],
            forall|k: Seq<char>| #[trigger]
                self.records().contains_key(k) ==> exists|j: int|
                    0 <= j < r@.len() && #[trigger] r@[j] == self.records()[k],
    {
        let mut list: Vec<ConnectionRecord> = Vec::new();
        let mut i: usize = 0;
        while i < self.connections.entries.len()
            invariant
                self.wf(),
                i <= self.connections.entries@.len(),
                list@.len() == i,
                forall|j: int| 0 <= j < i ==> #[trigger] list@[j] == self.connections.entries@[j].1,
            decreases self.connections.entries.len() - i,
        {
            list.push(self.connections.entries[i].1.duplicate());
            i += 1;
        }
        proof {
            self.connections.lemma_len();
            assert forall|j: int| 0 <= j < list@.len() implies self.records().contains_key(
                (#[trigger] list@[j]).connection.id@,
            ) && self.records()[list@[j].connection.id@] == list@[j] by {
                self.connections.lemma_entry(j);
            }
        }
        assert(list@ =~= self.listing());
        proof {
            assert forall|k: Seq<char>| #[trigger] self.records().contains_key(k) implies exists|j: int|
                0 <= j < list@.len() && #[trigger] list@[j] == self.records()[k] by {
                let j = self.connections.index_of(k);
                assert(list@[j] == self.records()[k]);
            }
        }
        list
    }

    /// Every record, once each.
    pub fn all(&self) -> (r: std::vec::IntoIter<ConnectionRecord>)
        requires
            self.wf(),
        ensures
            r.remaining() == self.listing(),
            r.remaining().len() == self.records().len(),
            forall|j: int| 0 <= j < r.remaining().len() ==> self.records().contains_key(
                (#[trigger] r.remaining()[j]).connection.id@,
            ) && self.records()[r.remaining()[j].connection.id@] == r.remaining()[j],
    {
        let list = self.listed();
        let ghost lv = list@;
        let r = list.into_iter();
        assert(r.remaining() == lv);
        r
    }

    pub fn len(&self) -> (r: usize)
        requires
            self.wf(),
        ensures
            r == self.records().len(),
    {
        self.connections.len()
    }

    pub fn is_empty(&self) -> (r: bool)
        requires
            self.wf(),
        ensures
            r == (self.records().len() == 0),
    {
        self.connections.len() == 0
    }
}

/// The records after naming `domain` for the records `domain_target` picks:
/// the same ids, those picked now naming the domain, the others unchanged.
pub open spec fn domain_named(
    before: Map<Seq<char>, ConnectionRecord>,
    after: Map<Seq<char>, ConnectionRecord>,
    pid: Option<u32>,
    addresses: Seq<Seq<char>>,
    domain: Seq<char>,
) -> bool {
    &&& after.dom() == before.dom()
    &&& forall|k: Seq<char>| #[trigger]
        after.contains_key(k) ==> if domain_target(before[k], pid, addresses) {
            after[k].connection.domain matches Some(d) && d@ == domain && after[k] == with_domain(
                before[k],
                after[k].connection.domain,
            )
        } else {
            after[k] == before[k]
        }
}

/// Whether `set_domain` (`pid` given) or `set_domain_for_addresses` (`None`)
/// names the domain of this record.
pub open spec fn domain_target(r: ConnectionRecord, pid: Option<u32>, addresses: Seq<Seq<char>>) -> bool {
    &&& match pid {
        Some(p) => r.pid == Some(p),
        None => r.connection.domain is None,
    }
    &&& addresses.contains(r.connection.remote.address@)
}

impl Default for ConnectionTracker {
    fn default() -> (r: Self)
        ensures
            r.wf(),
            r.records() == Map::<Seq<char>, ConnectionRecord>::empty(),
    {
        ConnectionTracker::new()
    }
}


/// Byte counters are cumulative: after a report is filed under `cid`, the
/// record's sent and received counts are the larger of what the record had
/// and what the report says (the report's alone for a new record), so never
/// more than the largest count reported.
pub proof fn law_counters_keep_the_largest_report(
    m: Map<Seq<char>, ConnectionRecord>,
    pid: Option<u32>,
    process: Option<ProcessRef>,
    c: ConnectionRef,
    ts: u64,
    cid: Seq<char>,
)
    ensures
        ({
            let after = observed(m, pid, process, c, ts, cid)[cid].connection;
            if m.contains_key(cid) {
                let before = m[cid].connection;
                &&& after.sent_bytes >= before.sent_bytes && after.sent_bytes >= c.sent_bytes
                &&& (after.sent_bytes == before.sent_bytes || after.sent_bytes == c.sent_bytes)
                &&& after.received_bytes >= before.received_bytes && after.received_bytes >= c.received_bytes
                &&& (after.received_bytes == before.received_bytes || after.received_bytes == c.received_bytes)
            } else {
                after.sent_bytes == c.sent_bytes && after.received_bytes == c.received_bytes
            }
        }),
{
}
} // verus!
