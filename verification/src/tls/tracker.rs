//! TLS sessions keyed by (process, SSL object), merged across partial reports.
use vstd::prelude::*;
use crate::events::{clone_opt_string, TlsEventData};
use crate::table::Table;
use vstd::std_specs::iter::IteratorSpec;

verus! {

#[derive(Debug, Clone, Copy, PartialEq, Eq, Structural)]
pub enum TlsLibrary {
    OpenSsl,
    Unknown,
}

#[derive(Debug, Clone)]
pub struct TlsSession {
    pub process_id: u32,
    pub ssl_object: u64,
    pub library: TlsLibrary,
    pub fd: Option<i32>,
    pub connection_id: Option<String>,
    pub server_name: Option<String>,
    pub version: Option<String>,
    pub first_seen_ns: u64,
    pub last_seen_ns: u64,
}

impl TlsSession {
    pub fn duplicate(&self) -> (r: Self)
        ensures
            r == *self,
    {
        TlsSession {
            process_id: self.process_id,
            ssl_object: self.ssl_object,
            library: self.library,
            fd: self.fd,
            connection_id: clone_opt_string(&self.connection_id),
            server_name: clone_opt_string(&self.server_name),
            version: clone_opt_string(&self.version),
            first_seen_ns: self.first_seen_ns,
            last_seen_ns: self.last_seen_ns,
        }
    }
}

pub open spec fn first_some<T>(a: Option<T>, b: Option<T>) -> Option<T> {
    if a is Some {
        a
    } else {
        b
    }
}

pub open spec fn new_session(pid: u32, ssl: u64, first: u64, last: u64) -> TlsSession {
    TlsSession {
        process_id: pid,
        ssl_object: ssl,
        library: TlsLibrary::OpenSsl,
        fd: None,
        connection_id: None,
        server_name: None,
        version: None,
        first_seen_ns: first,
        last_seen_ns: last,
    }
}

/// Folds the session reported before the SSL object was known (object 0)
/// into the session of object `ssl`.
pub open spec fn merge_placeholder_spec(
    s: Map<(u32, u64), TlsSession>,
    pid: u32,
    ssl: u64,
) -> Map<(u32, u64), TlsSession> {
    if ssl == 0 || !s.contains_key((pid, 0u64)) {
        s
    } else {
        let p = s[(pid, 0u64)];
        let rest = s.remove((pid, 0u64));
        let base = if rest.contains_key((pid, ssl)) {
            rest[(pid, ssl)]
        } else {
            new_session(pid, ssl, p.first_seen_ns, p.last_seen_ns)
        };
        rest.insert(
            (pid, ssl),
            TlsSession {
                fd: first_some(base.fd, p.fd),
                connection_id: first_some(base.connection_id, p.connection_id),
                server_name: first_some(base.server_name, p.server_name),
                version: first_some(base.version, p.version),
                first_seen_ns: if base.first_seen_ns <= p.first_seen_ns {
                    base.first_seen_ns
                } else {
                    p.first_seen_ns
                },
                last_seen_ns: if base.last_seen_ns >= p.last_seen_ns {
                    base.last_seen_ns
                } else {
                    p.last_seen_ns
                },
                ..base
            },
        )
    }
}

/// The SSL object a report is filed under: the one it names, else the
/// process's latest, else the placeholder object 0.
pub open spec fn report_object(latest: Map<u32, (u64, u64)>, pid: u32, requested: u64) -> u64 {
    if requested != 0 {
        requested
    } else if latest.contains_key(pid) {
        latest[pid].0
    } else {
        0
    }
}

/// A session after a report: what the report names replaces what was known.
pub open spec fn reported(s: TlsSession, data: TlsEventData, connection_id: Option<String>, ts: u64) -> TlsSession {
    TlsSession {
        fd: first_some(data.fd, s.fd),
        server_name: first_some(data.sni, s.server_name),
        version: first_some(data.version, s.version),
        connection_id: first_some(connection_id, s.connection_id),
        last_seen_ns: ts,
        ..s
    }
}

/// The sessions after a report filed under object `ssl`.
pub open spec fn after_report(
    s: Map<(u32, u64), TlsSession>,
    pid: u32,
    requested: u64,
    ssl: u64,
    data: TlsEventData,
    connection_id: Option<String>,
    ts: u64,
) -> Map<(u32, u64), TlsSession> {
    let merged = if requested != 0 {
        merge_placeholder_spec(s, pid, ssl)
    } else {
        s
    };
    let base = if merged.contains_key((pid, ssl)) {
        merged[(pid, ssl)]
    } else {
        new_session(pid, ssl, ts, ts)
    };
    merged.insert((pid, ssl), reported(base, data, connection_id, ts))
}

/// The session is linked to the connection `id`.
pub open spec fn linked_to(s: TlsSession, id: Seq<char>) -> bool {
    s.connection_id matches Some(c) && c@ == id
}

/// The session is the newest, by last sighting, of those linked to `id`.
pub open spec fn newest_for_connection(s: Map<(u32, u64), TlsSession>, k: (u32, u64), id: Seq<char>) -> bool {
    &&& s.contains_key(k)
    &&& linked_to(s[k], id)
    &&& forall|k2: (u32, u64)|
        s.contains_key(k2) && linked_to(#[trigger] s[k2], id) ==> s[k2].last_seen_ns <= s[k].last_seen_ns
}

#[derive(Debug)]
pub struct TlsTracker {
    sessions: Table<(u32, u64), TlsSession>,
    latest_by_process: Table<u32, (u64, u64)>,
}

impl TlsTracker {
    /// Sessions by (process, SSL object).
    pub closed spec fn sessions_view(&self) -> Map<(u32, u64), TlsSession> {
        self.sessions.map()
    }

    /// Per process, the SSL object last reported and when.
    pub closed spec fn latest_view(&self) -> Map<u32, (u64, u64)> {
        self.latest_by_process.map()
    }

    /// Each session is filed under its own process and object.
    pub closed spec fn wf(&self) -> bool {
        &&& self.sessions.wf()
        &&& self.latest_by_process.wf()
        &&& forall|k: (u32, u64)| #[trigger]
            self.sessions.map().contains_key(k) ==> self.sessions.map()[k].process_id == k.0
                && self.sessions.map()[k].ssl_object == k.1
    }

    pub fn new() -> (r: Self)
        ensures
            r.wf(),
            r.sessions_view() == Map::<(u32, u64), TlsSession>::empty(),
            r.latest_view() == Map::<u32, (u64, u64)>::empty(),
    {
        TlsTracker { sessions: Table::new(), latest_by_process: Table::new() }
    }

    /// Applies a TLS report and returns the SSL object it was filed under.
    pub fn observe_event(
        &mut self,
        process_id: u32,
        data: TlsEventData,
        connection_id: Option<String>,
        timestamp_ns: u64,
    ) -> (r: u64)
        requires
            old(self).wf(),
        ensures
            final(self).wf(),
            r == report_object(old(self).latest_view(), process_id, data.ssl_object),
            final(self).sessions_view() == after_report(
                old(self).sessions_view(),
                process_id,
                data.ssl_object,
                r,
                data,
                connection_id,
                timestamp_ns,
            ),
            final(self).latest_view() == old(self).latest_view().insert(process_id, (r, timestamp_ns)),
    {
        let ghost d0 = data;
        let ghost c0 = connection_id;
        let requested = data.ssl_object;
        let ssl = if requested != 0 {
            requested
        } else {
            match self.latest_by_process.get(&process_id) {
                Some(v) => v.0,
                None => 0,
            }
        };
        if requested != 0 && ssl != 0 {
            self.merge_placeholder(process_id, ssl);
        }
        let ghost mid = self.sessions.map();
        let key = (process_id, ssl);
        let base = match self.sessions.get(&key) {
            Some(s) => s.duplicate(),
            None => TlsSession {
                process_id,
                ssl_object: ssl,
                library: TlsLibrary::OpenSsl,
                fd: None,
                connection_id: None,
                server_name: None,
                version: None,
                first_seen_ns: timestamp_ns,
                last_seen_ns: timestamp_ns,
            },
        };
        let updated = TlsSession {
            fd: if data.fd.is_some() {
                data.fd
            } else {
                base.fd
            },
            server_name: if data.sni.is_some() {
                data.sni
            } else {
                base.server_name
            },
            version: if data.version.is_some() {
                data.version
            } else {
                base.version
            },
            connection_id: if connection_id.is_some() {
                connection_id
            } else {
                base.connection_id
            },
            last_seen_ns: timestamp_ns,
            ..base
        };
        self.sessions.insert(key, updated);
        self.latest_by_process.insert(process_id, (ssl, timestamp_ns));
        proof {
            assert(self.sessions.map() == after_report(
                old(self).sessions.map(),
                process_id,
                requested,
                ssl,
                d0,
                c0,
                timestamp_ns,
            ));
            assert forall|k: (u32, u64)| #[trigger] self.sessions.map().contains_key(k) implies self.sessions.map()[k].process_id
                == k.0 && self.sessions.map()[k].ssl_object == k.1 by {
                if k != key {
                    assert(mid.contains_key(k));
                }
            }
        }
        ssl
    }

    fn merge_placeholder(&mut self, process_id: u32, ssl_object: u64)
        requires
            old(self).wf(),
        ensures
            final(self).wf(),
            final(self).sessions_view() == merge_placeholder_spec(
                old(self).sessions_view(),
                process_id,
                ssl_object,
            ),
            final(self).latest_view() == old(self).latest_view(),
    {
        if ssl_object == 0 {
            return;
        }
        let placeholder = match self.sessions.remove(&(process_id, 0u64)) {
            Some(p) => p,
            None => {
                return;
            },
        };
        let ghost rest = self.sessions.map();
        let key = (process_id, ssl_object);
        let base = match self.sessions.get(&key) {
            Some(s) => s.duplicate(),
            None => TlsSession {
                process_id,
                ssl_object,
                library: TlsLibrary::OpenSsl,
                fd: None,
                connection_id: None,
                server_name: None,
                version: None,
                first_seen_ns: placeholder.first_seen_ns,
                last_seen_ns: placeholder.last_seen_ns,
            },
        };
        let merged = TlsSession {
            fd: if base.fd.is_some() {
                base.fd
            } else {
                placeholder.fd
            },
            connection_id: if base.connection_id.is_some() {
                base.connection_id
            } else {
                placeholder.connection_id
            },
            server_name: if base.server_name.is_some() {
                base.server_name
            } else {
                placeholder.server_name
            },
            version: if base.version.is_some() {
                base.version
            } else {
                placeholder.version
            },
            first_seen_ns: if base.first_seen_ns <= placeholder.first_seen_ns {
                base.first_seen_ns
            } else {
                placeholder.first_seen_ns
            },
            last_seen_ns: if base.last_seen_ns >= placeholder.last_seen_ns {
                base.last_seen_ns
            } else {
                placeholder.last_seen_ns
            },
            ..base
        };
        self.sessions.insert(key, merged);
        proof {
            assert forall|k: (u32, u64)| #[trigger] self.sessions.map().contains_key(k) implies self.sessions.map()[k].process_id
                == k.0 && self.sessions.map()[k].ssl_object == k.1 by {
                if k != key {
                    assert(rest.contains_key(k));
                    assert(old(self).sessions.map().contains_key(k));
                }
            }
        }
    }

    pub fn get(&self, process_id: u32, ssl_object: u64) -> (r: Option<&TlsSession>)
        requires
            self.wf(),
        ensures
            match r {
                Some(s) => self.sessions_view().contains_key((process_id, ssl_object)) && *s
                    == self.sessions_view()[(process_id, ssl_object)],
                None => !self.sessions_view().contains_key((process_id, ssl_object)),
            },
    {
        self.sessions.get(&(process_id, ssl_object))
    }

    /// The session of the SSL object the process reported last.
    pub fn latest_for_process(&self, process_id: u32) -> (r: Option<&TlsSession>)
        requires
            self.wf(),
        ensures
            match r {
                Some(s) => self.latest_view().contains_key(process_id) && self.sessions_view().contains_key(
                    (process_id, self.latest_view()[process_id].0),
                ) && *s == self.sessions_view()[(process_id, self.latest_view()[process_id].0)],
                None => !self.latest_view().contains_key(process_id) || !self.sessions_view().contains_key(
                    (process_id, self.latest_view()[process_id].0),
                ),
            },
    {
        match self.latest_by_process.get(&process_id) {
            Some(v) => self.get(process_id, v.0),
            None => None,
        }
    }

    /// The most recently seen session linked to a connection.
    pub fn metadata_for_connection(&self, connection_id: &str) -> (r: Option<&TlsSession>)
        requires
            self.wf(),
        ensures
            match r {
                Some(s) => exists|k: (u32, u64)|
                    #[trigger] newest_for_connection(self.sessions_view(), k, connection_id@) && *s
                        == self.sessions_view()[k],
                None => forall|k: (u32, u64)|
                    self.sessions_view().contains_key(k) ==> !linked_to(
                        #[trigger] self.sessions_view()[k],
                        connection_id@,
                    ),
            },
    {
        let wanted = connection_id.to_owned();
        let ghost es = self.sessions.entries@;
        let mut best: Option<usize> = None;
        let mut i: usize = 0;
        while i < self.sessions.entries.len()
            invariant
                self.wf(),
                es == self.sessions.entries@,
                wanted@ == connection_id@,
                i <= es.len(),
                match best {
                    None => forall|j: int| 0 <= j < i ==> !linked_to((#[trigger] es[j]).1, connection_id@),
                    Some(b) => b < i && linked_to(es[b as int].1, connection_id@) && forall|j: int|
                        0 <= j < i && linked_to((#[trigger] es[j]).1, connection_id@)
                            ==> es[j].1.last_seen_ns <= es[b as int].1.last_seen_ns,
                },
            decreases es.len() - i,
        {
            let s = &self.sessions.entries[i].1;
            let linked = match &s.connection_id {
                Some(c) => *c == wanted,
                None => false,
            };
            if linked {
                let better = match best {
                    None => true,
                    Some(b) => s.last_seen_ns >= self.sessions.entries[b].1.last_seen_ns,
                };
                if better {
                    best = Some(i);
                }
            }
            i += 1;
        }
        match best {
            Some(b) => {
                proof {
                    self.sessions.lemma_entry(b as int);
                    let kb = es[b as int].0;
                    assert forall|k2: (u32, u64)|
                        self.sessions_view().contains_key(k2) && linked_to(
                            #[trigger] self.sessions_view()[k2],
                            connection_id@,
                        ) implies self.sessions_view()[k2].last_seen_ns
                        <= self.sessions_view()[kb].last_seen_ns by {
                        let j = self.sessions.index_of(k2);
                        self.sessions.lemma_entry(j);
                    }
                    assert(newest_for_connection(self.sessions_view(), kb, connection_id@));
                }
                Some(&self.sessions.entries[b].1)
            },
            None => {
                proof {
                    assert forall|k: (u32, u64)| self.sessions_view().contains_key(k) implies !linked_to(
                        #[trigger] self.sessions_view()[k],
                        connection_id@,
                    ) by {
                        let j = self.sessions.index_of(k);
                        self.sessions.lemma_entry(j);
                    }
                }
                None
            },
        }
    }

    /// Every session, once each.
    pub fn sessions(&self) -> (r: std::vec::IntoIter<TlsSession>)
        requires
            self.wf(),
        ensures
            r.remaining().len() == self.sessions_view().len(),
            forall|j: int| 0 <= j < r.remaining().len() ==> self.sessions_view().contains_key(
                ((#[trigger] r.remaining()[j]).process_id, r.remaining()[j].ssl_object),
            ) && self.sessions_view()[(r.remaining()[j].process_id, r.remaining()[j].ssl_object)]
                == r.remaining()[j],
    {
        let mut list: Vec<TlsSession> = Vec::new();
        let mut i: usize = 0;
        while i < self.sessions.entries.len()
            invariant
                self.wf(),
                i <= self.sessions.entries@.len(),
                list@.len() == i,
                forall|j: int| 0 <= j < i ==> #[trigger] list@[j] == self.sessions.entries@[j].1,
            decreases self.sessions.entries.len() - i,
        {
            list.push(self.sessions.entries[i].1.duplicate());
            i += 1;
        }
        proof {
            self.sessions.lemma_len();
            assert forall|j: int| 0 <= j < list@.len() implies self.sessions_view().contains_key(
                ((#[trigger] list@[j]).process_id, list@[j].ssl_object),
            ) && self.sessions_view()[(list@[j].process_id, list@[j].ssl_object)] == list@[j] by {
                self.sessions.lemma_entry(j);
            }
        }
        let ghost lv = list@;
        let r = list.into_iter();
        assert(r.remaining() == lv);
        r
    }

    /// Links every session of `process_id` on descriptor `fd` to a connection.
    pub fn link_connection_for_fd(&mut self, process_id: u32, fd: i32, connection_id: &str)
        requires
            old(self).wf(),
        ensures
            final(self).wf(),
            final(self).latest_view() == old(self).latest_view(),
            final(self).sessions_view().dom() == old(self).sessions_view().dom(),
            forall|k: (u32, u64)| #[trigger]
                final(self).sessions_view().contains_key(k) ==> if old(self).sessions_view()[k].process_id
                    == process_id && old(self).sessions_view()[k].fd == Some(fd) {
                    final(self).sessions_view()[k].connection_id matches Some(c) && c@ == connection_id@
                        && final(self).sessions_view()[k] == (TlsSession {
                        connection_id: final(self).sessions_view()[k].connection_id,
                        ..old(self).sessions_view()[k]
                    })
                } else {
                    final(self).sessions_view()[k] == old(self).sessions_view()[k]
                },
    {
        let ghost before = self.sessions;
        let mut i: usize = 0;
        while i < self.sessions.entries.len()
            invariant
                self.sessions.wf(),
                self.latest_by_process == old(self).latest_by_process,
                self.sessions.entries@.len() == before.entries@.len(),
                i <= before.entries@.len(),
                forall|j: int| 0 <= j < before.entries@.len() ==> (#[trigger] self.sessions.entries@[j]).0
                    == before.entries@[j].0,
                forall|j: int|
                    0 <= j < before.entries@.len() ==> if j < i && before.entries@[j].1.process_id
                        == process_id && before.entries@[j].1.fd == Some(fd) {
                        (#[trigger] self.sessions.entries@[j]).1.connection_id matches Some(c) && c@
                            == connection_id@ && self.sessions.entries@[j].1 == (TlsSession {
                            connection_id: self.sessions.entries@[j].1.connection_id,
                            ..before.entries@[j].1
                        })
                    } else {
                        self.sessions.entries@[j].1 == before.entries@[j].1
                    },
            decreases before.entries@.len() - i,
        {
            let s = &self.sessions.entries[i].1;
            let same_fd = match s.fd {
                Some(f) => f == fd,
                None => false,
            };
            if s.process_id == process_id && same_fd {
                let updated = TlsSession { connection_id: Some(connection_id.to_owned()), ..s.duplicate() };
                self.sessions.set_value(i, updated);
            }
            i += 1;
        }
        proof {
            assert forall|k: (u32, u64)| #[trigger] self.sessions.map().contains_key(k) <==> before.map().contains_key(k) by {
                if self.sessions.map().contains_key(k) {
                    let j = self.sessions.index_of(k);
                    self.sessions.lemma_entry(j);
                    assert(before.entries@[j].0 == k);
                    before.lemma_entry(j);
                }
                if before.map().contains_key(k) {
                    let j = before.index_of(k);
                    before.lemma_entry(j);
                    assert(self.sessions.entries@[j].0 == k);
                    self.sessions.lemma_entry(j);
                }
            }
            assert(self.sessions_view().dom() =~= old(self).sessions_view().dom());
            assert forall|k: (u32, u64)| #[trigger] self.sessions.map().contains_key(k) implies self.sessions.map()[k]
                == self.sessions.entries@[self.sessions.index_of(k)].1 && before.map()[k]
                == before.entries@[self.sessions.index_of(k)].1 && self.sessions.map()[k].process_id == k.0
                && self.sessions.map()[k].ssl_object == k.1 by {
                let j = self.sessions.index_of(k);
                self.sessions.lemma_entry(j);
                before.lemma_entry(j);
            }
        }
    }

    /// Forgets every session of a process and its latest object.
    pub fn remove_process(&mut self, process_id: u32)
        requires
            old(self).wf(),
        ensures
            final(self).wf(),
            final(self).latest_view() == old(self).latest_view().remove(process_id),
            forall|k: (u32, u64)| #[trigger]
                final(self).sessions_view().contains_key(k) <==> old(self).sessions_view().contains_key(k)
                    && k.0 != process_id,
            forall|k: (u32, u64)| #[trigger]
                final(self).sessions_view().contains_key(k) ==> final(self).sessions_view()[k] == old(
                    self,
                ).sessions_view()[k],
    {
        let ghost es = self.sessions.entries@;
        let mut flags: Vec<bool> = Vec::new();
        let mut i: usize = 0;
        while i < self.sessions.entries.len()
            invariant
                es == self.sessions.entries@,
                i <= es.len(),
                flags@.len() == i,
                forall|j: int| 0 <= j < i ==> flags@[j] == (es[j].0.0 != process_id),
            decreases es.len() - i,
        {
            flags.push(self.sessions.entries[i].0.0 != process_id);
            i += 1;
        }
        let _removed = self.sessions.retain_flags(&flags);
        self.latest_by_process.remove(&process_id);
        proof {
            let before = old(self).sessions;
            assert forall|k: (u32, u64)| #[trigger]
                self.sessions_view().contains_key(k) <==> old(self).sessions_view().contains_key(k) && k.0
                    != process_id by {
                if before.map().contains_key(k) {
                    before.lemma_entry(before.index_of(k));
                }
            }
            assert forall|k: (u32, u64)| #[trigger] self.sessions.map().contains_key(k) implies self.sessions.map()[k].process_id
                == k.0 && self.sessions.map()[k].ssl_object == k.1 by {
                if before.map().contains_key(k) {
                    before.lemma_entry(before.index_of(k));
                }
            }
        }
    }
}

impl Default for TlsTracker {
    fn default() -> (r: Self)
        ensures
            r.wf(),
            r.sessions_view() == Map::<(u32, u64), TlsSession>::empty(),
            r.latest_view() == Map::<u32, (u64, u64)>::empty(),
    {
        TlsTracker::new()
    }
}

} // verus!
