//! The process table: the latest identity of each process id.
use vstd::prelude::*;
use crate::events::ProcessRef;
use crate::table::Table;
use vstd::std_specs::iter::IteratorSpec;

verus! {

#[derive(Debug, Clone)]
pub struct ProcessRecord {
    pub identity: ProcessRef,
    pub first_seen_ns: u64,
    pub last_seen_ns: u64,
}

impl ProcessRecord {
    pub fn duplicate(&self) -> (r: Self)
        ensures
            r == *self,
    {
        ProcessRecord {
            identity: self.identity.duplicate(),
            first_seen_ns: self.first_seen_ns,
            last_seen_ns: self.last_seen_ns,
        }
    }
}

/// The table after a sighting of `process` at `ts`: a known process keeps
/// when it was first seen, a new one starts there.
pub open spec fn sighted(m: Map<u32, ProcessRecord>, process: ProcessRef, ts: u64) -> Map<u32, ProcessRecord> {
    m.insert(
        process.pid,
        ProcessRecord {
            identity: process,
            first_seen_ns: if m.contains_key(process.pid) {
                m[process.pid].first_seen_ns
            } else {
                ts
            },
            last_seen_ns: ts,
        },
    )
}

#[derive(Debug)]
pub struct ProcessTracker {
    processes: Table<u32, ProcessRecord>,
}

impl ProcessTracker {
    /// The records, by process id.
    pub closed spec fn records(&self) -> Map<u32, ProcessRecord> {
        self.processes.map()
    }

    /// Each record is filed under its own process id.
    pub closed spec fn wf(&self) -> bool {
        &&& self.processes.wf()
        &&& forall|pid: u32| #[trigger]
            self.processes.map().contains_key(pid) ==> self.processes.map()[pid].identity.pid == pid
    }

    pub fn new() -> (r: Self)
        ensures
            r.wf(),
            r.records() == Map::<u32, ProcessRecord>::empty(),
    {
        ProcessTracker { processes: Table::new() }
    }

    pub fn observe(&mut self, process: ProcessRef, timestamp_ns: u64)
        requires
            old(self).wf(),
        ensures
            final(self).wf(),
            final(self).records() == sighted(old(self).records(), process, timestamp_ns),
    {
        let pid = process.pid;
        let first_seen_ns = match self.processes.get(&pid) {
            Some(record) => record.first_seen_ns,
            None => timestamp_ns,
        };
        self.processes.insert(pid, ProcessRecord { identity: process, first_seen_ns, last_seen_ns: timestamp_ns });
        proof {
            assert forall|p: u32| #[trigger] self.processes.map().contains_key(p) implies self.processes.map()[p].identity.pid == p by {
                if p != pid {
                    assert(old(self).processes.map().contains_key(p));
                }
            }
        }
    }

    pub fn remove(&mut self, pid: u32) -> (r: Option<ProcessRecord>)
        requires
            old(self).wf(),
        ensures
            final(self).wf(),
            final(self).records() == old(self).records().remove(pid),
            match r {
                Some(rec) => old(self).records().contains_key(pid) && rec == old(self).records()[pid],
                None => !old(self).records().contains_key(pid),
            },
    {
        let r = self.processes.remove(&pid);
        proof {
            assert forall|p: u32| #[trigger] self.processes.map().contains_key(p) implies self.processes.map()[p].identity.pid == p by {
                assert(old(self).processes.map().contains_key(p));
            }
        }
        r
    }

    pub fn get(&self, pid: u32) -> (r: Option<&ProcessRecord>)
        requires
            self.wf(),
        ensures
            match r {
                Some(rec) => self.records().contains_key(pid) && *rec == self.records()[pid],
                None => !self.records().contains_key(pid),
            },
    {
        self.processes.get(&pid)
    }

    /// Every record, once each.
    pub fn listed(&self) -> (r: Vec<ProcessRecord>)
        requires
            self.wf(),
        ensures
            r@.len() == self.records().len(),
            forall|j: int| 0 <= j < r@.len() ==> self.records().contains_key(
                (#[trigger] r@[j]).identity.pid,
            ) && self.records()[r@[j].identity.pid] == r@[j],
            forall|pid: u32| #[trigger]
                self.records().contains_key(pid) ==> self.records()[pid].identity.pid == pid && exists|j: int|
                    0 <= j < r@.len() && #[trigger] r@[j] == self.records()[pid],
    {
        let mut list: Vec<ProcessRecord> = Vec::new();
        let mut i: usize = 0;
        while i < self.processes.entries.len()
            invariant
                self.wf(),
                i <= self.processes.entries@.len(),
                list@.len() == i,
                forall|j: int| 0 <= j < i ==> #[trigger] list@[j] == self.processes.entries@[j].1,
            decreases self.processes.entries.len() - i,
        {
            list.push(self.processes.entries[i].1.duplicate());
            i += 1;
        }
        proof {
            self.processes.lemma_len();
            assert forall|j: int| 0 <= j < list@.len() implies self.records().contains_key(
                (#[trigger] list@[j]).identity.pid,
            ) && self.records()[list@[j].identity.pid] == list@[j] by {
                self.processes.lemma_entry(j);
            }
            assert forall|pid: u32| #[trigger] self.records().contains_key(pid) implies exists|j: int|
                0 <= j < list@.len() && #[trigger] list@[j] == self.records()[pid] by {
                let j = self.processes.index_of(pid);
                assert(list@[j] == self.records()[pid]);
            }
        }
        list
    }

    /// Every record, once each.
    pub fn all(&self) -> (r: std::vec::IntoIter<ProcessRecord>)
        requires
            self.wf(),
        ensures
            r.remaining().len() == self.records().len(),
            forall|j: int| 0 <= j < r.remaining().len() ==> self.records().contains_key(
                (#[trigger] r.remaining()[j]).identity.pid,
            ) && self.records()[r.remaining()[j].identity.pid] == r.remaining()[j],
    {
        let list = self.listed();
        let ghost lv = list@;
        let r = list.into_iter();
        assert(r.remaining() == lv);
        r
    }

    pub fn len(&self) -> (r: usize)
        requires
            self.wf(),
        ensures
            r == self.records().len(),
    {
        self.processes.len()
    }

    pub fn is_empty(&self) -> (r: bool)
        requires
            self.wf(),
        ensures
            r == (self.records().len() == 0),
    {
        self.processes.len() == 0
    }
}

impl Default for ProcessTracker {
    fn default() -> (r: Self)
        ensures
            r.wf(),
            r.records() == Map::<u32, ProcessRecord>::empty(),
    {
        ProcessTracker::new()
    }
}

} // verus!
