//! Time-bounded DNS answers keyed by requesting process and domain.
use vstd::prelude::*;
use crate::capture::strings_view;
use crate::table::{Table, TableKey};
use vstd::std_specs::iter::IteratorSpec;

verus! {

#[derive(Debug, Clone, PartialEq, Eq)]
struct DnsCacheKey {
    pid: Option<u32>,
    domain: String,
}

impl TableKey for DnsCacheKey {
    type KeyView = (Option<u32>, Seq<char>);

    closed spec fn key_view(&self) -> (Option<u32>, Seq<char>) {
        (self.pid, self.domain@)
    }

    fn same_key(&self, other: &Self) -> (r: bool) {
        let same_pid = match (self.pid, other.pid) {
            (Some(a), Some(b)) => a == b,
            (None, None) => true,
            _ => false,
        };
        same_pid && self.domain == other.domain
    }
}

#[derive(Debug, Clone)]
struct DnsCacheEntry {
    addresses: Vec<String>,
    observed_at_ns: u64,
    expires_at_ns: u64,
}

/// A remembered answer: its addresses and the interval in which it holds.
pub struct DnsRecord {
    pub addresses: Seq<Seq<char>>,
    pub observed_at_ns: u64,
    pub expires_at_ns: u64,
}

spec fn record_of(e: DnsCacheEntry) -> DnsRecord {
    DnsRecord {
        addresses: strings_view(e.addresses@),
        observed_at_ns: e.observed_at_ns,
        expires_at_ns: e.expires_at_ns,
    }
}

/// An answer is in force from when it was seen until it expires, and only if
/// it named at least one address.
pub open spec fn is_active(r: DnsRecord, ts: u64) -> bool {
    r.observed_at_ns <= ts && r.expires_at_ns > ts && r.addresses.len() > 0
}

/// Which requesting processes a search considers.
#[derive(Debug, Clone, Copy, PartialEq, Eq, Structural)]
pub enum DnsScope {
    /// Every answer.
    Any,
    /// Answers to this process.
    Process(u32),
    /// Answers recorded without a process.
    Unscoped,
}

pub open spec fn in_scope(pid: Option<u32>, scope: DnsScope) -> bool {
    match scope {
        DnsScope::Any => true,
        DnsScope::Process(p) => pid == Some(p),
        DnsScope::Unscoped => pid is None,
    }
}

/// Whether an answer is in force at `ts`, in scope, and names the domain
/// (`by_address` false) or holds the address (`by_address` true) `text`.
pub open spec fn selects(
    k: (Option<u32>, Seq<char>),
    r: DnsRecord,
    scope: DnsScope,
    by_address: bool,
    text: Seq<char>,
    ts: u64,
) -> bool {
    is_active(r, ts) && in_scope(k.0, scope) && if by_address {
        r.addresses.contains(text)
    } else {
        k.1 == text
    }
}

pub open spec fn any_selected(
    m: Map<(Option<u32>, Seq<char>), DnsRecord>,
    scope: DnsScope,
    by_address: bool,
    text: Seq<char>,
    ts: u64,
) -> bool {
    exists|k: (Option<u32>, Seq<char>)| m.contains_key(k) && #[trigger] selects(k, m[k], scope, by_address, text, ts)
}

/// `k` is a selected answer observed no earlier than any other selected one.
pub open spec fn newest(
    m: Map<(Option<u32>, Seq<char>), DnsRecord>,
    k: (Option<u32>, Seq<char>),
    scope: DnsScope,
    by_address: bool,
    text: Seq<char>,
    ts: u64,
) -> bool {
    &&& m.contains_key(k)
    &&& selects(k, m[k], scope, by_address, text, ts)
    &&& forall|k2: (Option<u32>, Seq<char>)|
        m.contains_key(k2) && #[trigger] selects(k2, m[k2], scope, by_address, text, ts)
            ==> m[k2].observed_at_ns <= m[k].observed_at_ns
}

/// Some answer in force at `ts` was recorded for domain `d`.
pub open spec fn active_domain(m: Map<(Option<u32>, Seq<char>), DnsRecord>, d: Seq<char>, ts: u64) -> bool {
    exists|k: (Option<u32>, Seq<char>)| m.contains_key(k) && is_active(#[trigger] m[k], ts) && k.1 == d
}

/// `ts + ttl_secs` seconds, in nanoseconds, saturating.
pub open spec fn expiry(ts: u64, ttl_secs: u32) -> u64 {
    if ts + ttl_secs * 1_000_000_000 > u64::MAX {
        u64::MAX
    } else {
        (ts + ttl_secs * 1_000_000_000) as u64
    }
}

pub type DnsKey = (Option<u32>, Seq<char>);

spec fn keys_of(es: Seq<(DnsCacheKey, DnsCacheEntry)>) -> Seq<DnsKey> {
    es.map_values(|e: (DnsCacheKey, DnsCacheEntry)| e.0.key_view())
}

/// The keys of `order` whose answer in `m` has not expired at `t`, in
/// order: what pruning at `t` keeps.
pub open spec fn unexpired(order: Seq<DnsKey>, m: Map<DnsKey, DnsRecord>, t: u64) -> Seq<DnsKey>
    decreases order.len(),
{
    if order.len() == 0 {
        Seq::empty()
    } else {
        let rest = unexpired(order.drop_last(), m, t);
        if m[order.last()].expires_at_ns > t {
            rest.push(order.last())
        } else {
            rest
        }
    }
}

proof fn lemma_kept_order(es: Seq<(DnsCacheKey, DnsCacheEntry)>, flags: Seq<bool>, m: Map<DnsKey, DnsRecord>, t: u64)
    requires
        flags.len() == es.len(),
        forall|j: int| 0 <= j < es.len() ==> flags[j] == ((#[trigger] es[j]).1.expires_at_ns > t),
        forall|j: int| 0 <= j < es.len() ==> m[(#[trigger] es[j]).0.key_view()] == record_of(es[j].1),
    ensures
        keys_of(crate::table::kept_seq(es, flags)) == unexpired(keys_of(es), m, t),
    decreases es.len(),
{
    if es.len() > 0 {
        let n = es.len() - 1;
        assert(es.drop_last().len() == n);
        assert forall|j: int| 0 <= j < n implies flags.drop_last()[j] == ((#[trigger] es.drop_last()[j]).1.expires_at_ns > t) by {
            assert(es.drop_last()[j] == es[j]);
        }
        assert forall|j: int| 0 <= j < n implies m[(#[trigger] es.drop_last()[j]).0.key_view()] == record_of(
            es.drop_last()[j].1,
        ) by {
            assert(es.drop_last()[j] == es[j]);
        }
        lemma_kept_order(es.drop_last(), flags.drop_last(), m, t);
        assert(keys_of(es).drop_last() =~= keys_of(es.drop_last()));
        assert(keys_of(es).last() == es.last().0.key_view());
        assert(es.last() == es[n]);
        let rest = crate::table::kept_seq(es.drop_last(), flags.drop_last());
        if flags.last() {
            assert(keys_of(rest.push(es.last())) =~= keys_of(rest).push(es.last().0.key_view()));
        }
    } else {
        assert(keys_of(es) =~= Seq::<DnsKey>::empty());
        assert(keys_of(crate::table::kept_seq(es, flags)) =~= Seq::<DnsKey>::empty());
    }
}

/// The answer a search settles on, scanning the keys in `order`: each
/// selected answer observed no earlier than the one held so far replaces
/// it, so among the newest the last in order wins.
pub open spec fn pick(
    m: Map<DnsKey, DnsRecord>,
    order: Seq<DnsKey>,
    scope: DnsScope,
    by_address: bool,
    text: Seq<char>,
    ts: u64,
) -> Option<DnsKey>
    decreases order.len(),
{
    if order.len() == 0 {
        None
    } else {
        let held = pick(m, order.drop_last(), scope, by_address, text, ts);
        let k = order.last();
        if m.contains_key(k) && selects(k, m[k], scope, by_address, text, ts) && match held {
            None => true,
            Some(b) => m[k].observed_at_ns >= m[b].observed_at_ns,
        } {
            Some(k)
        } else {
            held
        }
    }
}

#[derive(Debug)]
pub struct DnsCache {
    records: Table<DnsCacheKey, DnsCacheEntry>,
}

impl DnsCache {
    /// The answers, by (requesting process, domain).
    pub closed spec fn records(&self) -> Map<(Option<u32>, Seq<char>), DnsRecord> {
        self.records.map().map_values(|e: DnsCacheEntry| record_of(e))
    }

    pub closed spec fn wf(&self) -> bool {
        self.records.wf()
    }

    /// The keys of the answers in the order the cache keeps them: a new
    /// answer goes last, a replaced one keeps its place.
    pub closed spec fn order(&self) -> Seq<DnsKey> {
        keys_of(self.records.entries@)
    }

    pub fn new() -> (r: Self)
        ensures
            r.wf(),
            r.records() == Map::<(Option<u32>, Seq<char>), DnsRecord>::empty(),
    {
        let r = DnsCache { records: Table::new() };
        assert(r.records() =~= Map::<(Option<u32>, Seq<char>), DnsRecord>::empty());
        r
    }

    pub fn insert(&mut self, domain: &str, addresses: Vec<String>, ttl_secs: u32, timestamp_ns: u64)
        requires
            old(self).wf(),
        ensures
            final(self).wf(),
            final(self).records() == old(self).records().insert(
                (None, domain@),
                DnsRecord {
                    addresses: strings_view(addresses@),
                    observed_at_ns: timestamp_ns,
                    expires_at_ns: expiry(timestamp_ns, ttl_secs),
                },
            ),
    {
        self.insert_for_process(None, domain, addresses, ttl_secs, timestamp_ns);
    }

    /// Records an answer to `pid` (or to no process), replacing the previous
    /// answer for the same process and domain.
    pub fn insert_for_process(
        &mut self,
        pid: Option<u32>,
        domain: &str,
        addresses: Vec<String>,
        ttl_secs: u32,
        timestamp_ns: u64,
    )
        requires
            old(self).wf(),
        ensures
            final(self).wf(),
            final(self).records() == old(self).records().insert(
                (pid, domain@),
                DnsRecord {
                    addresses: strings_view(addresses@),
                    observed_at_ns: timestamp_ns,
                    expires_at_ns: expiry(timestamp_ns, ttl_secs),
                },
            ),
    {
        let ttl_ns = (ttl_secs as u64) * 1_000_000_000;
        let key = DnsCacheKey { pid, domain: domain.to_owned() };
        let entry = DnsCacheEntry {
            addresses,
            observed_at_ns: timestamp_ns,
            expires_at_ns: timestamp_ns.saturating_add(ttl_ns),
        };
        let ghost rec = record_of(entry);
        self.records.insert(key, entry);
        assert(self.records() =~= old(self).records().insert((pid, domain@), rec));
    }

    fn holds(addresses: &Vec<String>, address: &String) -> (r: bool)
        ensures
            r == strings_view(addresses@).contains(address@),
    {
        let mut i: usize = 0;
        while i < addresses.len()
            invariant
                i <= addresses@.len(),
                forall|j: int| 0 <= j < i ==> (#[trigger] addresses@[j])@ != address@,
            decreases addresses.len() - i,
        {
            if addresses[i] == *address {
                assert(strings_view(addresses@)[i as int] == address@);
                return true;
            }
            i += 1;
        }
        assert forall|j: int| 0 <= j < strings_view(addresses@).len() implies strings_view(
            addresses@,
        )[j] != address@ by {
            assert(addresses@[j]@ != address@);
        }
        false
    }

    fn active_at(entry: &DnsCacheEntry, timestamp_ns: u64) -> (r: bool)
        ensures
            r == is_active(record_of(*entry), timestamp_ns),
    {
        entry.observed_at_ns <= timestamp_ns && entry.expires_at_ns > timestamp_ns
            && entry.addresses.len() > 0
    }

    /// The position of the newest selected answer (the last one among equals).
    fn newest_index(&self, scope: DnsScope, by_address: bool, text: &str, ts: u64) -> (r: Option<
        usize,
    >)
        requires
            self.wf(),
        ensures
            match r {
                None => !any_selected(self.records(), scope, by_address, text@, ts),
                Some(i) => i < self.records.entries@.len() && newest(
                    self.records(),
                    self.records.entries@[i as int].0.key_view(),
                    scope,
                    by_address,
                    text@,
                    ts,
                ),
            },
            match r {
                None => pick(self.records(), self.order(), scope, by_address, text@, ts) is None,
                Some(i) => pick(self.records(), self.order(), scope, by_address, text@, ts) == Some(
                    self.records.entries@[i as int].0.key_view(),
                ),
            },
    {
        let wanted = text.to_owned();
        let ghost es = self.records.entries@;
        let mut best: Option<usize> = None;
        let mut i: usize = 0;
        let ghost m = self.records();
        let ghost order = self.order();
        while i < self.records.entries.len()
            invariant
                self.wf(),
                es == self.records.entries@,
                m == self.records(),
                order == self.order(),
                wanted@ == text@,
                i <= es.len(),
                match best {
                    None => pick(m, order.take(i as int), scope, by_address, text@, ts) is None,
                    Some(b) => b < i && pick(m, order.take(i as int), scope, by_address, text@, ts) == Some(
                        es[b as int].0.key_view(),
                    ),
                },
                match best {
                    None => forall|j: int| 0 <= j < i ==> !#[trigger] selects(
                        es[j].0.key_view(),
                        record_of(es[j].1),
                        scope,
                        by_address,
                        text@,
                        ts,
                    ),
                    Some(b) => b < i && selects(
                        es[b as int].0.key_view(),
                        record_of(es[b as int].1),
                        scope,
                        by_address,
                        text@,
                        ts,
                    ) && forall|j: int|
                        0 <= j < i && #[trigger] selects(
                            es[j].0.key_view(),
                            record_of(es[j].1),
                            scope,
                            by_address,
                            text@,
                            ts,
                        ) ==> es[j].1.observed_at_ns <= es[b as int].1.observed_at_ns,
                },
            decreases es.len() - i,
        {
            proof {
                self.records.lemma_entry(i as int);
                assert(order.take(i + 1).drop_last() =~= order.take(i as int));
                assert(order.take(i + 1).last() == es[i as int].0.key_view());
                if let Some(b) = best {
                    self.records.lemma_entry(b as int);
                }
            }
            let (key, entry) = (&self.records.entries[i].0, &self.records.entries[i].1);
            let scoped = match scope {
                DnsScope::Any => true,
                DnsScope::Process(p) => match key.pid {
                    Some(q) => q == p,
                    None => false,
                },
                DnsScope::Unscoped => key.pid.is_none(),
            };
            let matched = if by_address {
                Self::holds(&entry.addresses, &wanted)
            } else {
                key.domain == wanted
            };
            if scoped && matched && Self::active_at(entry, ts) {
                let better = match best {
                    None => true,
                    Some(b) => entry.observed_at_ns >= self.records.entries[b].1.observed_at_ns,
                };
                if better {
                    best = Some(i);
                }
            }
            i += 1;
        }
        proof {
            assert(order.take(es.len() as int) =~= order);
            match best {
                None => {
                    assert forall|k: (Option<u32>, Seq<char>)| m.contains_key(k) implies !#[trigger] selects(
                        k,
                        m[k],
                        scope,
                        by_address,
                        text@,
                        ts,
                    ) by {
                        let j = self.records.index_of(k);
                        self.records.lemma_entry(j);
                    }
                },
                Some(b) => {
                    self.records.lemma_entry(b as int);
                    assert forall|k: (Option<u32>, Seq<char>)|
                        m.contains_key(k) && #[trigger] selects(
                            k,
                            m[k],
                            scope,
                            by_address,
                            text@,
                            ts,
                        ) implies m[k].observed_at_ns <= m[es[b as int].0.key_view()].observed_at_ns by {
                        let j = self.records.index_of(k);
                        self.records.lemma_entry(j);
                    }
                },
            }
        }
        best
    }

    /// The addresses of the newest answer in force for `domain`, whatever process asked.
    pub fn lookup(&self, domain: &str, timestamp_ns: u64) -> (r: Option<&[String]>)
        requires
            self.wf(),
        ensures
            r is None <==> !any_selected(self.records(), DnsScope::Any, false, domain@, timestamp_ns),
            r matches Some(a) ==> exists|k: (Option<u32>, Seq<char>)|
                newest(self.records(), k, DnsScope::Any, false, domain@, timestamp_ns)
                    && strings_view(a@) == #[trigger] self.records()[k].addresses,
            match pick(self.records(), self.order(), DnsScope::Any, false, domain@, timestamp_ns) {
                Some(k) => r matches Some(a) && strings_view(a@) == self.records()[k].addresses,
                None => r is None,
            },
    {
        match self.newest_index(DnsScope::Any, false, domain, timestamp_ns) {
            Some(i) => {
                proof {
                    self.records.lemma_entry(i as int);
                }
                Some(self.records.entries[i].1.addresses.as_slice())
            },
            None => None,
        }
    }

    /// The addresses of the answer to `pid` for `domain`, if it is in force.
    pub fn lookup_for_process(&self, pid: u32, domain: &str, timestamp_ns: u64) -> (r: Option<
        &[String],
    >)
        requires
            self.wf(),
        ensures
            ({
                let k = (Some(pid), domain@);
                if self.records().contains_key(k) && is_active(self.records()[k], timestamp_ns) {
                    r matches Some(a) && strings_view(a@) == self.records()[k].addresses
                } else {
                    r is None
                }
            }),
    {
        let key = DnsCacheKey { pid: Some(pid), domain: domain.to_owned() };
        match self.records.get(&key) {
            Some(entry) => {
                if Self::active_at(entry, timestamp_ns) {
                    Some(entry.addresses.as_slice())
                } else {
                    None
                }
            },
            None => None,
        }
    }

    fn domain_at(&self, found: Option<usize>) -> (r: Option<String>)
        requires
            self.wf(),
            found matches Some(i) ==> i < self.records.entries@.len(),
        ensures
            match found {
                Some(i) => r matches Some(d) && d@ == self.records.entries@[i as int].0.key_view().1,
                None => r is None,
            },
    {
        match found {
            Some(i) => Some(self.records.entries[i].0.domain.clone()),
            None => None,
        }
    }

    /// The domain of the newest answer in force that holds `address`.
    pub fn domain_for_address(&self, address: &str, timestamp_ns: u64) -> (r: Option<String>)
        requires
            self.wf(),
        ensures
            r is None <==> !any_selected(self.records(), DnsScope::Any, true, address@, timestamp_ns),
            r matches Some(d) ==> exists|k: (Option<u32>, Seq<char>)|
                #[trigger] newest(self.records(), k, DnsScope::Any, true, address@, timestamp_ns) && k.1
                    == d@,
            match pick(self.records(), self.order(), DnsScope::Any, true, address@, timestamp_ns) {
                Some(k) => r matches Some(d) && d@ == k.1,
                None => r is None,
            },
    {
        let found = self.newest_index(DnsScope::Any, true, address, timestamp_ns);
        self.domain_at(found)
    }

    /// The domain that `pid` resolved to `address`, or else one resolved
    /// without a process; the newest answer in force either way.
    pub fn domain_for_process_address(&self, pid: u32, address: &str, timestamp_ns: u64) -> (r:
        Option<String>)
        requires
            self.wf(),
        ensures
            if any_selected(self.records(), DnsScope::Process(pid), true, address@, timestamp_ns) {
                r matches Some(d) && exists|k: (Option<u32>, Seq<char>)|
                    #[trigger] newest(self.records(), k, DnsScope::Process(pid), true, address@, timestamp_ns)
                        && k.1 == d@
            } else if any_selected(self.records(), DnsScope::Unscoped, true, address@, timestamp_ns) {
                r matches Some(d) && exists|k: (Option<u32>, Seq<char>)|
                    #[trigger] newest(self.records(), k, DnsScope::Unscoped, true, address@, timestamp_ns)
                        && k.1 == d@
            } else {
                r is None
            },
            match pick(self.records(), self.order(), DnsScope::Process(pid), true, address@, timestamp_ns) {
                Some(k) => r matches Some(d) && d@ == k.1,
                None => match pick(self.records(), self.order(), DnsScope::Unscoped, true, address@, timestamp_ns) {
                    Some(k) => r matches Some(d) && d@ == k.1,
                    None => r is None,
                },
            },
    {
        match self.newest_index(DnsScope::Process(pid), true, address, timestamp_ns) {
            Some(i) => self.domain_at(Some(i)),
            None => {
                let found = self.newest_index(DnsScope::Unscoped, true, address, timestamp_ns);
                self.domain_at(found)
            },
        }
    }

    /// The domain of the newest answer in force, recorded without a process, that holds `address`.
    pub fn domain_for_unscoped_address(&self, address: &str, timestamp_ns: u64) -> (r: Option<String>)
        requires
            self.wf(),
        ensures
            r is None <==> !any_selected(self.records(), DnsScope::Unscoped, true, address@, timestamp_ns),
            r matches Some(d) ==> exists|k: (Option<u32>, Seq<char>)|
                #[trigger] newest(self.records(), k, DnsScope::Unscoped, true, address@, timestamp_ns)
                    && k.1 == d@,
            match pick(self.records(), self.order(), DnsScope::Unscoped, true, address@, timestamp_ns) {
                Some(k) => r matches Some(d) && d@ == k.1,
                None => r is None,
            },
    {
        let found = self.newest_index(DnsScope::Unscoped, true, address, timestamp_ns);
        self.domain_at(found)
    }

    /// The domain of every answer in force, one per answer.
    pub fn domains(&self, timestamp_ns: u64) -> (r: std::vec::IntoIter<String>)
        requires
            self.wf(),
        ensures
            forall|j: int| 0 <= j < r.remaining().len() ==> active_domain(
                self.records(),
                (#[trigger] r.remaining()[j])@,
                timestamp_ns,
            ),
            forall|k: (Option<u32>, Seq<char>)|
                self.records().contains_key(k) && is_active(#[trigger] self.records()[k], timestamp_ns)
                    ==> exists|j: int| 0 <= j < r.remaining().len() && r.remaining()[j]@ == k.1,
    {
        let ghost es = self.records.entries@;
        let mut out: Vec<String> = Vec::new();
        let ghost mut src: Seq<int> = Seq::empty();
        let ghost mut pos: Map<int, int> = Map::empty();
        let mut i: usize = 0;
        while i < self.records.entries.len()
            invariant
                self.wf(),
                es == self.records.entries@,
                i <= es.len(),
                src.len() == out@.len(),
                forall|j: int|
                    0 <= j < out@.len() ==> 0 <= #[trigger] src[j] < i && is_active(
                        record_of(es[src[j]].1),
                        timestamp_ns,
                    ) && es[src[j]].0.domain@ == out@[j]@,
                forall|t: int|
                    0 <= t < i && is_active(#[trigger] record_of(es[t].1), timestamp_ns)
                        ==> pos.contains_key(t) && 0 <= pos[t] < out@.len() && src[pos[t]] == t,
            decreases es.len() - i,
        {
            if Self::active_at(&self.records.entries[i].1, timestamp_ns) {
                proof {
                    pos = pos.insert(i as int, out@.len() as int);
                    src = src.push(i as int);
                }
                out.push(self.records.entries[i].0.domain.clone());
            }
            i += 1;
        }
        proof {
            let m = self.records();
            assert forall|j: int| 0 <= j < out@.len() implies active_domain(
                m,
                (#[trigger] out@[j])@,
                timestamp_ns,
            ) by {
                let t = src[j];
                self.records.lemma_entry(t);
                assert(m[es[t].0.key_view()] == record_of(es[t].1));
                assert(es[t].0.key_view().1 == out@[j]@);
            }
            assert forall|k: (Option<u32>, Seq<char>)|
                m.contains_key(k) && is_active(#[trigger] m[k], timestamp_ns) implies exists|j: int|
                0 <= j < out@.len() && out@[j]@ == k.1 by {
                let t = self.records.index_of(k);
                self.records.lemma_entry(t);
                assert(is_active(record_of(es[t].1), timestamp_ns));
                let j = pos[t];
                assert(out@[j]@ == k.1);
            }
        }
        let ghost outv = out@;
        let r = out.into_iter();
        assert(r.remaining() == outv);
        r
    }

    /// Forgets the answers that have expired at `timestamp_ns`.
    pub fn prune(&mut self, timestamp_ns: u64)
        requires
            old(self).wf(),
        ensures
            final(self).wf(),
            forall|k: (Option<u32>, Seq<char>)| #[trigger]
                final(self).records().contains_key(k) <==> old(self).records().contains_key(k)
                    && old(self).records()[k].expires_at_ns > timestamp_ns,
            forall|k: (Option<u32>, Seq<char>)| #[trigger]
                final(self).records().contains_key(k) ==> final(self).records()[k] == old(
                    self,
                ).records()[k],
            pruned_from(old(self).records(), final(self).records(), timestamp_ns),
            final(self).order() == unexpired(old(self).order(), old(self).records(), timestamp_ns),
    {
        let ghost es = self.records.entries@;
        let mut flags: Vec<bool> = Vec::new();
        let mut i: usize = 0;
        while i < self.records.entries.len()
            invariant
                es == self.records.entries@,
                i <= es.len(),
                flags@.len() == i,
                forall|j: int| 0 <= j < i ==> flags@[j] == (es[j].1.expires_at_ns > timestamp_ns),
            decreases es.len() - i,
        {
            flags.push(self.records.entries[i].1.expires_at_ns > timestamp_ns);
            i += 1;
        }
        let _removed = self.records.retain_flags(&flags);
        proof {
            let before = old(self).records;
            assert forall|j: int| 0 <= j < es.len() implies old(self).records()[(#[trigger] es[j]).0.key_view()]
                == record_of(es[j].1) by {
                before.lemma_entry(j);
            }
            lemma_kept_order(es, flags@, old(self).records(), timestamp_ns);
            assert forall|k: (Option<u32>, Seq<char>)| #[trigger]
                self.records().contains_key(k) <==> old(self).records().contains_key(k)
                    && old(self).records()[k].expires_at_ns > timestamp_ns by {
                if before.map().contains_key(k) {
                    before.lemma_entry(before.index_of(k));
                }
            }
        }
    }
}

impl Default for DnsCache {
    fn default() -> (r: Self)
        ensures
            r.wf(),
            r.records() == Map::<(Option<u32>, Seq<char>), DnsRecord>::empty(),
    {
        DnsCache::new()
    }
}


/// `after` holds exactly the answers of `before` that have not expired at
/// `t`, unchanged: what `prune(t)` leaves.
pub open spec fn pruned_from(
    before: Map<(Option<u32>, Seq<char>), DnsRecord>,
    after: Map<(Option<u32>, Seq<char>), DnsRecord>,
    t: u64,
) -> bool {
    &&& forall|k: (Option<u32>, Seq<char>)| #[trigger]
        after.contains_key(k) <==> before.contains_key(k) && before[k].expires_at_ns > t
    &&& forall|k: (Option<u32>, Seq<char>)| #[trigger] after.contains_key(k) ==> after[k] == before[k]
}

/// Pruning at `t` changes no answer asked for at `t` or later: whether an
/// answer is found, which answers are the newest, and what a process's own
/// answer holds are the same before and after.
pub proof fn law_prune_keeps_later_answers(
    before: Map<(Option<u32>, Seq<char>), DnsRecord>,
    after: Map<(Option<u32>, Seq<char>), DnsRecord>,
    t: u64,
    later: u64,
    scope: DnsScope,
    by_address: bool,
    text: Seq<char>,
    k: (Option<u32>, Seq<char>),
)
    requires
        pruned_from(before, after, t),
        t <= later,
    ensures
        any_selected(after, scope, by_address, text, later) == any_selected(before, scope, by_address, text, later),
        newest(after, k, scope, by_address, text, later) == newest(before, k, scope, by_address, text, later),
        (after.contains_key(k) && is_active(after[k], later)) == (before.contains_key(k) && is_active(before[k], later)),
        after.contains_key(k) && is_active(after[k], later) ==> after[k] == before[k],
{
    assert forall|k2: (Option<u32>, Seq<char>)|
        before.contains_key(k2) && #[trigger] selects(k2, before[k2], scope, by_address, text, later)
        implies after.contains_key(k2) && after[k2] == before[k2] by {
        assert(before[k2].expires_at_ns > t);
        assert(after.contains_key(k2));
    }
    if any_selected(before, scope, by_address, text, later) {
        let w = choose|w: (Option<u32>, Seq<char>)|
            before.contains_key(w) && #[trigger] selects(w, before[w], scope, by_address, text, later);
        assert(after.contains_key(w) && selects(w, after[w], scope, by_address, text, later));
    }
    if any_selected(after, scope, by_address, text, later) {
        let w = choose|w: (Option<u32>, Seq<char>)|
            after.contains_key(w) && #[trigger] selects(w, after[w], scope, by_address, text, later);
        assert(before.contains_key(w));
        assert(after[w] == before[w]);
    }
    if after.contains_key(k) {
        assert(before.contains_key(k) && after[k] == before[k]);
    }
    if before.contains_key(k) && is_active(before[k], later) {
        assert(after.contains_key(k));
    }
    if newest(before, k, scope, by_address, text, later) {
        assert forall|k2: (Option<u32>, Seq<char>)|
            after.contains_key(k2) && #[trigger] selects(k2, after[k2], scope, by_address, text, later)
                implies after[k2].observed_at_ns <= after[k].observed_at_ns by {
            assert(before.contains_key(k2) && after[k2] == before[k2]);
        }
    }
}

/// Pruning at `t` leaves every search made at `t` or later settling on the
/// same answer, ties included: the kept answers keep their order and
/// values, and the dropped ones could not have been selected then anyway.
pub proof fn law_prune_keeps_later_picks(
    before: Map<DnsKey, DnsRecord>,
    order: Seq<DnsKey>,
    after: Map<DnsKey, DnsRecord>,
    t: u64,
    later: u64,
    scope: DnsScope,
    by_address: bool,
    text: Seq<char>,
)
    requires
        pruned_from(before, after, t),
        t <= later,
    ensures
        pick(after, unexpired(order, before, t), scope, by_address, text, later) == pick(
            before,
            order,
            scope,
            by_address,
            text,
            later,
        ),
        pick(before, order, scope, by_address, text, later) matches Some(k) ==> after.contains_key(k)
            && after[k] == before[k],
    decreases order.len(),
{
    if order.len() > 0 {
        let o = order.drop_last();
        let k = order.last();
        law_prune_keeps_later_picks(before, o, after, t, later, scope, by_address, text);
        let u = unexpired(o, before, t);
        if before[k].expires_at_ns > t {
            assert(unexpired(order, before, t) == u.push(k));
            assert(u.push(k).drop_last() =~= u);
            assert(u.push(k).last() == k);
            if before.contains_key(k) {
                assert(after.contains_key(k) && after[k] == before[k]);
            } else {
                assert(!after.contains_key(k));
            }
        } else {
            assert(unexpired(order, before, t) == u);
            if before.contains_key(k) {
                assert(!is_active(before[k], later));
            }
        }
    }
}

/// A second prune at the same time removes nothing more.
pub proof fn law_prune_is_idempotent(
    before: Map<(Option<u32>, Seq<char>), DnsRecord>,
    once: Map<(Option<u32>, Seq<char>), DnsRecord>,
    twice: Map<(Option<u32>, Seq<char>), DnsRecord>,
    t: u64,
)
    requires
        pruned_from(before, once, t),
        pruned_from(once, twice, t),
    ensures
        twice == once,
{
    assert(twice =~= once);
}


/// What `lookup_for_process(pid, d, t)` answers over the records `m`: the
/// addresses of the answer recorded for that process and domain, while it
/// is in force.
pub open spec fn process_answer(m: Map<(Option<u32>, Seq<char>), DnsRecord>, pid: u32, d: Seq<char>, t: u64) -> Option<
    Seq<Seq<char>>,
> {
    let k = (Some(pid), d);
    if m.contains_key(k) && is_active(m[k], t) {
        Some(m[k].addresses)
    } else {
        None
    }
}

/// A process's lookup follows the latest answer recorded for that process
/// and domain: after recording `rec` it answers `rec`'s addresses exactly
/// while `rec` is in force (seen, not expired, naming an address), and
/// answers recorded for another process, for no process or for another
/// domain never change it.
pub proof fn law_process_lookup_follows_latest_insert(
    m: Map<(Option<u32>, Seq<char>), DnsRecord>,
    pid: u32,
    d: Seq<char>,
    rec: DnsRecord,
    t: u64,
    other: (Option<u32>, Seq<char>),
    other_rec: DnsRecord,
)
    ensures
        process_answer(m.insert((Some(pid), d), rec), pid, d, t) == if is_active(rec, t) {
            Some(rec.addresses)
        } else {
            None::<Seq<Seq<char>>>
        },
        other != (Some(pid), d) ==> process_answer(m.insert(other, other_rec), pid, d, t) == process_answer(
            m,
            pid,
            d,
            t,
        ),
{
}

} // verus!
