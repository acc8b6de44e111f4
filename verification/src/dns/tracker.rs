//! DNS responses seen on the wire, kept until their TTL runs out.
use vstd::prelude::*;
use crate::capture::strings_view;
use super::cache::{active_domain, any_selected, expiry, is_active, newest, DnsCache, DnsRecord, DnsScope};
use vstd::std_specs::iter::IteratorSpec;

verus! {

#[derive(Debug)]
pub struct DnsTracker {
    cache: DnsCache,
}

impl Default for DnsTracker {
    fn default() -> (r: Self)
        ensures
            r.wf(),
            r.cache_view().records() == Map::<(Option<u32>, Seq<char>), DnsRecord>::empty(),
    {
        DnsTracker::new()
    }
}

impl DnsTracker {
    pub closed spec fn wf(&self) -> bool {
        self.cache.wf()
    }

    /// The cache this tracker fills.
    pub closed spec fn cache_view(&self) -> DnsCache {
        self.cache
    }

    pub fn new() -> (r: Self)
        ensures
            r.wf(),
            r.cache_view().wf(),
            r.cache_view().records() == Map::<(Option<u32>, Seq<char>), DnsRecord>::empty(),
    {
        DnsTracker { cache: DnsCache::new() }
    }

    /// Records an answer recorded without a process, then forgets what has expired.
    pub fn observe_response(&mut self, domain: &str, addresses: Vec<String>, ttl_secs: u32, timestamp_ns: u64)
        requires
            old(self).wf(),
        ensures
            final(self).wf(),
            final(self).cache_view().records() == pruned(
                old(self).cache_view().records().insert(
                    (None, domain@),
                    DnsRecord {
                        addresses: strings_view(addresses@),
                        observed_at_ns: timestamp_ns,
                        expires_at_ns: expiry(timestamp_ns, ttl_secs),
                    },
                ),
                timestamp_ns,
            ),
    {
        self.cache.insert(domain, addresses, ttl_secs, timestamp_ns);
        let ghost mid = self.cache.records();
        self.cache.prune(timestamp_ns);
        assert(self.cache.records() =~= pruned(mid, timestamp_ns));
    }

    /// Records an answer to `pid`, then forgets what has expired.
    pub fn observe_response_for_process(
        &mut self,
        pid: u32,
        domain: &str,
        addresses: Vec<String>,
        ttl_secs: u32,
        timestamp_ns: u64,
    )
        requires
            old(self).wf(),
        ensures
            final(self).wf(),
            final(self).cache_view().records() == pruned(
                old(self).cache_view().records().insert(
                    (Some(pid), domain@),
                    DnsRecord {
                        addresses: strings_view(addresses@),
                        observed_at_ns: timestamp_ns,
                        expires_at_ns: expiry(timestamp_ns, ttl_secs),
                    },
                ),
                timestamp_ns,
            ),
    {
        self.cache.insert_for_process(Some(pid), domain, addresses, ttl_secs, timestamp_ns);
        let ghost mid = self.cache.records();
        self.cache.prune(timestamp_ns);
        assert(self.cache.records() =~= pruned(mid, timestamp_ns));
    }

    pub fn domain_for_address(&self, address: &str, timestamp_ns: u64) -> (r: Option<String>)
        requires
            self.wf(),
        ensures
            r is None <==> !any_selected(self.cache_view().records(), DnsScope::Any, true, address@, timestamp_ns),
            r matches Some(d) ==> exists|k: (Option<u32>, Seq<char>)|
                #[trigger] newest(self.cache_view().records(), k, DnsScope::Any, true, address@, timestamp_ns)
                    && k.1 == d@,
    {
        self.cache.domain_for_address(address, timestamp_ns)
    }

    pub fn domain_for_process_address(&self, pid: u32, address: &str, timestamp_ns: u64) -> (r: Option<String>)
        requires
            self.wf(),
        ensures
            if any_selected(self.cache_view().records(), DnsScope::Process(pid), true, address@, timestamp_ns) {
                r matches Some(d) && exists|k: (Option<u32>, Seq<char>)|
                    #[trigger] newest(self.cache_view().records(), k, DnsScope::Process(pid), true, address@, timestamp_ns)
                        && k.1 == d@
            } else if any_selected(self.cache_view().records(), DnsScope::Unscoped, true, address@, timestamp_ns) {
                r matches Some(d) && exists|k: (Option<u32>, Seq<char>)|
                    #[trigger] newest(self.cache_view().records(), k, DnsScope::Unscoped, true, address@, timestamp_ns)
                        && k.1 == d@
            } else {
                r is None
            },
    {
        self.cache.domain_for_process_address(pid, address, timestamp_ns)
    }

    pub fn domain_for_unscoped_address(&self, address: &str, timestamp_ns: u64) -> (r: Option<String>)
        requires
            self.wf(),
        ensures
            r is None <==> !any_selected(self.cache_view().records(), DnsScope::Unscoped, true, address@, timestamp_ns),
            r matches Some(d) ==> exists|k: (Option<u32>, Seq<char>)|
                #[trigger] newest(self.cache_view().records(), k, DnsScope::Unscoped, true, address@, timestamp_ns)
                    && k.1 == d@,
    {
        self.cache.domain_for_unscoped_address(address, timestamp_ns)
    }

    pub fn domains(&self, timestamp_ns: u64) -> (r: std::vec::IntoIter<String>)
        requires
            self.wf(),
        ensures
            forall|j: int| 0 <= j < r.remaining().len() ==> active_domain(
                self.cache_view().records(),
                (#[trigger] r.remaining()[j])@,
                timestamp_ns,
            ),
            forall|k: (Option<u32>, Seq<char>)|
                self.cache_view().records().contains_key(k) && is_active(#[trigger] self.cache_view().records()[k], timestamp_ns)
                    ==> exists|j: int| 0 <= j < r.remaining().len() && r.remaining()[j]@ == k.1,
    {
        self.cache.domains(timestamp_ns)
    }

    pub fn cache(&self) -> (r: &DnsCache)
        ensures
            *r == self.cache_view(),
            self.wf() ==> r.wf(),
    {
        &self.cache
    }
}

/// The answers of `m` that have not expired at `ts`.
pub open spec fn pruned(
    m: Map<(Option<u32>, Seq<char>), DnsRecord>,
    ts: u64,
) -> Map<(Option<u32>, Seq<char>), DnsRecord> {
    m.restrict(m.dom().filter(|k: (Option<u32>, Seq<char>)| m[k].expires_at_ns > ts))
}

} // verus!
