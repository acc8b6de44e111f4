//! What the userspace probe runtime does for a target: which TLS libraries
//! it reports, which of them it attaches, with which probes and through
//! which runtime, and which problems it reports instead of attaching.
use vstd::prelude::*;
use crate::capture::{strings_view, CaptureFeatures, CaptureModule};
use crate::events::{clone_opt_string, clone_strings};
use crate::keyed::{text_less, text_lt};
use crate::text::{chars_of, push_str, range_starts_with};
use super::bpftime::{spec_view, ProbeSpec};
use super::provider::{first_nspr, nspr_among, provider_label, TlsCapability, TlsProvider};
use super::userspace::{global_target, is_global_target, probe_requests, requests_for, ProbeAttachment};
use super::{probes_for_features, probes_spec, ProbeKind, UserspaceRuntime};

verus! {

/// The runtime that attaches a library's probes: bpftime for one process's
/// library unless it is NSS, else the kernel uprobe fallback where it is
/// available, else none.
pub open spec fn runtime_for(
    selected: UserspaceRuntime,
    pid: u32,
    provider: TlsProvider,
    kernel_available: bool,
) -> Option<UserspaceRuntime> {
    if selected == UserspaceRuntime::Bpftime && pid != 0 && provider != TlsProvider::Nss {
        Some(UserspaceRuntime::Bpftime)
    } else if kernel_available {
        Some(UserspaceRuntime::KernelUprobe)
    } else {
        None
    }
}

pub fn pick_runtime(selected: UserspaceRuntime, pid: u32, provider: TlsProvider, kernel_available: bool) -> (r:
    Option<UserspaceRuntime>)
    ensures
        r == runtime_for(selected, pid, provider, kernel_available),
{
    if selected == UserspaceRuntime::Bpftime && pid != 0 && provider != TlsProvider::Nss {
        Some(UserspaceRuntime::Bpftime)
    } else if kernel_available {
        Some(UserspaceRuntime::KernelUprobe)
    } else {
        None
    }
}

/// Two capability records hold the same values.
pub open spec fn same_capability(a: TlsCapability, b: TlsCapability) -> bool {
    &&& a.provider == b.provider
    &&& a.library == b.library
    &&& a.build_id == b.build_id
    &&& a.version_hint == b.version_hint
    &&& a.auxiliary_libraries@ == b.auxiliary_libraries@
    &&& a.modules@ == b.modules@
    &&& a.symbols@ == b.symbols@
    &&& a.supported == b.supported
    &&& a.reason == b.reason
}

fn copy_modules(v: &Vec<CaptureModule>) -> (r: Vec<CaptureModule>)
    ensures
        r@ == v@,
{
    let mut r: Vec<CaptureModule> = Vec::new();
    let mut i: usize = 0;
    while i < v.len()
        invariant
            i <= v@.len(),
            r@ == v@.take(i as int),
        decreases v.len() - i,
    {
        r.push(v[i]);
        assert(v@.take(i + 1) =~= v@.take(i as int).push(v@[i as int]));
        i += 1;
    }
    assert(v@.take(v@.len() as int) =~= v@);
    r
}

fn copy_capability(c: &TlsCapability) -> (r: TlsCapability)
    ensures
        same_capability(r, *c),
{
    TlsCapability {
        provider: c.provider,
        library: c.library.clone(),
        build_id: c.build_id.clone(),
        version_hint: clone_opt_string(&c.version_hint),
        auxiliary_libraries: clone_strings(&c.auxiliary_libraries),
        modules: copy_modules(&c.modules),
        symbols: clone_strings(&c.symbols),
        supported: c.supported,
        reason: clone_opt_string(&c.reason),
    }
}

pub open spec fn build_of(found: Seq<(u32, TlsCapability)>, i: int) -> Seq<char> {
    found[i].1.build_id@
}

/// Where a build id goes among listed entries: before the first whose build
/// id sorts after it.
pub open spec fn order_slot(found: Seq<(u32, TlsCapability)>, t: Seq<int>, id: Seq<char>) -> nat
    decreases t.len(),
{
    if t.len() == 0 {
        0
    } else if text_lt(id, build_of(found, t[0])) {
        0
    } else {
        1 + order_slot(found, t.drop_first(), id)
    }
}

pub open spec fn lists_build(found: Seq<(u32, TlsCapability)>, t: Seq<int>, id: Seq<char>) -> bool {
    exists|k: int| 0 <= k < t.len() && build_of(found, #[trigger] t[k]) == id
}

/// The entries among the first `n` found that the runtime reports: the
/// first of each build id, ordered by build id.
pub open spec fn build_order(found: Seq<(u32, TlsCapability)>, n: nat) -> Seq<int>
    decreases n,
{
    if n == 0 {
        Seq::empty()
    } else {
        let t = build_order(found, (n - 1) as nat);
        let id = build_of(found, n - 1);
        if lists_build(found, t, id) {
            t
        } else {
            t.insert(order_slot(found, t, id) as int, n - 1)
        }
    }
}

/// An entry to attach: the position of the library among those found, its
/// process, the probes to attach and the runtime that attaches them.
#[derive(Debug, Clone)]
pub struct PlannedAttach {
    pub entry: usize,
    pub pid: u32,
    pub requests: Vec<(ProbeKind, ProbeSpec)>,
    pub runtime: Option<UserspaceRuntime>,
}

pub type PlannedView = (int, u32, Seq<(ProbeKind, super::bpftime::SpecView)>, Option<UserspaceRuntime>);

pub open spec fn planned_view(p: PlannedAttach) -> PlannedView {
    (p.entry as int, p.pid, p.requests@.map_values(|x: (ProbeKind, ProbeSpec)| (x.0, spec_view(x.1))), p.runtime)
}

/// The supported entries among the first `n` found that have probes to
/// attach, in order.
pub open spec fn planned(
    found: Seq<(u32, TlsCapability)>,
    probes: Seq<ProbeKind>,
    selected: UserspaceRuntime,
    kernel_available: bool,
    n: nat,
) -> Seq<PlannedView>
    decreases n,
{
    if n == 0 {
        Seq::empty()
    } else {
        let p = planned(found, probes, selected, kernel_available, (n - 1) as nat);
        let (pid, c) = found[n - 1];
        let requests = requests_for(c.provider, c.symbols@, probes);
        if c.supported && requests.len() > 0 {
            p.push((n - 1, pid, requests, runtime_for(selected, pid, c.provider, kernel_available)))
        } else {
            p
        }
    }
}

pub open spec fn catalog_error(c: TlsCapability) -> Seq<char> {
    provider_label(c.provider) + " at "@ + c.library@ + " has no probe catalog"@
}

/// One error for each supported entry among the first `n` found that has no
/// probe for the requested probes.
pub open spec fn catalog_errors(found: Seq<(u32, TlsCapability)>, probes: Seq<ProbeKind>, n: nat) -> Seq<Seq<char>>
    decreases n,
{
    if n == 0 {
        Seq::empty()
    } else {
        let e = catalog_errors(found, probes, (n - 1) as nat);
        let c = found[n - 1].1;
        if c.supported && requests_for(c.provider, c.symbols@, probes).len() == 0 {
            e.push(catalog_error(c))
        } else {
            e
        }
    }
}

pub open spec fn no_provider_error(target: Seq<char>) -> Seq<char> {
    "no supported TLS provider is currently loaded for "@ + target
}

/// What to do for a target: the capabilities to report, the libraries to
/// attach, and the problems to report.
#[derive(Debug, Clone)]
pub struct AttachPlan {
    pub capabilities: Vec<TlsCapability>,
    pub attaches: Vec<PlannedAttach>,
    pub errors: Vec<String>,
}

fn slot_of(found: &Vec<(u32, TlsCapability)>, t: &Vec<usize>, id: &String) -> (r: (usize, bool))
    requires
        forall|k: int| 0 <= k < t@.len() ==> (#[trigger] t@[k]) < found@.len(),
    ensures
        r.0 == order_slot(found@, t@.map_values(|x: usize| x as int), id@),
        r.1 == lists_build(found@, t@.map_values(|x: usize| x as int), id@),
{
    let ghost ts = t@.map_values(|x: usize| x as int);
    let mut i: usize = 0;
    let mut slot: usize = 0;
    let mut found_slot = false;
    let mut listed = false;
    assert(ts.skip(0) =~= ts);
    while i < t.len()
        invariant
            i <= t@.len(),
            ts == t@.map_values(|x: usize| x as int),
            forall|k: int| 0 <= k < t@.len() ==> (#[trigger] t@[k]) < found@.len(),
            !found_slot ==> slot == i && i + order_slot(found@, ts.skip(i as int), id@) == order_slot(found@, ts, id@),
            found_slot ==> slot == order_slot(found@, ts, id@),
            listed == exists|k: int| 0 <= k < i && build_of(found@, #[trigger] ts[k]) == id@,
        decreases t.len() - i,
    {
        let b = &found[t[i]].1.build_id;
        assert(ts[i as int] == t@[i as int] as int);
        assert(b@ == build_of(found@, ts[i as int]));
        if !found_slot {
            assert(ts.skip(i as int)[0] == ts[i as int]);
            assert(ts.skip(i as int).drop_first() =~= ts.skip(i + 1));
            if text_less(id.as_str(), b.as_str()) {
                found_slot = true;
            } else {
                slot = i + 1;
            }
        }
        if *b == *id {
            listed = true;
        }
        i += 1;
    }
    if !found_slot {
        assert(ts.skip(i as int) =~= Seq::<int>::empty());
    }
    (slot, listed)
}

proof fn lemma_order_slot_bound(found: Seq<(u32, TlsCapability)>, t: Seq<int>, id: Seq<char>)
    ensures
        order_slot(found, t, id) <= t.len(),
    decreases t.len(),
{
    if t.len() > 0 && !text_lt(id, build_of(found, t[0])) {
        lemma_order_slot_bound(found, t.drop_first(), id);
    }
}

/// The order in which the runtime reports the libraries found.
fn reported_order(found: &Vec<(u32, TlsCapability)>) -> (r: Vec<usize>)
    ensures
        r@.map_values(|x: usize| x as int) == build_order(found@, found@.len()),
        forall|k: int| 0 <= k < r@.len() ==> (#[trigger] r@[k]) < found@.len(),
{
    let mut t: Vec<usize> = Vec::new();
    let mut n: usize = 0;
    assert(t@.map_values(|x: usize| x as int) =~= build_order(found@, 0));
    while n < found.len()
        invariant
            n <= found@.len(),
            t@.map_values(|x: usize| x as int) == build_order(found@, n as nat),
            forall|k: int| 0 <= k < t@.len() ==> (#[trigger] t@[k]) < n,
        decreases found.len() - n,
    {
        let ghost before = t@;
        let ghost ts = t@.map_values(|x: usize| x as int);
        let (slot, listed) = slot_of(found, &t, &found[n].1.build_id);
        assert(found@[n as int].1.build_id@ == build_of(found@, n as int));
        if !listed {
            proof {
                lemma_order_slot_bound(found@, ts, build_of(found@, n as int));
            }
            t.insert(slot, n);
            assert(t@.map_values(|x: usize| x as int) =~= ts.insert(slot as int, n as int));
            assert forall|k: int| 0 <= k < t@.len() implies (#[trigger] t@[k]) < n + 1 by {
                if k < slot {
                    assert(t@[k] == before[k]);
                } else if k > slot {
                    assert(t@[k] == before[k - 1]);
                }
            }
        }
        n += 1;
    }
    t
}

fn catalog_message(c: &TlsCapability) -> (r: String)
    ensures
        r@ == catalog_error(*c),
{
    let mut s = c.provider.to_string();
    push_str(&mut s, " at ");
    push_str(&mut s, c.library.as_str());
    push_str(&mut s, " has no probe catalog");
    s
}

/// What the userspace probe runtime does for `target` with the probes the
/// features need and the TLS libraries `found` for it (with their
/// processes): nothing without probes; one error and nothing else when no
/// library was found; otherwise it reports the libraries (one per build id,
/// by build id), attaches each supported library that has probes for the
/// features through the runtime `runtime_for` picks, and reports each
/// supported library that has none.
pub fn attach_plan(
    target: &str,
    features: CaptureFeatures,
    found: &Vec<(u32, TlsCapability)>,
    selected: UserspaceRuntime,
    kernel_uprobe: bool,
) -> (r: AttachPlan)
    ensures
        ({
            let probes = probes_spec(features@);
            if probes.len() == 0 {
                &&& r.capabilities@.len() == 0
                &&& r.attaches@.len() == 0
                &&& r.errors@.len() == 0
            } else if found@.len() == 0 {
                &&& r.capabilities@.len() == 0
                &&& r.attaches@.len() == 0
                &&& strings_view(r.errors@) == seq![no_provider_error(target@)]
            } else {
                let order = build_order(found@, found@.len());
                &&& r.capabilities@.len() == order.len()
                &&& forall|i: int|
                    0 <= i < order.len() ==> same_capability(
                        #[trigger] r.capabilities@[i],
                        found@[order[i]].1,
                    )
                &&& r.attaches@.map_values(|p: PlannedAttach| planned_view(p)) == planned(
                    found@,
                    probes,
                    selected,
                    kernel_uprobe,
                    found@.len(),
                )
                &&& strings_view(r.errors@) == catalog_errors(found@, probes, found@.len())
            }
        }),
{
    let probes = probes_for_features(features);
    if probes.len() == 0 {
        return AttachPlan { capabilities: Vec::new(), attaches: Vec::new(), errors: Vec::new() };
    }
    if found.len() == 0 {
        let mut e = String::new();
        push_str(&mut e, "no supported TLS provider is currently loaded for ");
        push_str(&mut e, target);
        let mut errors: Vec<String> = Vec::new();
        errors.push(e);
        assert(strings_view(errors@) =~= seq![no_provider_error(target@)]);
        return AttachPlan { capabilities: Vec::new(), attaches: Vec::new(), errors };
    }
    let order = reported_order(found);
    let mut capabilities: Vec<TlsCapability> = Vec::new();
    let mut k: usize = 0;
    while k < order.len()
        invariant
            k <= order@.len(),
            forall|j: int| 0 <= j < order@.len() ==> (#[trigger] order@[j]) < found@.len(),
            capabilities@.len() == k,
            forall|i: int| 0 <= i < k ==> same_capability(#[trigger] capabilities@[i], found@[order@[i] as int].1),
        decreases order.len() - k,
    {
        capabilities.push(copy_capability(&found[order[k]].1));
        k += 1;
    }
    proof {
        assert forall|i: int| 0 <= i < order@.len() implies order@.map_values(|x: usize| x as int)[i] == order@[i] as int by {}
    }
    let mut attaches: Vec<PlannedAttach> = Vec::new();
    let mut errors: Vec<String> = Vec::new();
    let mut n: usize = 0;
    assert(attaches@.map_values(|p: PlannedAttach| planned_view(p)) =~= Seq::<PlannedView>::empty());
    assert(strings_view(errors@) =~= Seq::<Seq<char>>::empty());
    while n < found.len()
        invariant
            n <= found@.len(),
            probes@ == probes_spec(features@),
            attaches@.map_values(|p: PlannedAttach| planned_view(p)) == planned(
                found@,
                probes@,
                selected,
                kernel_uprobe,
                n as nat,
            ),
            strings_view(errors@) == catalog_errors(found@, probes@, n as nat),
        decreases found.len() - n,
    {
        let pid = found[n].0;
        let c = &found[n].1;
        if c.supported {
            let requests = probe_requests(c.provider, &c.symbols, &probes);
            if requests.len() > 0 {
                let ghost before = attaches@;
                let runtime = pick_runtime(selected, pid, c.provider, kernel_uprobe);
                let planned_one = PlannedAttach { entry: n, pid, requests, runtime };
                assert(planned_view(planned_one).2 == requests_for(c.provider, c.symbols@, probes@));
                attaches.push(planned_one);
                assert(attaches@.map_values(|p: PlannedAttach| planned_view(p)) =~= before.map_values(
                    |p: PlannedAttach| planned_view(p),
                ).push(planned_view(planned_one)));
            } else {
                let ghost before = errors@;
                assert(requests@.map_values(|x: (ProbeKind, ProbeSpec)| (x.0, spec_view(x.1))).len() == 0);
                errors.push(catalog_message(c));
                assert(strings_view(errors@) =~= strings_view(before).push(catalog_error(*c)));
            }
        }
        n += 1;
    }
    AttachPlan { capabilities, attaches, errors }
}

/// The errors after reporting one more: kept once, the oldest dropped past
/// 32.
pub open spec fn noted(errors: Seq<Seq<char>>, e: Seq<char>) -> Seq<Seq<char>> {
    let a = if errors.contains(e) {
        errors
    } else {
        errors.push(e)
    };
    if a.len() > 32 {
        a.drop_first()
    } else {
        a
    }
}

fn has_text(v: &Vec<String>, t: &String) -> (r: bool)
    ensures
        r == strings_view(v@).contains(t@),
{
    let mut i: usize = 0;
    while i < v.len()
        invariant
            i <= v@.len(),
            forall|j: int| 0 <= j < i ==> v@[j]@ != t@,
        decreases v.len() - i,
    {
        if v[i] == *t {
            assert(strings_view(v@)[i as int] == t@);
            return true;
        }
        i += 1;
    }
    proof {
        if strings_view(v@).contains(t@) {
            let j = choose|j: int| 0 <= j < v@.len() && #[trigger] strings_view(v@)[j] == t@;
            assert(v@[j]@ == t@);
        }
    }
    false
}

/// Reports a probe problem: each one once, the newest 32 kept.
pub fn record_error(errors: &mut Vec<String>, error: String)
    ensures
        strings_view(final(errors)@) == noted(strings_view(old(errors)@), error@),
{
    let ghost before = strings_view(errors@);
    if !has_text(errors, &error) {
        let ghost e = error@;
        errors.push(error);
        assert(strings_view(errors@) =~= before.push(e));
    }
    if errors.len() > 32 {
        let ghost mid = strings_view(errors@);
        errors.remove(0);
        assert(strings_view(errors@) =~= mid.drop_first());
    }
}

/// Whether the attachments of a target are exactly the probes wanted: each
/// wanted kind attached, and no other kind.
pub open spec fn covers(attachments: Seq<ProbeAttachment>, target: Seq<char>, probes: Seq<ProbeKind>) -> bool {
    forall|p: ProbeKind|
        probes.contains(p) <==> exists|j: int|
            0 <= j < attachments.len() && (#[trigger] attachments[j]).target@ == target && attachments[j].probe == p
}

fn attached_kind(attachments: &Vec<ProbeAttachment>, target: &str, p: ProbeKind) -> (r: bool)
    ensures
        r == exists|j: int|
            0 <= j < attachments@.len() && (#[trigger] attachments@[j]).target@ == target@ && attachments@[j].probe == p,
{
    let mut i: usize = 0;
    while i < attachments.len()
        invariant
            i <= attachments@.len(),
            forall|j: int| 0 <= j < i ==> !((#[trigger] attachments@[j]).target@ == target@ && attachments@[j].probe == p),
        decreases attachments.len() - i,
    {
        if crate::keyed::same_text(attachments[i].target.as_str(), target) && attachments[i].probe == p {
            return true;
        }
        i += 1;
    }
    false
}

fn wants(probes: &Vec<ProbeKind>, p: ProbeKind) -> (r: bool)
    ensures
        r == probes@.contains(p),
{
    let mut i: usize = 0;
    while i < probes.len()
        invariant
            i <= probes@.len(),
            forall|j: int| 0 <= j < i ==> probes@[j] != p,
        decreases probes.len() - i,
    {
        if probes[i] == p {
            return true;
        }
        i += 1;
    }
    false
}

/// Whether a target's attachments cover exactly the probes the features
/// need; an attach that found the library not yet mapped does not, and is
/// retried.
pub fn matches_features(attachments: &Vec<ProbeAttachment>, target: &str, features: CaptureFeatures) -> (r: bool)
    ensures
        r == covers(attachments@, target@, probes_spec(features@)),
{
    let probes = probes_for_features(features);
    let kinds = [ProbeKind::Tls, ProbeKind::Http, ProbeKind::Plaintext];
    let mut i: usize = 0;
    while i < 3
        invariant
            i <= 3,
            kinds@ == seq![ProbeKind::Tls, ProbeKind::Http, ProbeKind::Plaintext],
            probes@ == probes_spec(features@),
            forall|j: int| 0 <= j < i ==> (probes@.contains(#[trigger] kinds@[j]) <==> exists|k: int|
                0 <= k < attachments@.len() && (#[trigger] attachments@[k]).target@ == target@ && attachments@[k].probe == kinds@[j]),
        decreases 3 - i,
    {
        let p = kinds[i];
        if wants(&probes, p) != attached_kind(attachments, target, p) {
            return false;
        }
        i += 1;
    }
    assert forall|p: ProbeKind| probes@.contains(p) <==> exists|j: int|
        0 <= j < attachments@.len() && (#[trigger] attachments@[j]).target@ == target@ && attachments@[j].probe == p by {
        match p {
            ProbeKind::Tls => assert(kinds@[0] == p),
            ProbeKind::Http => assert(kinds@[1] == p),
            ProbeKind::Plaintext => assert(kinds@[2] == p),
        }
    }
    true
}

/// The attachment records of a kernel-uprobe provider: one per request,
/// named by the hooked function.
pub open spec fn kernel_records(target: Seq<char>, pid: u32, requests: Seq<(ProbeKind, ProbeSpec)>) -> Seq<
    (Seq<char>, u32, ProbeKind, Seq<char>, UserspaceRuntime),
> {
    requests.map_values(
        |x: (ProbeKind, ProbeSpec)| (target, pid, x.0, x.1.function_name@, UserspaceRuntime::KernelUprobe),
    )
}

pub open spec fn record_view(a: ProbeAttachment) -> (Seq<char>, u32, ProbeKind, Seq<char>, UserspaceRuntime) {
    (a.target@, a.pid, a.probe, a.hook@, a.runtime)
}

pub fn kernel_attachments(target: &str, pid: u32, requests: &Vec<(ProbeKind, ProbeSpec)>) -> (r: Vec<ProbeAttachment>)
    ensures
        r@.map_values(|a: ProbeAttachment| record_view(a)) == kernel_records(target@, pid, requests@),
{
    let mut r: Vec<ProbeAttachment> = Vec::new();
    let mut i: usize = 0;
    while i < requests.len()
        invariant
            i <= requests@.len(),
            r@.map_values(|a: ProbeAttachment| record_view(a)) == kernel_records(target@, pid, requests@.take(i as int)),
        decreases requests.len() - i,
    {
        let (probe, spec) = requests[i];
        let mut hook = String::new();
        push_str(&mut hook, spec.function_name);
        let mut name = String::new();
        push_str(&mut name, target);
        let ghost before = r@;
        r.push(ProbeAttachment { target: name, pid, probe, hook, runtime: UserspaceRuntime::KernelUprobe });
        assert(requests@.take(i + 1) =~= requests@.take(i as int).push(requests@[i as int]));
        assert(r@.map_values(|a: ProbeAttachment| record_view(a)) =~= before.map_values(
            |a: ProbeAttachment| record_view(a),
        ).push(record_view(r@[i as int])));
        i += 1;
    }
    assert(requests@.take(requests@.len() as int) =~= requests@);
    r
}

/// The uprobe links the requests make: one each, two with a companion.
pub open spec fn links_of(requests: Seq<(ProbeKind, ProbeSpec)>) -> nat
    decreases requests.len(),
{
    if requests.len() == 0 {
        0
    } else {
        links_of(requests.drop_last()) + if requests.last().1.companion_program_name is Some {
            2nat
        } else {
            1nat
        }
    }
}

proof fn lemma_links_bound(requests: Seq<(ProbeKind, ProbeSpec)>)
    ensures
        links_of(requests) <= 2 * requests.len(),
    decreases requests.len(),
{
    if requests.len() > 0 {
        lemma_links_bound(requests.drop_last());
    }
}

pub fn link_count(requests: &Vec<(ProbeKind, ProbeSpec)>) -> (r: usize)
    requires
        requests@.len() <= usize::MAX / 2,
    ensures
        r == links_of(requests@),
{
    let mut n: usize = 0;
    let mut i: usize = 0;
    while i < requests.len()
        invariant
            i <= requests@.len() <= usize::MAX / 2,
            n == links_of(requests@.take(i as int)),
        decreases requests.len() - i,
    {
        assert(requests@.take(i + 1).drop_last() =~= requests@.take(i as int));
        proof {
            lemma_links_bound(requests@.take(i as int));
        }
        n = n + if requests[i].1.companion_program_name.is_some() {
            2
        } else {
            1
        };
        i += 1;
    }
    assert(requests@.take(i as int) =~= requests@);
    n
}


/// The library a uprobe on `function` is placed in: the NSPR library among
/// the auxiliary ones for the `PR_` functions, else the provider's library.
pub open spec fn hook_library_spec(function: Seq<char>, library: Seq<char>, auxiliary: Seq<String>) -> Result<
    Seq<char>,
    Seq<char>,
> {
    if "PR_"@.is_prefix_of(function) {
        match first_nspr(auxiliary) {
            Some(p) => Ok(p),
            None => Err("NSS provider is missing libnspr4.so"@),
        }
    } else {
        Ok(library)
    }
}

pub fn hook_library(function: &str, capability: &TlsCapability) -> (r: Result<String, String>)
    ensures
        match hook_library_spec(function@, capability.library@, capability.auxiliary_libraries@) {
            Ok(p) => r matches Ok(s) && s@ == p,
            Err(e) => r matches Err(s) && s@ == e,
        },
{
    let v = chars_of(function);
    assert(v@.subrange(0, v@.len() as int) =~= v@);
    if range_starts_with(&v, 0, v.len(), "PR_") {
        match nspr_among(capability.auxiliary_libraries.as_slice()) {
            Some(p) => Ok(p),
            None => {
                let mut e = String::new();
                push_str(&mut e, "NSS provider is missing libnspr4.so");
                Err(e)
            },
        }
    } else {
        let mut l = String::new();
        push_str(&mut l, capability.library.as_str());
        Ok(l)
    }
}

/// The OpenSSL functions the stand-in library of a dry run defines.
pub open spec fn dry_run_symbols() -> Seq<Seq<char>> {
    seq![
        "SSL_connect"@,
        "SSL_get_servername"@,
        "SSL_get_version"@,
        "SSL_get_fd"@,
        "SSL_set_fd"@,
        "SSL_read"@,
        "SSL_write"@,
        "SSL_read_ex"@,
        "SSL_write_ex"@,
    ]
}

/// The stand-in OpenSSL library a dry run attaches to in place of the
/// libraries a process maps.
pub open spec fn is_dry_run_capability(c: TlsCapability) -> bool {
    &&& c.provider == TlsProvider::OpenSsl
    &&& c.library@ == "dry-run-libssl.so"@
    &&& c.build_id@ == "dry-run"@
    &&& c.version_hint is None
    &&& c.auxiliary_libraries@.len() == 0
    &&& c.modules@.len() == 0
    &&& strings_view(c.symbols@) == dry_run_symbols()
    &&& c.supported
    &&& c.reason is None
}

fn owned(s: &str) -> (r: String)
    ensures
        r@ == s@,
{
    let mut r = String::new();
    push_str(&mut r, s);
    r
}

pub fn dry_run_capability() -> (r: TlsCapability)
    ensures
        is_dry_run_capability(r),
{
    let mut symbols: Vec<String> = Vec::new();
    symbols.push(owned("SSL_connect"));
    symbols.push(owned("SSL_get_servername"));
    symbols.push(owned("SSL_get_version"));
    symbols.push(owned("SSL_get_fd"));
    symbols.push(owned("SSL_set_fd"));
    symbols.push(owned("SSL_read"));
    symbols.push(owned("SSL_write"));
    symbols.push(owned("SSL_read_ex"));
    symbols.push(owned("SSL_write_ex"));
    assert(strings_view(symbols@) =~= dry_run_symbols());
    TlsCapability {
        provider: TlsProvider::OpenSsl,
        library: owned("dry-run-libssl.so"),
        build_id: owned("dry-run"),
        version_hint: None,
        auxiliary_libraries: Vec::new(),
        modules: Vec::new(),
        symbols,
        supported: true,
        reason: None,
    }
}

/// What a dry run finds for a target: the stand-in library once for all
/// processes (pid 0) for a global or process-name target, else once for
/// each of its processes.
pub fn dry_run_found(target: &str, process_pids: &Vec<u32>) -> (r: Vec<(u32, TlsCapability)>)
    ensures
        r@.len() == if global_target(target@) {
            1
        } else {
            process_pids@.len()
        },
        forall|i: int|
            0 <= i < r@.len() ==> is_dry_run_capability(#[trigger] r@[i].1) && r@[i].0 == if global_target(
                target@,
            ) {
                0
            } else {
                process_pids@[i]
            },
{
    let mut r: Vec<(u32, TlsCapability)> = Vec::new();
    if is_global_target(target) {
        r.push((0, dry_run_capability()));
        return r;
    }
    let mut i: usize = 0;
    while i < process_pids.len()
        invariant
            i <= process_pids@.len(),
            !global_target(target@),
            r@.len() == i,
            forall|j: int| 0 <= j < i ==> is_dry_run_capability(#[trigger] r@[j].1) && r@[j].0 == process_pids@[j],
        decreases process_pids.len() - i,
    {
        r.push((process_pids[i], dry_run_capability()));
        i += 1;
    }
    r
}

} // verus!
