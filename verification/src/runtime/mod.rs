//! Probe runtimes: which userspace runtime is used, which probes a feature
//! set needs, and the probe catalogues and wire layouts they share.
pub mod bpftime;
pub mod provider;
pub mod selector;
pub mod wire;
pub mod address;
pub mod userspace;
pub mod kernel;
pub mod dns_wire;
pub mod loader;
pub mod inspect;
pub mod plan;

use vstd::prelude::*;
use crate::capture::{CaptureFeatures, CaptureModule};
use crate::observation::ObservationLevel;
use crate::text::push_str;

verus! {

#[derive(Debug, Clone, Copy, PartialEq, Eq, Structural)]
pub enum UserspaceRuntime {
    Bpftime,
    KernelUprobe,
    Unavailable,
}

pub open spec fn runtime_name(r: UserspaceRuntime) -> Seq<char> {
    match r {
        UserspaceRuntime::Bpftime => "bpftime"@,
        UserspaceRuntime::KernelUprobe => "kernel uprobe"@,
        UserspaceRuntime::Unavailable => "unavailable"@,
    }
}

impl UserspaceRuntime {
    /// The name the health API reports.
    pub fn to_string(&self) -> (r: String)
        ensures
            r@ == runtime_name(*self),
    {
        match self {
            UserspaceRuntime::Bpftime => "bpftime".to_owned(),
            UserspaceRuntime::KernelUprobe => "kernel uprobe".to_owned(),
            UserspaceRuntime::Unavailable => "unavailable".to_owned(),
        }
    }
}

#[derive(Debug, Clone, Copy, PartialEq, Eq, Hash, Ord, PartialOrd, Structural)]
pub enum ProbeKind {
    Tls,
    Http,
    Plaintext,
}

pub open spec fn probe_name(p: ProbeKind) -> Seq<char> {
    match p {
        ProbeKind::Tls => "tls"@,
        ProbeKind::Http => "http"@,
        ProbeKind::Plaintext => "plaintext"@,
    }
}

impl ProbeKind {
    pub fn to_string(&self) -> (r: String)
        ensures
            r@ == probe_name(*self),
    {
        match self {
            ProbeKind::Tls => "tls".to_owned(),
            ProbeKind::Http => "http".to_owned(),
            ProbeKind::Plaintext => "plaintext".to_owned(),
        }
    }
}

/// The probes a feature set needs: TLS metadata for `Tls`; the shared bounded
/// read/write transport for `Http` or `Plaintext`.
pub open spec fn probes_spec(f: Set<CaptureModule>) -> Seq<ProbeKind> {
    (if f.contains(CaptureModule::Tls) {
        seq![ProbeKind::Tls]
    } else {
        Seq::empty()
    }) + (if f.contains(CaptureModule::Http) || f.contains(CaptureModule::Plaintext) {
        seq![ProbeKind::Plaintext]
    } else {
        Seq::empty()
    })
}

pub fn probes_for_features(features: CaptureFeatures) -> (r: Vec<ProbeKind>)
    ensures
        r@ == probes_spec(features@),
{
    let mut probes: Vec<ProbeKind> = Vec::new();
    if features.contains(CaptureModule::Tls) {
        probes.push(ProbeKind::Tls);
    }
    if features.contains(CaptureModule::Http) || features.contains(CaptureModule::Plaintext) {
        probes.push(ProbeKind::Plaintext);
    }
    assert(probes@ =~= probes_spec(features@));
    probes
}

/// The probes of a legacy observation level.
pub fn probes_for_level(level: ObservationLevel) -> (r: Vec<ProbeKind>)
    ensures
        crate::capture::legacy_set(crate::observation::level_rank(level)) matches Some(f) && r@
            == probes_spec(f),
{
    let features = match CaptureFeatures::legacy_level(level.number()) {
        Some(f) => f,
        None => CaptureFeatures::none(),
    };
    probes_for_features(features)
}

/// What discovery found out about the bpftime command and the TraceLens
/// loader on this machine.
#[derive(Debug, Clone, PartialEq, Eq)]
pub struct BpftimeDiscovery {
    pub executable: Option<String>,
    pub loader_executable: Option<String>,
    pub version: Option<String>,
    pub detail: String,
}

impl BpftimeDiscovery {
    /// Both the command and the loader are needed to create a real uprobe link.
    pub fn is_available(&self) -> (r: bool)
        ensures
            r == (self.executable is Some && self.loader_executable is Some),
    {
        self.executable.is_some() && self.loader_executable.is_some()
    }

    /// The command to run: the one discovered, or plain `bpftime`.
    pub fn executable(&self) -> (r: &str)
        ensures
            r@ == match self.executable {
                Some(e) => e@,
                None => "bpftime"@,
            },
    {
        match &self.executable {
            Some(e) => e.as_str(),
            None => "bpftime",
        }
    }
}

#[derive(Debug, Clone)]
pub struct RuntimeStatus {
    pub kernel_observation: bool,
    pub userspace_runtime: UserspaceRuntime,
    pub detail: String,
}

/// The runtime chosen for a preference, given whether kernel observation is
/// possible here and what bpftime discovery found.
pub open spec fn chosen_runtime(preferred: Seq<char>, kernel: bool, bpftime_available: bool) -> UserspaceRuntime {
    if preferred == "kernel_uprobe"@ {
        if kernel {
            UserspaceRuntime::KernelUprobe
        } else {
            UserspaceRuntime::Unavailable
        }
    } else if bpftime_available {
        UserspaceRuntime::Bpftime
    } else if kernel {
        UserspaceRuntime::KernelUprobe
    } else {
        UserspaceRuntime::Unavailable
    }
}

pub open spec fn chosen_detail(preferred: Seq<char>, kernel: bool, bpftime: BpftimeDiscovery) -> Seq<char> {
    if preferred == "kernel_uprobe"@ {
        if kernel {
            "kernel uprobe selected by configuration"@
        } else {
            "kernel uprobe is only available on Linux"@
        }
    } else if bpftime.executable is Some && bpftime.loader_executable is Some {
        "bpftime detected at "@ + bpftime.executable.unwrap()@
            + "; userspace probe control is available"@
    } else if kernel {
        "bpftime unavailable; using kernel uprobe fallback ("@ + bpftime.detail@ + ")"@
    } else {
        "the MVP currently targets Linux"@
    }
}

impl RuntimeStatus {
    /// The status under the default preference for bpftime.
    pub fn detect(kernel_observation: bool, bpftime: &BpftimeDiscovery) -> (r: Self)
        ensures
            r.kernel_observation == kernel_observation,
            r.userspace_runtime == chosen_runtime(
                "bpftime"@,
                kernel_observation,
                bpftime.executable is Some && bpftime.loader_executable is Some,
            ),
            r.detail@ == chosen_detail("bpftime"@, kernel_observation, *bpftime),
    {
        Self::detect_with_preference("bpftime", kernel_observation, bpftime)
    }

    /// Picks the userspace runtime: the kernel fallback when configured (on
    /// Linux), else bpftime when it is usable, else the kernel fallback, else none.
    pub fn detect_with_preference(preferred: &str, kernel_observation: bool, bpftime: &BpftimeDiscovery) -> (r:
        Self)
        ensures
            r.kernel_observation == kernel_observation,
            r.userspace_runtime == chosen_runtime(
                preferred@,
                kernel_observation,
                bpftime.executable is Some && bpftime.loader_executable is Some,
            ),
            r.detail@ == chosen_detail(preferred@, kernel_observation, *bpftime),
    {
        let p = crate::text::chars_of(preferred);
        let wants_kernel = crate::text::range_eq(&p, 0, p.len(), "kernel_uprobe");
        assert(p@.subrange(0, p@.len() as int) =~= p@);
        let mut detail = String::new();
        let runtime = if wants_kernel {
            if kernel_observation {
                push_str(&mut detail, "kernel uprobe selected by configuration");
                UserspaceRuntime::KernelUprobe
            } else {
                push_str(&mut detail, "kernel uprobe is only available on Linux");
                UserspaceRuntime::Unavailable
            }
        } else if bpftime.is_available() {
            push_str(&mut detail, "bpftime detected at ");
            push_str(&mut detail, bpftime.executable());
            push_str(&mut detail, "; userspace probe control is available");
            UserspaceRuntime::Bpftime
        } else if kernel_observation {
            push_str(&mut detail, "bpftime unavailable; using kernel uprobe fallback (");
            push_str(&mut detail, bpftime.detail.as_str());
            push_str(&mut detail, ")");
            UserspaceRuntime::KernelUprobe
        } else {
            push_str(&mut detail, "the MVP currently targets Linux");
            UserspaceRuntime::Unavailable
        };
        proof {
            reveal_strlit("");
        }
        assert(detail@ == chosen_detail(preferred@, kernel_observation, *bpftime));
        RuntimeStatus { kernel_observation, userspace_runtime: runtime, detail }
    }
}

} // verus!
