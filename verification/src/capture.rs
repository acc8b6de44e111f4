//! Capture profiles, modules, and the probe plan they resolve to.
use vstd::prelude::*;

use crate::text::{decimal, push_decimal, push_str};

verus! {

#[derive(Debug, Clone, Copy, PartialEq, Eq, Structural)]
pub enum CaptureState {
    Stopped,
    Capturing,
}

impl CaptureState {
    pub fn to_string(&self) -> (r: String)
        ensures
            r@ == (match self {
                CaptureState::Stopped => "stopped"@,
                CaptureState::Capturing => "capturing"@,
            }),
    {
        match self {
            CaptureState::Stopped => "stopped".to_owned(),
            CaptureState::Capturing => "capturing".to_owned(),
        }
    }
}

#[derive(Debug, Clone, PartialEq, Eq)]
pub enum CaptureScope {
    Global,
    Process(u32),
    ProcessName(String),
}

pub open spec fn scope_text(scope: CaptureScope) -> Seq<char> {
    match scope {
        CaptureScope::Global => "global"@,
        CaptureScope::Process(pid) => "process:"@ + decimal(pid as nat),
        CaptureScope::ProcessName(name) => "process-name:"@ + name@,
    }
}

impl CaptureScope {
    pub fn to_string(&self) -> (r: String)
        ensures
            r@ == scope_text(*self),
    {
        let mut text = String::new();
        match self {
            CaptureScope::Global => push_str(&mut text, "global"),
            CaptureScope::Process(pid) => {
                push_str(&mut text, "process:");
                push_decimal(&mut text, *pid as u64);
            },
            CaptureScope::ProcessName(name) => {
                push_str(&mut text, "process-name:");
                push_str(&mut text, name.as_str());
            },
        }
        text
    }

    pub fn duplicate(&self) -> (r: Self)
        ensures
            r == *self,
    {
        match self {
            CaptureScope::Global => CaptureScope::Global,
            CaptureScope::Process(pid) => CaptureScope::Process(*pid),
            CaptureScope::ProcessName(name) => CaptureScope::ProcessName(name.clone()),
        }
    }
}

#[derive(Debug, Clone, Copy, PartialEq, Eq, Hash, Structural)]
pub enum CaptureModule {
    Process,
    Connections,
    Traffic,
    Dns,
    Files,
    Tls,
    Http,
    Plaintext,
}

pub open spec fn module_index(m: CaptureModule) -> u16 {
    match m {
        CaptureModule::Process => 0,
        CaptureModule::Connections => 1,
        CaptureModule::Traffic => 2,
        CaptureModule::Dns => 3,
        CaptureModule::Files => 4,
        CaptureModule::Tls => 5,
        CaptureModule::Http => 6,
        CaptureModule::Plaintext => 7,
    }
}

pub open spec fn module_bit(m: CaptureModule) -> u16 {
    1u16 << module_index(m)
}

/// The modules in their canonical order.
pub open spec fn all_modules() -> Seq<CaptureModule> {
    seq![
        CaptureModule::Process,
        CaptureModule::Connections,
        CaptureModule::Traffic,
        CaptureModule::Dns,
        CaptureModule::Files,
        CaptureModule::Tls,
        CaptureModule::Http,
        CaptureModule::Plaintext,
    ]
}

impl CaptureModule {
    pub fn all() -> (r: [CaptureModule; 8])
        ensures
            r@ == all_modules(),
    {
        [
            CaptureModule::Process,
            CaptureModule::Connections,
            CaptureModule::Traffic,
            CaptureModule::Dns,
            CaptureModule::Files,
            CaptureModule::Tls,
            CaptureModule::Http,
            CaptureModule::Plaintext,
        ]
    }

    fn bit(self) -> (r: u16)
        ensures
            r == module_bit(self),
    {
        match self {
            CaptureModule::Process => 1u16 << 0u16,
            CaptureModule::Connections => 1u16 << 1u16,
            CaptureModule::Traffic => 1u16 << 2u16,
            CaptureModule::Dns => 1u16 << 3u16,
            CaptureModule::Files => 1u16 << 4u16,
            CaptureModule::Tls => 1u16 << 5u16,
            CaptureModule::Http => 1u16 << 6u16,
            CaptureModule::Plaintext => 1u16 << 7u16,
        }
    }
}

/// A set of capture modules, stored as one bit per module.
#[derive(Debug, Clone, Copy, PartialEq, Eq, Structural)]
pub struct CaptureFeatures(u16);

proof fn lemma_bits(x: u16, i: u16, j: u16)
    requires
        i < 8,
        j < 8,
    ensures
        ((x | (1u16 << i)) & (1u16 << j)) != 0 <==> ((x & (1u16 << j)) != 0 || i == j),
        (0u16 & (1u16 << j)) == 0,
{
    assert(((x | (1u16 << i)) & (1u16 << j)) != 0 <==> ((x & (1u16 << j)) != 0 || i == j))
        by (bit_vector)
        requires
            i < 8,
            j < 8,
    ;
    assert((0u16 & (1u16 << j)) == 0) by (bit_vector);
}

proof fn lemma_insert_set(x: u16, m: CaptureModule)
    ensures
        features_set(x | module_bit(m)) =~= features_set(x).insert(m),
{
    assert forall|n: CaptureModule| features_set(x | module_bit(m)).contains(n) == features_set(x).insert(m).contains(n) by {
        lemma_bits(x, module_index(m), module_index(n));
    }
}

/// The modules whose bits are set in `bits` (only the eight module bits count).
pub open spec fn features_set(bits: u16) -> Set<CaptureModule> {
    Set::new(|m: CaptureModule| (bits & module_bit(m)) != 0)
}

proof fn lemma_nonzero_has_module(x: u16)
    requires
        x < 256,
    ensures
        x != 0 <==> !features_set(x).is_empty(),
{
    if x != 0 {
        assert((x & 1u16 << 0u16) != 0 || (x & 1u16 << 1u16) != 0 || (x & 1u16 << 2u16) != 0 || (x
            & 1u16 << 3u16) != 0 || (x & 1u16 << 4u16) != 0 || (x & 1u16 << 5u16) != 0 || (x & 1u16
            << 6u16) != 0 || (x & 1u16 << 7u16) != 0) by (bit_vector)
            requires
                x != 0,
                x < 256,
        ;
        if (x & module_bit(CaptureModule::Process)) != 0 {
            assert(features_set(x).contains(CaptureModule::Process));
        } else if (x & module_bit(CaptureModule::Connections)) != 0 {
            assert(features_set(x).contains(CaptureModule::Connections));
        } else if (x & module_bit(CaptureModule::Traffic)) != 0 {
            assert(features_set(x).contains(CaptureModule::Traffic));
        } else if (x & module_bit(CaptureModule::Dns)) != 0 {
            assert(features_set(x).contains(CaptureModule::Dns));
        } else if (x & module_bit(CaptureModule::Files)) != 0 {
            assert(features_set(x).contains(CaptureModule::Files));
        } else if (x & module_bit(CaptureModule::Tls)) != 0 {
            assert(features_set(x).contains(CaptureModule::Tls));
        } else if (x & module_bit(CaptureModule::Http)) != 0 {
            assert(features_set(x).contains(CaptureModule::Http));
        } else {
            assert(features_set(x).contains(CaptureModule::Plaintext));
        }
    } else {
        assert forall|m: CaptureModule| !features_set(x).contains(m) by {
            lemma_bits(0, 0, module_index(m));
        }
        assert(features_set(x) =~= Set::<CaptureModule>::empty());
    }
}

proof fn lemma_or_bound(x: u16, i: u16)
    requires
        x < 256,
        i < 8,
    ensures
        (x | (1u16 << i)) < 256,
{
    assert((x | (1u16 << i)) < 256) by (bit_vector)
        requires
            x < 256,
            i < 8,
    ;
}

impl CaptureFeatures {
    #[verifier::type_invariant]
    spec fn only_module_bits(self) -> bool {
        self.0 < 256
    }
}

impl View for CaptureFeatures {
    type V = Set<CaptureModule>;

    closed spec fn view(&self) -> Set<CaptureModule> {
        features_set(self.0)
    }
}

pub open spec fn features_of(modules: Seq<CaptureModule>) -> Set<CaptureModule> {
    modules.to_set()
}

/// Required modules that the requested ones pull in.
pub open spec fn closure_of(s: Set<CaptureModule>) -> Set<CaptureModule> {
    let with_process = if s.is_empty() { s } else { s.insert(CaptureModule::Process) };
    let needs_tls = s.contains(CaptureModule::Http) || s.contains(CaptureModule::Plaintext);
    let needs_connections = needs_tls || s.contains(CaptureModule::Traffic) || s.contains(
        CaptureModule::Dns,
    ) || s.contains(CaptureModule::Tls);
    let with_tls = if needs_tls { with_process.insert(CaptureModule::Tls) } else { with_process };
    if needs_connections { with_tls.insert(CaptureModule::Connections) } else { with_tls }
}

pub open spec fn network_set() -> Set<CaptureModule> {
    set![CaptureModule::Process, CaptureModule::Connections, CaptureModule::Traffic, CaptureModule::Dns]
}

pub open spec fn legacy_set(level: u8) -> Option<Set<CaptureModule>> {
    if level == 1 || level == 2 {
        Some(network_set())
    } else if level == 3 {
        Some(network_set().insert(CaptureModule::Tls))
    } else if level == 4 {
        Some(network_set().insert(CaptureModule::Tls).insert(CaptureModule::Http))
    } else if level == 5 {
        Some(network_set().insert(CaptureModule::Tls).insert(CaptureModule::Http).insert(CaptureModule::Plaintext))
    } else {
        None
    }
}

impl CaptureFeatures {
    pub fn none() -> (r: Self)
        ensures
            r@ == Set::<CaptureModule>::empty(),
    {
        proof {
            assert forall|m: CaptureModule| !features_set(0).contains(m) by {
                lemma_bits(0, 0, module_index(m));
            }
            assert(features_set(0) =~= Set::<CaptureModule>::empty());
        }
        CaptureFeatures(0)
    }

    pub fn from_modules<const N: usize>(modules: [CaptureModule; N]) -> (r: Self)
        ensures
            r@ == modules@.to_set(),
    {
        let mut features = Self::none();
        let mut i: usize = 0;
        while i < N
            invariant
                i <= N,
                N == modules@.len(),
                features@ == modules@.take(i as int).to_set(),
            decreases N - i,
        {
            features.insert(modules[i]);
            proof {
                let prefix = modules@.take(i as int);
                assert(modules@.take(i + 1) =~= prefix.push(modules@[i as int]));
                prefix.lemma_push_to_set_commute(modules@[i as int]);
            }
            i += 1;
        }
        assert(modules@.take(N as int) =~= modules@);
        features
    }

    pub fn contains(self, module: CaptureModule) -> (r: bool)
        ensures
            r == self@.contains(module),
    {
        self.0 & module.bit() != 0
    }

    pub fn insert(&mut self, module: CaptureModule)
        ensures
            final(self)@ == old(self)@.insert(module),
    {
        proof {
            use_type_invariant(&*self);
            lemma_insert_set(self.0, module);
            lemma_or_bound(self.0, module_index(module));
        }
        self.0 = self.0 | module.bit();
    }

    pub fn modules(self) -> (r: Vec<CaptureModule>)
        ensures
            r@ == all_modules().filter(|m: CaptureModule| self@.contains(m)),
    {
        let all = CaptureModule::all();
        let mut r: Vec<CaptureModule> = Vec::new();
        let mut i: usize = 0;
        let ghost pred = |m: CaptureModule| self@.contains(m);
        while i < 8
            invariant
                i <= 8,
                all@ == all_modules(),
                r@ == all_modules().take(i as int).filter(pred),
                pred == (|m: CaptureModule| self@.contains(m)),
            decreases 8 - i,
        {
            reveal_with_fuel(Seq::<_>::filter, 1);
            proof {
                assert(all_modules().take(i + 1).drop_last() =~= all_modules().take(i as int));
                assert(all_modules().take(i + 1).last() == all@[i as int]);
            }
            if self.contains(all[i]) {
                r.push(all[i]);
            }
            i += 1;
        }
        assert(all_modules().take(8) =~= all_modules());
        r
    }

    pub fn dependency_closure(self) -> (r: Self)
        ensures
            r@ == closure_of(self@),
    {
        proof {
            use_type_invariant(&self);
            lemma_nonzero_has_module(self.0);
        }
        let mut features = self;
        if self.0 != 0 {
            features.insert(CaptureModule::Process);
        }
        if self.contains(CaptureModule::Traffic) || self.contains(CaptureModule::Dns)
            || self.contains(CaptureModule::Tls) {
            features.insert(CaptureModule::Connections);
        }
        if self.contains(CaptureModule::Http) || self.contains(CaptureModule::Plaintext) {
            features.insert(CaptureModule::Tls);
            features.insert(CaptureModule::Connections);
        }
        features
    }
}


impl CaptureFeatures {
    pub fn legacy_level(level: u8) -> (r: Option<Self>)
        ensures
            match r {
                Some(f) => legacy_set(level) == Some(f@),
                None => legacy_set(level) is None,
            },
    {
        let profile = CaptureProfile::Network.features();
        match level {
            1 | 2 => Some(profile),
            3 => Some(profile.with(CaptureModule::Tls)),
            4 => Some(profile.with(CaptureModule::Tls).with(CaptureModule::Http)),
            5 => Some(
                profile.with(CaptureModule::Tls).with(CaptureModule::Http).with(
                    CaptureModule::Plaintext,
                ),
            ),
            _ => None,
        }
    }

    fn with(self, module: CaptureModule) -> (r: Self)
        ensures
            r@ == self@.insert(module),
    {
        let mut features = self;
        features.insert(module);
        features
    }

    /// Whether no module is selected.
    pub fn is_none(self) -> (r: bool)
        ensures
            r == self@.is_empty(),
    {
        proof {
            use_type_invariant(&self);
            lemma_nonzero_has_module(self.0);
        }
        self.0 == 0
    }

    /// Whether both values select the same modules.
    pub fn same_as(self, other: Self) -> (r: bool)
        ensures
            r == (self@ == other@),
    {
        proof {
            use_type_invariant(&self);
            use_type_invariant(&other);
            if self@ == other@ && self.0 != other.0 {
                let x = self.0;
                let y = other.0;
                assert(exists|i: u16| i < 8 && (x & (1u16 << i)) != (y & (1u16 << i))) by {
                    assert(x != y && x < 256 && y < 256 ==> (x & 1u16 << 0u16) != (y & 1u16 << 0u16) || (x & 1u16 << 1u16) != (y & 1u16 << 1u16) || (x & 1u16 << 2u16) != (y & 1u16 << 2u16) || (x & 1u16 << 3u16) != (y & 1u16 << 3u16) || (x & 1u16 << 4u16) != (y & 1u16 << 4u16) || (x & 1u16 << 5u16) != (y & 1u16 << 5u16) || (x & 1u16 << 6u16) != (y & 1u16 << 6u16) || (x & 1u16 << 7u16) != (y & 1u16 << 7u16)) by (bit_vector);
                    if (x & 1u16 << 0u16) != (y & 1u16 << 0u16) { assert(0u16 < 8); }
                    else if (x & 1u16 << 1u16) != (y & 1u16 << 1u16) { assert(1u16 < 8); }
                    else if (x & 1u16 << 2u16) != (y & 1u16 << 2u16) { assert(2u16 < 8); }
                    else if (x & 1u16 << 3u16) != (y & 1u16 << 3u16) { assert(3u16 < 8); }
                    else if (x & 1u16 << 4u16) != (y & 1u16 << 4u16) { assert(4u16 < 8); }
                    else if (x & 1u16 << 5u16) != (y & 1u16 << 5u16) { assert(5u16 < 8); }
                    else if (x & 1u16 << 6u16) != (y & 1u16 << 6u16) { assert(6u16 < 8); }
                    else { assert(7u16 < 8); }
                }
                let i = choose|i: u16| i < 8 && (x & (1u16 << i)) != (y & (1u16 << i));
                assert((x & (1u16 << i)) != (y & (1u16 << i)) && i < 8 ==> ((x & (1u16 << i)) != 0) != ((y & (1u16 << i)) != 0)) by (bit_vector);
                let m = module_at(i);
                assert(self@.contains(m) != other@.contains(m));
            }
        }
        self.0 == other.0
    }
}

pub open spec fn module_at(i: u16) -> CaptureModule {
    if i == 0 { CaptureModule::Process }
    else if i == 1 { CaptureModule::Connections }
    else if i == 2 { CaptureModule::Traffic }
    else if i == 3 { CaptureModule::Dns }
    else if i == 4 { CaptureModule::Files }
    else if i == 5 { CaptureModule::Tls }
    else if i == 6 { CaptureModule::Http }
    else { CaptureModule::Plaintext }
}

/// Resolving dependencies twice adds nothing to resolving them once, and
/// never drops a requested module.
pub proof fn law_dependency_closure_is_idempotent(s: Set<CaptureModule>)
    ensures
        closure_of(closure_of(s)) == closure_of(s),
        s.subset_of(closure_of(s)),
{
    assert(closure_of(closure_of(s)) =~= closure_of(s));
}

#[derive(Debug, Clone, Copy, PartialEq, Eq, Structural)]
pub enum CaptureProfile {
    Process,
    Connections,
    Network,
    Web,
    Security,
    Custom,
}

pub open spec fn profile_modules(p: CaptureProfile) -> Set<CaptureModule> {
    match p {
        CaptureProfile::Process => set![CaptureModule::Process],
        CaptureProfile::Connections => set![CaptureModule::Process, CaptureModule::Connections],
        CaptureProfile::Network => network_set(),
        CaptureProfile::Web => network_set().insert(CaptureModule::Tls).insert(CaptureModule::Http),
        CaptureProfile::Security => network_set().insert(CaptureModule::Files).insert(CaptureModule::Tls),
        CaptureProfile::Custom => Set::empty(),
    }
}

impl CaptureProfile {
    pub fn default() -> (r: Self)
        ensures
            r == CaptureProfile::Network,
    {
        CaptureProfile::Network
    }

    pub fn features(self) -> (r: CaptureFeatures)
        ensures
            r@ == profile_modules(self),
    {
        let r = match self {
            CaptureProfile::Process => CaptureFeatures::from_modules([CaptureModule::Process]),
            CaptureProfile::Connections => CaptureFeatures::from_modules(
                [CaptureModule::Process, CaptureModule::Connections],
            ),
            CaptureProfile::Network => CaptureFeatures::from_modules(
                [
                    CaptureModule::Process,
                    CaptureModule::Connections,
                    CaptureModule::Traffic,
                    CaptureModule::Dns,
                ],
            ),
            CaptureProfile::Web => CaptureFeatures::from_modules(
                [
                    CaptureModule::Process,
                    CaptureModule::Connections,
                    CaptureModule::Traffic,
                    CaptureModule::Dns,
                    CaptureModule::Tls,
                    CaptureModule::Http,
                ],
            ),
            CaptureProfile::Security => CaptureFeatures::from_modules(
                [
                    CaptureModule::Process,
                    CaptureModule::Connections,
                    CaptureModule::Traffic,
                    CaptureModule::Dns,
                    CaptureModule::Files,
                    CaptureModule::Tls,
                ],
            ),
            CaptureProfile::Custom => CaptureFeatures::none(),
        };
        proof {
            let expected = profile_modules(self);
            assert(r@ =~= expected);
        }
        r
    }
}

#[derive(Debug, Clone, PartialEq, Eq)]
pub struct ProbePlan {
    pub kernel_objects: Vec<String>,
    pub userspace_probes: Vec<String>,
    pub expected_kernel_links: usize,
}

pub open spec fn seq_if(c: bool, s: Seq<Seq<char>>) -> Seq<Seq<char>> {
    if c { s } else { Seq::empty() }
}

pub open spec fn plan_kernel_objects(f: Set<CaptureModule>) -> Seq<Seq<char>> {
    seq_if(f.contains(CaptureModule::Process), seq!["process.o"@])
        + seq_if(f.contains(CaptureModule::Connections), seq!["network.o"@])
        + seq_if(f.contains(CaptureModule::Files), seq!["file.o"@])
}

pub open spec fn plan_userspace_probes(f: Set<CaptureModule>) -> Seq<Seq<char>> {
    seq_if(f.contains(CaptureModule::Tls), seq!["tls_metadata"@])
        + seq_if(f.contains(CaptureModule::Http) || f.contains(CaptureModule::Plaintext), seq!["tls_payload"@])
}

pub open spec fn plan_link_count(f: Set<CaptureModule>) -> int {
    (if f.contains(CaptureModule::Process) { 2int } else { 0int })
        + (if f.contains(CaptureModule::Connections) { 4int } else { 0int })
        + (if f.contains(CaptureModule::Traffic) || f.contains(CaptureModule::Dns) { 12int } else { 0int })
        + (if f.contains(CaptureModule::Files) { 1int } else { 0int })
}

pub open spec fn strings_view(v: Seq<String>) -> Seq<Seq<char>> {
    v.map_values(|s: String| s@)
}

impl ProbePlan {
    fn resolve(features: CaptureFeatures) -> (r: Self)
        ensures
            strings_view(r.kernel_objects@) == plan_kernel_objects(features@),
            strings_view(r.userspace_probes@) == plan_userspace_probes(features@),
            r.expected_kernel_links == plan_link_count(features@),
    {
        let mut kernel_objects: Vec<String> = Vec::new();
        let mut expected_kernel_links: usize = 0;
        if features.contains(CaptureModule::Process) {
            kernel_objects.push("process.o".to_owned());
            expected_kernel_links += 2;
        }
        if features.contains(CaptureModule::Connections) {
            kernel_objects.push("network.o".to_owned());
            expected_kernel_links += 4;
        }
        if features.contains(CaptureModule::Traffic) || features.contains(CaptureModule::Dns) {
            expected_kernel_links += 12;
        }
        if features.contains(CaptureModule::Files) {
            kernel_objects.push("file.o".to_owned());
            expected_kernel_links += 1;
        }
        let mut userspace_probes: Vec<String> = Vec::new();
        if features.contains(CaptureModule::Tls) {
            userspace_probes.push("tls_metadata".to_owned());
        }
        if features.contains(CaptureModule::Http) || features.contains(CaptureModule::Plaintext) {
            userspace_probes.push("tls_payload".to_owned());
        }
        proof {
            assert(strings_view(kernel_objects@) =~= plan_kernel_objects(features@));
            assert(strings_view(userspace_probes@) =~= plan_userspace_probes(features@));
        }
        Self { kernel_objects, userspace_probes, expected_kernel_links }
    }
}

#[derive(Debug, Clone, PartialEq, Eq)]
pub struct CapturePlan {
    pub target: CaptureScope,
    pub profile: CaptureProfile,
    pub requested: CaptureFeatures,
    pub effective: CaptureFeatures,
    pub probes: ProbePlan,
    pub warnings: Vec<String>,
}

pub open spec fn plaintext_warning() -> Seq<char> {
    "plaintext capture is enabled; sensitive data stays memory-only by default"@
}

impl CapturePlan {
    pub fn resolve(target: CaptureScope, profile: CaptureProfile, requested: Option<CaptureFeatures>) -> (r: Result<Self, String>)
        ensures
            profile == CaptureProfile::Custom && requested is None ==> (r matches Err(e)
                && e@ == "custom profile requires at least one module"@),
            !(profile == CaptureProfile::Custom && requested is None) ==> {
                let req = match requested {
                    Some(f) => f@,
                    None => profile_modules(profile),
                };
                &&& req.is_empty() ==> (r matches Err(e) && e@
                    == "capture requires at least one module"@)
                &&& !req.is_empty() ==> (r matches Ok(plan) && {
                    &&& plan.target == target
                    &&& plan.requested@ == req
                    &&& plan.profile == (if profile != CaptureProfile::Custom && req
                        != profile_modules(profile) {
                        CaptureProfile::Custom
                    } else {
                        profile
                    })
                    &&& plan.effective@ == closure_of(req)
                    &&& strings_view(plan.probes.kernel_objects@) == plan_kernel_objects(
                        closure_of(req),
                    )
                    &&& strings_view(plan.probes.userspace_probes@) == plan_userspace_probes(
                        closure_of(req),
                    )
                    &&& plan.probes.expected_kernel_links == plan_link_count(closure_of(req))
                    &&& strings_view(plan.warnings@) == seq_if(
                        closure_of(req).contains(CaptureModule::Plaintext),
                        seq![plaintext_warning()],
                    )
                })
            },
    {
        if profile == CaptureProfile::Custom && requested.is_none() {
            return Err("custom profile requires at least one module".to_owned());
        }
        let requested = match requested {
            Some(f) => f,
            None => profile.features(),
        };
        if requested.is_none() {
            return Err("capture requires at least one module".to_owned());
        }
        let profile = if profile != CaptureProfile::Custom && !requested.same_as(profile.features()) {
            CaptureProfile::Custom
        } else {
            profile
        };
        let effective = requested.dependency_closure();
        let mut warnings: Vec<String> = Vec::new();
        if effective.contains(CaptureModule::Plaintext) {
            warnings.push(
                "plaintext capture is enabled; sensitive data stays memory-only by default".to_owned(),
            );
        }
        proof {
            assert(strings_view(warnings@) =~= seq_if(
                closure_of(requested@).contains(CaptureModule::Plaintext),
                seq![plaintext_warning()],
            ));
        }
        Ok(Self { target, profile, requested, effective, probes: ProbePlan::resolve(effective), warnings })
    }

    pub fn network(target: CaptureScope) -> (r: Self)
        ensures
            r.target == target,
            r.profile == CaptureProfile::Network,
            r.requested@ == network_set(),
            r.effective@ == closure_of(network_set()),
            strings_view(r.probes.kernel_objects@) == plan_kernel_objects(closure_of(network_set())),
            strings_view(r.probes.userspace_probes@) == plan_userspace_probes(closure_of(network_set())),
            r.probes.expected_kernel_links == plan_link_count(closure_of(network_set())),
            strings_view(r.warnings@) == seq_if(
                closure_of(network_set()).contains(CaptureModule::Plaintext),
                seq![plaintext_warning()],
            ),
    {
        let requested = CaptureProfile::Network.features();
        let effective = requested.dependency_closure();
        let mut warnings: Vec<String> = Vec::new();
        if effective.contains(CaptureModule::Plaintext) {
            warnings.push(
                "plaintext capture is enabled; sensitive data stays memory-only by default".to_owned(),
            );
        }
        proof {
            assert(strings_view(warnings@) =~= seq_if(
                closure_of(network_set()).contains(CaptureModule::Plaintext),
                seq![plaintext_warning()],
            ));
        }
        Self {
            target,
            profile: CaptureProfile::Network,
            requested,
            effective,
            probes: ProbePlan::resolve(effective),
            warnings,
        }
    }
}
} // verus!
