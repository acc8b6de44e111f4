//! Observation levels, targets, and the per-target session manager.
use vstd::prelude::*;

use crate::table::{Table, TableKey};
use vstd::std_specs::iter::IteratorSpec;
use crate::text::{
    chars_of, decimal, parse_bounded, parse_unsigned, push_decimal, push_str,
};

verus! {

/// Observation depth, from metadata only (`L1`) to raw plaintext (`L5`).
#[derive(Debug, Clone, Copy, PartialEq, Eq, PartialOrd, Ord, Hash, Structural)]
pub enum ObservationLevel {
    L1,
    L2,
    L3,
    L4,
    L5,
}

pub open spec fn level_rank(l: ObservationLevel) -> u8 {
    match l {
        ObservationLevel::L1 => 1,
        ObservationLevel::L2 => 2,
        ObservationLevel::L3 => 3,
        ObservationLevel::L4 => 4,
        ObservationLevel::L5 => 5,
    }
}

pub open spec fn level_max(a: ObservationLevel, b: ObservationLevel) -> ObservationLevel {
    if level_rank(a) >= level_rank(b) {
        a
    } else {
        b
    }
}

impl Default for ObservationLevel {
    fn default() -> (r: Self)
        ensures
            r == ObservationLevel::L1,
    {
        ObservationLevel::L1
    }
}

impl ObservationLevel {
    /// The level's number (1 to 5).
    pub fn number(self) -> (r: u8)
        ensures
            r == level_rank(self),
    {
        match self {
            ObservationLevel::L1 => 1,
            ObservationLevel::L2 => 2,
            ObservationLevel::L3 => 3,
            ObservationLevel::L4 => 4,
            ObservationLevel::L5 => 5,
        }
    }

    pub fn from_number(value: u8) -> (r: Option<Self>)
        ensures
            match r {
                Some(l) => 1 <= value <= 5 && level_rank(l) == value,
                None => !(1 <= value <= 5),
            },
    {
        match value {
            1 => Some(ObservationLevel::L1),
            2 => Some(ObservationLevel::L2),
            3 => Some(ObservationLevel::L3),
            4 => Some(ObservationLevel::L4),
            5 => Some(ObservationLevel::L5),
            _ => None,
        }
    }

    pub fn to_string(&self) -> (r: String)
        ensures
            r@ == "L"@ + decimal(level_rank(*self) as nat),
    {
        let mut text = String::new();
        push_str(&mut text, "L");
        push_decimal(&mut text, self.number() as u64);
        text
    }

    /// The higher of two levels.
    pub fn max(self, other: Self) -> (r: Self)
        ensures
            r == level_max(self, other),
    {
        if self.number() >= other.number() {
            self
        } else {
            other
        }
    }
}

#[derive(Debug, Clone, PartialEq, Eq, Hash)]
pub enum ObservationTarget {
    Process(u32),
    ProcessName(String),
    Connection(String),
    Domain(String),
}

pub enum TargetView {
    Process(u32),
    ProcessName(Seq<char>),
    Connection(Seq<char>),
    Domain(Seq<char>),
}

impl View for ObservationTarget {
    type V = TargetView;

    open spec fn view(&self) -> TargetView {
        match self {
            ObservationTarget::Process(pid) => TargetView::Process(*pid),
            ObservationTarget::ProcessName(n) => TargetView::ProcessName(n@),
            ObservationTarget::Connection(id) => TargetView::Connection(id@),
            ObservationTarget::Domain(d) => TargetView::Domain(d@),
        }
    }
}

pub open spec fn target_text(t: TargetView) -> Seq<char> {
    match t {
        TargetView::Process(pid) => "process:"@ + decimal(pid as nat),
        TargetView::ProcessName(n) => "process-name:"@ + n,
        TargetView::Connection(id) => "connection:"@ + id,
        TargetView::Domain(d) => "domain:"@ + d,
    }
}

impl TableKey for ObservationTarget {
    type KeyView = TargetView;

    open spec fn key_view(&self) -> TargetView {
        self@
    }

    fn same_key(&self, other: &Self) -> (r: bool) {
        match (self, other) {
            (ObservationTarget::Process(a), ObservationTarget::Process(b)) => *a == *b,
            (ObservationTarget::ProcessName(a), ObservationTarget::ProcessName(b)) => *a == *b,
            (ObservationTarget::Connection(a), ObservationTarget::Connection(b)) => *a == *b,
            (ObservationTarget::Domain(a), ObservationTarget::Domain(b)) => *a == *b,
            _ => false,
        }
    }
}

pub open spec fn target_syntax_error() -> Seq<char> {
    "target must use process:<pid>, process-name:<name>, connection:<id>, or domain:<name>"@
}

pub open spec fn pid_error() -> Seq<char> {
    "process target PID must be a positive integer"@
}

pub open spec fn first_colon_from(s: Seq<char>, i: int) -> Option<int>
    decreases s.len() - i,
{
    if i < 0 || i >= s.len() {
        None
    } else if s[i] == ':' {
        Some(i)
    } else {
        first_colon_from(s, i + 1)
    }
}

/// How a target selector (`kind:identifier`) is read.
pub open spec fn parse_target_spec(s: Seq<char>) -> Result<TargetView, Seq<char>> {
    match first_colon_from(s, 0) {
        None => Err(target_syntax_error()),
        Some(k) => {
            let kind = s.take(k);
            let ident = s.skip(k + 1);
            if ident.len() == 0 {
                Err("observation target identifier cannot be empty"@)
            } else if kind == "process"@ {
                match parse_bounded(ident, 10, u32::MAX as nat) {
                    Some(pid) => if pid > 0 {
                        Ok(TargetView::Process(pid as u32))
                    } else {
                        Err(pid_error())
                    },
                    None => Err(pid_error()),
                }
            } else if kind == "process-name"@ {
                Ok(TargetView::ProcessName(ident))
            } else if kind == "connection"@ {
                Ok(TargetView::Connection(ident))
            } else if kind == "domain"@ {
                Ok(TargetView::Domain(ident))
            } else {
                Err("unsupported observation target kind: "@ + kind)
            }
        },
    }
}

/// A target that its text can name: a positive pid, a non-empty name,
/// connection id or domain.
pub open spec fn nameable(t: TargetView) -> bool {
    match t {
        TargetView::Process(pid) => pid > 0,
        TargetView::ProcessName(n) => n.len() > 0,
        TargetView::Connection(id) => id.len() > 0,
        TargetView::Domain(d) => d.len() > 0,
    }
}

proof fn lemma_first_colon(kind: Seq<char>, rest: Seq<char>, i: int)
    requires
        0 <= i <= kind.len(),
        forall|j: int| 0 <= j < kind.len() ==> kind[j] != ':',
    ensures
        first_colon_from(kind + ":"@ + rest, i) == Some(kind.len() as int),
    decreases kind.len() - i,
{
    reveal_strlit(":");
    let s = kind + ":"@ + rest;
    if i < kind.len() {
        assert(s[i] == kind[i]);
        lemma_first_colon(kind, rest, i + 1);
    } else {
        assert(s[i] == ':');
    }
}

proof fn lemma_reads_back(kind: Seq<char>, ident: Seq<char>)
    requires
        forall|j: int| 0 <= j < kind.len() ==> kind[j] != ':',
    ensures
        first_colon_from(kind + ":"@ + ident, 0) == Some(kind.len() as int),
        (kind + ":"@ + ident).take(kind.len() as int) == kind,
        (kind + ":"@ + ident).skip(kind.len() as int + 1) == ident,
{
    reveal_strlit(":");
    lemma_first_colon(kind, ident, 0);
    assert((kind + ":"@ + ident).take(kind.len() as int) =~= kind);
    assert((kind + ":"@ + ident).skip(kind.len() as int + 1) =~= ident);
}

/// A target's text reads back as the same target, for every target that
/// text can name.
pub proof fn lemma_target_text_parses_back(t: TargetView)
    requires
        nameable(t),
    ensures
        parse_target_spec(target_text(t)) == Ok::<TargetView, Seq<char>>(t),
{
    reveal_strlit("process");
    reveal_strlit("process-name");
    reveal_strlit("connection");
    reveal_strlit("domain");
    reveal_strlit(":");
    match t {
        TargetView::Process(pid) => {
            let kind = "process"@;
            lemma_reads_back(kind, decimal(pid as nat));
            assert("process:"@ =~= kind + ":"@) by {
                reveal_strlit("process:");
            }
            crate::text::lemma_decimal_parses(pid as nat);
            assert(decimal(pid as nat)[0] != '+');
        },
        TargetView::ProcessName(n) => {
            lemma_reads_back("process-name"@, n);
            assert("process-name:"@ =~= "process-name"@ + ":"@) by {
                reveal_strlit("process-name:");
            }
        },
        TargetView::Connection(id) => {
            lemma_reads_back("connection"@, id);
            assert("connection:"@ =~= "connection"@ + ":"@) by {
                reveal_strlit("connection:");
            }
        },
        TargetView::Domain(d) => {
            lemma_reads_back("domain"@, d);
            assert("domain:"@ =~= "domain"@ + ":"@) by {
                reveal_strlit("domain:");
            }
        },
    }
}

fn string_from(v: &Vec<char>, lo: usize, hi: usize) -> (r: String)
    requires
        lo <= hi <= v@.len(),
    ensures
        r@ == v@.subrange(lo as int, hi as int),
{
    let mut text = String::new();
    let mut i = lo;
    while i < hi
        invariant
            lo <= i <= hi <= v@.len(),
            text@ == v@.subrange(lo as int, i as int),
        decreases hi - i,
    {
        crate::text::push_char(&mut text, v[i]);
        assert(v@.subrange(lo as int, i + 1) =~= v@.subrange(lo as int, i as int).push(v@[i as int]));
        i += 1;
    }
    text
}

fn range_equals(v: &Vec<char>, lo: usize, hi: usize, word: &str) -> (r: bool)
    requires
        lo <= hi <= v@.len(),
    ensures
        r == (v@.subrange(lo as int, hi as int) == word@),
{
    let w = chars_of(word);
    if hi - lo != w.len() {
        return false;
    }
    let mut k: usize = 0;
    while k < w.len()
        invariant
            hi - lo == w@.len(),
            lo <= hi <= v@.len(),
            w@ == word@,
            k <= w@.len(),
            forall|t: int| 0 <= t < k ==> v@[lo + t] == w@[t],
        decreases w.len() - k,
    {
        if v[lo + k] != w[k] {
            assert(v@.subrange(lo as int, hi as int)[k as int] != w@[k as int]);
            return false;
        }
        k += 1;
    }
    assert(v@.subrange(lo as int, hi as int) =~= w@);
    true
}

impl ObservationTarget {
    pub fn to_string(&self) -> (r: String)
        ensures
            r@ == target_text(self@),
    {
        let mut text = String::new();
        match self {
            ObservationTarget::Process(pid) => {
                push_str(&mut text, "process:");
                push_decimal(&mut text, *pid as u64);
            },
            ObservationTarget::ProcessName(name) => {
                push_str(&mut text, "process-name:");
                push_str(&mut text, name.as_str());
            },
            ObservationTarget::Connection(id) => {
                push_str(&mut text, "connection:");
                push_str(&mut text, id.as_str());
            },
            ObservationTarget::Domain(domain) => {
                push_str(&mut text, "domain:");
                push_str(&mut text, domain.as_str());
            },
        }
        text
    }

    pub fn duplicate(&self) -> (r: Self)
        ensures
            r == *self,
    {
        match self {
            ObservationTarget::Process(pid) => ObservationTarget::Process(*pid),
            ObservationTarget::ProcessName(n) => ObservationTarget::ProcessName(n.clone()),
            ObservationTarget::Connection(id) => ObservationTarget::Connection(id.clone()),
            ObservationTarget::Domain(d) => ObservationTarget::Domain(d.clone()),
        }
    }

    /// Reads a `kind:identifier` selector.
    pub fn parse(value: &str) -> (r: Result<Self, String>)
        ensures
            match (r, parse_target_spec(value@)) {
                (Ok(t), Ok(v)) => t@ == v,
                (Err(e), Err(m)) => e@ == m,
                _ => false,
            },
    {
        let chars = chars_of(value);
        let n = chars.len();
        let mut k: usize = 0;
        while k < n && chars[k] != ':'
            invariant
                k <= n == chars@.len(),
                chars@ == value@,
                first_colon_from(value@, 0) == first_colon_from(value@, k as int),
            decreases n - k,
        {
            k += 1;
        }
        if k == n {
            return Err(
                "target must use process:<pid>, process-name:<name>, connection:<id>, or domain:<name>".to_owned(),
            );
        }
        assert(value@.take(k as int) =~= chars@.subrange(0, k as int));
        assert(value@.skip(k + 1) =~= chars@.subrange(k + 1, n as int));
        if k + 1 == n {
            return Err("observation target identifier cannot be empty".to_owned());
        }
        if range_equals(&chars, 0, k, "process") {
            match parse_unsigned(&chars, k + 1, n, 10, 0xffff_ffff) {
                Some(pid) => {
                    if pid > 0 {
                        Ok(ObservationTarget::Process(pid as u32))
                    } else {
                        Err("process target PID must be a positive integer".to_owned())
                    }
                },
                None => Err("process target PID must be a positive integer".to_owned()),
            }
        } else if range_equals(&chars, 0, k, "process-name") {
            Ok(ObservationTarget::ProcessName(string_from(&chars, k + 1, n)))
        } else if range_equals(&chars, 0, k, "connection") {
            Ok(ObservationTarget::Connection(string_from(&chars, k + 1, n)))
        } else if range_equals(&chars, 0, k, "domain") {
            Ok(ObservationTarget::Domain(string_from(&chars, k + 1, n)))
        } else {
            let mut message = String::new();
            push_str(&mut message, "unsupported observation target kind: ");
            let kind = string_from(&chars, 0, k);
            push_str(&mut message, kind.as_str());
            Err(message)
        }
    }
}

impl std::str::FromStr for ObservationTarget {
    type Err = String;

    fn from_str(value: &str) -> Result<Self, Self::Err> {
        ObservationTarget::parse(value)
    }
}

#[derive(Debug, Clone, PartialEq, Eq)]
pub struct ObservationRequest {
    pub target: ObservationTarget,
    pub level: ObservationLevel,
    pub duration_secs: Option<u64>,
}

#[derive(Debug, Clone, Copy, PartialEq, Eq)]
pub struct ObservationSession {
    pub level: ObservationLevel,
    /// Expiry on the manager's clock, in nanoseconds; `None` never expires.
    pub expires_at_ns: Option<u64>,
}

#[derive(Debug, Clone, PartialEq, Eq)]
pub struct ObservationStatus {
    pub target: ObservationTarget,
    pub level: ObservationLevel,
    pub expires_in_secs: Option<u64>,
}

#[verifier::external_type_specification]
#[verifier::external_body]
pub struct ExInstant(std::time::Instant);

/// The manager's clock origin (`Instant::now`).
#[verifier::external_body]
fn clock_origin() -> std::time::Instant {
    std::time::Instant::now()
}

/// Nanoseconds elapsed on the monotonic clock since `origin`
/// (`Instant::elapsed`), saturating at `u64::MAX`; nothing is promised of the
/// value, which depends on the time.
#[verifier::external_body]
fn clock_ns(origin: &std::time::Instant) -> u64 {
    u64::try_from(origin.elapsed().as_nanos()).unwrap_or(u64::MAX)
}

pub open spec fn is_expired(expires_at_ns: Option<u64>, now: u64) -> bool {
    expires_at_ns matches Some(e) && e <= now
}

pub open spec fn expiry(now: u64, duration_secs: Option<u64>) -> Option<u64> {
    match duration_secs {
        Some(secs) => Some(
            if now + secs * 1_000_000_000 > u64::MAX {
                u64::MAX
            } else {
                (now + secs * 1_000_000_000) as u64
            },
        ),
        None => None,
    }
}

fn expiry_at(now: u64, duration_secs: Option<u64>) -> (r: Option<u64>)
    ensures
        r == expiry(now, duration_secs),
{
    match duration_secs {
        Some(secs) => {
            if secs > u64::MAX / 1_000_000_000 {
                proof {
                    assert(secs * 1_000_000_000 > u64::MAX) by (nonlinear_arith)
                        requires
                            secs > u64::MAX / 1_000_000_000,
                    ;
                }
                Some(u64::MAX)
            } else {
                proof {
                    assert(secs * 1_000_000_000 <= u64::MAX) by (nonlinear_arith)
                        requires
                            secs <= u64::MAX / 1_000_000_000,
                    ;
                }
                Some(now.saturating_add(secs * 1_000_000_000))
            }
        },
        None => None,
    }
}

#[derive(Debug)]
pub struct ObservationManager {
    default_level: ObservationLevel,
    sessions: Table<ObservationTarget, ObservationSession>,
    clock: std::time::Instant,
}

impl ObservationManager {
    pub closed spec fn wf(&self) -> bool {
        &&& self.sessions.wf()
        &&& forall|t: TargetView| #[trigger]
            self.sessions.map().contains_key(t) ==> level_rank(self.sessions.map()[t].level) > level_rank(
                self.default_level,
            )
    }

    /// Every override a well-formed manager keeps is above its baseline:
    /// one at or below it is never stored, and raising the baseline drops
    /// those it reaches.
    pub proof fn lemma_overrides_above_default(&self)
        requires
            self.wf(),
        ensures
            forall|t: TargetView| #[trigger]
                self.session_map().contains_key(t) ==> level_rank(self.session_map()[t].level) > level_rank(
                    self.spec_default_level(),
                ),
    {
    }

    pub closed spec fn spec_default_level(&self) -> ObservationLevel {
        self.default_level
    }

    /// The explicit overrides, by target.
    pub closed spec fn session_map(&self) -> Map<TargetView, ObservationSession> {
        self.sessions.map()
    }

    /// The level in force for a target at a moment of the manager's clock.
    pub open spec fn level_at(&self, t: TargetView, now: u64) -> ObservationLevel {
        if self.session_map().contains_key(t) && !is_expired(self.session_map()[t].expires_at_ns, now) {
            level_max(self.session_map()[t].level, self.spec_default_level())
        } else {
            self.spec_default_level()
        }
    }

    pub fn new(default_level: ObservationLevel) -> (r: Self)
        ensures
            r.wf(),
            r.spec_default_level() == default_level,
            r.session_map() == Map::<TargetView, ObservationSession>::empty(),
    {
        ObservationManager { default_level, sessions: Table::new(), clock: clock_origin() }
    }

    pub fn default() -> (r: Self)
        ensures
            r.wf(),
            r.spec_default_level() == ObservationLevel::L1,
            r.session_map() == Map::<TargetView, ObservationSession>::empty(),
    {
        Self::new(ObservationLevel::L1)
    }

    pub fn default_level(&self) -> (r: ObservationLevel)
        ensures
            r == self.spec_default_level(),
    {
        self.default_level
    }

    /// The time now on the manager's clock, in nanoseconds: the `now` that
    /// `current_level` uses.
    pub fn now_ns(&self) -> u64 {
        clock_ns(&self.clock)
    }

    /// Change the baseline applied to every target without removing higher
    /// explicit overrides. Overrides that are now at or below the baseline
    /// are discarded.
    pub fn set_default_level(&mut self, level: ObservationLevel)
        requires
            old(self).wf(),
        ensures
            final(self).wf(),
            final(self).spec_default_level() == level,
            forall|t: TargetView| #[trigger] final(self).session_map().contains_key(t) <==> (old(
                self,
            ).session_map().contains_key(t) && level_rank(old(self).session_map()[t].level)
                > level_rank(level)),
            forall|t: TargetView| #[trigger] final(self).session_map().contains_key(t)
                ==> final(self).session_map()[t] == old(self).session_map()[t],
    {
        self.default_level = level;
        let mut flags: Vec<bool> = Vec::new();
        let mut i: usize = 0;
        while i < self.sessions.entries.len()
            invariant
                i <= self.sessions.entries@.len(),
                flags@.len() == i,
                forall|j: int| 0 <= j < i ==> flags@[j] == (level_rank(
                    #[trigger] self.sessions.entries@[j].1.level,
                ) > level_rank(level)),
            decreases self.sessions.entries.len() - i,
        {
            flags.push(self.sessions.entries[i].1.level.number() > level.number());
            i += 1;
        }
        let ghost before = self.sessions;
        self.sessions.retain_flags(&flags);
        proof {
            assert forall|t: TargetView| before.map().contains_key(t) implies flags@[before.index_of(t)]
                == (level_rank(before.map()[t].level) > level_rank(level)) by {
                before.lemma_entry(before.index_of(t));
            }
        }
    }

    pub fn current_level(&self, target: &ObservationTarget) -> (r: ObservationLevel)
        requires
            self.wf(),
        ensures
            exists|now: u64| r == self.level_at(target@, now),
    {
        let now = clock_ns(&self.clock);
        self.current_level_at(target, now)
    }

    /// The level in force for a target at `now` (nanoseconds on the
    /// manager's clock): an unexpired override raises the baseline.
    pub fn current_level_at(&self, target: &ObservationTarget, now: u64) -> (r: ObservationLevel)
        requires
            self.wf(),
        ensures
            r == self.level_at(target@, now),
    {
        match self.sessions.get(target) {
            Some(session) => {
                if session.expires_at_ns.is_some() && session.expires_at_ns.unwrap() <= now {
                    self.default_level
                } else {
                    session.level.max(self.default_level)
                }
            },
            None => self.default_level,
        }
    }

    /// Apply an explicit level. `upgrade` is usually preferable for callers
    /// that do not want a request to accidentally lower an active session.
    pub fn apply(&mut self, request: ObservationRequest)
        requires
            old(self).wf(),
        ensures
            final(self).wf(),
            final(self).spec_default_level() == old(self).spec_default_level(),
            exists|now: u64| final(self).session_map() == applied(old(self).session_map(), old(self).spec_default_level(), request, now),
    {
        let now = clock_ns(&self.clock);
        self.apply_at(request, now);
    }

    pub fn apply_at(&mut self, request: ObservationRequest, now: u64)
        requires
            old(self).wf(),
        ensures
            final(self).wf(),
            final(self).spec_default_level() == old(self).spec_default_level(),
            final(self).session_map() == applied(old(self).session_map(), old(self).spec_default_level(), request, now),
    {
        if request.level.number() <= self.default_level.number() {
            self.sessions.remove(&request.target);
            return;
        }
        let session = ObservationSession {
            level: request.level,
            expires_at_ns: expiry_at(now, request.duration_secs),
        };
        self.sessions.insert(request.target, session);
    }

    pub fn upgrade(&mut self, target: ObservationTarget, requested_level: ObservationLevel, duration_secs: Option<u64>) -> (r: ObservationLevel)
        requires
            old(self).wf(),
        ensures
            final(self).wf(),
            final(self).spec_default_level() == old(self).spec_default_level(),
            exists|now: u64| r == level_max(requested_level, old(self).level_at(target@, now))
                && final(self).session_map() == applied(
                    old(self).session_map(),
                    old(self).spec_default_level(),
                    ObservationRequest { target, level: r, duration_secs },
                    now,
                ),
    {
        let now = clock_ns(&self.clock);
        self.upgrade_at(target, requested_level, duration_secs, now)
    }

    pub fn upgrade_at(
        &mut self,
        target: ObservationTarget,
        requested_level: ObservationLevel,
        duration_secs: Option<u64>,
        now: u64,
    ) -> (r: ObservationLevel)
        requires
            old(self).wf(),
        ensures
            final(self).wf(),
            final(self).spec_default_level() == old(self).spec_default_level(),
            r == level_max(requested_level, old(self).level_at(target@, now)),
            final(self).session_map() == applied(
                old(self).session_map(),
                old(self).spec_default_level(),
                ObservationRequest { target, level: r, duration_secs },
                now,
            ),
    {
        let current = self.current_level_at(&target, now);
        let level = requested_level.max(current);
        self.apply_at(ObservationRequest { target, level, duration_secs }, now);
        level
    }

    /// Remove the target override and return to the configured baseline.
    pub fn downgrade(&mut self, target: &ObservationTarget)
        requires
            old(self).wf(),
        ensures
            final(self).wf(),
            final(self).spec_default_level() == old(self).spec_default_level(),
            final(self).session_map() == old(self).session_map().remove(target@),
    {
        self.sessions.remove(target);
    }

    pub fn downgrade_to_default(&mut self, target: &ObservationTarget) -> (r: ObservationLevel)
        requires
            old(self).wf(),
        ensures
            final(self).wf(),
            r == old(self).spec_default_level(),
            final(self).spec_default_level() == old(self).spec_default_level(),
            final(self).session_map() == old(self).session_map().remove(target@),
    {
        self.downgrade(target);
        self.default_level
    }

    pub fn sweep_expired(&mut self) -> (r: Vec<(ObservationTarget, ObservationLevel)>)
        requires
            old(self).wf(),
        ensures
            final(self).wf(),
            final(self).spec_default_level() == old(self).spec_default_level(),
            exists|now: u64| swept(*old(self), *final(self), r@, now),
    {
        let now = clock_ns(&self.clock);
        self.sweep_expired_at(now)
    }

    /// Removes the overrides that have expired at `now` and reports each of
    /// them with the baseline level the target returns to.
    pub fn sweep_expired_at(&mut self, now: u64) -> (r: Vec<(ObservationTarget, ObservationLevel)>)
        requires
            old(self).wf(),
        ensures
            final(self).wf(),
            final(self).spec_default_level() == old(self).spec_default_level(),
            swept(*old(self), *final(self), r@, now),
    {
        let mut flags: Vec<bool> = Vec::new();
        let mut i: usize = 0;
        while i < self.sessions.entries.len()
            invariant
                i <= self.sessions.entries@.len(),
                flags@.len() == i,
                forall|j: int| 0 <= j < i ==> flags@[j] == !is_expired(
                    #[trigger] self.sessions.entries@[j].1.expires_at_ns,
                    now,
                ),
            decreases self.sessions.entries.len() - i,
        {
            let e = self.sessions.entries[i].1.expires_at_ns;
            flags.push(!(e.is_some() && e.unwrap() <= now));
            i += 1;
        }
        let ghost before = self.sessions;
        let removed = self.sessions.retain_flags(&flags);
        let mut r: Vec<(ObservationTarget, ObservationLevel)> = Vec::new();
        let mut k: usize = 0;
        while k < removed.len()
            invariant
                k <= removed@.len(),
                r@.len() == k,
                forall|j: int| 0 <= j < k ==> (#[trigger] r@[j]).0 == removed@[j].0 && r@[j].1
                    == self.default_level,
            decreases removed.len() - k,
        {
            r.push((removed[k].0.duplicate(), self.default_level));
            k += 1;
        }
        proof {
            crate::table::lemma_kept_members(before.entries@, flags@);
            assert forall|t: TargetView| before.map().contains_key(t) implies flags@[before.index_of(t)]
                == !is_expired(before.map()[t].expires_at_ns, now) by {
                before.lemma_entry(before.index_of(t));
            }
            crate::table::lemma_dropped_keys_distinct(before.entries@, flags@);
            assert forall|t: TargetView|
                before.map().contains_key(t) && is_expired(#[trigger] before.map()[t].expires_at_ns, now)
                    implies exists|j: int| 0 <= j < r@.len() && (#[trigger] r@[j]).0@ == t by {
                let b = before.index_of(t);
                before.lemma_entry(b);
                assert(!flags@[b]);
                assert(crate::table::dropped_seq(before.entries@, flags@).contains(before.entries@[b]));
                let j = choose|j: int| 0 <= j < removed@.len() && removed@[j] == before.entries@[b];
                assert(r@[j].0@ == t);
            }
            assert forall|a: int, c: int| 0 <= a < r@.len() && 0 <= c < r@.len() && a != c implies (#[trigger] r@[a]).0@
                != (#[trigger] r@[c]).0@ by {
                assert(removed@[a].0.key_view() != removed@[c].0.key_view());
            }
            assert forall|j: int| 0 <= j < r@.len() implies before.map().contains_key((#[trigger] r@[j]).0@)
                && is_expired(before.map()[r@[j].0@].expires_at_ns, now) by {
                assert(crate::table::dropped_seq(before.entries@, flags@).contains(removed@[j]));
                let b = choose|b: int| 0 <= b < before.entries@.len() && !flags@[b] && #[trigger] before.entries@[b] == removed@[j];
                before.lemma_entry(b);
            }
        }
        r
    }

    /// The active overrides (including ones past expiry that have not been
    /// swept yet), in table order.
    pub fn active_targets(&self) -> (r: std::vec::IntoIter<(ObservationTarget, ObservationLevel)>)
        requires
            self.wf(),
        ensures
            r.remaining().len() == self.session_map().len(),
            forall|j: int| 0 <= j < r.remaining().len() ==> self.session_map().contains_key(
                (#[trigger] r.remaining()[j]).0@,
            ) && self.session_map()[r.remaining()[j].0@].level == r.remaining()[j].1,
    {
        let mut list: Vec<(ObservationTarget, ObservationLevel)> = Vec::new();
        let mut i: usize = 0;
        while i < self.sessions.entries.len()
            invariant
                self.sessions.wf(),
                i <= self.sessions.entries@.len(),
                list@.len() == i,
                forall|j: int| 0 <= j < i ==> (#[trigger] list@[j]).0 == self.sessions.entries@[j].0
                    && list@[j].1 == self.sessions.entries@[j].1.level,
            decreases self.sessions.entries.len() - i,
        {
            list.push((self.sessions.entries[i].0.duplicate(), self.sessions.entries[i].1.level));
            i += 1;
        }
        proof {
            self.sessions.lemma_len();
            assert forall|j: int| 0 <= j < list@.len() implies self.session_map().contains_key(
                (#[trigger] list@[j]).0@,
            ) && self.session_map()[list@[j].0@].level == list@[j].1 by {
                self.sessions.lemma_entry(j);
            }
        }
        list.into_iter()
    }

    pub fn statuses(&self) -> (r: Vec<ObservationStatus>)
        requires
            self.wf(),
        ensures
            exists|now: u64| statuses_at(*self, r@, now),
    {
        let now = clock_ns(&self.clock);
        let mut list: Vec<ObservationStatus> = Vec::new();
        let mut i: usize = 0;
        let ghost mut idx: Seq<int> = Seq::empty();
        while i < self.sessions.entries.len()
            invariant
                self.sessions.wf(),
                i <= self.sessions.entries@.len(),
                idx.len() == list@.len(),
                forall|j: int| 0 <= j < list@.len() ==> 0 <= #[trigger] idx[j] < i && list@[j].target@
                    == self.sessions.entries@[idx[j]].0@,
                forall|a: int, b: int| 0 <= a < b < list@.len() ==> (#[trigger] list@[a]).target@ != (#[trigger] list@[b]).target@,
                forall|j: int| 0 <= j < list@.len() ==> {
                    &&& self.session_map().contains_key((#[trigger] list@[j]).target@)
                    &&& status_of(self.session_map()[list@[j].target@], now) == Some(
                        (list@[j].level, list@[j].expires_in_secs),
                    )
                },
                forall|j: int| 0 <= j < i && !is_expired(
                    (#[trigger] self.sessions.entries@[j]).1.expires_at_ns,
                    now,
                ) ==> exists|t: int| 0 <= t < list@.len() && list@[t].target@ == self.sessions.entries@[j].0@,
            decreases self.sessions.entries.len() - i,
        {
            let session = self.sessions.entries[i].1;
            proof {
                self.sessions.lemma_entry(i as int);
            }
            let ghost old_list = list@;
            let expired = session.expires_at_ns.is_some() && session.expires_at_ns.unwrap() <= now;
            if !expired {
                let expires_in_secs = match session.expires_at_ns {
                    Some(e) => Some((e - now) / 1_000_000_000),
                    None => None,
                };
                list.push(
                    ObservationStatus {
                        target: self.sessions.entries[i].0.duplicate(),
                        level: session.level,
                        expires_in_secs,
                    },
                );
                assert(list@[list@.len() - 1].target@ == self.sessions.entries@[i as int].0@);
                proof {
                    let old_idx = idx;
                    idx = idx.push(i as int);
                    assert forall|a: int, b: int| 0 <= a < b < list@.len() implies (#[trigger] list@[a]).target@
                        != (#[trigger] list@[b]).target@ by {
                        if b == list@.len() - 1 {
                            assert(list@[a] == old_list[a]);
                            assert(old_idx[a] != i);
                            assert(self.sessions.entries@[old_idx[a]].0.key_view() != self.sessions.entries@[i as int].0.key_view());
                        } else {
                            assert(list@[a] == old_list[a]);
                            assert(list@[b] == old_list[b]);
                        }
                    }
                    assert forall|j: int| 0 <= j < list@.len() implies 0 <= #[trigger] idx[j] < i + 1 && list@[j].target@
                        == self.sessions.entries@[idx[j]].0@ by {
                        if j < list@.len() - 1 {
                            assert(list@[j] == old_list[j]);
                            assert(idx[j] == old_idx[j]);
                        }
                    }
                }
            }
            proof {
                assert forall|j: int| 0 <= j < i + 1 && !is_expired(
                    (#[trigger] self.sessions.entries@[j]).1.expires_at_ns,
                    now,
                ) implies exists|t: int| 0 <= t < list@.len() && list@[t].target@ == self.sessions.entries@[j].0@ by {
                    if j < i {
                        let t = choose|t: int| 0 <= t < old_list.len() && old_list[t].target@ == self.sessions.entries@[j].0@;
                        assert(list@[t] == old_list[t]);
                    } else {
                        assert(list@[list@.len() - 1].target@ == self.sessions.entries@[j].0@);
                    }
                }
            }
            i += 1;
        }
        proof {
            assert forall|t: TargetView| self.session_map().contains_key(t) && status_of(#[trigger] self.session_map()[t], now) is Some
                implies exists|j: int| 0 <= j < list@.len() && (#[trigger] list@[j]).target@ == t by {
                let a = self.sessions.index_of(t);
                self.sessions.lemma_entry(a);
                assert(!is_expired(self.sessions.entries@[a].1.expires_at_ns, now));
                let w = choose|w: int| 0 <= w < list@.len() && list@[w].target@ == self.sessions.entries@[a].0@;
                assert(list@[w].target@ == t);
            }
            self.lemma_overrides_above_default();
            assert forall|j: int| 0 <= j < list@.len() implies level_rank((#[trigger] list@[j]).level) > level_rank(
                self.spec_default_level(),
            ) by {
                assert(self.session_map().contains_key(list@[j].target@));
            }
            assert(statuses_at(*self, list@, now));
        }
        list
    }
}

/// The override table after applying a request at `now`: a level at or below
/// the baseline clears the override, a higher one sets it with its expiry.
pub open spec fn applied(
    sessions: Map<TargetView, ObservationSession>,
    default_level: ObservationLevel,
    request: ObservationRequest,
    now: u64,
) -> Map<TargetView, ObservationSession> {
    if level_rank(request.level) <= level_rank(default_level) {
        sessions.remove(request.target@)
    } else {
        sessions.insert(
            request.target@,
            ObservationSession { level: request.level, expires_at_ns: expiry(now, request.duration_secs) },
        )
    }
}

/// `after` keeps exactly the unexpired overrides of `before`, and `reported`
/// names each expired one exactly once, with the baseline level.
pub open spec fn swept(
    before: ObservationManager,
    after: ObservationManager,
    reported: Seq<(ObservationTarget, ObservationLevel)>,
    now: u64,
) -> bool {
    &&& forall|t: TargetView| #[trigger] after.session_map().contains_key(t) <==> (
    before.session_map().contains_key(t) && !is_expired(before.session_map()[t].expires_at_ns, now))
    &&& forall|t: TargetView| #[trigger] after.session_map().contains_key(t)
        ==> after.session_map()[t] == before.session_map()[t]
    &&& forall|j: int| 0 <= j < reported.len() ==> before.session_map().contains_key(
        (#[trigger] reported[j]).0@,
    ) && is_expired(before.session_map()[reported[j].0@].expires_at_ns, now) && reported[j].1
        == before.spec_default_level()
    &&& forall|t: TargetView|
        before.session_map().contains_key(t) && is_expired(#[trigger] before.session_map()[t].expires_at_ns, now)
            ==> exists|j: int| 0 <= j < reported.len() && (#[trigger] reported[j]).0@ == t
    &&& forall|a: int, b: int|
        0 <= a < reported.len() && 0 <= b < reported.len() && a != b ==> (#[trigger] reported[a]).0@ != (
        #[trigger] reported[b]).0@
}

/// What the status report shows of an override at `now`: nothing once it has
/// expired, else its level and the whole seconds left.
pub open spec fn status_of(s: ObservationSession, now: u64) -> Option<(ObservationLevel, Option<u64>)> {
    if is_expired(s.expires_at_ns, now) {
        None
    } else {
        Some(
            (
                s.level,
                match s.expires_at_ns {
                    Some(e) => Some(((e - now) / 1_000_000_000) as u64),
                    None => None,
                },
            ),
        )
    }
}

/// What the status report shows of an override applied at `set_at`, read
/// at `now` no earlier: its level, and seconds left exactly when the
/// request had a duration, never more than that duration.
pub proof fn law_status_seconds_within_duration(
    sessions: Map<TargetView, ObservationSession>,
    default_level: ObservationLevel,
    request: ObservationRequest,
    set_at: u64,
    now: u64,
)
    requires
        set_at <= now,
        level_rank(request.level) > level_rank(default_level),
    ensures
        status_of(applied(sessions, default_level, request, set_at)[request.target@], now) matches Some((level, secs))
            ==> level == request.level && (secs is Some <==> request.duration_secs is Some) && (secs matches Some(
            left) ==> left <= request.duration_secs.unwrap()),
{
    let s = applied(sessions, default_level, request, set_at)[request.target@];
    if let Some(d) = request.duration_secs {
        if let Some(e) = s.expires_at_ns {
            if e > now {
                assert(e - now <= d * 1_000_000_000);
                assert((e - now) / 1_000_000_000 <= d) by (nonlinear_arith)
                    requires
                        e - now <= d * 1_000_000_000,
                        e - now >= 0,
                ;
            }
        }
    }
}

/// The reported statuses are exactly the unexpired overrides at `now`.
pub open spec fn statuses_at(m: ObservationManager, list: Seq<ObservationStatus>, now: u64) -> bool {
    &&& forall|j: int| 0 <= j < list.len() ==> {
        &&& m.session_map().contains_key((#[trigger] list[j]).target@)
        &&& status_of(m.session_map()[list[j].target@], now) == Some(
            (list[j].level, list[j].expires_in_secs),
        )
    }
    &&& forall|t: TargetView| m.session_map().contains_key(t) && status_of(#[trigger] m.session_map()[t], now) is Some
        ==> exists|j: int| 0 <= j < list.len() && (#[trigger] list[j]).target@ == t
    &&& forall|a: int, b: int| 0 <= a < b < list.len() ==> (#[trigger] list[a]).target@ != (#[trigger] list[b]).target@
    &&& forall|j: int| 0 <= j < list.len() ==> level_rank((#[trigger] list[j]).level) > level_rank(m.spec_default_level())
}

/// The level in force is never below the baseline.
pub proof fn law_level_at_least_default(m: ObservationManager, t: TargetView, now: u64)
    ensures
        level_rank(m.level_at(t, now)) >= level_rank(m.spec_default_level()),
{
}

/// An upgrade never lowers the level in force at the moment it is made.
pub proof fn law_upgrade_never_lowers(m: ObservationManager, t: TargetView, requested: ObservationLevel, now: u64)
    ensures
        level_rank(level_max(requested, m.level_at(t, now))) >= level_rank(m.level_at(t, now)),
        level_rank(level_max(requested, m.level_at(t, now))) >= level_rank(requested),
{
}

/// After an override is removed, the target is back at the baseline level.
pub proof fn law_downgrade_returns_to_default(before: ObservationManager, after: ObservationManager, t: TargetView, now: u64)
    requires
        after.spec_default_level() == before.spec_default_level(),
        after.session_map() == before.session_map().remove(t),
    ensures
        after.level_at(t, now) == before.spec_default_level(),
{
}

/// Applying a level above the baseline makes it the level in force until the
/// request's duration has passed.
pub proof fn law_apply_then_read(
    before: ObservationManager,
    after: ObservationManager,
    request: ObservationRequest,
    now: u64,
    later: u64,
)
    requires
        after.spec_default_level() == before.spec_default_level(),
        after.session_map() == applied(before.session_map(), before.spec_default_level(), request, now),
        level_rank(request.level) > level_rank(before.spec_default_level()),
        !is_expired(expiry(now, request.duration_secs), later),
    ensures
        after.level_at(request.target@, later) == request.level,
{
}

} // verus!
