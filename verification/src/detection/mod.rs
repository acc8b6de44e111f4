//! Security detections over the event stream: alert records, their
//! severities and risk points, and the engine that raises them.
pub mod address;
pub mod engine;

use vstd::prelude::*;
use crate::events::opt_string_view;
use crate::text::{push_char, push_str};

verus! {

#[derive(Debug, Clone, Copy, PartialEq, Eq, Structural)]
pub enum AlertSeverity {
    Low,
    Medium,
    High,
    Critical,
}

/// The risk points of a severity.
pub open spec fn severity_points(s: AlertSeverity) -> u32 {
    match s {
        AlertSeverity::Low => 20,
        AlertSeverity::Medium => 40,
        AlertSeverity::High => 70,
        AlertSeverity::Critical => 95,
    }
}

impl AlertSeverity {
    /// The risk points an alert of this severity carries (out of 100).
    pub fn risk_score(self) -> (r: u32)
        ensures
            r == severity_points(self),
    {
        match self {
            AlertSeverity::Low => 20,
            AlertSeverity::Medium => 40,
            AlertSeverity::High => 70,
            AlertSeverity::Critical => 95,
        }
    }
}

/// A raised alert. Its risk points follow from its severity.
#[derive(Debug, Clone, PartialEq, Eq)]
pub struct Alert {
    pub id: String,
    pub event_id: Option<String>,
    pub timestamp_ns: u64,
    pub severity: AlertSeverity,
    pub rule: String,
    pub summary: String,
    pub process_id: Option<u32>,
    pub process_name: Option<String>,
    pub connection_id: Option<String>,
    pub domain: Option<String>,
    pub evidence: Vec<String>,
    pub risk_score: u32,
}

/// Spaces of a rule name as underscores.
pub open spec fn underscored(s: Seq<char>) -> Seq<char> {
    s.map_values(
        |c: char|
            if c == ' ' {
                '_'
            } else {
                c
            },
    )
}

/// `alert-<rule>-<event id>`, with `runtime` for an alert of no event.
pub open spec fn alert_id(rule: Seq<char>, event_id: Option<Seq<char>>) -> Seq<char> {
    "alert-"@ + underscored(rule) + "-"@ + match event_id {
        Some(e) => e,
        None => "runtime"@,
    }
}

impl Alert {
    #[allow(clippy::too_many_arguments)]
    pub fn new(
        event_id: Option<String>,
        timestamp_ns: u64,
        severity: AlertSeverity,
        rule: &str,
        summary: String,
        process_id: Option<u32>,
        process_name: Option<String>,
        connection_id: Option<String>,
        domain: Option<String>,
        evidence: Vec<String>,
    ) -> (r: Self)
        ensures
            r.id@ == alert_id(rule@, opt_string_view(event_id)),
            r.event_id == event_id,
            r.timestamp_ns == timestamp_ns,
            r.severity == severity,
            r.rule@ == rule@,
            r.summary == summary,
            r.process_id == process_id,
            r.process_name == process_name,
            r.connection_id == connection_id,
            r.domain == domain,
            r.evidence == evidence,
            r.risk_score == severity_points(severity),
    {
        let mut id = String::new();
        push_str(&mut id, "alert-");
        let chars = crate::text::chars_of(rule);
        let ghost start = id@;
        let mut i: usize = 0;
        while i < chars.len()
            invariant
                i <= chars@.len(),
                chars@ == rule@,
                id@ == start + underscored(chars@.take(i as int)),
            decreases chars.len() - i,
        {
            let c = if chars[i] == ' ' {
                '_'
            } else {
                chars[i]
            };
            push_char(&mut id, c);
            assert(underscored(chars@.take(i + 1)) =~= underscored(chars@.take(i as int)).push(c));
            i += 1;
        }
        assert(chars@.take(i as int) =~= rule@);
        push_str(&mut id, "-");
        match &event_id {
            Some(e) => push_str(&mut id, e.as_str()),
            None => push_str(&mut id, "runtime"),
        }
        Alert {
            id,
            event_id,
            timestamp_ns,
            severity,
            rule: rule.to_string(),
            summary,
            process_id,
            process_name,
            connection_id,
            domain,
            evidence,
            risk_score: severity.risk_score(),
        }
    }
}

/// Risk points summed and capped at 100.
pub open spec fn capped_points(total: nat) -> u32 {
    if total > 100 {
        100
    } else {
        total as u32
    }
}

/// The summed risk points of the alerts that `pick` selects.
pub open spec fn points_sum(alerts: Seq<Alert>, pick: spec_fn(Alert) -> bool) -> nat
    decreases alerts.len(),
{
    if alerts.len() == 0 {
        0
    } else {
        points_sum(alerts.drop_last(), pick) + if pick(alerts.last()) {
            alerts.last().risk_score as nat
        } else {
            0
        }
    }
}

pub open spec fn about_process(pid: u32) -> spec_fn(Alert) -> bool {
    |a: Alert| a.process_id == Some(pid)
}

/// The risk of a process: the points of its alerts, at most 100.
pub fn risk_score_for_process(alerts: &Vec<Alert>, pid: u32) -> (r: u32)
    ensures
        r == capped_points(points_sum(alerts@, about_process(pid))),
{
    let mut total: u64 = 0;
    let mut i: usize = 0;
    while i < alerts.len()
        invariant
            i <= alerts@.len(),
            total == if points_sum(alerts@.take(i as int), about_process(pid)) > 100 {
                101
            } else {
                points_sum(alerts@.take(i as int), about_process(pid))
            },
        decreases alerts.len() - i,
    {
        assert(alerts@.take(i + 1).drop_last() =~= alerts@.take(i as int));
        if alerts[i].process_id == Some(pid) {
            let add = alerts[i].risk_score as u64;
            total = if total + add > 100 {
                101
            } else {
                total + add
            };
        }
        i += 1;
    }
    assert(alerts@.take(i as int) =~= alerts@);
    if total > 100 {
        100
    } else {
        total as u32
    }
}

} // verus!
