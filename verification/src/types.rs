//! Plain data carried between the library and its callers.
use vstd::prelude::*;

verus! {

/// Whether an AI credential is configured.
#[derive(Clone, Copy, Debug, PartialEq, Eq, Structural)]
pub struct AiStatus {
    pub configured: bool,
}

/// A diagnosis of the machine's state, local or produced by the AI service.
#[derive(Clone, Debug)]
pub struct LocalDiagnosis {
    pub summary: String,
    pub details: Vec<String>,
    pub suggestions: Vec<String>,
    pub confidence: String,
    pub source: String,
    pub model: Option<String>,
}

/// One entry of the patrol timeline.
#[derive(Clone, Debug)]
pub struct TimelineEvent {
    pub id: String,
    pub occurred_at: u64,
    pub kind: String,
    pub message: String,
}

/// The observed effect of an action on the system's pressure.
#[derive(Clone, Debug)]
pub struct VerificationStatus {
    pub target_name: String,
    pub status: String,
    pub message: String,
    pub started_at: u64,
}

/// The outcome of a confirmed action.
#[derive(Clone, Debug)]
pub struct ActionResult {
    pub action_id: String,
    pub success: bool,
    pub message: String,
}

} // verus!

verus! {

/// An anomaly the patrol has found and still considers open.
#[derive(Clone, Debug)]
pub struct Finding {
    pub id: String,
    pub kind: String,
    pub severity: String,
    pub title: String,
    pub message: String,
    pub first_seen_at: u64,
    pub evidence: Vec<String>,
    pub process: Option<crate::process::ProcessSample>,
}

} // verus!

verus! {

/// One run of an application, from first sight to closing.
#[derive(Clone, Debug)]
pub struct AppUsageRecord {
    pub session_id: String,
    pub name: String,
    pub root_pid: u32,
    pub started_at: u64,
    pub first_seen_at: u64,
    pub last_seen_at: u64,
    pub closed_at: Option<u64>,
    pub runtime_seconds: u64,
    pub foreground_seconds: u64,
    pub background_seconds: u64,
    pub member_peak: usize,
    pub is_running: bool,
}

impl AppUsageRecord {
    /// An exact copy of the record.
    pub fn duplicate(&self) -> (r: Self)
        ensures
            r == *self,
    {
        AppUsageRecord {
            session_id: self.session_id.clone(),
            name: self.name.clone(),
            root_pid: self.root_pid,
            started_at: self.started_at,
            first_seen_at: self.first_seen_at,
            last_seen_at: self.last_seen_at,
            closed_at: self.closed_at,
            runtime_seconds: self.runtime_seconds,
            foreground_seconds: self.foreground_seconds,
            background_seconds: self.background_seconds,
            member_peak: self.member_peak,
            is_running: self.is_running,
        }
    }
}

} // verus!
