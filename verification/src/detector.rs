//! The patrol's anomaly detector: run counters, baselines, findings with a
//! ten-minute cooldown per kind, resolution, and the timeline of events.
use vstd::prelude::*;
use std::collections::VecDeque;
use crate::baseline::{
    count_sample, growth_of, high_samples_needed, is_outlier, mad, median, memory_growth,
    next_count, required_high_samples, RollingBaseline,
};
use crate::process::ProcessSample;
use crate::text::{decimal, decimal_text, str_eq};
use crate::types::{Finding, TimelineEvent};

verus! {

broadcast use vstd::std_specs::vecdeque::group_vec_dequeue_axioms;

/// Whether some finding in `fs` has kind `k`.
pub open spec fn has_kind(fs: Seq<Finding>, k: Seq<char>) -> bool {
    exists|i: int| 0 <= i < fs.len() && (#[trigger] fs[i]).kind@ == k
}

/// Whether no two findings in `fs` share a kind.
pub open spec fn kinds_distinct(fs: Seq<Finding>) -> bool {
    forall|i: int, j: int| 0 <= i < j < fs.len() ==> (#[trigger] fs[i]).kind@ != (#[trigger] fs[j]).kind@
}

proof fn lemma_filter_keeps_kinds_distinct(s: Seq<Finding>, p: spec_fn(Finding) -> bool)
    requires
        kinds_distinct(s),
    ensures
        kinds_distinct(s.filter(p)),
    decreases s.len(),
{
    if s.len() > 0 {
        let d = s.drop_last();
        assert(kinds_distinct(d)) by {
            assert forall|i: int, j: int| 0 <= i < j < d.len() implies (#[trigger] d[i]).kind@ != (
            #[trigger] d[j]).kind@ by {
                assert(d[i] == s[i] && d[j] == s[j]);
            }
        }
        lemma_filter_keeps_kinds_distinct(d, p);
        reveal_with_fuel(Seq::filter, 1);
        assert(s.filter(p) == (if p(s.last()) {
            d.filter(p).push(s.last())
        } else {
            d.filter(p)
        }));
        if p(s.last()) {
            let f = d.filter(p);
            let t = f.push(s.last());
            assert forall|i: int, j: int| 0 <= i < j < t.len() implies (#[trigger] t[i]).kind@ != (
            #[trigger] t[j]).kind@ by {
                if j == t.len() - 1 {
                    assert(f.contains(f[i]));
                    d.lemma_filter_contains_rev(p, f[i]);
                    assert(d.contains(f[i]));
                    let k = choose|k: int| 0 <= k < d.len() && d[k] == f[i];
                    assert(s[k] == d[k]);
                    assert(s[s.len() - 1] == s.last());
                    assert(t[j] == s.last());
                } else {
                    assert(t[i] == f[i] && t[j] == f[j]);
                }
            }
        }
    }
}

/// When an alert of kind `k` was last raised, by the first record for `k`.
pub open spec fn alert_time(s: Seq<(String, u64)>, k: Seq<char>) -> Option<u64>
    decreases s.len(),
{
    if s.len() == 0 {
        None
    } else if s[0].0@ == k {
        Some(s[0].1)
    } else {
        alert_time(s.drop_first(), k)
    }
}

/// Whether an alert of kind `k` may be raised at `now` (seconds): none was
/// raised in the last ten minutes.
pub open spec fn cooled_down(s: Seq<(String, u64)>, k: Seq<char>, now: u64) -> bool {
    match alert_time(s, k) {
        Some(t) => now >= t && now - t >= 600,
        None => true,
    }
}

/// Whether the periodic patrol event is due at `now` (seconds), ten minutes
/// after the last one at `last`.
pub fn patrol_due(now: u64, last: u64) -> (r: bool)
    ensures
        r == (now >= last && now - last >= 600),
{
    now.saturating_sub(last) >= 600
}

/// The timeline after recording `e`: newest first, at most 50 entries.
pub open spec fn with_event(t: Seq<TimelineEvent>, e: TimelineEvent) -> Seq<TimelineEvent> {
    let s = seq![e] + t;
    if s.len() <= 50 {
        s
    } else {
        s.take(50)
    }
}

/// What raising a finding did to the detector: where `r`, a finding with
/// these fields, first seen at `now`, was appended, the alert time of its
/// kind set to `now` and the timeline told of it; otherwise the findings,
/// the timeline and the alert times are unchanged. The run counters are
/// never touched.
pub open spec fn raised(
    d0: Detector,
    d1: Detector,
    now: u64,
    kind: Seq<char>,
    severity: Seq<char>,
    title: Seq<char>,
    message: String,
    evidence: Vec<String>,
    process: Option<ProcessSample>,
    r: bool,
) -> bool {
    &&& if r {
        let f = d1.findings_view().last();
        {
            &&& f.kind@ == kind
            &&& f.severity@ == severity
            &&& f.title@ == title
            &&& f.message == message
            &&& f.evidence == evidence
            &&& f.process == process
            &&& f.first_seen_at == now * 1000
            &&& d1.findings_view() == d0.findings_view().push(f)
            &&& alert_time(d1.alerts(), kind) == Some(now)
            &&& forall|k: Seq<char>| k != kind ==> alert_time(d1.alerts(), k) == alert_time(d0.alerts(), k)
            &&& exists|e: TimelineEvent|
                #![trigger with_event(d0.timeline_view(), e)]
                d1.timeline_view() == with_event(d0.timeline_view(), e) && e.kind@ == "finding"@
                    && e.message@ == "发现异常："@ + title + "。正在调查原因"@
        }
    } else {
        &&& d1.findings_view() == d0.findings_view()
        &&& d1.timeline_view() == d0.timeline_view()
        &&& d1.alerts() == d0.alerts()
    }
    &&& d1.cpu_run() == d0.cpu_run()
    &&& d1.memory_run() == d0.memory_run()
    &&& d1.disk_run() == d0.disk_run()
    &&& d1.network_run() == d0.network_run()
}

/// The kind of the memory-growth finding of the application `(pid,
/// started_at)`.
pub open spec fn growth_kind(pid: u32, started_at: u64) -> Seq<char> {
    "process.memory_growth:"@ + decimal(pid as nat) + ":"@ + decimal(started_at as nat)
}

/// The kind of the memory-growth finding of the application `(pid,
/// started_at)`, as text.
pub fn growth_finding_kind(pid: u32, started_at: u64) -> (r: String)
    ensures
        r@ == growth_kind(pid, started_at),
{
    let p = decimal_text(pid as u64);
    let t = decimal_text(started_at);
    crate::text::join4("process.memory_growth:", p.as_str(), ":", t.as_str())
}

/// One application's recent memory readings, keyed by its root process.
pub struct MemoryTrack {
    pub pid: u32,
    pub started_at: u64,
    pub readings: VecDeque<(u64, u64)>,
}

/// The detector's state between patrol rounds.
pub struct Detector {
    findings: Vec<Finding>,
    timeline: Vec<TimelineEvent>,
    high_cpu_samples: u8,
    high_memory_samples: u8,
    disk_baseline: RollingBaseline,
    network_baseline: RollingBaseline,
    disk_anomaly_samples: u8,
    network_anomaly_samples: u8,
    memory_history: Vec<MemoryTrack>,
    growing: Vec<(u32, u64)>,
    last_alert_at: Vec<(String, u64)>,
}

proof fn lemma_alert_time_update(s: Seq<(String, u64)>, i: int, e: (String, u64), k: Seq<char>)
    requires
        0 <= i < s.len(),
        s[i].0@ == e.0@,
        forall|j: int| 0 <= j < i ==> s[j].0@ != e.0@,
    ensures
        alert_time(s.update(i, e), k) == if k == e.0@ {
            Some(e.1)
        } else {
            alert_time(s, k)
        },
    decreases s.len(),
{
    if i > 0 {
        lemma_alert_time_update(s.drop_first(), i - 1, e, k);
        assert(s.update(i, e).drop_first() =~= s.drop_first().update(i - 1, e));
    } else {
        assert(s.update(i, e).drop_first() =~= s.drop_first());
    }
}

proof fn lemma_alert_time_push(s: Seq<(String, u64)>, e: (String, u64), k: Seq<char>)
    requires
        forall|j: int| 0 <= j < s.len() ==> s[j].0@ != e.0@,
    ensures
        alert_time(s.push(e), k) == if k == e.0@ {
            Some(e.1)
        } else {
            alert_time(s, k)
        },
    decreases s.len(),
{
    reveal_with_fuel(alert_time, 2);
    if s.len() > 0 {
        lemma_alert_time_push(s.drop_first(), e, k);
        assert(s.push(e).drop_first() =~= s.drop_first().push(e));
        assert(s.push(e)[0] == s[0]);
    } else {
        assert(s.push(e).drop_first() =~= Seq::<(String, u64)>::empty());
    }
}

proof fn lemma_alert_time_found(s: Seq<(String, u64)>, i: int, k: Seq<char>)
    requires
        0 <= i < s.len(),
        s[i].0@ == k,
        forall|j: int| 0 <= j < i ==> s[j].0@ != k,
    ensures
        alert_time(s, k) == Some(s[i].1),
    decreases s.len(),
{
    if i > 0 {
        lemma_alert_time_found(s.drop_first(), i - 1, k);
    }
}

proof fn lemma_alert_time_absent(s: Seq<(String, u64)>, k: Seq<char>)
    requires
        forall|j: int| 0 <= j < s.len() ==> s[j].0@ != k,
    ensures
        alert_time(s, k) is None,
    decreases s.len(),
{
    if s.len() > 0 {
        lemma_alert_time_absent(s.drop_first(), k);
    }
}

impl Detector {
    /// The open findings, oldest first.
    pub closed spec fn findings_view(&self) -> Seq<Finding> {
        self.findings@
    }

    /// The timeline, newest first.
    pub closed spec fn timeline_view(&self) -> Seq<TimelineEvent> {
        self.timeline@
    }

    /// Consecutive readings at or above the CPU threshold.
    pub closed spec fn cpu_run(&self) -> u8 {
        self.high_cpu_samples
    }

    /// Consecutive readings at or above the memory threshold.
    pub closed spec fn memory_run(&self) -> u8 {
        self.high_memory_samples
    }

    /// Consecutive disk readings that stood out from the disk baseline.
    pub closed spec fn disk_run(&self) -> u8 {
        self.disk_anomaly_samples
    }

    /// Consecutive network readings that stood out from the network baseline.
    pub closed spec fn network_run(&self) -> u8 {
        self.network_anomaly_samples
    }

    /// The disk throughput history.
    pub closed spec fn disk_history(&self) -> Seq<u64> {
        self.disk_baseline@
    }

    /// The network throughput history.
    pub closed spec fn network_history(&self) -> Seq<u64> {
        self.network_baseline@
    }

    /// When each kind of alert was last raised.
    pub closed spec fn alerts(&self) -> Seq<(String, u64)> {
        self.last_alert_at@
    }

    /// The detector's invariant: at most one open finding of each kind, a
    /// timeline of at most 50 events, and well-formed baselines.
    pub closed spec fn wf(&self) -> bool {
        &&& kinds_distinct(self.findings@)
        &&& self.timeline@.len() <= 50
        &&& self.disk_baseline.wf()
        &&& self.network_baseline.wf()
    }

    /// At most one finding of each kind is open in any well-formed detector,
    /// and its timeline holds at most 50 events; every operation keeps the
    /// detector well formed.
    pub proof fn law_open_finding_kinds_are_distinct(d: Detector)
        requires
            d.wf(),
        ensures
            kinds_distinct(d.findings_view()),
            d.timeline_view().len() <= 50,
    {
    }

    /// A detector with no history.
    pub fn new() -> (d: Self)
        ensures
            d.wf(),
            d.findings_view().len() == 0,
            d.timeline_view().len() == 0,
            d.cpu_run() == 0 && d.memory_run() == 0,
            d.disk_run() == 0 && d.network_run() == 0,
            d.alerts().len() == 0,
            d.disk_history().len() == 0 && d.network_history().len() == 0,
            d.tracks().len() == 0,
            d.growing_keys().len() == 0,
    {
        Detector {
            findings: Vec::new(),
            timeline: Vec::new(),
            high_cpu_samples: 0,
            high_memory_samples: 0,
            disk_baseline: RollingBaseline::new(),
            network_baseline: RollingBaseline::new(),
            disk_anomaly_samples: 0,
            network_anomaly_samples: 0,
            memory_history: Vec::new(),
            growing: Vec::new(),
            last_alert_at: Vec::new(),
        }
    }

    /// The open findings, oldest first.
    pub fn findings(&self) -> (r: &Vec<Finding>)
        ensures
            r@ == self.findings_view(),
    {
        &self.findings
    }

    /// The timeline, newest first.
    pub fn timeline(&self) -> (r: &Vec<TimelineEvent>)
        ensures
            r@ == self.timeline_view(),
    {
        &self.timeline
    }

    /// Replaces the timeline by events loaded from storage, newest first,
    /// keeping at most 50.
    pub fn restore_timeline(&mut self, events: Vec<TimelineEvent>)
        requires
            old(self).wf(),
        ensures
            final(self).wf(),
            final(self).timeline_view() == if events@.len() <= 50 {
                events@
            } else {
                events@.take(50)
            },
            final(self).findings_view() == old(self).findings_view(),
    {
        let mut events = events;
        events.truncate(50);
        self.timeline = events;
    }

    /// Records an event at `now` (seconds) at the head of the timeline.
    pub fn push_event(&mut self, now: u64, kind: &str, message: &str)
        requires
            old(self).wf(),
            now <= u64::MAX / 1000,
        ensures
            final(self).wf(),
            exists|e: TimelineEvent|
                #![trigger with_event(old(self).timeline_view(), e)]
                final(self).timeline_view() == with_event(old(self).timeline_view(), e)
                    && e.occurred_at == now * 1000 && e.kind@ == kind@ && e.message@ == message@,
            final(self).findings_view() == old(self).findings_view(),
            final(self).alerts() == old(self).alerts(),
            final(self).cpu_run() == old(self).cpu_run(),
            final(self).memory_run() == old(self).memory_run(),
            final(self).disk_run() == old(self).disk_run(),
            final(self).network_run() == old(self).network_run(),
            final(self).disk_history() == old(self).disk_history(),
            final(self).network_history() == old(self).network_history(),
            final(self).growing_keys() == old(self).growing_keys(),
            final(self).tracks() == old(self).tracks(),
    {
        let e = TimelineEvent {
            id: crate::ids::new_id(),
            occurred_at: now * 1000,
            kind: String::from_str(kind),
            message: String::from_str(message),
        };
        let ghost g = e;
        self.timeline.insert(0, e);
        self.timeline.truncate(50);
        proof {
            assert(seq![g] + old(self).timeline@ =~= old(self).timeline@.insert(0, g));
            assert(self.timeline@ == with_event(old(self).timeline@, g));
            assert(g.occurred_at == now * 1000 && g.kind@ == kind@ && g.message@ == message@);
            assert(self.timeline_view() == with_event(old(self).timeline_view(), g));
        }
    }

    fn has_finding_kind(&self, kind: &str) -> (r: bool)
        ensures
            r == has_kind(self.findings@, kind@),
    {
        let mut i: usize = 0;
        while i < self.findings.len()
            invariant
                i <= self.findings@.len(),
                forall|j: int| 0 <= j < i ==> (#[trigger] self.findings@[j]).kind@ != kind@,
            decreases self.findings@.len() - i,
        {
            if str_eq(self.findings[i].kind.as_str(), kind) {
                assert(self.findings@[i as int].kind@ == kind@);
                return true;
            }
            i = i + 1;
        }
        false
    }

    /// Counts one load reading. Returns whether a CPU finding and a memory
    /// finding are due: the run reached the samples of one minute at the
    /// current interval and no finding of that kind is open.
    pub fn observe_load(&mut self, interval_seconds: u64, cpu_high: bool, memory_high: bool) -> (r: (
        bool,
        bool,
    ))
        requires
            old(self).wf(),
        ensures
            final(self).wf(),
            final(self).cpu_run() == next_count(old(self).cpu_run(), cpu_high),
            final(self).memory_run() == next_count(old(self).memory_run(), memory_high),
            r.0 == (final(self).cpu_run() >= high_samples_needed(interval_seconds) && !has_kind(
                old(self).findings_view(),
                "cpu.sustained_high"@,
            )),
            r.1 == (final(self).memory_run() >= high_samples_needed(interval_seconds) && !has_kind(
                old(self).findings_view(),
                "memory.pressure"@,
            )),
            final(self).findings_view() == old(self).findings_view(),
            final(self).timeline_view() == old(self).timeline_view(),
            final(self).alerts() == old(self).alerts(),
            final(self).disk_run() == old(self).disk_run(),
            final(self).network_run() == old(self).network_run(),
    {
        let required = required_high_samples(interval_seconds);
        self.high_cpu_samples = count_sample(self.high_cpu_samples, cpu_high);
        self.high_memory_samples = count_sample(self.high_memory_samples, memory_high);
        let cpu_due = self.high_cpu_samples >= required && !self.has_finding_kind(
            "cpu.sustained_high",
        );
        let memory_due = self.high_memory_samples >= required && !self.has_finding_kind(
            "memory.pressure",
        );
        (cpu_due, memory_due)
    }

    /// Restarts both load runs, as after a change of thresholds.
    pub fn reset_load_runs(&mut self)
        requires
            old(self).wf(),
        ensures
            final(self).wf(),
            final(self).cpu_run() == 0,
            final(self).memory_run() == 0,
            final(self).findings_view() == old(self).findings_view(),
            final(self).timeline_view() == old(self).timeline_view(),
    {
        self.high_cpu_samples = 0;
        self.high_memory_samples = 0;
    }

    fn alert_index(&self, kind: &str) -> (r: Option<usize>)
        ensures
            match r {
                Some(i) => i < self.last_alert_at@.len() && self.last_alert_at@[i as int].0@
                    == kind@ && forall|j: int|
                    0 <= j < i ==> self.last_alert_at@[j].0@ != kind@,
                None => forall|j: int|
                    0 <= j < self.last_alert_at@.len() ==> self.last_alert_at@[j].0@ != kind@,
            },
    {
        let mut i: usize = 0;
        while i < self.last_alert_at.len()
            invariant
                i <= self.last_alert_at@.len(),
                forall|j: int| 0 <= j < i ==> self.last_alert_at@[j].0@ != kind@,
            decreases self.last_alert_at@.len() - i,
        {
            if str_eq(self.last_alert_at[i].0.as_str(), kind) {
                return Some(i);
            }
            i = i + 1;
        }
        None
    }

    /// Raises a finding at `now` (seconds), unless one of the same kind is
    /// open or was raised in the last ten minutes. A raised finding is
    /// appended to the open findings, announced on the timeline and returned.
    pub fn add_finding(
        &mut self,
        now: u64,
        kind: &str,
        severity: &str,
        title: &str,
        message: String,
        evidence: Vec<String>,
        process: Option<ProcessSample>,
    ) -> (r: bool)
        requires
            old(self).wf(),
            now <= u64::MAX / 1000,
        ensures
            final(self).wf(),
            r <==> !has_kind(old(self).findings_view(), kind@) && cooled_down(old(self).alerts(), kind@, now),
            raised(*old(self), *final(self), now, kind@, severity@, title@, message, evidence, process, r),
    {
        if self.has_finding_kind(kind) {
            return false;
        }
        let found = self.alert_index(kind);
        match found {
            Some(i) => {
                proof {
                    lemma_alert_time_found(self.last_alert_at@, i as int, kind@);
                }
                let last = self.last_alert_at[i].1;
                if now.saturating_sub(last) < 600 {
                    return false;
                }
                let ghost before = self.last_alert_at@;
                let entry = (String::from_str(kind), now);
                self.last_alert_at.set(i, entry);
                proof {
                    assert forall|k: Seq<char>| #![auto]
                        alert_time(self.last_alert_at@, k) == if k == kind@ {
                            Some(now)
                        } else {
                            alert_time(before, k)
                        } by {
                        lemma_alert_time_update(before, i as int, entry, k);
                    }
                }
            },
            None => {
                proof {
                    lemma_alert_time_absent(self.last_alert_at@, kind@);
                }
                let ghost before = self.last_alert_at@;
                let entry = (String::from_str(kind), now);
                self.last_alert_at.push(entry);
                proof {
                    assert forall|k: Seq<char>| #![auto]
                        alert_time(self.last_alert_at@, k) == if k == kind@ {
                            Some(now)
                        } else {
                            alert_time(before, k)
                        } by {
                        lemma_alert_time_push(before, entry, k);
                    }
                }
            },
        }
        let finding = Finding {
            id: crate::ids::new_id(),
            kind: String::from_str(kind),
            severity: String::from_str(severity),
            title: String::from_str(title),
            message,
            first_seen_at: now * 1000,
            evidence,
            process,
        };
        self.findings.push(finding);
        let text = crate::text::join3("发现异常：", title, "。正在调查原因");
        assert(self.timeline_view() == old(self).timeline_view());
        self.push_event(now, "finding", text.as_str());
        proof {
            let e = choose|e: TimelineEvent|
                #![trigger with_event(old(self).timeline_view(), e)]
                self.timeline_view() == with_event(old(self).timeline_view(), e) && e.occurred_at
                    == now * 1000 && e.kind@ == "finding"@ && e.message@ == text@;
            assert(self.timeline_view() == with_event(old(self).timeline_view(), e));
        }
        true
    }

    /// Raises the memory-growth finding of the application `(pid,
    /// started_at)`, unless one is open for it or one was raised in the last
    /// ten minutes.
    pub fn add_growth_finding(
        &mut self,
        now: u64,
        pid: u32,
        started_at: u64,
        title: &str,
        message: String,
        evidence: Vec<String>,
        process: Option<ProcessSample>,
    ) -> (r: bool)
        requires
            old(self).wf(),
            now <= u64::MAX / 1000,
        ensures
            final(self).wf(),
            r <==> !has_kind(old(self).findings_view(), growth_kind(pid, started_at)) && cooled_down(
                old(self).alerts(),
                growth_kind(pid, started_at),
                now,
            ),
            has_kind(old(self).findings_view(), growth_kind(pid, started_at)) ==> *final(self)
                == *old(self),
            !has_kind(old(self).findings_view(), growth_kind(pid, started_at)) ==> raised(
                *old(self),
                *final(self),
                now,
                growth_kind(pid, started_at),
                "warning"@,
                title@,
                message,
                evidence,
                process,
                r,
            ),
    {
        let kind = growth_finding_kind(pid, started_at);
        if self.has_finding_kind(kind.as_str()) {
            return false;
        }
        proof {
            reveal_strlit("warning");
        }
        self.add_finding(now, kind.as_str(), "warning", title, message, evidence, process)
    }

    fn finding_index(&self, kind: &str) -> (r: Option<usize>)
        ensures
            match r {
                Some(i) => i < self.findings@.len() && self.findings@[i as int].kind@ == kind@
                    && forall|j: int| 0 <= j < i ==> (#[trigger] self.findings@[j]).kind@ != kind@,
                None => !has_kind(self.findings@, kind@),
            },
    {
        let mut i: usize = 0;
        while i < self.findings.len()
            invariant
                i <= self.findings@.len(),
                forall|j: int| 0 <= j < i ==> (#[trigger] self.findings@[j]).kind@ != kind@,
            decreases self.findings@.len() - i,
        {
            if str_eq(self.findings[i].kind.as_str(), kind) {
                return Some(i);
            }
            i = i + 1;
        }
        None
    }

    /// Refreshes the open low-disk-space finding, if there is one, with a new
    /// severity and message; returns whether there was one.
    pub fn update_disk_finding(&mut self, severity: &str, message: String) -> (r: bool)
        requires
            old(self).wf(),
        ensures
            final(self).wf(),
            r == has_kind(old(self).findings_view(), "disk.space_low"@),
            !r ==> final(self).findings_view() == old(self).findings_view(),
            r ==> exists|i: int|
                #![trigger old(self).findings_view()[i]]
                0 <= i < old(self).findings_view().len() && old(self).findings_view()[i].kind@
                    == "disk.space_low"@ && (forall|j: int|
                    0 <= j < i ==> (#[trigger] old(self).findings_view()[j]).kind@
                        != "disk.space_low"@) && final(self).findings_view() == old(
                    self,
                ).findings_view().update(
                    i,
                    Finding {
                        severity: final(self).findings_view()[i].severity,
                        message,
                        ..old(self).findings_view()[i]
                    },
                ) && final(self).findings_view()[i].severity@ == severity@,
            final(self).timeline_view() == old(self).timeline_view(),
            final(self).alerts() == old(self).alerts(),
            final(self).disk_run() == old(self).disk_run(),
            final(self).network_run() == old(self).network_run(),
    {
        match self.finding_index("disk.space_low") {
            Some(i) => {
                let mut f = self.findings.remove(i);
                f.severity = String::from_str(severity);
                f.message = message;
                self.findings.insert(i, f);
                proof {
                    let ghost g = self.findings@[i as int];
                    assert(self.findings@ =~= old(self).findings@.update(i as int, g));
                }
                true
            },
            None => false,
        }
    }

    /// Counts one throughput reading against each baseline and records it.
    /// Returns, for disk and for network, the median and MAD where a spike
    /// finding is due: three outlying readings in a row and no such finding open.
    pub fn observe_traffic(&mut self, disk_bps: u64, network_bps: u64) -> (r: (
        Option<(u64, u64)>,
        Option<(u64, u64)>,
    ))
        requires
            old(self).wf(),
        ensures
            final(self).wf(),
            final(self).disk_run() == next_count(
                old(self).disk_run(),
                is_outlier(old(self).disk_history(), disk_bps, 20971520u64),
            ),
            final(self).network_run() == next_count(
                old(self).network_run(),
                is_outlier(old(self).network_history(), network_bps, 10485760u64),
            ),
            final(self).disk_history() == if old(self).disk_history().len() < 900 {
                old(self).disk_history().push(disk_bps)
            } else {
                old(self).disk_history()
            },
            final(self).network_history() == if old(self).network_history().len() < 900 {
                old(self).network_history().push(network_bps)
            } else {
                old(self).network_history()
            },
            r.0 == if final(self).disk_run() >= 3 && !has_kind(
                old(self).findings_view(),
                "disk.io_spike"@,
            ) {
                Some((median(old(self).disk_history()), mad(old(self).disk_history())))
            } else {
                None
            },
            r.1 == if final(self).network_run() >= 3 && !has_kind(
                old(self).findings_view(),
                "network.traffic_spike"@,
            ) {
                Some((median(old(self).network_history()), mad(old(self).network_history())))
            } else {
                None
            },
            final(self).findings_view() == old(self).findings_view(),
            final(self).timeline_view() == old(self).timeline_view(),
            final(self).alerts() == old(self).alerts(),
            final(self).cpu_run() == old(self).cpu_run(),
            final(self).memory_run() == old(self).memory_run(),
    {
        let disk = self.disk_baseline.assess(disk_bps, 20 * 1024 * 1024);
        self.disk_anomaly_samples = count_sample(self.disk_anomaly_samples, disk.is_some());
        self.disk_baseline.push(disk_bps);
        let disk_due = if self.disk_anomaly_samples >= 3 && !self.has_finding_kind("disk.io_spike") {
            disk
        } else {
            None
        };
        let network = self.network_baseline.assess(network_bps, 10 * 1024 * 1024);
        self.network_anomaly_samples = count_sample(self.network_anomaly_samples, network.is_some());
        self.network_baseline.push(network_bps);
        let network_due = if self.network_anomaly_samples >= 3 && !self.has_finding_kind(
            "network.traffic_spike",
        ) {
            network
        } else {
            None
        };
        (disk_due, network_due)
    }
}

} // verus!

verus! {

/// The memory reading of one application in a patrol round.
pub struct AppMemory {
    pub pid: u32,
    pub started_at: u64,
    pub memory_bytes: u64,
}

/// The readings kept for the application `(pid, started_at)`, by its first track.
pub open spec fn track_of(ts: Seq<MemoryTrack>, pid: u32, started_at: u64) -> Seq<(u64, u64)>
    decreases ts.len(),
{
    if ts.len() == 0 {
        seq![]
    } else if ts[0].pid == pid && ts[0].started_at == started_at {
        ts[0].readings@
    } else {
        track_of(ts.drop_first(), pid, started_at)
    }
}

/// Whether a reading taken at `at` is more than 30 minutes older than `now`.
pub open spec fn stale(at: u64, now: u64) -> bool {
    now >= at && now - at > 30 * 60
}

/// Readings without their stale leading entries.
pub open spec fn prune(r: Seq<(u64, u64)>, now: u64) -> Seq<(u64, u64)>
    decreases r.len(),
{
    if r.len() > 0 && stale(r[0].0, now) {
        prune(r.drop_first(), now)
    } else {
        r
    }
}

/// An application's readings after this round's reading is added.
pub open spec fn updated_readings(ts: Seq<MemoryTrack>, a: AppMemory, now: u64) -> Seq<(u64, u64)> {
    prune(track_of(ts, a.pid, a.started_at).push((now, a.memory_bytes)), now)
}

/// Growth found in the updated readings of `apps[i]`.
pub open spec fn growth_at(ts: Seq<MemoryTrack>, apps: Seq<AppMemory>, now: u64, i: int) -> Option<(u64, u64)> {
    let r = updated_readings(ts, apps[i], now);
    growth_of(r[0], r[r.len() - 1])
}

/// The applications among the first `n` that show sustained growth, with the
/// growth and the span it was measured over.
pub open spec fn growth_list(ts: Seq<MemoryTrack>, apps: Seq<AppMemory>, now: u64, n: int) -> Seq<(usize, u64, u64)>
    decreases n,
{
    if n <= 0 {
        seq![]
    } else {
        let prev = growth_list(ts, apps, now, n - 1);
        match growth_at(ts, apps, now, n - 1) {
            Some(g) => prev.push(((n - 1) as usize, g.0, g.1)),
            None => prev,
        }
    }
}

proof fn lemma_track_found(ts: Seq<MemoryTrack>, j: int, pid: u32, started_at: u64)
    requires
        0 <= j < ts.len(),
        ts[j].pid == pid && ts[j].started_at == started_at,
        forall|k: int| 0 <= k < j ==> !(ts[k].pid == pid && ts[k].started_at == started_at),
    ensures
        track_of(ts, pid, started_at) == ts[j].readings@,
    decreases ts.len(),
{
    if j > 0 {
        lemma_track_found(ts.drop_first(), j - 1, pid, started_at);
    }
}

proof fn lemma_track_absent(ts: Seq<MemoryTrack>, pid: u32, started_at: u64)
    requires
        forall|k: int| 0 <= k < ts.len() ==> !(ts[k].pid == pid && ts[k].started_at == started_at),
    ensures
        track_of(ts, pid, started_at) == Seq::<(u64, u64)>::empty(),
    decreases ts.len(),
{
    if ts.len() > 0 {
        lemma_track_absent(ts.drop_first(), pid, started_at);
    }
}

proof fn lemma_prune_keeps_last(r: Seq<(u64, u64)>, now: u64)
    requires
        r.len() > 0,
        !stale(r[r.len() - 1].0, now),
    ensures
        prune(r, now).len() > 0,
        prune(r, now)[prune(r, now).len() - 1] == r[r.len() - 1],
    decreases r.len(),
{
    if r.len() > 0 && stale(r[0].0, now) {
        lemma_prune_keeps_last(r.drop_first(), now);
    }
}

fn find_track(ts: &Vec<MemoryTrack>, pid: u32, started_at: u64) -> (r: Option<usize>)
    ensures
        match r {
            Some(j) => j < ts@.len() && track_of(ts@, pid, started_at) == ts@[j as int].readings@,
            None => track_of(ts@, pid, started_at) == Seq::<(u64, u64)>::empty(),
        },
{
    let mut j: usize = 0;
    while j < ts.len()
        invariant
            j <= ts@.len(),
            forall|k: int| 0 <= k < j ==> !(ts@[k].pid == pid && ts@[k].started_at == started_at),
        decreases ts@.len() - j,
    {
        if ts[j].pid == pid && ts[j].started_at == started_at {
            proof {
                lemma_track_found(ts@, j as int, pid, started_at);
            }
            return Some(j);
        }
        j = j + 1;
    }
    proof {
        lemma_track_absent(ts@, pid, started_at);
    }
    None
}

impl Detector {
    /// The applications whose memory was tracked last round.
    pub closed spec fn tracks(&self) -> Seq<MemoryTrack> {
        self.memory_history@
    }

    /// The applications that showed sustained growth last round.
    pub closed spec fn growing_keys(&self) -> Seq<(u32, u64)> {
        self.growing@
    }

    /// Adds this round's memory reading of each application to its history,
    /// drops readings older than 30 minutes and forgets applications that are
    /// gone. Returns the applications (by index) that show sustained growth.
    pub fn observe_memory(&mut self, now: u64, apps: &Vec<AppMemory>) -> (r: Vec<(usize, u64, u64)>)
        requires
            old(self).wf(),
        ensures
            final(self).wf(),
            final(self).tracks().len() == apps@.len(),
            forall|i: int|
                0 <= i < apps@.len() ==> {
                    &&& (#[trigger] final(self).tracks()[i]).pid == apps@[i].pid
                    &&& final(self).tracks()[i].started_at == apps@[i].started_at
                    &&& final(self).tracks()[i].readings@ == updated_readings(
                        old(self).tracks(),
                        apps@[i],
                        now,
                    )
                },
            r@ == growth_list(old(self).tracks(), apps@, now, apps@.len() as int),
            final(self).growing_keys() == r@.map_values(
                |c: (usize, u64, u64)| (apps@[c.0 as int].pid, apps@[c.0 as int].started_at),
            ),
            final(self).findings_view() == old(self).findings_view(),
            final(self).timeline_view() == old(self).timeline_view(),
            final(self).alerts() == old(self).alerts(),
            final(self).cpu_run() == old(self).cpu_run(),
            final(self).memory_run() == old(self).memory_run(),
            final(self).disk_run() == old(self).disk_run(),
            final(self).network_run() == old(self).network_run(),
    {
        let ghost old_tracks = self.memory_history@;
        let mut tracks: Vec<MemoryTrack> = Vec::new();
        let mut found: Vec<(usize, u64, u64)> = Vec::new();
        let mut growing: Vec<(u32, u64)> = Vec::new();
        let mut i: usize = 0;
        while i < apps.len()
            invariant
                i <= apps@.len(),
                old_tracks == self.memory_history@,
                tracks@.len() == i,
                forall|k: int|
                    0 <= k < i ==> {
                        &&& (#[trigger] tracks@[k]).pid == apps@[k].pid
                        &&& tracks@[k].started_at == apps@[k].started_at
                        &&& tracks@[k].readings@ == updated_readings(old_tracks, apps@[k], now)
                    },
                found@ == growth_list(old_tracks, apps@, now, i as int),
                growing@ == found@.map_values(
                    |c: (usize, u64, u64)| (apps@[c.0 as int].pid, apps@[c.0 as int].started_at),
                ),
                forall|k: int| 0 <= k < found@.len() ==> (#[trigger] found@[k]).0 < i,
            decreases apps@.len() - i,
        {
            let app = &apps[i];
            let mut readings: VecDeque<(u64, u64)> = VecDeque::new();
            match find_track(&self.memory_history, app.pid, app.started_at) {
                Some(j) => {
                    let n = self.memory_history[j].readings.len();
                    let mut k: usize = 0;
                    while k < n
                        invariant
                            j < self.memory_history@.len(),
                            n == self.memory_history@[j as int].readings@.len(),
                            k <= n,
                            readings@ == self.memory_history@[j as int].readings@.take(k as int),
                        decreases n - k,
                    {
                        readings.push_back(self.memory_history[j].readings[k]);
                        assert(self.memory_history@[j as int].readings@.take(k + 1)
                            =~= self.memory_history@[j as int].readings@.take(k as int).push(
                            self.memory_history@[j as int].readings@[k as int],
                        ));
                        k = k + 1;
                    }
                    assert(self.memory_history@[j as int].readings@.take(n as int)
                        =~= self.memory_history@[j as int].readings@);
                },
                None => {},
            }
            readings.push_back((now, app.memory_bytes));
            let ghost full = readings@;
            assert(full == track_of(old_tracks, app.pid, app.started_at).push((now, app.memory_bytes)));
            while readings.len() > 0 && now >= readings[0].0 && now - readings[0].0 > 30 * 60
                invariant
                    prune(readings@, now) == prune(full, now),
                decreases readings@.len(),
            {
                let ghost before = readings@;
                let _ = readings.pop_front();
                assert(readings@ =~= before.drop_first());
            }
            assert(prune(readings@, now) == readings@);
            proof {
                lemma_prune_keeps_last(full, now);
            }
            let g = memory_growth(&readings);
            let ghost prev_found = found@;
            match g {
                Some((growth, span)) => {
                    found.push((i, growth, span));
                    growing.push((app.pid, app.started_at));
                    proof {
                        assert(growing@ =~= found@.map_values(
                            |c: (usize, u64, u64)| (apps@[c.0 as int].pid, apps@[c.0 as int].started_at),
                        ));
                    }
                },
                None => {},
            }
            assert(found@ == growth_list(old_tracks, apps@, now, i + 1));
            tracks.push(MemoryTrack { pid: app.pid, started_at: app.started_at, readings });
            i = i + 1;
        }
        self.memory_history = tracks;
        self.growing = growing;
        found
    }
}

} // verus!

verus! {

/// Whether an open finding has cleared, given this round's readings.
pub open spec fn resolved(
    f: Finding,
    cpu_recovered: bool,
    memory_recovered: bool,
    disk_space_recovered: bool,
    disk_run: u8,
    network_run: u8,
    growing: Seq<(u32, u64)>,
) -> bool {
    ||| f.kind@ == "cpu.sustained_high"@ && cpu_recovered
    ||| f.kind@ == "memory.pressure"@ && memory_recovered
    ||| f.kind@ == "disk.space_low"@ && disk_space_recovered
    ||| f.kind@ == "disk.io_spike"@ && disk_run == 0
    ||| f.kind@ == "network.traffic_spike"@ && network_run == 0
    ||| crate::text::starts_with(f.kind@, "process.memory_growth:"@) && match f.process {
        None => true,
        Some(p) => !growing.contains((p.pid, p.started_at)),
    }
}

impl Detector {
    fn is_growing(&self, pid: u32, started_at: u64) -> (r: bool)
        ensures
            r == self.growing@.contains((pid, started_at)),
    {
        let mut i: usize = 0;
        while i < self.growing.len()
            invariant
                i <= self.growing@.len(),
                forall|j: int| 0 <= j < i ==> self.growing@[j] != (pid, started_at),
            decreases self.growing@.len() - i,
        {
            if self.growing[i].0 == pid && self.growing[i].1 == started_at {
                assert(self.growing@[i as int] == (pid, started_at));
                return true;
            }
            i = i + 1;
        }
        false
    }

    fn clears(
        &self,
        f: &Finding,
        cpu_recovered: bool,
        memory_recovered: bool,
        disk_space_recovered: bool,
    ) -> (r: bool)
        ensures
            r == resolved(
                *f,
                cpu_recovered,
                memory_recovered,
                disk_space_recovered,
                self.disk_anomaly_samples,
                self.network_anomaly_samples,
                self.growing@,
            ),
    {
        let k = f.kind.as_str();
        if str_eq(k, "cpu.sustained_high") && cpu_recovered {
            return true;
        }
        if str_eq(k, "memory.pressure") && memory_recovered {
            return true;
        }
        if str_eq(k, "disk.space_low") && disk_space_recovered {
            return true;
        }
        if str_eq(k, "disk.io_spike") && self.disk_anomaly_samples == 0 {
            return true;
        }
        if str_eq(k, "network.traffic_spike") && self.network_anomaly_samples == 0 {
            return true;
        }
        if crate::text::str_starts_with(k, "process.memory_growth:") {
            return match &f.process {
                None => true,
                Some(p) => !self.is_growing(p.pid, p.started_at),
            };
        }
        false
    }

    /// Closes the findings whose cause has cleared and returns them; when any
    /// closed, the timeline records that the pressure has eased.
    pub fn resolve(
        &mut self,
        now: u64,
        cpu_recovered: bool,
        memory_recovered: bool,
        disk_space_recovered: bool,
    ) -> (removed: Vec<Finding>)
        requires
            old(self).wf(),
            now <= u64::MAX / 1000,
        ensures
            final(self).wf(),
            final(self).findings_view() == old(self).findings_view().filter(
                |f: Finding|
                    !resolved(
                        f,
                        cpu_recovered,
                        memory_recovered,
                        disk_space_recovered,
                        old(self).disk_run(),
                        old(self).network_run(),
                        old(self).growing_keys(),
                    ),
            ),
            removed@ == old(self).findings_view().filter(
                |f: Finding|
                    resolved(
                        f,
                        cpu_recovered,
                        memory_recovered,
                        disk_space_recovered,
                        old(self).disk_run(),
                        old(self).network_run(),
                        old(self).growing_keys(),
                    ),
            ),
            removed@.len() == 0 ==> final(self).timeline_view() == old(self).timeline_view(),
            removed@.len() > 0 ==> exists|e: TimelineEvent|
                #![trigger with_event(old(self).timeline_view(), e)]
                final(self).timeline_view() == with_event(old(self).timeline_view(), e)
                    && e.kind@ == "resolved"@ && e.message@ == "刚才的资源压力已经恢复"@,
            final(self).alerts() == old(self).alerts(),
            final(self).cpu_run() == old(self).cpu_run(),
            final(self).memory_run() == old(self).memory_run(),
            final(self).disk_run() == old(self).disk_run(),
            final(self).network_run() == old(self).network_run(),
            final(self).growing_keys() == old(self).growing_keys(),
    {
        let ghost keep = |f: Finding|
            !resolved(
                f,
                cpu_recovered,
                memory_recovered,
                disk_space_recovered,
                self.disk_anomaly_samples,
                self.network_anomaly_samples,
                self.growing@,
            );
        let ghost drop = |f: Finding|
            resolved(
                f,
                cpu_recovered,
                memory_recovered,
                disk_space_recovered,
                self.disk_anomaly_samples,
                self.network_anomaly_samples,
                self.growing@,
            );
        let ghost all = self.findings@;
        let mut rest: Vec<Finding> = Vec::new();
        std::mem::swap(&mut rest, &mut self.findings);
        let mut kept: Vec<Finding> = Vec::new();
        let mut removed: Vec<Finding> = Vec::new();
        let n = rest.len();
        let mut k: usize = 0;
        while k < n
            invariant
                n == all.len(),
                k <= n,
                rest@ == all.skip(k as int),
                kept@ == all.take(k as int).filter(keep),
                removed@ == all.take(k as int).filter(drop),
                self.disk_anomaly_samples == old(self).disk_anomaly_samples,
                self.network_anomaly_samples == old(self).network_anomaly_samples,
                self.growing@ == old(self).growing@,
                keep == (|f: Finding|
                    !resolved(
                        f,
                        cpu_recovered,
                        memory_recovered,
                        disk_space_recovered,
                        self.disk_anomaly_samples,
                        self.network_anomaly_samples,
                        self.growing@,
                    )),
                drop == (|f: Finding|
                    resolved(
                        f,
                        cpu_recovered,
                        memory_recovered,
                        disk_space_recovered,
                        self.disk_anomaly_samples,
                        self.network_anomaly_samples,
                        self.growing@,
                    )),
            decreases n - k,
        {
            let f = rest.remove(0);
            let gone = self.clears(&f, cpu_recovered, memory_recovered, disk_space_recovered);
            proof {
                assert(all.take(k + 1).drop_last() =~= all.take(k as int));
                assert(all.take(k + 1).last() == f);
                assert(all.skip(k + 1) =~= all.skip(k as int).subrange(1, (n - k) as int));
            }
            let ghost g = f;
            proof {
                assert(drop(g) == gone);
                assert(keep(g) == !gone);
                let t = all.take(k + 1);
                assert(t.len() == k + 1);
                reveal_with_fuel(Seq::filter, 2);
                assert(t.filter(keep) == (if keep(t.last()) {
                    t.drop_last().filter(keep).push(t.last())
                } else {
                    t.drop_last().filter(keep)
                }));
                assert(t.filter(drop) == (if drop(t.last()) {
                    t.drop_last().filter(drop).push(t.last())
                } else {
                    t.drop_last().filter(drop)
                }));
            }
            if gone {
                removed.push(f);
            } else {
                kept.push(f);
            }
            k = k + 1;
        }
        proof {
            assert(all.take(n as int) =~= all);
            lemma_filter_keeps_kinds_distinct(all, keep);
        }
        self.findings = kept;
        if removed.len() > 0 {
            let ghost before = self.timeline@;
            self.push_event(now, "resolved", "刚才的资源压力已经恢复");
            proof {
                let e = choose|e: TimelineEvent|
                    #![trigger with_event(before, e)]
                    self.timeline@ == with_event(before, e) && e.occurred_at == now * 1000
                        && e.kind@ == "resolved"@ && e.message@ == "刚才的资源压力已经恢复"@;
                assert(self.timeline_view() == with_event(old(self).timeline_view(), e));
            }
        }
        removed
    }

    /// Forgets the open findings and the timeline, then records a fresh start.
    pub fn clear(&mut self, now: u64)
        requires
            old(self).wf(),
            now <= u64::MAX / 1000,
        ensures
            final(self).wf(),
            final(self).findings_view().len() == 0,
            exists|e: TimelineEvent|
                #![trigger with_event(Seq::<TimelineEvent>::empty(), e)]
                final(self).timeline_view() == with_event(Seq::<TimelineEvent>::empty(), e)
                    && e.kind@ == "patrol"@ && e.message@ == "旧的本地记忆已经清除，从现在重新开始巡逻"@,
    {
        self.timeline = Vec::new();
        self.findings = Vec::new();
        self.push_event(now, "patrol", "旧的本地记忆已经清除，从现在重新开始巡逻");
    }
}

} // verus!
