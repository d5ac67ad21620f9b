//! Previews and confirmations of actions on processes: a preview names one
//! verified process, expires after 30 seconds and can be confirmed once.
use vstd::prelude::*;
use crate::process::{critical, is_critical, ProcessSample};
use crate::text::str_eq;
use crate::detector::{with_event, Detector};
use crate::types::{ActionResult, TimelineEvent, VerificationStatus};

verus! {

/// What the patrol read of a process just before an action on it.
pub struct ProcessProbe {
    pub parent_pid: Option<u32>,
    pub started_at: u64,
    pub name: String,
    pub cpu_bits: u32,
    pub memory_bytes: u64,
    pub handle_count: Option<usize>,
    pub executable_path: Option<String>,
}

/// A process priority the user may choose.
#[derive(Clone, Copy, Debug, PartialEq, Eq, Structural)]
pub enum PriorityLevel {
    BelowNormal,
    Normal,
    AboveNormal,
}

/// The action a preview stands for.
#[derive(Clone, Copy, Debug, PartialEq, Eq, Structural)]
pub enum PendingKind {
    Terminate,
    SetPriority(PriorityLevel),
}

/// What the user is shown before confirming an action.
#[derive(Clone, Debug)]
pub struct ActionPreview {
    pub preview_id: String,
    pub action: String,
    pub risk_level: String,
    pub allowed: bool,
    pub title: String,
    pub warning: String,
    pub target: ProcessSample,
    pub expires_at: u64,
}

impl ActionPreview {
    /// An exact copy of the preview.
    pub fn duplicate(&self) -> (r: Self)
        ensures
            r == *self,
    {
        ActionPreview {
            preview_id: self.preview_id.clone(),
            action: self.action.clone(),
            risk_level: self.risk_level.clone(),
            allowed: self.allowed,
            title: self.title.clone(),
            warning: self.warning.clone(),
            target: self.target.duplicate(),
            expires_at: self.expires_at,
        }
    }
}

/// A preview waiting for confirmation, with the action it stands for.
#[derive(Debug)]
pub struct PendingAction {
    pub preview: ActionPreview,
    pub kind: PendingKind,
}

/// The previews keyed by their ids, the later entry winning.
pub open spec fn pending_map(s: Seq<PendingAction>) -> Map<Seq<char>, PendingAction>
    decreases s.len(),
{
    if s.len() == 0 {
        Map::empty()
    } else {
        pending_map(s.drop_last()).insert(s.last().preview.preview_id@, s.last())
    }
}

/// Whether no two entries share an id.
pub open spec fn ids_distinct(s: Seq<PendingAction>) -> bool {
    forall|i: int, j: int|
        0 <= i < s.len() && 0 <= j < s.len() && i != j ==> s[i].preview.preview_id@
            != s[j].preview.preview_id@
}

proof fn lemma_map_contains(s: Seq<PendingAction>, k: Seq<char>)
    ensures
        pending_map(s).contains_key(k) <==> exists|i: int|
            0 <= i < s.len() && s[i].preview.preview_id@ == k,
    decreases s.len(),
{
    if s.len() > 0 {
        lemma_map_contains(s.drop_last(), k);
        if pending_map(s).contains_key(k) && s.last().preview.preview_id@ != k {
            let i = choose|i: int| 0 <= i < s.len() - 1 && s.drop_last()[i].preview.preview_id@ == k;
            assert(s[i].preview.preview_id@ == k);
        }
        if exists|i: int| 0 <= i < s.len() && s[i].preview.preview_id@ == k {
            let i = choose|i: int| 0 <= i < s.len() && s[i].preview.preview_id@ == k;
            if i < s.len() - 1 {
                assert(s.drop_last()[i].preview.preview_id@ == k);
            }
        }
    }
}

proof fn lemma_map_value(s: Seq<PendingAction>, i: int)
    requires
        ids_distinct(s),
        0 <= i < s.len(),
    ensures
        pending_map(s).contains_key(s[i].preview.preview_id@),
        pending_map(s)[s[i].preview.preview_id@] == s[i],
    decreases s.len(),
{
    if i < s.len() - 1 {
        lemma_map_value(s.drop_last(), i);
        assert(s.drop_last()[i] == s[i]);
    }
}

proof fn lemma_map_remove(s: Seq<PendingAction>, i: int)
    requires
        ids_distinct(s),
        0 <= i < s.len(),
    ensures
        pending_map(s.remove(i)) == pending_map(s).remove(s[i].preview.preview_id@),
        ids_distinct(s.remove(i)),
    decreases s.len(),
{
    let k = s[i].preview.preview_id@;
    if i == s.len() - 1 {
        assert(s.remove(i) =~= s.drop_last());
        lemma_map_contains(s.drop_last(), k);
        assert(!pending_map(s.drop_last()).contains_key(k)) by {
            if pending_map(s.drop_last()).contains_key(k) {
                let j = choose|j: int| 0 <= j < s.len() - 1 && s.drop_last()[j].preview.preview_id@ == k;
                assert(s[j].preview.preview_id@ == k);
            }
        }
        assert(pending_map(s.drop_last()) =~= pending_map(s).remove(k));
    } else {
        lemma_map_remove(s.drop_last(), i);
        assert(s.remove(i).drop_last() =~= s.drop_last().remove(i));
        assert(s.remove(i).last() == s.last());
        assert(s.last().preview.preview_id@ != k);
        assert(pending_map(s.remove(i)) =~= pending_map(s).remove(k));
    }
}

proof fn lemma_map_push(s: Seq<PendingAction>, x: PendingAction)
    requires
        ids_distinct(s),
        forall|j: int| 0 <= j < s.len() ==> s[j].preview.preview_id@ != x.preview.preview_id@,
    ensures
        pending_map(s.push(x)) == pending_map(s).insert(x.preview.preview_id@, x),
        ids_distinct(s.push(x)),
{
    assert(s.push(x).drop_last() =~= s);
}

/// Whether a preview is still valid at `now` (seconds).
pub open spec fn live_at(p: PendingAction, now: u64) -> bool {
    p.preview.expires_at >= now * 1000
}

/// The entries still valid at `now` (seconds).
pub open spec fn live_entries(s: Seq<PendingAction>, now: u64) -> Seq<PendingAction> {
    s.filter(|p: PendingAction| live_at(p, now))
}

proof fn lemma_map_filter(s: Seq<PendingAction>, now: u64)
    requires
        ids_distinct(s),
    ensures
        ids_distinct(live_entries(s, now)),
        forall|k: Seq<char>|
            #[trigger] pending_map(live_entries(s, now)).contains_key(k)
                <==> pending_map(s).contains_key(k) && live_at(pending_map(s)[k], now),
        forall|k: Seq<char>|
            pending_map(live_entries(s, now)).contains_key(k) ==> #[trigger] pending_map(
                live_entries(s, now),
            )[k] == pending_map(s)[k],
    decreases s.len(),
{
    let f = |p: PendingAction| live_at(p, now);
    if s.len() > 0 {
        let t = s.drop_last();
        assert(ids_distinct(t));
        lemma_map_filter(t, now);
        assert(live_entries(t, now) == t.filter(f));
        assert(live_entries(s, now) == s.filter(f));
        s.filter_lemma(f);
        t.filter_lemma(f);
        lemma_map_contains(t, s.last().preview.preview_id@);
        assert(!pending_map(t).contains_key(s.last().preview.preview_id@)) by {
            if pending_map(t).contains_key(s.last().preview.preview_id@) {
                let j = choose|j: int|
                    0 <= j < t.len() && t[j].preview.preview_id@ == s.last().preview.preview_id@;
                assert(s[j].preview.preview_id@ == s[s.len() - 1].preview.preview_id@);
            }
        }
        reveal_with_fuel(Seq::filter, 2);
        assert(s.filter(f) == if f(s.last()) {
            t.filter(f).push(s.last())
        } else {
            t.filter(f)
        });
        if f(s.last()) {
            assert(t.filter(f).push(s.last()).drop_last() =~= t.filter(f));
            assert forall|j: int| 0 <= j < t.filter(f).len() implies t.filter(f)[j].preview.preview_id@
                != s.last().preview.preview_id@ by {
                let x = t.filter(f)[j];
                assert(t.filter(f).contains(x));
                t.lemma_filter_contains_rev(f, x);
                assert(t.contains(x));
                let m = choose|m: int| 0 <= m < t.len() && t[m] == x;
                assert(s[m] == x);
            }
            assert(pending_map(live_entries(s, now)) == pending_map(live_entries(t, now)).insert(
                s.last().preview.preview_id@,
                s.last(),
            ));
        } else {
            assert(pending_map(live_entries(s, now)) == pending_map(live_entries(t, now)));
        }
        assert(pending_map(s) == pending_map(t).insert(s.last().preview.preview_id@, s.last()));
        assert forall|k: Seq<char>|
            #[trigger] pending_map(live_entries(s, now)).contains_key(k)
                <==> pending_map(s).contains_key(k) && live_at(pending_map(s)[k], now) by {
            if k != s.last().preview.preview_id@ {
                assert(pending_map(t).contains_key(k) == pending_map(s).contains_key(k));
            }
        }
        assert forall|k: Seq<char>|
            pending_map(live_entries(s, now)).contains_key(k) implies #[trigger] pending_map(
                live_entries(s, now),
            )[k] == pending_map(s)[k] by {
            if k != s.last().preview.preview_id@ {
                assert(pending_map(live_entries(t, now)).contains_key(k));
            }
        }
    }
}

/// The previews waiting for confirmation.
pub struct PendingActions {
    entries: Vec<PendingAction>,
}

impl PendingActions {
    /// The waiting previews by id.
    pub closed spec fn view(&self) -> Map<Seq<char>, PendingAction> {
        pending_map(self.entries@)
    }

    /// No two previews share an id.
    pub closed spec fn wf(&self) -> bool {
        ids_distinct(self.entries@)
    }

    /// No preview is waiting.
    pub fn new() -> (r: Self)
        ensures
            r.wf(),
            r.view() == Map::<Seq<char>, PendingAction>::empty(),
    {
        PendingActions { entries: Vec::new() }
    }

    fn index_of(&self, id: &str) -> (r: Option<usize>)
        ensures
            match r {
                Some(i) => i < self.entries@.len() && self.entries@[i as int].preview.preview_id@
                    == id@,
                None => forall|j: int|
                    0 <= j < self.entries@.len() ==> self.entries@[j].preview.preview_id@ != id@,
            },
    {
        let mut i: usize = 0;
        while i < self.entries.len()
            invariant
                i <= self.entries@.len(),
                forall|j: int| 0 <= j < i ==> self.entries@[j].preview.preview_id@ != id@,
            decreases self.entries@.len() - i,
        {
            if str_eq(self.entries[i].preview.preview_id.as_str(), id) {
                return Some(i);
            }
            i = i + 1;
        }
        None
    }

    /// Adds a preview, replacing any with the same id.
    pub fn insert(&mut self, p: PendingAction)
        requires
            old(self).wf(),
        ensures
            final(self).wf(),
            final(self).view() == old(self).view().insert(p.preview.preview_id@, p),
    {
        let ghost k = p.preview.preview_id@;
        match self.index_of(p.preview.preview_id.as_str()) {
            Some(i) => {
                let ghost before = self.entries@;
                let _ = self.entries.remove(i);
                proof {
                    lemma_map_remove(before, i as int);
                    assert forall|j: int| 0 <= j < self.entries@.len() implies self.entries@[j].preview.preview_id@
                        != k by {
                        if j < i {
                            assert(self.entries@[j] == before[j]);
                        } else {
                            assert(self.entries@[j] == before[j + 1]);
                        }
                    }
                    lemma_map_push(self.entries@, p);
                    assert(pending_map(before).remove(k).insert(k, p) =~= pending_map(before).insert(k, p));
                }
                self.entries.push(p);
            },
            None => {
                proof {
                    lemma_map_push(self.entries@, p);
                }
                self.entries.push(p);
            },
        }
    }

    /// Takes the preview with this id out, whatever its state.
    pub fn remove(&mut self, id: &str) -> (r: Option<PendingAction>)
        requires
            old(self).wf(),
        ensures
            final(self).wf(),
            final(self).view() == old(self).view().remove(id@),
            match r {
                Some(p) => old(self).view().contains_key(id@) && p == old(self).view()[id@],
                None => !old(self).view().contains_key(id@),
            },
    {
        match self.index_of(id) {
            Some(i) => {
                let ghost before = self.entries@;
                proof {
                    lemma_map_remove(before, i as int);
                    lemma_map_value(before, i as int);
                }
                let p = self.entries.remove(i);
                Some(p)
            },
            None => {
                proof {
                    lemma_map_contains(self.entries@, id@);
                    assert(pending_map(self.entries@).remove(id@) =~= pending_map(self.entries@));
                }
                None
            },
        }
    }

    /// Drops the previews that expired before `now` (seconds).
    pub fn expire(&mut self, now: u64)
        requires
            old(self).wf(),
            now <= u64::MAX / 1000,
        ensures
            final(self).wf(),
            forall|k: Seq<char>|
                #[trigger] final(self).view().contains_key(k) <==> old(self).view().contains_key(k)
                    && live_at(old(self).view()[k], now),
            forall|k: Seq<char>|
                final(self).view().contains_key(k) ==> #[trigger] final(self).view()[k] == old(
                    self,
                ).view()[k],
    {
        let ghost all = self.entries@;
        let ghost f = |p: PendingAction| live_at(p, now);
        let mut rest: Vec<PendingAction> = Vec::new();
        std::mem::swap(&mut rest, &mut self.entries);
        let mut kept: Vec<PendingAction> = Vec::new();
        let n = rest.len();
        let mut k: usize = 0;
        while k < n
            invariant
                n == all.len(),
                k <= n,
                rest@ == all.skip(k as int),
                kept@ == all.take(k as int).filter(f),
                f == (|p: PendingAction| live_at(p, now)),
                now <= u64::MAX / 1000,
            decreases n - k,
        {
            let p = rest.remove(0);
            proof {
                assert(all.take(k + 1).drop_last() =~= all.take(k as int));
                assert(all.take(k + 1).last() == p);
                assert(all.skip(k + 1) =~= all.skip(k as int).subrange(1, (n - k) as int));
                let t = all.take(k + 1);
                assert(t.len() == k + 1);
                reveal_with_fuel(Seq::filter, 2);
                assert(t.filter(f) == (if f(t.last()) {
                    t.drop_last().filter(f).push(t.last())
                } else {
                    t.drop_last().filter(f)
                }));
            }
            if p.preview.expires_at >= now * 1000 {
                kept.push(p);
            }
            k = k + 1;
        }
        proof {
            assert(all.take(n as int) =~= all);
            lemma_map_filter(all, now);
        }
        self.entries = kept;
    }
}

/// The preview at `now` (seconds) of an action on the process `pid` that
/// started at `started_at`, as `probe` shows it.
pub open spec fn target_of(pid: u32, started_at: u64, probe: ProcessProbe) -> ProcessSample {
    ProcessSample {
        pid,
        parent_pid: probe.parent_pid,
        started_at,
        name: probe.name,
        cpu_bits: probe.cpu_bits,
        memory_bytes: probe.memory_bytes,
        is_critical: critical(probe.name@),
        thread_count: 0,
        handle_count: probe.handle_count,
        disk_read_bps: 0,
        disk_write_bps: 0,
        executable_path: probe.executable_path,
    }
}

fn target_sample(pid: u32, started_at: u64, probe: ProcessProbe) -> (r: ProcessSample)
    ensures
        r == target_of(pid, started_at, probe),
{
    let critical = is_critical(probe.name.as_str());
    ProcessSample {
        pid,
        parent_pid: probe.parent_pid,
        started_at,
        name: probe.name,
        cpu_bits: probe.cpu_bits,
        memory_bytes: probe.memory_bytes,
        is_critical: critical,
        thread_count: 0,
        handle_count: probe.handle_count,
        disk_read_bps: 0,
        disk_write_bps: 0,
        executable_path: probe.executable_path,
    }
}

/// Whether a level name is one the user may pick.
pub open spec fn level_of(level: Seq<char>) -> Option<PriorityLevel> {
    if level == "belowNormal"@ {
        Some(PriorityLevel::BelowNormal)
    } else if level == "normal"@ {
        Some(PriorityLevel::Normal)
    } else if level == "aboveNormal"@ {
        Some(PriorityLevel::AboveNormal)
    } else {
        None
    }
}

/// The name under which the user picks a priority level.
pub open spec fn level_name(level: PriorityLevel) -> Seq<char> {
    match level {
        PriorityLevel::BelowNormal => "belowNormal"@,
        PriorityLevel::Normal => "normal"@,
        PriorityLevel::AboveNormal => "aboveNormal"@,
    }
}

/// The level kept for confirmation is the level asked for: a name is read
/// as a level exactly when it is that level's name, so "aboveNormal" raises
/// the priority, "belowNormal" lowers it and "normal" restores it.
pub proof fn law_priority_level_is_the_one_asked(name: Seq<char>, level: PriorityLevel)
    ensures
        level_of(name) == Some(level) <==> name == level_name(level),
        level_of(level_name(level)) == Some(level),
{
    reveal_strlit("belowNormal");
    reveal_strlit("normal");
    reveal_strlit("aboveNormal");
    assert("belowNormal"@.len() != "normal"@.len());
    assert("aboveNormal"@.len() != "normal"@.len());
    assert("belowNormal"@[0] != "aboveNormal"@[0]);
}

/// The label shown for a priority level.
pub open spec fn level_label(level: PriorityLevel) -> Seq<char> {
    match level {
        PriorityLevel::BelowNormal => "低于正常"@,
        PriorityLevel::AboveNormal => "高于正常"@,
        PriorityLevel::Normal => "正常"@,
    }
}

/// The outcome of preparing a termination, from the waiting previews
/// `before` to `after`.
pub open spec fn terminate_prepared(
    before: Map<Seq<char>, PendingAction>,
    after: Map<Seq<char>, PendingAction>,
    now: u64,
    pid: u32,
    started_at: u64,
    probe: Option<ProcessProbe>,
    r: Result<ActionPreview, String>,
) -> bool {
            match probe {
                None => r matches Err(e) && e@ == "目标进程已经退出"@ && after == before,
                Some(p) => if p.started_at != started_at {
                    r matches Err(e) && e@ == "目标身份已经变化，请重新查看后再操作"@ && after
                        == before
                } else {
                    r matches Ok(v) && {
                        &&& v.target == target_of(pid, started_at, p)
                        &&& v.allowed == !critical(p.name@)
                        &&& v.action@ == "terminateProcess"@
                        &&& v.risk_level@ == (if critical(p.name@) {
                            "R4"@
                        } else {
                            "R2"@
                        })
                        &&& v.title@ == (if critical(p.name@) {
                            "这个进程不能直接结束"@
                        } else {
                            "要结束 "@ + p.name@ + " 吗？"@
                        })
                        &&& v.warning@ == (if critical(p.name@) {
                            "它属于 Windows 关键组件，强行结束可能导致系统不稳定。"@
                        } else {
                            "未保存的内容可能丢失。大黄狗只会处理这一个经过校验的进程。"@
                        })
                        &&& v.expires_at == (now + 30) * 1000
                        &&& after == before.insert(
                            v.preview_id@,
                            PendingAction { preview: v, kind: PendingKind::Terminate },
                        )
                    }
                },
            }
}

/// The outcome of confirming the preview `id` at `now`, from the waiting
/// previews `before` to `after`.
pub open spec fn confirmed(
    before: Map<Seq<char>, PendingAction>,
    after: Map<Seq<char>, PendingAction>,
    id: Seq<char>,
    now: u64,
    live: Option<(u32, u64)>,
    r: Result<PendingAction, String>,
) -> bool {
    &&& after == before.remove(id)
    &&& !before.contains_key(id) ==> (r matches Err(e) && e@
                == "确认已失效，请重新发起操作"@)
    &&& before.contains_key(id) ==> {
                let p = before[id];
                if p.preview.expires_at < now * 1000 {
                    r matches Err(e) && e@ == "确认已过期，请重新检查目标"@
                } else if !p.preview.allowed || p.preview.target.is_critical {
                    r matches Err(e) && e@ == "安全策略拒绝了这个操作"@
                } else {
                    match live {
                        Some((pid, started_at)) => if pid != p.preview.target.pid {
                            r matches Err(e) && e@ == "目标进程已经退出"@
                        } else if started_at != p.preview.target.started_at {
                            r matches Err(e) && e@ == "目标身份已经变化，操作已取消"@
                        } else {
                            r == Ok::<PendingAction, String>(p)
                        },
                        None => r matches Err(e) && e@ == "目标进程已经退出"@,
                    }
                }
            }
}

impl PendingActions {
    /// Prepares the termination of the process `pid` that started at
    /// `started_at`: refused where the process is gone or is another one by
    /// now; otherwise a preview, allowed only for a non-critical process,
    /// valid for 30 seconds and kept for confirmation.
    pub fn prepare_terminate(
        &mut self,
        now: u64,
        pid: u32,
        started_at: u64,
        probe: Option<ProcessProbe>,
    ) -> (r: Result<ActionPreview, String>)
        requires
            old(self).wf(),
            now <= u64::MAX / 1000 - 30,
        ensures
            final(self).wf(),
            terminate_prepared(old(self).view(), final(self).view(), now, pid, started_at, probe, r),
    {
        let p = match probe {
            None => {
                return Err(String::from_str("目标进程已经退出"));
            },
            Some(p) => p,
        };
        if p.started_at != started_at {
            return Err(String::from_str("目标身份已经变化，请重新查看后再操作"));
        }
        let ghost gp = p;
        let target = target_sample(pid, started_at, p);
        let critical = target.is_critical;
        let title = if critical {
            String::from_str("这个进程不能直接结束")
        } else {
            crate::text::join3("要结束 ", target.name.as_str(), " 吗？")
        };
        let warning = if critical {
            String::from_str("它属于 Windows 关键组件，强行结束可能导致系统不稳定。")
        } else {
            String::from_str("未保存的内容可能丢失。大黄狗只会处理这一个经过校验的进程。")
        };
        let preview = ActionPreview {
            preview_id: crate::ids::new_id(),
            action: String::from_str("terminateProcess"),
            risk_level: if critical {
                String::from_str("R4")
            } else {
                String::from_str("R2")
            },
            allowed: !critical,
            title,
            warning,
            target,
            expires_at: (now + 30) * 1000,
        };
        let shown = preview.duplicate();
        self.insert(PendingAction { preview, kind: PendingKind::Terminate });
        Ok(shown)
    }

    /// Prepares a priority change of the process `pid` that started at
    /// `started_at`, as `prepare_terminate` does, for one of the levels
    /// "belowNormal", "normal" and "aboveNormal".
    pub fn prepare_priority(
        &mut self,
        now: u64,
        pid: u32,
        started_at: u64,
        level: &str,
        probe: Option<ProcessProbe>,
    ) -> (r: Result<ActionPreview, String>)
        requires
            old(self).wf(),
            now <= u64::MAX / 1000 - 30,
        ensures
            final(self).wf(),
            match level_of(level@) {
                None => r matches Err(e) && e@ == "不支持的优先级"@ && final(self).view() == old(
                    self,
                ).view(),
                Some(l) => match probe {
                    None => r matches Err(e) && e@ == "目标进程已经退出"@ && final(self).view()
                        == old(self).view(),
                    Some(p) => if p.started_at != started_at {
                        r matches Err(e) && e@ == "目标身份已经变化，请重新查看"@ && final(self).view()
                            == old(self).view()
                    } else {
                        r matches Ok(v) && {
                            &&& v.target == target_of(pid, started_at, p)
                            &&& v.allowed == !critical(p.name@)
                            &&& v.action@ == "setProcessPriority"@
                            &&& v.risk_level@ == (if critical(p.name@) {
                                "R4"@
                            } else {
                                "R1"@
                            })
                            &&& v.title@ == (if critical(p.name@) {
                                "不能调整关键系统进程"@
                            } else {
                                "将 "@ + p.name@ + " 的优先级设为"@ + level_label(l) + "？"@
                            })
                            &&& v.warning@ == "优先级会影响 Windows 分配 CPU 的顺序，进程重启后通常恢复默认。"@
                            &&& v.expires_at == (now + 30) * 1000
                            &&& final(self).view() == old(self).view().insert(
                                v.preview_id@,
                                PendingAction { preview: v, kind: PendingKind::SetPriority(l) },
                            )
                        }
                    },
                },
            },
    {
        let l = if str_eq(level, "belowNormal") {
            PriorityLevel::BelowNormal
        } else if str_eq(level, "normal") {
            PriorityLevel::Normal
        } else if str_eq(level, "aboveNormal") {
            PriorityLevel::AboveNormal
        } else {
            return Err(String::from_str("不支持的优先级"));
        };
        let p = match probe {
            None => {
                return Err(String::from_str("目标进程已经退出"));
            },
            Some(p) => p,
        };
        if p.started_at != started_at {
            return Err(String::from_str("目标身份已经变化，请重新查看"));
        }
        let target = target_sample(pid, started_at, p);
        let critical = target.is_critical;
        let label = match l {
            PriorityLevel::BelowNormal => "低于正常",
            PriorityLevel::AboveNormal => "高于正常",
            PriorityLevel::Normal => "正常",
        };
        let title = if critical {
            String::from_str("不能调整关键系统进程")
        } else {
            crate::text::join4("将 ", target.name.as_str(), " 的优先级设为", label).concat("？")
        };
        let preview = ActionPreview {
            preview_id: crate::ids::new_id(),
            action: String::from_str("setProcessPriority"),
            risk_level: if critical {
                String::from_str("R4")
            } else {
                String::from_str("R1")
            },
            allowed: !critical,
            title,
            warning: String::from_str("优先级会影响 Windows 分配 CPU 的顺序，进程重启后通常恢复默认。"),
            target,
            expires_at: (now + 30) * 1000,
        };
        let shown = preview.duplicate();
        self.insert(PendingAction { preview, kind: PendingKind::SetPriority(l) });
        Ok(shown)
    }

    /// Redeems a preview at `now` (seconds): it leaves the waiting set in
    /// every case, and is handed back only while unexpired and allowed for a
    /// non-critical target that still runs. `live` is the process the patrol
    /// finds under the target's pid just now, by pid and start time; `None`
    /// where there is none.
    pub fn confirm_action(&mut self, preview_id: &str, now: u64, live: Option<(u32, u64)>) -> (r: Result<
        PendingAction,
        String,
    >)
        requires
            old(self).wf(),
            now <= u64::MAX / 1000,
        ensures
            final(self).wf(),
            confirmed(old(self).view(), final(self).view(), preview_id@, now, live, r),
    {
        let p = match self.remove(preview_id) {
            None => {
                return Err(String::from_str("确认已失效，请重新发起操作"));
            },
            Some(p) => p,
        };
        if p.preview.expires_at < now * 1000 {
            return Err(String::from_str("确认已过期，请重新检查目标"));
        }
        if !p.preview.allowed || p.preview.target.is_critical {
            return Err(String::from_str("安全策略拒绝了这个操作"));
        }
        match live {
            Some((pid, started_at)) => if pid != p.preview.target.pid {
                return Err(String::from_str("目标进程已经退出"));
            } else {
                check_identity(&p.preview.target, Some(started_at))?;
            },
            None => {
                return Err(String::from_str("目标进程已经退出"));
            },
        }
        Ok(p)
    }
}

/// Checks, just before acting, that the target is still the process the
/// preview named: `started_at` is what the patrol reads now, `None` where
/// the process is gone.
pub fn check_identity(target: &ProcessSample, started_at: Option<u64>) -> (r: Result<(), String>)
    ensures
        match started_at {
            None => r matches Err(e) && e@ == "目标进程已经退出"@,
            Some(s) => if s != target.started_at {
                r matches Err(e) && e@ == "目标身份已经变化，操作已取消"@
            } else {
                r is Ok
            },
        },
{
    match started_at {
        None => Err(String::from_str("目标进程已经退出")),
        Some(s) => if s != target.started_at {
            Err(String::from_str("目标身份已经变化，操作已取消"))
        } else {
            Ok(())
        },
    }
}

/// Checks that the process whose location is to be shown is still the one
/// named by `started_at`, and gives its name and executable path.
pub fn location_target(started_at: u64, probe: Option<ProcessProbe>) -> (r: Result<(String, String), String>)
    ensures
        match probe {
            None => r matches Err(e) && e@ == "目标进程已经退出"@,
            Some(p) => if p.started_at != started_at {
                r matches Err(e) && e@ == "目标身份已经变化，请重新查看"@
            } else {
                match p.executable_path {
                    None => r matches Err(e) && e@ == "无法读取这个进程的位置"@,
                    Some(path) => r matches Ok((name, found)) && name@ == p.name@ && found@ == path@,
                }
            },
        },
{
    match probe {
        None => Err(String::from_str("目标进程已经退出")),
        Some(p) => if p.started_at != started_at {
            Err(String::from_str("目标身份已经变化，请重新查看"))
        } else {
            match p.executable_path {
                None => Err(String::from_str("无法读取这个进程的位置")),
                Some(path) => Ok((p.name, path)),
            }
        },
    }
}

/// The result of showing a process's location in the file manager.
pub fn location_result(name: &str, opened: bool) -> (r: ActionResult)
    ensures
        r.success == opened,
        r.message@ == if opened {
            "已经帮你定位到 "@ + name@ + "。"@
        } else {
            "无法打开文件位置。"@
        },
        r.action_id@.len() == 36,
{
    let message = if opened {
        crate::text::join3("已经帮你定位到 ", name, "。")
    } else {
        String::from_str("无法打开文件位置。")
    };
    ActionResult { action_id: crate::ids::new_id(), success: opened, message }
}

/// What the user is told after an action on the process `name` ran.
pub open spec fn action_text(kind: PendingKind, name: Seq<char>, success: bool) -> Seq<char> {
    match kind {
        PendingKind::Terminate => if success {
            "已向 "@ + name + " 发送结束请求，我会继续观察资源是否恢复。"@
        } else {
            "没有成功结束 "@ + name + "，可能需要管理员权限。"@
        },
        PendingKind::SetPriority(_) => if success {
            "已调整 "@ + name + " 的优先级。"@
        } else {
            "无法调整 "@ + name + "，可能需要管理员权限。"@
        },
    }
}

/// What the user is told after an action ran.
pub fn action_message(kind: PendingKind, name: &str, success: bool) -> (r: String)
    ensures
        r@ == action_text(kind, name@, success),
{
    match kind {
        PendingKind::Terminate => if success {
            crate::text::join3("已向 ", name, " 发送结束请求，我会继续观察资源是否恢复。")
        } else {
            crate::text::join3("没有成功结束 ", name, "，可能需要管理员权限。")
        },
        PendingKind::SetPriority(_) => if success {
            crate::text::join3("已调整 ", name, " 的优先级。")
        } else {
            crate::text::join3("无法调整 ", name, "，可能需要管理员权限。")
        },
    }
}

} // verus!

verus! {

/// A preview can be confirmed once: confirming the same id again reports
/// that the confirmation is no longer valid, whatever happened the first time.
pub proof fn law_confirmation_is_single_use(
    v0: Map<Seq<char>, PendingAction>,
    v1: Map<Seq<char>, PendingAction>,
    v2: Map<Seq<char>, PendingAction>,
    id: Seq<char>,
    now1: u64,
    now2: u64,
    live1: Option<(u32, u64)>,
    live2: Option<(u32, u64)>,
    r1: Result<PendingAction, String>,
    r2: Result<PendingAction, String>,
)
    requires
        confirmed(v0, v1, id, now1, live1, r1),
        confirmed(v1, v2, id, now2, live2, r2),
    ensures
        r2 matches Err(e) && e@ == "确认已失效，请重新发起操作"@,
{
}

/// A termination preview of an ordinary process, confirmed within 30
/// seconds while that same process still runs, hands back exactly that
/// process; confirmed later, it is refused as expired.
pub proof fn law_preview_expires_after_thirty_seconds(
    v0: Map<Seq<char>, PendingAction>,
    v1: Map<Seq<char>, PendingAction>,
    v2: Map<Seq<char>, PendingAction>,
    now: u64,
    pid: u32,
    started_at: u64,
    probe: ProcessProbe,
    preview: ActionPreview,
    later: u64,
    r: Result<PendingAction, String>,
)
    requires
        terminate_prepared(v0, v1, now, pid, started_at, Some(probe), Ok(preview)),
        !critical(probe.name@),
        confirmed(v1, v2, preview.preview_id@, later, Some((pid, started_at)), r),
        now <= u64::MAX / 1000 - 30,
        later <= u64::MAX / 1000,
    ensures
        later <= now + 30 ==> (r matches Ok(p) && p.kind == PendingKind::Terminate
            && p.preview.target.pid == pid && p.preview.target.started_at == started_at),
        later > now + 30 ==> (r matches Err(e) && e@ == "确认已过期，请重新检查目标"@),
{
    assert(v1.contains_key(preview.preview_id@));
}

/// A critical process can never be acted upon: a preview of it, confirmed
/// in time, is refused by the safety policy.
pub proof fn law_critical_process_is_refused(
    v0: Map<Seq<char>, PendingAction>,
    v1: Map<Seq<char>, PendingAction>,
    v2: Map<Seq<char>, PendingAction>,
    now: u64,
    pid: u32,
    started_at: u64,
    probe: ProcessProbe,
    preview: ActionPreview,
    later: u64,
    live: Option<(u32, u64)>,
    r: Result<PendingAction, String>,
)
    requires
        terminate_prepared(v0, v1, now, pid, started_at, Some(probe), Ok(preview)),
        critical(probe.name@),
        confirmed(v1, v2, preview.preview_id@, later, live, r),
        later <= now + 30,
        now <= u64::MAX / 1000 - 30,
    ensures
        r matches Err(e) && e@ == "安全策略拒绝了这个操作"@,
        !preview.allowed,
{
    assert(v1.contains_key(preview.preview_id@));
}

/// Whatever a confirmation hands back names a process that is allowed, not
/// critical, and still running under the same pid and start time.
pub proof fn law_confirmed_target_is_not_critical(
    v0: Map<Seq<char>, PendingAction>,
    v1: Map<Seq<char>, PendingAction>,
    id: Seq<char>,
    now: u64,
    live: Option<(u32, u64)>,
    p: PendingAction,
)
    requires
        confirmed(v0, v1, id, now, live, Ok(p)),
    ensures
        p.preview.allowed,
        !p.preview.target.is_critical,
        p.preview.expires_at >= now * 1000,
        live == Some((p.preview.target.pid, p.preview.target.started_at)),
{
}

} // verus!

verus! {

/// What the patrol needs in order to judge an action 15 seconds later.
pub struct VerificationContext {
    pub action_id: String,
    pub target_pid: u32,
    /// The pressure before the action, as the bits of its `f32` value.
    pub baseline_bits: u32,
    pub check_after: u64,
}

/// The observation that follows a successful termination.
pub struct Verifier {
    status: Option<VerificationStatus>,
    context: Option<VerificationContext>,
}

/// The verdict once the observation is over: improved where the pressure
/// dropped by ten points, or where the target is gone and the pressure is
/// below 85%.
pub open spec fn improvement(dropped: bool, target_gone: bool, calm: bool) -> bool {
    dropped || (target_gone && calm)
}

/// Whether `w` is observing the termination of `name` (pid `pid`) that was
/// recorded as `action_id` at `now` (seconds), with the pressure before it
/// as the bits `bits`: the status says so, and the check is due 15 seconds
/// later.
pub open spec fn observing(w: Verifier, name: Seq<char>, action_id: String, pid: u32, bits: u32, now: u64) -> bool {
    &&& w.status_view() matches Some(s) && s.target_name@ == name && s.status@ == "observing"@
        && s.message@ == "我会观察 15 秒，确认电脑是否真的轻松下来。"@ && s.started_at == now * 1000
    &&& w.context_view() == Some(
        VerificationContext { action_id, target_pid: pid, baseline_bits: bits, check_after: (now + 15) as u64 },
    )
}

/// What ending an observation at `now` did, from `w0` to `w1`, with the
/// verdict read from whether the pressure dropped, the target is gone and
/// the pressure is calm.
pub open spec fn finished(
    w0: Verifier,
    w1: Verifier,
    now: u64,
    dropped: bool,
    target_gone: bool,
    calm: bool,
    r: Option<(String, String, String)>,
) -> bool {
            match w0.context_view() {
                None => r is None && w1.status_view() == w0.status_view()
                    && w1.context_view() is None,
                Some(c) => {
                    let improved = improvement(dropped, target_gone, calm);
                    let message = if improved {
                        "处理完成后，系统资源压力已经明显下降。"@
                    } else {
                        "目标已经处理，但系统压力没有明显下降，可能还有其他原因。"@
                    };
                    &&& r matches Some(t) && t.0 == c.action_id && t.1@ == message && t.2@ == (
                    if improved {
                        "resolved"@
                    } else {
                        "finding"@
                    })
                    &&& w1.context_view() is None
                    &&& w1.status_view() matches Some(s) && s.status@ == (if improved {
                        "improved"@
                    } else {
                        "noImprovement"@
                    }) && s.message@ == message && s.started_at == now * 1000
                        && s.target_name@ == match w0.status_view() {
                        Some(p) => p.target_name@,
                        None => Seq::<char>::empty(),
                    }
                },
            }
}

/// What an observation gives at `now` (seconds): its target and the pressure
/// before the action once it is due, nothing before or without one.
pub open spec fn due_of(context: Option<VerificationContext>, now: u64) -> Option<(u32, u32)> {
    match context {
        Some(c) => if now >= c.check_after {
            Some((c.target_pid, c.baseline_bits))
        } else {
            None
        },
        None => None,
    }
}

impl Verifier {
    /// The status shown to the user, if any.
    pub closed spec fn status_view(&self) -> Option<VerificationStatus> {
        self.status
    }

    /// The observation under way, if any.
    pub closed spec fn context_view(&self) -> Option<VerificationContext> {
        self.context
    }

    /// Nothing observed yet.
    pub fn new() -> (r: Self)
        ensures
            r.status_view() is None,
            r.context_view() is None,
    {
        Verifier { status: None, context: None }
    }

    /// The status shown to the user, if any.
    pub fn status(&self) -> (r: &Option<VerificationStatus>)
        ensures
            *r == self.status_view(),
    {
        &self.status
    }

    /// Starts observing after the termination of `target_name` at `now` (seconds).
    pub fn start(
        &mut self,
        now: u64,
        target_name: &str,
        action_id: String,
        target_pid: u32,
        baseline_bits: u32,
    )
        requires
            now <= u64::MAX / 1000 - 15,
        ensures
            observing(*final(self), target_name@, action_id, target_pid, baseline_bits, now),
    {
        self.status = Some(
            VerificationStatus {
                target_name: String::from_str(target_name),
                status: String::from_str("observing"),
                message: String::from_str("我会观察 15 秒，确认电脑是否真的轻松下来。"),
                started_at: now * 1000,
            },
        );
        self.context = Some(
            VerificationContext { action_id, target_pid, baseline_bits, check_after: now + 15 },
        );
    }

    /// The target and the pressure before the action, once the observation
    /// is due at `now` (seconds).
    pub fn due(&self, now: u64) -> (r: Option<(u32, u32)>)
        ensures
            r == due_of(self.context_view(), now),
    {
        match &self.context {
            Some(c) => if now >= c.check_after {
                Some((c.target_pid, c.baseline_bits))
            } else {
                None
            },
            None => None,
        }
    }

    /// Ends a due observation with its verdict. Returns the action's id, the
    /// message recorded for it and the kind of timeline event to record.
    pub fn finish(&mut self, now: u64, dropped: bool, target_gone: bool, calm: bool) -> (r: Option<
        (String, String, String),
    >)
        requires
            now <= u64::MAX / 1000,
        ensures
            finished(*old(self), *final(self), now, dropped, target_gone, calm, r),
    {
        let mut taken: Option<VerificationContext> = None;
        std::mem::swap(&mut taken, &mut self.context);
        let c = match taken {
            None => {
                return None;
            },
            Some(c) => c,
        };
        let improved = dropped || (target_gone && calm);
        let message = if improved {
            "处理完成后，系统资源压力已经明显下降。"
        } else {
            "目标已经处理，但系统压力没有明显下降，可能还有其他原因。"
        };
        let target_name = match &self.status {
            Some(p) => p.target_name.clone(),
            None => String::new(),
        };
        self.status = Some(
            VerificationStatus {
                target_name,
                status: if improved {
                    String::from_str("improved")
                } else {
                    String::from_str("noImprovement")
                },
                message: String::from_str(message),
                started_at: now * 1000,
            },
        );
        let kind = if improved {
            String::from_str("resolved")
        } else {
            String::from_str("finding")
        };
        Some((c.action_id, String::from_str(message), kind))
    }
}

/// The observation after a termination lasts 15 seconds: one started at
/// `start` is due at `now` exactly when 15 seconds have passed, and once
/// finished, nothing is due any more.
pub proof fn law_observation_lasts_fifteen_seconds(c: VerificationContext, start: u64, now: u64)
    requires
        c.check_after == start + 15,
    ensures
        due_of(Some(c), now) is Some <==> now >= start + 15,
        due_of(None, now) is None,
{
}

/// Records what a confirmed action came to at `now` (seconds): the message
/// the user is told goes on the timeline as an "action" event, and a
/// successful termination starts the 15-second observation, with the
/// pressure before the action as the bits `baseline_bits`. Returns the
/// action's result under a fresh id.
pub fn record_action(
    detector: &mut Detector,
    verifier: &mut Verifier,
    action: &PendingAction,
    success: bool,
    now: u64,
    baseline_bits: u32,
) -> (r: ActionResult)
    requires
        old(detector).wf(),
        now <= u64::MAX / 1000 - 15,
    ensures
        final(detector).wf(),
        r.success == success,
        r.message@ == action_text(action.kind, action.preview.target.name@, success),
        r.action_id@.len() == 36,
        exists|e: TimelineEvent|
            #![trigger with_event(old(detector).timeline_view(), e)]
            final(detector).timeline_view() == with_event(old(detector).timeline_view(), e)
                && e.occurred_at == now * 1000 && e.kind@ == "action"@ && e.message@ == r.message@,
        final(detector).findings_view() == old(detector).findings_view(),
        final(detector).alerts() == old(detector).alerts(),
        final(detector).cpu_run() == old(detector).cpu_run(),
        final(detector).memory_run() == old(detector).memory_run(),
        final(detector).disk_run() == old(detector).disk_run(),
        final(detector).network_run() == old(detector).network_run(),
        success && action.kind == PendingKind::Terminate ==> observing(
            *final(verifier),
            action.preview.target.name@,
            r.action_id,
            action.preview.target.pid,
            baseline_bits,
            now,
        ),
        !(success && action.kind == PendingKind::Terminate) ==> *final(verifier) == *old(verifier),
{
    let target = &action.preview.target;
    let message = action_message(action.kind, target.name.as_str(), success);
    proof {
        reveal_strlit("action");
    }
    detector.push_event(now, "action", message.as_str());
    let action_id = crate::ids::new_id();
    if success && action.kind == PendingKind::Terminate {
        verifier.start(now, target.name.as_str(), action_id.clone(), target.pid, baseline_bits);
    }
    ActionResult { action_id, success, message }
}

/// After a confirmed termination of the verified, non-critical process
/// that succeeded, the patrol observes for 15 seconds: nothing is due
/// before, the check is due from then on, and the observation ends as
/// "improved" (the pressure dropped by ten points, or the target is gone
/// and the pressure is below 85%) or "noImprovement", naming the target.
pub proof fn law_terminate_is_observed_for_fifteen_seconds(
    v0: Map<Seq<char>, PendingAction>,
    v1: Map<Seq<char>, PendingAction>,
    id: Seq<char>,
    now: u64,
    live: Option<(u32, u64)>,
    p: PendingAction,
    w1: Verifier,
    w2: Verifier,
    action_id: String,
    bits: u32,
    at: u64,
    later: u64,
    dropped: bool,
    target_gone: bool,
    calm: bool,
    out: Option<(String, String, String)>,
)
    requires
        confirmed(v0, v1, id, now, live, Ok(p)),
        p.kind == PendingKind::Terminate,
        observing(w1, p.preview.target.name@, action_id, p.preview.target.pid, bits, now),
        finished(w1, w2, later, dropped, target_gone, calm, out),
        now <= u64::MAX / 1000 - 15,
    ensures
        live == Some((p.preview.target.pid, p.preview.target.started_at)),
        !p.preview.target.is_critical,
        due_of(w1.context_view(), at) is Some <==> at >= now + 15,
        w2.context_view() is None,
        w2.status_view() matches Some(s) && s.target_name@ == p.preview.target.name@ && s.status@ == (
        if improvement(dropped, target_gone, calm) {
            "improved"@
        } else {
            "noImprovement"@
        }),
{
}

} // verus!
