//! Application sessions: when each application ran, how long, and how much
//! of that time it was in the foreground.
use vstd::prelude::*;
use crate::grouping::ApplicationGroup;
use crate::text::decimal;
use crate::types::AppUsageRecord;

verus! {

/// Saturating subtraction.
pub open spec fn sub_sat(a: u64, b: u64) -> u64 {
    if a >= b {
        (a - b) as u64
    } else {
        0
    }
}

/// Saturating addition.
pub open spec fn add_sat(a: u64, b: u64) -> u64 {
    if a + b <= u64::MAX {
        (a + b) as u64
    } else {
        u64::MAX
    }
}

/// The key of an application's session: its root pid and the root's start time.
pub open spec fn key_of(a: ApplicationGroup) -> (u32, u64) {
    (a.root_pid, a.root_process.started_at)
}

/// A session first seen at `now` (seconds), under the id `id`.
pub open spec fn fresh(a: ApplicationGroup, now: u64, id: String) -> AppUsageRecord {
    AppUsageRecord {
        session_id: id,
        name: a.name,
        root_pid: a.root_pid,
        started_at: (a.root_process.started_at * 1000) as u64,
        first_seen_at: (now * 1000) as u64,
        last_seen_at: (now * 1000) as u64,
        closed_at: None,
        runtime_seconds: sub_sat(now, a.root_process.started_at),
        foreground_seconds: 0,
        background_seconds: 0,
        member_peak: a.member_count,
        is_running: true,
    }
}

/// The session id of an application: "pid-start".
pub open spec fn session_id_of(a: ApplicationGroup) -> Seq<char> {
    decimal(a.root_pid as nat) + seq!['-'] + decimal(a.root_process.started_at as nat)
}

/// A running session after one more sighting at `now`, `elapsed` seconds of
/// which count as foreground where `foreground` holds.
pub open spec fn touched(r: AppUsageRecord, a: ApplicationGroup, now: u64, foreground: bool, elapsed: u64) -> AppUsageRecord {
    let runtime = sub_sat(now, a.root_process.started_at);
    let fg = if foreground {
        add_sat(r.foreground_seconds, elapsed)
    } else {
        r.foreground_seconds
    };
    AppUsageRecord {
        last_seen_at: (now * 1000) as u64,
        runtime_seconds: runtime,
        member_peak: if r.member_peak >= a.member_count {
            r.member_peak
        } else {
            a.member_count
        },
        foreground_seconds: fg,
        background_seconds: sub_sat(runtime, fg),
        ..r
    }
}

/// A session's member peak is the largest member count seen: one more
/// sighting never lowers it, and it reaches the count just seen; its
/// foreground time never falls either.
pub proof fn law_member_peak_never_falls(
    r: AppUsageRecord,
    a: ApplicationGroup,
    now: u64,
    foreground: bool,
    elapsed: u64,
)
    ensures
        touched(r, a, now, foreground, elapsed).member_peak >= r.member_peak,
        touched(r, a, now, foreground, elapsed).member_peak >= a.member_count,
        touched(r, a, now, foreground, elapsed).member_peak == r.member_peak
            || touched(r, a, now, foreground, elapsed).member_peak == a.member_count,
        touched(r, a, now, foreground, elapsed).foreground_seconds >= r.foreground_seconds,
{
}

/// A session closed at `now` because its application is gone.
pub open spec fn closed(r: AppUsageRecord, now: u64) -> AppUsageRecord {
    let runtime = sub_sat(now, r.started_at / 1000);
    AppUsageRecord {
        closed_at: Some((now * 1000) as u64),
        last_seen_at: (now * 1000) as u64,
        runtime_seconds: runtime,
        background_seconds: sub_sat(runtime, r.foreground_seconds),
        is_running: false,
        ..r
    }
}

/// A session with the key it is filed under.
pub struct Session {
    pub pid: u32,
    pub started_at: u64,
    pub record: AppUsageRecord,
}

/// The session filed under `key`, by its first entry.
pub open spec fn session_of(s: Seq<Session>, key: (u32, u64)) -> Option<AppUsageRecord>
    decreases s.len(),
{
    if s.len() == 0 {
        None
    } else if (s[0].pid, s[0].started_at) == key {
        Some(s[0].record)
    } else {
        session_of(s.drop_first(), key)
    }
}

/// Whether the application is followed (critical system processes are not).
pub open spec fn followed(a: ApplicationGroup) -> bool {
    !a.root_process.is_critical
}

/// Whether a process with this pid is among `s`.
pub open spec fn has_pid(s: Seq<crate::process::ProcessSample>, pid: u32) -> bool {
    exists|j: int| 0 <= j < s.len() && s[j].pid == pid
}

/// The application holding the foreground process, by its first group.
pub open spec fn foreground_key(apps: Seq<ApplicationGroup>, fg: Option<u32>) -> Option<(u32, u64)> {
    match fg {
        None => None,
        Some(pid) => if exists|i: int| 0 <= i < apps.len() && has_pid(apps[i].members@, pid) {
            let i = choose|i: int|
                0 <= i < apps.len() && has_pid(apps[i].members@, pid) && forall|j: int|
                    0 <= j < i ==> !has_pid(apps[j].members@, pid);
            Some(key_of(apps[i]))
        } else {
            None
        },
    }
}


/// Where the session filed under `key` stands among `s`, by its first entry.
pub open spec fn key_index(s: Seq<Session>, key: (u32, u64)) -> Option<int>
    decreases s.len(),
{
    if s.len() == 0 {
        None
    } else if (s[0].pid, s[0].started_at) == key {
        Some(0)
    } else {
        match key_index(s.drop_first(), key) {
            Some(i) => Some(i + 1),
            None => None,
        }
    }
}

/// Whether a session's record agrees with the key it is filed under.
pub open spec fn session_ok(s: Session) -> bool {
    &&& s.record.root_pid == s.pid
    &&& s.record.started_at == s.started_at * 1000
    &&& s.record.session_id@ == decimal(s.pid as nat) + seq!['-'] + decimal(s.started_at as nat)
}

/// The session ids of the records.
pub open spec fn ids_of(records: Seq<AppUsageRecord>) -> Seq<String> {
    records.map_values(|r: AppUsageRecord| r.session_id)
}

/// The sessions of this round and the records emitted, after the first `n`
/// applications: a followed application advances the session of its key
/// opened earlier this round, else its previous session, else a fresh one
/// whose id is taken from `ids` at the record's position.
pub open spec fn round(
    prev: Seq<Session>,
    apps: Seq<ApplicationGroup>,
    n: nat,
    now: u64,
    fg: Option<(u32, u64)>,
    elapsed: u64,
    ids: Seq<String>,
) -> (Seq<Session>, Seq<AppUsageRecord>)
    decreases n,
{
    if n == 0 {
        (Seq::empty(), Seq::empty())
    } else {
        let (cur, recs) = round(prev, apps, (n - 1) as nat, now, fg, elapsed, ids);
        let a = apps[n - 1];
        if !followed(a) {
            (cur, recs)
        } else {
            let k = key_of(a);
            let foreground = fg == Some(k);
            match key_index(cur, k) {
                Some(j) => {
                    let r = touched(cur[j].record, a, now, foreground, elapsed);
                    (cur.update(j, Session { pid: k.0, started_at: k.1, record: r }), recs.push(r))
                },
                None => {
                    let base = match session_of(prev, k) {
                        Some(r0) => r0,
                        None => fresh(a, now, ids[recs.len() as int]),
                    };
                    let r = touched(base, a, now, foreground, elapsed);
                    (cur.push(Session { pid: k.0, started_at: k.1, record: r }), recs.push(r))
                },
            }
        }
    }
}

proof fn lemma_round_ids(
    prev: Seq<Session>,
    apps: Seq<ApplicationGroup>,
    n: nat,
    now: u64,
    fg: Option<(u32, u64)>,
    elapsed: u64,
    ids: Seq<String>,
    ids2: Seq<String>,
)
    requires
        forall|k: int|
            0 <= k < round(prev, apps, n, now, fg, elapsed, ids).1.len() ==> ids[k] == ids2[k],
    ensures
        round(prev, apps, n, now, fg, elapsed, ids) == round(prev, apps, n, now, fg, elapsed, ids2),
        round(prev, apps, n, now, fg, elapsed, ids).1.len() <= n,
    decreases n,
{
    if n > 0 {
        let c = round(prev, apps, (n - 1) as nat, now, fg, elapsed, ids).1.len();
        assert(c <= round(prev, apps, n, now, fg, elapsed, ids).1.len());
        lemma_round_ids(prev, apps, (n - 1) as nat, now, fg, elapsed, ids, ids2);
    }
}

proof fn lemma_key_index(s: Seq<Session>, j: int, key: (u32, u64))
    requires
        0 <= j < s.len(),
        (s[j].pid, s[j].started_at) == key,
        forall|k: int| 0 <= k < j ==> (s[k].pid, s[k].started_at) != key,
    ensures
        key_index(s, key) == Some(j),
    decreases s.len(),
{
    if j > 0 {
        lemma_key_index(s.drop_first(), j - 1, key);
    }
}

proof fn lemma_key_absent(s: Seq<Session>, key: (u32, u64))
    requires
        forall|k: int| 0 <= k < s.len() ==> (s[k].pid, s[k].started_at) != key,
    ensures
        key_index(s, key) is None,
    decreases s.len(),
{
    if s.len() > 0 {
        lemma_key_absent(s.drop_first(), key);
    }
}

/// Whether some followed application has this key.
pub open spec fn key_present(apps: Seq<ApplicationGroup>, key: (u32, u64)) -> bool {
    exists|i: int| 0 <= i < apps.len() && followed(apps[i]) && key_of(apps[i]) == key
}

/// The previous sessions whose application is gone.
pub open spec fn gone(prev: Seq<Session>, apps: Seq<ApplicationGroup>) -> Seq<Session> {
    prev.filter(|e: Session| !key_present(apps, (e.pid, e.started_at)))
}

/// Whether no two sessions share a key.
pub open spec fn keys_distinct(s: Seq<Session>) -> bool {
    forall|i: int, j: int|
        0 <= i < j < s.len() ==> (s[i].pid, s[i].started_at) != (s[j].pid, s[j].started_at)
}

proof fn lemma_session_found(s: Seq<Session>, j: int, key: (u32, u64))
    requires
        0 <= j < s.len(),
        (s[j].pid, s[j].started_at) == key,
        forall|k: int| 0 <= k < j ==> (s[k].pid, s[k].started_at) != key,
    ensures
        session_of(s, key) == Some(s[j].record),
    decreases s.len(),
{
    if j > 0 {
        lemma_session_found(s.drop_first(), j - 1, key);
    }
}

proof fn lemma_session_absent(s: Seq<Session>, key: (u32, u64))
    requires
        forall|k: int| 0 <= k < s.len() ==> (s[k].pid, s[k].started_at) != key,
    ensures
        session_of(s, key) is None,
    decreases s.len(),
{
    if s.len() > 0 {
        lemma_session_absent(s.drop_first(), key);
    }
}

/// The applications' sessions between patrol rounds.
pub struct AppSessions {
    sessions: Vec<Session>,
    last_tick: u64,
}

fn find_session(s: &Vec<Session>, pid: u32, started_at: u64) -> (r: Option<usize>)
    ensures
        match r {
            Some(j) => j < s@.len() && session_of(s@, (pid, started_at)) == Some(s@[j as int].record)
                && key_index(s@, (pid, started_at)) == Some(j as int) && s@[j as int].pid == pid
                && s@[j as int].started_at == started_at,
            None => session_of(s@, (pid, started_at)) is None && key_index(s@, (pid, started_at)) is None
                && forall|k: int| 0 <= k < s@.len() ==> (s@[k].pid, s@[k].started_at) != (pid, started_at),
        },
{
    let mut j: usize = 0;
    while j < s.len()
        invariant
            j <= s@.len(),
            forall|k: int| 0 <= k < j ==> (s@[k].pid, s@[k].started_at) != (pid, started_at),
        decreases s@.len() - j,
    {
        if s[j].pid == pid && s[j].started_at == started_at {
            proof {
                lemma_session_found(s@, j as int, (pid, started_at));
                lemma_key_index(s@, j as int, (pid, started_at));
            }
            return Some(j);
        }
        j = j + 1;
    }
    proof {
        lemma_session_absent(s@, (pid, started_at));
        lemma_key_absent(s@, (pid, started_at));
    }
    None
}

proof fn lemma_foreground(apps: Seq<ApplicationGroup>, pid: u32, i: int)
    requires
        0 <= i < apps.len(),
        has_pid(apps[i].members@, pid),
        forall|j: int| 0 <= j < i ==> !has_pid(apps[j].members@, pid),
    ensures
        foreground_key(apps, Some(pid)) == Some(key_of(apps[i])),
{
    assert(exists|k: int| 0 <= k < apps.len() && has_pid(apps[k].members@, pid));
    let c = choose|c: int|
        0 <= c < apps.len() && has_pid(apps[c].members@, pid) && forall|j: int|
            0 <= j < c ==> !has_pid(apps[j].members@, pid);
    assert(0 <= i < apps.len() && has_pid(apps[i].members@, pid) && forall|j: int|
        0 <= j < i ==> !has_pid(apps[j].members@, pid));
    if c < i {
        assert(!has_pid(apps[c].members@, pid));
    } else if c > i {
        assert(!has_pid(apps[i].members@, pid));
    }
}

fn find_application_of(apps: &Vec<ApplicationGroup>, pid: u32) -> (r: Option<(u32, u64)>)
    ensures
        r == foreground_key(apps@, Some(pid)),
{
    let mut i: usize = 0;
    while i < apps.len()
        invariant
            i <= apps@.len(),
            forall|j: int| 0 <= j < i ==> !has_pid(apps@[j].members@, pid),
        decreases apps@.len() - i,
    {
        let members = &apps[i].members;
        let mut k: usize = 0;
        let mut hit = false;
        while k < members.len()
            invariant
                k <= members@.len(),
                hit == exists|m: int| 0 <= m < k && members@[m].pid == pid,
            decreases members@.len() - k,
        {
            if members[k].pid == pid {
                hit = true;
            }
            k = k + 1;
        }
        if hit {
            proof {
                lemma_foreground(apps@, pid, i as int);
            }
            return Some((apps[i].root_pid, apps[i].root_process.started_at));
        }
        i = i + 1;
    }
    None
}

fn find_foreground(apps: &Vec<ApplicationGroup>, fg: Option<u32>) -> (r: Option<(u32, u64)>)
    ensures
        r == foreground_key(apps@, fg),
{
    match fg {
        Some(pid) => find_application_of(apps, pid),
        None => None,
    }
}

fn followed_key(apps: &Vec<ApplicationGroup>, pid: u32, started_at: u64) -> (r: bool)
    ensures
        r == key_present(apps@, (pid, started_at)),
{
    let mut i: usize = 0;
    while i < apps.len()
        invariant
            i <= apps@.len(),
            forall|j: int| 0 <= j < i ==> !(followed(apps@[j]) && key_of(apps@[j]) == (pid, started_at)),
        decreases apps@.len() - i,
    {
        if !apps[i].root_process.is_critical && apps[i].root_pid == pid
            && apps[i].root_process.started_at == started_at {
            return true;
        }
        i = i + 1;
    }
    false
}

/// The record of a session first seen at `now`.
fn fresh_record(a: &ApplicationGroup, now: u64) -> (r: AppUsageRecord)
    requires
        now <= u64::MAX / 1000,
        a.root_process.started_at <= u64::MAX / 1000,
    ensures
        r == fresh(*a, now, r.session_id),
        r.session_id@ == session_id_of(*a),
{
    let id = crate::text::decimal_text(a.root_pid as u64).concat("-").concat(
        crate::text::decimal_text(a.root_process.started_at).as_str(),
    );
    proof {
        reveal_strlit("-");
        assert("-"@ =~= seq!['-']);
    }
    AppUsageRecord {
        session_id: id,
        name: a.name.clone(),
        root_pid: a.root_pid,
        started_at: a.root_process.started_at * 1000,
        first_seen_at: now * 1000,
        last_seen_at: now * 1000,
        closed_at: None,
        runtime_seconds: now.saturating_sub(a.root_process.started_at),
        foreground_seconds: 0,
        background_seconds: 0,
        member_peak: a.member_count,
        is_running: true,
    }
}

/// The record after one more sighting of `a` at `now`.
fn touch(r: AppUsageRecord, a: &ApplicationGroup, now: u64, foreground: bool, elapsed: u64) -> (out:
    AppUsageRecord)
    requires
        now <= u64::MAX / 1000,
    ensures
        out == touched(r, *a, now, foreground, elapsed),
{
    let mut rec = r;
    rec.last_seen_at = now * 1000;
    rec.runtime_seconds = now.saturating_sub(a.root_process.started_at);
    if rec.member_peak < a.member_count {
        rec.member_peak = a.member_count;
    }
    if foreground {
        rec.foreground_seconds = rec.foreground_seconds.saturating_add(elapsed);
    }
    rec.background_seconds = rec.runtime_seconds.saturating_sub(rec.foreground_seconds);
    rec
}

/// Whether a record's id is its root pid, a hyphen and its start in seconds.
pub open spec fn record_named(r: AppUsageRecord) -> bool {
    r.session_id@ == decimal(r.root_pid as nat) + seq!['-'] + decimal((r.started_at / 1000) as nat)
}

proof fn lemma_named(s: Session)
    requires
        session_ok(s),
    ensures
        record_named(s.record),
{
    let t = s.started_at as int;
    assert((t * 1000) / 1000 == t) by (nonlinear_arith);
}

/// The closing records of the sessions whose application is gone.
fn close_gone(prev: &Vec<Session>, apps: &Vec<ApplicationGroup>, now: u64) -> (out: Vec<AppUsageRecord>)
    requires
        now <= u64::MAX / 1000,
    ensures
        out@.len() == gone(prev@, apps@).len(),
        forall|j: int| 0 <= j < out@.len() ==> out@[j] == closed(#[trigger] gone(prev@, apps@)[j].record, now),
{
    let ghost gpred = |e: Session| !key_present(apps@, (e.pid, e.started_at));
    let mut out: Vec<AppUsageRecord> = Vec::new();
    let mut j: usize = 0;
    while j < prev.len()
        invariant
            j <= prev@.len(),
            now <= u64::MAX / 1000,
            gpred == (|e: Session| !key_present(apps@, (e.pid, e.started_at))),
            out@.len() == prev@.take(j as int).filter(gpred).len(),
            forall|m: int|
                0 <= m < out@.len() ==> out@[m] == closed(
                    #[trigger] prev@.take(j as int).filter(gpred)[m].record,
                    now,
                ),
        decreases prev@.len() - j,
    {
        let ghost t = prev@.take(j + 1);
        proof {
            assert(t.drop_last() =~= prev@.take(j as int));
            assert(t.last() == prev@[j as int]);
            assert(t.len() == j + 1);
            reveal_with_fuel(Seq::filter, 2);
            assert(t.filter(gpred) == (if gpred(t.last()) {
                t.drop_last().filter(gpred).push(t.last())
            } else {
                t.drop_last().filter(gpred)
            }));
        }
        let e = &prev[j];
        if !followed_key(apps, e.pid, e.started_at) {
            let mut r = e.record.duplicate();
            r.closed_at = Some(now * 1000);
            r.last_seen_at = now * 1000;
            r.runtime_seconds = now.saturating_sub(r.started_at / 1000);
            r.background_seconds = r.runtime_seconds.saturating_sub(r.foreground_seconds);
            r.is_running = false;
            out.push(r);
        }
        j = j + 1;
    }
    proof {
        assert(prev@.take(prev@.len() as int) =~= prev@);
    }
    out
}

impl AppSessions {
    /// The sessions of running applications.
    pub closed spec fn sessions_view(&self) -> Seq<Session> {
        self.sessions@
    }

    /// When the sessions were last updated (seconds).
    pub closed spec fn last_tick_view(&self) -> u64 {
        self.last_tick
    }

    /// The sessions' invariant: one per application.
    pub closed spec fn wf(&self) -> bool {
        &&& keys_distinct(self.sessions@)
        &&& forall|i: int| 0 <= i < self.sessions@.len() ==> session_ok(#[trigger] self.sessions@[i])
    }

    /// No session yet, counting time from `now` (seconds).
    pub fn new(now: u64) -> (r: Self)
        ensures
            r.wf(),
            r.sessions_view().len() == 0,
            r.last_tick_view() == now,
    {
        AppSessions { sessions: Vec::new(), last_tick: now }
    }

    /// Updates the sessions from this round's applications at `now`
    /// (seconds): each followed application's session is opened or advanced,
    /// the foreground one gaining the seconds since the last round (at most
    /// two intervals), and sessions of applications that are gone are
    /// closed. Returns one record per followed application, in order, then
    /// the closed ones.
    #[verifier::rlimit(40)]
    pub fn update(
        &mut self,
        now: u64,
        interval_seconds: u64,
        apps: &Vec<ApplicationGroup>,
        foreground_pid: Option<u32>,
    ) -> (records: Vec<AppUsageRecord>)
        requires
            old(self).wf(),
            now <= u64::MAX / 1000,
            forall|i: int|
                0 <= i < apps@.len() && followed(#[trigger] apps@[i]) ==> apps@[i].root_process.started_at
                    <= u64::MAX / 1000,
        ensures
            final(self).wf(),
            final(self).last_tick_view() == now,
            ({
                let elapsed = {
                    let since = sub_sat(now, old(self).last_tick_view());
                    let cap = if interval_seconds * 2 <= u64::MAX {
                        (interval_seconds * 2) as u64
                    } else {
                        u64::MAX
                    };
                    if since <= cap {
                        since
                    } else {
                        cap
                    }
                };
                let fg = foreground_key(apps@, foreground_pid);
                let (s, r) = round(
                    old(self).sessions_view(),
                    apps@,
                    apps@.len(),
                    now,
                    fg,
                    elapsed,
                    ids_of(records@),
                );
                let g = gone(old(self).sessions_view(), apps@);
                &&& final(self).sessions_view() == s
                &&& records@.len() == r.len() + g.len()
                &&& records@.take(r.len() as int) == r
                &&& forall|j: int|
                    0 <= j < g.len() ==> records@[r.len() + j] == closed(#[trigger] g[j].record, now)
                &&& forall|k: int| 0 <= k < records@.len() ==> record_named(#[trigger] records@[k])
            }),
    {
        let since = now.saturating_sub(self.last_tick);
        let cap = if interval_seconds <= u64::MAX / 2 {
            interval_seconds * 2
        } else {
            u64::MAX
        };
        let elapsed = if since <= cap {
            since
        } else {
            cap
        };
        self.last_tick = now;
        let fg = find_foreground(apps, foreground_pid);
        let ghost prev = self.sessions@;
        let mut records: Vec<AppUsageRecord> = Vec::new();
        let mut next: Vec<Session> = Vec::new();
        let mut i: usize = 0;
        while i < apps.len()
            invariant
                i <= apps@.len(),
                prev == self.sessions@,
                keys_distinct(prev),
                forall|k: int| 0 <= k < prev.len() ==> session_ok(#[trigger] prev[k]),
                now <= u64::MAX / 1000,
                forall|k: int|
                    0 <= k < apps@.len() && followed(#[trigger] apps@[k]) ==> apps@[k].root_process.started_at
                        <= u64::MAX / 1000,
                round(prev, apps@, i as nat, now, fg, elapsed, ids_of(records@)) == (next@, records@),
                keys_distinct(next@),
                forall|k: int| 0 <= k < next@.len() ==> session_ok(#[trigger] next@[k]),
                forall|k: int| 0 <= k < records@.len() ==> record_named(#[trigger] records@[k]),
            decreases apps@.len() - i,
        {
            let a = &apps[i];
            if !a.root_process.is_critical {
                let ghost recs = records@;
                let ghost cur = next@;
                let k0 = a.root_pid;
                let k1 = a.root_process.started_at;
                let foreground = match fg {
                    Some(k) => k.0 == k0 && k.1 == k1,
                    None => false,
                };
                assert(foreground == (fg == Some(key_of(apps@[i as int]))));
                match find_session(&next, k0, k1) {
                    Some(j) => {
                        proof {
                            lemma_named(next@[j as int]);
                        }
                        let r = touch(next[j].record.duplicate(), a, now, foreground, elapsed);
                        let copy = r.duplicate();
                        next.set(j, Session { pid: k0, started_at: k1, record: copy });
                        records.push(r);
                        proof {
                            lemma_round_ids(prev, apps@, i as nat, now, fg, elapsed, ids_of(recs), ids_of(records@));
                            assert(next@ == cur.update(j as int, Session { pid: k0, started_at: k1, record: r }));
                            assert forall|x: int, y: int| 0 <= x < y < next@.len() implies (next@[x].pid,
                                next@[x].started_at) != (next@[y].pid, next@[y].started_at) by {
                                assert((cur[x].pid, cur[x].started_at) != (cur[y].pid, cur[y].started_at));
                                if x != j {
                                    assert(next@[x] == cur[x]);
                                }
                                if y != j {
                                    assert(next@[y] == cur[y]);
                                }
                            }
                            assert forall|x: int| 0 <= x < next@.len() implies session_ok(#[trigger] next@[x]) by {
                                if x != j {
                                    assert(next@[x] == cur[x]);
                                }
                            }
                        }
                    },
                    None => {
                        let base = match find_session(&self.sessions, k0, k1) {
                            Some(j) => {
                                proof {
                                    lemma_named(prev[j as int]);
                                }
                                self.sessions[j].record.duplicate()
                            },
                            None => fresh_record(a, now),
                        };
                        let r = touch(base, a, now, foreground, elapsed);
                        let copy = r.duplicate();
                        next.push(Session { pid: k0, started_at: k1, record: copy });
                        records.push(r);
                        proof {
                            lemma_round_ids(prev, apps@, i as nat, now, fg, elapsed, ids_of(recs), ids_of(records@));
                            assert(ids_of(records@)[recs.len() as int] == r.session_id);
                            assert forall|x: int| 0 <= x < next@.len() implies session_ok(#[trigger] next@[x]) by {
                                if x < cur.len() {
                                    assert(next@[x] == cur[x]);
                                }
                            }
                        }
                    },
                }
            }
            i = i + 1;
        }
        let ghost first = records@;
        let mut closing = close_gone(&self.sessions, apps, now);
        let ghost closed_recs = closing@;
        records.append(&mut closing);
        proof {
            assert(records@ =~= first + closed_recs);
            lemma_round_ids(prev, apps@, apps@.len(), now, fg, elapsed, ids_of(first), ids_of(records@));
            assert(records@.take(first.len() as int) =~= first);
            assert forall|k: int| 0 <= k < records@.len() implies record_named(#[trigger] records@[k]) by {
                if k >= first.len() {
                    let j = k - first.len();
                    let g = gone(prev, apps@);
                    let gp = |e: Session| !key_present(apps@, (e.pid, e.started_at));
                    prev.filter_lemma(gp);
                    assert(g.contains(g[j]));
                    prev.lemma_filter_contains_rev(gp, g[j]);
                    let m = choose|m: int| 0 <= m < prev.len() && prev[m] == g[j];
                    lemma_named(prev[m]);
                }
            }
        }
        self.sessions = next;
        records
    }
}

/// Every session record splits its runtime into foreground and background
/// time: the background is the runtime less the foreground, never below
/// zero, whether the session goes on or closes.
pub proof fn law_background_is_runtime_less_foreground(
    r: AppUsageRecord,
    a: ApplicationGroup,
    now: u64,
    foreground: bool,
    elapsed: u64,
)
    ensures
        touched(r, a, now, foreground, elapsed).background_seconds == sub_sat(
            touched(r, a, now, foreground, elapsed).runtime_seconds,
            touched(r, a, now, foreground, elapsed).foreground_seconds,
        ),
        closed(r, now).background_seconds == sub_sat(
            closed(r, now).runtime_seconds,
            closed(r, now).foreground_seconds,
        ),
        !closed(r, now).is_running,
        touched(r, a, now, foreground, elapsed).foreground_seconds >= r.foreground_seconds,
{
}

} // verus!
