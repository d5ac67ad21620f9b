//! Maintenance: which cached files may be cleaned, the report of what was
//! found, and the confirmed changes to cleanup and startup entries.
use vstd::prelude::*;
use crate::keyed::{Keyed, KeyedStore};
use crate::order::{Sized64, by_size, sort_by_size};
use crate::text::{chars_of, find, join2, occurs_at, seq_contains, str_contains, str_eq};
use crate::types::ActionResult;

verus! {

/// A file that a cleanup scan found.
#[derive(Clone, Debug)]
pub struct CleanupCandidate {
    pub path: String,
    pub category: String,
    pub size_bytes: u64,
    pub modified_at: u64,
    pub cleanable: bool,
}

impl Sized64 for CleanupCandidate {
    open spec fn size_of(&self) -> u64 {
        self.size_bytes
    }

    fn size(&self) -> (r: u64) {
        self.size_bytes
    }
}

/// What a cleanup scan found.
#[derive(Clone, Debug)]
pub struct CleanupReport {
    pub scanned_at: u64,
    pub reclaimable_bytes: u64,
    pub candidates: Vec<CleanupCandidate>,
}

/// A maintenance change waiting for confirmation.
#[derive(Clone, Debug)]
pub struct MaintenancePreview {
    pub preview_id: String,
    pub title: String,
    pub warning: String,
    pub item_count: usize,
    pub total_bytes: u64,
    pub expires_at: u64,
}

/// The most candidates one cleanup scan collects.
pub const CANDIDATE_LIMIT: usize = 2000;

/// A day in milliseconds.
pub const DAY_MS: u64 = 86_400_000;

/// The size from which a download is worth listing: 100 MiB.
pub const LARGE_DOWNLOAD: u64 = 104_857_600;

/// Whether a file found by the scan at `now` (milliseconds) is listed: a
/// cleanable cache file must be at least a day old, a file that is only
/// shown must be at least 100 MiB.
pub open spec fn listed_file(cleanable: bool, size_bytes: u64, modified_at: u64, now: u64) -> bool {
    if cleanable {
        now >= modified_at && now - modified_at >= DAY_MS
    } else {
        size_bytes >= LARGE_DOWNLOAD
    }
}

/// Whether a file found by the scan is listed.
pub fn keep_candidate(cleanable: bool, size_bytes: u64, modified_at: u64, now: u64) -> (r: bool)
    ensures
        r == listed_file(cleanable, size_bytes, modified_at, now),
{
    if cleanable && now.saturating_sub(modified_at) < DAY_MS {
        return false;
    }
    if !cleanable && size_bytes < LARGE_DOWNLOAD {
        return false;
    }
    true
}

/// The bytes that cleaning every cleanable candidate would free.
pub open spec fn cleanable_total(s: Seq<CleanupCandidate>) -> nat
    decreases s.len(),
{
    if s.len() == 0 {
        0
    } else {
        cleanable_total(s.drop_last()) + if s.last().cleanable {
            s.last().size_bytes as nat
        } else {
            0
        }
    }
}

proof fn lemma_total_prefix(s: Seq<CleanupCandidate>, i: int)
    requires
        0 <= i <= s.len(),
    ensures
        cleanable_total(s.take(i)) <= cleanable_total(s),
    decreases s.len() - i,
{
    if i < s.len() {
        lemma_total_prefix(s, i + 1);
        assert(s.take(i + 1).drop_last() =~= s.take(i));
    } else {
        assert(s.take(i) =~= s);
    }
}

/// The report of a cleanup scan: the candidates largest first (equal sizes
/// in the order found) and the bytes the cleanable ones hold.
pub fn cleanup_report(candidates: Vec<CleanupCandidate>, scanned_at: u64) -> (r: CleanupReport)
    requires
        cleanable_total(candidates@) <= u64::MAX,
    ensures
        r.scanned_at == scanned_at,
        r.reclaimable_bytes == cleanable_total(candidates@),
        r.candidates@ == by_size(candidates@),
{
    let mut total: u64 = 0;
    let mut i: usize = 0;
    while i < candidates.len()
        invariant
            i <= candidates@.len(),
            cleanable_total(candidates@) <= u64::MAX,
            total == cleanable_total(candidates@.take(i as int)),
        decreases candidates@.len() - i,
    {
        proof {
            assert(candidates@.take(i + 1).drop_last() =~= candidates@.take(i as int));
            lemma_total_prefix(candidates@, i + 1);
        }
        if candidates[i].cleanable {
            total = total + candidates[i].size_bytes;
        }
        i = i + 1;
    }
    proof {
        assert(candidates@.take(candidates@.len() as int) =~= candidates@);
    }
    CleanupReport { scanned_at, reclaimable_bytes: total, candidates: sort_by_size(candidates) }
}

/// A path asked for cleaning, as the file system resolved it.
#[derive(Clone, Debug)]
pub struct CleanupTarget {
    /// The path as it was asked for.
    pub requested: String,
    /// Its canonical form, or none where it no longer exists.
    pub canonical: Option<String>,
    /// Whether the canonical path lies under one of the cleanable folders.
    pub within_allowed: bool,
    /// Whether it names an ordinary file.
    pub is_file: bool,
    /// Its size, zero where that could not be read.
    pub size_bytes: u64,
}

/// A confirmed maintenance change, for the platform layer to carry out.
#[derive(Clone, Debug)]
pub enum MaintenanceAction {
    /// Delete these files (canonical paths).
    Cleanup(Vec<String>),
    /// Enable or disable a startup entry.
    Startup { source: String, name: String, command: String, enable: bool },
}

/// A maintenance change waiting under its preview id until it expires.
#[derive(Clone, Debug)]
pub struct PendingMaintenance {
    pub id: String,
    pub expires_at: u64,
    pub action: MaintenanceAction,
}

impl Keyed for PendingMaintenance {
    open spec fn id_of(&self) -> Seq<char> {
        self.id@
    }

    fn id(&self) -> (r: &str) {
        self.id.as_str()
    }
}

/// How many requested paths a cleanup considers.
pub const CLEANUP_BATCH: usize = 1000;

/// The requested paths a cleanup considers: the first thousand.
pub open spec fn batch(s: Seq<CleanupTarget>) -> Seq<CleanupTarget> {
    if s.len() <= 1000 {
        s
    } else {
        s.take(1000)
    }
}

/// Whether a resolved path may be cleaned.
pub open spec fn target_ok(t: CleanupTarget) -> bool {
    t.canonical is Some && t.within_allowed && t.is_file
}

/// The error for the first target that may not be cleaned, if any.
pub open spec fn target_error(s: Seq<CleanupTarget>) -> Option<Seq<char>>
    decreases s.len(),
{
    if s.len() == 0 {
        None
    } else if s[0].canonical is None {
        Some("文件已不存在："@ + s[0].requested@)
    } else if !target_ok(s[0]) {
        Some("安全策略只允许清理已扫描缓存目录中的普通文件"@)
    } else {
        target_error(s.drop_first())
    }
}

/// Saturating addition.
pub open spec fn plus(a: u64, b: u64) -> u64 {
    if a + b <= u64::MAX {
        (a + b) as u64
    } else {
        u64::MAX
    }
}

/// The targets' sizes added up, saturating, in order.
pub open spec fn saturating_total(s: Seq<CleanupTarget>) -> u64
    decreases s.len(),
{
    if s.len() == 0 {
        0
    } else {
        plus(saturating_total(s.drop_last()), s.last().size_bytes)
    }
}

/// The canonical paths of the targets.
pub open spec fn canonical_paths(s: Seq<CleanupTarget>) -> Seq<Seq<char>> {
    s.map_values(|t: CleanupTarget| t.canonical->0@)
}

/// The texts of a list of strings.
pub open spec fn texts(v: Seq<String>) -> Seq<Seq<char>> {
    v.map_values(|s: String| s@)
}

/// Whether a startup entry may be managed: a name of 1 to 260 bytes, from
/// the current user's registry or from the disabled list.
pub open spec fn startup_manageable(source: Seq<char>, name: Seq<char>) -> bool {
    &&& 0 < crate::ai::byte_len(name) <= 260
    &&& (seq_contains(source, "HKEY_CURRENT_USER"@) || source == "大黄狗\\已禁用"@)
}

proof fn lemma_error_prefix(s: Seq<CleanupTarget>, i: int)
    requires
        0 <= i < s.len(),
        forall|k: int| 0 <= k < i ==> target_ok(#[trigger] s[k]),
    ensures
        target_error(s) == target_error(s.skip(i)),
    decreases i,
{
    if i > 0 {
        assert(target_ok(s[0]));
        assert(s.drop_first().skip(i - 1) =~= s.skip(i));
        assert forall|k: int| 0 <= k < i - 1 implies target_ok(#[trigger] s.drop_first()[k]) by {
            assert(s.drop_first()[k] == s[k + 1]);
        }
        lemma_error_prefix(s.drop_first(), i - 1);
    } else {
        assert(s.skip(0) =~= s);
    }
}

proof fn lemma_no_error(s: Seq<CleanupTarget>)
    requires
        forall|k: int| 0 <= k < s.len() ==> target_ok(#[trigger] s[k]),
    ensures
        target_error(s) is None,
    decreases s.len(),
{
    if s.len() > 0 {
        lemma_no_error(s.drop_first());
    }
}

/// Whether `p` and the waiting changes `after` are what preparing the
/// cleanup of `b` at `now` (milliseconds) gives, from `before`.
pub open spec fn cleanup_prepared(
    before: Map<Seq<char>, PendingMaintenance>,
    after: Map<Seq<char>, PendingMaintenance>,
    b: Seq<CleanupTarget>,
    now: u64,
    p: MaintenancePreview,
) -> bool {
    &&& p.title@ == "清理临时文件"@
    &&& p.warning@ == "文件删除后无法从大黄狗恢复；正在使用的文件会跳过。"@
    &&& p.item_count == b.len()
    &&& p.total_bytes == saturating_total(b)
    &&& p.expires_at == now + 30_000
    &&& after == before.insert(p.preview_id@, after[p.preview_id@])
    &&& after[p.preview_id@].id@ == p.preview_id@
    &&& after[p.preview_id@].expires_at == p.expires_at
    &&& after[p.preview_id@].action matches MaintenanceAction::Cleanup(paths) && texts(paths@)
        == canonical_paths(b)
}

/// What preparing the cleanup of `ts` at `now` (milliseconds) answers, with
/// `allowed_roots` cleanable folders found, and how it changes the waiting
/// changes from `before` to `after`.
pub open spec fn cleanup_outcome(
    before: Map<Seq<char>, PendingMaintenance>,
    after: Map<Seq<char>, PendingMaintenance>,
    allowed_roots: usize,
    ts: Seq<CleanupTarget>,
    now: u64,
    r: Result<MaintenancePreview, String>,
) -> bool {
    let b = batch(ts);
    if allowed_roots == 0 {
        &&& after == before
        &&& r matches Err(e) && e@ == "无法定位可清理目录"@
    } else if target_error(b) is Some {
        &&& after == before
        &&& r matches Err(e) && e@ == target_error(b)->0
    } else if b.len() == 0 {
        &&& after == before
        &&& r matches Err(e) && e@ == "没有选择可清理文件"@
    } else {
        r matches Ok(p) && cleanup_prepared(before, after, b, now, p)
    }
}

/// Maintenance changes waiting for confirmation.
pub struct MaintenanceManager {
    pending: KeyedStore<PendingMaintenance>,
}

impl MaintenanceManager {
    /// The waiting changes by preview id.
    pub closed spec fn view(&self) -> Map<Seq<char>, PendingMaintenance> {
        self.pending.view()
    }

    /// The store's invariant.
    pub closed spec fn wf(&self) -> bool {
        self.pending.wf()
    }

    /// Nothing waiting.
    pub fn new() -> (r: Self)
        ensures
            r.wf(),
            r.view() == Map::<Seq<char>, PendingMaintenance>::empty(),
    {
        MaintenanceManager { pending: KeyedStore::new() }
    }

    /// Prepares the cleaning of the requested files at `now` (milliseconds):
    /// the first thousand are considered, each must exist as an ordinary
    /// file under one of the cleanable folders, and the change waits thirty
    /// seconds for confirmation.
    pub fn prepare_cleanup(&mut self, allowed_roots: usize, targets: Vec<CleanupTarget>, now: u64) -> (r: Result<
        MaintenancePreview,
        String,
    >)
        requires
            old(self).wf(),
            now <= u64::MAX - 30_000,
        ensures
            final(self).wf(),
            cleanup_outcome(old(self).view(), final(self).view(), allowed_roots, targets@, now, r),
    {
        if allowed_roots == 0 {
            return Err(String::from_str("无法定位可清理目录"));
        }
        let ghost b = batch(targets@);
        let n = if targets.len() <= CLEANUP_BATCH {
            targets.len()
        } else {
            CLEANUP_BATCH
        };
        assert(b.len() == n);
        let mut valid: Vec<String> = Vec::new();
        let mut total: u64 = 0;
        let mut i: usize = 0;
        while i < n
            invariant
                i <= n == b.len(),
                b == batch(targets@),
                allowed_roots > 0,
                self.wf(),
                self.view() == old(self).view(),
                forall|k: int| 0 <= k < b.len() ==> b[k] == targets@[k],
                forall|k: int| 0 <= k < i ==> target_ok(#[trigger] b[k]),
                total == saturating_total(b.take(i as int)),
                texts(valid@) == canonical_paths(b.take(i as int)),
                valid@.len() == i,
            decreases n - i,
        {
            let t = &targets[i];
            assert(b[i as int] == targets@[i as int]);
            let canonical = match &t.canonical {
                None => {
                    proof {
                        lemma_error_prefix(b, i as int);
                    }
                    return Err(join2("文件已不存在：", t.requested.as_str()));
                },
                Some(c) => c,
            };
            if !t.within_allowed || !t.is_file {
                proof {
                    lemma_error_prefix(b, i as int);
                }
                return Err(String::from_str("安全策略只允许清理已扫描缓存目录中的普通文件"));
            }
            proof {
                assert(b.take(i + 1).drop_last() =~= b.take(i as int));
                assert(b.take(i + 1).last() == b[i as int]);
            }
            total = total.saturating_add(t.size_bytes);
            let ghost before = valid@;
            valid.push(canonical.clone());
            proof {
                assert forall|k: int| 0 <= k < i + 1 implies texts(valid@)[k] == canonical_paths(
                    b.take(i + 1),
                )[k] by {
                    if k < i {
                        assert(valid@[k] == before[k]);
                        assert(b.take(i + 1)[k] == b.take(i as int)[k]);
                        assert(texts(before)[k] == canonical_paths(b.take(i as int))[k]);
                    } else {
                        assert(b.take(i + 1)[k] == b[i as int]);
                    }
                }
                assert(texts(valid@) =~= canonical_paths(b.take(i + 1)));
            }
            i = i + 1;
        }
        proof {
            assert(b.take(n as int) =~= b);
            lemma_no_error(b);
        }
        if n == 0 {
            return Err(String::from_str("没有选择可清理文件"));
        }
        let id = crate::ids::new_id();
        let expires_at = now + 30_000;
        let preview = MaintenancePreview {
            preview_id: id.clone(),
            title: String::from_str("清理临时文件"),
            warning: String::from_str("文件删除后无法从大黄狗恢复；正在使用的文件会跳过。"),
            item_count: n,
            total_bytes: total,
            expires_at,
        };
        self.pending.insert(PendingMaintenance { id, expires_at, action: MaintenanceAction::Cleanup(valid) });
        Ok(preview)
    }
}

/// What preparing a startup change answers, and how it changes the waiting
/// changes from `before` to `after`.
pub open spec fn startup_outcome(
    before: Map<Seq<char>, PendingMaintenance>,
    after: Map<Seq<char>, PendingMaintenance>,
    source: String,
    name: String,
    command: String,
    enable: bool,
    now: u64,
    r: Result<MaintenancePreview, String>,
) -> bool {
    if !startup_manageable(source@, name@) {
        &&& after == before
        &&& r matches Err(e) && e@ == "首版只允许管理当前用户启动项"@
    } else {
        &&& r matches Ok(p)
        &&& r->Ok_0.title@ == (if enable {
            "启用启动项 "@
        } else {
            "禁用启动项 "@
        }) + name@
        &&& r->Ok_0.warning@ == "操作会修改当前用户注册表，并保留可恢复备份。"@
        &&& r->Ok_0.item_count == 1
        &&& r->Ok_0.total_bytes == 0
        &&& r->Ok_0.expires_at == now + 30_000
        &&& after == before.insert(
            r->Ok_0.preview_id@,
            PendingMaintenance {
                id: after[r->Ok_0.preview_id@].id,
                expires_at: (now + 30_000) as u64,
                action: MaintenanceAction::Startup { source, name, command, enable },
            },
        )
        &&& after[r->Ok_0.preview_id@].id@ == r->Ok_0.preview_id@
    }
}

/// What confirming the change `id` at `now` (milliseconds) answers: the
/// change leaves the waiting set in every case, and is handed back only
/// while unexpired.
pub open spec fn confirm_outcome(
    before: Map<Seq<char>, PendingMaintenance>,
    after: Map<Seq<char>, PendingMaintenance>,
    id: Seq<char>,
    now: u64,
    r: Result<MaintenanceAction, String>,
) -> bool {
    &&& after == before.remove(id)
    &&& if !before.contains_key(id) {
        r matches Err(e) && e@ == "确认已失效"@
    } else if before[id].expires_at < now {
        r matches Err(e) && e@ == "确认已过期"@
    } else {
        r == Ok::<MaintenanceAction, String>(before[id].action)
    }
}

impl MaintenanceManager {
    /// Prepares enabling or disabling a startup entry at `now`
    /// (milliseconds); only the current user's entries, and those this
    /// program disabled, with a name of 1 to 260 bytes, may be managed.
    pub fn prepare_startup(
        &mut self,
        source: String,
        name: String,
        command: String,
        enable: bool,
        now: u64,
    ) -> (r: Result<MaintenancePreview, String>)
        requires
            old(self).wf(),
            now <= u64::MAX - 30_000,
        ensures
            final(self).wf(),
            startup_outcome(old(self).view(), final(self).view(), source, name, command, enable, now, r),
    {
        if name.as_str().len() == 0 || name.as_str().len() > 260 || (!str_contains(source.as_str(), "HKEY_CURRENT_USER")
            && !str_eq(source.as_str(), "大黄狗\\已禁用")) {
            return Err(String::from_str("首版只允许管理当前用户启动项"));
        }
        let id = crate::ids::new_id();
        let expires_at = now + 30_000;
        let title = if enable {
            join2("启用启动项 ", name.as_str())
        } else {
            join2("禁用启动项 ", name.as_str())
        };
        let preview = MaintenancePreview {
            preview_id: id.clone(),
            title,
            warning: String::from_str("操作会修改当前用户注册表，并保留可恢复备份。"),
            item_count: 1,
            total_bytes: 0,
            expires_at,
        };
        self.pending.insert(
            PendingMaintenance {
                id,
                expires_at,
                action: MaintenanceAction::Startup { source, name, command, enable },
            },
        );
        Ok(preview)
    }

    /// Redeems the change `id` at `now` (milliseconds).
    pub fn confirm(&mut self, id: &str, now: u64) -> (r: Result<MaintenanceAction, String>)
        requires
            old(self).wf(),
        ensures
            final(self).wf(),
            confirm_outcome(old(self).view(), final(self).view(), id@, now, r),
    {
        let p = match self.pending.remove(id) {
            None => {
                return Err(String::from_str("确认已失效"));
            },
            Some(p) => p,
        };
        if p.expires_at < now {
            return Err(String::from_str("确认已过期"));
        }
        Ok(p.action)
    }
}

/// The message after a startup entry was changed.
pub fn startup_done_message(name: &str, enable: bool) -> (r: String)
    ensures
        r@ == "已"@ + (if enable {
            "启用"@
        } else {
            "禁用"@
        }) + "启动项 "@ + name@,
{
    crate::text::join4(
        "已",
        if enable {
            "启用"
        } else {
            "禁用"
        },
        "启动项 ",
        name,
    )
}

/// The result of a carried-out maintenance change, under a fresh id.
pub fn maintenance_result(message: String) -> (r: ActionResult)
    ensures
        r.success,
        r.message == message,
        r.action_id@.len() == 36,
{
    ActionResult { action_id: crate::ids::new_id(), success: true, message }
}

/// Whether `p` is the first place where `sep` occurs in `s`.
pub open spec fn is_first_at(s: Seq<char>, sep: Seq<char>, p: int) -> bool {
    occurs_at(s, sep, p) && forall|q: int| 0 <= q < p ==> !occurs_at(s, sep, q)
}

/// The first place where `sep` occurs in `s` (meaningful where it occurs).
pub open spec fn first_at(s: Seq<char>, sep: Seq<char>) -> int {
    choose|p: int| is_first_at(s, sep, p)
}

proof fn lemma_first_at(s: Seq<char>, sep: Seq<char>, p: int)
    requires
        is_first_at(s, sep, p),
    ensures
        first_at(s, sep) == p,
{
    let c = first_at(s, sep);
    assert(is_first_at(s, sep, c));
    if c < p {
        assert(!occurs_at(s, sep, c));
    } else if c > p {
        assert(!occurs_at(s, sep, p));
    }
}

fn first_occurrence(s: &Vec<char>, sep: &Vec<char>) -> (r: Option<usize>)
    ensures
        match r {
            Some(p) => p + sep@.len() <= s@.len() && first_at(s@, sep@) == p && is_first_at(s@, sep@, p as int),
            None => !seq_contains(s@, sep@),
        },
{
    match find(s, sep) {
        Some(p) => {
            proof {
                lemma_first_at(s@, sep@, p as int);
            }
            Some(p)
        },
        None => None,
    }
}

/// The text before and after the first line break of a stored backup.
pub open spec fn backup_parts(stored: Seq<char>) -> Option<(Seq<char>, Seq<char>)> {
    if seq_contains(stored, "\n"@) {
        let p = first_at(stored, "\n"@);
        Some((stored.take(p), stored.skip(p + 1)))
    } else {
        None
    }
}

fn piece(s: &str, lo: usize, hi: usize) -> (r: String)
    requires
        lo <= hi <= s@.len(),
    ensures
        r@ == s@.subrange(lo as int, hi as int),
{
    s.substring_char(lo, hi).to_owned()
}

/// Splits a stored backup, "registry key, line break, command", into its
/// two parts; none where it holds no line break.
pub fn split_backup(stored: &str) -> (r: Option<(String, String)>)
    ensures
        match backup_parts(stored@) {
            Some((a, b)) => r matches Some((x, y)) && x@ == a && y@ == b,
            None => r is None,
        },
{
    proof {
        reveal_strlit("\n");
    }
    let v = chars_of(stored);
    let sep = chars_of("\n");
    match first_occurrence(&v, &sep) {
        Some(p) => {
            let n = v.len();
            assert(sep@.len() == 1);
            assert(p + 1 <= n);
            let a = piece(stored, 0, p);
            let b = piece(stored, p + 1, n);
            assert(a@ =~= stored@.take(p as int));
            assert(b@ =~= stored@.skip(p + 1));
            Some((a, b))
        },
        None => None,
    }
}

/// The command kept in a stored backup: the text after its first line
/// break, or nothing.
pub fn backup_command(stored: &str) -> (r: String)
    ensures
        r@ == match backup_parts(stored@) {
            Some((_, b)) => b,
            None => Seq::<char>::empty(),
        },
{
    match split_backup(stored) {
        Some((_, b)) => b,
        None => String::new(),
    }
}

/// What a stored backup holds: the registry key, a line break, the command.
pub fn backup_value(subkey: &str, current: &str) -> (r: String)
    ensures
        r@ == subkey@ + "\n"@ + current@,
{
    crate::text::join3(subkey, "\n", current)
}

/// The registry key under the current user that a startup source names:
/// the text after the first "HKEY_CURRENT_USER\\", up to any further one.
pub open spec fn user_subkey(source: Seq<char>) -> Option<Seq<char>> {
    let sep = "HKEY_CURRENT_USER\\"@;
    if seq_contains(source, sep) {
        let rest = source.skip(first_at(source, sep) + sep.len());
        if seq_contains(rest, sep) {
            Some(rest.take(first_at(rest, sep)))
        } else {
            Some(rest)
        }
    } else {
        None
    }
}

/// The registry key under the current user that a startup source names.
pub fn run_subkey(source: &str) -> (r: Option<String>)
    ensures
        match user_subkey(source@) {
            Some(k) => r matches Some(x) && x@ == k,
            None => r is None,
        },
{
    let v = chars_of(source);
    let sep = chars_of("HKEY_CURRENT_USER\\");
    match first_occurrence(&v, &sep) {
        None => None,
        Some(p) => {
            let n = v.len();
            let m = sep.len();
            assert(p + m <= n);
            let start = p + m;
            let rest = piece(source, start, n);
            let rv = chars_of(rest.as_str());
            assert(rv@ =~= source@.skip(start as int));
            match first_occurrence(&rv, &sep) {
                None => Some(rest),
                Some(q) => {
                    let k = piece(rest.as_str(), 0, q);
                    assert(k@ =~= rv@.take(q as int));
                    Some(k)
                },
            }
        },
    }
}

/// A maintenance change can be redeemed at most once: after any
/// confirmation of `id`, a second confirmation of it answers that the
/// confirmation is no longer valid.
pub proof fn law_maintenance_confirmation_is_single_use(
    before: Map<Seq<char>, PendingMaintenance>,
    middle: Map<Seq<char>, PendingMaintenance>,
    after: Map<Seq<char>, PendingMaintenance>,
    id: Seq<char>,
    now1: u64,
    now2: u64,
    r1: Result<MaintenanceAction, String>,
    r2: Result<MaintenanceAction, String>,
)
    requires
        confirm_outcome(before, middle, id, now1, r1),
        confirm_outcome(middle, after, id, now2, r2),
    ensures
        r2 matches Err(e) && e@ == "确认已失效"@,
{
}

/// A prepared change is handed back by a confirmation within thirty
/// seconds, and refused as expired after that.
pub proof fn law_maintenance_preview_expires_after_thirty_seconds(
    before: Map<Seq<char>, PendingMaintenance>,
    after: Map<Seq<char>, PendingMaintenance>,
    id: Seq<char>,
    prepared_at: u64,
    now: u64,
    r: Result<MaintenanceAction, String>,
)
    requires
        before.contains_key(id),
        before[id].expires_at == prepared_at + 30_000,
        confirm_outcome(before, after, id, now, r),
    ensures
        now <= prepared_at + 30_000 ==> r == Ok::<MaintenanceAction, String>(before[id].action),
        now > prepared_at + 30_000 ==> (r matches Err(e) && e@ == "确认已过期"@),
{
}

/// Only entries of the current user's registry, or of the list this
/// program disabled, get a startup preview.
pub proof fn law_startup_change_needs_managed_source(
    before: Map<Seq<char>, PendingMaintenance>,
    after: Map<Seq<char>, PendingMaintenance>,
    source: String,
    name: String,
    command: String,
    enable: bool,
    now: u64,
    p: Result<MaintenancePreview, String>,
)
    requires
        startup_outcome(before, after, source, name, command, enable, now, p),
        p is Ok,
    ensures
        seq_contains(source@, "HKEY_CURRENT_USER"@) || source@ == "大黄狗\\已禁用"@,
        0 < crate::ai::byte_len(name@) <= 260,
{
}

} // verus!
