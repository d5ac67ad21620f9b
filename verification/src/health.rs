//! Disk-space pressure, the health score, the patrol mood and the local
//! rule-based diagnosis.
use vstd::prelude::*;
use crate::types::LocalDiagnosis;

verus! {

/// Capacity and throughput of one mounted disk.
#[derive(Clone, Debug)]
pub struct DiskMetric {
    pub name: String,
    pub mount_point: String,
    pub total_bytes: u64,
    pub available_bytes: u64,
    pub read_bps: u64,
    pub write_bps: u64,
}

/// How short a disk is of free space: "critical" below 5% free, "warning"
/// below 10%, nothing otherwise or when its size is unknown.
pub open spec fn pressure_level(available: u64, total: u64) -> Option<Seq<char>> {
    if total == 0 {
        None
    } else if 100 * available < 5 * total {
        Some("critical"@)
    } else if 100 * available < 10 * total {
        Some("warning"@)
    } else {
        None
    }
}

/// The pressure level of a disk from its free and total bytes.
pub fn disk_space_pressure(available_bytes: u64, total_bytes: u64) -> (r: Option<&'static str>)
    ensures
        match r {
            Some(s) => pressure_level(available_bytes, total_bytes) == Some(s@),
            None => pressure_level(available_bytes, total_bytes) is None,
        },
{
    if total_bytes == 0 {
        return None;
    }
    let a = available_bytes as u128 * 100;
    let t = total_bytes as u128;
    if a < 5 * t {
        Some("critical")
    } else if a < 10 * t {
        Some("warning")
    } else {
        None
    }
}

/// Whether disk `x` has a strictly smaller share of free space than disk `y`.
pub open spec fn freer_than(y: DiskMetric, x: DiskMetric) -> bool {
    (x.available_bytes as int) * (y.total_bytes as int) < (y.available_bytes as int) * (
    x.total_bytes as int)
}

/// Whether `i` is the pressured disk with the smallest share of free space,
/// the first one on ties.
pub open spec fn is_lowest(disks: Seq<DiskMetric>, i: int) -> bool {
    &&& 0 <= i < disks.len()
    &&& pressure_level(disks[i].available_bytes, disks[i].total_bytes) is Some
    &&& forall|j: int|
        0 <= j < disks.len() && pressure_level(disks[j].available_bytes, disks[j].total_bytes) is Some
            ==> (j < i ==> freer_than(disks[j], disks[i])) && (j > i ==> !freer_than(
            disks[i],
            disks[j],
        ))
}

/// The pressured disk with the least free space, with its level.
pub fn lowest_disk_pressure(disks: &Vec<DiskMetric>) -> (r: Option<(usize, &'static str)>)
    ensures
        match r {
            Some((i, level)) => is_lowest(disks@, i as int) && pressure_level(
                disks@[i as int].available_bytes,
                disks@[i as int].total_bytes,
            ) == Some(level@),
            None => forall|j: int|
                0 <= j < disks@.len() ==> pressure_level(
                    disks@[j].available_bytes,
                    disks@[j].total_bytes,
                ) is None,
        },
{
    let mut best: Option<(usize, &'static str)> = None;
    let mut k: usize = 0;
    while k < disks.len()
        invariant
            k <= disks@.len(),
            match best {
                Some((i, level)) => i < k && pressure_level(
                    disks@[i as int].available_bytes,
                    disks@[i as int].total_bytes,
                ) == Some(level@) && forall|j: int|
                    0 <= j < k && pressure_level(disks@[j].available_bytes, disks@[j].total_bytes)
                        is Some ==> (j < i ==> freer_than(disks@[j], disks@[i as int])) && (j > i
                        ==> !freer_than(disks@[i as int], disks@[j])),
                None => forall|j: int|
                    0 <= j < k ==> pressure_level(disks@[j].available_bytes, disks@[j].total_bytes)
                        is None,
            },
        decreases disks@.len() - k,
    {
        let d = &disks[k];
        match disk_space_pressure(d.available_bytes, d.total_bytes) {
            Some(level) => {
                match best {
                    Some((i, _)) => {
                        let b = &disks[i];
                        let lhs = mul_wide(d.available_bytes, b.total_bytes);
                        let rhs = mul_wide(b.available_bytes, d.total_bytes);
                        if lhs < rhs {
                            proof {
                                assert forall|j: int|
                                    0 <= j < k && pressure_level(
                                        disks@[j].available_bytes,
                                        disks@[j].total_bytes,
                                    ) is Some implies freer_than(disks@[j], disks@[k as int]) by {
                                    if j != i {
                                        lemma_freer_transitive(disks@[j], disks@[i as int], disks@[k as int]);
                                    }
                                }
                            }
                            best = Some((k, level));
                        }
                    },
                    None => {
                        best = Some((k, level));
                    },
                }
            },
            None => {},
        }
        k = k + 1;
    }
    best
}

/// The exact product of two 64-bit integers.
fn mul_wide(a: u64, b: u64) -> (r: u128)
    ensures
        r == a * b,
{
    assert((a as int) * (b as int) <= 0xffff_ffff_ffff_ffff * 0xffff_ffff_ffff_ffff) by (nonlinear_arith)
        requires
            0 <= a <= 0xffff_ffff_ffff_ffff,
            0 <= b <= 0xffff_ffff_ffff_ffff,
    ;
    (a as u128) * (b as u128)
}

proof fn lemma_freer_transitive(a: DiskMetric, b: DiskMetric, c: DiskMetric)
    requires
        pressure_level(a.available_bytes, a.total_bytes) is Some,
        pressure_level(b.available_bytes, b.total_bytes) is Some,
        pressure_level(c.available_bytes, c.total_bytes) is Some,
        !freer_than(b, a),
        freer_than(b, c),
    ensures
        freer_than(a, c),
{
    let (aa, at, ba, bt, ca, ct) = (
        a.available_bytes as int,
        a.total_bytes as int,
        b.available_bytes as int,
        b.total_bytes as int,
        c.available_bytes as int,
        c.total_bytes as int,
    );
    assert(at > 0 && bt > 0 && ct > 0);
    assert(ba * at <= aa * bt);
    assert(ca * bt < ba * ct);
    assert(ca * at < aa * ct) by (nonlinear_arith)
        requires
            at > 0,
            bt > 0,
            ct > 0,
            ba * at <= aa * bt,
            ca * bt < ba * ct,
            aa >= 0,
            ba >= 0,
            ca >= 0,
    ;
}

/// The health score once disk pressure is taken into account: at most 45
/// with a critical disk, at most 70 with a disk in warning.
pub open spec fn capped_score(resource_score: u8, level: Option<Seq<char>>) -> u8 {
    match level {
        Some(l) => if l == "critical"@ {
            if resource_score <= 45 {
                resource_score
            } else {
                45
            }
        } else if resource_score <= 70 {
            resource_score
        } else {
            70
        },
        None => resource_score,
    }
}

/// Caps the score from CPU and memory load by the disk-space pressure.
pub fn health_score(resource_score: u8, disks: &Vec<DiskMetric>) -> (r: u8)
    ensures
        r == capped_score(
            resource_score,
            match lowest_choice(disks@) {
                Some(i) => pressure_level(disks@[i].available_bytes, disks@[i].total_bytes),
                None => None,
            },
        ),
{
    match lowest_disk_pressure(disks) {
        Some((i, level)) => {
            proof {
                lemma_lowest_unique(disks@, i as int);
            }
            if crate::text::str_eq(level, "critical") {
                if resource_score <= 45 {
                    resource_score
                } else {
                    45
                }
            } else if resource_score <= 70 {
                resource_score
            } else {
                70
            }
        },
        None => resource_score,
    }
}

/// The most pressured disk, where there is one.
pub open spec fn lowest_choice(disks: Seq<DiskMetric>) -> Option<int> {
    if exists|i: int| is_lowest(disks, i) {
        Some(choose|i: int| is_lowest(disks, i))
    } else {
        None
    }
}

proof fn lemma_lowest_unique(disks: Seq<DiskMetric>, i: int)
    requires
        is_lowest(disks, i),
    ensures
        lowest_choice(disks) == Some(i),
{
    let c = choose|k: int| is_lowest(disks, k);
    assert(is_lowest(disks, c));
    if c < i {
        assert(!freer_than(disks[c], disks[i]));
    } else if c > i {
        assert(!freer_than(disks[i], disks[c]));
    }
}


/// The dog's state and its one-line summary: patrolling when nothing is
/// open, investigating otherwise.
pub fn patrol_mood(has_findings: bool) -> (r: (String, String))
    ensures
        !has_findings ==> r.0@ == "patrol"@ && r.1@ == "我正在巡逻，一切看起来都好。"@,
        has_findings ==> r.0@ == "investigating"@ && r.1@ == "我闻到一点异常，已经找到最可疑的目标。"@,
{
    if !has_findings {
        (String::from_str("patrol"), String::from_str("我正在巡逻，一切看起来都好。"))
    } else {
        (
            String::from_str("investigating"),
            String::from_str("我闻到一点异常，已经找到最可疑的目标。"),
        )
    }
}

/// What the latest snapshot says, as the local diagnosis reads it.
pub struct DiagnosisInput {
    /// Lines describing CPU, memory and the leading applications.
    pub details: Vec<String>,
    /// The disks of the snapshot.
    pub disks: Vec<DiskMetric>,
    /// The line describing the most pressured disk, used where there is one.
    pub disk_note: String,
    /// Whether memory use is at least 90%.
    pub memory_high: bool,
    /// Whether CPU use is at least 90%.
    pub cpu_high: bool,
    pub disk_read_bps: u64,
    pub disk_write_bps: u64,
}

/// Which explanation the local diagnosis gives, in order of precedence.
pub enum Cause {
    DiskSpace,
    Memory,
    Cpu,
    DiskActivity,
    Nothing,
}

/// The cause the local rules pick for a snapshot.
pub open spec fn cause_of(input: DiagnosisInput) -> Cause {
    if exists|i: int| is_lowest(input.disks@, i) {
        Cause::DiskSpace
    } else if input.memory_high {
        Cause::Memory
    } else if input.cpu_high {
        Cause::Cpu
    } else if input.disk_read_bps + input.disk_write_bps > 100 * 1024 * 1024 {
        Cause::DiskActivity
    } else {
        Cause::Nothing
    }
}

/// The summary line for each cause.
pub open spec fn cause_summary(c: Cause) -> Seq<char> {
    match c {
        Cause::DiskSpace => "主人，我找到一个明确问题：磁盘空间快用完了。"@,
        Cause::Memory => "主人，我找到原因了：电脑现在主要是内存压力太大。"@,
        Cause::Cpu => "主人，电脑现在主要是 CPU 一直很忙。"@,
        Cause::DiskActivity => "主人，电脑可能正在大量读写磁盘。"@,
        Cause::Nothing => "我看了一圈，当前没有明显的资源瓶颈。"@,
    }
}

/// The suggestions for each cause.
pub open spec fn cause_suggestions(c: Cause) -> Seq<Seq<char>> {
    match c {
        Cause::DiskSpace => seq!["先清理下载目录、回收站和不再使用的大文件"@, "为系统盘保留至少 10% 可用空间"@],
        Cause::Memory => seq!["先保存工作，再检查内存占用最高的普通应用"@, "不要直接结束 Windows 系统进程"@],
        Cause::Cpu => seq!["观察 CPU 占用最高的进程是否持续异常"@, "短时尖峰可以先等一会儿"@],
        Cause::DiskActivity => seq!["等待安装、同步或扫描任务结束"@, "查看资源占用靠前的进程"@],
        Cause::Nothing => seq!["如果卡顿再次出现，我会继续记录当时的状态"@],
    }
}

/// The confidence for each cause.
pub open spec fn cause_confidence(c: Cause) -> Seq<char> {
    match c {
        Cause::DiskSpace | Cause::Memory | Cause::Cpu => "high"@,
        _ => "medium"@,
    }
}

fn texts(items: Vec<&str>) -> (r: Vec<String>)
    ensures
        r@.map_values(|s: String| s@) == items@.map_values(|s: &str| s@),
{
    let mut out: Vec<String> = Vec::new();
    let mut i: usize = 0;
    while i < items.len()
        invariant
            i <= items@.len(),
            out@.len() == i,
            forall|k: int| 0 <= k < i ==> out@[k]@ == items@[k]@,
        decreases items@.len() - i,
    {
        out.push(String::from_str(items[i]));
        i = i + 1;
    }
    assert(out@.map_values(|s: String| s@) =~= items@.map_values(|s: &str| s@));
    out
}

/// The local, rule-based answer to "why is the computer slow": disk space
/// first, then memory, CPU and disk activity; with no snapshot yet, a
/// request to wait.
pub fn local_diagnosis(input: Option<DiagnosisInput>) -> (d: LocalDiagnosis)
    requires
        input matches Some(s) ==> s.disk_read_bps + s.disk_write_bps <= u64::MAX,
    ensures
        d.source@ == "local"@,
        d.model is None,
        match input {
            None => {
                &&& d.summary@ == "我还没有收集到足够的数据。"@
                &&& d.details@.len() == 0
                &&& d.suggestions@.map_values(|s: String| s@) == seq!["稍等几秒再试一次"@]
                &&& d.confidence@ == "low"@
            },
            Some(s) => {
                &&& d.summary@ == cause_summary(cause_of(s))
                &&& d.suggestions@.map_values(|t: String| t@) == cause_suggestions(cause_of(s))
                &&& d.confidence@ == cause_confidence(cause_of(s))
                &&& d.details@ == if cause_of(s) is DiskSpace {
                    s.details@.push(s.disk_note)
                } else {
                    s.details@
                }
            },
        },
{
    let s = match input {
        None => {
            let suggestions = texts(vec!["稍等几秒再试一次"]);
            return LocalDiagnosis {
                summary: String::from_str("我还没有收集到足够的数据。"),
                details: Vec::new(),
                suggestions,
                confidence: String::from_str("low"),
                source: String::from_str("local"),
                model: None,
            };
        },
        Some(s) => s,
    };
    let ghost g = s;
    let mut details = s.details;
    let pressured = lowest_disk_pressure(&s.disks);
    let (summary, suggestions, confidence) = match pressured {
        Some((i, _)) => {
            details.push(s.disk_note);
            (
                "主人，我找到一个明确问题：磁盘空间快用完了。",
                vec!["先清理下载目录、回收站和不再使用的大文件", "为系统盘保留至少 10% 可用空间"],
                "high",
            )
        },
        None => {
            proof {
                assert(!exists|i: int| is_lowest(g.disks@, i));
            }
            if s.memory_high {
                (
                    "主人，我找到原因了：电脑现在主要是内存压力太大。",
                    vec!["先保存工作，再检查内存占用最高的普通应用", "不要直接结束 Windows 系统进程"],
                    "high",
                )
            } else if s.cpu_high {
                (
                    "主人，电脑现在主要是 CPU 一直很忙。",
                    vec!["观察 CPU 占用最高的进程是否持续异常", "短时尖峰可以先等一会儿"],
                    "high",
                )
            } else if s.disk_read_bps + s.disk_write_bps > 100 * 1024 * 1024 {
                (
                    "主人，电脑可能正在大量读写磁盘。",
                    vec!["等待安装、同步或扫描任务结束", "查看资源占用靠前的进程"],
                    "medium",
                )
            } else {
                (
                    "我看了一圈，当前没有明显的资源瓶颈。",
                    vec!["如果卡顿再次出现，我会继续记录当时的状态"],
                    "medium",
                )
            }
        },
    };
    LocalDiagnosis {
        summary: String::from_str(summary),
        details,
        suggestions: texts(suggestions),
        confidence: String::from_str(confidence),
        source: String::from_str("local"),
        model: None,
    }
}

/// Whether no disk of the snapshot is short of free space: each has an
/// unknown size or at least 10% free.
pub open spec fn disks_roomy(disks: Seq<DiskMetric>) -> bool {
    forall|i: int| 0 <= i < disks.len() ==> (#[trigger] disks[i]).total_bytes == 0 || 100 * disks[i].available_bytes >= 10 * disks[i].total_bytes
}

/// Whether the disk at `k` is short of free space.
pub open spec fn pressured_at(disks: Seq<DiskMetric>, k: int) -> bool {
    pressure_level(disks[k].available_bytes, disks[k].total_bytes) is Some
}

proof fn lemma_lowest_exists(disks: Seq<DiskMetric>)
    requires
        exists|k: int| 0 <= k < disks.len() && #[trigger] pressured_at(disks, k),
    ensures
        exists|i: int| is_lowest(disks, i),
    decreases disks.len(),
{
    let n = disks.len() - 1;
    let d = disks.drop_last();
    if exists|k: int| 0 <= k < d.len() && #[trigger] pressured_at(d, k) {
        lemma_lowest_exists(d);
        let i0 = choose|i: int| is_lowest(d, i);
        assert(disks[i0] == d[i0]);
        if pressured_at(disks, n) && freer_than(disks[i0], disks[n]) {
            assert forall|j: int|
                0 <= j < disks.len() && pressure_level(disks[j].available_bytes, disks[j].total_bytes)
                    is Some implies (j < n ==> freer_than(disks[j], disks[n])) && (j > n
                ==> !freer_than(disks[n], disks[j])) by {
                if j < n && j != i0 {
                    assert(disks[j] == d[j]);
                    if j < i0 {
                        assert(freer_than(d[j], d[i0]));
                    }
                    lemma_freer_transitive(disks[j], disks[i0], disks[n]);
                }
            }
            assert(is_lowest(disks, n));
        } else {
            assert forall|j: int|
                0 <= j < disks.len() && pressure_level(disks[j].available_bytes, disks[j].total_bytes)
                    is Some implies (j < i0 ==> freer_than(disks[j], disks[i0])) && (j > i0
                ==> !freer_than(disks[i0], disks[j])) by {
                if j < n {
                    assert(disks[j] == d[j]);
                }
            }
            assert(is_lowest(disks, i0));
        }
    } else {
        let k = choose|k: int| 0 <= k < disks.len() && #[trigger] pressured_at(disks, k);
        if k < n {
            assert(d[k] == disks[k]);
            assert(pressured_at(d, k));
        }
        assert forall|j: int|
            0 <= j < disks.len() && pressure_level(disks[j].available_bytes, disks[j].total_bytes)
                is Some implies (j < n ==> freer_than(disks[j], disks[n])) && (j > n
            ==> !freer_than(disks[n], disks[j])) by {
            if j < n {
                assert(d[j] == disks[j]);
                assert(pressured_at(d, j));
            }
        }
        assert(is_lowest(disks, n));
    }
}

/// The local diagnosis only names a cause that holds, in its order of
/// precedence: disk space exactly when some disk has less than 10% free;
/// memory only when memory use is high; CPU only when CPU use is high and
/// memory use is not; and with every disk roomy, high memory gives the
/// memory answer and, without it, high CPU gives the CPU answer.
pub proof fn law_diagnosis_names_a_cause_that_holds(s: DiagnosisInput)
    ensures
        cause_of(s) is DiskSpace <==> !disks_roomy(s.disks@),
        cause_of(s) is Memory ==> s.memory_high,
        cause_of(s) is Cpu ==> s.cpu_high && !s.memory_high,
        cause_of(s) is DiskActivity ==> !s.cpu_high && !s.memory_high && s.disk_read_bps
            + s.disk_write_bps > 100 * 1024 * 1024,
        disks_roomy(s.disks@) && s.memory_high ==> cause_summary(cause_of(s))
            == "主人，我找到原因了：电脑现在主要是内存压力太大。"@ && cause_suggestions(cause_of(s))
            == seq!["先保存工作，再检查内存占用最高的普通应用"@, "不要直接结束 Windows 系统进程"@],
        disks_roomy(s.disks@) && !s.memory_high && s.cpu_high ==> cause_summary(cause_of(s))
            == "主人，电脑现在主要是 CPU 一直很忙。"@ && cause_suggestions(cause_of(s))
            == seq!["观察 CPU 占用最高的进程是否持续异常"@, "短时尖峰可以先等一会儿"@],
{
    if !disks_roomy(s.disks@) {
        let k = choose|k: int| 0 <= k < s.disks@.len() && !(s.disks@[k].total_bytes == 0 || 100
            * s.disks@[k].available_bytes >= 10 * s.disks@[k].total_bytes);
        assert(pressured_at(s.disks@, k));
        lemma_lowest_exists(s.disks@);
    }
    if disks_roomy(s.disks@) {
        assert forall|i: int| !is_lowest(s.disks@, i) by {
            if 0 <= i < s.disks@.len() {
                assert(s.disks@[i].total_bytes == 0 || 100 * s.disks@[i].available_bytes >= 10
                    * s.disks@[i].total_bytes);
            }
        }
    }
}

} // verus!
