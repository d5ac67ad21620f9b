//! Security review of running programs and startup entries: which programs
//! to check, how each is rated, and the report that sums them up.
use vstd::prelude::*;
use crate::text::{chars_of, decimal, decimal_text, join3, lower_seq, lowered_chars, seq_contains, str_eq, vec_contains};

verus! {

/// A running program as rated by the review.
#[derive(Clone, Debug)]
pub struct ProgramRisk {
    pub pid: u32,
    pub name: String,
    pub path: String,
    pub signature_status: String,
    pub risk_level: String,
    pub reasons: Vec<String>,
}

/// A program started with the user's session.
#[derive(Clone, Debug)]
pub struct StartupEntry {
    pub name: String,
    pub command: String,
    pub source: String,
    pub risk_level: String,
    pub reasons: Vec<String>,
}

/// The result of a security review.
#[derive(Clone, Debug)]
pub struct SecurityReport {
    pub scanned_at: u64,
    pub scanned_programs: usize,
    pub signed_programs: usize,
    pub programs: Vec<ProgramRisk>,
    pub startup_entries: Vec<StartupEntry>,
    pub summary: String,
}

/// A running process with an executable image on disk.
#[derive(Clone, Debug)]
pub struct ProcessImage {
    pub pid: u32,
    pub name: String,
    pub path: String,
}

impl ProcessImage {
    /// A copy of this process image.
    pub fn duplicate(&self) -> (r: Self)
        ensures
            r == *self,
    {
        ProcessImage { pid: self.pid, name: self.name.clone(), path: self.path.clone() }
    }
}

/// Whether a path lies in a folder that the user can write to (ASCII case
/// ignored): application data, temporary files, downloads or the desktop.
pub open spec fn in_user_writable(path: Seq<char>) -> bool {
    let l = lower_seq(path);
    ||| seq_contains(l, "\\appdata\\"@)
    ||| seq_contains(l, "\\temp\\"@)
    ||| seq_contains(l, "\\downloads\\"@)
    ||| seq_contains(l, "\\desktop\\"@)
}

/// Whether `path` lies in a folder that the user can write to.
pub fn user_writable_path(path: &str) -> (r: bool)
    ensures
        r == in_user_writable(path@),
{
    let l = lowered_chars(path);
    vec_contains(&l, &chars_of("\\appdata\\")) || vec_contains(&l, &chars_of("\\temp\\"))
        || vec_contains(&l, &chars_of("\\downloads\\")) || vec_contains(&l, &chars_of("\\desktop\\"))
}

/// The risk level of a program: unsigned in a user-writable folder is
/// "medium", signed outside one is "normal", anything else "low".
pub open spec fn program_level(signed: bool, writable: bool) -> Seq<char> {
    if !signed && writable {
        "medium"@
    } else if signed && !writable {
        "normal"@
    } else {
        "low"@
    }
}

/// The reasons given for a program's level.
pub open spec fn program_reasons(signed: bool, writable: bool) -> Seq<Seq<char>> {
    (if signed {
        Seq::<Seq<char>>::empty()
    } else {
        seq!["没有可验证的数字签名"@]
    }) + (if writable {
        seq!["程序位于用户可写目录"@]
    } else {
        Seq::<Seq<char>>::empty()
    })
}

/// The texts of a list of strings.
pub open spec fn texts(v: Seq<String>) -> Seq<Seq<char>> {
    v.map_values(|s: String| s@)
}

/// Rates a program from its path and whether its signature checked out.
pub fn assess_program(pid: u32, name: String, path: String, signed: bool) -> (r: ProgramRisk)
    ensures
        r.pid == pid,
        r.name == name,
        r.path == path,
        r.signature_status@ == (if signed {
            "valid"@
        } else {
            "unverified"@
        }),
        r.risk_level@ == program_level(signed, in_user_writable(path@)),
        texts(r.reasons@) == program_reasons(signed, in_user_writable(path@)),
{
    let writable = user_writable_path(path.as_str());
    let mut reasons: Vec<String> = Vec::new();
    if !signed {
        reasons.push(String::from_str("没有可验证的数字签名"));
    }
    if writable {
        reasons.push(String::from_str("程序位于用户可写目录"));
    }
    let level = if !signed && writable {
        "medium"
    } else if signed && !writable {
        "normal"
    } else {
        "low"
    };
    let r = ProgramRisk {
        pid,
        name,
        path,
        signature_status: String::from_str(
            if signed {
                "valid"
            } else {
                "unverified"
            },
        ),
        risk_level: String::from_str(level),
        reasons,
    };
    assert(texts(r.reasons@) =~= program_reasons(signed, writable));
    r
}

/// Whether a startup command points into a temporary folder (ASCII case
/// ignored).
pub open spec fn startup_risky(command: Seq<char>) -> bool {
    seq_contains(lower_seq(command), "\\temp\\"@)
}

/// Rates a startup entry found in the registry under `source`.
pub fn startup_entry(name: String, command: String, source: String) -> (r: StartupEntry)
    ensures
        r.name == name,
        r.command == command,
        r.source == source,
        r.risk_level@ == (if startup_risky(command@) {
            "medium"@
        } else {
            "normal"@
        }),
        texts(r.reasons@) == (if startup_risky(command@) {
            seq!["启动命令指向临时目录"@]
        } else {
            Seq::<Seq<char>>::empty()
        }),
{
    let risky = vec_contains(&lowered_chars(command.as_str()), &chars_of("\\temp\\"));
    let mut reasons: Vec<String> = Vec::new();
    if risky {
        reasons.push(String::from_str("启动命令指向临时目录"));
    }
    let r = StartupEntry {
        name,
        command,
        source,
        risk_level: String::from_str(
            if risky {
                "medium"
            } else {
                "normal"
            },
        ),
        reasons,
    };
    assert(texts(r.reasons@) =~= (if risky {
        seq!["启动命令指向临时目录"@]
    } else {
        Seq::<Seq<char>>::empty()
    }));
    r
}

/// The source name of a registry run key: the root's name, a backslash and
/// the key's path.
pub fn registry_source(root_name: &str, subkey: &str) -> (r: String)
    ensures
        r@ == root_name@ + "\\"@ + subkey@,
{
    join3(root_name, "\\", subkey)
}

/// A program found in a startup folder.
pub fn folder_startup_entry(file_name: String, path: String) -> (r: StartupEntry)
    ensures
        r.name == file_name,
        r.command == path,
        r.source@ == "Startup 文件夹"@,
        r.risk_level@ == "normal"@,
        r.reasons@.len() == 0,
{
    StartupEntry {
        name: file_name,
        command: path,
        source: String::from_str("Startup 文件夹"),
        risk_level: String::from_str("normal"),
        reasons: Vec::new(),
    }
}

/// Whether an image with this lower-cased path occurs in `s`.
pub open spec fn path_seen(s: Seq<ProcessImage>, key: Seq<char>) -> bool {
    exists|j: int| 0 <= j < s.len() && lower_seq(#[trigger] s[j].path@) == key
}

/// The images of `s` whose path (ASCII case ignored) has not occurred
/// before, in order.
pub open spec fn first_images(s: Seq<ProcessImage>) -> Seq<ProcessImage>
    decreases s.len(),
{
    if s.len() == 0 {
        Seq::empty()
    } else {
        let prev = first_images(s.drop_last());
        if path_seen(s.drop_last(), lower_seq(s.last().path@)) {
            prev
        } else {
            prev.push(s.last())
        }
    }
}

/// The most programs a review rates.
pub const MAX_PROGRAMS: usize = 120;

/// The programs to review: one per executable path (ASCII case ignored),
/// in the order found, at most 120.
pub fn select_programs(images: &Vec<ProcessImage>) -> (r: Vec<ProcessImage>)
    ensures
        r@ == first_images(images@).take(
            if first_images(images@).len() <= 120 {
                first_images(images@).len() as int
            } else {
                120
            },
        ),
{
    let mut seen: Vec<Vec<char>> = Vec::new();
    let mut all: Vec<ProcessImage> = Vec::new();
    let mut r: Vec<ProcessImage> = Vec::new();
    let mut i: usize = 0;
    while i < images.len()
        invariant
            i <= images@.len(),
            seen@.len() == i,
            forall|j: int| 0 <= j < i ==> (#[trigger] seen@[j])@ == lower_seq(images@[j].path@),
            all@ == first_images(images@.take(i as int)),
            r@ == all@.take(
                if all@.len() <= 120 {
                    all@.len() as int
                } else {
                    120
                },
            ),
        decreases images@.len() - i,
    {
        let key = lowered_chars(images[i].path.as_str());
        let mut found = false;
        let mut j: usize = 0;
        while j < seen.len()
            invariant
                j <= seen@.len() == i,
                i < images@.len(),
                key@ == lower_seq(images@[i as int].path@),
                forall|k: int| 0 <= k < i ==> (#[trigger] seen@[k])@ == lower_seq(images@[k].path@),
                found == exists|k: int| 0 <= k < j && lower_seq(#[trigger] images@[k].path@) == key@,
            decreases seen@.len() - j,
        {
            if crate::text::vec_eq(&seen[j], &key) {
                found = true;
            }
            j = j + 1;
        }
        let ghost t = images@.take(i + 1);
        proof {
            assert(t.drop_last() =~= images@.take(i as int));
            assert(t.last() == images@[i as int]);
            if found {
                let k = choose|k: int| 0 <= k < i && lower_seq(#[trigger] images@[k].path@) == key@;
                assert(t.drop_last()[k] == images@[k]);
            }
            if path_seen(t.drop_last(), lower_seq(t.last().path@)) {
                let k = choose|k: int|
                    0 <= k < t.drop_last().len() && lower_seq(#[trigger] t.drop_last()[k].path@)
                        == lower_seq(t.last().path@);
                assert(images@[k] == t.drop_last()[k]);
            }
            assert(found == path_seen(t.drop_last(), lower_seq(t.last().path@)));
        }
        if !found {
            let img = images[i].duplicate();
            if all.len() < MAX_PROGRAMS {
                r.push(images[i].duplicate());
            }
            let ghost before = all@;
            all.push(img);
            proof {
                assert(r@ =~= all@.take(
                    if all@.len() <= 120 {
                        all@.len() as int
                    } else {
                        120
                    },
                ));
            }
        }
        seen.push(key);
        i = i + 1;
    }
    proof {
        assert(images@.take(images@.len() as int) =~= images@);
    }
    r
}

/// The place of a risk level in the report: "medium" first, then "low",
/// then everything else.
pub open spec fn rank(level: Seq<char>) -> int {
    if level == "medium"@ {
        0
    } else if level == "low"@ {
        1
    } else {
        2
    }
}

/// The programs of rank `k`, in their order.
pub open spec fn of_rank(ps: Seq<ProgramRisk>, k: int) -> Seq<ProgramRisk> {
    ps.filter(|p: ProgramRisk| rank(p.risk_level@) == k)
}

/// The programs ordered by rank, keeping the order within a rank.
pub open spec fn by_rank(ps: Seq<ProgramRisk>) -> Seq<ProgramRisk> {
    of_rank(ps, 0) + of_rank(ps, 1) + of_rank(ps, 2)
}

/// Whether a program is rated anything but "normal".
pub open spec fn notable_program(p: ProgramRisk) -> bool {
    p.risk_level@ != "normal"@
}

/// The programs that the report lists: those not rated "normal", by rank,
/// at most 30.
pub open spec fn listed(ps: Seq<ProgramRisk>) -> Seq<ProgramRisk> {
    let f = by_rank(ps).filter(|p: ProgramRisk| notable_program(p));
    f.take(
        if f.len() <= 30 {
            f.len() as int
        } else {
            30
        },
    )
}

/// The number of programs whose signature checked out.
pub open spec fn signed_count(ps: Seq<ProgramRisk>) -> nat {
    ps.filter(|p: ProgramRisk| p.signature_status@ == "valid"@).len()
}

/// The number of items rated "medium".
pub open spec fn medium_count(ps: Seq<ProgramRisk>, es: Seq<StartupEntry>) -> nat {
    ps.filter(|p: ProgramRisk| p.risk_level@ == "medium"@).len() + es.filter(
        |e: StartupEntry| e.risk_level@ == "medium"@,
    ).len()
}

/// The report's summary for `n` items worth a closer look.
pub open spec fn summary_of(n: nat) -> Seq<char> {
    if n == 0 {
        "没有发现明显需要注意的项目。"@
    } else {
        "发现 "@ + decimal(n) + " 个值得进一步确认的项目。"@
    }
}

fn split_by_rank(ps: Vec<ProgramRisk>) -> (r: Vec<ProgramRisk>)
    ensures
        r@ == by_rank(ps@),
{
    let ghost orig = ps@;
    let ghost p0 = |p: ProgramRisk| rank(p.risk_level@) == 0;
    let ghost p1 = |p: ProgramRisk| rank(p.risk_level@) == 1;
    let ghost p2 = |p: ProgramRisk| rank(p.risk_level@) == 2;
    let mut rest = ps;
    let mut b0: Vec<ProgramRisk> = Vec::new();
    let mut b1: Vec<ProgramRisk> = Vec::new();
    let mut b2: Vec<ProgramRisk> = Vec::new();
    while rest.len() > 0
        invariant
            rest@.len() <= orig.len(),
            rest@ == orig.skip(orig.len() - rest@.len()),
            p0 == (|p: ProgramRisk| rank(p.risk_level@) == 0),
            p1 == (|p: ProgramRisk| rank(p.risk_level@) == 1),
            p2 == (|p: ProgramRisk| rank(p.risk_level@) == 2),
            b0@ == orig.take(orig.len() - rest@.len()).filter(p0),
            b1@ == orig.take(orig.len() - rest@.len()).filter(p1),
            b2@ == orig.take(orig.len() - rest@.len()).filter(p2),
        decreases rest@.len(),
    {
        let ghost k = orig.len() - rest@.len();
        let ghost t = orig.take(k + 1);
        proof {
            assert(t.drop_last() =~= orig.take(k));
            assert(t.last() == orig[k]);
            assert(rest@[0] == orig[k]);
            reveal_with_fuel(Seq::filter, 2);
            assert(t.len() == k + 1);
        }
        let p = rest.remove(0);
        proof {
            assert(rest@ =~= orig.skip(k + 1));
        }
        let level = p.risk_level.as_str();
        if str_eq(level, "medium") {
            b0.push(p);
        } else if str_eq(level, "low") {
            b1.push(p);
        } else {
            b2.push(p);
        }
    }
    proof {
        assert(orig.take(orig.len() as int) =~= orig);
    }
    b0.append(&mut b1);
    b0.append(&mut b2);
    b0
}

fn count_signed(ps: &Vec<ProgramRisk>) -> (n: usize)
    ensures
        n == signed_count(ps@),
{
    let ghost pred = |p: ProgramRisk| p.signature_status@ == "valid"@;
    let mut n: usize = 0;
    let mut i: usize = 0;
    while i < ps.len()
        invariant
            i <= ps@.len(),
            pred == (|p: ProgramRisk| p.signature_status@ == "valid"@),
            n == ps@.take(i as int).filter(pred).len(),
            n <= i,
        decreases ps@.len() - i,
    {
        let ghost t = ps@.take(i + 1);
        proof {
            assert(t.drop_last() =~= ps@.take(i as int));
            assert(t.last() == ps@[i as int]);
            reveal_with_fuel(Seq::filter, 2);
            assert(t.len() == i + 1);
        }
        if str_eq(ps[i].signature_status.as_str(), "valid") {
            n = n + 1;
        }
        i = i + 1;
    }
    proof {
        assert(ps@.take(ps@.len() as int) =~= ps@);
    }
    n
}

fn count_medium(ps: &Vec<ProgramRisk>, es: &Vec<StartupEntry>) -> (n: u64)
    requires
        ps@.len() + es@.len() <= u64::MAX,
    ensures
        n == medium_count(ps@, es@),
{
    let ghost pp = |p: ProgramRisk| p.risk_level@ == "medium"@;
    let ghost ep = |e: StartupEntry| e.risk_level@ == "medium"@;
    let mut a: u64 = 0;
    let mut i: usize = 0;
    while i < ps.len()
        invariant
            i <= ps@.len(),
            pp == (|p: ProgramRisk| p.risk_level@ == "medium"@),
            a == ps@.take(i as int).filter(pp).len(),
            a <= i,
        decreases ps@.len() - i,
    {
        let ghost t = ps@.take(i + 1);
        proof {
            assert(t.drop_last() =~= ps@.take(i as int));
            assert(t.last() == ps@[i as int]);
            reveal_with_fuel(Seq::filter, 2);
            assert(t.len() == i + 1);
        }
        if str_eq(ps[i].risk_level.as_str(), "medium") {
            a = a + 1;
        }
        i = i + 1;
    }
    let mut b: u64 = 0;
    let mut j: usize = 0;
    while j < es.len()
        invariant
            j <= es@.len(),
            a == ps@.take(ps@.len() as int).filter(pp).len(),
            a <= ps@.len(),
            ps@.len() + es@.len() <= u64::MAX,
            ep == (|e: StartupEntry| e.risk_level@ == "medium"@),
            b == es@.take(j as int).filter(ep).len(),
            b <= j,
        decreases es@.len() - j,
    {
        let ghost t = es@.take(j + 1);
        proof {
            assert(t.drop_last() =~= es@.take(j as int));
            assert(t.last() == es@[j as int]);
            reveal_with_fuel(Seq::filter, 2);
            assert(t.len() == j + 1);
        }
        if str_eq(es[j].risk_level.as_str(), "medium") {
            b = b + 1;
        }
        j = j + 1;
    }
    proof {
        assert(ps@.take(ps@.len() as int) =~= ps@);
        assert(es@.take(es@.len() as int) =~= es@);
    }
    a + b
}

fn notable_prefix(ranked: Vec<ProgramRisk>) -> (r: Vec<ProgramRisk>)
    ensures
        ({
            let f = ranked@.filter(|p: ProgramRisk| notable_program(p));
            r@ == f.take(
                if f.len() <= 30 {
                    f.len() as int
                } else {
                    30
                },
            )
        }),
{
    let ghost orig = ranked@;
    let ghost pred = |p: ProgramRisk| notable_program(p);
    let mut rest = ranked;
    let mut r: Vec<ProgramRisk> = Vec::new();
    while rest.len() > 0 && r.len() < 30
        invariant
            rest@.len() <= orig.len(),
            rest@ == orig.skip(orig.len() - rest@.len()),
            pred == (|p: ProgramRisk| notable_program(p)),
            r@ == orig.take(orig.len() - rest@.len()).filter(pred),
            r@.len() <= 30,
        decreases rest@.len(),
    {
        let ghost k = orig.len() - rest@.len();
        let ghost t = orig.take(k + 1);
        proof {
            assert(t.drop_last() =~= orig.take(k));
            assert(t.last() == orig[k]);
            assert(rest@[0] == orig[k]);
            reveal_with_fuel(Seq::filter, 2);
            assert(t.len() == k + 1);
        }
        let p = rest.remove(0);
        proof {
            assert(rest@ =~= orig.skip(k + 1));
        }
        if !str_eq(p.risk_level.as_str(), "normal") {
            r.push(p);
        }
    }
    proof {
        let i = orig.len() - rest@.len();
        let f = orig.filter(pred);
        let head = orig.take(i);
        let tail = orig.skip(i);
        assert(orig =~= head + tail);
        Seq::filter_distributes_over_add(head, tail, pred);
        assert(f == head.filter(pred) + tail.filter(pred));
        if r@.len() < 30 {
            assert(tail.len() == 0);
            assert(tail.filter(pred) =~= Seq::<ProgramRisk>::empty());
            assert(f =~= r@);
            assert(f.take(f.len() as int) =~= f);
        } else {
            assert(f.take(30) =~= r@);
        }
    }
    r
}

/// Puts the review together: the programs ordered by rank, the signed and
/// the notable ones counted, at most 30 programs not rated "normal" listed,
/// and a summary of how many items deserve a closer look.
pub fn security_report(programs: Vec<ProgramRisk>, startup_entries: Vec<StartupEntry>, scanned_at: u64) -> (r: SecurityReport)
    requires
        programs@.len() + startup_entries@.len() <= u64::MAX,
    ensures
        r.scanned_at == scanned_at,
        r.scanned_programs == programs@.len(),
        r.signed_programs == signed_count(programs@),
        r.programs@ == listed(programs@),
        r.startup_entries@ == startup_entries@,
        r.summary@ == summary_of(medium_count(programs@, startup_entries@) as nat),
{
    let signed = count_signed(&programs);
    let notable = count_medium(&programs, &startup_entries);
    let scanned = programs.len();
    let ranked = split_by_rank(programs);
    let shown = notable_prefix(ranked);
    let summary = if notable == 0 {
        String::from_str("没有发现明显需要注意的项目。")
    } else {
        join3("发现 ", decimal_text(notable).as_str(), " 个值得进一步确认的项目。")
    };
    SecurityReport {
        scanned_at,
        scanned_programs: scanned,
        signed_programs: signed,
        programs: shown,
        startup_entries,
        summary,
    }
}

/// An unverified signature alone never makes a program "medium": only an
/// unsigned program in a user-writable folder is rated so.
pub proof fn law_unverified_is_not_malicious(signed: bool, writable: bool)
    ensures
        program_level(signed, writable) == "medium"@ <==> (!signed && writable),
        !signed && !writable ==> program_level(signed, writable) == "low"@,
{
    reveal_strlit("medium");
    reveal_strlit("low");
    reveal_strlit("normal");
    assert("medium"@.len() != "low"@.len());
    assert("medium"@[0] != "normal"@[0]);
}

/// A program's level follows from how many concerns it raises: "normal"
/// with none, "low" with one (no verifiable signature, or a user-writable
/// folder), "medium" with both. So a signed program in a user-writable
/// folder is "low", and only a signed program outside such folders is
/// "normal".
pub proof fn law_level_counts_the_concerns(signed: bool, writable: bool)
    ensures
        program_level(signed, writable) == "normal"@ <==> program_reasons(signed, writable).len() == 0,
        program_level(signed, writable) == "low"@ <==> program_reasons(signed, writable).len() == 1,
        program_level(signed, writable) == "medium"@ <==> program_reasons(signed, writable).len() == 2,
        writable ==> program_reasons(signed, writable).contains("程序位于用户可写目录"@),
        !signed ==> program_reasons(signed, writable).contains("没有可验证的数字签名"@),
{
    reveal_strlit("medium");
    reveal_strlit("low");
    reveal_strlit("normal");
    reveal_strlit("程序位于用户可写目录");
    reveal_strlit("没有可验证的数字签名");
    assert("medium"@.len() != "low"@.len());
    assert("normal"@.len() != "low"@.len());
    assert("medium"@[0] != "normal"@[0]);
    let r = program_reasons(signed, writable);
    if writable {
        assert(r[r.len() - 1] == "程序位于用户可写目录"@);
    }
    if !signed {
        assert(r[0] == "没有可验证的数字签名"@);
    }
}

/// The report lists at most 30 programs, none of them rated "normal", all
/// "medium" ones before all "low" ones.
pub proof fn law_report_lists_notable_programs(ps: Seq<ProgramRisk>)
    ensures
        listed(ps).len() <= 30,
        forall|i: int| 0 <= i < listed(ps).len() ==> notable_program(#[trigger] listed(ps)[i]),
        forall|i: int, j: int|
            0 <= i < j < listed(ps).len() ==> rank(listed(ps)[i].risk_level@) <= rank(
                listed(ps)[j].risk_level@,
            ),
{
    let p0 = |p: ProgramRisk| rank(p.risk_level@) == 0;
    let p1 = |p: ProgramRisk| rank(p.risk_level@) == 1;
    let p2 = |p: ProgramRisk| rank(p.risk_level@) == 2;
    let np = |p: ProgramRisk| notable_program(p);
    let b = by_rank(ps);
    let f = b.filter(np);
    ps.filter_lemma(p0);
    ps.filter_lemma(p1);
    ps.filter_lemma(p2);
    b.filter_lemma(np);
    assert forall|i: int| 0 <= i < b.len() implies rank(#[trigger] b[i].risk_level@) == (if i < of_rank(ps, 0).len() {
        0int
    } else if i < of_rank(ps, 0).len() + of_rank(ps, 1).len() {
        1int
    } else {
        2int
    }) by {
        if i < of_rank(ps, 0).len() {
            assert(b[i] == of_rank(ps, 0)[i]);
        } else if i < of_rank(ps, 0).len() + of_rank(ps, 1).len() {
            assert(b[i] == of_rank(ps, 1)[i - of_rank(ps, 0).len()]);
        } else {
            assert(b[i] == of_rank(ps, 2)[i - of_rank(ps, 0).len() - of_rank(ps, 1).len()]);
        }
    }
    assert forall|i: int, j: int| 0 <= i < j < b.len() implies rank(b[i].risk_level@) <= rank(
        b[j].risk_level@,
    ) by {
        assert(rank(b[i].risk_level@) == (if i < of_rank(ps, 0).len() {
            0int
        } else if i < of_rank(ps, 0).len() + of_rank(ps, 1).len() {
            1int
        } else {
            2int
        }));
        assert(rank(b[j].risk_level@) == (if j < of_rank(ps, 0).len() {
            0int
        } else if j < of_rank(ps, 0).len() + of_rank(ps, 1).len() {
            1int
        } else {
            2int
        }));
    }
    assert forall|i: int, j: int| 0 <= i < j < f.len() implies rank(f[i].risk_level@) <= rank(
        f[j].risk_level@,
    ) by {
        lemma_filter_order(b, np, i, j);
    }
}

proof fn lemma_filter_order(s: Seq<ProgramRisk>, p: spec_fn(ProgramRisk) -> bool, i: int, j: int)
    requires
        0 <= i < j < s.filter(p).len(),
        forall|a: int, b: int| 0 <= a < b < s.len() ==> rank(s[a].risk_level@) <= rank(s[b].risk_level@),
    ensures
        rank(s.filter(p)[i].risk_level@) <= rank(s.filter(p)[j].risk_level@),
    decreases s.len(),
{
    s.filter_lemma(p);
    if s.len() == 0 {
        assert(s.filter(p).len() == 0) by {
            reveal_with_fuel(Seq::filter, 1);
        }
    } else {
        let t = s.drop_last();
        assert(s =~= t.push(s.last()));
        t.filter_lemma(p);
        assert forall|a: int, b: int| 0 <= a < b < t.len() implies rank(t[a].risk_level@) <= rank(
            t[b].risk_level@,
        ) by {
            assert(t[a] == s[a]);
            assert(t[b] == s[b]);
        }
        if p(s.last()) {
            assert(s.filter(p) == t.filter(p).push(s.last())) by {
                reveal_with_fuel(Seq::filter, 1);
            }
            if j < t.filter(p).len() {
                lemma_filter_order(t, p, i, j);
            } else {
                let x = t.filter(p)[i];
                assert(t.filter(p).contains(x));
                t.lemma_filter_contains_rev(p, x);
                assert(t.contains(x));
                let k = choose|k: int| 0 <= k < t.len() && t[k] == x;
                assert(s[k] == x);
                assert(s.filter(p)[j] == s[s.len() - 1]);
                assert(s.filter(p)[i] == x);
            }
        } else {
            assert(s.filter(p) == t.filter(p)) by {
                reveal_with_fuel(Seq::filter, 1);
            }
            lemma_filter_order(t, p, i, j);
        }
    }
}

} // verus!
