//! Process samples and the rules that apply to a single process.
use vstd::prelude::*;
use crate::text::{eq_ignore_case, str_eq_ignore_case};

verus! {

/// One process as sampled by the patrol.
///
/// The CPU share is carried as the bit pattern of its `f32` value
/// (`f32::to_bits`), which keeps it exact and lets the library order
/// processes by it.
#[derive(Clone, Debug)]
pub struct ProcessSample {
    pub pid: u32,
    pub parent_pid: Option<u32>,
    pub started_at: u64,
    pub name: String,
    pub cpu_bits: u32,
    pub memory_bytes: u64,
    pub is_critical: bool,
    pub thread_count: usize,
    pub handle_count: Option<usize>,
    pub disk_read_bps: u64,
    pub disk_write_bps: u64,
    pub executable_path: Option<String>,
}

/// The Windows processes that must never be terminated or re-prioritised.
pub open spec fn critical_names() -> Seq<Seq<char>> {
    seq![
        "system"@,
        "system idle process"@,
        "registry"@,
        "smss.exe"@,
        "csrss.exe"@,
        "wininit.exe"@,
        "services.exe"@,
        "lsass.exe"@,
        "winlogon.exe"@,
        "dwm.exe"@,
    ]
}

/// Whether `name` is one of the critical process names, ignoring ASCII case.
pub open spec fn critical(name: Seq<char>) -> bool {
    exists|i: int| 0 <= i < critical_names().len() && eq_ignore_case(critical_names()[i], name)
}

/// Whether a process of this name is protected from actions.
pub fn is_critical(name: &str) -> (r: bool)
    ensures
        r == critical(name@),
{
    let names = [
        "system",
        "system idle process",
        "registry",
        "smss.exe",
        "csrss.exe",
        "wininit.exe",
        "services.exe",
        "lsass.exe",
        "winlogon.exe",
        "dwm.exe",
    ];
    assert(names@.map_values(|s: &str| s@) =~= critical_names());
    let mut i: usize = 0;
    while i < 10
        invariant
            i <= 10,
            names@.map_values(|s: &str| s@) == critical_names(),
            forall|j: int| 0 <= j < i ==> !eq_ignore_case(critical_names()[j], name@),
        decreases 10 - i,
    {
        if str_eq_ignore_case(names[i], name) {
            assert(names@.map_values(|s: &str| s@)[i as int] == names@[i as int]@);
            return true;
        }
        assert(names@.map_values(|s: &str| s@)[i as int] == names@[i as int]@);
        i = i + 1;
    }
    false
}

/// Key under which `f32` bit patterns order as `f32::total_cmp` orders the values.
pub open spec fn cpu_order(bits: u32) -> u32 {
    if bits >= 0x8000_0000 {
        (0xffff_ffff - bits) as u32
    } else {
        (bits + 0x8000_0000) as u32
    }
}

/// The ordering key of a CPU share.
pub fn cpu_order_key(bits: u32) -> (r: u32)
    ensures
        r == cpu_order(bits),
{
    if bits >= 0x8000_0000 {
        0xffff_ffff - bits
    } else {
        bits + 0x8000_0000
    }
}

} // verus!

verus! {

/// An exact copy of an optional string.
pub fn copy_opt_string(s: &Option<String>) -> (r: Option<String>)
    ensures
        r == *s,
{
    match s {
        Some(v) => Some(v.clone()),
        None => None,
    }
}

impl ProcessSample {
    /// An exact copy of the sample.
    pub fn duplicate(&self) -> (r: Self)
        ensures
            r == *self,
    {
        ProcessSample {
            pid: self.pid,
            parent_pid: self.parent_pid,
            started_at: self.started_at,
            name: self.name.clone(),
            cpu_bits: self.cpu_bits,
            memory_bytes: self.memory_bytes,
            is_critical: self.is_critical,
            thread_count: self.thread_count,
            handle_count: self.handle_count,
            disk_read_bps: self.disk_read_bps,
            disk_write_bps: self.disk_write_bps,
            executable_path: copy_opt_string(&self.executable_path),
        }
    }
}

} // verus!
