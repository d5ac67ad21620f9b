//! Groups processes into applications: a process belongs to the application
//! of its furthest ancestor reached through parents of the same name.
use vstd::prelude::*;
use vstd::relations::sorted_by;
use std::collections::HashMap;
use crate::network::NetworkRate;
use crate::process::{cpu_order, cpu_order_key, copy_opt_string, ProcessSample};
use crate::text::{eq_ignore_case, str_eq_ignore_case};

verus! {

broadcast use vstd::std_specs::hash::group_hash_axioms, vstd::seq_lib::group_to_multiset_ensures;

/// One application: a root process and the processes grouped under it.
#[derive(Clone, Debug)]
pub struct ApplicationGroup {
    pub root_pid: u32,
    pub name: String,
    pub member_count: usize,
    pub memory_bytes: u64,
    pub disk_read_bps: u64,
    pub disk_write_bps: u64,
    pub network_bps: Option<u64>,
    pub network_receive_bps: Option<u64>,
    pub network_send_bps: Option<u64>,
    pub product_name: Option<String>,
    pub description: Option<String>,
    pub publisher: Option<String>,
    pub executable_path: Option<String>,
    pub root_process: ProcessSample,
    pub members: Vec<ProcessSample>,
}

/// The last position of a process with this pid, as a pid index built by
/// inserting every sample in turn finds it.
pub open spec fn last_with_pid(s: Seq<ProcessSample>, pid: u32) -> Option<int>
    decreases s.len(),
{
    if s.len() == 0 {
        None
    } else if s.last().pid == pid {
        Some(s.len() - 1)
    } else {
        last_with_pid(s.drop_last(), pid)
    }
}

/// Follows parents of the same name (ASCII case ignored) from `root`, for at
/// most 32 steps, and gives the pid where the climb stops.
pub open spec fn climb(
    procs: Seq<ProcessSample>,
    name: Seq<char>,
    root: u32,
    parent: Option<u32>,
    depth: nat,
) -> u32
    decreases 32 - depth,
{
    if depth >= 32 {
        root
    } else {
        match parent {
            None => root,
            Some(pid) => match last_with_pid(procs, pid) {
                None => root,
                Some(i) => if !eq_ignore_case(procs[i].name@, name) {
                    root
                } else if depth + 1 >= 32 {
                    procs[i].pid
                } else {
                    climb(procs, name, procs[i].pid, procs[i].parent_pid, depth + 1)
                },
            },
        }
    }
}

/// The pid of the application root of the sample `p`.
pub open spec fn root_of(procs: Seq<ProcessSample>, p: ProcessSample) -> u32 {
    climb(procs, p.name@, p.pid, p.parent_pid, 0)
}

/// Whether a sample belongs to the application rooted at `r`.
pub open spec fn in_group(procs: Seq<ProcessSample>, r: u32) -> spec_fn(ProcessSample) -> bool {
    |p: ProcessSample| root_of(procs, p) == r
}

/// The processes of the application rooted at `r`, in sampling order.
pub open spec fn members_of(procs: Seq<ProcessSample>, r: u32) -> Seq<ProcessSample> {
    procs.filter(in_group(procs, r))
}

/// Sum of a per-process quantity.
pub open spec fn total(s: Seq<ProcessSample>, f: spec_fn(ProcessSample) -> nat) -> nat
    decreases s.len(),
{
    if s.len() == 0 {
        0
    } else {
        total(s.drop_last(), f) + f(s.last())
    }
}

/// Memory of a process.
pub open spec fn mem_of() -> spec_fn(ProcessSample) -> nat {
    |p: ProcessSample| p.memory_bytes as nat
}

/// Disk reads of a process.
pub open spec fn read_of() -> spec_fn(ProcessSample) -> nat {
    |p: ProcessSample| p.disk_read_bps as nat
}

/// Disk writes of a process.
pub open spec fn write_of() -> spec_fn(ProcessSample) -> nat {
    |p: ProcessSample| p.disk_write_bps as nat
}

/// Bytes per second a process receives, zero where it has no rate.
pub open spec fn rx_of(rates: Map<u32, NetworkRate>) -> spec_fn(ProcessSample) -> nat {
    |p: ProcessSample| if rates.contains_key(p.pid) {
        rates[p.pid].receive_bps as nat
    } else {
        0
    }
}

/// Bytes per second a process sends, zero where it has no rate.
pub open spec fn tx_of(rates: Map<u32, NetworkRate>) -> spec_fn(ProcessSample) -> nat {
    |p: ProcessSample| if rates.contains_key(p.pid) {
        rates[p.pid].send_bps as nat
    } else {
        0
    }
}

/// Descending order of CPU share.
pub open spec fn by_cpu_desc() -> spec_fn(ProcessSample, ProcessSample) -> bool {
    |a: ProcessSample, b: ProcessSample| cpu_order(a.cpu_bits) >= cpu_order(b.cpu_bits)
}

/// The ordering key of a sample's CPU share.
pub open spec fn cpu_key() -> spec_fn(ProcessSample) -> int {
    |p: ProcessSample| cpu_order(p.cpu_bits) as int
}

/// What an application group holds, for the samples `procs`.
pub open spec fn group_ok(
    g: ApplicationGroup,
    procs: Seq<ProcessSample>,
    rates: Map<u32, NetworkRate>,
    network_available: bool,
) -> bool {
    let m = members_of(procs, g.root_pid);
    let rx = total(m, rx_of(rates));
    let tx = total(m, tx_of(rates));
    &&& m.len() > 0
    &&& g.members@ == crate::order::sorted_by(m, cpu_key())
    &&& g.members@.to_multiset() == m.to_multiset()
    &&& sorted_by(g.members@, by_cpu_desc())
    &&& g.member_count == m.len()
    &&& g.memory_bytes == total(m, mem_of())
    &&& g.disk_read_bps == total(m, read_of())
    &&& g.disk_write_bps == total(m, write_of())
    &&& g.root_process == match last_with_pid(procs, g.root_pid) {
        Some(i) => procs[i],
        None => g.members@[0],
    }
    &&& g.name == g.root_process.name
    &&& g.executable_path == g.root_process.executable_path
    &&& g.network_receive_bps == (if network_available {
        Some(rx as u64)
    } else {
        None
    })
    &&& g.network_send_bps == (if network_available {
        Some(tx as u64)
    } else {
        None
    })
    &&& g.network_bps == (if network_available {
        Some(if rx + tx <= u64::MAX {
            (rx + tx) as u64
        } else {
            u64::MAX
        })
    } else {
        None
    })
    &&& g.product_name is None && g.description is None && g.publisher is None
}

proof fn lemma_total_filter(s: Seq<ProcessSample>, f: spec_fn(ProcessSample) -> nat, p: spec_fn(ProcessSample) -> bool)
    ensures
        total(s.filter(p), f) <= total(s, f),
    decreases s.len(),
{
    reveal_with_fuel(Seq::filter, 1);
    if s.len() > 0 {
        lemma_total_filter(s.drop_last(), f, p);
        if p(s.last()) {
            assert(s.filter(p).drop_last() =~= s.drop_last().filter(p));
        }
    }
}

proof fn lemma_total_prefix(s: Seq<ProcessSample>, f: spec_fn(ProcessSample) -> nat, j: int)
    requires
        0 <= j <= s.len(),
    ensures
        total(s.take(j), f) <= total(s, f),
    decreases s.len(),
{
    if j < s.len() {
        lemma_total_prefix(s.drop_last(), f, j);
        assert(s.drop_last().take(j) =~= s.take(j));
    } else {
        assert(s.take(j) =~= s);
    }
}

fn find_last(procs: &Vec<ProcessSample>, pid: u32) -> (r: Option<usize>)
    ensures
        match r {
            Some(i) => last_with_pid(procs@, pid) == Some(i as int) && i < procs@.len(),
            None => last_with_pid(procs@, pid) is None,
        },
{
    let mut i: usize = procs.len();
    assert(procs@.take(i as int) =~= procs@);
    while i > 0
        invariant
            i <= procs@.len(),
            last_with_pid(procs@, pid) == last_with_pid(procs@.take(i as int), pid),
        decreases i,
    {
        assert(procs@.take(i as int).drop_last() =~= procs@.take(i - 1));
        if procs[i - 1].pid == pid {
            return Some(i - 1);
        }
        i = i - 1;
    }
    None
}

fn root_pid(procs: &Vec<ProcessSample>, k: usize) -> (r: u32)
    requires
        k < procs@.len(),
    ensures
        r == root_of(procs@, procs@[k as int]),
{
    assert(procs@.take(procs@.len() as int) =~= procs@);
    let name = procs[k].name.as_str();
    let mut root = procs[k].pid;
    let mut parent = procs[k].parent_pid;
    let mut depth: usize = 0;
    loop
        invariant
            k < procs@.len(),
            name@ == procs@[k as int].name@,
            depth < 32,
            climb(procs@, name@, root, parent, depth as nat) == root_of(procs@, procs@[k as int]),
        decreases 32 - depth,
    {
        let pid = match parent {
            None => {
                return root;
            },
            Some(pid) => pid,
        };
        let i = match find_last(procs, pid) {
            None => {
                return root;
            },
            Some(i) => i,
        };
        if !str_eq_ignore_case(procs[i].name.as_str(), name) {
            return root;
        }
        root = procs[i].pid;
        parent = procs[i].parent_pid;
        depth = depth + 1;
        if depth >= 32 {
            return root;
        }
    }
}

/// `v` ordered by descending CPU share, equal shares keeping their order.
fn sort_by_cpu(v: Vec<ProcessSample>) -> (r: Vec<ProcessSample>)
    ensures
        r@ == crate::order::sorted_by(v@, cpu_key()),
        r@.to_multiset() == v@.to_multiset(),
        sorted_by(r@, by_cpu_desc()),
{
    let mut out: Vec<ProcessSample> = Vec::new();
    let mut rest = v;
    let ghost all = rest@;
    let n = rest.len();
    let mut i: usize = 0;
    while i < n
        invariant
            n == all.len(),
            i <= n,
            rest@ == all.skip(i as int),
            sorted_by(out@, by_cpu_desc()),
            out@.to_multiset() == all.take(i as int).to_multiset(),
            out@ == crate::order::sorted_by(all.take(i as int), cpu_key()),
        decreases n - i,
    {
        let x = rest.remove(0);
        proof {
            assert(all.skip(i + 1) =~= all.skip(i as int).subrange(1, (n - i) as int));
            assert(all.take(i + 1) =~= all.take(i as int).push(x));
        }
        let key = cpu_order_key(x.cpu_bits);
        let mut pos: usize = 0;
        while pos < out.len() && cpu_order_key(out[pos].cpu_bits) >= key
            invariant
                pos <= out@.len(),
                key == cpu_order(x.cpu_bits),
                forall|j: int| 0 <= j < pos ==> cpu_order(out@[j].cpu_bits) >= key,
            decreases out@.len() - pos,
        {
            pos = pos + 1;
        }
        let ghost before = out@;
        proof {
            crate::order::lemma_insert_at(x, out@, pos as int, cpu_key());
            assert(all.take(i + 1).drop_last() =~= all.take(i as int));
            assert(all.take(i + 1).last() == x);
        }
        out.insert(pos, x);
        proof {
            assert forall|a: int, b: int| 0 <= a < b < out@.len() implies #[trigger] (by_cpu_desc())(
                out@[a],
                out@[b],
            ) by {
                if b < pos {
                    assert((by_cpu_desc())(before[a], before[b]));
                } else if a < pos && b == pos {
                } else if a < pos && b > pos {
                    assert((by_cpu_desc())(before[a], before[b - 1]));
                } else if a == pos {
                    assert(cpu_order(before[pos as int].cpu_bits) < key);
                    if b - 1 > pos {
                        assert((by_cpu_desc())(before[pos as int], before[b - 1]));
                    }
                } else {
                    assert((by_cpu_desc())(before[a - 1], before[b - 1]));
                }
            }
        }
        i = i + 1;
    }
    proof {
        assert(all.take(n as int) =~= all);
    }
    out
}


fn roots_of(procs: &Vec<ProcessSample>) -> (r: Vec<u32>)
    ensures
        r@.len() == procs@.len(),
        forall|k: int| 0 <= k < procs@.len() ==> r@[k] == root_of(procs@, #[trigger] procs@[k]),
{
    let mut roots: Vec<u32> = Vec::new();
    let mut k: usize = 0;
    while k < procs.len()
        invariant
            k <= procs@.len(),
            roots@.len() == k,
            forall|j: int| 0 <= j < k ==> roots@[j] == root_of(procs@, #[trigger] procs@[j]),
        decreases procs@.len() - k,
    {
        roots.push(root_pid(procs, k));
        k = k + 1;
    }
    roots
}

fn distinct_roots(roots: &Vec<u32>) -> (d: Vec<u32>)
    ensures
        forall|a: int, b: int| 0 <= a < b < d@.len() ==> d@[a] != d@[b],
        forall|k: int| 0 <= k < roots@.len() ==> d@.contains(#[trigger] roots@[k]),
        forall|a: int| 0 <= a < d@.len() ==> roots@.contains(#[trigger] d@[a]),
{
    let mut d: Vec<u32> = Vec::new();
    let mut k: usize = 0;
    while k < roots.len()
        invariant
            k <= roots@.len(),
            forall|a: int, b: int| 0 <= a < b < d@.len() ==> d@[a] != d@[b],
            forall|j: int| 0 <= j < k ==> d@.contains(#[trigger] roots@[j]),
            forall|a: int| 0 <= a < d@.len() ==> roots@.contains(#[trigger] d@[a]),
        decreases roots@.len() - k,
    {
        let r = roots[k];
        let mut seen = false;
        let mut j: usize = 0;
        while j < d.len()
            invariant
                j <= d@.len(),
                seen <==> exists|a: int| 0 <= a < j && d@[a] == r,
            decreases d@.len() - j,
        {
            if d[j] == r {
                seen = true;
            }
            j = j + 1;
        }
        if !seen {
            let ghost before = d@;
            d.push(r);
            proof {
                assert(d@[before.len() as int] == r);
                assert forall|j2: int| 0 <= j2 < k implies d@.contains(#[trigger] roots@[j2]) by {
                    let a = choose|a: int| 0 <= a < before.len() && before[a] == roots@[j2];
                    assert(d@[a] == roots@[j2]);
                }
                assert(roots@[k as int] == r);
            }
        } else {
            proof {
                let a = choose|a: int| 0 <= a < d@.len() && d@[a] == r;
                assert(d@.contains(roots@[k as int]));
            }
        }
        k = k + 1;
    }
    d
}

fn rate_of(rates: &HashMap<u32, NetworkRate>, pid: u32) -> (r: (u64, u64))
    ensures
        r.0 == if rates@.contains_key(pid) {
            rates@[pid].receive_bps
        } else {
            0
        },
        r.1 == if rates@.contains_key(pid) {
            rates@[pid].send_bps
        } else {
            0
        },
{
    match rates.get(&pid) {
        Some(rate) => (rate.receive_bps, rate.send_bps),
        None => (0, 0),
    }
}

fn build_group(
    procs: &Vec<ProcessSample>,
    roots: &Vec<u32>,
    r: u32,
    rates: &HashMap<u32, NetworkRate>,
    network_available: bool,
) -> (g: ApplicationGroup)
    requires
        roots@.len() == procs@.len(),
        forall|k: int| 0 <= k < procs@.len() ==> roots@[k] == root_of(procs@, #[trigger] procs@[k]),
        roots@.contains(r),
        total(procs@, mem_of()) <= u64::MAX,
        total(procs@, read_of()) <= u64::MAX,
        total(procs@, write_of()) <= u64::MAX,
        total(procs@, rx_of(rates@)) <= u64::MAX,
        total(procs@, tx_of(rates@)) <= u64::MAX,
    ensures
        g.root_pid == r,
        group_ok(g, procs@, rates@, network_available),
{
    let ghost pred = in_group(procs@, r);
    let mut members: Vec<ProcessSample> = Vec::new();
    let mut memory: u64 = 0;
    let mut read: u64 = 0;
    let mut write: u64 = 0;
    let mut rx: u64 = 0;
    let mut tx: u64 = 0;
    let n = procs.len();
    let mut k: usize = 0;
    while k < n
        invariant
            n == procs@.len(),
            k <= n,
            roots@.len() == n,
            forall|j: int| 0 <= j < n ==> roots@[j] == root_of(procs@, #[trigger] procs@[j]),
            pred == in_group(procs@, r),
            members@ == procs@.take(k as int).filter(pred),
            memory == total(members@, mem_of()),
            read == total(members@, read_of()),
            write == total(members@, write_of()),
            rx == total(members@, rx_of(rates@)),
            tx == total(members@, tx_of(rates@)),
            total(procs@, mem_of()) <= u64::MAX,
            total(procs@, read_of()) <= u64::MAX,
            total(procs@, write_of()) <= u64::MAX,
            total(procs@, rx_of(rates@)) <= u64::MAX,
            total(procs@, tx_of(rates@)) <= u64::MAX,
        decreases n - k,
    {
        let ghost t = procs@.take(k + 1);
        proof {
            assert(t.drop_last() =~= procs@.take(k as int));
            assert(t.last() == procs@[k as int]);
            assert(t.len() == k + 1);
            reveal_with_fuel(Seq::filter, 2);
            assert(t.filter(pred) == (if pred(t.last()) {
                t.drop_last().filter(pred).push(t.last())
            } else {
                t.drop_last().filter(pred)
            }));
        }
        if roots[k] == r {
            let p = procs[k].duplicate();
            let (prx, ptx) = rate_of(rates, p.pid);
            proof {
                let m2 = members@.push(p);
                assert(m2.drop_last() =~= members@);
                assert(m2 == t.filter(pred));
                lemma_total_filter(t, mem_of(), pred);
                lemma_total_prefix(procs@, mem_of(), k + 1);
                lemma_total_filter(t, read_of(), pred);
                lemma_total_prefix(procs@, read_of(), k + 1);
                lemma_total_filter(t, write_of(), pred);
                lemma_total_prefix(procs@, write_of(), k + 1);
                lemma_total_filter(t, rx_of(rates@), pred);
                lemma_total_prefix(procs@, rx_of(rates@), k + 1);
                lemma_total_filter(t, tx_of(rates@), pred);
                lemma_total_prefix(procs@, tx_of(rates@), k + 1);
            }
            memory = memory + p.memory_bytes;
            read = read + p.disk_read_bps;
            write = write + p.disk_write_bps;
            rx = rx + prx;
            tx = tx + ptx;
            members.push(p);
        }
        k = k + 1;
    }
    proof {
        assert(procs@.take(n as int) =~= procs@);
        let k0 = choose|k0: int| 0 <= k0 < roots@.len() && roots@[k0] == r;
        procs@.filter_lemma(pred);
        assert(pred(procs@[k0]));
        assert(members@.contains(procs@[k0]));
    }
    let ghost unsorted = members@;
    let count = members.len();
    let sorted = sort_by_cpu(members);
    proof {
        assert(sorted@.len() == count) by {
            assert(sorted@.to_multiset().len() == unsorted.to_multiset().len());
        }
    }
    let root_process = match find_last(procs, r) {
        Some(i) => procs[i].duplicate(),
        None => sorted[0].duplicate(),
    };
    let name = root_process.name.clone();
    let executable_path = copy_opt_string(&root_process.executable_path);
    ApplicationGroup {
        root_pid: r,
        name,
        member_count: count,
        memory_bytes: memory,
        disk_read_bps: read,
        disk_write_bps: write,
        network_bps: if network_available {
            Some(rx.saturating_add(tx))
        } else {
            None
        },
        network_receive_bps: if network_available {
            Some(rx)
        } else {
            None
        },
        network_send_bps: if network_available {
            Some(tx)
        } else {
            None
        },
        product_name: None,
        description: None,
        publisher: None,
        executable_path,
        root_process,
        members: sorted,
    }
}

/// Groups the sampled processes into applications, one per root.
pub fn build_application_groups(
    processes: &Vec<ProcessSample>,
    network_rates: &HashMap<u32, NetworkRate>,
    network_available: bool,
) -> (groups: Vec<ApplicationGroup>)
    requires
        total(processes@, mem_of()) <= u64::MAX,
        total(processes@, read_of()) <= u64::MAX,
        total(processes@, write_of()) <= u64::MAX,
        total(processes@, rx_of(network_rates@)) <= u64::MAX,
        total(processes@, tx_of(network_rates@)) <= u64::MAX,
    ensures
        forall|i: int|
            0 <= i < groups@.len() ==> group_ok(
                #[trigger] groups@[i],
                processes@,
                network_rates@,
                network_available,
            ),
        forall|i: int, j: int|
            0 <= i < j < groups@.len() ==> groups@[i].root_pid != groups@[j].root_pid,
        forall|k: int|
            0 <= k < processes@.len() ==> exists|i: int|
                0 <= i < groups@.len() && groups@[i].root_pid == root_of(
                    processes@,
                    #[trigger] processes@[k],
                ),
{
    let roots = roots_of(processes);
    let distinct = distinct_roots(&roots);
    let mut groups: Vec<ApplicationGroup> = Vec::new();
    let mut i: usize = 0;
    while i < distinct.len()
        invariant
            i <= distinct@.len(),
            roots@.len() == processes@.len(),
            forall|k: int|
                0 <= k < processes@.len() ==> roots@[k] == root_of(processes@, #[trigger] processes@[k]),
            forall|a: int| 0 <= a < distinct@.len() ==> roots@.contains(#[trigger] distinct@[a]),
            groups@.len() == i,
            forall|a: int|
                0 <= a < i ==> (#[trigger] groups@[a]).root_pid == distinct@[a] && group_ok(
                    groups@[a],
                    processes@,
                    network_rates@,
                    network_available,
                ),
            total(processes@, mem_of()) <= u64::MAX,
            total(processes@, read_of()) <= u64::MAX,
            total(processes@, write_of()) <= u64::MAX,
            total(processes@, rx_of(network_rates@)) <= u64::MAX,
            total(processes@, tx_of(network_rates@)) <= u64::MAX,
        decreases distinct@.len() - i,
    {
        let g = build_group(processes, &roots, distinct[i], network_rates, network_available);
        groups.push(g);
        i = i + 1;
    }
    proof {
        assert forall|k: int| 0 <= k < processes@.len() implies exists|i: int|
            0 <= i < groups@.len() && groups@[i].root_pid == root_of(
                processes@,
                #[trigger] processes@[k],
            ) by {
            assert(distinct@.contains(roots@[k]));
            let a = choose|a: int| 0 <= a < distinct@.len() && distinct@[a] == roots@[k];
            assert(groups@[a].root_pid == distinct@[a]);
        }
    }
    groups
}

/// Whether `i` is where `Iterator::max_by_key` on memory lands: the
/// application using the most memory, the last of equals.
pub open spec fn most_memory_at(gs: Seq<ApplicationGroup>, i: int) -> bool {
    &&& 0 <= i < gs.len()
    &&& forall|j: int| 0 <= j < gs.len() ==> (#[trigger] gs[j]).memory_bytes <= gs[i].memory_bytes
    &&& forall|j: int| i < j < gs.len() ==> (#[trigger] gs[j]).memory_bytes < gs[i].memory_bytes
}

/// The application using the most memory, the last of equals; none where
/// there are no applications.
pub fn most_memory(groups: &Vec<ApplicationGroup>) -> (r: Option<usize>)
    ensures
        r is None <==> groups@.len() == 0,
        r matches Some(i) ==> most_memory_at(groups@, i as int),
{
    if groups.len() == 0 {
        return None;
    }
    let mut best: usize = 0;
    let mut i: usize = 1;
    while i < groups.len()
        invariant
            1 <= i <= groups@.len(),
            best < i,
            forall|j: int| 0 <= j < i ==> (#[trigger] groups@[j]).memory_bytes <= groups@[best as int].memory_bytes,
            forall|j: int| best < j < i ==> (#[trigger] groups@[j]).memory_bytes < groups@[best as int].memory_bytes,
        decreases groups@.len() - i,
    {
        if groups[i].memory_bytes >= groups[best].memory_bytes {
            best = i;
        }
        i = i + 1;
    }
    Some(best)
}

/// Whether `r` is the application `g` as the status shows it: the same in
/// every field but its members, of which it keeps the first 30.
pub open spec fn shown_as(r: ApplicationGroup, g: ApplicationGroup) -> bool {
    &&& r.members@ == if g.members@.len() <= 30 {
        g.members@
    } else {
        g.members@.take(30)
    }
    &&& r.root_pid == g.root_pid
    &&& r.name == g.name
    &&& r.member_count == g.member_count
    &&& r.memory_bytes == g.memory_bytes
    &&& r.disk_read_bps == g.disk_read_bps
    &&& r.disk_write_bps == g.disk_write_bps
    &&& r.network_bps == g.network_bps
    &&& r.network_receive_bps == g.network_receive_bps
    &&& r.network_send_bps == g.network_send_bps
    &&& r.product_name == g.product_name
    &&& r.description == g.description
    &&& r.publisher == g.publisher
    &&& r.executable_path == g.executable_path
    &&& r.root_process == g.root_process
}

/// The applications the status shows: the first 30, each with its first 30
/// members.
pub fn shown_applications(groups: Vec<ApplicationGroup>) -> (r: Vec<ApplicationGroup>)
    ensures
        r@.len() == if groups@.len() <= 30 {
            groups@.len()
        } else {
            30
        },
        forall|i: int| 0 <= i < r@.len() ==> shown_as(#[trigger] r@[i], groups@[i]),
{
    let ghost all = groups@;
    let mut rest = groups;
    rest.truncate(30);
    let ghost src = rest@;
    let mut out: Vec<ApplicationGroup> = Vec::new();
    while rest.len() > 0
        invariant
            src.len() <= all.len(),
            src == (if all.len() <= 30 { all } else { all.take(30) }),
            out@.len() + rest@.len() == src.len(),
            rest@ == src.skip(out@.len() as int),
            forall|i: int| 0 <= i < out@.len() ==> shown_as(#[trigger] out@[i], all[i]),
        decreases rest@.len(),
    {
        let ghost k = out@.len() as int;
        let mut g = rest.remove(0);
        assert(g == all[k]);
        let ghost g0 = g;
        g.members.truncate(30);
        proof {
            if g0.members@.len() <= 30 {
                assert(g.members@ =~= g0.members@);
            } else {
                assert(g.members@ =~= g0.members@.take(30));
            }
        }
        assert(shown_as(g, g0));
        let ghost before = out@;
        out.push(g);
        proof {
            assert(rest@ =~= src.skip(out@.len() as int));
            assert forall|i: int| 0 <= i < out@.len() implies shown_as(#[trigger] out@[i], all[i]) by {
                if i < k {
                    assert(out@[i] == before[i]);
                }
            }
        }
    }
    out
}

} // verus!
