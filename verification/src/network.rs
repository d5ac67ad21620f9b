//! Per-process network accounting: byte counters fed by the platform's
//! TCP/IP event stream, turned into rates on each patrol round, and the
//! collector's state as its trace session starts, runs and stops.
use vstd::prelude::*;
use std::collections::HashMap;
use vstd::std_specs::iter::IteratorSpec;
use crate::text::{decimal, decimal_text, join2, join3};

verus! {

broadcast use vstd::std_specs::hash::group_hash_axioms;

/// Bytes per second received and sent by one process.
#[derive(Clone, Copy, Debug, Default)]
pub struct NetworkRate {
    pub receive_bps: u64,
    pub send_bps: u64,
}

/// Bytes received and sent by one process since the counters were last read.
#[derive(Clone, Copy, Debug, Default)]
pub struct ByteCount {
    pub receive: u64,
    pub send: u64,
}

/// What the collector reports about itself.
#[derive(Clone, Debug)]
pub struct CollectorStatus {
    pub state: String,
    pub message: String,
    pub events_lost: u64,
}

impl CollectorStatus {
    /// The status of a collector that has not been enabled.
    pub fn disabled() -> (r: Self)
        ensures
            r.state@ == "disabled"@,
            r.message@ == "应用网络监控尚未启用"@,
            r.events_lost == 0,
    {
        CollectorStatus {
            state: String::from_str("disabled"),
            message: String::from_str("应用网络监控尚未启用"),
            events_lost: 0,
        }
    }

    /// The status on platforms without a kernel TCP/IP event stream.
    pub fn unsupported() -> (r: Self)
        ensures
            r.state@ == "unsupported"@,
            r.message@ == "应用网络 ETW 仅支持 Windows"@,
            r.events_lost == 0,
    {
        CollectorStatus {
            state: String::from_str("unsupported"),
            message: String::from_str("应用网络 ETW 仅支持 Windows"),
            events_lost: 0,
        }
    }

    /// The status as the hardware view shows it: the message, and where
    /// events were lost, how many and that the figures may be incomplete.
    pub fn summary(&self) -> (r: String)
        ensures
            self.events_lost > 0 ==> r@ == self.message@ + "；已有 "@ + decimal(self.events_lost as nat)
                + " 个事件丢失，本段数据可能不完整"@,
            self.events_lost == 0 ==> r@ == self.message@,
    {
        if self.events_lost > 0 {
            let count = decimal_text(self.events_lost);
            let head = join3(self.message.as_str(), "；已有 ", count.as_str());
            join2(head.as_str(), " 个事件丢失，本段数据可能不完整")
        } else {
            self.message.clone()
        }
    }

    /// A copy of this status.
    pub fn duplicate(&self) -> (r: Self)
        ensures
            r == *self,
    {
        CollectorStatus {
            state: self.state.clone(),
            message: self.message.clone(),
            events_lost: self.events_lost,
        }
    }
}

/// The little-endian value of `bytes`.
pub open spec fn le_value(bytes: Seq<u8>) -> nat
    decreases bytes.len(),
{
    if bytes.len() == 0 {
        0
    } else {
        bytes[0] as nat + 256 * le_value(bytes.drop_first())
    }
}

/// Whether an event property of this many bytes holds an integer.
pub open spec fn integer_width(n: nat) -> bool {
    n == 1 || n == 2 || n == 4 || n == 8
}

proof fn lemma_le_value_bound(bytes: Seq<u8>)
    ensures
        le_value(bytes) < vstd::arithmetic::power::pow(256, bytes.len()),
    decreases bytes.len(),
{
    vstd::arithmetic::power::lemma_pow_positive(256, bytes.len());
    if bytes.len() > 0 {
        lemma_le_value_bound(bytes.drop_first());
        vstd::arithmetic::power::lemma_pow_adds(256, 1, (bytes.len() - 1) as nat);
        vstd::arithmetic::power::lemma_pow1(256);
        let p = vstd::arithmetic::power::pow(256, (bytes.len() - 1) as nat);
        let r = le_value(bytes.drop_first());
        assert(r + 1 <= p);
        assert(256 * r + 256 <= 256 * p) by (nonlinear_arith)
            requires
                r + 1 <= p,
        ;
    }
}

proof fn lemma_eight_bytes_fit(bytes: Seq<u8>)
    requires
        bytes.len() <= 8,
    ensures
        le_value(bytes) <= u64::MAX,
{
    lemma_le_value_bound(bytes);
    vstd::arithmetic::power::lemma_pow_increases(256, bytes.len(), 8);
    assert(vstd::arithmetic::power::pow(256, 8) == 0x1_0000_0000_0000_0000) by {
        reveal_with_fuel(vstd::arithmetic::power::pow, 9);
    }
}

/// Reads an integer property of 1, 2, 4 or 8 bytes, least significant
/// byte first; other widths hold no integer.
pub fn little_endian_u64(bytes: &[u8]) -> (r: Option<u64>)
    ensures
        match r {
            Some(v) => integer_width(bytes@.len()) && v == le_value(bytes@),
            None => !integer_width(bytes@.len()),
        },
{
    let n = bytes.len();
    if !(n == 1 || n == 2 || n == 4 || n == 8) {
        return None;
    }
    let mut value: u64 = 0;
    let mut i: usize = n;
    while i > 0
        invariant
            i <= n == bytes@.len() <= 8,
            value == le_value(bytes@.subrange(i as int, n as int)),
        decreases i,
    {
        let ghost rest = bytes@.subrange(i as int, n as int);
        let ghost more = bytes@.subrange(i - 1, n as int);
        proof {
            assert(more.drop_first() =~= rest);
            assert(more[0] == bytes@[i - 1]);
            lemma_eight_bytes_fit(more);
        }
        value = (bytes[i - 1] as u64) + 256 * value;
        i = i - 1;
    }
    proof {
        assert(bytes@.subrange(0, n as int) =~= bytes@);
    }
    Some(value)
}

/// The direction of a TCP/IP transfer event.
#[derive(Clone, Copy, Debug, PartialEq, Eq, Structural)]
pub enum Direction {
    Send,
    Receive,
}

/// The direction that an event opcode reports, if it reports a transfer.
pub open spec fn direction_of(opcode: u8) -> Option<Direction> {
    if opcode == 10 || opcode == 26 {
        Some(Direction::Send)
    } else if opcode == 11 || opcode == 27 {
        Some(Direction::Receive)
    } else {
        None
    }
}

/// The direction of a transfer event (send for opcodes 10 and 26, receive
/// for 11 and 27); other events carry no transfer.
pub fn transfer_direction(opcode: u8) -> (r: Option<Direction>)
    ensures
        r == direction_of(opcode),
{
    if opcode == 10 || opcode == 26 {
        Some(Direction::Send)
    } else if opcode == 11 || opcode == 27 {
        Some(Direction::Receive)
    } else {
        None
    }
}

/// The process and byte count of a transfer event, read from its process-id
/// and size properties; none when either is missing, not an integer, zero,
/// or the process id does not fit 32 bits.
pub open spec fn transfer_of(pid_bytes: Option<Seq<u8>>, size_bytes: Option<Seq<u8>>) -> Option<(u32, u64)> {
    match (pid_bytes, size_bytes) {
        (Some(p), Some(s)) => if integer_width(p.len()) && integer_width(s.len()) && 0 < le_value(p)
            <= u32::MAX && 0 < le_value(s) {
            Some((le_value(p) as u32, le_value(s) as u64))
        } else {
            None
        },
        _ => None,
    }
}

/// Saturating addition.
pub open spec fn plus(a: u64, b: u64) -> u64 {
    if a + b <= u64::MAX {
        (a + b) as u64
    } else {
        u64::MAX
    }
}

/// The counters after `bytes` more moved in `direction` for `pid`.
pub open spec fn counted(
    counters: Map<u32, ByteCount>,
    pid: u32,
    direction: Direction,
    bytes: u64,
) -> Map<u32, ByteCount> {
    let c = if counters.contains_key(pid) {
        counters[pid]
    } else {
        ByteCount { receive: 0, send: 0 }
    };
    counters.insert(
        pid,
        match direction {
            Direction::Send => ByteCount { send: plus(c.send, bytes), ..c },
            Direction::Receive => ByteCount { receive: plus(c.receive, bytes), ..c },
        },
    )
}

/// The rate of a byte count over an interval (at least one second).
pub open spec fn rate_of(c: ByteCount, interval_seconds: u64) -> NetworkRate {
    let d: u64 = if interval_seconds >= 1 {
        interval_seconds
    } else {
        1
    };
    NetworkRate { receive_bps: c.receive / d, send_bps: c.send / d }
}

/// What the platform layer has to do after a change of the collector's state.
#[derive(Clone, Copy, Debug, PartialEq, Eq, Structural)]
pub enum WorkerCommand {
    /// Start the trace session on a worker of its own.
    Spawn,
    /// Stop the trace session and wait for the worker.
    Halt,
    /// Nothing.
    Keep,
}

/// The collector of per-process network traffic.
pub struct NetworkCollector {
    counters: HashMap<u32, ByteCount>,
    status: CollectorStatus,
    running: bool,
    stop_requested: bool,
}

/// The message shown when the trace session cannot start with this error code.
pub open spec fn start_failure_message(code: u32) -> Seq<char> {
    (if code == 5 {
        "权限不足，无法启动内核 TCP/IP ETW 会话。请以管理员身份启动采集组件"@
    } else if code == 183 {
        "同名 ETW 会话已经存在，请关闭其他大黄狗实例后重试"@
    } else {
        "Windows 无法启动 TCP/IP ETW 会话"@
    }) + "（错误 "@ + decimal(code as nat) + "）"@
}

impl NetworkCollector {
    /// The byte counters per process.
    pub closed spec fn counters_view(&self) -> Map<u32, ByteCount> {
        self.counters@
    }

    /// The collector's status.
    pub closed spec fn status_view(&self) -> CollectorStatus {
        self.status
    }

    /// Whether a trace worker has been started and not stopped.
    pub closed spec fn running_view(&self) -> bool {
        self.running
    }

    /// Whether a stop has been asked for since the last start.
    pub closed spec fn stop_view(&self) -> bool {
        self.stop_requested
    }

    /// A collector, with its worker started at once when `enabled`.
    pub fn new(enabled: bool) -> (r: (Self, WorkerCommand))
        ensures
            r.0.counters_view() == Map::<u32, ByteCount>::empty(),
            r.0.status_view().state@ == "disabled"@,
            r.0.status_view().events_lost == 0,
            r.0.running_view() == enabled,
            !r.0.stop_view(),
            r.1 == (if enabled {
                WorkerCommand::Spawn
            } else {
                WorkerCommand::Keep
            }),
    {
        let mut c = NetworkCollector {
            counters: HashMap::new(),
            status: CollectorStatus::disabled(),
            running: false,
            stop_requested: false,
        };
        let cmd = if enabled {
            c.start()
        } else {
            WorkerCommand::Keep
        };
        (c, cmd)
    }

    /// Starts the worker unless one is running.
    pub fn start(&mut self) -> (cmd: WorkerCommand)
        ensures
            old(self).running_view() ==> *final(self) == *old(self) && cmd == WorkerCommand::Keep,
            !old(self).running_view() ==> final(self).running_view() && !final(self).stop_view()
                && final(self).counters_view() == old(self).counters_view()
                && final(self).status_view() == old(self).status_view() && cmd
                == WorkerCommand::Spawn,
    {
        if self.running {
            return WorkerCommand::Keep;
        }
        self.stop_requested = false;
        self.running = true;
        WorkerCommand::Spawn
    }

    /// Stops the worker, forgets the counters and reports the collector as
    /// disabled.
    pub fn stop(&mut self) -> (cmd: WorkerCommand)
        ensures
            final(self).counters_view() == Map::<u32, ByteCount>::empty(),
            final(self).status_view().state@ == "disabled"@,
            final(self).status_view().message@ == "应用网络监控尚未启用"@,
            final(self).status_view().events_lost == old(self).status_view().events_lost,
            !final(self).running_view(),
            final(self).stop_view(),
            cmd == WorkerCommand::Halt,
    {
        self.stop_requested = true;
        self.running = false;
        self.counters = HashMap::new();
        self.set_status("disabled", "应用网络监控尚未启用");
        WorkerCommand::Halt
    }

    /// Starts or stops the worker.
    pub fn set_enabled(&mut self, enabled: bool) -> (cmd: WorkerCommand)
        ensures
            enabled && old(self).running_view() ==> *final(self) == *old(self) && cmd
                == WorkerCommand::Keep,
            enabled && !old(self).running_view() ==> final(self).running_view()
                && !final(self).stop_view() && final(self).counters_view()
                == old(self).counters_view() && final(self).status_view() == old(
                self,
            ).status_view() && cmd == WorkerCommand::Spawn,
            !enabled ==> final(self).counters_view() == Map::<u32, ByteCount>::empty()
                && final(self).status_view().state@ == "disabled"@ && !final(self).running_view()
                && final(self).stop_view() && cmd == WorkerCommand::Halt,
    {
        if enabled {
            self.start()
        } else {
            self.stop()
        }
    }

    /// Sets the state and message, keeping the count of lost events.
    pub fn set_status(&mut self, state: &str, message: &str)
        ensures
            final(self).status_view().state@ == state@,
            final(self).status_view().message@ == message@,
            final(self).status_view().events_lost == old(self).status_view().events_lost,
            final(self).counters_view() == old(self).counters_view(),
            final(self).running_view() == old(self).running_view(),
            final(self).stop_view() == old(self).stop_view(),
    {
        self.status.state = String::from_str(state);
        self.status.message = String::from_str(message);
    }

    /// A copy of the collector's status.
    pub fn status(&self) -> (r: CollectorStatus)
        ensures
            r == self.status_view(),
    {
        self.status.duplicate()
    }

    /// The rate of each process's traffic over the last `interval_seconds`
    /// (at least one), emptying the counters.
    pub fn rates(&mut self, interval_seconds: u64) -> (r: HashMap<u32, NetworkRate>)
        ensures
            r@.dom() == old(self).counters_view().dom(),
            forall|pid: u32|
                #[trigger] r@.contains_key(pid) ==> r@[pid] == rate_of(
                    old(self).counters_view()[pid],
                    interval_seconds,
                ),
            final(self).counters_view() == Map::<u32, ByteCount>::empty(),
            final(self).status_view() == old(self).status_view(),
            final(self).running_view() == old(self).running_view(),
            final(self).stop_view() == old(self).stop_view(),
    {
        let mut taken: HashMap<u32, ByteCount> = HashMap::new();
        std::mem::swap(&mut taken, &mut self.counters);
        let d: u64 = if interval_seconds >= 1 {
            interval_seconds
        } else {
            1
        };
        let mut out: HashMap<u32, NetworkRate> = HashMap::new();
        let ghost m = taken@;
        for entry in it: taken.iter()
            invariant
                m == taken@,
                d == (if interval_seconds >= 1 {
                    interval_seconds
                } else {
                    1u64
                }),
                it.seq() == vstd::std_specs::hash::spec_hash_map_iter(&taken).remaining(),
                forall|pid: u32| #[trigger]
                    out@.contains_key(pid) ==> m.contains_key(pid) && out@[pid] == rate_of(
                        m[pid],
                        interval_seconds,
                    ),
                forall|k: int|
                    0 <= k < it.index() ==> out@.contains_key(*(#[trigger] it.seq()[k]).0),
        {
            let (pid, count) = entry;
            out.insert(*pid, NetworkRate { receive_bps: count.receive / d, send_bps: count.send / d });
        }
        proof {
            let v = vstd::std_specs::hash::spec_hash_map_iter(&taken).remaining();
            assert forall|pid: u32| m.contains_key(pid) implies #[trigger] out@.contains_key(pid) by {
                assert(v.contains((&pid, &m[pid])));
                let k = choose|k: int| 0 <= k < v.len() && v[k] == (&pid, &m[pid]);
                assert(out@.contains_key(*v[k].0));
            }
            assert(out@.dom() =~= m.dom());
        }
        out
    }

    /// Counts one TCP/IP event: a transfer (see `transfer_direction` and
    /// `transfer_of`) adds its bytes, saturating, to its process's counter;
    /// any other event changes nothing.
    pub fn record_transfer(&mut self, opcode: u8, pid_bytes: Option<&[u8]>, size_bytes: Option<&[u8]>)
        ensures
            match (
                direction_of(opcode),
                transfer_of(
                    match pid_bytes {
                        Some(p) => Some(p@),
                        None => None,
                    },
                    match size_bytes {
                        Some(s) => Some(s@),
                        None => None,
                    },
                ),
            ) {
                (Some(dir), Some((pid, bytes))) => final(self).counters_view() == counted(
                    old(self).counters_view(),
                    pid,
                    dir,
                    bytes,
                ),
                _ => final(self).counters_view() == old(self).counters_view(),
            },
            final(self).status_view() == old(self).status_view(),
            final(self).running_view() == old(self).running_view(),
            final(self).stop_view() == old(self).stop_view(),
    {
        let dir = match transfer_direction(opcode) {
            Some(d) => d,
            None => {
                return;
            },
        };
        let pid = match pid_bytes {
            Some(p) => match little_endian_u64(p) {
                Some(v) => v,
                None => {
                    return;
                },
            },
            None => {
                return;
            },
        };
        let bytes = match size_bytes {
            Some(s) => match little_endian_u64(s) {
                Some(v) => v,
                None => {
                    return;
                },
            },
            None => {
                return;
            },
        };
        if pid > u32::MAX as u64 || pid == 0 || bytes == 0 {
            return;
        }
        let pid32 = pid as u32;
        let current = match self.counters.get(&pid32) {
            Some(c) => *c,
            None => ByteCount { receive: 0, send: 0 },
        };
        let next = match dir {
            Direction::Send => ByteCount { receive: current.receive, send: current.send.saturating_add(bytes) },
            Direction::Receive => ByteCount {
                receive: current.receive.saturating_add(bytes),
                send: current.send,
            },
        };
        self.counters.insert(pid32, next);
    }

    /// The worker has begun to start the trace session.
    pub fn note_starting(&mut self)
        ensures
            final(self).status_view().state@ == "starting"@,
            final(self).status_view().message@ == "正在启动 Windows TCP/IP ETW 会话"@,
            final(self).status_view().events_lost == old(self).status_view().events_lost,
            final(self).counters_view() == old(self).counters_view(),
            final(self).running_view() == old(self).running_view(),
            final(self).stop_view() == old(self).stop_view(),
    {
        self.set_status("starting", "正在启动 Windows TCP/IP ETW 会话");
    }

    /// The trace session could not be started: the error code chooses the
    /// message.
    pub fn note_start_failed(&mut self, code: u32)
        ensures
            final(self).status_view().state@ == "error"@,
            final(self).status_view().message@ == start_failure_message(code),
            final(self).status_view().events_lost == old(self).status_view().events_lost,
            final(self).counters_view() == old(self).counters_view(),
            final(self).running_view() == old(self).running_view(),
            final(self).stop_view() == old(self).stop_view(),
    {
        let reason = if code == 5 {
            "权限不足，无法启动内核 TCP/IP ETW 会话。请以管理员身份启动采集组件"
        } else if code == 183 {
            "同名 ETW 会话已经存在，请关闭其他大黄狗实例后重试"
        } else {
            "Windows 无法启动 TCP/IP ETW 会话"
        };
        let head = join2(reason, "（错误 ");
        let message = join3(head.as_str(), decimal_text(code as u64).as_str(), "）");
        self.status.state = String::from_str("error");
        self.status.message = message;
    }

    /// The session started but its real-time channel could not be opened.
    pub fn note_consumer_failed(&mut self)
        ensures
            final(self).status_view().state@ == "error"@,
            final(self).status_view().message@ == "ETW 会话已经创建，但实时读取通道打开失败"@,
            final(self).status_view().events_lost == old(self).status_view().events_lost,
            final(self).counters_view() == old(self).counters_view(),
            final(self).running_view() == old(self).running_view(),
            final(self).stop_view() == old(self).stop_view(),
    {
        self.set_status("error", "ETW 会话已经创建，但实时读取通道打开失败");
    }

    /// Events are being collected.
    pub fn note_running(&mut self)
        ensures
            final(self).status_view().state@ == "running"@,
            final(self).status_view().message@ == "正在通过 Windows ETW 采集并按应用归属网络流量"@,
            final(self).status_view().events_lost == old(self).status_view().events_lost,
            final(self).counters_view() == old(self).counters_view(),
            final(self).running_view() == old(self).running_view(),
            final(self).stop_view() == old(self).stop_view(),
    {
        self.set_status("running", "正在通过 Windows ETW 采集并按应用归属网络流量");
    }

    /// Event processing ended with `result` (zero for success), having lost
    /// `events_lost` events: they are added to the count, and an end that
    /// was neither asked for nor clean is reported as an error.
    pub fn note_finished(&mut self, result: u32, events_lost: u64)
        ensures
            final(self).status_view().events_lost == plus(old(self).status_view().events_lost, events_lost),
            !old(self).stop_view() && result != 0 ==> final(self).status_view().state@ == "error"@
                && final(self).status_view().message@ == "ETW 实时事件处理意外停止（错误 "@ + decimal(
                result as nat,
            ) + "）"@,
            !(!old(self).stop_view() && result != 0) ==> final(self).status_view().state
                == old(self).status_view().state && final(self).status_view().message == old(
                self,
            ).status_view().message,
            final(self).counters_view() == old(self).counters_view(),
            final(self).running_view() == old(self).running_view(),
            final(self).stop_view() == old(self).stop_view(),
    {
        self.status.events_lost = self.status.events_lost.saturating_add(events_lost);
        if !self.stop_requested && result != 0 {
            let message = join3(
                "ETW 实时事件处理意外停止（错误 ",
                decimal_text(result as u64).as_str(),
                "）",
            );
            self.status.state = String::from_str("error");
            self.status.message = message;
        }
    }
}

} // verus!
