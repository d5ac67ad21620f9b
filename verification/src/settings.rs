//! The user's patrol settings and the ranges they must stay in.
use vstd::prelude::*;
use crate::detector::{with_event, Detector};
use crate::network::{NetworkCollector, WorkerCommand};
use crate::text::str_eq;
use crate::types::TimelineEvent;

verus! {

/// The user's settings. The two thresholds are percentages carried as the
/// bit patterns of their `f32` values (`f32::to_bits`).
#[derive(Clone, Debug)]
pub struct UserSettings {
    pub cpu_threshold_bits: u32,
    pub memory_threshold_bits: u32,
    pub sampling_seconds: u64,
    pub low_power_mode: bool,
    pub notifications_enabled: bool,
    pub retention_days: u32,
    pub application_network_monitoring: bool,
    pub minimax_model: String,
    pub companion_personality: String,
}

/// Bit pattern of the `f32` value 70.0.
pub open spec fn bits_70() -> u32 {
    0x428c_0000
}

/// Bit pattern of the `f32` value 99.0.
pub open spec fn bits_99() -> u32 {
    0x42c6_0000
}

/// Whether the `f32` with these bits lies in 70.0..=99.0. For non-negative
/// finite values the bit patterns order as the values do; negative values,
/// infinities and NaNs all fall outside the range.
pub open spec fn threshold_ok(bits: u32) -> bool {
    bits_70() <= bits <= bits_99()
}

/// Whether the settings stay within the safe ranges.
pub open spec fn ranges_ok(s: UserSettings) -> bool {
    &&& threshold_ok(s.cpu_threshold_bits)
    &&& threshold_ok(s.memory_threshold_bits)
    &&& 2 <= s.sampling_seconds <= 30
    &&& 1 <= s.retention_days <= 90
}

/// Whether the companion's personality is one the application offers.
pub open spec fn personality_ok(p: Seq<char>) -> bool {
    p == "quiet"@ || p == "warm"@ || p == "playful"@
}

/// Whether a settings change is accepted.
pub open spec fn settings_ok(s: UserSettings) -> bool {
    ranges_ok(s) && crate::ai::is_allowed_model(s.minimax_model@) && personality_ok(
        s.companion_personality@,
    )
}

impl UserSettings {
    /// The default settings: 90% thresholds, two-second sampling, seven days
    /// of history, notifications on.
    pub fn defaults() -> (s: Self)
        ensures
            s.cpu_threshold_bits == 0x42b4_0000,
            s.memory_threshold_bits == 0x42b4_0000,
            s.sampling_seconds == 2,
            !s.low_power_mode,
            s.notifications_enabled,
            s.retention_days == 7,
            !s.application_network_monitoring,
            s.minimax_model@ == "MiniMax-M2.7"@,
            s.companion_personality@ == "warm"@,
            settings_ok(s),
    {
        UserSettings {
            cpu_threshold_bits: 0x42b4_0000,
            memory_threshold_bits: 0x42b4_0000,
            sampling_seconds: 2,
            low_power_mode: false,
            notifications_enabled: true,
            retention_days: 7,
            application_network_monitoring: false,
            minimax_model: String::from_str("MiniMax-M2.7"),
            companion_personality: String::from_str("warm"),
        }
    }

    /// Seconds between patrol rounds: 15 in low-power mode, otherwise the
    /// configured interval held to 2..=30.
    pub fn sampling_interval_seconds(&self) -> (r: u64)
        ensures
            r == interval_of(*self),
            2 <= r <= 30,
    {
        if self.low_power_mode {
            15
        } else if self.sampling_seconds < 2 {
            2
        } else if self.sampling_seconds > 30 {
            30
        } else {
            self.sampling_seconds
        }
    }
}

impl Default for UserSettings {
    fn default() -> (s: Self)
        ensures
            s.cpu_threshold_bits == 0x42b4_0000,
            s.memory_threshold_bits == 0x42b4_0000,
            s.sampling_seconds == 2,
            !s.low_power_mode,
            s.notifications_enabled,
            s.retention_days == 7,
            !s.application_network_monitoring,
            s.minimax_model@ == "MiniMax-M2.7"@,
            s.companion_personality@ == "warm"@,
            settings_ok(s),
    {
        UserSettings::defaults()
    }
}

/// Seconds between patrol rounds under the settings `s`.
pub open spec fn interval_of(s: UserSettings) -> u64 {
    if s.low_power_mode {
        15
    } else if s.sampling_seconds < 2 {
        2
    } else if s.sampling_seconds > 30 {
        30
    } else {
        s.sampling_seconds
    }
}

/// Checks a settings change: ranges first, then the model, then the personality.
pub fn validate_settings(s: &UserSettings) -> (r: Result<(), String>)
    ensures
        r is Ok <==> settings_ok(*s),
        r matches Err(e) ==> e@ == if !ranges_ok(*s) {
            "设置超出安全范围"@
        } else if !crate::ai::is_allowed_model(s.minimax_model@) {
            "不支持的 MiniMax 模型"@
        } else {
            "不支持的小狗性格"@
        },
{
    if !(0x428c_0000 <= s.cpu_threshold_bits && s.cpu_threshold_bits <= 0x42c6_0000)
        || !(0x428c_0000 <= s.memory_threshold_bits && s.memory_threshold_bits <= 0x42c6_0000)
        || !(2 <= s.sampling_seconds && s.sampling_seconds <= 30) || !(1 <= s.retention_days
        && s.retention_days <= 90) {
        return Err(String::from_str("设置超出安全范围"));
    }
    crate::ai::validate_model(s.minimax_model.as_str())?;
    let p = s.companion_personality.as_str();
    if !(str_eq(p, "quiet") || str_eq(p, "warm") || str_eq(p, "playful")) {
        return Err(String::from_str("不支持的小狗性格"));
    }
    Ok(())
}

/// Whether two settings hold the same values.
pub open spec fn same_values(a: UserSettings, b: UserSettings) -> bool {
    &&& a.cpu_threshold_bits == b.cpu_threshold_bits
    &&& a.memory_threshold_bits == b.memory_threshold_bits
    &&& a.sampling_seconds == b.sampling_seconds
    &&& a.low_power_mode == b.low_power_mode
    &&& a.notifications_enabled == b.notifications_enabled
    &&& a.retention_days == b.retention_days
    &&& a.application_network_monitoring == b.application_network_monitoring
    &&& a.minimax_model@ == b.minimax_model@
    &&& a.companion_personality@ == b.companion_personality@
}

/// Whether two settings hold the same values.
pub fn same_settings(a: &UserSettings, b: &UserSettings) -> (r: bool)
    ensures
        r == same_values(*a, *b),
{
    a.cpu_threshold_bits == b.cpu_threshold_bits && a.memory_threshold_bits == b.memory_threshold_bits
        && a.sampling_seconds == b.sampling_seconds && a.low_power_mode == b.low_power_mode
        && a.notifications_enabled == b.notifications_enabled && a.retention_days == b.retention_days
        && a.application_network_monitoring == b.application_network_monitoring && str_eq(
        a.minimax_model.as_str(),
        b.minimax_model.as_str(),
    ) && str_eq(a.companion_personality.as_str(), b.companion_personality.as_str())
}

/// Puts new settings into effect at `now` (seconds): refused as
/// `validate_settings` refuses them, with nothing changed; otherwise the
/// application network collector follows the new switch, both load runs
/// start again, and the timeline records the update. Returns what the
/// platform layer has to do for the collector.
pub fn apply_settings(
    detector: &mut Detector,
    network: &mut NetworkCollector,
    settings: &UserSettings,
    now: u64,
) -> (r: Result<WorkerCommand, String>)
    requires
        old(detector).wf(),
        now <= u64::MAX / 1000,
    ensures
        final(detector).wf(),
        r is Ok <==> settings_ok(*settings),
        r matches Err(e) ==> e@ == if !ranges_ok(*settings) {
            "设置超出安全范围"@
        } else if !crate::ai::is_allowed_model(settings.minimax_model@) {
            "不支持的 MiniMax 模型"@
        } else {
            "不支持的小狗性格"@
        },
        r is Err ==> *final(detector) == *old(detector) && *final(network) == *old(network),
        r is Ok ==> {
            &&& final(detector).cpu_run() == 0
            &&& final(detector).memory_run() == 0
            &&& final(detector).findings_view() == old(detector).findings_view()
            &&& exists|e: TimelineEvent|
                #![trigger with_event(old(detector).timeline_view(), e)]
                final(detector).timeline_view() == with_event(old(detector).timeline_view(), e)
                    && e.occurred_at == now * 1000 && e.kind@ == "patrol"@ && e.message@
                    == "巡逻设置已经更新"@
            &&& settings.application_network_monitoring ==> final(network).running_view()
            &&& !settings.application_network_monitoring ==> !final(network).running_view()
                && final(network).status_view().state@ == "disabled"@
                && final(network).counters_view() == Map::<u32, crate::network::ByteCount>::empty()
        },
{
    validate_settings(settings)?;
    let cmd = network.set_enabled(settings.application_network_monitoring);
    detector.reset_load_runs();
    proof {
        reveal_strlit("patrol");
        reveal_strlit("巡逻设置已经更新");
    }
    detector.push_event(now, "patrol", "巡逻设置已经更新");
    Ok(cmd)
}

} // verus!
