//! Summaries of the stored history: the window a trend covers, the average
//! throughput of its points, how long snapshots are kept, and the totals of
//! application usage over a period.
use vstd::prelude::*;

verus! {

/// One application's usage over a period, as the store aggregates it.
#[derive(Clone, Debug)]
pub struct AppUsageAggregate {
    pub name: String,
    pub session_count: u64,
    pub runtime_seconds: u64,
    pub foreground_seconds: u64,
    pub background_seconds: u64,
}

/// Foreground time and launches of one day.
#[derive(Clone, Debug)]
pub struct DailyUsage {
    pub date: String,
    pub foreground_seconds: u64,
    pub launch_count: u64,
}

/// Application usage over a period.
#[derive(Debug)]
pub struct AppUsageSummary {
    pub period_days: u32,
    pub application_count: usize,
    pub session_count: u64,
    pub total_runtime_seconds: u64,
    pub total_foreground_seconds: u64,
    pub total_background_seconds: u64,
    pub longest_used_app: Option<String>,
    pub top_apps: Vec<AppUsageAggregate>,
    pub daily_usage: Vec<DailyUsage>,
}

/// A field of the aggregates added up.
pub open spec fn field_total(s: Seq<AppUsageAggregate>, f: spec_fn(AppUsageAggregate) -> u64) -> nat
    decreases s.len(),
{
    if s.len() == 0 {
        0
    } else {
        field_total(s.drop_last(), f) + f(s.last()) as nat
    }
}

/// Sessions.
pub open spec fn sessions_of() -> spec_fn(AppUsageAggregate) -> u64 {
    |a: AppUsageAggregate| a.session_count
}

/// Runtime.
pub open spec fn runtime_of() -> spec_fn(AppUsageAggregate) -> u64 {
    |a: AppUsageAggregate| a.runtime_seconds
}

/// Foreground time.
pub open spec fn foreground_of() -> spec_fn(AppUsageAggregate) -> u64 {
    |a: AppUsageAggregate| a.foreground_seconds
}

/// Background time.
pub open spec fn background_of() -> spec_fn(AppUsageAggregate) -> u64 {
    |a: AppUsageAggregate| a.background_seconds
}

proof fn lemma_total_prefix(s: Seq<AppUsageAggregate>, f: spec_fn(AppUsageAggregate) -> u64, i: int)
    requires
        0 <= i <= s.len(),
    ensures
        field_total(s.take(i), f) <= field_total(s, f),
    decreases s.len() - i,
{
    if i < s.len() {
        lemma_total_prefix(s, f, i + 1);
        assert(s.take(i + 1).drop_last() =~= s.take(i));
    } else {
        assert(s.take(i) =~= s);
    }
}

fn add_up(s: &Vec<AppUsageAggregate>, which: u8) -> (r: u64)
    requires
        which <= 3,
        field_total(
            s@,
            if which == 0 {
                sessions_of()
            } else if which == 1 {
                runtime_of()
            } else if which == 2 {
                foreground_of()
            } else {
                background_of()
            },
        ) <= u64::MAX,
    ensures
        r == field_total(
            s@,
            if which == 0 {
                sessions_of()
            } else if which == 1 {
                runtime_of()
            } else if which == 2 {
                foreground_of()
            } else {
                background_of()
            },
        ),
{
    let ghost f = if which == 0 {
        sessions_of()
    } else if which == 1 {
        runtime_of()
    } else if which == 2 {
        foreground_of()
    } else {
        background_of()
    };
    let mut total: u64 = 0;
    let mut i: usize = 0;
    while i < s.len()
        invariant
            i <= s@.len(),
            which <= 3,
            f == (if which == 0 {
                sessions_of()
            } else if which == 1 {
                runtime_of()
            } else if which == 2 {
                foreground_of()
            } else {
                background_of()
            }),
            field_total(s@, f) <= u64::MAX,
            total == field_total(s@.take(i as int), f),
        decreases s@.len() - i,
    {
        proof {
            assert(s@.take(i + 1).drop_last() =~= s@.take(i as int));
            assert(s@.take(i + 1).last() == s@[i as int]);
            lemma_total_prefix(s@, f, i + 1);
        }
        let a = &s[i];
        let v = if which == 0 {
            a.session_count
        } else if which == 1 {
            a.runtime_seconds
        } else if which == 2 {
            a.foreground_seconds
        } else {
            a.background_seconds
        };
        total = total + v;
        i = i + 1;
    }
    proof {
        assert(s@.take(s@.len() as int) =~= s@);
    }
    total
}

/// Sums up the period's usage: the applications, ordered by foreground time
/// as the store gives them, their sessions and times, the one used longest,
/// and the eight leading ones.
pub fn usage_summary(period_days: u32, top_apps: Vec<AppUsageAggregate>, daily_usage: Vec<DailyUsage>) -> (r:
    AppUsageSummary)
    requires
        field_total(top_apps@, sessions_of()) <= u64::MAX,
        field_total(top_apps@, runtime_of()) <= u64::MAX,
        field_total(top_apps@, foreground_of()) <= u64::MAX,
        field_total(top_apps@, background_of()) <= u64::MAX,
    ensures
        r.period_days == period_days,
        r.application_count == top_apps@.len(),
        r.session_count == field_total(top_apps@, sessions_of()),
        r.total_runtime_seconds == field_total(top_apps@, runtime_of()),
        r.total_foreground_seconds == field_total(top_apps@, foreground_of()),
        r.total_background_seconds == field_total(top_apps@, background_of()),
        r.longest_used_app == (if top_apps@.len() > 0 {
            Some(top_apps@[0].name)
        } else {
            None
        }),
        r.top_apps@ == (if top_apps@.len() <= 8 {
            top_apps@
        } else {
            top_apps@.take(8)
        }),
        r.daily_usage@ == daily_usage@,
{
    let sessions = add_up(&top_apps, 0);
    let runtime = add_up(&top_apps, 1);
    let foreground = add_up(&top_apps, 2);
    let background = add_up(&top_apps, 3);
    let longest = if top_apps.len() > 0 {
        Some(top_apps[0].name.clone())
    } else {
        None
    };
    let count = top_apps.len();
    let mut top = top_apps;
    if top.len() > 8 {
        top.truncate(8);
    }
    AppUsageSummary {
        period_days,
        application_count: count,
        session_count: sessions,
        total_runtime_seconds: runtime,
        total_foreground_seconds: foreground,
        total_background_seconds: background,
        longest_used_app: longest,
        top_apps: top,
        daily_usage,
    }
}

/// The start of a usage period of `period_days` days ending at `now`
/// (milliseconds); none where the period reaches before the epoch.
pub fn usage_since(now: u64, period_days: u32) -> (r: Option<u64>)
    ensures
        now >= period_days * 86_400_000 ==> r == Some((now - period_days * 86_400_000) as u64),
        now < period_days * 86_400_000 ==> r is None,
{
    let span = (period_days as u64) * 86_400_000;
    if now >= span {
        Some(now - span)
    } else {
        None
    }
}

/// The window of a trend over `range_minutes` ending at `now`
/// (milliseconds): its start, the range held to one minute to a week, and
/// the width of its buckets, a 300th of the range but at least two seconds.
pub fn trend_window(now: u64, range_minutes: u32) -> (r: (u64, u64))
    ensures
        ({
            let m: u64 = if range_minutes < 1 {
                1
            } else if range_minutes > 10_080 {
                10_080
            } else {
                range_minutes as u64
            };
            &&& r.0 == (if now >= m * 60_000 {
                (now - m * 60_000) as u64
            } else {
                0
            })
            &&& r.1 == (if range_minutes * 60_000 / 300 >= 2_000 {
                (range_minutes * 60_000 / 300) as u64
            } else {
                2_000
            })
        }),
{
    let m: u64 = if range_minutes < 1 {
        1
    } else if range_minutes > 10_080 {
        10_080
    } else {
        range_minutes as u64
    };
    let since = now.saturating_sub(m * 60_000);
    let b = (range_minutes as u64) * 60_000 / 300;
    let bucket = if b >= 2_000 {
        b
    } else {
        2_000
    };
    (since, bucket)
}

/// The readings added up.
pub open spec fn total_of(s: Seq<u64>) -> nat
    decreases s.len(),
{
    if s.len() == 0 {
        0
    } else {
        total_of(s.drop_last()) + s.last() as nat
    }
}

/// The mean of the readings, rounded down; zero where there are none.
pub open spec fn mean_of(s: Seq<u64>) -> nat {
    if s.len() == 0 {
        0
    } else {
        total_of(s) / s.len()
    }
}

proof fn lemma_total_of_prefix(s: Seq<u64>, i: int)
    requires
        0 <= i <= s.len(),
    ensures
        total_of(s.take(i)) <= total_of(s),
    decreases s.len() - i,
{
    if i < s.len() {
        lemma_total_of_prefix(s, i + 1);
        assert(s.take(i + 1).drop_last() =~= s.take(i));
    } else {
        assert(s.take(i) =~= s);
    }
}

/// The average throughput of a history's points: their sum over their
/// count, rounded down, and zero for an empty history.
pub fn average_bps(values: &Vec<u64>) -> (r: u64)
    requires
        total_of(values@) <= u64::MAX,
    ensures
        r == mean_of(values@),
{
    let mut sum: u64 = 0;
    let mut i: usize = 0;
    while i < values.len()
        invariant
            i <= values@.len(),
            total_of(values@) <= u64::MAX,
            sum == total_of(values@.take(i as int)),
        decreases values@.len() - i,
    {
        proof {
            assert(values@.take(i + 1).drop_last() =~= values@.take(i as int));
            lemma_total_of_prefix(values@, i + 1);
        }
        sum = sum + values[i];
        i = i + 1;
    }
    proof {
        assert(values@.take(values@.len() as int) =~= values@);
    }
    if values.len() == 0 {
        0
    } else {
        sum / (values.len() as u64)
    }
}

/// Where the day-long baseline of a history starts: a day before its latest
/// point, at the epoch if that reaches before it, and at the epoch for an
/// empty history.
pub fn history_since(latest_captured_at: Option<u64>) -> (r: u64)
    ensures
        r == (match latest_captured_at {
            Some(t) => if t >= 86_400_000 {
                (t - 86_400_000) as u64
            } else {
                0
            },
            None => 0,
        }),
{
    match latest_captured_at {
        Some(t) => t.saturating_sub(86_400_000),
        None => 0,
    }
}

/// The oldest capture time a snapshot taken at `captured_at` (milliseconds)
/// leaves in the store when snapshots are kept for `retention_days` days.
pub fn retention_cutoff(captured_at: u64, retention_days: u32) -> (r: u64)
    ensures
        captured_at >= retention_days * 86_400_000 ==> r == captured_at - retention_days * 86_400_000,
        captured_at < retention_days * 86_400_000 ==> r == 0,
{
    captured_at.saturating_sub((retention_days as u64) * 86_400_000)
}

} // verus!
