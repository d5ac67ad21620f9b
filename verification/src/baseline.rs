//! Rolling median/MAD baselines, sustained-sample counting and memory growth.
use vstd::prelude::*;
use vstd::relations::{sorted_by, total_ordering};
use std::collections::VecDeque;

verus! {

broadcast use vstd::seq_lib::group_to_multiset_ensures, vstd::std_specs::vecdeque::group_vec_dequeue_axioms;

/// Ascending order on integers of the baseline.
pub open spec fn ascending() -> spec_fn(u64, u64) -> bool {
    |a: u64, b: u64| a <= b
}

proof fn lemma_ascending_total()
    ensures
        total_ordering(ascending()),
{
}

/// `v` sorted in ascending order.
pub fn sort_ascending(v: &Vec<u64>) -> (r: Vec<u64>)
    ensures
        r@ == v@.sort_by(ascending()),
{
    let mut out: Vec<u64> = Vec::new();
    let mut i: usize = 0;
    while i < v.len()
        invariant
            i <= v.len(),
            sorted_by(out@, ascending()),
            out@.to_multiset() == v@.take(i as int).to_multiset(),
        decreases v.len() - i,
    {
        let x = v[i];
        let mut pos: usize = 0;
        while pos < out.len() && out[pos] <= x
            invariant
                pos <= out.len(),
                forall|k: int| 0 <= k < pos ==> out@[k] <= x,
            decreases out.len() - pos,
        {
            pos = pos + 1;
        }
        let ghost before = out@;
        out.insert(pos, x);
        proof {
            assert(out@ == before.insert(pos as int, x));
            assert forall|a: int, b: int| 0 <= a < b < out@.len() implies #[trigger] (ascending())(
                out@[a],
                out@[b],
            ) by {
                if b < pos {
                } else if a < pos && b == pos {
                } else if a < pos && b > pos {
                    assert((ascending())(before[a], before[b - 1]));
                } else if a == pos {
                    assert(before[pos as int] > x);
                    if b - 1 > pos {
                        assert((ascending())(before[pos as int], before[b - 1]));
                    }
                } else {
                    assert((ascending())(before[a - 1], before[b - 1]));
                }
            }
            assert(v@.take(i + 1) =~= v@.take(i as int).push(x));
        }
        i = i + 1;
    }
    proof {
        assert(v@.take(v.len() as int) =~= v@);
        lemma_ascending_total();
        v@.lemma_sort_by_ensures(ascending());
        vstd::seq_lib::lemma_sorted_unique(out@, v@.sort_by(ascending()), ascending());
    }
    out
}

/// The middle value (upper middle for an even count) of `s` in ascending order.
pub open spec fn median(s: Seq<u64>) -> u64 {
    s.sort_by(ascending())[(s.len() / 2) as int]
}

/// Distance between two integers.
pub open spec fn distance(a: u64, b: u64) -> u64 {
    if a >= b {
        (a - b) as u64
    } else {
        (b - a) as u64
    }
}

/// The median absolute deviation of `s` around its median, at least 1.
pub open spec fn mad(s: Seq<u64>) -> u64 {
    let m = median(s);
    let d = s.sort_by(ascending()).map_values(|x: u64| distance(x, m));
    let raw = d.sort_by(ascending())[(d.len() / 2) as int];
    if raw >= 1 {
        raw
    } else {
        1
    }
}

/// Whether `value` stands out from the history `s`: at least 30 samples, at
/// least `floor`, above median + 6 MAD and above 2.5 times the median.
pub open spec fn is_outlier(s: Seq<u64>, value: u64, floor: u64) -> bool {
    &&& s.len() >= 30
    &&& value >= floor
    &&& value > median(s) + 6 * mad(s)
    &&& 2 * value > 5 * median(s)
}

/// The readings of one metric: the first 900 are kept, later ones are
/// dropped once it is full.
pub struct RollingBaseline {
    values: VecDeque<u64>,
}

impl View for RollingBaseline {
    type V = Seq<u64>;

    closed spec fn view(&self) -> Seq<u64> {
        self.values@
    }
}

impl RollingBaseline {
    /// The history never holds more than 900 readings.
    pub closed spec fn wf(&self) -> bool {
        self.values@.len() <= 900
    }

    /// An empty history.
    pub fn new() -> (b: Self)
        ensures
            b@ == Seq::<u64>::empty(),
            b.wf(),
    {
        RollingBaseline { values: VecDeque::new() }
    }

    /// Compares `value` with the history: the median and MAD where it is an
    /// outlier, `None` otherwise.
    pub fn assess(&self, value: u64, absolute_floor: u64) -> (r: Option<(u64, u64)>)
        requires
            self.wf(),
        ensures
            r is Some <==> is_outlier(self@, value, absolute_floor),
            r matches Some(p) ==> p == (median(self@), mad(self@)),
    {
        let n = self.values.len();
        if n < 30 || value < absolute_floor {
            return None;
        }
        let mut copy: Vec<u64> = Vec::new();
        let mut i: usize = 0;
        while i < n
            invariant
                n == self.values@.len(),
                i <= n,
                copy@ == self.values@.take(i as int),
            decreases n - i,
        {
            copy.push(self.values[i]);
            assert(self.values@.take(i + 1) =~= self.values@.take(i as int).push(self.values@[i as int]));
            i = i + 1;
        }
        assert(self.values@.take(n as int) =~= self.values@);
        let sorted = sort_ascending(&copy);
        proof {
            self@.lemma_sort_by_ensures(ascending());
            lemma_ascending_total();
            assert(sorted@.len() == n) by {
                assert(sorted@.to_multiset().len() == self@.to_multiset().len());
            }
        }
        let m = sorted[n / 2];
        let mut deviations: Vec<u64> = Vec::new();
        let mut j: usize = 0;
        while j < n
            invariant
                sorted@ == self@.sort_by(ascending()),
                sorted@.len() == n,
                j <= n,
                m == median(self@),
                deviations@ == sorted@.take(j as int).map_values(|x: u64| distance(x, m)),
            decreases n - j,
        {
            let x = sorted[j];
            let d = if x >= m {
                x - m
            } else {
                m - x
            };
            deviations.push(d);
            assert(sorted@.take(j + 1).map_values(|x: u64| distance(x, m)) =~= sorted@.take(
                j as int,
            ).map_values(|x: u64| distance(x, m)).push(distance(x, m)));
            j = j + 1;
        }
        assert(sorted@.take(n as int) =~= sorted@);
        let sorted_dev = sort_ascending(&deviations);
        proof {
            deviations@.lemma_sort_by_ensures(ascending());
            assert(sorted_dev@.len() == n) by {
                assert(sorted_dev@.to_multiset().len() == deviations@.to_multiset().len());
            }
        }
        let raw = sorted_dev[n / 2];
        let spread = if raw >= 1 {
            raw
        } else {
            1
        };
        let limit = m as u128 + 6 * (spread as u128);
        if (value as u128) > limit && 2 * (value as u128) > 5 * (m as u128) {
            Some((m, spread))
        } else {
            None
        }
    }

    /// Records a reading. Once 900 readings are held, later ones are dropped.
    pub fn push(&mut self, value: u64)
        requires
            old(self).wf(),
        ensures
            final(self).wf(),
            final(self)@ == if old(self)@.len() < 900 {
                old(self)@.push(value)
            } else {
                old(self)@
            },
    {
        let ghost before = self.values@;
        self.values.push_back(value);
        assert(self.values@ == before.push(value));
        self.values.truncate(900);
        proof {
            if before.len() == 899 {
                assert(before.push(value).subrange(0, 900) =~= before.push(value));
            } else if before.len() == 900 {
                assert(before.push(value).subrange(0, 900) =~= before);
            }
        }
    }
}

/// Samples needed for about one minute of consecutive readings.
pub open spec fn high_samples_needed(interval_seconds: u64) -> u8 {
    let i: u64 = if interval_seconds >= 1 {
        interval_seconds
    } else {
        1u64
    };
    let q: u64 = (60u64 / i) as u64;
    if q < 1 {
        1
    } else if q > 255 {
        255
    } else {
        q as u8
    }
}

/// The number of consecutive high readings that make up one minute.
pub fn required_high_samples(interval_seconds: u64) -> (r: u8)
    ensures
        r == high_samples_needed(interval_seconds),
        r >= 1,
{
    let i: u64 = if interval_seconds >= 1 {
        interval_seconds
    } else {
        1
    };
    let q: u64 = 60 / i;
    if q < 1 {
        1
    } else if q > 255 {
        255
    } else {
        q as u8
    }
}

/// The next value of a run counter: one more (up to 255) after a high
/// reading, zero after any other.
pub open spec fn next_count(count: u8, high: bool) -> u8 {
    if high {
        if count < 255 {
            (count + 1) as u8
        } else {
            255
        }
    } else {
        0
    }
}

/// The run counter after a series of readings, from a counter of `start`.
pub open spec fn run_after(start: u8, readings: Seq<bool>) -> u8
    decreases readings.len(),
{
    if readings.len() == 0 {
        start
    } else {
        next_count(run_after(start, readings.drop_last()), readings.last())
    }
}

/// Whether the last `n` readings of the series were all high.
pub open spec fn ends_high(readings: Seq<bool>, n: nat) -> bool {
    &&& readings.len() >= n
    &&& forall|i: int| readings.len() - n <= i < readings.len() ==> #[trigger] readings[i]
}

/// A run counted from zero reaches `n` (1 to 255) exactly when the last `n`
/// readings were all high; with `n` the samples of one minute, this is when
/// a sustained CPU or memory finding comes due.
pub proof fn law_run_reaches_n_after_n_high_readings(readings: Seq<bool>, n: nat)
    requires
        1 <= n <= 255,
    ensures
        run_after(0, readings) >= n <==> ends_high(readings, n),
    decreases readings.len(),
{
    if readings.len() > 0 {
        let before = readings.drop_last();
        if readings.last() {
            if n > 1 {
                law_run_reaches_n_after_n_high_readings(before, (n - 1) as nat);
                if ends_high(before, (n - 1) as nat) {
                    assert forall|i: int| readings.len() - n <= i < readings.len() implies #[trigger] readings[i] by {
                        if i < readings.len() - 1 {
                            assert(readings[i] == before[i]);
                        }
                    }
                }
                if ends_high(readings, n) {
                    assert forall|i: int| before.len() - (n - 1) <= i < before.len() implies #[trigger] before[i] by {
                        assert(before[i] == readings[i]);
                    }
                }
            } else {
                assert(readings[readings.len() - 1] == readings.last());
            }
        } else {
            assert(!readings[readings.len() - 1]);
        }
    }
}

/// Advances a run counter of consecutive high readings.
pub fn count_sample(count: u8, high: bool) -> (r: u8)
    ensures
        r == next_count(count, high),
{
    if high {
        count.saturating_add(1)
    } else {
        0
    }
}

/// Whether a timed memory history shows sustained growth: at least 20
/// minutes between the first and last reading, growth of at least 1 GiB,
/// and a last reading of at least 1.5 times the first.
pub open spec fn growth_of(first: (u64, u64), last: (u64, u64)) -> Option<(u64, u64)> {
    let growth = if last.1 >= first.1 {
        (last.1 - first.1) as u64
    } else {
        0
    };
    let span = if last.0 >= first.0 {
        (last.0 - first.0) as u64
    } else {
        0
    };
    let half_more = if first.1 + first.1 / 2 <= u64::MAX {
        (first.1 + first.1 / 2) as u64
    } else {
        u64::MAX
    };
    if span >= 20 * 60 && growth >= 1024 * 1024 * 1024 && last.1 >= half_more {
        Some((growth, span))
    } else {
        None
    }
}

/// Growth is measured between the first and the last reading: where it is
/// found, it is the bytes gained and the seconds elapsed between them, at
/// least 1 GiB over at least 20 minutes; and such a gain to at least 1.5
/// times the first reading is always found.
pub proof fn law_growth_is_measured_between_first_and_last(first: (u64, u64), last: (u64, u64))
    ensures
        growth_of(first, last) matches Some((g, d)) ==> {
            &&& g == last.1 - first.1
            &&& d == last.0 - first.0
            &&& d >= 20 * 60
            &&& g >= 1024 * 1024 * 1024
        },
        last.0 >= first.0 + 20 * 60 && last.1 >= first.1 + 1024 * 1024 * 1024 && 2 * last.1 >= 3
            * first.1 ==> growth_of(first, last) == Some(
            ((last.1 - first.1) as u64, (last.0 - first.0) as u64),
        ),
{
}

/// Sustained memory growth over a history of (time in seconds, bytes) readings.
pub fn memory_growth(history: &VecDeque<(u64, u64)>) -> (r: Option<(u64, u64)>)
    ensures
        history@.len() == 0 ==> r is None,
        history@.len() > 0 ==> r == growth_of(history@[0], history@[history@.len() - 1]),
{
    let n = history.len();
    if n == 0 {
        return None;
    }
    let (first_at, first) = history[0];
    let (last_at, last) = history[n - 1];
    let growth = last.saturating_sub(first);
    let span = last_at.saturating_sub(first_at);
    if span >= 20 * 60 && growth >= 1024 * 1024 * 1024 && last >= first.saturating_add(first / 2) {
        Some((growth, span))
    } else {
        None
    }
}

} // verus!
