//! The parts of the hardware snapshot that are decisions rather than
//! readings: what the power status says of the battery, and how a line of
//! the GPU driver's CSV report splits into its fields and sizes.
use crate::text::{chars_of, trim_both, trim_range, TrimSet};
use vstd::prelude::*;

verus! {

broadcast use vstd::string::group_string_axioms;

/// The battery as the power status describes it.
#[derive(Clone, Debug)]
pub struct BatteryMetric {
    pub charge_percent: u8,
    pub charging: bool,
    pub ac_connected: bool,
    pub life_seconds: Option<u64>,
}

/// Reads the power status's fields: none where the battery flag says there
/// is no battery (128); otherwise the charge held to 100%, charging where
/// the flag's charging bit (8) is set, on mains where the AC line status is
/// 1, and the remaining life unless it is unknown (`u32::MAX`).
pub fn battery_metric(ac_line_status: u8, battery_flag: u8, life_percent: u8, life_time: u32) -> (r:
    Option<BatteryMetric>)
    ensures
        battery_flag == 128 <==> r is None,
        r matches Some(b) ==> {
            &&& b.charge_percent == (if life_percent <= 100 {
                life_percent
            } else {
                100
            })
            &&& b.charging == (battery_flag & 8 != 0)
            &&& b.ac_connected == (ac_line_status == 1)
            &&& b.life_seconds == (if life_time == u32::MAX {
                None
            } else {
                Some(life_time as u64)
            })
        },
{
    if battery_flag == 128 {
        return None;
    }
    Some(
        BatteryMetric {
            charge_percent: if life_percent <= 100 {
                life_percent
            } else {
                100
            },
            charging: battery_flag & 8 != 0,
            ac_connected: ac_line_status == 1,
            life_seconds: if life_time == u32::MAX {
                None
            } else {
                Some(life_time as u64)
            },
        },
    )
}

/// `s` split at each comma; a string without commas is one field.
pub open spec fn split_commas(s: Seq<char>) -> Seq<Seq<char>>
    decreases s.len(),
{
    if s.len() == 0 {
        seq![Seq::empty()]
    } else {
        let r = split_commas(s.drop_last());
        if s.last() == ',' {
            r.push(Seq::empty())
        } else {
            r.update(r.len() - 1, r.last().push(s.last()))
        }
    }
}

proof fn lemma_split_nonempty(s: Seq<char>)
    ensures
        split_commas(s).len() >= 1,
    decreases s.len(),
{
    if s.len() > 0 {
        lemma_split_nonempty(s.drop_last());
    }
}

/// The fields of one line of the GPU report: name, utilisation, memory used
/// and memory in total, in MiB.
pub struct GpuFields {
    pub name: String,
    pub usage: String,
    pub memory_used: String,
    pub memory_total: String,
}

/// The fields of a report line: its comma-separated parts without
/// surrounding white space, where there are exactly four.
pub open spec fn gpu_fields_of(line: Seq<char>) -> Option<Seq<Seq<char>>> {
    let f = split_commas(line);
    if f.len() == 4 {
        Some(Seq::new(4, |k: int| trim_both(f[k], TrimSet::Whitespace)))
    } else {
        None
    }
}

/// The part of `s` between each pair of range ends.
pub open spec fn parts(s: Seq<char>, ranges: Seq<(usize, usize)>) -> Seq<Seq<char>> {
    Seq::new(ranges.len(), |k: int| s.subrange(ranges[k].0 as int, ranges[k].1 as int))
}

/// Splits a line of the GPU report into its four fields; none where it does
/// not have exactly four.
pub fn gpu_fields(line: &str) -> (r: Option<GpuFields>)
    ensures
        r is Some <==> gpu_fields_of(line@) is Some,
        r matches Some(g) ==> {
            let f = gpu_fields_of(line@)->0;
            &&& g.name@ == f[0]
            &&& g.usage@ == f[1]
            &&& g.memory_used@ == f[2]
            &&& g.memory_total@ == f[3]
        },
{
    let c = chars_of(line);
    let n = c.len();
    let mut ranges: Vec<(usize, usize)> = Vec::new();
    let mut start: usize = 0;
    let mut i: usize = 0;
    assert(c@.take(0) =~= Seq::<char>::empty());
    assert(parts(c@, ranges@) =~= Seq::<Seq<char>>::empty());
    assert(c@.subrange(0, 0) =~= Seq::<char>::empty());
    while i < n
        invariant
            n == c@.len(),
            c@ == line@,
            start <= i <= n,
            forall|k: int| 0 <= k < ranges@.len() ==> (#[trigger] ranges@[k]).0 <= ranges@[k].1 <= start,
            split_commas(c@.take(i as int)) =~= parts(c@, ranges@).push(
                c@.subrange(start as int, i as int),
            ),
        decreases n - i,
    {
        proof {
            assert(c@.take(i + 1).drop_last() =~= c@.take(i as int));
            assert(c@.take(i + 1).last() == c@[i as int]);
            lemma_split_nonempty(c@.take(i as int));
        }
        if c[i] == ',' {
            let ghost before = ranges@;
            ranges.push((start, i));
            proof {
                assert(parts(c@, ranges@) =~= parts(c@, before).push(
                    c@.subrange(start as int, i as int),
                ));
                assert(c@.subrange(i + 1, i + 1) =~= Seq::<char>::empty());
            }
            start = i + 1;
        } else {
            proof {
                assert(c@.subrange(start as int, i + 1) =~= c@.subrange(start as int, i as int).push(
                    c@[i as int],
                ));
            }
        }
        i = i + 1;
    }
    proof {
        assert(c@.take(n as int) =~= c@);
    }
    if ranges.len() != 3 {
        return None;
    }
    let (a0, b0) = trim_range(&c, ranges[0].0, ranges[0].1, TrimSet::Whitespace);
    let (a1, b1) = trim_range(&c, ranges[1].0, ranges[1].1, TrimSet::Whitespace);
    let (a2, b2) = trim_range(&c, ranges[2].0, ranges[2].1, TrimSet::Whitespace);
    let (a3, b3) = trim_range(&c, start, n, TrimSet::Whitespace);
    Some(
        GpuFields {
            name: line.substring_char(a0, b0).to_owned(),
            usage: line.substring_char(a1, b1).to_owned(),
            memory_used: line.substring_char(a2, b2).to_owned(),
            memory_total: line.substring_char(a3, b3).to_owned(),
        },
    )
}

/// Whether `c` is a decimal digit.
pub open spec fn is_digit(c: char) -> bool {
    48 <= c as u32 <= 57
}

/// The value of a run of decimal digits.
pub open spec fn digits_value(s: Seq<char>) -> int
    decreases s.len(),
{
    if s.len() == 0 {
        0
    } else {
        digits_value(s.drop_last()) * 10 + (s.last() as u32 - 48)
    }
}

/// `s` without a leading `+`.
pub open spec fn unsigned_digits(s: Seq<char>) -> Seq<char> {
    if s.len() > 0 && s[0] == '+' {
        s.drop_first()
    } else {
        s
    }
}

/// Whether every character of `s` is a decimal digit.
pub open spec fn all_digits(s: Seq<char>) -> bool {
    forall|i: int| 0 <= i < s.len() ==> is_digit(#[trigger] s[i])
}

/// What `str::parse::<u64>` gives: an optional `+` followed by one or more
/// decimal digits whose value fits in 64 bits.
pub open spec fn decimal_u64(s: Seq<char>) -> Option<u64> {
    let d = unsigned_digits(s);
    if d.len() > 0 && all_digits(d) && digits_value(d) <= u64::MAX {
        Some(digits_value(d) as u64)
    } else {
        None
    }
}

proof fn lemma_digits_prefix(s: Seq<char>, j: int)
    requires
        0 <= j <= s.len(),
        forall|i: int| 0 <= i < s.len() ==> is_digit(#[trigger] s[i]),
    ensures
        0 <= digits_value(s.take(j)) <= digits_value(s),
    decreases s.len() - j,
{
    if j < s.len() {
        lemma_digits_prefix(s, j + 1);
        assert(s.take(j + 1).drop_last() =~= s.take(j));
        assert(s.take(j + 1).last() == s[j]);
    } else {
        assert(s.take(j) =~= s);
        lemma_digits_nonnegative(s);
    }
}

proof fn lemma_digits_nonnegative(s: Seq<char>)
    requires
        forall|i: int| 0 <= i < s.len() ==> is_digit(#[trigger] s[i]),
    ensures
        digits_value(s) >= 0,
    decreases s.len(),
{
    if s.len() > 0 {
        assert(is_digit(s[s.len() - 1]));
        lemma_digits_nonnegative(s.drop_last());
    }
}

/// Parses a decimal number as `str::parse::<u64>` does.
pub fn parse_u64(text: &str) -> (r: Option<u64>)
    ensures
        r == decimal_u64(text@),
{
    let c = chars_of(text);
    let n = c.len();
    let first: usize = if n > 0 && c[0] == '+' {
        1
    } else {
        0
    };
    let ghost d = unsigned_digits(c@);
    assert(d =~= c@.subrange(first as int, n as int));
    if first == n {
        return None;
    }
    let mut value: u64 = 0;
    let mut i: usize = first;
    while i < n
        invariant
            c@ == text@,
            n == c@.len(),
            first <= i <= n,
            d == c@.subrange(first as int, n as int),
            d == unsigned_digits(c@),
            forall|k: int| 0 <= k < i - first ==> is_digit(#[trigger] d[k]),
            value == digits_value(d.take(i - first)),
        decreases n - i,
    {
        let ch = c[i];
        let u = ch as u32;
        if !(48 <= u && u <= 57) {
            assert(!is_digit(d[i - first]));
            assert(!all_digits(d));
            return None;
        }
        proof {
            assert(d.take(i - first + 1).drop_last() =~= d.take(i - first));
            assert(d.take(i - first + 1).last() == d[i - first]);
        }
        assert(is_digit(d[i - first]));
        let digit = (u - 48) as u64;
        match value.checked_mul(10) {
            Some(tens) => match tens.checked_add(digit) {
                Some(next) => {
                    value = next;
                },
                None => {
                    proof {
                        lemma_overflow_is_none(d, i - first + 1);
                    }
                    return None;
                },
            },
            None => {
                proof {
                    lemma_overflow_is_none(d, i - first + 1);
                }
                return None;
            },
        }
        i = i + 1;
    }
    proof {
        assert(d.take(n - first) =~= d);
        assert(all_digits(d));
    }
    Some(value)
}

proof fn lemma_overflow_is_none(d: Seq<char>, j: int)
    requires
        0 < j <= d.len(),
        forall|k: int| 0 <= k < j ==> is_digit(#[trigger] d[k]),
        digits_value(d.take(j)) > u64::MAX,
    ensures
        !(all_digits(d) && digits_value(d) <= u64::MAX),
{
    if all_digits(d) {
        lemma_digits_prefix(d, j);
    }
}

/// The bytes of a memory field given in MiB, where it is a number.
pub fn gpu_memory_bytes(text: &str) -> (r: Option<u64>)
    requires
        decimal_u64(text@) matches Some(v) ==> v * 1_048_576 <= u64::MAX,
    ensures
        r == (match decimal_u64(text@) {
            Some(v) => Some((v * 1_048_576) as u64),
            None => None,
        }),
{
    match parse_u64(text) {
        Some(v) => Some(v * 1024 * 1024),
        None => None,
    }
}

} // verus!
