//! A program's version resource, as the application metadata reads it: the
//! (language, code page) pairs of its Translation block, the key under which
//! a string value is looked up, and the text of the value found.
use crate::text::{is_whitespace, trim_back, trim_both, trim_front, TrimSet};
use vstd::prelude::*;

verus! {

/// The 16-bit value stored little-endian in `lo`, `hi`.
pub open spec fn le16(lo: u8, hi: u8) -> u16 {
    (lo as int + 256 * hi as int) as u16
}

/// The pairs of a Translation block: one (language, code page) pair per
/// whole four bytes, each half little-endian; a trailing partial pair is
/// ignored.
pub open spec fn pairs_of(b: Seq<u8>) -> Seq<(u16, u16)> {
    Seq::new(
        b.len() / 4,
        |i: int| (le16(b[4 * i], b[4 * i + 1]), le16(b[4 * i + 2], b[4 * i + 3])),
    )
}

/// The pairs tried after the file's own, in turn: Simplified Chinese and
/// US English in Unicode, and US English in the Western code page.
pub open spec fn fallback_pairs() -> Seq<(u16, u16)> {
    seq![(0x0804u16, 0x04b0u16), (0x0409u16, 0x04b0u16), (0x0409u16, 0x04e4u16)]
}

/// `s` with `p` added at the end unless it already holds it.
pub open spec fn add_missing(s: Seq<(u16, u16)>, p: (u16, u16)) -> Seq<(u16, u16)> {
    if s.contains(p) {
        s
    } else {
        s.push(p)
    }
}

/// The pairs to try for a Translation block: its own, then each fallback
/// that is not among them.
pub open spec fn translation_order(b: Seq<u8>) -> Seq<(u16, u16)> {
    let f = fallback_pairs();
    add_missing(add_missing(add_missing(pairs_of(b), f[0]), f[1]), f[2])
}

fn holds_pair(v: &Vec<(u16, u16)>, p: (u16, u16)) -> (r: bool)
    ensures
        r == v@.contains(p),
{
    let mut i: usize = 0;
    while i < v.len()
        invariant
            i <= v@.len(),
            forall|j: int| 0 <= j < i ==> v@[j] != p,
        decreases v@.len() - i,
    {
        let (a, b) = v[i];
        if a == p.0 && b == p.1 {
            assert(v@[i as int] == p);
            return true;
        }
        i = i + 1;
    }
    false
}

fn push_missing(v: &mut Vec<(u16, u16)>, p: (u16, u16))
    ensures
        final(v)@ == add_missing(old(v)@, p),
{
    if !holds_pair(v, p) {
        v.push(p);
    }
}

/// The (language, code page) pairs to look string values up under, from the
/// bytes of a version resource's Translation block.
pub fn translations(block: &[u8]) -> (r: Vec<(u16, u16)>)
    ensures
        r@ == translation_order(block@),
{
    let len = block.len();
    let n = len / 4;
    let mut pairs: Vec<(u16, u16)> = Vec::new();
    let mut i: usize = 0;
    while i < n
        invariant
            len == block@.len(),
            n == len / 4,
            i <= n,
            pairs@ =~= pairs_of(block@).take(i as int),
        decreases n - i,
    {
        assert(4 * i + 4 <= len) by (nonlinear_arith)
            requires
                i < n,
                n == len / 4,
        ;
        let k = 4 * i;
        let language = (block[k] as u16) + 256 * (block[k + 1] as u16);
        let codepage = (block[k + 2] as u16) + 256 * (block[k + 3] as u16);
        pairs.push((language, codepage));
        i = i + 1;
    }
    assert(pairs_of(block@).take(n as int) =~= pairs_of(block@));
    push_missing(&mut pairs, (0x0804, 0x04b0));
    push_missing(&mut pairs, (0x0409, 0x04b0));
    push_missing(&mut pairs, (0x0409, 0x04e4));
    pairs
}

/// The lower-case hexadecimal digit of `d`.
pub open spec fn hex_char(d: nat) -> char {
    if d < 10 {
        ((d + 48) as u8) as char
    } else {
        ((d + 87) as u8) as char
    }
}

/// `n` as four lower-case hexadecimal digits.
pub open spec fn hex4(n: u16) -> Seq<char> {
    seq![
        hex_char((n / 4096) as nat),
        hex_char((n / 256 % 16) as nat),
        hex_char((n / 16 % 16) as nat),
        hex_char((n % 16) as nat),
    ]
}

/// The key of the string value `name` in the table of a (language, code
/// page) pair: `\StringFileInfo\`, the pair as eight hexadecimal digits,
/// `\` and the name.
pub open spec fn string_key_of(language: u16, codepage: u16, name: Seq<char>) -> Seq<char> {
    seq!['\\', 'S', 't', 'r', 'i', 'n', 'g', 'F', 'i', 'l', 'e', 'I', 'n', 'f', 'o', '\\'] + hex4(
        language,
    ) + hex4(codepage) + seq!['\\'] + name
}

fn hex_text(d: u16) -> (r: &'static str)
    requires
        d < 16,
    ensures
        r@ == seq![hex_char(d as nat)],
{
    proof {
        reveal_strlit("0");
        reveal_strlit("1");
        reveal_strlit("2");
        reveal_strlit("3");
        reveal_strlit("4");
        reveal_strlit("5");
        reveal_strlit("6");
        reveal_strlit("7");
        reveal_strlit("8");
        reveal_strlit("9");
        reveal_strlit("a");
        reveal_strlit("b");
        reveal_strlit("c");
        reveal_strlit("d");
        reveal_strlit("e");
        reveal_strlit("f");
    }
    if d == 0 { "0" } else if d == 1 { "1" } else if d == 2 { "2" } else if d == 3 { "3" }
    else if d == 4 { "4" } else if d == 5 { "5" } else if d == 6 { "6" } else if d == 7 { "7" }
    else if d == 8 { "8" } else if d == 9 { "9" } else if d == 10 { "a" } else if d == 11 { "b" }
    else if d == 12 { "c" } else if d == 13 { "d" } else if d == 14 { "e" } else { "f" }
}

fn append_hex4(s: &mut String, n: u16)
    ensures
        final(s)@ == old(s)@ + hex4(n),
{
    s.append(hex_text(n / 4096));
    s.append(hex_text(n / 256 % 16));
    s.append(hex_text(n / 16 % 16));
    s.append(hex_text(n % 16));
}

/// The key under which the string value `name` is looked up for a
/// (language, code page) pair.
pub fn string_key(language: u16, codepage: u16, name: &str) -> (r: String)
    ensures
        r@ == string_key_of(language, codepage, name@),
{
    proof {
        reveal_strlit("\\StringFileInfo\\");
        reveal_strlit("\\");
    }
    let mut key = String::from_str("\\StringFileInfo\\");
    append_hex4(&mut key, language);
    append_hex4(&mut key, codepage);
    key.append("\\");
    key.append(name);
    key
}

/// `s` without its trailing NUL characters.
pub open spec fn trim_nuls(s: Seq<char>) -> Seq<char>
    decreases s.len(),
{
    if s.len() > 0 && s.last() == '\0' {
        trim_nuls(s.drop_last())
    } else {
        s
    }
}

/// The text of a string value: without trailing NULs, then without
/// surrounding white space; none where nothing is left.
pub open spec fn value_text_of(raw: Seq<char>) -> Option<Seq<char>> {
    let t = trim_both(trim_nuls(raw), TrimSet::Whitespace);
    if t.len() == 0 {
        None
    } else {
        Some(t)
    }
}

/// The text of a string value read from a version resource.
pub fn value_text(raw: &str) -> (r: Option<String>)
    ensures
        match r {
            Some(t) => value_text_of(raw@) == Some(t@),
            None => value_text_of(raw@) is None,
        },
{
    let n = raw.unicode_len();
    let mut end = n;
    assert(raw@.subrange(0, n as int) =~= raw@);
    while end > 0 && raw.get_char(end - 1) == '\0'
        invariant
            end <= n == raw@.len(),
            trim_nuls(raw@.subrange(0, end as int)) == trim_nuls(raw@),
        decreases end,
    {
        assert(raw@.subrange(0, end as int).drop_last() =~= raw@.subrange(0, end - 1));
        end = end - 1;
    }
    assert(trim_nuls(raw@.subrange(0, end as int)) == raw@.subrange(0, end as int));
    let mut lo: usize = 0;
    while lo < end && is_whitespace(raw.get_char(lo))
        invariant
            lo <= end <= n == raw@.len(),
            trim_front(raw@.subrange(lo as int, end as int), TrimSet::Whitespace)
                == trim_front(raw@.subrange(0, end as int), TrimSet::Whitespace),
        decreases end - lo,
    {
        assert(raw@.subrange(lo as int, end as int).drop_first() =~= raw@.subrange(lo + 1, end as int));
        lo = lo + 1;
    }
    assert(trim_front(raw@.subrange(lo as int, end as int), TrimSet::Whitespace)
        == raw@.subrange(lo as int, end as int));
    let mut hi = end;
    while hi > lo && is_whitespace(raw.get_char(hi - 1))
        invariant
            lo <= hi <= end <= n == raw@.len(),
            trim_back(raw@.subrange(lo as int, hi as int), TrimSet::Whitespace)
                == trim_both(raw@.subrange(0, end as int), TrimSet::Whitespace),
        decreases hi - lo,
    {
        assert(raw@.subrange(lo as int, hi as int).drop_last() =~= raw@.subrange(lo as int, hi - 1));
        hi = hi - 1;
    }
    assert(trim_back(raw@.subrange(lo as int, hi as int), TrimSet::Whitespace)
        == raw@.subrange(lo as int, hi as int));
    if lo == hi {
        None
    } else {
        Some(raw.substring_char(lo, hi).to_owned())
    }
}

} // verus!
