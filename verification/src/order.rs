//! Ordering by a key, largest first, keeping the given order among equal
//! keys; used for sizes in bytes.
use vstd::prelude::*;
use vstd::multiset::Multiset;

verus! {

/// A value with a size in bytes.
pub trait Sized64 {
    /// The size.
    spec fn size_of(&self) -> u64;

    /// The size.
    fn size(&self) -> (r: u64)
        ensures
            r == self.size_of(),
    ;
}

/// `s` with `x` placed before its first element whose key is smaller.
pub open spec fn insert_by<T>(x: T, s: Seq<T>, key: spec_fn(T) -> int) -> Seq<T>
    decreases s.len(),
{
    if s.len() == 0 {
        seq![x]
    } else if key(s[0]) >= key(x) {
        seq![s[0]] + insert_by(x, s.drop_first(), key)
    } else {
        seq![x] + s
    }
}

/// `s` ordered by key, largest first; equal keys keep their order.
pub open spec fn sorted_by<T>(s: Seq<T>, key: spec_fn(T) -> int) -> Seq<T>
    decreases s.len(),
{
    if s.len() == 0 {
        Seq::empty()
    } else {
        insert_by(s.last(), sorted_by(s.drop_last(), key), key)
    }
}

/// The key of a sized value: its size.
pub open spec fn size_key<T: Sized64>() -> spec_fn(T) -> int {
    |x: T| x.size_of() as int
}

/// `s` ordered by size, largest first; equal sizes keep their order.
pub open spec fn by_size<T: Sized64>(s: Seq<T>) -> Seq<T> {
    sorted_by(s, size_key::<T>())
}

/// Whether `s` is ordered by key, largest first.
pub open spec fn descending<T>(s: Seq<T>, key: spec_fn(T) -> int) -> bool {
    forall|i: int, j: int| 0 <= i < j < s.len() ==> key(s[i]) >= key(s[j])
}

/// Inserting before the first element with a smaller key is inserting at
/// that position.
pub proof fn lemma_insert_at<T>(x: T, s: Seq<T>, pos: int, key: spec_fn(T) -> int)
    requires
        0 <= pos <= s.len(),
        forall|i: int| 0 <= i < pos ==> key(s[i]) >= key(x),
        pos == s.len() || key(s[pos]) < key(x),
    ensures
        insert_by(x, s, key) == s.insert(pos, x),
    decreases s.len(),
{
    if s.len() == 0 {
        assert(s.insert(pos, x) =~= seq![x]);
    } else if pos == 0 {
        assert(s.insert(0, x) =~= seq![x] + s);
    } else {
        lemma_insert_at(x, s.drop_first(), pos - 1, key);
        assert(s.insert(pos, x) =~= seq![s[0]] + s.drop_first().insert(pos - 1, x));
    }
}

proof fn lemma_insert_keeps<T>(x: T, s: Seq<T>, key: spec_fn(T) -> int)
    requires
        descending(s, key),
    ensures
        descending(insert_by(x, s, key), key),
        insert_by(x, s, key).to_multiset() == s.to_multiset().insert(x),
        insert_by(x, s, key).len() == s.len() + 1,
    decreases s.len(),
{
    broadcast use vstd::seq_lib::group_to_multiset_ensures;

    if s.len() == 0 {
        assert(seq![x] =~= Seq::<T>::empty().push(x));
        assert(insert_by(x, s, key).to_multiset() =~= s.to_multiset().insert(x));
    } else if key(s[0]) >= key(x) {
        let t = s.drop_first();
        lemma_insert_keeps(x, t, key);
        let u = insert_by(x, t, key);
        assert(s =~= seq![s[0]] + t);
        vstd::seq_lib::lemma_multiset_commutative(seq![s[0]], t);
        vstd::seq_lib::lemma_multiset_commutative(seq![s[0]], u);
        assert(seq![s[0]] =~= Seq::<T>::empty().push(s[0]));
        assert(seq![s[0]].to_multiset() =~= Multiset::<T>::empty().insert(s[0]));
        assert(insert_by(x, s, key).to_multiset() =~= s.to_multiset().insert(x));
        assert forall|i: int| 0 <= i < u.len() implies key(s[0]) >= key(#[trigger] u[i]) by {
            assert(u.to_multiset().count(u[i]) > 0);
            assert(t.to_multiset().insert(x).count(u[i]) > 0);
            if u[i] != x {
                assert(t.to_multiset().count(u[i]) > 0);
                assert(t.contains(u[i]));
                let k = choose|k: int| 0 <= k < t.len() && t[k] == u[i];
                assert(s[k + 1] == t[k]);
            }
        }
        let r = insert_by(x, s, key);
        assert forall|i: int, j: int| 0 <= i < j < r.len() implies key(r[i]) >= key(r[j]) by {
            if i == 0 {
                assert(r[j] == u[j - 1]);
            } else {
                assert(r[i] == u[i - 1]);
                assert(r[j] == u[j - 1]);
            }
        }
    } else {
        let r = seq![x] + s;
        assert(seq![x] =~= Seq::<T>::empty().push(x));
        vstd::seq_lib::lemma_multiset_commutative(seq![x], s);
        assert(seq![x].to_multiset() =~= Multiset::<T>::empty().insert(x));
        assert(r.to_multiset() =~= s.to_multiset().insert(x));
        assert forall|i: int, j: int| 0 <= i < j < r.len() implies key(r[i]) >= key(r[j]) by {
            if i == 0 {
                assert(r[j] == s[j - 1]);
                if j - 1 > 0 {
                    assert(key(s[0]) >= key(s[j - 1]));
                }
            } else {
                assert(r[i] == s[i - 1]);
                assert(r[j] == s[j - 1]);
            }
        }
    }
}

/// Ordering by a key yields the same values, largest key first.
pub proof fn law_sorted_by_orders<T>(s: Seq<T>, key: spec_fn(T) -> int)
    ensures
        descending(sorted_by(s, key), key),
        sorted_by(s, key).to_multiset() == s.to_multiset(),
        sorted_by(s, key).len() == s.len(),
    decreases s.len(),
{
    broadcast use vstd::seq_lib::group_to_multiset_ensures;

    if s.len() > 0 {
        law_sorted_by_orders(s.drop_last(), key);
        lemma_insert_keeps(s.last(), sorted_by(s.drop_last(), key), key);
        assert(s =~= s.drop_last().push(s.last()));
    }
}

proof fn lemma_insert_map<A, B>(
    x: A,
    s: Seq<A>,
    f: spec_fn(A) -> B,
    ka: spec_fn(A) -> int,
    kb: spec_fn(B) -> int,
)
    requires
        forall|a: A| #[trigger] kb(f(a)) == ka(a),
    ensures
        insert_by(x, s, ka).map_values(f) == insert_by(f(x), s.map_values(f), kb),
    decreases s.len(),
{
    if s.len() == 0 {
        assert(insert_by(x, s, ka).map_values(f) =~= seq![f(x)]);
    } else {
        assert(kb(f(s[0])) == ka(s[0]));
        assert(kb(f(x)) == ka(x));
        assert(s.map_values(f)[0] == f(s[0]));
        assert(s.map_values(f).drop_first() =~= s.drop_first().map_values(f));
        if ka(s[0]) >= ka(x) {
            lemma_insert_map(x, s.drop_first(), f, ka, kb);
            assert(insert_by(x, s, ka).map_values(f) =~= seq![f(s[0])] + insert_by(
                x,
                s.drop_first(),
                ka,
            ).map_values(f));
        } else {
            assert(insert_by(x, s, ka).map_values(f) =~= seq![f(x)] + s.map_values(f));
        }
    }
}

/// Ordering commutes with a map that keeps keys.
pub proof fn lemma_sorted_map<A, B>(
    s: Seq<A>,
    f: spec_fn(A) -> B,
    ka: spec_fn(A) -> int,
    kb: spec_fn(B) -> int,
)
    requires
        forall|a: A| #[trigger] kb(f(a)) == ka(a),
    ensures
        sorted_by(s, ka).map_values(f) == sorted_by(s.map_values(f), kb),
    decreases s.len(),
{
    if s.len() > 0 {
        lemma_sorted_map(s.drop_last(), f, ka, kb);
        assert(s.map_values(f).drop_last() =~= s.drop_last().map_values(f));
        assert(s.map_values(f).last() == f(s.last()));
        lemma_insert_map(s.last(), sorted_by(s.drop_last(), ka), f, ka, kb);
    } else {
        assert(s.map_values(f) =~= Seq::<B>::empty());
    }
}

/// The keys of `s` added up.
pub open spec fn key_total<T>(s: Seq<T>, key: spec_fn(T) -> int) -> int
    decreases s.len(),
{
    if s.len() == 0 {
        0
    } else {
        key_total(s.drop_last(), key) + key(s.last())
    }
}

proof fn lemma_total_front<T>(x: T, s: Seq<T>, key: spec_fn(T) -> int)
    ensures
        key_total(seq![x] + s, key) == key(x) + key_total(s, key),
    decreases s.len(),
{
    let t = seq![x] + s;
    if s.len() > 0 {
        lemma_total_front(x, s.drop_last(), key);
        assert(t.drop_last() =~= seq![x] + s.drop_last());
        assert(t.last() == s.last());
    } else {
        assert(t.drop_last() =~= Seq::<T>::empty());
        assert(t.last() == x);
        assert(key_total(Seq::<T>::empty(), key) == 0);
    }
}

proof fn lemma_total_insert<T>(x: T, s: Seq<T>, key: spec_fn(T) -> int)
    ensures
        key_total(insert_by(x, s, key), key) == key(x) + key_total(s, key),
    decreases s.len(),
{
    if s.len() == 0 {
        lemma_total_front(x, s, key);
        assert(seq![x] + s =~= seq![x]);
    } else if key(s[0]) >= key(x) {
        lemma_total_insert(x, s.drop_first(), key);
        lemma_total_front(s[0], insert_by(x, s.drop_first(), key), key);
        lemma_total_front(s[0], s.drop_first(), key);
        assert(seq![s[0]] + s.drop_first() =~= s);
    } else {
        lemma_total_front(x, s, key);
    }
}

/// Ordering keeps the total of the keys.
pub proof fn lemma_sorted_total<T>(s: Seq<T>, key: spec_fn(T) -> int)
    ensures
        key_total(sorted_by(s, key), key) == key_total(s, key),
    decreases s.len(),
{
    if s.len() > 0 {
        lemma_sorted_total(s.drop_last(), key);
        lemma_total_insert(s.last(), sorted_by(s.drop_last(), key), key);
    }
}

/// A prefix's total is at most the whole total, for non-negative keys.
pub proof fn lemma_total_split<T>(s: Seq<T>, i: int, key: spec_fn(T) -> int)
    requires
        0 <= i <= s.len(),
    ensures
        key_total(s, key) == key_total(s.take(i), key) + key_total(s.skip(i), key),
    decreases s.len() - i,
{
    if i < s.len() {
        lemma_total_split(s, i + 1, key);
        assert(s.take(i + 1).drop_last() =~= s.take(i));
        assert(s.take(i + 1).last() == s[i]);
        lemma_total_front(s[i], s.skip(i + 1), key);
        assert(seq![s[i]] + s.skip(i + 1) =~= s.skip(i));
    } else {
        assert(s.take(i) =~= s);
        assert(s.skip(i) =~= Seq::<T>::empty());
    }
}

/// Orders `v` by size, largest first, equal sizes keeping their order.
pub fn sort_by_size<T: Sized64>(v: Vec<T>) -> (r: Vec<T>)
    ensures
        r@ == by_size(v@),
{
    let ghost orig = v@;
    let ghost key = size_key::<T>();
    let mut rest = v;
    let mut out: Vec<T> = Vec::new();
    while rest.len() > 0
        invariant
            rest@.len() <= orig.len(),
            rest@ == orig.skip(orig.len() - rest@.len()),
            key == size_key::<T>(),
            out@ == sorted_by(orig.take(orig.len() - rest@.len()), key),
        decreases rest@.len(),
    {
        let ghost k = orig.len() - rest@.len();
        let x = rest.remove(0);
        proof {
            assert(rest@ =~= orig.skip(k + 1));
            assert(orig.take(k + 1).drop_last() =~= orig.take(k));
            assert(orig.take(k + 1).last() == x);
        }
        let n = x.size();
        let mut pos: usize = 0;
        while pos < out.len() && out[pos].size() >= n
            invariant
                pos <= out@.len(),
                n == x.size_of(),
                key == size_key::<T>(),
                forall|i: int| 0 <= i < pos ==> key(out@[i]) >= key(x),
            decreases out@.len() - pos,
        {
            pos = pos + 1;
        }
        proof {
            lemma_insert_at(x, out@, pos as int, key);
        }
        out.insert(pos, x);
    }
    proof {
        assert(orig.take(orig.len() as int) =~= orig);
    }
    out
}

} // verus!
