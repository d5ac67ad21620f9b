//! A small store of values filed under text ids, where no id occurs twice.
use vstd::prelude::*;
use crate::text::str_eq;

verus! {

/// A value that carries its own id.
pub trait Keyed {
    /// The id's text.
    spec fn id_of(&self) -> Seq<char>;

    /// The id.
    fn id(&self) -> (r: &str)
        ensures
            r@ == self.id_of(),
    ;
}

/// The values keyed by their ids, the later one winning.
pub open spec fn keyed_map<T: Keyed>(s: Seq<T>) -> Map<Seq<char>, T>
    decreases s.len(),
{
    if s.len() == 0 {
        Map::empty()
    } else {
        keyed_map(s.drop_last()).insert(s.last().id_of(), s.last())
    }
}

/// Whether no two values share an id.
pub open spec fn distinct_ids<T: Keyed>(s: Seq<T>) -> bool {
    forall|i: int, j: int| 0 <= i < s.len() && 0 <= j < s.len() && i != j ==> s[i].id_of() != s[j].id_of()
}

proof fn lemma_contains<T: Keyed>(s: Seq<T>, k: Seq<char>)
    ensures
        keyed_map(s).contains_key(k) <==> exists|i: int| 0 <= i < s.len() && s[i].id_of() == k,
    decreases s.len(),
{
    if s.len() > 0 {
        lemma_contains(s.drop_last(), k);
        if keyed_map(s).contains_key(k) && s.last().id_of() != k {
            let i = choose|i: int| 0 <= i < s.len() - 1 && s.drop_last()[i].id_of() == k;
            assert(s[i].id_of() == k);
        }
        if exists|i: int| 0 <= i < s.len() && s[i].id_of() == k {
            let i = choose|i: int| 0 <= i < s.len() && s[i].id_of() == k;
            if i < s.len() - 1 {
                assert(s.drop_last()[i].id_of() == k);
            }
        }
    }
}

proof fn lemma_value<T: Keyed>(s: Seq<T>, i: int)
    requires
        distinct_ids(s),
        0 <= i < s.len(),
    ensures
        keyed_map(s).contains_key(s[i].id_of()),
        keyed_map(s)[s[i].id_of()] == s[i],
    decreases s.len(),
{
    if i < s.len() - 1 {
        lemma_value(s.drop_last(), i);
        assert(s.drop_last()[i] == s[i]);
    }
}

proof fn lemma_remove<T: Keyed>(s: Seq<T>, i: int)
    requires
        distinct_ids(s),
        0 <= i < s.len(),
    ensures
        keyed_map(s.remove(i)) == keyed_map(s).remove(s[i].id_of()),
        distinct_ids(s.remove(i)),
    decreases s.len(),
{
    let k = s[i].id_of();
    if i == s.len() - 1 {
        assert(s.remove(i) =~= s.drop_last());
        lemma_contains(s.drop_last(), k);
        assert(!keyed_map(s.drop_last()).contains_key(k)) by {
            if keyed_map(s.drop_last()).contains_key(k) {
                let j = choose|j: int| 0 <= j < s.len() - 1 && s.drop_last()[j].id_of() == k;
                assert(s[j].id_of() == k);
            }
        }
        assert(keyed_map(s.drop_last()) =~= keyed_map(s).remove(k));
    } else {
        lemma_remove(s.drop_last(), i);
        assert(s.remove(i).drop_last() =~= s.drop_last().remove(i));
        assert(s.remove(i).last() == s.last());
        assert(s.last().id_of() != k);
        assert(keyed_map(s.remove(i)) =~= keyed_map(s).remove(k));
    }
}

proof fn lemma_push<T: Keyed>(s: Seq<T>, x: T)
    requires
        distinct_ids(s),
        forall|j: int| 0 <= j < s.len() ==> s[j].id_of() != x.id_of(),
    ensures
        keyed_map(s.push(x)) == keyed_map(s).insert(x.id_of(), x),
        distinct_ids(s.push(x)),
{
    assert(s.push(x).drop_last() =~= s);
}

/// Values filed under their ids.
pub struct KeyedStore<T> {
    entries: Vec<T>,
}

impl<T: Keyed> KeyedStore<T> {
    /// The values by id.
    pub closed spec fn view(&self) -> Map<Seq<char>, T> {
        keyed_map(self.entries@)
    }

    /// No two stored values share an id.
    pub closed spec fn wf(&self) -> bool {
        distinct_ids(self.entries@)
    }

    /// An empty store.
    pub fn new() -> (r: Self)
        ensures
            r.wf(),
            r.view() == Map::<Seq<char>, T>::empty(),
    {
        KeyedStore { entries: Vec::new() }
    }

    fn index_of(&self, id: &str) -> (r: Option<usize>)
        ensures
            match r {
                Some(i) => i < self.entries@.len() && self.entries@[i as int].id_of() == id@,
                None => forall|j: int| 0 <= j < self.entries@.len() ==> self.entries@[j].id_of() != id@,
            },
    {
        let mut i: usize = 0;
        while i < self.entries.len()
            invariant
                i <= self.entries@.len(),
                forall|j: int| 0 <= j < i ==> self.entries@[j].id_of() != id@,
            decreases self.entries@.len() - i,
        {
            if str_eq(self.entries[i].id(), id) {
                return Some(i);
            }
            i = i + 1;
        }
        None
    }

    /// Files a value, replacing any with the same id.
    pub fn insert(&mut self, x: T)
        requires
            old(self).wf(),
        ensures
            final(self).wf(),
            final(self).view() == old(self).view().insert(x.id_of(), x),
    {
        let ghost k = x.id_of();
        match self.index_of(x.id()) {
            Some(i) => {
                let ghost before = self.entries@;
                let _ = self.entries.remove(i);
                proof {
                    lemma_remove(before, i as int);
                    assert forall|j: int| 0 <= j < self.entries@.len() implies self.entries@[j].id_of() != k by {
                        if j < i {
                            assert(self.entries@[j] == before[j]);
                        } else {
                            assert(self.entries@[j] == before[j + 1]);
                        }
                    }
                    lemma_push(self.entries@, x);
                    assert(keyed_map(before).remove(k).insert(k, x) =~= keyed_map(before).insert(k, x));
                }
                self.entries.push(x);
            },
            None => {
                proof {
                    lemma_push(self.entries@, x);
                }
                self.entries.push(x);
            },
        }
    }

    /// Takes out the value with this id, if any.
    pub fn remove(&mut self, id: &str) -> (r: Option<T>)
        requires
            old(self).wf(),
        ensures
            final(self).wf(),
            final(self).view() == old(self).view().remove(id@),
            match r {
                Some(x) => old(self).view().contains_key(id@) && x == old(self).view()[id@],
                None => !old(self).view().contains_key(id@),
            },
    {
        match self.index_of(id) {
            Some(i) => {
                let ghost before = self.entries@;
                proof {
                    lemma_remove(before, i as int);
                    lemma_value(before, i as int);
                }
                let x = self.entries.remove(i);
                Some(x)
            },
            None => {
                proof {
                    lemma_contains(self.entries@, id@);
                    assert(keyed_map(self.entries@).remove(id@) =~= keyed_map(self.entries@));
                }
                None
            },
        }
    }
}

} // verus!
