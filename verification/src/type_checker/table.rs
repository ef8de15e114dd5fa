//! Tables from names to values, kept in the order the names were first
//! inserted.

use vstd::prelude::*;
use crate::text::str_eq;

verus! {

broadcast use vstd::string::group_string_axioms;

/// The entries of a table: pairs of a name and a value.
pub type Entries<V> = Seq<(Seq<char>, V)>;

/// Whether no name occurs twice among the entries.
pub open spec fn distinct_keys<V>(s: Entries<V>) -> bool {
    forall|i: int, j: int| 0 <= i < j < s.len() ==> s[i].0 != s[j].0
}

/// The position of the entry for `k`, or -1 when there is none.
pub open spec fn key_index<V>(s: Entries<V>, k: Seq<char>) -> int
    decreases s.len(),
{
    if s.len() == 0 {
        -1
    } else if s.last().0 == k {
        s.len() - 1
    } else {
        key_index(s.drop_last(), k)
    }
}

/// The value for `k`, if any.
pub open spec fn entry_get<V>(s: Entries<V>, k: Seq<char>) -> Option<V> {
    let i = key_index(s, k);
    if i >= 0 {
        Some(s[i].1)
    } else {
        None
    }
}

/// The entries after the value of `k` is set to `v`: in place when `k`
/// has an entry, else as a new last entry.
pub open spec fn entry_insert<V>(s: Entries<V>, k: Seq<char>, v: V) -> Entries<V> {
    let i = key_index(s, k);
    if i >= 0 {
        s.update(i, (k, v))
    } else {
        s.push((k, v))
    }
}

pub proof fn lemma_key_index<V>(s: Entries<V>, k: Seq<char>)
    ensures
        -1 <= key_index(s, k) < s.len(),
        key_index(s, k) >= 0 ==> s[key_index(s, k)].0 == k,
        key_index(s, k) < 0 ==> forall|i: int| 0 <= i < s.len() ==> s[i].0 != k,
    decreases s.len(),
{
    if s.len() > 0 && s.last().0 != k {
        lemma_key_index(s.drop_last(), k);
        if key_index(s, k) < 0 {
            assert forall|i: int| 0 <= i < s.len() implies s[i].0 != k by {
                if i < s.len() - 1 {
                    assert(s.drop_last()[i] == s[i]);
                }
            }
        }
    }
}

pub proof fn lemma_key_index_at<V>(s: Entries<V>, k: Seq<char>, i: int)
    requires
        distinct_keys(s),
        0 <= i < s.len(),
        s[i].0 == k,
    ensures
        key_index(s, k) == i,
{
    lemma_key_index(s, k);
}

/// Entries with the same keys in the same places find a key at the same
/// place.
pub proof fn lemma_key_index_same_keys<V>(a: Entries<V>, b: Entries<V>, x: Seq<char>)
    requires
        a.len() == b.len(),
        forall|i: int| 0 <= i < a.len() ==> (#[trigger] a[i]).0 == b[i].0,
    ensures
        key_index(a, x) == key_index(b, x),
    decreases a.len(),
{
    if a.len() > 0 {
        assert forall|i: int| 0 <= i < a.drop_last().len() implies (#[trigger] a.drop_last()[i]).0 == b.drop_last()[i].0 by {
            assert(a[i].0 == b[i].0);
        }
        lemma_key_index_same_keys(a.drop_last(), b.drop_last(), x);
    }
}

/// Looking a key up after an insertion.
pub proof fn lemma_insert_get<V>(m: Entries<V>, k: Seq<char>, v: V, x: Seq<char>)
    ensures
        entry_get(entry_insert(m, k, v), x) == if x == k {
            Some(v)
        } else {
            entry_get(m, x)
        },
{
    lemma_key_index(m, k);
    lemma_key_index(m, x);
    let t = entry_insert(m, k, v);
    let i = key_index(m, k);
    if i >= 0 {
        assert forall|j: int| 0 <= j < t.len() implies (#[trigger] t[j]).0 == m[j].0 by {}
        lemma_key_index_same_keys(t, m, x);
    } else {
        assert(t.drop_last() =~= m);
    }
}

pub proof fn lemma_insert_distinct<V>(s: Entries<V>, k: Seq<char>, v: V)
    requires
        distinct_keys(s),
    ensures
        distinct_keys(entry_insert(s, k, v)),
        entry_get(entry_insert(s, k, v), k) == Some(v),
        forall|j: Seq<char>| j != k ==> entry_get(entry_insert(s, k, v), j) == entry_get(s, j),
{
    lemma_key_index(s, k);
    let t = entry_insert(s, k, v);
    assert forall|j: Seq<char>| j != k implies entry_get(t, j) == entry_get(s, j) by {
        lemma_key_index(s, j);
        lemma_key_index(t, j);
        if key_index(s, j) >= 0 {
            lemma_key_index_at(t, j, key_index(s, j));
        }
    }
    let n = t.len() - 1;
    if key_index(s, k) >= 0 {
        lemma_key_index_at(t, k, key_index(s, k));
    } else {
        lemma_key_index_at(t, k, n);
    }
}

/// A table from names to values.
#[derive(Debug)]
pub struct Table<V> {
    entries: Vec<(String, V)>,
}

/// The entries of a table with the names by their characters.
pub open spec fn entries_view<V>(v: Seq<(String, V)>) -> Entries<V> {
    v.map_values(|e: (String, V)| (e.0@, e.1))
}

impl<V> Table<V> {
    /// The entries, in the order their names were first inserted.
    pub closed spec fn entries(&self) -> Entries<V> {
        entries_view(self.entries@)
    }

    #[verifier::type_invariant]
    closed spec fn inv(&self) -> bool {
        distinct_keys(self.entries())
    }

    /// The value of `k`, if any.
    pub open spec fn spec_get(&self, k: Seq<char>) -> Option<V> {
        entry_get(self.entries(), k)
    }

    /// The empty table.
    pub fn new() -> (r: Table<V>)
        ensures
            r.entries() == Seq::<(Seq<char>, V)>::empty(),
    {
        let r = Table { entries: Vec::new() };
        assert(r.entries() =~= Seq::<(Seq<char>, V)>::empty());
        r
    }

    /// The entries, by moving them out of the table.
    pub fn into_entries(self) -> (r: Vec<(String, V)>)
        ensures
            entries_view(r@) == self.entries(),
            distinct_keys(self.entries()),
    {
        proof {
            use_type_invariant(&self);
        }
        let Table { entries } = self;
        entries
    }

    /// The number of entries.
    pub fn len(&self) -> (r: usize)
        ensures
            r == self.entries().len(),
            distinct_keys(self.entries()),
    {
        proof {
            use_type_invariant(self);
        }
        self.entries.len()
    }

    /// The name and value of the entry at position `i`.
    pub fn entry(&self, i: usize) -> (r: (&String, &V))
        requires
            i < self.entries().len(),
        ensures
            r.0@ == self.entries()[i as int].0,
            *r.1 == self.entries()[i as int].1,
    {
        let e = &self.entries[i];
        (&e.0, &e.1)
    }

    /// The position of the entry for `k`, if any.
    pub fn position(&self, k: &str) -> (r: Option<usize>)
        ensures
            match r {
                Some(i) => i == key_index(self.entries(), k@),
                None => key_index(self.entries(), k@) < 0,
            },
    {
        proof {
            use_type_invariant(self);
            lemma_key_index(self.entries(), k@);
        }
        let mut i: usize = 0;
        while i < self.entries.len()
            invariant
                i <= self.entries@.len(),
                distinct_keys(self.entries()),
                self.entries().len() == self.entries@.len(),
                forall|m: int| 0 <= m < i ==> self.entries()[m].0 != k@,
            decreases self.entries.len() - i,
        {
            if str_eq(self.entries[i].0.as_str(), k) {
                proof {
                    lemma_key_index_at(self.entries(), k@, i as int);
                }
                return Some(i);
            }
            i = i + 1;
        }
        proof {
            lemma_key_index(self.entries(), k@);
        }
        None
    }

    /// The value of `k`, if any.
    pub fn get(&self, k: &str) -> (r: Option<&V>)
        ensures
            match r {
                Some(v) => self.spec_get(k@) == Some(*v),
                None => self.spec_get(k@) is None,
            },
    {
        proof {
            lemma_key_index(self.entries(), k@);
        }
        match self.position(k) {
            Some(i) => {
                assert(self.entries()[i as int] == (self.entries@[i as int].0@, self.entries@[i as int].1));
                Some(&self.entries[i].1)
            },
            None => None,
        }
    }

    /// Whether `k` has an entry.
    pub fn contains_key(&self, k: &str) -> (r: bool)
        ensures
            r == (self.spec_get(k@) is Some),
    {
        self.position(k).is_some()
    }

    /// Replaces the value at position `i` by `v`, giving back the value that
    /// was there.
    pub fn replace_at(&mut self, i: usize, v: V) -> (r: V)
        requires
            i < old(self).entries().len(),
        ensures
            r == old(self).entries()[i as int].1,
            final(self).entries() == old(self).entries().update(
                i as int,
                (old(self).entries()[i as int].0, v),
            ),
            final(self).spec_get(old(self).entries()[i as int].0) == Some(v),
            forall|j: Seq<char>|
                j != old(self).entries()[i as int].0 ==> #[trigger] final(self).spec_get(j) == old(
                    self,
                ).spec_get(j),
    {
        proof {
            use_type_invariant(&*self);
            let k = self.entries()[i as int].0;
            lemma_key_index_at(self.entries(), k, i as int);
            lemma_insert_distinct(self.entries(), k, v);
        }
        let ghost before = self.entries@;
        let mut tmp = Table { entries: Vec::new() };
        assert(tmp.entries() =~= Seq::<(Seq<char>, V)>::empty());
        std::mem::swap(self, &mut tmp);
        let Table { entries: mut es } = tmp;
        let e = es.remove(i);
        es.insert(i, (e.0, v));
        assert(entries_view(es@) =~= entries_view(before).update(i as int, (entries_view(before)[i as int].0, v)));
        *self = Table { entries: es };
        e.1
    }

    /// Sets the value of `k` to `v`: in place when `k` has an entry, else as
    /// a new last entry.
    pub fn insert(&mut self, k: String, v: V)
        ensures
            final(self).entries() == entry_insert(old(self).entries(), k@, v),
            final(self).spec_get(k@) == Some(v),
            forall|j: Seq<char>| j != k@ ==> #[trigger] final(self).spec_get(j) == old(self).spec_get(j),
    {
        proof {
            use_type_invariant(&*self);
            lemma_insert_distinct(self.entries(), k@, v);
        }
        let ghost kv = k@;
        let ghost before = self.entries@;
        let pos = self.position(k.as_str());
        proof {
            lemma_key_index(self.entries(), kv);
        }
        let mut tmp = Table { entries: Vec::new() };
        assert(tmp.entries() =~= Seq::<(Seq<char>, V)>::empty());
        std::mem::swap(self, &mut tmp);
        let Table { entries: mut es } = tmp;
        match pos {
            Some(i) => {
                es.set(i, (k, v));
            },
            None => {
                es.push((k, v));
            },
        }
        assert(entries_view(es@) =~= entry_insert(entries_view(before), kv, v));
        *self = Table { entries: es };
    }
}

} // verus!
