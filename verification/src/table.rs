//! A keyed table of stored values: the shape of one contract storage area.
use vstd::prelude::*;

use crate::address::Address;

verus! {

/// Keys of a [`Table`]: values whose views decide identity, with an exact equality test.
pub trait TableKey: View + Sized {
    fn same_key(&self, other: &Self) -> (r: bool)
        ensures
            r == (self@ == other@),
    ;

    fn copy_key(&self) -> (r: Self)
        ensures
            r@ == self@,
    ;
}

impl TableKey for u64 {
    fn same_key(&self, other: &u64) -> (r: bool) {
        *self == *other
    }

    fn copy_key(&self) -> (r: u64) {
        *self
    }
}

impl TableKey for (u64, u32) {
    fn same_key(&self, other: &(u64, u32)) -> (r: bool) {
        self.0 == other.0 && self.1 == other.1
    }

    fn copy_key(&self) -> (r: (u64, u32)) {
        (self.0, self.1)
    }
}

impl TableKey for Address {
    fn same_key(&self, other: &Address) -> (r: bool) {
        self.same_as(other)
    }

    fn copy_key(&self) -> (r: Address) {
        self.duplicate()
    }
}

impl TableKey for (u64, Address) {
    fn same_key(&self, other: &(u64, Address)) -> (r: bool) {
        self.0 == other.0 && self.1.same_as(&other.1)
    }

    fn copy_key(&self) -> (r: (u64, Address)) {
        (self.0, self.1.duplicate())
    }
}

/// A table from keys to values, each key present at most once.
pub struct Table<K, V> {
    entries: Vec<(K, V)>,
}

/// The map that a sequence of entries stands for.
pub closed spec fn entries_map<K: View, V>(s: Seq<(K, V)>) -> Map<K::V, V> {
    Map::new(
        |k: K::V| exists|i: int| 0 <= i < s.len() && #[trigger] s[i].0@ == k,
        |k: K::V| s[choose|i: int| 0 <= i < s.len() && #[trigger] s[i].0@ == k].1,
    )
}

/// No key occurs twice in the sequence.
pub closed spec fn distinct_keys<K: View, V>(s: Seq<(K, V)>) -> bool {
    forall|i: int, j: int| 0 <= i < j < s.len() ==> #[trigger] s[i].0@ != #[trigger] s[j].0@
}

proof fn lemma_lookup<K: View, V>(s: Seq<(K, V)>, i: int)
    requires
        distinct_keys(s),
        0 <= i < s.len(),
    ensures
        entries_map(s).contains_key(s[i].0@),
        entries_map(s)[s[i].0@] == s[i].1,
{
    let k = s[i].0@;
    assert(entries_map(s).dom().contains(k));
    let j = choose|j: int| 0 <= j < s.len() && #[trigger] s[j].0@ == k;
    if j < i {
        assert(s[j].0@ != s[i].0@);
    } else if j > i {
        assert(s[i].0@ != s[j].0@);
    }
}

proof fn lemma_update<K: View, V>(s: Seq<(K, V)>, i: int, e: (K, V))
    requires
        distinct_keys(s),
        0 <= i < s.len(),
        s[i].0@ == e.0@,
    ensures
        distinct_keys(s.update(i, e)),
        entries_map(s.update(i, e)) == entries_map(s).insert(e.0@, e.1),
{
    let s2 = s.update(i, e);
    assert forall|a: int, b: int| 0 <= a < b < s2.len() implies #[trigger] s2[a].0@ != #[trigger] s2[b].0@ by {
        assert(s[a].0@ != s[b].0@);
    }
    let m = entries_map(s).insert(e.0@, e.1);
    lemma_lookup(s, i);
    lemma_lookup(s2, i);
    assert forall|x: K::V| #[trigger] entries_map(s2).contains_key(x) <==> m.contains_key(x) by {
        if entries_map(s2).contains_key(x) {
            let j = choose|j: int| 0 <= j < s2.len() && #[trigger] s2[j].0@ == x;
            if j != i {
                assert(s2[j] == s[j]);
                lemma_lookup(s, j);
            }
        }
        if m.contains_key(x) && x != e.0@ {
            let j = choose|j: int| 0 <= j < s.len() && #[trigger] s[j].0@ == x;
            assert(s2[j] == s[j]);
            lemma_lookup(s2, j);
        }
    }
    assert forall|x: K::V| #[trigger] entries_map(s2).contains_key(x) implies entries_map(s2)[x] == m[x] by {
        if x != e.0@ {
            let j = choose|j: int| 0 <= j < s2.len() && #[trigger] s2[j].0@ == x;
            assert(j != i);
            assert(s2[j] == s[j]);
            lemma_lookup(s, j);
            lemma_lookup(s2, j);
        }
    }
    assert(entries_map(s2) =~= m);
}

proof fn lemma_push<K: View, V>(s: Seq<(K, V)>, e: (K, V))
    requires
        distinct_keys(s),
        !entries_map(s).contains_key(e.0@),
    ensures
        distinct_keys(s.push(e)),
        entries_map(s.push(e)) == entries_map(s).insert(e.0@, e.1),
{
    let s2 = s.push(e);
    let n = s.len() as int;
    assert forall|a: int, b: int| 0 <= a < b < s2.len() implies #[trigger] s2[a].0@ != #[trigger] s2[b].0@ by {
        if b == n {
            assert(s2[a] == s[a]);
            if s[a].0@ == e.0@ {
                assert(entries_map(s).dom().contains(e.0@));
            }
        } else {
            assert(s[a].0@ != s[b].0@);
        }
    }
    let m = entries_map(s).insert(e.0@, e.1);
    lemma_lookup(s2, n);
    assert forall|x: K::V| #[trigger] entries_map(s2).contains_key(x) <==> m.contains_key(x) by {
        if entries_map(s2).contains_key(x) {
            let j = choose|j: int| 0 <= j < s2.len() && #[trigger] s2[j].0@ == x;
            if j != n {
                assert(s2[j] == s[j]);
                lemma_lookup(s, j);
            }
        }
        if m.contains_key(x) && x != e.0@ {
            let j = choose|j: int| 0 <= j < s.len() && #[trigger] s[j].0@ == x;
            assert(s2[j] == s[j]);
            lemma_lookup(s2, j);
        }
    }
    assert forall|x: K::V| #[trigger] entries_map(s2).contains_key(x) implies entries_map(s2)[x] == m[x] by {
        if x != e.0@ {
            let j = choose|j: int| 0 <= j < s2.len() && #[trigger] s2[j].0@ == x;
            assert(j != n);
            assert(s2[j] == s[j]);
            lemma_lookup(s, j);
            lemma_lookup(s2, j);
        }
    }
    assert(entries_map(s2) =~= m);
}

impl<K: View, V> View for Table<K, V> {
    type V = Map<K::V, V>;

    closed spec fn view(&self) -> Map<K::V, V> {
        entries_map(self.entries@)
    }
}

impl<K: TableKey, V: Copy> Table<K, V> {
    /// No key occurs twice.
    pub closed spec fn wf(&self) -> bool {
        distinct_keys(self.entries@)
    }

    /// An empty table.
    pub fn new() -> (t: Self)
        ensures
            t.wf(),
            t@ == Map::<K::V, V>::empty(),
    {
        let t = Table { entries: Vec::new() };
        assert(t@ =~= Map::<K::V, V>::empty());
        t
    }

    /// Position of `key`, if present.
    fn find(&self, key: &K) -> (r: Option<usize>)
        requires
            self.wf(),
        ensures
            match r {
                Some(i) => i < self.entries@.len() && self.entries@[i as int].0@ == key@,
                None => !self@.contains_key(key@),
            },
    {
        let n = self.entries.len();
        let mut i: usize = 0;
        while i < n
            invariant
                n == self.entries@.len(),
                i <= n,
                forall|j: int| 0 <= j < i ==> #[trigger] self.entries@[j].0@ != key@,
            decreases n - i,
        {
            if self.entries[i].0.same_key(key) {
                return Some(i);
            }
            i = i + 1;
        }
        None
    }

    /// The value stored under `key`.
    pub fn get(&self, key: &K) -> (r: Option<V>)
        requires
            self.wf(),
        ensures
            r == self@.get(key@),
    {
        match self.find(key) {
            Some(i) => {
                proof {
                    lemma_lookup(self.entries@, i as int);
                }
                Some(self.entries[i].1)
            },
            None => None,
        }
    }

    /// A second table with the same contents.
    pub fn copy(&self) -> (t: Self)
        requires
            self.wf(),
        ensures
            t.wf(),
            t@ == self@,
    {
        let mut t = Self::new();
        let n = self.entries.len();
        let mut i: usize = 0;
        while i < n
            invariant
                n == self.entries@.len(),
                i <= n,
                self.wf(),
                t.wf(),
                t@ == entries_map(self.entries@.take(i as int)),
            decreases n - i,
        {
            let ghost pre = self.entries@.take(i as int);
            let ghost e = self.entries@[i as int];
            proof {
                assert forall|a: int, b: int| 0 <= a < b < pre.len() implies #[trigger] pre[a].0@
                    != #[trigger] pre[b].0@ by {
                    assert(pre[a] == self.entries@[a] && pre[b] == self.entries@[b]);
                }
                if entries_map(pre).contains_key(e.0@) {
                    let j = choose|j: int| 0 <= j < pre.len() && #[trigger] pre[j].0@ == e.0@;
                    assert(pre[j] == self.entries@[j]);
                    assert(self.entries@[j].0@ != self.entries@[i as int].0@);
                }
                lemma_push(pre, e);
                assert(pre.push(e) =~= self.entries@.take(i + 1));
            }
            let k = self.entries[i].0.copy_key();
            let v = self.entries[i].1;
            t.set(k, v);
            i = i + 1;
        }
        assert(self.entries@.take(n as int) =~= self.entries@);
        t
    }

    /// Stores `value` under `key`, replacing what was there.
    pub fn set(&mut self, key: K, value: V)
        requires
            old(self).wf(),
        ensures
            final(self).wf(),
            final(self)@ == old(self)@.insert(key@, value),
    {
        let ghost old_entries = self.entries@;
        match self.find(&key) {
            Some(i) => {
                proof {
                    lemma_update(old_entries, i as int, (key, value));
                }
                self.entries.set(i, (key, value));
            },
            None => {
                proof {
                    lemma_push(old_entries, (key, value));
                }
                self.entries.push((key, value));
            },
        }
    }
}

} // verus!
