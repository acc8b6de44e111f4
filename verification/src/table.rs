//! A small keyed table: entries in insertion order, each key at most once.
use vstd::prelude::*;

verus! {

/// A key whose identity is given by a mathematical value.
pub trait TableKey: Sized {
    type KeyView;

    spec fn key_view(&self) -> Self::KeyView;

    fn same_key(&self, other: &Self) -> (r: bool)
        ensures
            r == (self.key_view() == other.key_view()),
    ;
}

impl TableKey for u32 {
    type KeyView = u32;

    open spec fn key_view(&self) -> u32 {
        *self
    }

    fn same_key(&self, other: &Self) -> (r: bool) {
        *self == *other
    }
}

impl TableKey for String {
    type KeyView = Seq<char>;

    open spec fn key_view(&self) -> Seq<char> {
        self@
    }

    fn same_key(&self, other: &Self) -> (r: bool) {
        *self == *other
    }
}

impl TableKey for (u32, u64) {
    type KeyView = (u32, u64);

    open spec fn key_view(&self) -> (u32, u64) {
        *self
    }

    fn same_key(&self, other: &Self) -> (r: bool) {
        self.0 == other.0 && self.1 == other.1
    }
}

impl TableKey for (u32, String) {
    type KeyView = (u32, Seq<char>);

    open spec fn key_view(&self) -> (u32, Seq<char>) {
        (self.0, self.1@)
    }

    fn same_key(&self, other: &Self) -> (r: bool) {
        self.0 == other.0 && self.1 == other.1
    }
}

#[derive(Debug)]
pub struct Table<K, V> {
    pub entries: Vec<(K, V)>,
}

impl<K: TableKey, V> Table<K, V> {
    /// No key occurs twice.
    pub open spec fn wf(&self) -> bool {
        forall|i: int, j: int|
            0 <= i < self.entries@.len() && 0 <= j < self.entries@.len() && i != j
                ==> #[trigger] self.entries@[i].0.key_view() != #[trigger] self.entries@[j].0.key_view()
    }

    pub open spec fn has(&self, k: K::KeyView) -> bool {
        exists|i: int| 0 <= i < self.entries@.len() && #[trigger] self.entries@[i].0.key_view() == k
    }

    pub open spec fn index_of(&self, k: K::KeyView) -> int {
        choose|i: int| 0 <= i < self.entries@.len() && #[trigger] self.entries@[i].0.key_view() == k
    }

    pub open spec fn value_of(&self, k: K::KeyView) -> V {
        self.entries@[self.index_of(k)].1
    }

    /// The table as a map from key values to entries.
    pub open spec fn map(&self) -> Map<K::KeyView, V> {
        Map::new(|k: K::KeyView| self.has(k), |k: K::KeyView| self.value_of(k))
    }

    pub proof fn lemma_entry(&self, i: int)
        requires
            self.wf(),
            0 <= i < self.entries@.len(),
        ensures
            self.has(self.entries@[i].0.key_view()),
            self.index_of(self.entries@[i].0.key_view()) == i,
            self.map().contains_key(self.entries@[i].0.key_view()),
            self.map()[self.entries@[i].0.key_view()] == self.entries@[i].1,
    {
        let k = self.entries@[i].0.key_view();
        assert(self.has(k));
        let j = self.index_of(k);
        assert(self.entries@[j].0.key_view() == k);
    }

    pub fn new() -> (r: Self)
        ensures
            r.wf(),
            r.entries@.len() == 0,
            r.map() == Map::<K::KeyView, V>::empty(),
    {
        let r = Table { entries: Vec::new() };
        assert(r.map() =~= Map::<K::KeyView, V>::empty());
        r
    }

    pub fn len(&self) -> (r: usize)
        requires
            self.wf(),
        ensures
            r == self.entries@.len(),
            r == self.map().len(),
    {
        proof {
            self.lemma_len();
        }
        self.entries.len()
    }

    pub proof fn lemma_len(&self)
        requires
            self.wf(),
        ensures
            self.map().dom().len() == self.entries@.len(),
            self.map().dom().finite(),
        decreases self.entries@.len(),
    {
        let keys = self.entries@.map_values(|e: (K, V)| e.0.key_view());
        assert forall|i: int, j: int| 0 <= i < keys.len() && 0 <= j < keys.len() && i != j
            implies keys[i] != keys[j] by {
            assert(self.entries@[i].0.key_view() != self.entries@[j].0.key_view());
        }
        assert(keys.no_duplicates());
        keys.unique_seq_to_set();
        assert forall|k: K::KeyView| self.map().dom().contains(k) <==> keys.to_set().contains(k) by {
            if self.has(k) {
                let i = choose|i: int| 0 <= i < self.entries@.len() && #[trigger] self.entries@[i].0.key_view() == k;
                assert(keys[i] == k);
            }
            if keys.to_set().contains(k) {
                let i = choose|i: int| 0 <= i < keys.len() && keys[i] == k;
                assert(self.entries@[i].0.key_view() == k);
            }
        }
        assert(self.map().dom() =~= keys.to_set());
    }

    /// The position of the entry with the given key.
    pub fn find(&self, k: &K) -> (r: Option<usize>)
        requires
            self.wf(),
        ensures
            match r {
                Some(i) => i < self.entries@.len() && self.entries@[i as int].0.key_view()
                    == k.key_view() && self.index_of(k.key_view()) == i,
                None => !self.has(k.key_view()),
            },
            r is Some <==> self.map().contains_key(k.key_view()),
    {
        let mut i: usize = 0;
        while i < self.entries.len()
            invariant
                self.wf(),
                i <= self.entries@.len(),
                forall|j: int| 0 <= j < i ==> #[trigger] self.entries@[j].0.key_view() != k.key_view(),
            decreases self.entries.len() - i,
        {
            if self.entries[i].0.same_key(k) {
                proof {
                    self.lemma_entry(i as int);
                }
                return Some(i);
            }
            i += 1;
        }
        None
    }

    pub fn get(&self, k: &K) -> (r: Option<&V>)
        requires
            self.wf(),
        ensures
            match r {
                Some(v) => self.map().contains_key(k.key_view()) && *v == self.map()[k.key_view()],
                None => !self.map().contains_key(k.key_view()),
            },
    {
        match self.find(k) {
            Some(i) => {
                proof {
                    self.lemma_entry(i as int);
                }
                Some(&self.entries[i].1)
            },
            None => None,
        }
    }

    /// Sets the value of a key, replacing an entry in place or appending one.
    pub fn insert(&mut self, k: K, v: V)
        requires
            old(self).wf(),
        ensures
            final(self).wf(),
            final(self).map() == old(self).map().insert(k.key_view(), v),
            old(self).has(k.key_view()) ==> final(self).entries@ == old(self).entries@.update(
                old(self).index_of(k.key_view()),
                (k, v),
            ),
            !old(self).has(k.key_view()) ==> final(self).entries@ == old(self).entries@.push((k, v)),
    {
        let ghost kv = k.key_view();
        match self.find(&k) {
            Some(i) => {
                self.entries.set(i, (k, v));
                proof {
                    assert forall|j: int| 0 <= j < self.entries@.len() && j != i implies #[trigger] self.entries@[j] == old(self).entries@[j] by {}
                    self.lemma_map_after_set(*old(self), i as int, kv, v);
                }
            },
            None => {
                self.entries.push((k, v));
                proof {
                    self.lemma_map_after_push(*old(self), kv, v);
                }
            },
        }
    }

    proof fn lemma_map_after_set(&self, before: Self, i: int, kv: K::KeyView, v: V)
        requires
            before.wf(),
            0 <= i < before.entries@.len(),
            before.entries@[i].0.key_view() == kv,
            self.entries@.len() == before.entries@.len(),
            self.entries@[i].0.key_view() == kv,
            self.entries@[i].1 == v,
            forall|j: int| 0 <= j < self.entries@.len() && j != i ==> #[trigger] self.entries@[j]
                == before.entries@[j],
        ensures
            self.wf(),
            self.map() == before.map().insert(kv, v),
    {
        assert forall|a: int, b: int|
            0 <= a < self.entries@.len() && 0 <= b < self.entries@.len() && a != b
                implies #[trigger] self.entries@[a].0.key_view() != #[trigger] self.entries@[b].0.key_view() by {
            assert(before.entries@[a].0.key_view() != before.entries@[b].0.key_view());
        }
        assert forall|k: K::KeyView| #[trigger] self.map().contains_key(k) == before.map().insert(kv, v).contains_key(k)
            && (self.map().contains_key(k) ==> self.map()[k] == before.map().insert(kv, v)[k]) by {
            if self.has(k) {
                let j = choose|j: int| 0 <= j < self.entries@.len() && #[trigger] self.entries@[j].0.key_view() == k;
                self.lemma_entry(j);
                if j != i {
                    before.lemma_entry(j);
                }
            }
            if before.has(k) {
                let j = choose|j: int| 0 <= j < before.entries@.len() && #[trigger] before.entries@[j].0.key_view() == k;
                assert(self.entries@[j].0.key_view() == k);
            }
            if k == kv {
                assert(self.entries@[i].0.key_view() == k);
            }
        }
        assert(self.map() =~= before.map().insert(kv, v));
    }

    proof fn lemma_map_after_push(&self, before: Self, kv: K::KeyView, v: V)
        requires
            before.wf(),
            !before.has(kv),
            self.entries@.len() == before.entries@.len() + 1,
            self.entries@.last().0.key_view() == kv,
            self.entries@.last().1 == v,
            forall|j: int| 0 <= j < before.entries@.len() ==> #[trigger] self.entries@[j]
                == before.entries@[j],
        ensures
            self.wf(),
            self.map() == before.map().insert(kv, v),
    {
        let n = before.entries@.len() as int;
        assert forall|a: int, b: int|
            0 <= a < self.entries@.len() && 0 <= b < self.entries@.len() && a != b
                implies #[trigger] self.entries@[a].0.key_view() != #[trigger] self.entries@[b].0.key_view() by {
            if a < n && b < n {
                assert(before.entries@[a].0.key_view() != before.entries@[b].0.key_view());
            } else if a < n {
                assert(before.entries@[a].0.key_view() == self.entries@[a].0.key_view());
            } else {
                assert(before.entries@[b].0.key_view() == self.entries@[b].0.key_view());
            }
        }
        assert forall|k: K::KeyView| #[trigger] self.map().contains_key(k) == before.map().insert(kv, v).contains_key(k)
            && (self.map().contains_key(k) ==> self.map()[k] == before.map().insert(kv, v)[k]) by {
            if self.has(k) {
                let j = choose|j: int| 0 <= j < self.entries@.len() && #[trigger] self.entries@[j].0.key_view() == k;
                self.lemma_entry(j);
                if j < n {
                    before.lemma_entry(j);
                }
            }
            if before.has(k) {
                let j = choose|j: int| 0 <= j < before.entries@.len() && #[trigger] before.entries@[j].0.key_view() == k;
                assert(self.entries@[j].0.key_view() == k);
            }
            if k == kv {
                assert(self.entries@[n].0.key_view() == k);
            }
        }
        assert(self.map() =~= before.map().insert(kv, v));
    }

    /// Replaces the value at a position, keeping its key.
    pub fn set_value(&mut self, i: usize, v: V)
        requires
            old(self).wf(),
            i < old(self).entries@.len(),
        ensures
            final(self).wf(),
            final(self).entries@.len() == old(self).entries@.len(),
            final(self).entries@[i as int].0 == old(self).entries@[i as int].0,
            final(self).entries@[i as int].1 == v,
            forall|j: int| 0 <= j < final(self).entries@.len() && j != i ==> #[trigger] final(self).entries@[j]
                == old(self).entries@[j],
            final(self).map() == old(self).map().insert(old(self).entries@[i as int].0.key_view(), v),
    {
        let ghost kv = self.entries@[i as int].0.key_view();
        let (k, _previous) = self.entries.remove(i);
        self.entries.insert(i, (k, v));
        proof {
            assert forall|j: int| 0 <= j < self.entries@.len() && j != i implies #[trigger] self.entries@[j]
                == old(self).entries@[j] by {}
            self.lemma_map_after_set(*old(self), i as int, kv, v);
        }
    }

    /// Removes the entry at a position, keeping the order of the others.
    pub fn remove_at(&mut self, i: usize) -> (r: (K, V))
        requires
            old(self).wf(),
            i < old(self).entries@.len(),
        ensures
            final(self).wf(),
            r == old(self).entries@[i as int],
            final(self).entries@ == old(self).entries@.remove(i as int),
            final(self).map() == old(self).map().remove(r.0.key_view()),
    {
        let r = self.entries.remove(i);
        proof {
            let before = *old(self);
            let kv = r.0.key_view();
            assert forall|a: int, b: int|
                0 <= a < self.entries@.len() && 0 <= b < self.entries@.len() && a != b
                    implies #[trigger] self.entries@[a].0.key_view() != #[trigger] self.entries@[b].0.key_view() by {
                let a0 = if a < i { a } else { a + 1 };
                let b0 = if b < i { b } else { b + 1 };
                assert(self.entries@[a] == before.entries@[a0]);
                assert(self.entries@[b] == before.entries@[b0]);
                assert(before.entries@[a0].0.key_view() != before.entries@[b0].0.key_view());
            }
            assert forall|k: K::KeyView| #[trigger] self.map().contains_key(k) == before.map().remove(kv).contains_key(k)
                && (self.map().contains_key(k) ==> self.map()[k] == before.map().remove(kv)[k]) by {
                if self.has(k) {
                    let j = choose|j: int| 0 <= j < self.entries@.len() && #[trigger] self.entries@[j].0.key_view() == k;
                    self.lemma_entry(j);
                    let j0 = if j < i { j } else { j + 1 };
                    assert(self.entries@[j] == before.entries@[j0]);
                    before.lemma_entry(j0);
                    assert(before.entries@[i as int].0.key_view() != before.entries@[j0].0.key_view());
                }
                if before.has(k) && k != kv {
                    let j = choose|j: int| 0 <= j < before.entries@.len() && #[trigger] before.entries@[j].0.key_view() == k;
                    assert(j != i);
                    let j1 = if j < i { j } else { j - 1 };
                    assert(self.entries@[j1] == before.entries@[j]);
                    assert(self.entries@[j1].0.key_view() == k);
                }
            }
            assert(self.map() =~= before.map().remove(kv));
        }
        r
    }

    /// Removes the entry with the given key, if there is one.
    pub fn remove(&mut self, k: &K) -> (r: Option<V>)
        requires
            old(self).wf(),
        ensures
            final(self).wf(),
            final(self).map() == old(self).map().remove(k.key_view()),
            match r {
                Some(v) => old(self).map().contains_key(k.key_view()) && v == old(self).map()[k.key_view()],
                None => !old(self).map().contains_key(k.key_view()) && final(self).entries@ == old(self).entries@,
            },
    {
        match self.find(k) {
            Some(i) => {
                proof {
                    self.lemma_entry(i as int);
                }
                let e = self.remove_at(i);
                Some(e.1)
            },
            None => {
                assert(self.map().remove(k.key_view()) =~= self.map());
                None
            },
        }
    }
}


/// The entries whose flag is set, in order.
pub open spec fn kept_seq<E>(entries: Seq<E>, flags: Seq<bool>) -> Seq<E>
    decreases entries.len(),
{
    if entries.len() == 0 || flags.len() == 0 {
        Seq::empty()
    } else {
        let rest = kept_seq(entries.drop_last(), flags.drop_last());
        if flags.last() {
            rest.push(entries.last())
        } else {
            rest
        }
    }
}

/// The entries whose flag is clear, in order.
pub open spec fn dropped_seq<E>(entries: Seq<E>, flags: Seq<bool>) -> Seq<E>
    decreases entries.len(),
{
    if entries.len() == 0 || flags.len() == 0 {
        Seq::empty()
    } else {
        let rest = dropped_seq(entries.drop_last(), flags.drop_last());
        if flags.last() {
            rest
        } else {
            rest.push(entries.last())
        }
    }
}

/// Each kept entry comes from a flagged position, and each flagged position
/// is kept.
pub proof fn lemma_kept_members<E>(entries: Seq<E>, flags: Seq<bool>)
    requires
        entries.len() == flags.len(),
    ensures
        forall|x: E| kept_seq(entries, flags).contains(x) ==> exists|i: int|
            0 <= i < entries.len() && flags[i] && #[trigger] entries[i] == x,
        forall|i: int| 0 <= i < entries.len() && flags[i] ==> kept_seq(entries, flags).contains(
            #[trigger] entries[i],
        ),
        forall|x: E| dropped_seq(entries, flags).contains(x) ==> exists|i: int|
            0 <= i < entries.len() && !flags[i] && #[trigger] entries[i] == x,
        forall|i: int| 0 <= i < entries.len() && !flags[i] ==> dropped_seq(entries, flags).contains(
            #[trigger] entries[i],
        ),
    decreases entries.len(),
{
    if entries.len() > 0 {
        let e0 = entries.drop_last();
        let f0 = flags.drop_last();
        lemma_kept_members(e0, f0);
        let n = entries.len() - 1;
        assert forall|x: E| kept_seq(entries, flags).contains(x) implies exists|i: int|
            0 <= i < entries.len() && flags[i] && #[trigger] entries[i] == x by {
            if kept_seq(e0, f0).contains(x) {
                let i = choose|i: int| 0 <= i < e0.len() && f0[i] && #[trigger] e0[i] == x;
                assert(entries[i] == x);
            } else {
                assert(entries[n] == x);
            }
        }
        assert forall|i: int| 0 <= i < entries.len() && flags[i] implies kept_seq(entries, flags).contains(
            #[trigger] entries[i],
        ) by {
            if i < n {
                assert(e0[i] == entries[i]);
                assert(kept_seq(e0, f0).contains(e0[i]));
                let t = choose|t: int| 0 <= t < kept_seq(e0, f0).len() && kept_seq(e0, f0)[t] == e0[i];
                assert(kept_seq(entries, flags)[t] == e0[i]);
            } else {
                assert(kept_seq(entries, flags).last() == entries[i]);
            }
        }
        assert forall|x: E| dropped_seq(entries, flags).contains(x) implies exists|i: int|
            0 <= i < entries.len() && !flags[i] && #[trigger] entries[i] == x by {
            if dropped_seq(e0, f0).contains(x) {
                let i = choose|i: int| 0 <= i < e0.len() && !f0[i] && #[trigger] e0[i] == x;
                assert(entries[i] == x);
            } else {
                assert(entries[n] == x);
            }
        }
        assert forall|i: int| 0 <= i < entries.len() && !flags[i] implies dropped_seq(entries, flags).contains(
            #[trigger] entries[i],
        ) by {
            if i < n {
                assert(e0[i] == entries[i]);
                assert(dropped_seq(e0, f0).contains(e0[i]));
                let t = choose|t: int| 0 <= t < dropped_seq(e0, f0).len() && dropped_seq(e0, f0)[t] == e0[i];
                assert(dropped_seq(entries, flags)[t] == e0[i]);
            } else {
                assert(dropped_seq(entries, flags).last() == entries[i]);
            }
        }
    }
}

/// Entries with distinct keys drop entries with distinct keys.
pub proof fn lemma_dropped_keys_distinct<K: TableKey, V>(entries: Seq<(K, V)>, flags: Seq<bool>)
    requires
        entries.len() == flags.len(),
        forall|i: int, j: int|
            0 <= i < entries.len() && 0 <= j < entries.len() && i != j ==> #[trigger] entries[i].0.key_view()
                != #[trigger] entries[j].0.key_view(),
    ensures
        forall|a: int, b: int|
            0 <= a < dropped_seq(entries, flags).len() && 0 <= b < dropped_seq(entries, flags).len() && a != b
                ==> #[trigger] dropped_seq(entries, flags)[a].0.key_view() != #[trigger] dropped_seq(
                entries,
                flags,
            )[b].0.key_view(),
    decreases entries.len(),
{
    if entries.len() > 0 {
        let e0 = entries.drop_last();
        let f0 = flags.drop_last();
        let n = entries.len() - 1;
        assert forall|i: int, j: int|
            0 <= i < e0.len() && 0 <= j < e0.len() && i != j implies #[trigger] e0[i].0.key_view()
                != #[trigger] e0[j].0.key_view() by {
            assert(e0[i] == entries[i]);
            assert(e0[j] == entries[j]);
        }
        lemma_dropped_keys_distinct(e0, f0);
        lemma_kept_members(e0, f0);
        let d0 = dropped_seq(e0, f0);
        let d = dropped_seq(entries, flags);
        if !flags.last() {
            assert(d == d0.push(entries[n]));
            assert forall|a: int, b: int| 0 <= a < d.len() && 0 <= b < d.len() && a != b implies #[trigger] d[a].0.key_view()
                != #[trigger] d[b].0.key_view() by {
                if a < d0.len() && b < d0.len() {
                    assert(d[a] == d0[a]);
                    assert(d[b] == d0[b]);
                } else {
                    let x = if a < d0.len() {
                        a
                    } else {
                        b
                    };
                    assert(d[x] == d0[x]);
                    assert(d0.contains(d0[x]));
                    let i = choose|i: int| 0 <= i < e0.len() && !f0[i] && #[trigger] e0[i] == d0[x];
                    assert(entries[i] == e0[i]);
                    assert(entries[i].0.key_view() != entries[n].0.key_view());
                }
            }
        } else {
            assert(d == d0);
        }
    }
}

impl<K: TableKey, V> Table<K, V> {
    /// Keeps exactly the entries whose flag is set; returns the others in order.
    pub fn retain_flags(&mut self, flags: &Vec<bool>) -> (removed: Vec<(K, V)>)
        requires
            old(self).wf(),
            flags@.len() == old(self).entries@.len(),
        ensures
            final(self).wf(),
            final(self).entries@ == kept_seq(old(self).entries@, flags@),
            removed@ == dropped_seq(old(self).entries@, flags@),
            forall|k: K::KeyView| #[trigger] final(self).map().contains_key(k) <==> (old(self).map().contains_key(k)
                && flags@[old(self).index_of(k)]),
            forall|k: K::KeyView| #[trigger] final(self).map().contains_key(k) ==> final(self).map()[k]
                == old(self).map()[k],
    {
        let ghost orig = old(self).entries@;
        let mut removed: Vec<(K, V)> = Vec::new();
        let mut i: usize = 0;
        let mut j: usize = 0;
        while j < flags.len()
            invariant
                self.wf(),
                flags@.len() == orig.len(),
                j <= orig.len(),
                self.entries@ == kept_seq(orig.take(j as int), flags@.take(j as int)) + orig.skip(
                    j as int,
                ),
                i == kept_seq(orig.take(j as int), flags@.take(j as int)).len(),
                removed@ == dropped_seq(orig.take(j as int), flags@.take(j as int)),
            decreases flags.len() - j,
        {
            let ghost kept_before = kept_seq(orig.take(j as int), flags@.take(j as int));
            assert(orig.take(j + 1).drop_last() =~= orig.take(j as int));
            assert(flags@.take(j + 1).drop_last() =~= flags@.take(j as int));
            assert(self.entries@[i as int] == orig[j as int]);
            let current_len = self.entries.len();
            assert(i < current_len);
            if flags[j] {
                i += 1;
                assert(self.entries@ =~= kept_seq(orig.take(j + 1), flags@.take(j + 1)) + orig.skip(j + 1));
            } else {
                let e = self.remove_at(i);
                removed.push(e);
                assert(self.entries@ =~= kept_seq(orig.take(j + 1), flags@.take(j + 1)) + orig.skip(j + 1));
            }
            j += 1;
        }
        proof {
            assert(orig.take(orig.len() as int) =~= orig);
            assert(flags@.take(orig.len() as int) =~= flags@);
            assert(self.entries@ =~= kept_seq(orig, flags@));
            lemma_kept_members(orig, flags@);
            let before = *old(self);
            assert forall|k: K::KeyView| #[trigger] self.map().contains_key(k) <==> (before.map().contains_key(k)
                && flags@[before.index_of(k)]) by {
                if self.has(k) {
                    let a = choose|a: int| 0 <= a < self.entries@.len() && #[trigger] self.entries@[a].0.key_view() == k;
                    assert(kept_seq(orig, flags@).contains(self.entries@[a]));
                    let b = choose|b: int| 0 <= b < orig.len() && flags@[b] && #[trigger] orig[b] == self.entries@[a];
                    before.lemma_entry(b);
                }
                if before.has(k) && flags@[before.index_of(k)] {
                    let b = before.index_of(k);
                    assert(kept_seq(orig, flags@).contains(orig[b]));
                    let a = choose|a: int| 0 <= a < self.entries@.len() && self.entries@[a] == orig[b];
                    assert(self.entries@[a].0.key_view() == k);
                }
            }
            assert forall|k: K::KeyView| #[trigger] self.map().contains_key(k) implies self.map()[k] == before.map()[k] by {
                let a = self.index_of(k);
                self.lemma_entry(a);
                assert(kept_seq(orig, flags@).contains(self.entries@[a]));
                let b = choose|b: int| 0 <= b < orig.len() && flags@[b] && #[trigger] orig[b] == self.entries@[a];
                before.lemma_entry(b);
            }
        }
        removed
    }
}
} // verus!
