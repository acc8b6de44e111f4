//! A map from text keys to values that keeps its entries in key order, as a
//! `BTreeMap<String, V>` does: text compared character by character.
use vstd::prelude::*;
use crate::text::chars_of;

verus! {

/// `a` sorts before `b`: at the first difference a smaller character, or
/// `a` a proper prefix of `b`.
pub open spec fn text_lt(a: Seq<char>, b: Seq<char>) -> bool
    decreases a.len(),
{
    if b.len() == 0 {
        false
    } else if a.len() == 0 {
        true
    } else if a[0] != b[0] {
        a[0] < b[0]
    } else {
        text_lt(a.drop_first(), b.drop_first())
    }
}

pub proof fn lemma_text_lt_irreflexive(a: Seq<char>)
    ensures
        !text_lt(a, a),
    decreases a.len(),
{
    if a.len() > 0 {
        lemma_text_lt_irreflexive(a.drop_first());
    }
}

pub proof fn lemma_text_lt_transitive(a: Seq<char>, b: Seq<char>, c: Seq<char>)
    requires
        text_lt(a, b),
        text_lt(b, c),
    ensures
        text_lt(a, c),
    decreases a.len(),
{
    if a.len() > 0 && b.len() > 0 && c.len() > 0 && a[0] == b[0] && b[0] == c[0] {
        lemma_text_lt_transitive(a.drop_first(), b.drop_first(), c.drop_first());
    }
}

pub proof fn lemma_text_lt_total(a: Seq<char>, b: Seq<char>)
    requires
        a != b,
    ensures
        text_lt(a, b) || text_lt(b, a),
    decreases a.len(),
{
    if a.len() == 0 {
        if b.len() == 0 {
            assert(a =~= b);
        }
    } else if b.len() == 0 {
    } else if a[0] == b[0] {
        if a.drop_first() == b.drop_first() {
            assert(a =~= seq![a[0]] + a.drop_first());
            assert(b =~= seq![b[0]] + b.drop_first());
        }
        lemma_text_lt_total(a.drop_first(), b.drop_first());
    }
}

/// Whether `a` sorts before `b`.
pub fn text_less(a: &str, b: &str) -> (r: bool)
    ensures
        r == text_lt(a@, b@),
{
    let x = chars_of(a);
    let y = chars_of(b);
    let mut i: usize = 0;
    assert(x@.skip(0) =~= x@);
    assert(y@.skip(0) =~= y@);
    while i < x.len() && i < y.len() && x[i] == y[i]
        invariant
            i <= x@.len(),
            i <= y@.len(),
            x@ == a@,
            y@ == b@,
            text_lt(a@, b@) == text_lt(x@.skip(i as int), y@.skip(i as int)),
        decreases x.len() - i,
    {
        assert(x@.skip(i as int).drop_first() =~= x@.skip(i + 1));
        assert(y@.skip(i as int).drop_first() =~= y@.skip(i + 1));
        i += 1;
    }
    if i == y.len() {
        false
    } else if i == x.len() {
        true
    } else {
        x[i] < y[i]
    }
}

/// Whether two texts are equal.
pub fn same_text(a: &str, b: &str) -> (r: bool)
    ensures
        r == (a@ == b@),
{
    let v = chars_of(a);
    assert(v@.subrange(0, v@.len() as int) =~= a@);
    crate::text::range_eq(&v, 0, v.len(), b)
}

/// Entries ordered strictly by key.
pub open spec fn keys_ordered<V>(es: Seq<(String, V)>) -> bool {
    forall|i: int, j: int| 0 <= i < j < es.len() ==> text_lt((#[trigger] es[i]).0@, (#[trigger] es[j]).0@)
}

/// Text-keyed entries kept in key order.
#[derive(Debug)]
pub struct Keyed<V> {
    pub entries: Vec<(String, V)>,
}

impl<V> Keyed<V> {
    pub open spec fn wf(&self) -> bool {
        keys_ordered(self.entries@)
    }

    pub open spec fn has(&self, k: Seq<char>) -> bool {
        exists|i: int| 0 <= i < self.entries@.len() && #[trigger] self.entries@[i].0@ == k
    }

    pub open spec fn index_of(&self, k: Seq<char>) -> int {
        choose|i: int| 0 <= i < self.entries@.len() && #[trigger] self.entries@[i].0@ == k
    }

    /// The entries as a map from key text to value.
    pub open spec fn map(&self) -> Map<Seq<char>, V> {
        Map::new(|k: Seq<char>| self.has(k), |k: Seq<char>| self.entries@[self.index_of(k)].1)
    }

    pub proof fn lemma_entry(&self, i: int)
        requires
            self.wf(),
            0 <= i < self.entries@.len(),
        ensures
            self.index_of(self.entries@[i].0@) == i,
            self.map().contains_key(self.entries@[i].0@),
            self.map()[self.entries@[i].0@] == self.entries@[i].1,
    {
        let k = self.entries@[i].0@;
        assert(self.has(k));
        let j = self.index_of(k);
        if j != i {
            if i < j {
                assert(text_lt(self.entries@[i].0@, self.entries@[j].0@));
            } else {
                assert(text_lt(self.entries@[j].0@, self.entries@[i].0@));
            }
            lemma_text_lt_irreflexive(k);
        }
    }

    pub fn new() -> (r: Self)
        ensures
            r.wf(),
            r.entries@.len() == 0,
            r.map() == Map::<Seq<char>, V>::empty(),
    {
        let r = Keyed { entries: Vec::new() };
        assert(r.map() =~= Map::<Seq<char>, V>::empty());
        r
    }

    /// The position of a key, or where it would go.
    pub fn locate(&self, k: &str) -> (r: Result<usize, usize>)
        requires
            self.wf(),
        ensures
            match r {
                Ok(i) => i < self.entries@.len() && self.entries@[i as int].0@ == k@,
                Err(p) => p <= self.entries@.len() && !self.has(k@) && (forall|j: int|
                    0 <= j < p ==> text_lt((#[trigger] self.entries@[j]).0@, k@)) && (forall|j: int|
                    p <= j < self.entries@.len() ==> text_lt(k@, (#[trigger] self.entries@[j]).0@)),
            },
    {
        let mut i: usize = 0;
        while i < self.entries.len()
            invariant
                self.wf(),
                i <= self.entries@.len(),
                forall|j: int| 0 <= j < i ==> text_lt((#[trigger] self.entries@[j]).0@, k@),
            decreases self.entries.len() - i,
        {
            if same_text(self.entries[i].0.as_str(), k) {
                return Ok(i);
            }
            if text_less(k, self.entries[i].0.as_str()) {
                proof {
                    assert forall|j: int| i <= j < self.entries@.len() implies text_lt(
                        k@,
                        (#[trigger] self.entries@[j]).0@,
                    ) by {
                        if j > i {
                            assert(text_lt(self.entries@[i as int].0@, self.entries@[j].0@));
                            lemma_text_lt_transitive(k@, self.entries@[i as int].0@, self.entries@[j].0@);
                        }
                    }
                    assert forall|j: int| 0 <= j < self.entries@.len() implies #[trigger] self.entries@[j].0@
                        != k@ by {
                        if j < i {
                            if self.entries@[j].0@ == k@ {
                                lemma_text_lt_irreflexive(k@);
                            }
                        } else {
                            if self.entries@[j].0@ == k@ {
                                lemma_text_lt_irreflexive(k@);
                            }
                        }
                    }
                }
                return Err(i);
            }
            proof {
                lemma_text_lt_total(k@, self.entries@[i as int].0@);
            }
            i += 1;
        }
        proof {
            assert forall|j: int| 0 <= j < self.entries@.len() implies #[trigger] self.entries@[j].0@ != k@ by {
                if self.entries@[j].0@ == k@ {
                    lemma_text_lt_irreflexive(k@);
                }
            }
        }
        Err(i)
    }

    /// Adds a key that is not there, at the place `locate` gave.
    pub fn put_new(&mut self, p: usize, k: String, v: V)
        requires
            old(self).wf(),
            p <= old(self).entries@.len(),
            forall|j: int| 0 <= j < p ==> text_lt((#[trigger] old(self).entries@[j]).0@, k@),
            forall|j: int| p <= j < old(self).entries@.len() ==> text_lt(k@, (#[trigger] old(self).entries@[j]).0@),
        ensures
            final(self).wf(),
            final(self).entries@ == old(self).entries@.insert(p as int, (k, v)),
            final(self).map() == old(self).map().insert(k@, v),
    {
        let ghost kv = k@;
        let ghost before = *old(self);
        self.entries.insert(p, (k, v));
        proof {
            let es = self.entries@;
            assert forall|i: int, j: int| 0 <= i < j < es.len() implies text_lt((#[trigger] es[i]).0@, (#[trigger] es[j]).0@) by {
                let b = before.entries@;
                if j < p {
                    assert(es[i] == b[i] && es[j] == b[j]);
                } else if j == p {
                    assert(es[i] == b[i]);
                } else if i < p {
                    assert(es[i] == b[i] && es[j] == b[j - 1]);
                    lemma_text_lt_transitive(b[i].0@, kv, b[j - 1].0@);
                } else if i == p {
                    assert(es[j] == b[j - 1]);
                } else {
                    assert(es[i] == b[i - 1] && es[j] == b[j - 1]);
                }
            }
            assert forall|q: Seq<char>| #[trigger] self.map().contains_key(q) == before.map().insert(kv, v).contains_key(q)
                && (self.map().contains_key(q) ==> self.map()[q] == before.map().insert(kv, v)[q]) by {
                if self.has(q) {
                    let j = choose|j: int| 0 <= j < self.entries@.len() && #[trigger] self.entries@[j].0@ == q;
                    self.lemma_entry(j);
                    if j < p {
                        assert(self.entries@[j] == before.entries@[j]);
                        before.lemma_entry(j);
                        if q == kv {
                            lemma_text_lt_irreflexive(kv);
                        }
                    } else if j > p {
                        assert(self.entries@[j] == before.entries@[j - 1]);
                        before.lemma_entry(j - 1);
                        if q == kv {
                            lemma_text_lt_irreflexive(kv);
                        }
                    }
                }
                if before.has(q) {
                    let j = choose|j: int| 0 <= j < before.entries@.len() && #[trigger] before.entries@[j].0@ == q;
                    let j1 = if j < p { j } else { j + 1 };
                    assert(self.entries@[j1] == before.entries@[j]);
                    assert(self.entries@[j1].0@ == q);
                }
                if q == kv {
                    assert(self.entries@[p as int].0@ == kv);
                }
            }
            assert(self.map() =~= before.map().insert(kv, v));
        }
    }

    /// Replaces the value at a position.
    pub fn replace(&mut self, i: usize, v: V)
        requires
            old(self).wf(),
            i < old(self).entries@.len(),
        ensures
            final(self).wf(),
            final(self).entries@.len() == old(self).entries@.len(),
            final(self).entries@[i as int].0 == old(self).entries@[i as int].0,
            final(self).entries@ == old(self).entries@.update(i as int, (old(self).entries@[i as int].0, v)),
            final(self).map() == old(self).map().insert(old(self).entries@[i as int].0@, v),
    {
        let ghost before = *old(self);
        let ghost kv = self.entries@[i as int].0@;
        let (k, _previous) = self.entries.remove(i);
        self.entries.insert(i, (k, v));
        assert(self.entries@ =~= before.entries@.update(i as int, (before.entries@[i as int].0, v)));
        proof {
            let es = self.entries@;
            assert forall|a: int| 0 <= a < es.len() && a != i implies #[trigger] es[a] == before.entries@[a] by {}
            assert forall|a: int, b: int| 0 <= a < b < es.len() implies text_lt((#[trigger] es[a]).0@, (#[trigger] es[b]).0@) by {
                assert(es[a].0 == before.entries@[a].0 && es[b].0 == before.entries@[b].0);
            }
            before.lemma_entry(i as int);
            assert forall|q: Seq<char>| #[trigger] self.map().contains_key(q) == before.map().insert(kv, v).contains_key(q)
                && (self.map().contains_key(q) ==> self.map()[q] == before.map().insert(kv, v)[q]) by {
                if self.has(q) {
                    let j = choose|j: int| 0 <= j < self.entries@.len() && #[trigger] self.entries@[j].0@ == q;
                    self.lemma_entry(j);
                    if j != i {
                        before.lemma_entry(j);
                    }
                }
                if before.has(q) {
                    let j = choose|j: int| 0 <= j < before.entries@.len() && #[trigger] before.entries@[j].0@ == q;
                    assert(self.entries@[j].0 == before.entries@[j].0);
                }
            }
            assert(self.map() =~= before.map().insert(kv, v));
        }
    }
}


/// The first `n` entries as a map.
pub open spec fn prefix_map<V>(es: Seq<(String, V)>, n: int) -> Map<Seq<char>, V> {
    Map::new(
        |k: Seq<char>| exists|i: int| 0 <= i < n && #[trigger] es[i].0@ == k,
        |k: Seq<char>| es[choose|i: int| 0 <= i < n && #[trigger] es[i].0@ == k].1,
    )
}

proof fn lemma_prefix_map_step<V>(es: Seq<(String, V)>, n: int)
    requires
        keys_ordered(es),
        0 <= n < es.len(),
    ensures
        prefix_map(es, n + 1) == prefix_map(es, n).insert(es[n].0@, es[n].1),
{
    let a = prefix_map(es, n + 1);
    let b = prefix_map(es, n).insert(es[n].0@, es[n].1);
    assert forall|k: Seq<char>| #[trigger] a.contains_key(k) == b.contains_key(k) && (a.contains_key(k) ==> a[k] == b[k]) by {
        if a.contains_key(k) {
            let i = choose|i: int| 0 <= i < n + 1 && #[trigger] es[i].0@ == k;
            if i < n {
                assert(prefix_map(es, n).contains_key(k));
            }
            if k == es[n].0@ {
                if i != n {
                    assert(text_lt(es[i].0@, es[n].0@));
                    lemma_text_lt_irreflexive(k);
                }
            } else {
                let j = choose|j: int| 0 <= j < n && #[trigger] es[j].0@ == k;
                if i != j {
                    if i < j {
                        assert(text_lt(es[i].0@, es[j].0@));
                    } else {
                        assert(text_lt(es[j].0@, es[i].0@));
                    }
                    lemma_text_lt_irreflexive(k);
                }
            }
        }
        if b.contains_key(k) {
            if k == es[n].0@ {
                assert(es[n].0@ == k);
            } else {
                let j = choose|j: int| 0 <= j < n && #[trigger] es[j].0@ == k;
                assert(es[j].0@ == k);
            }
        }
    }
    assert(a =~= b);
}

impl<V> Keyed<V> {
    proof fn lemma_map_is_prefix_map(&self)
        requires
            self.wf(),
        ensures
            self.map() == prefix_map(self.entries@, self.entries@.len() as int),
    {
        let es = self.entries@;
        let a = self.map();
        let b = prefix_map(es, es.len() as int);
        assert forall|k: Seq<char>| #[trigger] a.contains_key(k) == b.contains_key(k) && (a.contains_key(k) ==> a[k] == b[k]) by {
            if a.contains_key(k) {
                let i = self.index_of(k);
                assert(es[i].0@ == k);
                let j = choose|j: int| 0 <= j < es.len() && #[trigger] es[j].0@ == k;
                self.lemma_entry(j);
            }
        }
        assert(a =~= b);
    }

    /// Adds the other entries, replacing values of keys both hold.
    pub fn extend(&mut self, other: Keyed<V>)
        requires
            old(self).wf(),
            other.wf(),
        ensures
            final(self).wf(),
            final(self).map() == old(self).map().union_prefer_right(other.map()),
    {
        let ghost es = other.entries@;
        let ghost start = self.map();
        proof {
            other.lemma_map_is_prefix_map();
            assert(prefix_map(es, 0) =~= Map::<Seq<char>, V>::empty());
            assert(start.union_prefer_right(prefix_map(es, 0)) =~= start);
        }
        let mut rest = other.entries;
        let n = rest.len();
        let mut j: usize = 0;
        while rest.len() > 0
            invariant
                self.wf(),
                n == es.len(),
                keys_ordered(es),
                j + rest@.len() == es.len(),
                rest@ == es.skip(j as int),
                self.map() == start.union_prefer_right(prefix_map(es, j as int)),
            decreases rest.len(),
        {
            assert(rest@[0] == es[j as int]);
            let (k, v) = rest.remove(0);
            assert(rest@ =~= es.skip(j + 1));
            proof {
                lemma_prefix_map_step(es, j as int);
            }
            match self.locate(k.as_str()) {
                Ok(i) => {
                    proof {
                        self.lemma_entry(i as int);
                    }
                    self.replace(i, v);
                },
                Err(p) => {
                    self.put_new(p, k, v);
                },
            }
            proof {
                assert(self.map() =~= start.union_prefer_right(prefix_map(es, j + 1)));
            }
            j += 1;
        }
    }
}


impl<V> Keyed<V> {
    /// Sets the value of a key.
    pub fn set(&mut self, k: String, v: V)
        requires
            old(self).wf(),
        ensures
            final(self).wf(),
            final(self).map() == old(self).map().insert(k@, v),
    {
        match self.locate(k.as_str()) {
            Ok(i) => {
                proof {
                    self.lemma_entry(i as int);
                }
                self.replace(i, v);
            },
            Err(p) => {
                self.put_new(p, k, v);
            },
        }
    }

    /// The values in key order.
    pub fn into_values(self) -> (r: Vec<V>)
        ensures
            r@.len() == self.entries@.len(),
            forall|i: int| 0 <= i < r@.len() ==> #[trigger] r@[i] == self.entries@[i].1,
    {
        let ghost es = self.entries@;
        let mut rest = self.entries;
        let mut out: Vec<V> = Vec::new();
        while rest.len() > 0
            invariant
                out@.len() + rest@.len() == es.len(),
                rest@ == es.skip(out@.len() as int),
                forall|i: int| 0 <= i < out@.len() ==> #[trigger] out@[i] == es[i].1,
            decreases rest.len(),
        {
            assert(rest@[0] == es[out@.len() as int]);
            let ghost k: int = out@.len() as int;
            let (_, v) = rest.remove(0);
            assert(rest@ =~= es.skip(k + 1));
            out.push(v);
        }
        out
    }
}

/// A copy of text-keyed text.
pub fn copy_texts(k: &Keyed<String>) -> (r: Keyed<String>)
    ensures
        r.entries@ == k.entries@,
{
    let mut entries: Vec<(String, String)> = Vec::new();
    let mut i: usize = 0;
    while i < k.entries.len()
        invariant
            i <= k.entries@.len(),
            entries@ == k.entries@.take(i as int),
        decreases k.entries.len() - i,
    {
        let e = &k.entries[i];
        entries.push((e.0.clone(), e.1.clone()));
        assert(k.entries@.take(i + 1) =~= k.entries@.take(i as int).push(k.entries@[i as int]));
        i += 1;
    }
    assert(k.entries@.take(i as int) =~= k.entries@);
    Keyed { entries }
}

} // verus!
