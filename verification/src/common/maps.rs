//! Small maps kept as lists of pairs, keyed by numbers or by names.
use vstd::prelude::*;

verus! {

/// A map from numeric ids to values; each id occurs at most once.
#[derive(Debug)]
pub struct IdMap<V> {
    pub entries: Vec<(usize, V)>,
}

impl<V> IdMap<V> {
    pub open spec fn keys_unique(self) -> bool {
        forall|i: int, j: int|
            0 <= i < j < self.entries@.len() ==> #[trigger] self.entries@[i].0 != #[trigger] self.entries@[j].0
    }

    /// The id `k` has an entry.
    pub open spec fn has(self, k: usize) -> bool {
        exists|i: int| 0 <= i < self.entries@.len() && #[trigger] self.entries@[i].0 == k
    }

    /// The value of the entry of `k`.
    pub open spec fn value(self, k: usize) -> V {
        self.entries@[choose|i: int| 0 <= i < self.entries@.len() && #[trigger] self.entries@[i].0 == k].1
    }

    pub proof fn lemma_value(self, i: int)
        requires
            self.keys_unique(),
            0 <= i < self.entries@.len(),
        ensures
            self.has(self.entries@[i].0),
            self.value(self.entries@[i].0) == self.entries@[i].1,
    {
        let k = self.entries@[i].0;
        let j = choose|j: int| 0 <= j < self.entries@.len() && #[trigger] self.entries@[j].0 == k;
        assert(self.entries@[j].0 == k);
        if i < j {
            assert(self.entries@[i].0 != self.entries@[j].0);
        } else if j < i {
            assert(self.entries@[j].0 != self.entries@[i].0);
        }
    }

    /// The entries as a map.
    pub open spec fn as_map(self) -> Map<usize, V> {
        Map::new(|k: usize| self.has(k), |k: usize| self.value(k))
    }

    pub fn new() -> (res: Self)
        ensures
            res.keys_unique(),
            res.entries@.len() == 0,
            forall|k: usize| !res.has(k),
    {
        IdMap { entries: Vec::new() }
    }

    /// The position of the entry of `k`.
    pub fn index_of(&self, k: usize) -> (res: Option<usize>)
        requires
            self.keys_unique(),
        ensures
            match res {
                Some(i) => i < self.entries@.len() && self.entries@[i as int].0 == k && self.has(k),
                None => !self.has(k),
            },
    {
        let n = self.entries.len();
        let mut i: usize = 0;
        while i < n
            invariant
                n == self.entries@.len(),
                i <= n,
                forall|j: int| 0 <= j < i ==> self.entries@[j].0 != k,
            decreases n - i,
        {
            if self.entries[i].0 == k {
                return Some(i);
            }
            i = i + 1;
        }
        None
    }

    pub fn get(&self, k: usize) -> (res: Option<&V>)
        requires
            self.keys_unique(),
        ensures
            self.has(k) ==> res == Some(&self.value(k)),
            !self.has(k) ==> res is None,
    {
        match self.index_of(k) {
            Some(i) => {
                proof {
                    self.lemma_value(i as int);
                }
                Some(&self.entries[i].1)
            },
            None => None,
        }
    }

    pub fn contains_key(&self, k: usize) -> (res: bool)
        requires
            self.keys_unique(),
        ensures
            res == self.has(k),
    {
        self.index_of(k).is_some()
    }

    /// Sets the value of `k`, handing back the value it had.
    pub fn insert(&mut self, k: usize, v: V) -> (res: Option<V>)
        requires
            old(self).keys_unique(),
        ensures
            final(self).keys_unique(),
            final(self).has(k),
            final(self).value(k) == v,
            res is Some <==> old(self).has(k),
            old(self).has(k) ==> res == Some(old(self).value(k)),
            forall|j: usize| j != k ==> (final(self).has(j) == old(self).has(j)),
            forall|j: usize| j != k && old(self).has(j) ==> final(self).value(j) == old(self).value(j),
            !old(self).has(k) ==> final(self).entries@ == old(self).entries@.push((k, v)),
    {
        let ghost old_map = *self;
        match self.index_of(k) {
            Some(i) => {
                proof {
                    old_map.lemma_value(i as int);
                }
                let (_, old_v) = self.entries.remove(i);
                self.entries.insert(i, (k, v));
                proof {
                    assert(self.entries@ =~= old_map.entries@.update(i as int, (k, v)));
                    assert forall|a: int, b: int| 0 <= a < b < self.entries@.len() implies #[trigger] self.entries@[a].0
                        != #[trigger] self.entries@[b].0 by {
                        assert(old_map.entries@[a].0 != old_map.entries@[b].0);
                    }
                    self.lemma_value(i as int);
                    assert forall|j: usize| j != k implies (self.has(j) == old_map.has(j)) by {
                        if self.has(j) {
                            let x = choose|x: int| 0 <= x < self.entries@.len() && #[trigger] self.entries@[x].0 == j;
                            assert(old_map.entries@[x].0 == j);
                        }
                        if old_map.has(j) {
                            let x = choose|x: int| 0 <= x < old_map.entries@.len() && #[trigger] old_map.entries@[x].0 == j;
                            assert(self.entries@[x].0 == j);
                        }
                    }
                    assert forall|j: usize| j != k && old_map.has(j) implies self.value(j) == old_map.value(j) by {
                        let x = choose|x: int| 0 <= x < old_map.entries@.len() && #[trigger] old_map.entries@[x].0 == j;
                        old_map.lemma_value(x);
                        self.lemma_value(x);
                    }
                }
                Some(old_v)
            },
            None => {
                self.entries.push((k, v));
                proof {
                    let n = old_map.entries@.len();
                    assert forall|a: int, b: int| 0 <= a < b < self.entries@.len() implies #[trigger] self.entries@[a].0
                        != #[trigger] self.entries@[b].0 by {
                        if b == n {
                            assert(old_map.entries@[a].0 == self.entries@[a].0);
                            if self.entries@[a].0 == k {
                                assert(old_map.has(k));
                            }
                        } else {
                            assert(old_map.entries@[a].0 != old_map.entries@[b].0);
                        }
                    }
                    self.lemma_value(n as int);
                    assert forall|j: usize| j != k implies (self.has(j) == old_map.has(j)) by {
                        if self.has(j) {
                            let x = choose|x: int| 0 <= x < self.entries@.len() && #[trigger] self.entries@[x].0 == j;
                            assert(old_map.entries@[x].0 == j);
                        }
                        if old_map.has(j) {
                            let x = choose|x: int| 0 <= x < old_map.entries@.len() && #[trigger] old_map.entries@[x].0 == j;
                            assert(self.entries@[x].0 == j);
                        }
                    }
                    assert forall|j: usize| j != k && old_map.has(j) implies self.value(j) == old_map.value(j) by {
                        let x = choose|x: int| 0 <= x < old_map.entries@.len() && #[trigger] old_map.entries@[x].0 == j;
                        old_map.lemma_value(x);
                        self.lemma_value(x);
                    }
                }
                None
            },
        }
    }

    /// Removes the entry of `k`, handing back its value.
    pub fn remove(&mut self, k: usize) -> (res: Option<V>)
        requires
            old(self).keys_unique(),
        ensures
            final(self).keys_unique(),
            !final(self).has(k),
            res is Some <==> old(self).has(k),
            old(self).has(k) ==> res == Some(old(self).value(k)),
            forall|j: usize| j != k ==> (final(self).has(j) == old(self).has(j)),
            forall|j: usize| j != k && old(self).has(j) ==> final(self).value(j) == old(self).value(j),
    {
        let ghost old_map = *self;
        match self.index_of(k) {
            Some(i) => {
                proof {
                    old_map.lemma_value(i as int);
                }
                let (_, v) = self.entries.remove(i);
                proof {
                    let n = old_map.entries@.len();
                    assert forall|a: int| 0 <= a < self.entries@.len() implies #[trigger] self.entries@[a] == if a < i {
                        old_map.entries@[a]
                    } else {
                        old_map.entries@[a + 1]
                    } by {}
                    assert forall|a: int, b: int| 0 <= a < b < self.entries@.len() implies #[trigger] self.entries@[a].0
                        != #[trigger] self.entries@[b].0 by {
                        let a2 = if a < i { a } else { a + 1 };
                        let b2 = if b < i { b } else { b + 1 };
                        assert(old_map.entries@[a2].0 != old_map.entries@[b2].0);
                    }
                    assert(!self.has(k)) by {
                        if self.has(k) {
                            let x = choose|x: int| 0 <= x < self.entries@.len() && #[trigger] self.entries@[x].0 == k;
                            let x2 = if x < i { x } else { x + 1 };
                            assert(old_map.entries@[x2].0 == k);
                            assert(x2 != i);
                            if x2 < i {
                                assert(old_map.entries@[x2].0 != old_map.entries@[i as int].0);
                            } else {
                                assert(old_map.entries@[i as int].0 != old_map.entries@[x2].0);
                            }
                        }
                    }
                    assert forall|j: usize| j != k implies (self.has(j) == old_map.has(j)) by {
                        if self.has(j) {
                            let x = choose|x: int| 0 <= x < self.entries@.len() && #[trigger] self.entries@[x].0 == j;
                            let x2 = if x < i { x } else { x + 1 };
                            assert(old_map.entries@[x2].0 == j);
                        }
                        if old_map.has(j) {
                            let x = choose|x: int| 0 <= x < old_map.entries@.len() && #[trigger] old_map.entries@[x].0 == j;
                            assert(x != i);
                            let x3 = if x < i { x } else { x - 1 };
                            assert(self.entries@[x3].0 == j);
                        }
                    }
                    assert forall|j: usize| j != k && old_map.has(j) implies self.value(j) == old_map.value(j) by {
                        let x = choose|x: int| 0 <= x < old_map.entries@.len() && #[trigger] old_map.entries@[x].0 == j;
                        assert(x != i);
                        let x3 = if x < i { x } else { x - 1 };
                        old_map.lemma_value(x);
                        self.lemma_value(x3);
                    }
                }
                Some(v)
            },
            None => None,
        }
    }

    /// Whether no id occurs twice.
    pub fn keys_are_unique(&self) -> (res: bool)
        ensures
            res == self.keys_unique(),
    {
        let n = self.entries.len();
        let mut i: usize = 0;
        while i < n
            invariant
                n == self.entries@.len(),
                i <= n,
                forall|a: int, b: int| 0 <= a < b < n && a < i ==> #[trigger] self.entries@[a].0 != #[trigger] self.entries@[b].0,
            decreases n - i,
        {
            let mut j: usize = i + 1;
            while j < n
                invariant
                    n == self.entries@.len(),
                    i < n,
                    i < j <= n,
                    forall|a: int, b: int| 0 <= a < b < n && a < i ==> #[trigger] self.entries@[a].0 != #[trigger] self.entries@[b].0,
                    forall|b: int| i < b < j ==> self.entries@[i as int].0 != #[trigger] self.entries@[b].0,
                decreases n - j,
            {
                if self.entries[i].0 == self.entries[j].0 {
                    return false;
                }
                j = j + 1;
            }
            i = i + 1;
        }
        true
    }

    /// The number of entries.
    pub fn len(&self) -> (res: usize)
        ensures
            res == self.entries@.len(),
    {
        self.entries.len()
    }
}

/// A map from names to values; each name occurs at most once.
#[derive(Debug)]
pub struct NameMap<V> {
    pub entries: Vec<(String, V)>,
}

impl<V> NameMap<V> {
    pub open spec fn keys_unique(self) -> bool {
        forall|i: int, j: int|
            0 <= i < j < self.entries@.len() ==> #[trigger] self.entries@[i].0@ != #[trigger] self.entries@[j].0@
    }

    /// The id `k` has an entry.
    pub open spec fn has(self, k: Seq<char>) -> bool {
        exists|i: int| 0 <= i < self.entries@.len() && #[trigger] self.entries@[i].0@ == k
    }

    /// The value of the entry of `k`.
    pub open spec fn value(self, k: Seq<char>) -> V {
        self.entries@[choose|i: int| 0 <= i < self.entries@.len() && #[trigger] self.entries@[i].0@ == k].1
    }

    pub proof fn lemma_value(self, i: int)
        requires
            self.keys_unique(),
            0 <= i < self.entries@.len(),
        ensures
            self.has(self.entries@[i].0@),
            self.value(self.entries@[i].0@) == self.entries@[i].1,
    {
        let k = self.entries@[i].0@;
        let j = choose|j: int| 0 <= j < self.entries@.len() && #[trigger] self.entries@[j].0@ == k;
        assert(self.entries@[j].0@ == k);
        if i < j {
            assert(self.entries@[i].0@ != self.entries@[j].0@);
        } else if j < i {
            assert(self.entries@[j].0@ != self.entries@[i].0@);
        }
    }

    pub fn new() -> (res: Self)
        ensures
            res.keys_unique(),
            res.entries@.len() == 0,
            forall|k: Seq<char>| !res.has(k),
    {
        NameMap { entries: Vec::new() }
    }

    /// The position of the entry of `k`.
    pub fn index_of(&self, k: &str) -> (res: Option<usize>)
        requires
            self.keys_unique(),
        ensures
            match res {
                Some(i) => i < self.entries@.len() && self.entries@[i as int].0@ == k@ && self.has(k@),
                None => !self.has(k@),
            },
    {
        let n = self.entries.len();
        let mut i: usize = 0;
        while i < n
            invariant
                n == self.entries@.len(),
                i <= n,
                forall|j: int| 0 <= j < i ==> self.entries@[j].0@ != k@,
            decreases n - i,
        {
            if crate::common::str_eq(self.entries[i].0.as_str(), k) {
                return Some(i);
            }
            i = i + 1;
        }
        None
    }

    pub fn get(&self, k: &str) -> (res: Option<&V>)
        requires
            self.keys_unique(),
        ensures
            self.has(k@) ==> res == Some(&self.value(k@)),
            !self.has(k@) ==> res is None,
    {
        match self.index_of(k) {
            Some(i) => {
                proof {
                    self.lemma_value(i as int);
                }
                Some(&self.entries[i].1)
            },
            None => None,
        }
    }

    pub fn contains_key(&self, k: &str) -> (res: bool)
        requires
            self.keys_unique(),
        ensures
            res == self.has(k@),
    {
        self.index_of(k).is_some()
    }

    /// Sets the value of `k`, handing back the value it had.
    pub fn insert(&mut self, k: String, v: V) -> (res: Option<V>)
        requires
            old(self).keys_unique(),
        ensures
            final(self).keys_unique(),
            final(self).has(k@),
            final(self).value(k@) == v,
            res is Some <==> old(self).has(k@),
            old(self).has(k@) ==> res == Some(old(self).value(k@)),
            forall|j: Seq<char>| j != k@ ==> (final(self).has(j) == old(self).has(j)),
            forall|j: Seq<char>| j != k@ && old(self).has(j) ==> final(self).value(j) == old(self).value(j),
            !old(self).has(k@) ==> final(self).entries@ == old(self).entries@.push((k, v)),
    {
        let ghost old_map = *self;
        match self.index_of(k.as_str()) {
            Some(i) => {
                proof {
                    old_map.lemma_value(i as int);
                }
                let (_, old_v) = self.entries.remove(i);
                let ghost kv = k@;
                self.entries.insert(i, (k, v));
                proof {
                    assert forall|a: int, b: int| 0 <= a < b < self.entries@.len() implies #[trigger] self.entries@[a].0@
                        != #[trigger] self.entries@[b].0@ by {
                        assert(old_map.entries@[a].0@ != old_map.entries@[b].0@);
                    }
                    self.lemma_value(i as int);
                    assert forall|j: Seq<char>| j != k@ implies (self.has(j) == old_map.has(j)) by {
                        if self.has(j) {
                            let x = choose|x: int| 0 <= x < self.entries@.len() && #[trigger] self.entries@[x].0@ == j;
                            assert(old_map.entries@[x].0@ == j);
                        }
                        if old_map.has(j) {
                            let x = choose|x: int| 0 <= x < old_map.entries@.len() && #[trigger] old_map.entries@[x].0@ == j;
                            assert(self.entries@[x].0@ == j);
                        }
                    }
                    assert forall|j: Seq<char>| j != k@ && old_map.has(j) implies self.value(j) == old_map.value(j) by {
                        let x = choose|x: int| 0 <= x < old_map.entries@.len() && #[trigger] old_map.entries@[x].0@ == j;
                        old_map.lemma_value(x);
                        self.lemma_value(x);
                    }
                }
                Some(old_v)
            },
            None => {
                let ghost kv = k@;
                self.entries.push((k, v));
                proof {
                    let n = old_map.entries@.len();
                    assert forall|a: int, b: int| 0 <= a < b < self.entries@.len() implies #[trigger] self.entries@[a].0@
                        != #[trigger] self.entries@[b].0@ by {
                        if b == n {
                            assert(old_map.entries@[a].0 == self.entries@[a].0);
                            if self.entries@[a].0@ == k@ {
                                assert(old_map.has(k@));
                            }
                        } else {
                            assert(old_map.entries@[a].0@ != old_map.entries@[b].0@);
                        }
                    }
                    self.lemma_value(n as int);
                    assert forall|j: Seq<char>| j != k@ implies (self.has(j) == old_map.has(j)) by {
                        if self.has(j) {
                            let x = choose|x: int| 0 <= x < self.entries@.len() && #[trigger] self.entries@[x].0@ == j;
                            assert(old_map.entries@[x].0@ == j);
                        }
                        if old_map.has(j) {
                            let x = choose|x: int| 0 <= x < old_map.entries@.len() && #[trigger] old_map.entries@[x].0@ == j;
                            assert(self.entries@[x].0@ == j);
                        }
                    }
                    assert forall|j: Seq<char>| j != k@ && old_map.has(j) implies self.value(j) == old_map.value(j) by {
                        let x = choose|x: int| 0 <= x < old_map.entries@.len() && #[trigger] old_map.entries@[x].0@ == j;
                        old_map.lemma_value(x);
                        self.lemma_value(x);
                    }
                }
                None
            },
        }
    }

    /// Whether no name occurs twice.
    pub fn keys_are_unique(&self) -> (res: bool)
        ensures
            res == self.keys_unique(),
    {
        let n = self.entries.len();
        let mut i: usize = 0;
        while i < n
            invariant
                n == self.entries@.len(),
                i <= n,
                forall|a: int, b: int| 0 <= a < b < n && a < i ==> #[trigger] self.entries@[a].0@ != #[trigger] self.entries@[b].0@,
            decreases n - i,
        {
            let mut j: usize = i + 1;
            while j < n
                invariant
                    n == self.entries@.len(),
                    i < n,
                    i < j <= n,
                    forall|a: int, b: int| 0 <= a < b < n && a < i ==> #[trigger] self.entries@[a].0@ != #[trigger] self.entries@[b].0@,
                    forall|b: int| i < b < j ==> self.entries@[i as int].0@ != #[trigger] self.entries@[b].0@,
                decreases n - j,
            {
                if crate::common::str_eq(self.entries[i].0.as_str(), self.entries[j].0.as_str()) {
                    return false;
                }
                j = j + 1;
            }
            i = i + 1;
        }
        true
    }

    /// Takes out the value of `k`, if it has one.
    pub fn remove(&mut self, k: &str) -> (res: Option<V>)
        requires
            old(self).keys_unique(),
        ensures
            final(self).keys_unique(),
            !final(self).has(k@),
            old(self).has(k@) ==> res == Some(old(self).value(k@)),
            !old(self).has(k@) ==> res is None && final(self).entries@ == old(self).entries@,
            forall|j: Seq<char>| j != k@ ==> (final(self).has(j) == old(self).has(j)),
            forall|j: Seq<char>| j != k@ && old(self).has(j) ==> final(self).value(j) == old(self).value(j),
            final(self).entries@.len() <= old(self).entries@.len(),
    {
        let ghost old_map = *self;
        match self.index_of(k) {
            Some(i) => {
                proof {
                    old_map.lemma_value(i as int);
                }
                let (_, v) = self.entries.remove(i);
                proof {
                    assert forall|a: int, b: int| 0 <= a < b < self.entries@.len() implies #[trigger] self.entries@[a].0@
                        != #[trigger] self.entries@[b].0@ by {
                        let a2 = if a < i { a } else { a + 1 };
                        let b2 = if b < i { b } else { b + 1 };
                        assert(old_map.entries@[a2].0@ != old_map.entries@[b2].0@);
                    }
                    assert(!self.has(k@)) by {
                        if self.has(k@) {
                            let x = choose|x: int| 0 <= x < self.entries@.len() && #[trigger] self.entries@[x].0@ == k@;
                            let x2 = if x < i { x } else { x + 1 };
                            assert(old_map.entries@[x2].0@ == k@);
                            assert(old_map.entries@[i as int].0@ == k@);
                        }
                    }
                    assert forall|j: Seq<char>| j != k@ implies (self.has(j) == old_map.has(j)) by {
                        if self.has(j) {
                            let x = choose|x: int| 0 <= x < self.entries@.len() && #[trigger] self.entries@[x].0@ == j;
                            let x2 = if x < i { x } else { x + 1 };
                            assert(old_map.entries@[x2].0@ == j);
                        }
                        if old_map.has(j) {
                            let x = choose|x: int| 0 <= x < old_map.entries@.len() && #[trigger] old_map.entries@[x].0@ == j;
                            assert(x != i);
                            let x2 = if x < i { x } else { x - 1 };
                            assert(self.entries@[x2].0@ == j);
                        }
                    }
                    assert forall|j: Seq<char>| j != k@ && old_map.has(j) implies self.value(j) == old_map.value(j) by {
                        let x = choose|x: int| 0 <= x < old_map.entries@.len() && #[trigger] old_map.entries@[x].0@ == j;
                        assert(x != i);
                        let x2 = if x < i { x } else { x - 1 };
                        old_map.lemma_value(x);
                        self.lemma_value(x2);
                    }
                }
                Some(v)
            },
            None => None,
        }
    }

    /// The number of entries.
    pub fn len(&self) -> (res: usize)
        ensures
            res == self.entries@.len(),
    {
        self.entries.len()
    }
}

} // verus!
