//! Small maps and sets kept in vectors, keyed by values whose view decides
//! equality (strings, addresses, service names).
use vstd::prelude::*;

verus! {

/// Keys that can be compared in executable code, in agreement with their view.
pub trait KeyEq: View + Sized {
    /// Whether two keys have the same view.
    fn key_eq(&self, other: &Self) -> (b: bool)
        ensures
            b == (self@ == other@),
    ;

    /// A copy of the key.
    fn key_clone(&self) -> (c: Self)
        ensures
            c@ == self@,
    ;
}

impl KeyEq for String {
    fn key_eq(&self, other: &Self) -> (b: bool) {
        *self == *other
    }

    fn key_clone(&self) -> (c: Self) {
        self.clone()
    }
}

impl KeyEq for () {
    fn key_eq(&self, other: &Self) -> (b: bool) {
        true
    }

    fn key_clone(&self) -> (c: Self) {
        ()
    }
}

impl KeyEq for u32 {
    fn key_eq(&self, other: &Self) -> (b: bool) {
        *self == *other
    }

    fn key_clone(&self) -> (c: Self) {
        *self
    }
}

impl KeyEq for u128 {
    fn key_eq(&self, other: &Self) -> (b: bool) {
        *self == *other
    }

    fn key_clone(&self) -> (c: Self) {
        *self
    }
}

/// No two entries of `s` have keys with the same view.
pub open spec fn keys_unique<K: View, V>(s: Seq<(K, V)>) -> bool {
    forall|i: int, j: int|
        #![trigger s[i], s[j]]
        0 <= i < s.len() && 0 <= j < s.len() && i != j ==> s[i].0@ != s[j].0@
}

/// The map that a list of entries stands for.
pub open spec fn map_of<K: View, V: View>(s: Seq<(K, V)>) -> Map<K::V, V::V>
    decreases s.len(),
{
    if s.len() == 0 {
        Map::empty()
    } else {
        map_of(s.drop_last()).insert(s.last().0@, s.last().1@)
    }
}

/// What the map of a list of entries with unique keys holds.
pub proof fn lemma_map_of_entries<K: View, V: View>(s: Seq<(K, V)>)
    requires
        keys_unique(s),
    ensures
        map_of(s).dom().finite(),
        map_of(s).len() == s.len(),
        forall|i: int|
            0 <= i < s.len() ==> #[trigger] map_of(s).contains_key(s[i].0@) && map_of(s)[s[i].0@]
                == s[i].1@,
        forall|k: K::V|
            #[trigger] map_of(s).contains_key(k) ==> exists|i: int| 0 <= i < s.len() && s[i].0@ == k,
    decreases s.len(),
{
    if s.len() > 0 {
        let t = s.drop_last();
        assert(keys_unique(t));
        lemma_map_of_entries(t);
        let last = s.last();
        assert(!map_of(t).contains_key(last.0@)) by {
            if map_of(t).contains_key(last.0@) {
                let i = choose|i: int| 0 <= i < t.len() && t[i].0@ == last.0@;
                assert(s[i].0@ != s[s.len() - 1].0@);
            }
        }
        assert forall|i: int| 0 <= i < s.len() implies #[trigger] map_of(s).contains_key(s[i].0@)
            && map_of(s)[s[i].0@] == s[i].1@ by {
            if i < s.len() - 1 {
                assert(t[i] == s[i]);
                assert(s[i].0@ != s[s.len() - 1].0@);
            }
        }
        assert forall|k: K::V| #[trigger] map_of(s).contains_key(k) implies exists|i: int|
            0 <= i < s.len() && s[i].0@ == k by {
            if k != last.0@ {
                assert(map_of(t).contains_key(k));
                let i = choose|i: int| 0 <= i < t.len() && t[i].0@ == k;
                assert(s[i] == t[i]);
            } else {
                assert(s[s.len() - 1].0@ == k);
            }
        }
    }
}

/// Replacing the value of an entry.
pub proof fn lemma_map_of_update<K: View, V: View>(s: Seq<(K, V)>, i: int, e: (K, V))
    requires
        keys_unique(s),
        0 <= i < s.len(),
        s[i].0@ == e.0@,
    ensures
        keys_unique(s.update(i, e)),
        map_of(s.update(i, e)) == map_of(s).insert(e.0@, e.1@),
{
    let t = s.update(i, e);
    assert(keys_unique(t)) by {
        assert forall|a: int, b: int|
            0 <= a < t.len() && 0 <= b < t.len() && a != b implies #[trigger] t[a].0@
            != #[trigger] t[b].0@ by {
            assert(s[a].0@ != s[b].0@);
        }
    }
    lemma_map_of_entries(s);
    lemma_map_of_entries(t);
    assert forall|k: K::V| #[trigger] map_of(t).contains_key(k) implies map_of(s).insert(
        e.0@,
        e.1@,
    ).contains_key(k) && map_of(t)[k] == map_of(s).insert(e.0@, e.1@)[k] by {
        let j = choose|j: int| 0 <= j < t.len() && t[j].0@ == k;
        if j != i {
            assert(t[j] == s[j]);
            assert(map_of(s).contains_key(s[j].0@));
        }
    }
    assert forall|k: K::V| #[trigger] map_of(s).insert(e.0@, e.1@).contains_key(k) implies map_of(
        t,
    ).contains_key(k) by {
        if k != e.0@ {
            let j = choose|j: int| 0 <= j < s.len() && s[j].0@ == k;
            assert(t[j] == s[j]);
        } else {
            assert(t[i] == e);
        }
    }
    assert(map_of(t) =~= map_of(s).insert(e.0@, e.1@));
}

/// Taking out an entry.
pub proof fn lemma_map_of_remove<K: View, V: View>(s: Seq<(K, V)>, i: int)
    requires
        keys_unique(s),
        0 <= i < s.len(),
    ensures
        keys_unique(s.remove(i)),
        map_of(s.remove(i)) == map_of(s).remove(s[i].0@),
{
    let t = s.remove(i);
    assert(keys_unique(t)) by {
        assert forall|a: int, b: int|
            0 <= a < t.len() && 0 <= b < t.len() && a != b implies #[trigger] t[a].0@
            != #[trigger] t[b].0@ by {
            let sa = if a < i { a } else { a + 1 };
            let sb = if b < i { b } else { b + 1 };
            assert(t[a] == s[sa] && t[b] == s[sb]);
            assert(s[sa].0@ != s[sb].0@);
        }
    }
    lemma_map_of_entries(s);
    lemma_map_of_entries(t);
    assert forall|k: K::V| #[trigger] map_of(t).contains_key(k) implies map_of(s).remove(
        s[i].0@,
    ).contains_key(k) && map_of(t)[k] == map_of(s)[k] by {
        let j = choose|j: int| 0 <= j < t.len() && t[j].0@ == k;
        let sj = if j < i { j } else { j + 1 };
        assert(t[j] == s[sj]);
        assert(s[sj].0@ != s[i].0@);
        assert(map_of(s).contains_key(s[sj].0@));
    }
    assert forall|k: K::V| #[trigger] map_of(s).remove(s[i].0@).contains_key(k) implies map_of(
        t,
    ).contains_key(k) by {
        let j = choose|j: int| 0 <= j < s.len() && s[j].0@ == k;
        assert(j != i);
        let tj = if j < i { j } else { j - 1 };
        assert(t[tj] == s[j]);
    }
    assert(map_of(t) =~= map_of(s).remove(s[i].0@));
}


/// The map of any list of entries holds, for each key, the value of the last
/// entry with that key.
pub proof fn lemma_map_of_last<K: View, V: View>(s: Seq<(K, V)>, k: K::V)
    ensures
        map_of(s).contains_key(k) <==> exists|i: int| 0 <= i < s.len() && #[trigger] s[i].0@ == k,
        forall|i: int|
            0 <= i < s.len() && #[trigger] s[i].0@ == k && (forall|j: int|
                i < j < s.len() ==> s[j].0@ != k) ==> map_of(s)[k] == s[i].1@,
    decreases s.len(),
{
    if s.len() > 0 {
        let t = s.drop_last();
        lemma_map_of_last(t, k);
        if s.last().0@ != k {
            assert forall|i: int| 0 <= i < t.len() && #[trigger] t[i].0@ == k implies s[i].0@ == k by {
            }
            assert forall|i: int| 0 <= i < s.len() && #[trigger] s[i].0@ == k implies i < t.len()
                && t[i].0@ == k by {
            }
        } else {
            assert(s[s.len() - 1].0@ == k);
        }
    }
}

/// The position of the last entry of `s` with key `k`.
fn last_index_of<K: KeyEq, V>(s: &Vec<(K, V)>, k: &K) -> (r: Option<usize>)
    ensures
        r is None ==> forall|j: int| 0 <= j < s@.len() ==> #[trigger] s@[j].0@ != k@,
        r matches Some(i) ==> i < s@.len() && s@[i as int].0@ == k@ && forall|j: int|
            i < j < s@.len() ==> #[trigger] s@[j].0@ != k@,
{
    let mut i = s.len();
    while i > 0
        invariant
            i <= s@.len(),
            forall|j: int| i <= j < s@.len() ==> #[trigger] s@[j].0@ != k@,
        decreases i,
    {
        if s[i - 1].0.key_eq(k) {
            return Some(i - 1);
        }
        i = i - 1;
    }
    None
}

/// Whether every key of `a` is a key of `b` with an equal value.
fn entries_within<K: KeyEq, V: KeyEq>(a: &Vec<(K, V)>, b: &Vec<(K, V)>) -> (r: bool)
    ensures
        r == (forall|k: K::V|
            #[trigger] map_of(a@).contains_key(k) ==> map_of(b@).contains_key(k) && map_of(b@)[k]
                == map_of(a@)[k]),
{
    let mut i: usize = 0;
    while i < a.len()
        invariant
            i <= a@.len(),
            forall|j: int|
                0 <= j < i ==> (map_of(b@).contains_key(#[trigger] a@[j].0@) && map_of(b@)[a@[j].0@]
                    == map_of(a@)[a@[j].0@]),
        decreases a@.len() - i,
    {
        let key = &a[i].0;
        proof {
            lemma_map_of_last(a@, key@);
            lemma_map_of_last(b@, key@);
        }
        let ia = last_index_of(a, key);
        let ib = last_index_of(b, key);
        match (ia, ib) {
            (Some(x), Some(y)) => {
                if !a[x].1.key_eq(&b[y].1) {
                    return false;
                }
            },
            _ => {
                return false;
            },
        }
        i = i + 1;
    }
    proof {
        assert forall|k: K::V| #[trigger] map_of(a@).contains_key(k) implies map_of(b@).contains_key(
            k,
        ) && map_of(b@)[k] == map_of(a@)[k] by {
            lemma_map_of_last(a@, k);
            let j = choose|j: int| 0 <= j < a@.len() && #[trigger] a@[j].0@ == k;
            assert(a@[j].0@ == k);
        }
    }
    true
}

/// A map kept as a vector of entries with unique keys.
#[derive(Debug)]
pub struct VecMap<K, V> {
    entries: Vec<(K, V)>,
}

impl<K: KeyEq, V: View> View for VecMap<K, V> {
    type V = Map<K::V, V::V>;

    closed spec fn view(&self) -> Map<K::V, V::V> {
        map_of(self.entries@)
    }
}

impl<K: KeyEq, V: View> VecMap<K, V> {
    /// The entries, in the order in which they are kept.
    pub closed spec fn entries(&self) -> Seq<(K, V)> {
        self.entries@
    }

    /// No two entries have the same key.
    pub closed spec fn wf(&self) -> bool {
        keys_unique(self.entries@)
    }

    /// The map of a well-formed `VecMap` is finite, as long as its entry list,
    /// and holds exactly its entries.
    pub proof fn lemma_view(&self)
        requires
            self.wf(),
        ensures
            self@.dom().finite(),
            self@.len() == self.entries().len(),
            keys_unique(self.entries()),
            self@ == map_of(self.entries()),
            forall|i: int|
                0 <= i < self.entries().len() ==> #[trigger] self@.contains_key(
                    self.entries()[i].0@,
                ) && self@[self.entries()[i].0@] == self.entries()[i].1@,
            forall|k: K::V|
                #[trigger] self@.contains_key(k) ==> exists|i: int|
                    0 <= i < self.entries().len() && self.entries()[i].0@ == k,
    {
        lemma_map_of_entries(self.entries@);
    }

    /// An empty map.
    pub fn new() -> (m: Self)
        ensures
            m.wf(),
            m@ == Map::<K::V, V::V>::empty(),
            m.entries().len() == 0,
    {
        VecMap { entries: Vec::new() }
    }

    /// The number of entries.
    pub fn len(&self) -> (n: usize)
        requires
            self.wf(),
        ensures
            n == self@.len(),
            n == self.entries().len(),
    {
        proof {
            lemma_map_of_entries(self.entries@);
        }
        self.entries.len()
    }

    /// The position of the entry with key `k`.
    pub fn index_of(&self, k: &K) -> (r: Option<usize>)
        requires
            self.wf(),
        ensures
            r matches Some(i) ==> i < self.entries().len() && self.entries()[i as int].0@ == k@,
            r is None ==> !self@.contains_key(k@),
            r is Some <==> self@.contains_key(k@),
    {
        proof {
            lemma_map_of_entries(self.entries@);
        }
        let mut i: usize = 0;
        while i < self.entries.len()
            invariant
                self.wf(),
                i <= self.entries@.len(),
                forall|j: int| 0 <= j < i ==> #[trigger] self.entries@[j].0@ != k@,
            decreases self.entries@.len() - i,
        {
            if self.entries[i].0.key_eq(k) {
                proof {
                    lemma_map_of_entries(self.entries@);
                    assert(map_of(self.entries@).contains_key(self.entries@[i as int].0@));
                }
                return Some(i);
            }
            i = i + 1;
        }
        None
    }

    /// Whether there is an entry with key `k`.
    pub fn contains_key(&self, k: &K) -> (b: bool)
        requires
            self.wf(),
        ensures
            b == self@.contains_key(k@),
    {
        self.index_of(k).is_some()
    }

    /// The value of the entry with key `k`.
    pub fn get(&self, k: &K) -> (r: Option<&V>)
        requires
            self.wf(),
        ensures
            r is Some <==> self@.contains_key(k@),
            r matches Some(v) ==> v@ == self@[k@] && exists|j: int|
                0 <= j < self.entries().len() && #[trigger] self.entries()[j].1 == *v,
    {
        match self.index_of(k) {
            Some(i) => {
                proof {
                    lemma_map_of_entries(self.entries@);
                }
                Some(&self.entries[i].1)
            },
            None => None,
        }
    }

    /// The entry at position `i`.
    pub fn entry_at(&self, i: usize) -> (e: &(K, V))
        requires
            self.wf(),
            i < self.entries().len(),
        ensures
            *e == self.entries()[i as int],
            self@.contains_key(e.0@),
            self@[e.0@] == e.1@,
    {
        proof {
            lemma_map_of_entries(self.entries@);
        }
        &self.entries[i]
    }

    /// Sets the value of key `k` to `v`.
    pub fn insert(&mut self, k: K, v: V)
        requires
            old(self).wf(),
        ensures
            final(self).wf(),
            final(self)@ == old(self)@.insert(k@, v@),
            forall|i: int|
                0 <= i < final(self).entries().len() ==> #[trigger] final(self).entries()[i] == (k, v)
                    || old(self).entries().contains(final(self).entries()[i]),
    {
        match self.index_of(&k) {
            Some(i) => {
                proof {
                    lemma_map_of_update(self.entries@, i as int, (k, v));
                }
                self.entries[i] = (k, v);
            },
            None => {
                proof {
                    lemma_map_of_entries(self.entries@);
                    let s = self.entries@;
                    assert forall|a: int, b: int|
                        0 <= a < s.push((k, v)).len() && 0 <= b < s.push((k, v)).len() && a
                            != b implies #[trigger] s.push((k, v))[a].0@ != #[trigger] s.push(
                        (k, v),
                    )[b].0@ by {
                        if a < s.len() && b < s.len() {
                            assert(s[a].0@ != s[b].0@);
                        } else if a < s.len() {
                            assert(map_of(s).contains_key(s[a].0@));
                        } else {
                            assert(map_of(s).contains_key(s[b].0@));
                        }
                    }
                    assert(s.push((k, v)).drop_last() == s);
                }
                self.entries.push((k, v));
            },
        }
    }

    /// Takes out the entry with key `k`, returning its value.
    pub fn remove(&mut self, k: &K) -> (r: Option<V>)
        requires
            old(self).wf(),
        ensures
            final(self).wf(),
            final(self)@ == old(self)@.remove(k@),
            r is Some <==> old(self)@.contains_key(k@),
            r matches Some(v) ==> v@ == old(self)@[k@] && exists|j: int|
                0 <= j < old(self).entries().len() && #[trigger] old(self).entries()[j].1 == v,
            forall|i: int|
                0 <= i < final(self).entries().len() ==> old(self).entries().contains(
                    #[trigger] final(self).entries()[i],
                ),
    {
        match self.index_of(k) {
            Some(i) => {
                proof {
                    lemma_map_of_entries(self.entries@);
                    lemma_map_of_remove(self.entries@, i as int);
                }
                let (_, v) = self.entries.remove(i);
                Some(v)
            },
            None => {
                proof {
                    assert(old(self)@.remove(k@) =~= old(self)@);
                }
                None
            },
        }
    }

    /// Removes every entry.
    pub fn clear(&mut self)
        ensures
            final(self).wf(),
            final(self)@ == Map::<K::V, V::V>::empty(),
    {
        self.entries.clear();
    }
}


impl<K: KeyEq, V: KeyEq> VecMap<K, V> {
    /// A copy of the map.
    pub fn copy(&self) -> (c: Self)
        requires
            self.wf(),
        ensures
            c.wf(),
            c@ == self@,
    {
        let mut c: VecMap<K, V> = VecMap::new();
        let mut i: usize = 0;
        while i < self.entries.len()
            invariant
                self.wf(),
                i <= self.entries@.len(),
                c.wf(),
                c.entries().len() == i,
                forall|j: int|
                    0 <= j < i ==> #[trigger] c.entries()[j].0@ == self.entries@[j].0@
                        && c.entries()[j].1@ == self.entries@[j].1@,
            decreases self.entries@.len() - i,
        {
            let k = self.entries[i].0.key_clone();
            let v = self.entries[i].1.key_clone();
            let ghost before = c.entries@;
            proof {
                assert forall|a: int, b: int|
                    0 <= a < before.push((k, v)).len() && 0 <= b < before.push((k, v)).len() && a
                        != b implies #[trigger] before.push((k, v))[a].0@ != #[trigger] before.push(
                    (k, v),
                )[b].0@ by {
                    if a < i && b < i {
                        assert(before[a].0@ != before[b].0@);
                    } else if a < i {
                        assert(self.entries@[a].0@ != self.entries@[i as int].0@);
                    } else {
                        assert(self.entries@[b].0@ != self.entries@[i as int].0@);
                    }
                }
            }
            c.entries.push((k, v));
            i = i + 1;
        }
        proof {
            lemma_map_of_entries(self.entries@);
            lemma_map_of_entries(c.entries@);
            assert forall|k: K::V| #[trigger] c@.contains_key(k) implies self@.contains_key(k)
                && c@[k] == self@[k] by {
                let j = choose|j: int| 0 <= j < c.entries@.len() && c.entries@[j].0@ == k;
                assert(map_of(self.entries@).contains_key(self.entries@[j].0@));
            }
            assert forall|k: K::V| #[trigger] self@.contains_key(k) implies c@.contains_key(k) by {
                let j = choose|j: int| 0 <= j < self.entries@.len() && self.entries@[j].0@ == k;
                assert(map_of(c.entries@).contains_key(c.entries@[j].0@));
            }
            assert(c@ =~= self@);
        }
        c
    }
}

impl<K: KeyEq> VecSet<K> {
    /// The elements, as a vector of copies.
    pub fn to_vec(&self) -> (v: Vec<K>)
        requires
            self.wf(),
        ensures
            v@.len() == self@.len(),
            forall|i: int| 0 <= i < v@.len() ==> #[trigger] self@.contains(v@[i]@),
            forall|k: K::V| #[trigger] self@.contains(k) ==> exists|i: int| 0 <= i < v@.len() && v@[i]@ == k,
            forall|i: int, j: int|
                #![trigger v@[i], v@[j]]
                0 <= i < v@.len() && 0 <= j < v@.len() && i != j ==> v@[i]@ != v@[j]@,
    {
        proof {
            self.lemma_view();
            self.map.lemma_view();
        }
        let n = self.len();
        let mut v: Vec<K> = Vec::new();
        let mut i: usize = 0;
        while i < n
            invariant
                self.wf(),
                n == self.elements().len(),
                n == self@.len(),
                i <= n,
                v@.len() == i,
                forall|j: int| 0 <= j < i ==> #[trigger] v@[j]@ == self.elements()[j]@,
            decreases n - i,
        {
            let e = self.element_at(i).key_clone();
            v.push(e);
            i = i + 1;
        }
        proof {
            self.lemma_view();
            self.map.lemma_view();
            assert forall|a: int, b: int|
                #![trigger v@[a], v@[b]]
                0 <= a < v@.len() && 0 <= b < v@.len() && a != b implies v@[a]@ != v@[b]@ by {
                assert(self.elements()[a] == self.map.entries()[a].0);
                assert(self.elements()[b] == self.map.entries()[b].0);
                assert(keys_unique(self.map.entries()));
                assert(self.map.entries()[a].0@ != self.map.entries()[b].0@);
            }
            assert forall|k: K::V| #[trigger] self@.contains(k) implies exists|i: int|
                0 <= i < v@.len() && v@[i]@ == k by {
                let i = choose|i: int| 0 <= i < self.elements().len() && self.elements()[i]@ == k;
                assert(v@[i]@ == k);
            }
        }
        v
    }
}

impl<K: KeyEq, V: KeyEq> VecMap<K, V> {
    /// The entries, as a vector of copies.
    pub fn to_vec(&self) -> (v: Vec<(K, V)>)
        requires
            self.wf(),
        ensures
            keys_unique(v@),
            map_of(v@) == self@,
    {
        let mut v: Vec<(K, V)> = Vec::new();
        let mut i: usize = 0;
        while i < self.entries.len()
            invariant
                self.wf(),
                i <= self.entries@.len(),
                v@.len() == i,
                forall|j: int|
                    0 <= j < i ==> #[trigger] v@[j].0@ == self.entries@[j].0@ && v@[j].1@
                        == self.entries@[j].1@,
            decreases self.entries@.len() - i,
        {
            let k = self.entries[i].0.key_clone();
            let val = self.entries[i].1.key_clone();
            v.push((k, val));
            i = i + 1;
        }
        proof {
            assert forall|a: int, b: int|
                0 <= a < v@.len() && 0 <= b < v@.len() && a != b implies #[trigger] v@[a].0@
                != #[trigger] v@[b].0@ by {
                assert(self.entries@[a].0@ != self.entries@[b].0@);
            }
            lemma_map_of_entries(self.entries@);
            lemma_map_of_entries(v@);
            assert forall|k: K::V| #[trigger] map_of(v@).contains_key(k) implies self@.contains_key(k)
                && map_of(v@)[k] == self@[k] by {
                let j = choose|j: int| 0 <= j < v@.len() && v@[j].0@ == k;
                assert(map_of(self.entries@).contains_key(self.entries@[j].0@));
            }
            assert forall|k: K::V| #[trigger] self@.contains_key(k) implies map_of(v@).contains_key(k) by {
                let j = choose|j: int| 0 <= j < self.entries@.len() && self.entries@[j].0@ == k;
                assert(map_of(v@).contains_key(v@[j].0@));
            }
            assert(map_of(v@) =~= self@);
        }
        v
    }
}

impl<K: KeyEq, V: KeyEq> PartialEq for VecMap<K, V> {
    fn eq(&self, other: &Self) -> (r: bool) {
        let r = entries_within(&self.entries, &other.entries) && entries_within(
            &other.entries,
            &self.entries,
        );
        proof {
            if r {
                assert(self@ =~= other@);
            }
        }
        r
    }
}

impl<K: KeyEq, V: KeyEq> vstd::std_specs::cmp::PartialEqSpecImpl for VecMap<K, V> {
    open spec fn obeys_eq_spec() -> bool {
        true
    }

    open spec fn eq_spec(&self, other: &Self) -> bool {
        self@ == other@
    }
}

/// A set kept as a vector of distinct elements.
#[derive(Debug)]
pub struct VecSet<K> {
    map: VecMap<K, ()>,
}

impl<K: KeyEq> View for VecSet<K> {
    type V = Set<K::V>;

    closed spec fn view(&self) -> Set<K::V> {
        self.map@.dom()
    }
}

impl<K: KeyEq> VecSet<K> {
    /// The elements, in the order in which they are kept.
    pub closed spec fn elements(&self) -> Seq<K> {
        self.map.entries().map_values(|e: (K, ())| e.0)
    }

    /// No element is kept twice.
    pub closed spec fn wf(&self) -> bool {
        self.map.wf()
    }

    /// The set of a well-formed `VecSet` is finite, as long as its element
    /// list, and holds exactly its elements.
    pub proof fn lemma_view(&self)
        requires
            self.wf(),
        ensures
            self@.finite(),
            self@.len() == self.elements().len(),
            forall|i: int|
                0 <= i < self.elements().len() ==> #[trigger] self@.contains(self.elements()[i]@),
            forall|k: K::V|
                #[trigger] self@.contains(k) ==> exists|i: int|
                    0 <= i < self.elements().len() && self.elements()[i]@ == k,
    {
        self.map.lemma_view();
        assert(self@.len() == self.map@.len());
        assert forall|k: K::V| #[trigger] self@.contains(k) implies exists|i: int|
            0 <= i < self.elements().len() && self.elements()[i]@ == k by {
            assert(self.map@.contains_key(k));
            let i = choose|i: int| 0 <= i < self.map.entries().len() && self.map.entries()[i].0@ == k;
            assert(self.elements()[i] == self.map.entries()[i].0);
        }
        assert forall|i: int| 0 <= i < self.elements().len() implies #[trigger] self@.contains(
            self.elements()[i]@,
        ) by {
            assert(self.elements()[i] == self.map.entries()[i].0);
            assert(self.map@.contains_key(self.map.entries()[i].0@));
        }
    }

    /// An empty set.
    pub fn new() -> (s: Self)
        ensures
            s.wf(),
            s@ == Set::<K::V>::empty(),
    {
        let s = VecSet { map: VecMap::new() };
        proof {
            assert(s@ =~= Set::<K::V>::empty());
        }
        s
    }

    /// The number of elements.
    pub fn len(&self) -> (n: usize)
        requires
            self.wf(),
        ensures
            n == self@.len(),
            n == self.elements().len(),
    {
        self.map.len()
    }

    /// Whether the set is empty.
    pub fn is_empty(&self) -> (b: bool)
        requires
            self.wf(),
        ensures
            b == (self@.len() == 0),
            b == (self@ == Set::<K::V>::empty()),
    {
        proof {
            self.lemma_view();
            if self@.len() == 0 {
                assert(self@ =~= Set::<K::V>::empty());
            }
        }
        self.map.len() == 0
    }

    /// Whether `k` is in the set.
    pub fn contains(&self, k: &K) -> (b: bool)
        requires
            self.wf(),
        ensures
            b == self@.contains(k@),
    {
        self.map.contains_key(k)
    }

    /// The element at position `i`.
    pub fn element_at(&self, i: usize) -> (e: &K)
        requires
            self.wf(),
            i < self.elements().len(),
        ensures
            *e == self.elements()[i as int],
            self@.contains(e@),
    {
        &self.map.entry_at(i).0
    }

    /// Adds `k` to the set.
    pub fn insert(&mut self, k: K)
        requires
            old(self).wf(),
        ensures
            final(self).wf(),
            final(self)@ == old(self)@.insert(k@),
    {
        self.map.insert(k, ());
        proof {
            assert(self@ =~= old(self)@.insert(k@));
        }
    }

    /// Takes `k` out of the set.
    pub fn remove(&mut self, k: &K)
        requires
            old(self).wf(),
        ensures
            final(self).wf(),
            final(self)@ == old(self)@.remove(k@),
    {
        let _ = self.map.remove(k);
        proof {
            assert(self@ =~= old(self)@.remove(k@));
        }
    }

    /// A copy of the set.
    pub fn copy(&self) -> (c: Self)
        requires
            self.wf(),
        ensures
            c.wf(),
            c@ == self@,
    {
        let mut c = VecSet::new();
        let n = self.len();
        let mut i: usize = 0;
        proof {
            self.lemma_view();
        }
        while i < n
            invariant
                self.wf(),
                n == self.elements().len(),
                i <= n,
                c.wf(),
                c@ == Set::new(|k: K::V| exists|j: int| 0 <= j < i && self.elements()[j]@ == k),
            decreases n - i,
        {
            let e = self.element_at(i).key_clone();
            c.insert(e);
            proof {
                assert(c@ =~= Set::new(
                    |k: K::V| exists|j: int| 0 <= j < i + 1 && self.elements()[j]@ == k,
                )) by {
                    assert forall|k: K::V| #[trigger] c@.contains(k) implies exists|j: int|
                        0 <= j < i + 1 && self.elements()[j]@ == k by {
                        if k == e@ {
                            assert(self.elements()[i as int]@ == k);
                        }
                    }
                }
            }
            i = i + 1;
        }
        proof {
            self.lemma_view();
            assert(c@ =~= self@);
        }
        c
    }
}

impl<K: KeyEq> PartialEq for VecSet<K> {
    fn eq(&self, other: &Self) -> (r: bool) {
        let r = self.map == other.map;
        proof {
            if r {
                assert(self@ =~= other@);
            } else {
                assert(self.map@ != other.map@);
                if self@ == other@ {
                    assert(self.map@ =~= other.map@);
                }
            }
        }
        r
    }
}

impl<K: KeyEq> vstd::std_specs::cmp::PartialEqSpecImpl for VecSet<K> {
    open spec fn obeys_eq_spec() -> bool {
        true
    }

    open spec fn eq_spec(&self, other: &Self) -> bool {
        self@ == other@
    }
}

} // verus!
