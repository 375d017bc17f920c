//! A small map from strings to values, kept as a list of entries.
//!
//! Records are found by the text of their key. No key occurs twice, and the
//! entries keep the order in which their keys first came in.

use vstd::prelude::*;

verus! {

/// One key with its value.
pub struct Entry<V> {
    pub key: String,
    pub value: V,
}

/// A map from strings to values of a plain type.
pub struct StrMap<V> {
    entries: Vec<Entry<V>>,
}

/// Whether position `i` of `entries` holds the key `k`.
pub open spec fn holds_key<V>(entries: Seq<Entry<V>>, i: int, k: Seq<char>) -> bool {
    0 <= i < entries.len() && entries[i].key@ == k
}

impl<V> StrMap<V> {
    /// The entries in their order, each key with its value.
    pub closed spec fn entries(&self) -> Seq<Entry<V>> {
        self.entries@
    }

    /// The keys in their order.
    pub open spec fn keys(&self) -> Seq<Seq<char>> {
        Seq::new(self.entries().len(), |i: int| self.entries()[i].key@)
    }

    /// No key occurs twice.
    pub open spec fn distinct(&self) -> bool {
        forall|i: int, j: int|
            0 <= i < j < self.entries().len() ==> self.entries()[i].key@ != self.entries()[j].key@
    }

    /// No key occurs twice, and there are as many keys as entries.
    pub open spec fn wf(&self) -> bool {
        &&& self.distinct()
        &&& self@.dom().finite()
        &&& self@.dom().len() == self.entries().len()
    }

    /// The position of key `k`, if the map has it.
    pub open spec fn position(&self, k: Seq<char>) -> int {
        choose|i: int| holds_key(self.entries(), i, k)
    }

    /// The map as a mathematical map from key text to value.
    pub open spec fn view(&self) -> Map<Seq<char>, V> {
        Map::new(
            |k: Seq<char>| exists|i: int| holds_key(self.entries(), i, k),
            |k: Seq<char>| self.entries()[self.position(k)].value,
        )
    }

    /// The value under `k`, or `default` where the map has no such key.
    pub open spec fn value_or(&self, k: Seq<char>, default: V) -> V {
        if self@.contains_key(k) {
            self@[k]
        } else {
            default
        }
    }

    /// What the entry at position `i` says about the view.
    pub proof fn lemma_entry(&self, i: int)
        requires
            self.distinct(),
            0 <= i < self.entries().len(),
        ensures
            self@.contains_key(self.entries()[i].key@),
            self@[self.entries()[i].key@] == self.entries()[i].value,
            self.keys()[i] == self.entries()[i].key@,
    {
        let k = self.entries()[i].key@;
        assert(holds_key(self.entries(), i, k));
        let p = self.position(k);
        assert(holds_key(self.entries(), p, k));
        assert(p == i);
    }

    /// Every key of the view stands at some position.
    pub proof fn lemma_key_position(&self, k: Seq<char>)
        requires
            self@.contains_key(k),
        ensures
            holds_key(self.entries(), self.position(k), k),
            self.keys().contains(k),
    {
        let p = self.position(k);
        assert(holds_key(self.entries(), p, k));
        assert(self.keys()[p] == k);
    }

    /// An empty map.
    pub fn new() -> (m: Self)
        ensures
            m.wf(),
            m@ == Map::<Seq<char>, V>::empty(),
            m.entries().len() == 0,
    {
        let m = StrMap { entries: Vec::new() };
        assert(m@ =~= Map::<Seq<char>, V>::empty());
        assert(m@.dom() =~= Set::<Seq<char>>::empty());
        m
    }

    /// The number of keys.
    pub fn len(&self) -> (n: usize)
        ensures
            n == self.entries().len(),
    {
        self.entries.len()
    }

    /// The key at position `i`.
    pub fn key_at(&self, i: usize) -> (k: &String)
        requires
            i < self.entries().len(),
        ensures
            *k == self.entries()[i as int].key,
    {
        &self.entries[i].key
    }

    /// The value at position `i`.
    pub fn value_at(&self, i: usize) -> (v: &V)
        requires
            i < self.entries().len(),
        ensures
            *v == self.entries()[i as int].value,
    {
        &self.entries[i].value
    }

    /// The position of `k`, if the map has it.
    pub fn find(&self, k: &String) -> (r: Option<usize>)
        ensures
            match r {
                Some(i) => holds_key(self.entries(), i as int, k@),
                None => !self@.contains_key(k@),
            },
    {
        let n: usize = self.entries.len();
        let mut i: usize = 0;
        while i < n
            invariant
                n == self.entries@.len(),
                i <= n,
                forall|j: int| 0 <= j < i ==> self.entries@[j].key@ != k@,
            decreases n - i,
        {
            if self.entries[i].key == *k {
                return Some(i);
            }
            i = i + 1;
        }
        None
    }

    /// The value under `k`, if the map has it.
    pub fn get_ref(&self, k: &String) -> (r: Option<&V>)
        requires
            self.wf(),
        ensures
            r == (if self@.contains_key(k@) {
                Some(&self@[k@])
            } else {
                None
            }),
            r is Some ==> holds_key(self.entries(), self.position(k@), k@),
    {
        match self.find(k) {
            Some(i) => {
                proof {
                    self.lemma_entry(i as int);
                    self.lemma_key_position(k@);
                }
                Some(&self.entries[i].value)
            },
            None => None,
        }
    }

    /// Whether the map has the key `k`.
    pub fn contains_key(&self, k: &String) -> (r: bool)
        requires
            self.wf(),
        ensures
            r == self@.contains_key(k@),
    {
        match self.find(k) {
            Some(i) => {
                proof {
                    self.lemma_entry(i as int);
                }
                true
            },
            None => false,
        }
    }

    /// Puts `v` under `k`, in place of what was there. A new key goes to the
    /// end.
    pub fn insert(&mut self, k: String, v: V)
        requires
            old(self).wf(),
        ensures
            final(self).wf(),
            final(self)@ == old(self)@.insert(k@, v),
            old(self)@.contains_key(k@) ==> final(self).keys() == old(self).keys()
                && final(self).entries() == old(self).entries().update(
                old(self).position(k@),
                Entry { key: k, value: v },
            ),
            !old(self)@.contains_key(k@) ==> final(self).keys() == old(self).keys().push(k@)
                && final(self).entries() == old(self).entries().push(Entry { key: k, value: v }),
    {
        let ghost before = *self;
        let ghost key = k@;
        match self.find(&k) {
            Some(i) => {
                self.entries.set(i, Entry { key: k, value: v });
                proof {
                    before.lemma_entry(i as int);
                    assert forall|q: Seq<char>|
                        self@.contains_key(q) <==> before@.insert(key, v).contains_key(
                            q,
                        ) by {
                        if self@.contains_key(q) {
                            let p = self.position(q);
                            assert(holds_key(before.entries(), p, q));
                        }
                        if before@.contains_key(q) {
                            let p = before.position(q);
                            assert(holds_key(self.entries(), p, q));
                        }
                        if q == key {
                            assert(holds_key(self.entries(), i as int, q));
                        }
                    }
                    assert forall|q: Seq<char>| self@.contains_key(q) implies self@[q]
                        == before@.insert(key, v)[q] by {
                        let p = self.position(q);
                        assert(holds_key(self.entries(), p, q));
                        self.lemma_entry(p);
                        if q != key {
                            assert(holds_key(before.entries(), p, q));
                            before.lemma_entry(p);
                        } else {
                            assert(p == i);
                        }
                    }
                    assert(self@ =~= before@.insert(key, v));
                    assert(self.keys() =~= before.keys());
                    assert(before.position(key) == i);
                    assert(self@.dom() =~= before@.dom());
                }
            },
            None => {
                self.entries.push(Entry { key: k, value: v });
                proof {
                    let n = before.entries().len() as int;
                    assert forall|a: int, b: int| 0 <= a < b < self.entries().len() implies self.entries()[a].key@
                        != self.entries()[b].key@ by {
                        if b == n {
                            if self.entries()[a].key@ == key {
                                assert(holds_key(before.entries(), a, key));
                            }
                        }
                    }
                    assert forall|q: Seq<char>|
                        self@.contains_key(q) <==> before@.insert(key, v).contains_key(
                            q,
                        ) by {
                        if self@.contains_key(q) {
                            let p = self.position(q);
                            if p < n {
                                assert(holds_key(before.entries(), p, q));
                            }
                        }
                        if before@.contains_key(q) {
                            let p = before.position(q);
                            assert(holds_key(self.entries(), p, q));
                        }
                        if q == key {
                            assert(holds_key(self.entries(), n, q));
                        }
                    }
                    assert forall|q: Seq<char>| self@.contains_key(q) implies self@[q]
                        == before@.insert(key, v)[q] by {
                        let p = self.position(q);
                        assert(holds_key(self.entries(), p, q));
                        self.lemma_entry(p);
                        if q != key {
                            assert(holds_key(before.entries(), p, q));
                            before.lemma_entry(p);
                        } else {
                            assert(holds_key(self.entries(), n, q));
                            assert(p == n);
                        }
                    }
                    assert(self@ =~= before@.insert(key, v));
                    assert(self.keys() =~= before.keys().push(key));
                    assert(self@.dom() =~= before@.dom().insert(key));
                }
            },
        }
    }

    /// Takes the key `k` out, and says what stood under it.
    pub fn remove(&mut self, k: &String) -> (r: Option<V>)
        requires
            old(self).wf(),
        ensures
            final(self).wf(),
            final(self)@ == old(self)@.remove(k@),
            r == (if old(self)@.contains_key(k@) {
                Some(old(self)@[k@])
            } else {
                None
            }),
            !old(self)@.contains_key(k@) ==> final(self).keys() == old(self).keys()
                && final(self).entries() == old(self).entries(),
            old(self)@.contains_key(k@) ==> final(self).keys() == old(self).keys().remove(
                old(self).position(k@),
            ) && final(self).entries() == old(self).entries().remove(old(self).position(k@)),
    {
        let ghost before = *self;
        let ghost key = k@;
        match self.find(k) {
            Some(i) => {
                let e = self.entries.remove(i);
                proof {
                    before.lemma_entry(i as int);
                    assert(before.position(key) == i);
                    assert forall|q: Seq<char>|
                        self@.contains_key(q) <==> before@.remove(key).contains_key(q) by {
                        if self@.contains_key(q) {
                            let p = self.position(q);
                            if p < i {
                                assert(holds_key(before.entries(), p, q));
                            } else {
                                assert(holds_key(before.entries(), p + 1, q));
                            }
                        }
                        if before@.contains_key(q) && q != key {
                            let p = before.position(q);
                            if p < i {
                                assert(holds_key(self.entries(), p, q));
                            } else {
                                assert(holds_key(self.entries(), p - 1, q));
                            }
                        }
                    }
                    assert forall|q: Seq<char>| self@.contains_key(q) implies self@[q]
                        == before@.remove(key)[q] by {
                        let p = self.position(q);
                        assert(holds_key(self.entries(), p, q));
                        self.lemma_entry(p);
                        if p < i {
                            before.lemma_entry(p);
                        } else {
                            before.lemma_entry(p + 1);
                        }
                    }
                    assert(self@ =~= before@.remove(key));
                    assert(self.keys() =~= before.keys().remove(i as int));
                    assert(self@.dom() =~= before@.dom().remove(key));
                }
                Some(e.value)
            },
            None => {
                assert(self@ =~= before@.remove(key));
                None
            },
        }
    }
}

impl<V: Clone> StrMap<V> {
    /// A map with the same keys in the same order, each with a clone of its
    /// value.
    pub fn clone_map(&self) -> (r: Self)
        ensures
            r.entries().len() == self.entries().len(),
            forall|i: int|
                0 <= i < self.entries().len() ==> (#[trigger] r.entries()[i]).key
                    == self.entries()[i].key && cloned(
                    self.entries()[i].value,
                    r.entries()[i].value,
                ),
    {
        let n: usize = self.entries.len();
        let mut entries: Vec<Entry<V>> = Vec::new();
        let mut i: usize = 0;
        while i < n
            invariant
                n == self.entries@.len(),
                i <= n,
                entries@.len() == i,
                forall|j: int|
                    0 <= j < i ==> (#[trigger] entries@[j]).key == self.entries@[j].key && cloned(
                        self.entries@[j].value,
                        entries@[j].value,
                    ),
            decreases n - i,
        {
            let e = &self.entries[i];
            entries.push(Entry { key: e.key.clone(), value: e.value.clone() });
            i = i + 1;
        }
        StrMap { entries }
    }
}

impl<V: Clone> Clone for StrMap<V> {
    /// A map with the same keys in the same order, each with a clone of its
    /// value.
    fn clone(&self) -> (r: Self)
        ensures
            r.entries().len() == self.entries().len(),
            forall|i: int|
                0 <= i < self.entries().len() ==> (#[trigger] r.entries()[i]).key
                    == self.entries()[i].key && cloned(
                    self.entries()[i].value,
                    r.entries()[i].value,
                ),
    {
        self.clone_map()
    }
}

impl<V> StrMap<V> {
    /// Two maps with the same keys in the same order have the same keys to
    /// the eye, and are in order together; and each has under a key the
    /// value of the entry that holds the key.
    pub proof fn lemma_same_keys(&self, other: &Self)
        requires
            self.entries().len() == other.entries().len(),
            forall|i: int|
                0 <= i < self.entries().len() ==> (#[trigger] self.entries()[i]).key@
                    == other.entries()[i].key@,
        ensures
            self@.dom() == other@.dom(),
            self.wf() == other.wf(),
            self.keys() == other.keys(),
            self.distinct() ==> forall|k: Seq<char>| #[trigger]
                self@.contains_key(k) ==> self.position(k) == other.position(k) && holds_key(
                    self.entries(),
                    self.position(k),
                    k,
                ) && self@[k] == self.entries()[self.position(k)].value && other@[k]
                    == other.entries()[self.position(k)].value,
    {
        assert forall|k: Seq<char>| self@.contains_key(k) == other@.contains_key(k) by {
            if self@.contains_key(k) {
                let i = self.position(k);
                assert(holds_key(self.entries(), i, k));
                assert(self.entries()[i].key@ == other.entries()[i].key@);
                assert(holds_key(other.entries(), i, k));
            }
            if other@.contains_key(k) {
                let i = other.position(k);
                assert(holds_key(other.entries(), i, k));
                assert(self.entries()[i].key@ == other.entries()[i].key@);
                assert(holds_key(self.entries(), i, k));
            }
        }
        assert(self@.dom() =~= other@.dom());
        assert(self.keys() =~= other.keys());
        assert(self.distinct() == other.distinct()) by {
            if self.distinct() {
                assert forall|i: int, j: int| 0 <= i < j < other.entries().len() implies other.entries()[i].key@
                    != other.entries()[j].key@ by {
                    assert(self.entries()[i].key@ == other.entries()[i].key@);
                    assert(self.entries()[j].key@ == other.entries()[j].key@);
                }
            }
            if other.distinct() {
                assert forall|i: int, j: int| 0 <= i < j < self.entries().len() implies self.entries()[i].key@
                    != self.entries()[j].key@ by {
                    assert(self.entries()[i].key@ == other.entries()[i].key@);
                    assert(self.entries()[j].key@ == other.entries()[j].key@);
                }
            }
        }
        if self.distinct() {
            assert forall|k: Seq<char>| #[trigger] self@.contains_key(k) implies self.position(k)
                == other.position(k) && holds_key(self.entries(), self.position(k), k) && self@[k]
                == self.entries()[self.position(k)].value && other@[k]
                == other.entries()[self.position(k)].value by {
                let i = self.position(k);
                assert(holds_key(self.entries(), i, k));
                assert(self.entries()[i].key@ == other.entries()[i].key@);
                assert(holds_key(other.entries(), i, k));
                let j = other.position(k);
                assert(holds_key(other.entries(), j, k));
                assert(self.entries()[j].key@ == other.entries()[j].key@);
                if i < j {
                    assert(self.entries()[i].key@ != self.entries()[j].key@);
                }
                if j < i {
                    assert(self.entries()[j].key@ != self.entries()[i].key@);
                }
            }
        }
    }

    /// Two maps with the same entries are the same map to the eye.
    pub proof fn lemma_same_entries(&self, other: &Self)
        requires
            self.entries() == other.entries(),
        ensures
            self@ == other@,
            self.wf() == other.wf(),
            self.keys() == other.keys(),
    {
        assert(self@ =~= other@);
        assert(self.keys() =~= other.keys());
    }
}

impl<V: Copy> StrMap<V> {
    /// The value under `k`, if the map has it.
    pub fn get(&self, k: &String) -> (r: Option<V>)
        requires
            self.wf(),
        ensures
            r == (if self@.contains_key(k@) {
                Some(self@[k@])
            } else {
                None
            }),
    {
        match self.get_ref(k) {
            Some(v) => Some(*v),
            None => None,
        }
    }
}

/// Whether `k` stands in `list` at position `i`.
pub open spec fn spec_stands_at(list: Seq<Seq<char>>, k: Seq<char>, i: int) -> bool {
    0 <= i < list.len() && list[i] == k
}

/// The list without `k`, the other members in their order. A list that
/// holds `k` once is meant; one that does not hold it stays as it is.
pub open spec fn spec_without(list: Seq<Seq<char>>, k: Seq<char>) -> Seq<Seq<char>> {
    if list.contains(k) {
        list.remove(choose|i: int| spec_stands_at(list, k, i))
    } else {
        list
    }
}

/// What a list without duplicates holds once `k` is taken out: all it held
/// but `k`, each still once.
pub proof fn lemma_without(list: Seq<Seq<char>>, k: Seq<char>)
    requires
        list.no_duplicates(),
    ensures
        spec_without(list, k).no_duplicates(),
        forall|x: Seq<char>|
            spec_without(list, k).contains(x) <==> list.contains(x) && x != k,
{
    let rest = spec_without(list, k);
    if list.contains(k) {
        let w = choose|w: int| 0 <= w < list.len() && list[w] == k;
        assert(spec_stands_at(list, k, w));
        let i = choose|i: int| spec_stands_at(list, k, i);
        assert(spec_stands_at(list, k, i));
        assert forall|x: Seq<char>| rest.contains(x) <==> list.contains(x) && x != k by {
            if rest.contains(x) {
                let j = choose|j: int| 0 <= j < rest.len() && rest[j] == x;
                if j < i {
                    assert(list[j] == x);
                } else {
                    assert(list[j + 1] == x);
                }
            }
            if list.contains(x) && x != k {
                let j = choose|j: int| 0 <= j < list.len() && list[j] == x;
                if j < i {
                    assert(rest[j] == x);
                } else {
                    assert(rest[j - 1] == x);
                }
            }
        }
        assert forall|a: int, b: int|
            0 <= a < rest.len() && 0 <= b < rest.len() && a != b implies rest[a] != rest[b] by {
            let (x, y) = (if a < i {
                a
            } else {
                a + 1
            }, if b < i {
                b
            } else {
                b + 1
            });
            assert(rest[a] == list[x] && rest[b] == list[y]);
        }
    }
}

/// A set of strings, in the order in which they came in.
pub struct StrSet {
    map: StrMap<()>,
}

impl Clone for StrSet {
    /// A set with the same members in the same order.
    fn clone(&self) -> (r: Self)
        ensures
            r.keys() == self.keys(),
            r@ == self@,
            r.wf() == self.wf(),
    {
        let r = StrSet { map: self.map.clone_map() };
        proof {
            assert(r.map.entries() =~= self.map.entries());
            r.map.lemma_same_entries(&self.map);
        }
        r
    }
}

impl StrSet {
    /// The members in their order.
    pub closed spec fn keys(&self) -> Seq<Seq<char>> {
        self.map.keys()
    }

    /// No member occurs twice.
    pub closed spec fn wf(&self) -> bool {
        self.map.wf()
    }

    /// The set as a mathematical set of texts.
    pub closed spec fn view(&self) -> Set<Seq<char>> {
        self.map@.dom()
    }

    /// The members listed are the members of the set, each listed once.
    pub proof fn lemma_keys(&self)
        requires
            self.wf(),
        ensures
            self.keys().no_duplicates(),
            forall|k: Seq<char>| self@.contains(k) <==> self.keys().contains(k),
    {
        assert forall|k: Seq<char>| self@.contains(k) <==> self.keys().contains(k) by {
            if self@.contains(k) {
                self.map.lemma_key_position(k);
            }
            if self.keys().contains(k) {
                let i = choose|i: int| 0 <= i < self.keys().len() && self.keys()[i] == k;
                self.map.lemma_entry(i);
            }
        }
    }

    /// An empty set.
    pub fn new() -> (s: Self)
        ensures
            s.wf(),
            s@ == Set::<Seq<char>>::empty(),
            s.keys() == Seq::<Seq<char>>::empty(),
    {
        let s = StrSet { map: StrMap::new() };
        assert(s@ =~= Set::<Seq<char>>::empty());
        assert(s.keys() =~= Seq::<Seq<char>>::empty());
        s
    }

    /// The number of members.
    pub fn len(&self) -> (n: usize)
        ensures
            n == self.keys().len(),
    {
        self.map.len()
    }

    /// The member at position `i`.
    pub fn key_at(&self, i: usize) -> (k: &String)
        requires
            i < self.keys().len(),
        ensures
            k@ == self.keys()[i as int],
    {
        self.map.key_at(i)
    }

    /// Whether `k` is a member.
    pub fn contains(&self, k: &String) -> (r: bool)
        requires
            self.wf(),
        ensures
            r == self@.contains(k@),
    {
        self.map.contains_key(k)
    }

    /// Makes `k` a member. A new member goes to the end.
    pub fn insert(&mut self, k: String)
        requires
            old(self).wf(),
        ensures
            final(self).wf(),
            final(self)@ == old(self)@.insert(k@),
            old(self)@.contains(k@) ==> final(self).keys() == old(self).keys(),
            !old(self)@.contains(k@) ==> final(self).keys() == old(self).keys().push(k@),
    {
        let ghost key = k@;
        self.map.insert(k, ());
        assert(self@ =~= old(self)@.insert(key));
    }

    /// Takes `k` out, and says whether it was a member. The other members
    /// keep their order.
    pub fn remove(&mut self, k: &String) -> (r: bool)
        requires
            old(self).wf(),
        ensures
            final(self).wf(),
            final(self)@ == old(self)@.remove(k@),
            r == old(self)@.contains(k@),
            final(self).keys() == spec_without(old(self).keys(), k@),
    {
        proof {
            self.lemma_keys();
            if self@.contains(k@) {
                self.map.lemma_key_position(k@);
                let p = self.map.position(k@);
                let i = choose|i: int| spec_stands_at(self.keys(), k@, i);
                assert(spec_stands_at(self.keys(), k@, p));
                assert(i == p);
            }
        }
        let r = self.map.remove(k);
        assert(self@ =~= old(self)@.remove(k@));
        r.is_some()
    }
}

} // verus!
