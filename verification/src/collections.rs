//! Finite maps keyed by byte strings and finite sets of texts, kept as
//! vectors without repeated keys, with the wallet's map and set semantics.
//!
//! std's `HashMap`, `HashSet` and `BTreeMap` give Verus no usable contract
//! when their keys are `Vec<u8>` or `String` (vstd specifies their
//! operations only for keys whose hashing, equality or order it models), so the
//! wallet's and the service's maps and sets are vectors whose invariant is
//! that no key occurs twice; their views are `Map` and `Set`.

use vstd::prelude::*;

verus! {

/// Whether two byte strings are equal.
pub fn bytes_equal(a: &[u8], b: &[u8]) -> (r: bool)
    ensures
        r == (a@ == b@),
{
    if a.len() != b.len() {
        return false;
    }
    let mut i: usize = 0;
    while i < a.len()
        invariant
            i <= a@.len(),
            a@.len() == b@.len(),
            forall|j: int| 0 <= j < i ==> a@[j] == b@[j],
        decreases a@.len() - i,
    {
        if a[i] != b[i] {
            return false;
        }
        i = i + 1;
    }
    assert(a@ =~= b@);
    true
}

/// A copy of a byte string.
pub fn copy_bytes(a: &Vec<u8>) -> (r: Vec<u8>)
    ensures
        r@ == a@,
{
    let mut r: Vec<u8> = Vec::new();
    let mut i: usize = 0;
    while i < a.len()
        invariant
            i <= a@.len(),
            r@ == a@.take(i as int),
        decreases a@.len() - i,
    {
        r.push(a[i]);
        i = i + 1;
    }
    assert(r@ =~= a@);
    r
}

/// A copy of a list of texts.
pub fn copy_texts(a: &Vec<String>) -> (r: Vec<String>)
    ensures
        r.deep_view() == a.deep_view(),
{
    let mut r: Vec<String> = Vec::new();
    let mut i: usize = 0;
    while i < a.len()
        invariant
            i <= a@.len(),
            r@.len() == i,
            forall|j: int| 0 <= j < i ==> (#[trigger] r@[j])@ == a@[j]@,
        decreases a@.len() - i,
    {
        r.push(a[i].clone());
        i = i + 1;
    }
    assert(r.deep_view() =~= a.deep_view());
    r
}

/// Whether a text occurs in a list of texts.
pub fn texts_contain(list: &Vec<String>, item: &String) -> (r: bool)
    ensures
        r == list.deep_view().contains(item@),
{
    let mut i: usize = 0;
    while i < list.len()
        invariant
            i <= list@.len(),
            forall|j: int| 0 <= j < i ==> list.deep_view()[j] != item@,
        decreases list@.len() - i,
    {
        if list[i] == *item {
            assert(list.deep_view()[i as int] == item@);
            return true;
        }
        i = i + 1;
    }
    false
}

/// A finite map from byte strings to values, kept as a list of entries in
/// which no key repeats.
pub struct ByteMap<T> {
    entries: Vec<(Vec<u8>, T)>,
}

/// Whether no key occurs in two entries of a list.
pub open spec fn distinct_keys<T>(entries: Seq<(Vec<u8>, T)>) -> bool {
    forall|i: int, j: int| 0 <= i < j < entries.len() ==> #[trigger] entries[i].0@ != #[trigger] entries[j].0@
}

/// The map that a list of entries describes: a key maps to the value of an
/// entry with that key.
pub closed spec fn entries_map<T: DeepView>(entries: Seq<(Vec<u8>, T)>) -> Map<Seq<u8>, T::V> {
    Map::new(
        |k: Seq<u8>| exists|i: int| 0 <= i < entries.len() && #[trigger] entries[i].0@ == k,
        |k: Seq<u8>| entries[choose|i: int| 0 <= i < entries.len() && #[trigger] entries[i].0@ == k].1.deep_view(),
    )
}

/// In a list with distinct keys, the map holds each entry.
proof fn lemma_entries_map_at<T: DeepView>(entries: Seq<(Vec<u8>, T)>, i: int)
    requires
        distinct_keys(entries),
        0 <= i < entries.len(),
    ensures
        entries_map(entries).contains_key(entries[i].0@),
        entries_map(entries)[entries[i].0@] == entries[i].1.deep_view(),
{
    let k = entries[i].0@;
    assert(entries[i].0@ == k);
    let c = choose|j: int| 0 <= j < entries.len() && #[trigger] entries[j].0@ == k;
    if c != i {
        if c < i {
            assert(entries[c].0@ != entries[i].0@);
        } else {
            assert(entries[i].0@ != entries[c].0@);
        }
    }
}

impl<T: DeepView> View for ByteMap<T> {
    type V = Map<Seq<u8>, T::V>;

    closed spec fn view(&self) -> Map<Seq<u8>, T::V> {
        entries_map(self.entries@)
    }
}

impl<T: DeepView> ByteMap<T> {
    /// No key occurs in two entries.
    pub closed spec fn wf(&self) -> bool {
        distinct_keys(self.entries@)
    }

    /// The entries, in the order in which they are kept.
    pub closed spec fn entries_view(&self) -> Seq<(Seq<u8>, T::V)> {
        self.entries@.map_values(|e: (Vec<u8>, T)| (e.0@, e.1.deep_view()))
    }

    /// The number of entries.
    pub closed spec fn spec_len(&self) -> nat {
        self.entries@.len()
    }

    /// What the entries enumerate: each key of the map once, with its value,
    /// and the map has as many keys as there are entries.
    pub proof fn lemma_entries(&self)
        requires
            self.wf(),
        ensures
            self.entries_view().len() == self.spec_len(),
            forall|i: int| 0 <= i < self.spec_len() ==>
                self@.contains_key(#[trigger] self.entries_view()[i].0) && self@[self.entries_view()[i].0] == self.entries_view()[i].1,
            forall|k: Seq<u8>| #[trigger] self@.contains_key(k) ==> exists|i: int| 0 <= i < self.entries_view().len() && self.entries_view()[i].0 == k,
            forall|i: int, j: int| 0 <= i < j < self.spec_len() ==> #[trigger] self.entries_view()[i].0 != #[trigger] self.entries_view()[j].0,
    {
        assert forall|i: int| 0 <= i < self.spec_len() implies
            self@.contains_key(#[trigger] self.entries_view()[i].0) && self@[self.entries_view()[i].0] == self.entries_view()[i].1 by {
            lemma_entries_map_at(self.entries@, i);
        }
        assert forall|k: Seq<u8>| #[trigger] self@.contains_key(k) implies exists|i: int| 0 <= i < self.entries_view().len() && self.entries_view()[i].0 == k by {
            let i = choose|i: int| 0 <= i < self.entries@.len() && #[trigger] self.entries@[i].0@ == k;
            assert(self.entries_view()[i].0 == k);
        }
        assert forall|i: int, j: int| 0 <= i < j < self.spec_len() implies #[trigger] self.entries_view()[i].0 != #[trigger] self.entries_view()[j].0 by {
            assert(self.entries@[i].0@ != self.entries@[j].0@);
        }
    }

    /// An empty map.
    pub fn new() -> (m: Self)
        ensures
            m.wf(),
            m@ == Map::<Seq<u8>, T::V>::empty(),
            m.spec_len() == 0,
    {
        let m = ByteMap { entries: Vec::new() };
        assert(m@ =~= Map::<Seq<u8>, T::V>::empty());
        m
    }

    /// The number of entries.
    pub fn len(&self) -> (n: usize)
        ensures
            n == self.spec_len(),
    {
        self.entries.len()
    }

    /// The key of the entry at a position.
    pub fn key_at(&self, i: usize) -> (k: &Vec<u8>)
        requires
            i < self.spec_len(),
        ensures
            k@ == self.entries_view()[i as int].0,
    {
        &self.entries[i].0
    }

    /// The position of the entry with a given key, if there is one.
    pub fn find(&self, key: &[u8]) -> (r: Option<usize>)
        requires
            self.wf(),
        ensures
            r is None <==> !self@.contains_key(key@),
            r matches Some(i) ==> i < self.spec_len() && self.entries_view()[i as int].0 == key@
                && self@[key@] == self.entries_view()[i as int].1,
    {
        let mut i: usize = 0;
        while i < self.entries.len()
            invariant
                i <= self.entries@.len(),
                self.wf(),
                forall|j: int| 0 <= j < i ==> self.entries@[j].0@ != key@,
            decreases self.entries@.len() - i,
        {
            if bytes_equal(self.entries[i].0.as_slice(), key) {
                proof {
                    lemma_entries_map_at(self.entries@, i as int);
                }
                return Some(i);
            }
            i = i + 1;
        }
        proof {
            if self@.contains_key(key@) {
                let j = choose|j: int| 0 <= j < self.entries@.len() && #[trigger] self.entries@[j].0@ == key@;
                assert(self.entries@[j].0@ == key@);
            }
        }
        None
    }

    /// Whether a key has an entry.
    pub fn contains_key(&self, key: &[u8]) -> (r: bool)
        requires
            self.wf(),
        ensures
            r == self@.contains_key(key@),
    {
        self.find(key).is_some()
    }

    /// The value for a key, if it has one.
    pub fn get(&self, key: &[u8]) -> (r: Option<&T>)
        requires
            self.wf(),
        ensures
            r is Some <==> self@.contains_key(key@),
            r matches Some(v) ==> v.deep_view() == self@[key@],
    {
        match self.find(key) {
            Some(i) => Some(&self.entries[i].1),
            None => None,
        }
    }

    /// Sets the value for a key, replacing any value it had.
    pub fn insert(&mut self, key: Vec<u8>, value: T)
        requires
            old(self).wf(),
        ensures
            final(self).wf(),
            final(self)@ == old(self)@.insert(key@, value.deep_view()),
    {
        let ghost k = key@;
        let ghost v = value.deep_view();
        let ghost before = self@;
        match self.find(key.as_slice()) {
            Some(i) => {
                let ghost old_entries = self.entries@;
                self.entries.set(i, (key, value));
                proof {
                    assert(self.entries@ == old_entries.update(i as int, (self.entries@[i as int].0, self.entries@[i as int].1)));
                    assert forall|a: int, b: int| 0 <= a < b < self.entries@.len() implies
                        #[trigger] self.entries@[a].0@ != #[trigger] self.entries@[b].0@ by {
                        if a != i as int && b != i as int {
                            assert(old_entries[a].0@ != old_entries[b].0@);
                        } else if a == i as int {
                            assert(old_entries[a].0@ != old_entries[b].0@);
                        } else {
                            assert(old_entries[a].0@ != old_entries[b].0@);
                        }
                    }
                    assert forall|q: Seq<u8>| #[trigger] self@.contains_key(q) <==> before.insert(k, v).contains_key(q) by {
                        if q == k {
                            assert(self.entries@[i as int].0@ == q);
                        } else if before.contains_key(q) {
                            let j = choose|j: int| 0 <= j < old_entries.len() && #[trigger] old_entries[j].0@ == q;
                            assert(self.entries@[j].0@ == q);
                        } else if self@.contains_key(q) {
                            let j = choose|j: int| 0 <= j < self.entries@.len() && #[trigger] self.entries@[j].0@ == q;
                            assert(old_entries[j].0@ == q);
                        }
                    }
                    assert forall|q: Seq<u8>| #[trigger] self@.contains_key(q) implies self@[q] == before.insert(k, v)[q] by {
                        let j = choose|j: int| 0 <= j < self.entries@.len() && #[trigger] self.entries@[j].0@ == q;
                        lemma_entries_map_at(self.entries@, j);
                        if j != i as int {
                            lemma_entries_map_at(old_entries, j);
                            assert(before.contains_key(q));
                            let c = choose|c: int| 0 <= c < old_entries.len() && #[trigger] old_entries[c].0@ == q;
                            assert(old_entries[c].0@ == q);
                        }
                    }
                    assert(self@ =~= before.insert(k, v));
                }
            },
            None => {
                let ghost old_entries = self.entries@;
                self.entries.push((key, value));
                proof {
                    assert forall|a: int, b: int| 0 <= a < b < self.entries@.len() implies
                        #[trigger] self.entries@[a].0@ != #[trigger] self.entries@[b].0@ by {
                        if b == old_entries.len() {
                            if old_entries[a].0@ == k {
                                assert(before.contains_key(k));
                            }
                        } else {
                            assert(old_entries[a].0@ != old_entries[b].0@);
                        }
                    }
                    assert forall|q: Seq<u8>| #[trigger] self@.contains_key(q) <==> before.insert(k, v).contains_key(q) by {
                        if q == k {
                            assert(self.entries@[old_entries.len() as int].0@ == q);
                        } else if before.contains_key(q) {
                            let j = choose|j: int| 0 <= j < old_entries.len() && #[trigger] old_entries[j].0@ == q;
                            assert(self.entries@[j].0@ == q);
                        } else if self@.contains_key(q) {
                            let j = choose|j: int| 0 <= j < self.entries@.len() && #[trigger] self.entries@[j].0@ == q;
                            assert(old_entries[j].0@ == q);
                        }
                    }
                    assert forall|q: Seq<u8>| #[trigger] self@.contains_key(q) implies self@[q] == before.insert(k, v)[q] by {
                        let j = choose|j: int| 0 <= j < self.entries@.len() && #[trigger] self.entries@[j].0@ == q;
                        lemma_entries_map_at(self.entries@, j);
                        if j != old_entries.len() as int {
                            lemma_entries_map_at(old_entries, j);
                        }
                    }
                    assert(self@ =~= before.insert(k, v));
                }
            },
        }
    }

    /// Removes the entry for a key, if there is one.
    pub fn remove(&mut self, key: &[u8])
        requires
            old(self).wf(),
        ensures
            final(self).wf(),
            final(self)@ == old(self)@.remove(key@),
    {
        let ghost before = self@;
        match self.find(key) {
            Some(i) => {
                let ghost old_entries = self.entries@;
                let _ = self.entries.remove(i);
                proof {
                    let ne = self.entries@;
                    assert(ne == old_entries.remove(i as int));
                    assert forall|a: int| 0 <= a < ne.len() implies #[trigger] ne[a] == (if a < i { old_entries[a] } else { old_entries[a + 1] }) by {}
                    assert forall|a: int, b: int| 0 <= a < b < ne.len() implies
                        #[trigger] ne[a].0@ != #[trigger] ne[b].0@ by {
                        let oa = if a < i { a } else { a + 1 };
                        let ob = if b < i { b } else { b + 1 };
                        assert(ne[a] == old_entries[oa]);
                        assert(ne[b] == old_entries[ob]);
                        assert(old_entries[oa].0@ != old_entries[ob].0@);
                    }
                    assert forall|q: Seq<u8>| #[trigger] self@.contains_key(q) <==> before.remove(key@).contains_key(q) by {
                        if self@.contains_key(q) {
                            let j = choose|j: int| 0 <= j < ne.len() && #[trigger] ne[j].0@ == q;
                            let oj = if j < i { j } else { j + 1 };
                            assert(ne[j] == old_entries[oj]);
                            assert(old_entries[oj].0@ == q);
                            if q == key@ {
                                assert(old_entries[i as int].0@ == key@);
                                if oj < i { assert(old_entries[oj].0@ != old_entries[i as int].0@); }
                                else { assert(old_entries[i as int].0@ != old_entries[oj].0@); }
                            }
                        }
                        if before.remove(key@).contains_key(q) {
                            let oj = choose|j: int| 0 <= j < old_entries.len() && #[trigger] old_entries[j].0@ == q;
                            assert(oj != i);
                            let j = if oj < i { oj } else { oj - 1 };
                            assert(ne[j] == old_entries[oj]);
                            assert(ne[j].0@ == q);
                        }
                    }
                    assert forall|q: Seq<u8>| #[trigger] self@.contains_key(q) implies self@[q] == before.remove(key@)[q] by {
                        let j = choose|j: int| 0 <= j < ne.len() && #[trigger] ne[j].0@ == q;
                        lemma_entries_map_at(self.entries@, j);
                        let oj = if j < i { j } else { j + 1 };
                        assert(ne[j] == old_entries[oj]);
                        lemma_entries_map_at(old_entries, oj);
                    }
                    assert(self@ =~= before.remove(key@));
                }
            },
            None => {
                assert(self@ =~= before.remove(key@));
            },
        }
    }
}

/// A finite set of texts, kept as a list in which no text repeats.
pub struct TextSet {
    items: Vec<String>,
}

impl View for TextSet {
    type V = Set<Seq<char>>;

    closed spec fn view(&self) -> Set<Seq<char>> {
        self.items.deep_view().to_set()
    }
}

impl TextSet {
    /// No text occurs twice.
    pub closed spec fn wf(&self) -> bool {
        self.items.deep_view().no_duplicates()
    }

    /// The texts, in the order in which they are kept.
    pub closed spec fn items_view(&self) -> Seq<Seq<char>> {
        self.items.deep_view()
    }

    /// The texts enumerate the set, each once, and the set is finite with as
    /// many members as the list has items.
    pub proof fn lemma_items(&self)
        requires
            self.wf(),
        ensures
            self.items_view().no_duplicates(),
            self.items_view().to_set() == self@,
            self@.finite(),
            self@.len() == self.items_view().len(),
    {
        self.items.deep_view().unique_seq_to_set();
        vstd::seq_lib::seq_to_set_is_finite(self.items.deep_view());
    }

    /// An empty set.
    pub fn new() -> (s: Self)
        ensures
            s.wf(),
            s@ == Set::<Seq<char>>::empty(),
    {
        let s = TextSet { items: Vec::new() };
        assert(s.items.deep_view() =~= Seq::<Seq<char>>::empty());
        assert(s@ =~= Set::<Seq<char>>::empty());
        s
    }

    /// The number of texts.
    pub fn len(&self) -> (n: usize)
        requires
            self.wf(),
        ensures
            n == self@.len(),
    {
        proof {
            self.lemma_items();
        }
        self.items.len()
    }

    /// Whether a text is in the set.
    pub fn contains(&self, item: &String) -> (r: bool)
        ensures
            r == self@.contains(item@),
    {
        texts_contain(&self.items, item)
    }

    /// Adds a text to the set.
    pub fn insert(&mut self, item: String)
        requires
            old(self).wf(),
        ensures
            final(self).wf(),
            final(self)@ == old(self)@.insert(item@),
    {
        if !self.contains(&item) {
            let ghost before = self.items.deep_view();
            let ghost it = item@;
            self.items.push(item);
            proof {
                assert(self.items.deep_view() =~= before.push(it));
                assert forall|a: int, b: int| 0 <= a < self.items.deep_view().len() && 0 <= b < self.items.deep_view().len() && a != b
                    implies self.items.deep_view()[a] != self.items.deep_view()[b] by {
                    if a == before.len() as int {
                        assert(!before.contains(it));
                        assert(before[b] == self.items.deep_view()[b]);
                    } else if b == before.len() as int {
                        assert(!before.contains(it));
                        assert(before[a] == self.items.deep_view()[a]);
                    }
                }
                Seq::lemma_to_set_insert_commutes(before, it);
                assert(before.push(it) =~= before + seq![it]);
                assert(self@ =~= before.to_set().insert(it));
            }
        } else {
            assert(self@ =~= self@.insert(item@));
        }
    }

    /// Removes a text from the set.
    pub fn remove(&mut self, item: &String)
        requires
            old(self).wf(),
        ensures
            final(self).wf(),
            final(self)@ == old(self)@.remove(item@),
    {
        let ghost before = self.items.deep_view();
        let mut i: usize = 0;
        while i < self.items.len()
            invariant
                i <= self.items@.len(),
                self.items.deep_view() == before,
                old(self)@ == before.to_set(),
                before.no_duplicates(),
                forall|j: int| 0 <= j < i ==> before[j] != item@,
            decreases self.items@.len() - i,
        {
            if self.items[i] == *item {
                let _ = self.items.remove(i);
                proof {
                    let after = self.items.deep_view();
                    assert(after =~= before.remove(i as int));
                    assert forall|a: int| 0 <= a < after.len() implies #[trigger] after[a] == (if a < i { before[a] } else { before[a + 1] }) by {}
                    assert forall|a: int, b: int| 0 <= a < after.len() && 0 <= b < after.len() && a != b
                        implies after[a] != after[b] by {
                        let oa = if a < i { a } else { a + 1 };
                        let ob = if b < i { b } else { b + 1 };
                        assert(after[a] == before[oa]);
                        assert(after[b] == before[ob]);
                    }
                    assert forall|x: Seq<char>| #[trigger] self@.contains(x) <==> before.to_set().remove(item@).contains(x) by {
                        if self@.contains(x) {
                            let a = choose|a: int| 0 <= a < after.len() && after[a] == x;
                            let oa = if a < i { a } else { a + 1 };
                            assert(after[a] == before[oa]);
                            assert(before.contains(x));
                            if x == item@ {
                                assert(before[i as int] == item@);
                            }
                        }
                        if before.to_set().remove(item@).contains(x) {
                            let oa = choose|a: int| 0 <= a < before.len() && before[a] == x;
                            assert(oa != i);
                            let a = if oa < i { oa } else { oa - 1 };
                            assert(after[a] == before[oa]);
                            assert(after.contains(x));
                        }
                    }
                    assert(self@ =~= before.to_set().remove(item@));
                }
                return;
            }
            i = i + 1;
        }
        assert(self@ =~= before.to_set().remove(item@));
    }

    /// The texts as a list.
    pub fn to_vec(&self) -> (v: Vec<String>)
        ensures
            v.deep_view() == self.items_view(),
    {
        copy_texts(&self.items)
    }
}

/// The map built from a list of entries by inserting them in order, so that a
/// later entry for a key replaces an earlier one.
pub open spec fn map_from_entries<T: DeepView>(entries: Seq<(Vec<u8>, T)>) -> Map<Seq<u8>, T::V>
    decreases entries.len(),
{
    if entries.len() == 0 {
        Map::empty()
    } else {
        map_from_entries(entries.drop_last()).insert(entries.last().0@, entries.last().1.deep_view())
    }
}

/// The views of a list of entries.
pub open spec fn entries_view_of<T: DeepView>(entries: Seq<(Vec<u8>, T)>) -> Seq<(Seq<u8>, T::V)> {
    entries.map_values(|e: (Vec<u8>, T)| (e.0@, e.1.deep_view()))
}

impl<T: DeepView> ByteMap<T> {
    /// The map holding the given entries, inserted in order.
    pub fn from_entries(entries: Vec<(Vec<u8>, T)>) -> (m: Self)
        ensures
            m.wf(),
            m@ == map_from_entries(entries@),
    {
        let ghost all = entries@;
        let mut rest = entries;
        let mut m = ByteMap::new();
        let ghost mut k: int = 0;
        while rest.len() > 0
            invariant
                m.wf(),
                0 <= k <= all.len(),
                rest@ == all.skip(k),
                m@ == map_from_entries(all.take(k)),
            decreases rest@.len(),
        {
            let (key, value) = rest.remove(0);
            proof {
                assert(all[k] == (key, value));
                assert(all.take(k + 1).drop_last() =~= all.take(k));
                assert(all.take(k + 1).last() == all[k]);
            }
            m.insert(key, value);
            proof {
                k = k + 1;
            }
            assert(rest@ =~= all.skip(k));
        }
        assert(all.take(k) =~= all);
        m
    }
}

impl ByteMap<Vec<String>> {
    /// The entries as a list of pairs.
    pub fn to_vec(&self) -> (v: Vec<(Vec<u8>, Vec<String>)>)
        ensures
            entries_view_of(v@) == self.entries_view(),
    {
        let mut v: Vec<(Vec<u8>, Vec<String>)> = Vec::new();
        let mut i: usize = 0;
        while i < self.entries.len()
            invariant
                i <= self.entries@.len(),
                v@.len() == i,
                forall|j: int| 0 <= j < i ==> (#[trigger] v@[j]).0@ == self.entries@[j].0@ && v@[j].1.deep_view() == self.entries@[j].1.deep_view(),
            decreases self.entries@.len() - i,
        {
            v.push((copy_bytes(&self.entries[i].0), copy_texts(&self.entries[i].1)));
            i = i + 1;
        }
        assert(entries_view_of(v@) =~= self.entries_view());
        v
    }

    /// A copy of the map.
    pub fn duplicate(&self) -> (m: Self)
        requires
            self.wf(),
        ensures
            m.wf(),
            m@ == self@,
            m.entries_view() == self.entries_view(),
    {
        let entries = self.to_vec();
        proof {
            assert(entries_view_of(entries@).len() == entries@.len());
            assert(self.entries_view().len() == self.entries@.len());
            assert forall|i: int| 0 <= i < entries@.len() implies (#[trigger] entries@[i]).0@ == self.entries@[i].0@
                && entries@[i].1.deep_view() == self.entries@[i].1.deep_view() by {
                assert(entries_view_of(entries@)[i] == (entries@[i].0@, entries@[i].1.deep_view()));
                assert(self.entries_view()[i] == (self.entries@[i].0@, self.entries@[i].1.deep_view()));
            }
        }
        let m = ByteMap { entries };
        assert forall|k: Seq<u8>| #[trigger] m@.contains_key(k) <==> self@.contains_key(k) by {
            if m@.contains_key(k) {
                let i = choose|i: int| 0 <= i < m.entries@.len() && #[trigger] m.entries@[i].0@ == k;
                assert(self.entries@[i].0@ == k);
            }
            if self@.contains_key(k) {
                let i = choose|i: int| 0 <= i < self.entries@.len() && #[trigger] self.entries@[i].0@ == k;
                assert(m.entries@[i].0@ == k);
            }
        }
        assert forall|a: int, b: int| 0 <= a < b < m.entries@.len() implies
            #[trigger] m.entries@[a].0@ != #[trigger] m.entries@[b].0@ by {
            assert(self.entries@[a].0@ != self.entries@[b].0@);
        }
        assert forall|k: Seq<u8>| #[trigger] m@.contains_key(k) implies m@[k] == self@[k] by {
            let i = choose|i: int| 0 <= i < m.entries@.len() && #[trigger] m.entries@[i].0@ == k;
            lemma_entries_map_at(m.entries@, i);
            lemma_entries_map_at(self.entries@, i);
        }
        assert(m@ =~= self@);
        m
    }
}

impl ByteMap<String> {
    /// The entries as a list of pairs.
    pub fn to_vec(&self) -> (v: Vec<(Vec<u8>, String)>)
        ensures
            entries_view_of(v@) == self.entries_view(),
    {
        let mut v: Vec<(Vec<u8>, String)> = Vec::new();
        let mut i: usize = 0;
        while i < self.entries.len()
            invariant
                i <= self.entries@.len(),
                v@.len() == i,
                forall|j: int| 0 <= j < i ==> (#[trigger] v@[j]).0@ == self.entries@[j].0@ && v@[j].1@ == self.entries@[j].1@,
            decreases self.entries@.len() - i,
        {
            v.push((copy_bytes(&self.entries[i].0), self.entries[i].1.clone()));
            i = i + 1;
        }
        assert(entries_view_of(v@) =~= self.entries_view());
        v
    }

    /// A copy of the map.
    pub fn duplicate(&self) -> (m: Self)
        requires
            self.wf(),
        ensures
            m.wf(),
            m@ == self@,
            m.entries_view() == self.entries_view(),
    {
        let entries = self.to_vec();
        proof {
            assert(entries_view_of(entries@).len() == entries@.len());
            assert(self.entries_view().len() == self.entries@.len());
            assert forall|i: int| 0 <= i < entries@.len() implies (#[trigger] entries@[i]).0@ == self.entries@[i].0@
                && entries@[i].1.deep_view() == self.entries@[i].1.deep_view() by {
                assert(entries_view_of(entries@)[i] == (entries@[i].0@, entries@[i].1.deep_view()));
                assert(self.entries_view()[i] == (self.entries@[i].0@, self.entries@[i].1.deep_view()));
            }
        }
        let m = ByteMap { entries };
        assert forall|k: Seq<u8>| #[trigger] m@.contains_key(k) <==> self@.contains_key(k) by {
            if m@.contains_key(k) {
                let i = choose|i: int| 0 <= i < m.entries@.len() && #[trigger] m.entries@[i].0@ == k;
                assert(self.entries@[i].0@ == k);
            }
            if self@.contains_key(k) {
                let i = choose|i: int| 0 <= i < self.entries@.len() && #[trigger] self.entries@[i].0@ == k;
                assert(m.entries@[i].0@ == k);
            }
        }
        assert forall|a: int, b: int| 0 <= a < b < m.entries@.len() implies
            #[trigger] m.entries@[a].0@ != #[trigger] m.entries@[b].0@ by {
            assert(self.entries@[a].0@ != self.entries@[b].0@);
        }
        assert forall|k: Seq<u8>| #[trigger] m@.contains_key(k) implies m@[k] == self@[k] by {
            let i = choose|i: int| 0 <= i < m.entries@.len() && #[trigger] m.entries@[i].0@ == k;
            lemma_entries_map_at(m.entries@, i);
            lemma_entries_map_at(self.entries@, i);
        }
        assert(m@ =~= self@);
        m
    }
}

impl TextSet {
    /// The set of the given texts.
    pub fn from_vec(items: Vec<String>) -> (s: Self)
        ensures
            s.wf(),
            s@ == items.deep_view().to_set(),
    {
        let mut s = TextSet::new();
        let mut i: usize = 0;
        while i < items.len()
            invariant
                s.wf(),
                i <= items@.len(),
                s@ == items.deep_view().take(i as int).to_set(),
            decreases items@.len() - i,
        {
            s.insert(items[i].clone());
            proof {
                let d = items.deep_view();
                assert(d.take(i as int + 1) =~= d.take(i as int) + seq![d[i as int]]);
                Seq::lemma_to_set_insert_commutes(d.take(i as int), d[i as int]);
            }
            i = i + 1;
        }
        assert(items.deep_view().take(i as int) =~= items.deep_view());
        s
    }

    /// A copy of the set.
    pub fn duplicate(&self) -> (s: Self)
        ensures
            s.wf() == self.wf(),
            s@ == self@,
            s.items_view() == self.items_view(),
    {
        TextSet { items: copy_texts(&self.items) }
    }
}

/// The map built from a list of key-value pairs by inserting them in order.
pub open spec fn pairs_map<V>(pairs: Seq<(Seq<u8>, V)>) -> Map<Seq<u8>, V>
    decreases pairs.len(),
{
    if pairs.len() == 0 {
        Map::empty()
    } else {
        pairs_map(pairs.drop_last()).insert(pairs.last().0, pairs.last().1)
    }
}

/// Building a map from entries is building it from their views.
pub proof fn lemma_map_from_entries<T: DeepView>(entries: Seq<(Vec<u8>, T)>)
    ensures
        map_from_entries(entries) == pairs_map(entries_view_of(entries)),
    decreases entries.len(),
{
    if entries.len() > 0 {
        lemma_map_from_entries(entries.drop_last());
        assert(entries_view_of(entries.drop_last()) =~= entries_view_of(entries).drop_last());
    }
}

/// The position of a text in a list of texts, if it occurs.
pub fn texts_position(list: &Vec<String>, item: &String) -> (r: Option<usize>)
    ensures
        r is None <==> !list.deep_view().contains(item@),
        r matches Some(i) ==> i < list@.len() && list@[i as int]@ == item@,
{
    let mut i: usize = 0;
    while i < list.len()
        invariant
            i <= list@.len(),
            forall|j: int| 0 <= j < i ==> list.deep_view()[j] != item@,
        decreases list@.len() - i,
    {
        if list[i] == *item {
            assert(list.deep_view()[i as int] == item@);
            return Some(i);
        }
        i = i + 1;
    }
    None
}

/// The position of the first entry with a given key, if there is one.
pub fn entry_position<T: DeepView>(entries: &Vec<(Vec<u8>, T)>, key: &[u8]) -> (r: Option<usize>)
    ensures
        r is None <==> !entries_view_of(entries@).map_values(|e: (Seq<u8>, T::V)| e.0).contains(key@),
        r matches Some(i) ==> i < entries@.len() && entries@[i as int].0@ == key@,
{
    let ghost keys = entries_view_of(entries@).map_values(|e: (Seq<u8>, T::V)| e.0);
    let mut i: usize = 0;
    while i < entries.len()
        invariant
            i <= entries@.len(),
            keys == entries_view_of(entries@).map_values(|e: (Seq<u8>, T::V)| e.0),
            forall|j: int| 0 <= j < i ==> entries@[j].0@ != key@,
        decreases entries@.len() - i,
    {
        if bytes_equal(entries[i].0.as_slice(), key) {
            assert(keys[i as int] == key@);
            return Some(i);
        }
        i = i + 1;
    }
    proof {
        if keys.contains(key@) {
            let j = choose|j: int| 0 <= j < keys.len() && keys[j] == key@;
            assert(keys[j] == entries@[j].0@);
        }
    }
    None
}

} // verus!
