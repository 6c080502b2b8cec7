//! The page's `localStorage` / `sessionStorage`: an insertion-ordered list
//! of distinct keys with values, and the object that keeps `length` in step.

use vstd::prelude::*;

use crate::url::{pairs_view, PairV};

verus! {

pub open spec fn keys_distinct(entries: Seq<PairV>) -> bool {
    forall|i: int, j: int| 0 <= i < j < entries.len() ==> entries[i].0 != entries[j].0
}

/// Position of `key`, if any.
pub open spec fn key_pos(entries: Seq<PairV>, key: Seq<char>) -> Option<int> {
    if exists|i: int| 0 <= i < entries.len() && entries[i].0 == key {
        Some(choose|i: int| 0 <= i < entries.len() && entries[i].0 == key)
    } else {
        None
    }
}

/// The value stored under `key`.
pub open spec fn lookup(entries: Seq<PairV>, key: Seq<char>) -> Option<Seq<char>> {
    match key_pos(entries, key) {
        Some(i) => Some(entries[i].1),
        None => None,
    }
}

/// Storing `value` under `key`: in place when present, else appended.
pub open spec fn store(entries: Seq<PairV>, key: Seq<char>, value: Seq<char>) -> Seq<PairV> {
    match key_pos(entries, key) {
        Some(i) => entries.update(i, (key, value)),
        None => entries.push((key, value)),
    }
}

/// The entries other than `key`, in order.
pub open spec fn erase(entries: Seq<PairV>, key: Seq<char>) -> Seq<PairV>
    decreases entries.len(),
{
    if entries.len() == 0 {
        Seq::empty()
    } else if entries.last().0 != key {
        erase(entries.drop_last(), key).push(entries.last())
    } else {
        erase(entries.drop_last(), key)
    }
}

/// Key/value list behind a storage object.
#[derive(Debug, Clone, Default, PartialEq, Eq)]
pub struct StorageArea {
    entries: Vec<(String, String)>,
}

proof fn lemma_key_pos_unique(entries: Seq<PairV>, key: Seq<char>, i: int)
    requires
        keys_distinct(entries),
        0 <= i < entries.len(),
        entries[i].0 == key,
    ensures
        key_pos(entries, key) == Some(i),
{
    let k = choose|k: int| 0 <= k < entries.len() && entries[k].0 == key;
    if k != i {
        if k < i {
            assert(entries[k].0 != entries[i].0);
        } else {
            assert(entries[i].0 != entries[k].0);
        }
    }
}

proof fn lemma_erase(entries: Seq<PairV>, key: Seq<char>)
    requires
        keys_distinct(entries),
    ensures
        keys_distinct(erase(entries, key)),
        key_pos(erase(entries, key), key) is None,
        forall|i: int| 0 <= i < erase(entries, key).len() ==> #[trigger] erase(entries, key)[i].0 != key,
        forall|p: PairV| erase(entries, key).contains(p) ==> entries.contains(p),
    decreases entries.len(),
{
    if entries.len() > 0 {
        let d = entries.drop_last();
        assert(keys_distinct(d));
        lemma_erase(d, key);
        let r = erase(d, key);
        if entries.last().0 != key {
            assert forall|p: PairV| r.contains(p) implies entries.contains(p) by {
                assert(d.contains(p));
                let k = choose|k: int| 0 <= k < d.len() && d[k] == p;
                assert(entries[k] == p);
            }
            assert forall|i: int, j: int| 0 <= i < j < r.push(entries.last()).len() implies r.push(entries.last())[i].0 != r.push(entries.last())[j].0 by {
                if j == r.len() {
                    assert(r.contains(r[i]));
                    assert(entries.contains(r[i]));
                    let k = choose|k: int| 0 <= k < entries.len() && entries[k] == r[i];
                    assert(d.contains(r[i]));
                    let k2 = choose|k2: int| 0 <= k2 < d.len() && d[k2] == r[i];
                    assert(entries[k2] == r[i]);
                    assert(k2 < entries.len() - 1);
                }
            }
            assert forall|p: PairV| r.push(entries.last()).contains(p) implies entries.contains(p) by {
                if p != entries.last() {
                    let k = choose|k: int| 0 <= k < r.push(entries.last()).len() && r.push(entries.last())[k] == p;
                    assert(r.contains(p));
                }
            }
        } else {
            assert forall|p: PairV| r.contains(p) implies entries.contains(p) by {
                assert(d.contains(p));
                let k = choose|k: int| 0 <= k < d.len() && d[k] == p;
                assert(entries[k] == p);
            }
        }
    }
}

impl StorageArea {
    pub closed spec fn view_v(&self) -> Seq<PairV> {
        pairs_view(self.entries@)
    }

    pub closed spec fn wf(&self) -> bool {
        keys_distinct(self.view_v())
    }

    pub fn new() -> (r: Self)
        ensures
            r.wf(),
            r.view_v().len() == 0,
    {
        let r = StorageArea { entries: Vec::new() };
        assert(r.view_v() =~= Seq::<PairV>::empty());
        r
    }

    fn position(&self, key: &String) -> (r: Option<usize>)
        requires
            self.wf(),
        ensures
            r matches Some(i) ==> key_pos(self.view_v(), key@) == Some(i as int),
            r is None ==> key_pos(self.view_v(), key@) is None,
    {
        for i in 0..self.entries.len()
            invariant
                self.wf(),
                forall|j: int| 0 <= j < i ==> self.view_v()[j].0 != key@,
        {
            if self.entries[i].0 == *key {
                proof {
                    lemma_key_pos_unique(self.view_v(), key@, i as int);
                }
                return Some(i);
            }
        }
        None
    }

    /// `getItem(key)`.
    pub fn get(&self, key: &str) -> (r: Option<String>)
        requires
            self.wf(),
        ensures
            r matches Some(v) ==> lookup(self.view_v(), key@) == Some(v@),
            r is None ==> lookup(self.view_v(), key@) is None,
    {
        let k = String::from_str(key);
        match self.position(&k) {
            Some(i) => Some(self.entries[i].1.clone()),
            None => None,
        }
    }

    /// `setItem(key, value)`: replaces the value in place, or appends.
    pub fn set(&mut self, key: String, value: String)
        requires
            old(self).wf(),
        ensures
            final(self).wf(),
            final(self).view_v() == store(old(self).view_v(), key@, value@),
    {
        match self.position(&key) {
            Some(i) => {
                let ghost before = self.view_v();
                self.entries.set(i, (key, value));
                assert(self.view_v() =~= before.update(i as int, (key@, value@)));
                assert(keys_distinct(self.view_v()));
            },
            None => {
                let ghost before = self.view_v();
                self.entries.push((key, value));
                assert(self.view_v() =~= before.push((key@, value@)));
                assert forall|i: int, j: int| 0 <= i < j < self.view_v().len() implies self.view_v()[i].0 != self.view_v()[j].0 by {
                    if j == before.len() {
                        assert(!(0 <= i < before.len() && before[i].0 == key@));
                    }
                }
            },
        }
    }

    /// `removeItem(key)`.
    pub fn remove(&mut self, key: &str)
        requires
            old(self).wf(),
        ensures
            final(self).wf(),
            final(self).view_v() == erase(old(self).view_v(), key@),
    {
        let ghost ev = self.view_v();
        let k = String::from_str(key);
        let mut kept: Vec<(String, String)> = Vec::new();
        assert(pairs_view(kept@) =~= erase(ev.take(0), key@));
        for i in 0..self.entries.len()
            invariant
                ev == pairs_view(self.entries@),
                k@ == key@,
                pairs_view(kept@) == erase(ev.take(i as int), key@),
        {
            assert(ev.take(i + 1).drop_last() =~= ev.take(i as int));
            if self.entries[i].0 != k {
                kept.push((self.entries[i].0.clone(), self.entries[i].1.clone()));
                assert(pairs_view(kept@) =~= erase(ev.take(i as int), key@).push(ev[i as int]));
            } else {
                assert(pairs_view(kept@) =~= erase(ev.take(i + 1), key@));
            }
        }
        assert(ev.take(self.entries.len() as int) =~= ev);
        proof {
            lemma_erase(ev, key@);
        }
        self.entries = kept;
    }

    /// `clear()`.
    pub fn clear(&mut self)
        ensures
            final(self).wf(),
            final(self).view_v().len() == 0,
    {
        self.entries = Vec::new();
        assert(self.view_v() =~= Seq::<PairV>::empty());
    }

    /// `key(index)`: the key at that position.
    pub fn key(&self, index: usize) -> (r: Option<String>)
        ensures
            index < self.view_v().len() ==> (r matches Some(k) && k@ == self.view_v()[index as int].0),
            index >= self.view_v().len() ==> r is None,
    {
        if index < self.entries.len() {
            Some(self.entries[index].0.clone())
        } else {
            None
        }
    }

    /// Number of stored keys.
    pub fn len(&self) -> (r: usize)
        ensures
            r == self.view_v().len(),
    {
        self.entries.len()
    }
}

/// A storage object: its area and the `length` property kept equal to the
/// area's number of keys.
#[derive(Debug, Clone, PartialEq, Eq)]
pub struct Storage {
    area: StorageArea,
    length: usize,
}

impl Storage {
    pub closed spec fn view_v(&self) -> Seq<PairV> {
        self.area.view_v()
    }

    pub closed spec fn wf(&self) -> bool {
        &&& self.area.wf()
        &&& self.length == self.area.view_v().len()
    }

    /// A fresh, empty storage object.
    pub fn new() -> (r: Self)
        ensures
            r.wf(),
            r.view_v().len() == 0,
    {
        Storage { area: StorageArea::new(), length: 0 }
    }

    /// The `length` property.
    pub fn length(&self) -> (r: usize)
        requires
            self.wf(),
        ensures
            r == self.view_v().len(),
    {
        self.length
    }

    fn sync_storage_length(&mut self)
        requires
            old(self).area.wf(),
        ensures
            final(self).wf(),
            final(self).area == old(self).area,
    {
        self.length = self.area.len();
    }

    /// `getItem(key)`; `None` stands for `null`.
    pub fn get_item(&self, key: &str) -> (r: Option<String>)
        requires
            self.wf(),
        ensures
            r matches Some(v) ==> lookup(self.view_v(), key@) == Some(v@),
            r is None ==> lookup(self.view_v(), key@) is None,
    {
        self.area.get(key)
    }

    /// `setItem(key, value)`.
    pub fn set_item(&mut self, key: &str, value: &str)
        requires
            old(self).wf(),
        ensures
            final(self).wf(),
            final(self).view_v() == store(old(self).view_v(), key@, value@),
    {
        self.area.set(String::from_str(key), String::from_str(value));
        self.sync_storage_length();
    }

    /// `removeItem(key)`.
    pub fn remove_item(&mut self, key: &str)
        requires
            old(self).wf(),
        ensures
            final(self).wf(),
            final(self).view_v() == erase(old(self).view_v(), key@),
    {
        self.area.remove(key);
        self.sync_storage_length();
    }

    /// `clear()`.
    pub fn clear(&mut self)
        requires
            old(self).wf(),
        ensures
            final(self).wf(),
            final(self).view_v().len() == 0,
    {
        self.area.clear();
        self.sync_storage_length();
    }

    /// `key(index)`; `None` stands for `null`.
    pub fn key(&self, index: usize) -> (r: Option<String>)
        requires
            self.wf(),
        ensures
            index < self.view_v().len() ==> (r matches Some(k) && k@ == self.view_v()[index as int].0),
            index >= self.view_v().len() ==> r is None,
    {
        self.area.key(index)
    }
}

/// After `setItem(key, value)`, `getItem(key)` gives `value`, and the keys
/// stay distinct.
pub proof fn law_storage_get_after_set(entries: Seq<PairV>, key: Seq<char>, value: Seq<char>)
    requires
        keys_distinct(entries),
    ensures
        lookup(store(entries, key, value), key) == Some(value),
        keys_distinct(store(entries, key, value)),
{
    let s = store(entries, key, value);
    match key_pos(entries, key) {
        Some(i) => {
            assert(keys_distinct(s));
            lemma_key_pos_unique(s, key, i);
        },
        None => {
            assert(keys_distinct(s)) by {
                assert forall|i: int, j: int| 0 <= i < j < s.len() implies s[i].0 != s[j].0 by {
                    if j == entries.len() {
                        assert(!(0 <= i < entries.len() && entries[i].0 == key));
                    }
                }
            }
            lemma_key_pos_unique(s, key, entries.len() as int);
        },
    }
}

/// Setting a key that is already present keeps the number of keys.
pub proof fn law_storage_set_existing_keeps_length(entries: Seq<PairV>, key: Seq<char>, value: Seq<char>)
    requires
        keys_distinct(entries),
        lookup(entries, key) is Some,
    ensures
        store(entries, key, value).len() == entries.len(),
{
}

/// After `removeItem(key)`, `getItem(key)` gives `null`.
pub proof fn law_storage_get_after_remove(entries: Seq<PairV>, key: Seq<char>)
    requires
        keys_distinct(entries),
    ensures
        lookup(erase(entries, key), key) is None,
{
    lemma_erase(entries, key);
}

} // verus!
