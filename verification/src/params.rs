//! An insertion-ordered string map: the parameter table of a URL, the
//! headers of a request, the attachments of a call context.
use vstd::prelude::*;
use vstd::string::*;

verus! {

/// The entries of a map, in insertion order.
pub type Entries = Seq<(Seq<char>, Seq<char>)>;

/// No key occurs twice.
pub open spec fn keys_unique(es: Entries) -> bool {
    forall|i: int, j: int| 0 <= i < j < es.len() ==> (#[trigger] es[i]).0 != (#[trigger] es[j]).0
}

/// Whether some entry has key `k`.
pub open spec fn has_key(es: Entries, k: Seq<char>) -> bool {
    exists|i: int| 0 <= i < es.len() && (#[trigger] es[i]).0 == k
}

/// The position of the entry with key `k` (meaningful when `has_key`).
pub open spec fn key_pos(es: Entries, k: Seq<char>) -> int {
    choose|i: int| 0 <= i < es.len() && (#[trigger] es[i]).0 == k
}

/// The value stored under `k`.
pub open spec fn lookup(es: Entries, k: Seq<char>) -> Option<Seq<char>> {
    if has_key(es, k) {
        Some(es[key_pos(es, k)].1)
    } else {
        None
    }
}

/// The entries after `insert(k, v)`: an existing entry keeps its place and
/// takes the new value; a new key goes to the end.
pub open spec fn insert_entry(es: Entries, k: Seq<char>, v: Seq<char>) -> Entries {
    if has_key(es, k) {
        es.update(key_pos(es, k), (k, v))
    } else {
        es.push((k, v))
    }
}

/// The entries after inserting each pair of `kvs` in order.
pub open spec fn insert_all(es: Entries, kvs: Entries) -> Entries
    decreases kvs.len(),
{
    if kvs.len() == 0 {
        es
    } else {
        insert_entry(insert_all(es, kvs.drop_last()), kvs.last().0, kvs.last().1)
    }
}

/// With unique keys, the position of a key is the one where it stands.
pub proof fn lemma_key_pos_unique(es: Entries, i: int)
    requires
        keys_unique(es),
        0 <= i < es.len(),
    ensures
        has_key(es, es[i].0),
        key_pos(es, es[i].0) == i,
        lookup(es, es[i].0) == Some(es[i].1),
{
    assert(has_key(es, es[i].0));
    let p = key_pos(es, es[i].0);
    if p != i {
        if p < i {
            assert(es[p].0 != es[i].0);
        } else {
            assert(es[i].0 != es[p].0);
        }
    }
}

/// In a table with unique keys, an insert keeps the keys unique, a lookup
/// of the key written gives back the value written, and every other key
/// keeps its value.
pub proof fn lemma_insert_entry_unique(es: Entries, k: Seq<char>, v: Seq<char>)
    requires
        keys_unique(es),
    ensures
        keys_unique(insert_entry(es, k, v)),
        lookup(insert_entry(es, k, v), k) == Some(v),
        forall|k2: Seq<char>| k2 != k ==> lookup(insert_entry(es, k, v), k2) == lookup(es, k2),
{
    let r = insert_entry(es, k, v);
    if has_key(es, k) {
        let p = key_pos(es, k);
        assert(keys_unique(r)) by {
            assert forall|i: int, j: int| 0 <= i < j < r.len() implies (#[trigger] r[i]).0
                != (#[trigger] r[j]).0 by {
                if i != p && j != p {
                    assert(r[i] == es[i] && r[j] == es[j]);
                } else if i == p {
                    assert(es[i].0 == k);
                    assert(r[j] == es[j]);
                } else {
                    assert(es[j].0 == k);
                    assert(r[i] == es[i]);
                }
            }
        }
        lemma_key_pos_unique(r, p);
        assert forall|k2: Seq<char>| k2 != k implies lookup(r, k2) == lookup(es, k2) by {
            if has_key(es, k2) {
                let q = key_pos(es, k2);
                assert(q != p);
                assert(r[q] == es[q]);
                lemma_key_pos_unique(r, q);
            } else {
                if has_key(r, k2) {
                    let q = key_pos(r, k2);
                    assert(q != p);
                    assert(es[q] == r[q]);
                }
            }
        }
    } else {
        assert(keys_unique(r)) by {
            assert forall|i: int, j: int| 0 <= i < j < r.len() implies (#[trigger] r[i]).0
                != (#[trigger] r[j]).0 by {
                if j == es.len() {
                    assert(r[i] == es[i]);
                } else {
                    assert(r[i] == es[i] && r[j] == es[j]);
                }
            }
        }
        lemma_key_pos_unique(r, es.len() as int);
        assert forall|k2: Seq<char>| k2 != k implies lookup(r, k2) == lookup(es, k2) by {
            if has_key(es, k2) {
                let q = key_pos(es, k2);
                assert(r[q] == es[q]);
                lemma_key_pos_unique(r, q);
            } else {
                if has_key(r, k2) {
                    let q = key_pos(r, k2);
                    assert(q < es.len());
                    assert(es[q] == r[q]);
                }
            }
        }
    }
}

/// Inserting pairs one after another keeps the keys of a table unique.
pub proof fn lemma_insert_all_unique(es: Entries, kvs: Entries)
    requires
        keys_unique(es),
    ensures
        keys_unique(insert_all(es, kvs)),
    decreases kvs.len(),
{
    if kvs.len() > 0 {
        lemma_insert_all_unique(es, kvs.drop_last());
        lemma_insert_entry_unique(insert_all(es, kvs.drop_last()), kvs.last().0, kvs.last().1);
    }
}

/// Inserting pairs with distinct keys, none of them present yet, appends them.
pub proof fn lemma_insert_all_fresh(es: Entries, kvs: Entries)
    requires
        keys_unique(es + kvs),
    ensures
        insert_all(es, kvs) == es + kvs,
    decreases kvs.len(),
{
    if kvs.len() > 0 {
        let front = kvs.drop_last();
        assert(keys_unique(es + front)) by {
            assert forall|i: int, j: int| 0 <= i < j < (es + front).len() implies (#[trigger] (es
                + front)[i]).0 != (#[trigger] (es + front)[j]).0 by {
                assert((es + front)[i] == (es + kvs)[i]);
                assert((es + front)[j] == (es + kvs)[j]);
            }
        }
        lemma_insert_all_fresh(es, front);
        let k = kvs.last().0;
        assert(!has_key(es + front, k)) by {
            if has_key(es + front, k) {
                let q = key_pos(es + front, k);
                assert((es + front)[q] == (es + kvs)[q]);
                assert((es + kvs)[(es + kvs).len() - 1] == kvs.last());
            }
        }
        assert((es + front).push(kvs.last()) =~= es + kvs);
    }
}

/// An insertion-ordered map from strings to strings.
#[derive(Debug, Default, PartialEq, Eq)]
pub struct ParamMap {
    entries: Vec<(String, String)>,
}

impl View for ParamMap {
    type V = Entries;

    closed spec fn view(&self) -> Entries {
        self.entries@.map_values(|e: (String, String)| (e.0@, e.1@))
    }
}

impl ParamMap {
    /// No key occurs twice.
    #[verifier::type_invariant]
    spec fn unique_keys(self) -> bool {
        keys_unique(self.entries@.map_values(|e: (String, String)| (e.0@, e.1@)))
    }

    /// An empty map.
    pub fn new() -> (m: ParamMap)
        ensures
            m@ == Seq::<(Seq<char>, Seq<char>)>::empty(),
            keys_unique(m@),
    {
        let m = ParamMap { entries: Vec::new() };
        assert(m@ =~= Seq::<(Seq<char>, Seq<char>)>::empty());
        m
    }

    /// The number of entries; the keys are unique.
    pub fn len(&self) -> (n: usize)
        ensures
            n == self@.len(),
            keys_unique(self@),
    {
        proof {
            use_type_invariant(self);
        }
        self.entries.len()
    }

    /// Whether the map has no entry.
    pub fn is_empty(&self) -> (b: bool)
        ensures
            b == (self@.len() == 0),
    {
        self.entries.len() == 0
    }

    /// The key of the `i`-th entry.
    pub fn key_at(&self, i: usize) -> (k: &String)
        requires
            i < self@.len(),
        ensures
            k@ == self@[i as int].0,
    {
        &self.entries[i].0
    }

    /// The value of the `i`-th entry.
    pub fn value_at(&self, i: usize) -> (v: &String)
        requires
            i < self@.len(),
        ensures
            v@ == self@[i as int].1,
    {
        &self.entries[i].1
    }

    /// The position of key `k`, if it is present.
    pub fn position(&self, k: &str) -> (r: Option<usize>)
        ensures
            match r {
                Some(i) => i < self@.len() && self@[i as int].0 == k@ && has_key(self@, k@)
                    && key_pos(self@, k@) == i,
                None => !has_key(self@, k@),
            },
    {
        proof {
            use_type_invariant(self);
        }
        let key = String::from_str(k);
        let n = self.entries.len();
        let mut i: usize = 0;
        while i < n
            invariant
                n == self@.len(),
                i <= n,
                keys_unique(self@),
                key@ == k@,
                forall|j: int| 0 <= j < i ==> (#[trigger] self@[j]).0 != k@,
            decreases n - i,
        {
            assert(self@[i as int].0 == self.entries@[i as int].0@);
            if self.entries[i].0 == key {
                proof {
                    lemma_key_pos_unique(self@, i as int);
                }
                return Some(i);
            }
            i = i + 1;
        }
        None
    }

    /// Whether key `k` is present.
    pub fn contains_key(&self, k: &str) -> (b: bool)
        ensures
            b == has_key(self@, k@),
    {
        self.position(k).is_some()
    }

    /// The value stored under `k` (`HashMap::get(..).cloned()`).
    pub fn get(&self, k: &str) -> (r: Option<String>)
        ensures
            match r {
                Some(v) => lookup(self@, k@) == Some(v@),
                None => lookup(self@, k@) is None,
            },
    {
        match self.position(k) {
            Some(i) => Some(self.entries[i].1.clone()),
            None => None,
        }
    }

    /// Stores `v` under `k`, replacing the value of an existing entry in
    /// place, or appending a new entry.
    pub fn insert(&mut self, k: String, v: String)
        ensures
            final(self)@ == insert_entry(old(self)@, k@, v@),
            keys_unique(final(self)@),
    {
        proof {
            use_type_invariant(&*self);
        }
        let ghost old_view = self@;
        let pos = self.position(k.as_str());
        let mut entries: Vec<(String, String)> = Vec::new();
        std::mem::swap(&mut entries, &mut self.entries);
        match pos {
            Some(i) => {
                entries.set(i, (k, v));
            },
            None => {
                entries.push((k, v));
            },
        }
        proof {
            let ev = entries@.map_values(|e: (String, String)| (e.0@, e.1@));
            assert(ev =~= insert_entry(old_view, k@, v@));
            lemma_insert_entry_unique(old_view, k@, v@);
        }
        self.entries = entries;
    }

    /// Removes every entry.
    pub fn clear(&mut self)
        ensures
            final(self)@ == Seq::<(Seq<char>, Seq<char>)>::empty(),
    {
        self.entries = Vec::new();
        assert(self@ =~= Seq::<(Seq<char>, Seq<char>)>::empty());
    }

    /// A copy of the map with the same entries.
    pub fn copy(&self) -> (m: ParamMap)
        ensures
            m@ == self@,
            keys_unique(m@),
    {
        proof {
            use_type_invariant(self);
        }
        let n = self.entries.len();
        let mut entries: Vec<(String, String)> = Vec::new();
        let mut i: usize = 0;
        while i < n
            invariant
                n == self@.len(),
                i <= n,
                n == self.entries@.len(),
                entries@ == self.entries@.subrange(0, i as int),
            decreases n - i,
        {
            let k = self.entries[i].0.clone();
            let v = self.entries[i].1.clone();
            entries.push((k, v));
            i = i + 1;
            assert(entries@ =~= self.entries@.subrange(0, i as int));
        }
        assert(entries@ =~= self.entries@);
        ParamMap { entries }
    }
}

impl Clone for ParamMap {
    fn clone(&self) -> (m: ParamMap)
        ensures
            m@ == self@,
    {
        self.copy()
    }
}

} // verus!
