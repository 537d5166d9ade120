//! An insertion-ordered table keyed by relative path.
//!
//! The table stands for a mapping in which no path occurs twice; the order in
//! which paths were first inserted is kept, so that walking the table always
//! gives the same sequence.

use vstd::prelude::*;

verus! {

/// What a path table holds: the paths in insertion order, and the value of each.
pub struct TableView<T> {
    pub order: Seq<Seq<char>>,
    pub map: Map<Seq<char>, T>,
}

impl<T> TableView<T> {
    /// No path occurs twice, and the paths are exactly the keys of the map.
    pub open spec fn wf(self) -> bool {
        &&& self.order.no_duplicates()
        &&& forall|p: Seq<char>| self.map.contains_key(p) <==> self.order.contains(p)
    }

    /// The table without entries.
    pub open spec fn empty() -> Self {
        TableView { order: Seq::empty(), map: Map::empty() }
    }

    /// Whether the table has an entry for `path`.
    pub open spec fn contains(self, path: Seq<char>) -> bool {
        self.map.contains_key(path)
    }

    /// The table with `path` bound to `value`. A path that is already present
    /// keeps its place; a new one goes to the end.
    pub open spec fn insert(self, path: Seq<char>, value: T) -> Self {
        TableView {
            order: if self.map.contains_key(path) {
                self.order
            } else {
                self.order.push(path)
            },
            map: self.map.insert(path, value),
        }
    }

    /// Insertion keeps a table well formed.
    pub proof fn lemma_insert_wf(self, path: Seq<char>, value: T)
        requires
            self.wf(),
        ensures
            self.insert(path, value).wf(),
    {
        let next = self.insert(path, value);
        if self.map.contains_key(path) {
            assert forall|p: Seq<char>| next.map.contains_key(p) <==> next.order.contains(
                p,
            ) by {}
        } else {
            assert forall|p: Seq<char>| next.map.contains_key(p) <==> next.order.contains(
                p,
            ) by {
                if p == path {
                    assert(next.order[self.order.len() as int] == path);
                } else if self.order.contains(p) {
                    let i = self.order.index_of(p);
                    assert(next.order[i] == p);
                } else if next.order.contains(p) {
                    let i = next.order.index_of(p);
                    assert(i < self.order.len());
                    assert(self.order[i] == p);
                }
            }
            assert forall|i: int, j: int|
                0 <= i < next.order.len() && 0 <= j < next.order.len() && i != j implies next.order[i]
                != next.order[j] by {
                if i < self.order.len() {
                    assert(self.order.contains(self.order[i]));
                }
                if j < self.order.len() {
                    assert(self.order.contains(self.order[j]));
                }
            }
        }
    }
}

/// In a sequence without duplicates, an element is found where it stands.
pub proof fn lemma_index_of_unique(s: Seq<Seq<char>>, i: int)
    requires
        s.no_duplicates(),
        0 <= i < s.len(),
    ensures
        s.index_of(s[i]) == i,
{
    let j = s.index_of(s[i]);
    assert(0 <= j < s.len() && s[j] == s[i]);
}

/// A table from relative paths to values of type `V`.
pub struct PathMap<V> {
    entries: Vec<(String, V)>,
}

/// The paths of a sequence of entries.
pub open spec fn entry_paths<V>(entries: Seq<(String, V)>) -> Seq<Seq<char>> {
    entries.map_values(|e: (String, V)| e.0@)
}

impl<V> PathMap<V> {
    #[verifier::type_invariant]
    pub closed spec fn inv(&self) -> bool {
        entry_paths(self.entries@).no_duplicates()
    }
}

impl<V: View> View for PathMap<V> {
    type V = TableView<V::V>;

    closed spec fn view(&self) -> TableView<V::V> {
        TableView {
            order: entry_paths(self.entries@),
            map: Map::new(
                |p: Seq<char>| entry_paths(self.entries@).contains(p),
                |p: Seq<char>| self.entries@[entry_paths(self.entries@).index_of(p)].1@,
            ),
        }
    }
}

impl<V: View> PathMap<V> {
    /// The empty table.
    pub fn new() -> (table: Self)
        ensures
            table@ == TableView::<V::V>::empty(),
    {
        let table = PathMap { entries: Vec::new() };
        assert(table@.map =~= Map::empty());
        assert(table@.order =~= Seq::empty());
        table
    }

    /// The number of entries.
    pub fn len(&self) -> (n: usize)
        ensures
            n == self@.order.len(),
            self@.wf(),
    {
        proof {
            use_type_invariant(self);
        }
        self.entries.len()
    }

    /// The path of the entry at position `i`.
    pub fn path_at(&self, i: usize) -> (path: &String)
        requires
            i < self@.order.len(),
        ensures
            path@ == self@.order[i as int],
    {
        &self.entries[i].0
    }

    /// The value of the entry at position `i`.
    pub fn value_at(&self, i: usize) -> (value: &V)
        requires
            i < self@.order.len(),
        ensures
            self@.map.contains_key(self@.order[i as int]),
            value@ == self@.map[self@.order[i as int]],
    {
        proof {
            use_type_invariant(self);
            lemma_index_of_unique(entry_paths(self.entries@), i as int);
        }
        &self.entries[i].1
    }

    /// The position of `path`, if the table has an entry for it.
    pub fn position(&self, path: &String) -> (found: Option<usize>)
        ensures
            self@.wf(),
            match found {
                Some(i) => i < self@.order.len() && self@.order[i as int] == path@,
                None => !self@.map.contains_key(path@),
            },
    {
        proof {
            use_type_invariant(self);
        }
        let mut i: usize = 0;
        while i < self.entries.len()
            invariant
                i <= self.entries.len(),
                self@.wf(),
                forall|j: int| 0 <= j < i ==> entry_paths(self.entries@)[j] != path@,
            decreases self.entries.len() - i,
        {
            if self.entries[i].0 == *path {
                return Some(i);
            }
            i += 1;
        }
        None
    }

    /// Whether the table has an entry for `path`.
    pub fn contains_key(&self, path: &String) -> (present: bool)
        ensures
            self@.wf(),
            present == self@.map.contains_key(path@),
    {
        self.position(path).is_some()
    }

    /// The value bound to `path`, if there is one.
    pub fn get(&self, path: &String) -> (value: Option<&V>)
        ensures
            self@.wf(),
            match value {
                Some(v) => self@.map.contains_key(path@) && v@ == self@.map[path@],
                None => !self@.map.contains_key(path@),
            },
    {
        match self.position(path) {
            Some(i) => Some(self.value_at(i)),
            None => None,
        }
    }

    /// Binds `path` to `value`. An entry that was there keeps its place and
    /// takes the new value; otherwise a new entry goes to the end.
    pub fn insert(&mut self, path: String, value: V)
        ensures
            final(self)@ == old(self)@.insert(path@, value@),
            final(self)@.wf(),
    {
        proof {
            use_type_invariant(&*self);
        }
        let ghost before = *self;
        let found = self.position(&path);
        let mut entries: Vec<(String, V)> = Vec::new();
        core::mem::swap(&mut self.entries, &mut entries);
        let ghost old_keys = entry_paths(entries@);
        match found {
            Some(i) => {
                entries.set(i, (path, value));
                proof {
                    let keys = entry_paths(entries@);
                    assert(keys =~= old_keys);
                }
            },
            None => {
                entries.push((path, value));
                proof {
                    let keys = entry_paths(entries@);
                    assert(keys =~= old_keys.push(path@));
                    before@.lemma_insert_wf(path@, value@);
                }
            },
        }
        proof {
            before@.lemma_insert_wf(path@, value@);
            let keys = entry_paths(entries@);
            assert(keys =~= before@.insert(path@, value@).order);
        }
        core::mem::swap(&mut self.entries, &mut entries);
        proof {
            let keys = entry_paths(self.entries@);
            let want = before@.insert(path@, value@);
            assert forall|p: Seq<char>| keys.contains(p) implies #[trigger] self@.map[p]
                == want.map[p] by {
                let j = keys.index_of(p);
                lemma_index_of_unique(keys, j);
                if j < old_keys.len() {
                    assert(old_keys[j] == p);
                    lemma_index_of_unique(old_keys, j);
                }
            }
            assert(self@.map =~= want.map);
        }
    }
}

} // verus!
