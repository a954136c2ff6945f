//! The fingerprint table: one fingerprint for each hashed path.

use vstd::prelude::*;
use crate::fingerprint::Fingerprint;

verus! {

/// Whether no key occurs twice in `keys`.
pub open spec fn distinct(keys: Seq<Seq<char>>) -> bool {
    forall|i: int, j: int| 0 <= i < j < keys.len() ==> keys[i] != keys[j]
}

/// The mapping that `keys` and `prints` hold, position by position.
pub open spec fn mapping(keys: Seq<Seq<char>>, prints: Seq<Seq<bool>>) -> Map<
    Seq<char>,
    Seq<bool>,
> {
    Map::new(|k: Seq<char>| keys.contains(k), |k: Seq<char>| prints[keys.index_of(k)])
}

#[derive(Debug)]
struct TableEntry {
    path: String,
    print: Fingerprint,
}

/// A table from file path to fingerprint. It keeps its keys in the order in
/// which they first came, and holds no key twice.
#[derive(Debug)]
pub struct FingerprintTable {
    entries: Vec<TableEntry>,
}

impl FingerprintTable {
    /// The table's invariant: it holds no key twice, and a fingerprint for each key.
    pub open spec fn wf(&self) -> bool {
        distinct(self.keys()) && self.keys().len() == self.prints().len()
    }

    /// The paths of the table, in the order in which they first came.
    pub closed spec fn keys(&self) -> Seq<Seq<char>> {
        Seq::new(self.entries@.len(), |i: int| self.entries@[i].path@)
    }

    /// The fingerprints of the table, each at the position of its path.
    pub closed spec fn prints(&self) -> Seq<Seq<bool>> {
        Seq::new(self.entries@.len(), |i: int| self.entries@[i].print@)
    }

    /// The table as a mapping from path to fingerprint.
    pub open spec fn as_map(&self) -> Map<Seq<char>, Seq<bool>> {
        mapping(self.keys(), self.prints())
    }

    /// An empty table.
    pub fn new() -> (r: FingerprintTable)
        ensures
            r.wf(),
            r.keys() == Seq::<Seq<char>>::empty(),
            r.prints() == Seq::<Seq<bool>>::empty(),
    {
        FingerprintTable { entries: Vec::new() }
    }

    /// Number of paths in the table.
    pub fn len(&self) -> (r: usize)
        ensures
            r == self.keys().len(),
            r == self.prints().len(),
    {
        self.entries.len()
    }

    /// The path at position `index`.
    pub fn path(&self, index: usize) -> (r: &String)
        requires
            index < self.keys().len(),
        ensures
            r@ == self.keys()[index as int],
    {
        &self.entries[index].path
    }

    /// The fingerprint at position `index`.
    pub fn fingerprint(&self, index: usize) -> (r: &Fingerprint)
        requires
            index < self.keys().len(),
        ensures
            r@ == self.prints()[index as int],
    {
        &self.entries[index].print
    }

    /// The position of `path` in the table, if it is a key.
    pub fn position(&self, path: &String) -> (r: Option<usize>)
        ensures
            match r {
                Some(index) => index < self.keys().len() && self.keys()[index as int] == path@,
                None => !self.keys().contains(path@),
            },
    {
        let mut i: usize = 0;
        while i < self.entries.len()
            invariant
                i <= self.entries@.len(),
                forall|k: int| 0 <= k < i ==> self.keys()[k] != path@,
            decreases self.entries@.len() - i,
        {
            if self.entries[i].path == *path {
                return Some(i);
            }
            i = i + 1;
        }
        None
    }

    /// Sets the fingerprint of `path`. A path that is new to the table goes to
    /// its end; one that is a key already keeps its position and has its
    /// fingerprint replaced. Returns whether the path was new.
    pub fn insert(&mut self, path: String, print: Fingerprint) -> (r: bool)
        requires
            old(self).wf(),
        ensures
            final(self).wf(),
            r == !old(self).keys().contains(path@),
            r ==> final(self).keys() == old(self).keys().push(path@) && final(self).prints() == old(
                self,
            ).prints().push(print@),
            !r ==> final(self).keys() == old(self).keys() && final(self).prints() == old(
                self,
            ).prints().update(old(self).keys().index_of(path@), print@),
            final(self).as_map() == old(self).as_map().insert(path@, print@),
    {
        let ghost before = *self;
        match self.position(&path) {
            Some(index) => {
                proof {
                    lemma_index_of(before.keys(), index as int);
                    lemma_mapping_update(before.keys(), before.prints(), index as int, print@);
                }
                self.entries.set(index, TableEntry { path, print });
                assert(self.keys() =~= before.keys());
                assert(self.prints() =~= before.prints().update(index as int, print@));
                false
            },
            None => {
                proof {
                    lemma_mapping_push(before.keys(), before.prints(), path@, print@);
                }
                self.entries.push(TableEntry { path, print });
                assert(self.keys() =~= before.keys().push(path@));
                assert(self.prints() =~= before.prints().push(print@));
                true
            },
        }
    }
}

/// In a sequence of distinct keys, a key is found where it stands.
pub proof fn lemma_index_of(keys: Seq<Seq<char>>, index: int)
    requires
        distinct(keys),
        0 <= index < keys.len(),
    ensures
        keys.contains(keys[index]),
        keys.index_of(keys[index]) == index,
{
    let found = keys.index_of(keys[index]);
    assert(keys.contains(keys[index]));
    assert(0 <= found < keys.len() && keys[found] == keys[index]);
}

/// Replacing the fingerprint at a key's position sets the key in the mapping.
proof fn lemma_mapping_update(
    keys: Seq<Seq<char>>,
    prints: Seq<Seq<bool>>,
    index: int,
    print: Seq<bool>,
)
    requires
        distinct(keys),
        keys.len() == prints.len(),
        0 <= index < keys.len(),
    ensures
        mapping(keys, prints.update(index, print)) == mapping(keys, prints).insert(
            keys[index],
            print,
        ),
{
    let left = mapping(keys, prints.update(index, print));
    let right = mapping(keys, prints).insert(keys[index], print);
    lemma_index_of(keys, index);
    assert forall|k: Seq<char>| left.dom().contains(k) <==> right.dom().contains(k) by {}
    assert forall|k: Seq<char>| #[trigger] left.dom().contains(k) implies left[k] == right[k] by {
        let at = keys.index_of(k);
        assert(0 <= at < keys.len() && keys[at] == k);
        if at != index {
            assert(k != keys[index]);
        }
    }
    assert(left =~= right);
}

/// Adding a new key with its fingerprint at the end sets the key in the mapping.
proof fn lemma_mapping_push(
    keys: Seq<Seq<char>>,
    prints: Seq<Seq<bool>>,
    key: Seq<char>,
    print: Seq<bool>,
)
    requires
        distinct(keys),
        keys.len() == prints.len(),
        !keys.contains(key),
    ensures
        distinct(keys.push(key)),
        mapping(keys.push(key), prints.push(print)) == mapping(keys, prints).insert(key, print),
{
    let more = keys.push(key);
    assert forall|i: int, j: int| 0 <= i < j < more.len() implies more[i] != more[j] by {
        if j == keys.len() {
            assert(keys[i] == more[i]);
            assert(keys.contains(keys[i]));
        }
    }
    let left = mapping(more, prints.push(print));
    let right = mapping(keys, prints).insert(key, print);
    assert(more[keys.len() as int] == key);
    assert forall|k: Seq<char>| left.dom().contains(k) <==> right.dom().contains(k) by {
        if keys.contains(k) {
            let at = keys.index_of(k);
            assert(more[at] == k);
        }
        if more.contains(k) && k != key {
            let at = more.index_of(k);
            assert(keys[at] == k);
        }
    }
    assert forall|k: Seq<char>| #[trigger] left.dom().contains(k) implies left[k] == right[k] by {
        let at = more.index_of(k);
        assert(0 <= at < more.len() && more[at] == k);
        if k == key {
            lemma_index_of(more, keys.len() as int);
        } else {
            assert(keys[at] == k);
            lemma_index_of(keys, at);
            lemma_index_of(more, at);
        }
    }
    assert(left =~= right);
}

} // verus!
