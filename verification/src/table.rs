//! A small map with keys that can be told apart, in order of insertion.
use vstd::prelude::*;

use crate::addr::SocketAddr;
use crate::identity::NodeId;
use crate::text::same;

verus! {

/// What a [`Table`] can be keyed by.
pub trait Key: Sized {
    type Id;

    /// What tells one key from another.
    spec fn id(&self) -> Self::Id;

    fn matches_key(&self, other: &Self) -> (b: bool)
        ensures
            b == (self.id() == other.id()),
    ;
}

impl Key for NodeId {
    type Id = NodeId;

    open spec fn id(&self) -> NodeId {
        *self
    }

    fn matches_key(&self, other: &NodeId) -> (b: bool) {
        self.0 == other.0
    }
}

impl Key for SocketAddr {
    type Id = SocketAddr;

    open spec fn id(&self) -> SocketAddr {
        *self
    }

    fn matches_key(&self, other: &SocketAddr) -> (b: bool) {
        *self == *other
    }
}

/// One incarnation of a channel name.
#[derive(PartialEq, Eq, Debug)]
pub struct Incarnation {
    pub name: String,
    pub epoch: u64,
}

impl View for Incarnation {
    type V = (Seq<char>, u64);

    open spec fn view(&self) -> (Seq<char>, u64) {
        (self.name@, self.epoch)
    }
}

impl Clone for Incarnation {
    fn clone(&self) -> (r: Incarnation)
        ensures
            r@ == self@,
    {
        Incarnation { name: self.name.clone(), epoch: self.epoch }
    }
}

impl Key for Incarnation {
    type Id = (Seq<char>, u64);

    open spec fn id(&self) -> (Seq<char>, u64) {
        self@
    }

    fn matches_key(&self, other: &Incarnation) -> (b: bool) {
        self.epoch == other.epoch && same(self.name.as_str(), other.name.as_str())
    }
}

/// A map from keys to values.
pub struct Table<K: Key, V> {
    entries: Vec<(K, V)>,
}

pub open spec fn distinct<I, V>(list: Seq<(I, V)>) -> bool {
    forall|i: int, j: int|
        0 <= i < j < list.len() ==> (#[trigger] list[i]).0 != (#[trigger] list[j]).0
}

/// `list` holds the entries of `map`, each once.
pub open spec fn holds<I, V>(list: Seq<(I, V)>, map: Map<I, V>) -> bool {
    &&& distinct(list)
    &&& forall|i: int|
        0 <= i < list.len() ==> map.contains_key((#[trigger] list[i]).0) && map[list[i].0]
            == list[i].1
    &&& forall|k: I|
        #[trigger] map.contains_key(k) ==> exists|i: int|
            0 <= i < list.len() && (#[trigger] list[i]).0 == k
}

/// The map whose entries `list` holds.
pub open spec fn table_of<I, V>(list: Seq<(I, V)>) -> Map<I, V> {
    Map::new(
        |k: I| exists|i: int| 0 <= i < list.len() && (#[trigger] list[i]).0 == k,
        |k: I| list[choose|i: int| 0 <= i < list.len() && (#[trigger] list[i]).0 == k].1,
    )
}

proof fn lemma_holds_table_of<I, V>(list: Seq<(I, V)>)
    requires
        distinct(list),
    ensures
        holds(list, table_of(list)),
{
    let map = table_of(list);
    assert forall|i: int| 0 <= i < list.len() implies map.contains_key((#[trigger] list[i]).0)
        && map[list[i].0] == list[i].1 by {
        let k = list[i].0;
        let c = choose|c: int| 0 <= c < list.len() && (#[trigger] list[c]).0 == k;
        assert(0 <= c < list.len() && list[c].0 == k);
        if c < i {
            assert(list[c].0 != list[i].0);
        } else if i < c {
            assert(list[i].0 != list[c].0);
        }
    }
}

impl<K: Key, V> Table<K, V> {
    /// The entries, in order of insertion.
    pub closed spec fn list(&self) -> Seq<(K::Id, V)> {
        Seq::new(self.entries@.len(), |i: int| (self.entries@[i].0.id(), self.entries@[i].1))
    }
}

impl<K: Key, V> View for Table<K, V> {
    type V = Map<K::Id, V>;

    closed spec fn view(&self) -> Map<K::Id, V> {
        table_of(self.list())
    }
}

impl<K: Key, V> Table<K, V> {
    #[verifier::type_invariant]
    spec fn no_key_twice(&self) -> bool {
        distinct(self.list())
    }

    pub fn new() -> (t: Table<K, V>)
        ensures
            t@ == Map::<K::Id, V>::empty(),
    {
        let t = Table { entries: Vec::new() };
        proof {
            assert(t.list() =~= Seq::<(K::Id, V)>::empty());
            assert(t@ =~= Map::<K::Id, V>::empty());
        }
        t
    }

    pub fn len(&self) -> (n: usize)
        ensures
            n == self.list().len(),
            holds(self.list(), self@),
    {
        proof {
            use_type_invariant(self);
            lemma_holds_table_of(self.list());
        }
        self.entries.len()
    }

    pub fn key_at(&self, i: usize) -> (key: &K)
        requires
            i < self.list().len(),
        ensures
            key.id() == self.list()[i as int].0,
    {
        &self.entries[i].0
    }

    pub fn value_at(&self, i: usize) -> (value: &V)
        requires
            i < self.list().len(),
        ensures
            *value == self.list()[i as int].1,
    {
        &self.entries[i].1
    }

    fn find(&self, key: &K) -> (r: Option<usize>)
        ensures
            match r {
                Some(i) => i < self.list().len() && self.list()[i as int].0 == key.id(),
                None => forall|i: int|
                    0 <= i < self.list().len() ==> (#[trigger] self.list()[i]).0 != key.id(),
            },
    {
        let mut i: usize = 0;
        while i < self.entries.len()
            invariant
                i <= self.entries@.len(),
                self.list().len() == self.entries@.len(),
                forall|j: int| 0 <= j < i ==> (#[trigger] self.list()[j]).0 != key.id(),
            decreases self.entries@.len() - i,
        {
            if self.entries[i].0.matches_key(key) {
                return Some(i);
            }
            i = i + 1;
        }
        None
    }

    pub fn get(&self, key: &K) -> (r: Option<&V>)
        ensures
            match r {
                Some(v) => self@.contains_key(key.id()) && *v == self@[key.id()],
                None => !self@.contains_key(key.id()),
            },
    {
        proof {
            use_type_invariant(self);
            lemma_holds_table_of(self.list());
        }
        match self.find(key) {
            Some(i) => {
                assert(self.list()[i as int].0 == key.id());
                Some(&self.entries[i].1)
            },
            None => None,
        }
    }

    pub fn contains(&self, key: &K) -> (r: bool)
        ensures
            r == self@.contains_key(key.id()),
    {
        match self.get(key) {
            Some(_) => true,
            None => false,
        }
    }

    pub fn insert(&mut self, key: K, value: V)
        ensures
            final(self)@ == old(self)@.insert(key.id(), value),
    {
        proof {
            use_type_invariant(&*self);
            lemma_holds_table_of(self.list());
        }
        let ghost before = self.list();
        let ghost k0 = key.id();
        let found = self.find(&key);
        let mut entries: Vec<(K, V)> = Vec::new();
        std::mem::swap(&mut entries, &mut self.entries);
        let ghost was = entries@;
        let ghost at: int = match found {
            Some(i) => i as int,
            None => was.len() as int,
        };
        match found {
            Some(i) => {
                entries.set(i, (key, value));
            },
            None => {
                entries.push((key, value));
            },
        }
        proof {
            let after = Seq::new(entries@.len(), |i: int| (entries@[i].0.id(), entries@[i].1));
            assert(before =~= Seq::new(was.len(), |i: int| (was[i].0.id(), was[i].1)));
            if found is Some {
                assert(after =~= before.update(at, (k0, value)));
            } else {
                assert(after =~= before.push((k0, value)));
            }
            assert(distinct(after));
            lemma_holds_table_of(after);
            let m = table_of(after);
            let want = table_of(before).insert(k0, value);
            assert(after[at] == (k0, value));
            assert(m =~= want) by {
                assert forall|k: K::Id| m.contains_key(k) == want.contains_key(k) by {
                    if m.contains_key(k) {
                        let i = choose|i: int| 0 <= i < after.len() && (#[trigger] after[i]).0 == k;
                        if i != at {
                            assert(before[i] == after[i]);
                        }
                    }
                    if want.contains_key(k) && k != k0 {
                        let i = choose|i: int|
                            0 <= i < before.len() && (#[trigger] before[i]).0 == k;
                        assert(after[i] == before[i]);
                    }
                }
                assert forall|k: K::Id| #[trigger] m.contains_key(k) implies m[k] == want[k] by {
                    let i = choose|i: int| 0 <= i < after.len() && (#[trigger] after[i]).0 == k;
                    assert(m[k] == after[i].1);
                    if i != at {
                        assert(before[i] == after[i]);
                    }
                }
            }
        }
        self.entries = entries;
    }

    pub fn remove(&mut self, key: &K)
        ensures
            final(self)@ == old(self)@.remove(key.id()),
    {
        proof {
            use_type_invariant(&*self);
            lemma_holds_table_of(self.list());
        }
        let ghost before = self.list();
        match self.find(key) {
            Some(at) => {
                let mut entries: Vec<(K, V)> = Vec::new();
                std::mem::swap(&mut entries, &mut self.entries);
                let ghost was = entries@;
                let _ = entries.remove(at);
                proof {
                    let after = Seq::new(
                        entries@.len(),
                        |i: int| (entries@[i].0.id(), entries@[i].1),
                    );
                    assert(before =~= Seq::new(was.len(), |i: int| (was[i].0.id(), was[i].1)));
                    assert(after =~= before.remove(at as int));
                    assert(distinct(after)) by {
                        assert forall|i: int, j: int| 0 <= i < j < after.len() implies (
                        #[trigger] after[i]).0 != (#[trigger] after[j]).0 by {
                            let a = if i < at {
                                i
                            } else {
                                i + 1
                            };
                            let b = if j < at {
                                j
                            } else {
                                j + 1
                            };
                            assert(after[i] == before[a] && after[j] == before[b]);
                        }
                    }
                    lemma_holds_table_of(after);
                    let m = table_of(after);
                    let want = table_of(before).remove(key.id());
                    assert(m =~= want) by {
                        assert forall|k: K::Id| m.contains_key(k) == want.contains_key(k) by {
                            if m.contains_key(k) {
                                let i = choose|i: int|
                                    0 <= i < after.len() && (#[trigger] after[i]).0 == k;
                                let b = if i < at {
                                    i
                                } else {
                                    i + 1
                                };
                                assert(before[b] == after[i]);
                                assert(before[at as int].0 == key.id());
                            }
                            if want.contains_key(k) {
                                let b = choose|b: int|
                                    0 <= b < before.len() && (#[trigger] before[b]).0 == k;
                                let i = if b < at {
                                    b
                                } else {
                                    b - 1
                                };
                                assert(after[i] == before[b]);
                            }
                        }
                        assert forall|k: K::Id| #[trigger] m.contains_key(k) implies m[k]
                            == want[k] by {
                            let i = choose|i: int|
                                0 <= i < after.len() && (#[trigger] after[i]).0 == k;
                            let b = if i < at {
                                i
                            } else {
                                i + 1
                            };
                            assert(before[b] == after[i]);
                            assert(m[k] == after[i].1);
                        }
                    }
                }
                self.entries = entries;
            },
            None => {
                assert(self@ =~= self@.remove(key.id()));
            },
        }
    }
}

} // verus!
