//! A map keyed by name, kept in name order.
use vstd::prelude::*;

use crate::text::{Place, place};

verus! {

/// A map from names to values. Its entries stand in the byte order of the names.
pub struct NameMap<V: View> {
    entries: Vec<(String, V)>,
}

/// Entries stand in strictly ascending order of their names.
pub open spec fn ascending<W>(list: Seq<(Seq<char>, W)>) -> bool {
    forall|i: int, j: int|
        0 <= i < j < list.len() ==> crate::text::name_before(
            #[trigger] list[i].0,
            #[trigger] list[j].0,
        )
}

/// `list` holds the entries of `map`, each once, in name order.
pub open spec fn lists<W>(list: Seq<(Seq<char>, W)>, map: Map<Seq<char>, W>) -> bool {
    &&& ascending(list)
    &&& forall|i: int|
        0 <= i < list.len() ==> map.contains_key(#[trigger] list[i].0) && map[list[i].0]
            == list[i].1
    &&& forall|k: Seq<char>|
        #[trigger] map.contains_key(k) ==> exists|i: int|
            0 <= i < list.len() && #[trigger] list[i].0 == k
}

/// The entries of `map`, each once, in name order.
pub open spec fn listing<W>(map: Map<Seq<char>, W>) -> Seq<(Seq<char>, W)> {
    choose|list: Seq<(Seq<char>, W)>| lists(list, map)
}

/// The map whose entries `list` holds.
pub open spec fn map_of<W>(list: Seq<(Seq<char>, W)>) -> Map<Seq<char>, W> {
    Map::new(
        |k: Seq<char>| exists|i: int| 0 <= i < list.len() && #[trigger] list[i].0 == k,
        |k: Seq<char>| list[choose|i: int| 0 <= i < list.len() && #[trigger] list[i].0 == k].1,
    )
}

proof fn lemma_lists_map_of<W>(list: Seq<(Seq<char>, W)>)
    requires
        ascending(list),
    ensures
        lists(list, map_of(list)),
{
    let map = map_of(list);
    assert forall|i: int| 0 <= i < list.len() implies map.contains_key(#[trigger] list[i].0)
        && map[list[i].0] == list[i].1 by {
        let k = list[i].0;
        let c = choose|c: int| 0 <= c < list.len() && #[trigger] list[c].0 == k;
        assert(0 <= c < list.len() && list[c].0 == k);
        crate::text::lemma_name_before_irreflexive(k);
        if c < i {
            assert(crate::text::name_before(list[c].0, list[i].0));
        } else if i < c {
            assert(crate::text::name_before(list[i].0, list[c].0));
        }
    }
}

/// A map has one listing.
pub proof fn lemma_one_listing<W>(
    a: Seq<(Seq<char>, W)>,
    b: Seq<(Seq<char>, W)>,
    map: Map<Seq<char>, W>,
)
    requires
        lists(a, map),
        lists(b, map),
    ensures
        a == b,
    decreases a.len(),
{
    if a.len() == 0 {
        if b.len() > 0 {
            assert(map.contains_key(b[0].0));
        }
        assert(a =~= b);
    } else {
        assert(map.contains_key(a[0].0));
        let last = a.last().0;
        assert(a[a.len() - 1].0 == last);
        assert(map.contains_key(last));
        let j = choose|j: int| 0 <= j < b.len() && #[trigger] b[j].0 == last;
        assert(j == b.len() - 1) by {
            if j < b.len() - 1 {
                let after = b[b.len() - 1].0;
                assert(crate::text::name_before(b[j].0, after));
                assert(map.contains_key(after));
                let i = choose|i: int| 0 <= i < a.len() && #[trigger] a[i].0 == after;
                crate::text::lemma_name_before_irreflexive(last);
                if i < a.len() - 1 {
                    assert(crate::text::name_before(a[i].0, a[a.len() - 1].0));
                    crate::text::lemma_name_before_transitive(last, after, last);
                }
            }
        }
        let rest = map.remove(last);
        assert(lists(a.drop_last(), rest)) by {
            lemma_listing_without_last(a, map);
        }
        assert(lists(b.drop_last(), rest)) by {
            lemma_listing_without_last(b, map);
        }
        lemma_one_listing(a.drop_last(), b.drop_last(), rest);
        assert(a =~= a.drop_last().push(a.last()));
        assert(b =~= b.drop_last().push(b.last()));
        assert(a.last().1 == map[last] && b.last().1 == map[last]);
    }
}

proof fn lemma_listing_without_last<W>(a: Seq<(Seq<char>, W)>, map: Map<Seq<char>, W>)
    requires
        lists(a, map),
        a.len() > 0,
    ensures
        lists(a.drop_last(), map.remove(a.last().0)),
{
    let last = a.last().0;
    let rest = map.remove(last);
    let front = a.drop_last();
    assert forall|i: int| 0 <= i < front.len() implies rest.contains_key(#[trigger] front[i].0)
        && rest[front[i].0] == front[i].1 by {
        assert(front[i] == a[i]);
        assert(crate::text::name_before(a[i].0, a[a.len() - 1].0));
        crate::text::lemma_name_before_irreflexive(last);
    }
    assert forall|k: Seq<char>| #[trigger] rest.contains_key(k) implies exists|i: int|
        0 <= i < front.len() && #[trigger] front[i].0 == k by {
        assert(map.contains_key(k));
        let i = choose|i: int| 0 <= i < a.len() && #[trigger] a[i].0 == k;
        assert(front[i].0 == k);
    }
}

impl<V: View> NameMap<V> {
    spec fn list(&self) -> Seq<(Seq<char>, V::V)> {
        Seq::new(self.entries@.len(), |i: int| (self.entries@[i].0@, self.entries@[i].1@))
    }
}

impl<V: View> View for NameMap<V> {
    type V = Map<Seq<char>, V::V>;

    closed spec fn view(&self) -> Map<Seq<char>, V::V> {
        map_of(self.list())
    }
}

impl<V: View> NameMap<V> {
    #[verifier::type_invariant]
    spec fn in_order(&self) -> bool {
        ascending(self.list())
    }

    pub fn new() -> (m: NameMap<V>)
        ensures
            m@ == Map::<Seq<char>, V::V>::empty(),
    {
        let m = NameMap { entries: Vec::new() };
        proof {
            assert(m.list() =~= Seq::<(Seq<char>, V::V)>::empty());
            assert(m@ =~= Map::<Seq<char>, V::V>::empty());
        }
        m
    }

    pub fn len(&self) -> (n: usize)
        ensures
            n == listing(self@).len(),
            lists(listing(self@), self@),
    {
        self.count()
    }

    fn count(&self) -> (n: usize)
        ensures
            n == self.entries@.len(),
            self.list() == listing(self@),
            lists(self.list(), self@),
    {
        proof {
            use_type_invariant(self);
            lemma_lists_map_of(self.list());
            lemma_one_listing(self.list(), listing(self@), self@);
        }
        self.entries.len()
    }

    /// The name of the entry at place `i` in name order.
    pub fn name_at(&self, i: usize) -> (name: &String)
        requires
            i < listing(self@).len(),
        ensures
            name@ == listing(self@)[i as int].0,
    {
        let _ = self.count();
        &self.entries[i].0
    }

    /// The value of the entry at place `i` in name order.
    pub fn value_at(&self, i: usize) -> (value: &V)
        requires
            i < listing(self@).len(),
        ensures
            value@ == listing(self@)[i as int].1,
    {
        let _ = self.count();
        &self.entries[i].1
    }

    /// The place of `name`, or the place where it would stand.
    fn find(&self, name: &str) -> (r: (usize, bool))
        ensures
            r.1 ==> r.0 < self.list().len() && self.list()[r.0 as int].0 == name@,
            !r.1 ==> r.0 <= self.list().len(),
            forall|j: int|
                0 <= j < r.0 ==> crate::text::name_before(#[trigger] self.list()[j].0, name@),
            !r.1 ==> forall|j: int|
                r.0 <= j < self.list().len() ==> crate::text::name_before(
                    name@,
                    #[trigger] self.list()[j].0,
                ),
    {
        proof {
            use_type_invariant(self);
        }
        let ghost list = self.list();
        let mut low: usize = 0;
        let mut high: usize = self.entries.len();
        while low < high
            invariant
                low <= high <= list.len(),
                list == self.list(),
                list.len() == self.entries@.len(),
                ascending(list),
                forall|j: int|
                    0 <= j < low ==> crate::text::name_before(#[trigger] list[j].0, name@),
                forall|j: int|
                    high <= j < list.len() ==> crate::text::name_before(
                        name@,
                        #[trigger] list[j].0,
                    ),
            decreases high - low,
        {
            let mid: usize = low + (high - low) / 2;
            assert(list[mid as int].0 == self.entries@[mid as int].0@);
            match place(self.entries[mid].0.as_str(), name) {
                Place::Same => {
                    return (mid, true);
                },
                Place::Before => {
                    proof {
                        assert forall|j: int| 0 <= j < mid + 1 implies crate::text::name_before(
                            #[trigger] list[j].0,
                            name@,
                        ) by {
                            if j < mid {
                                crate::text::lemma_name_before_transitive(
                                    list[j].0,
                                    list[mid as int].0,
                                    name@,
                                );
                            }
                        }
                    }
                    low = mid + 1;
                },
                Place::After => {
                    proof {
                        assert forall|j: int|
                            mid <= j < list.len() implies crate::text::name_before(
                            name@,
                            #[trigger] list[j].0,
                        ) by {
                            if mid < j {
                                crate::text::lemma_name_before_transitive(
                                    name@,
                                    list[mid as int].0,
                                    list[j].0,
                                );
                            }
                        }
                    }
                    high = mid;
                },
            }
        }
        (low, false)
    }

    pub fn get(&self, name: &str) -> (r: Option<&V>)
        ensures
            match r {
                Some(v) => self@.contains_key(name@) && v@ == self@[name@],
                None => !self@.contains_key(name@),
            },
    {
        proof {
            use_type_invariant(self);
            lemma_lists_map_of(self.list());
        }
        let (at, found) = self.find(name);
        if found {
            assert(self.list()[at as int].0 == name@);
            Some(&self.entries[at].1)
        } else {
            proof {
                self.lemma_not_there(name@, at as int);
            }
            None
        }
    }

    proof fn lemma_not_there(&self, name: Seq<char>, at: int)
        requires
            0 <= at <= self.list().len(),
            forall|j: int|
                0 <= j < at ==> crate::text::name_before(#[trigger] self.list()[j].0, name),
            forall|j: int|
                at <= j < self.list().len() ==> crate::text::name_before(
                    name,
                    #[trigger] self.list()[j].0,
                ),
        ensures
            !self@.contains_key(name),
    {
        crate::text::lemma_name_before_irreflexive(name);
        if self@.contains_key(name) {
            let i = choose|i: int| 0 <= i < self.list().len() && #[trigger] self.list()[i].0 == name;
            assert(self.list()[i].0 == name);
        }
    }

    pub fn contains(&self, name: &str) -> (r: bool)
        ensures
            r == self@.contains_key(name@),
    {
        match self.get(name) {
            Some(_) => true,
            None => false,
        }
    }

    pub fn is_empty(&self) -> (r: bool)
        ensures
            r == (self@ == Map::<Seq<char>, V::V>::empty()),
            r == (self@.dom() == Set::<Seq<char>>::empty()),
    {
        let n = self.count();
        proof {
            if n > 0 {
                assert(self@.contains_key(self.list()[0].0));
                assert(self@.dom().contains(self.list()[0].0));
            } else {
                assert(self@ =~= Map::<Seq<char>, V::V>::empty());
                assert(self@.dom() =~= Set::<Seq<char>>::empty());
            }
        }
        n == 0
    }

    pub fn insert(&mut self, name: String, value: V)
        ensures
            final(self)@ == old(self)@.insert(name@, value@),
    {
        proof {
            use_type_invariant(&*self);
            lemma_lists_map_of(self.list());
        }
        let ghost before = self.list();
        let ghost (key, val) = (name@, value@);
        let (at, found) = self.find(name.as_str());
        let mut entries: Vec<(String, V)> = Vec::new();
        std::mem::swap(&mut entries, &mut self.entries);
        let ghost was = entries@;
        if found {
            entries.set(at, (name, value));
        } else {
            entries.insert(at, (name, value));
        }
        proof {
            let after = Seq::new(entries@.len(), |i: int| (entries@[i].0@, entries@[i].1@));
            assert(before =~= Seq::new(was.len(), |i: int| (was[i].0@, was[i].1@)));
            if found {
                assert(after =~= before.update(at as int, (key, val)));
                assert(ascending(after));
            } else {
                assert(after =~= before.insert(at as int, (key, val)));
                assert forall|i: int, j: int|
                    0 <= i < j < after.len() implies crate::text::name_before(
                    #[trigger] after[i].0,
                    #[trigger] after[j].0,
                ) by {
                    if i < at && j > at {
                        assert(after[i] == before[i] && after[j] == before[j - 1]);
                        assert(crate::text::name_before(before[i].0, before[j - 1].0));
                    } else if i < at && j < at {
                        assert(after[i] == before[i] && after[j] == before[j]);
                    } else if i > at {
                        assert(after[i] == before[i - 1] && after[j] == before[j - 1]);
                    } else if i == at {
                        assert(after[j] == before[j - 1]);
                    } else {
                        assert(after[i] == before[i]);
                    }
                }
            }
            lemma_lists_map_of(after);
            let m = map_of(after);
            let want = map_of(before).insert(key, val);
            assert(m =~= want) by {
                assert(after[at as int] == (key, val));
                assert forall|k: Seq<char>| m.contains_key(k) == want.contains_key(k) by {
                    if m.contains_key(k) {
                        let i = choose|i: int| 0 <= i < after.len() && #[trigger] after[i].0 == k;
                        if i != at {
                            let b = if found || i < at {
                                i
                            } else {
                                i - 1
                            };
                            assert(before[b] == after[i]);
                        }
                    }
                    if want.contains_key(k) && k != key {
                        let b = choose|b: int|
                            0 <= b < before.len() && #[trigger] before[b].0 == k;
                        let i = if found || b < at {
                            b
                        } else {
                            b + 1
                        };
                        assert(after[i] == before[b]);
                    }
                }
                assert forall|k: Seq<char>| #[trigger] m.contains_key(k) implies m[k]
                    == want[k] by {
                    let i = choose|i: int| 0 <= i < after.len() && #[trigger] after[i].0 == k;
                    assert(m[k] == after[i].1);
                    if i != at {
                        let b = if found || i < at {
                            i
                        } else {
                            i - 1
                        };
                        assert(before[b] == after[i]);
                        assert(k != key) by {
                            crate::text::lemma_name_before_irreflexive(key);
                            assert(crate::text::name_before(after[i].0, after[at as int].0)
                                || crate::text::name_before(after[at as int].0, after[i].0));
                        }
                    }
                }
            }
        }
        self.entries = entries;
        assert(self.list() =~= Seq::new(
            self.entries@.len(),
            |i: int| (self.entries@[i].0@, self.entries@[i].1@),
        ));
    }

    pub fn remove(&mut self, name: &str) -> (r: Option<V>)
        ensures
            final(self)@ == old(self)@.remove(name@),
            match r {
                Some(v) => old(self)@.contains_key(name@) && v@ == old(self)@[name@],
                None => !old(self)@.contains_key(name@),
            },
    {
        proof {
            use_type_invariant(&*self);
            lemma_lists_map_of(self.list());
        }
        let ghost before = self.list();
        let (at, found) = self.find(name);
        if !found {
            proof {
                self.lemma_not_there(name@, at as int);
                assert(self@ =~= self@.remove(name@));
            }
            return None;
        }
        assert(before[at as int].0 == name@);
        let mut entries: Vec<(String, V)> = Vec::new();
        std::mem::swap(&mut entries, &mut self.entries);
        let ghost was = entries@;
        let (_, value) = entries.remove(at);
        proof {
            let after = Seq::new(entries@.len(), |i: int| (entries@[i].0@, entries@[i].1@));
            assert(before =~= Seq::new(was.len(), |i: int| (was[i].0@, was[i].1@)));
            assert(after =~= before.remove(at as int));
            assert forall|i: int, j: int|
                0 <= i < j < after.len() implies crate::text::name_before(
                #[trigger] after[i].0,
                #[trigger] after[j].0,
            ) by {
                let a = if i < at {
                    i
                } else {
                    i + 1
                };
                let b = if j < at {
                    j
                } else {
                    j + 1
                };
                assert(after[i] == before[a] && after[j] == before[b]);
            }
            lemma_lists_map_of(after);
            let m = map_of(after);
            let want = map_of(before).remove(name@);
            assert(m =~= want) by {
                assert forall|k: Seq<char>| m.contains_key(k) == want.contains_key(k) by {
                    if m.contains_key(k) {
                        let i = choose|i: int| 0 <= i < after.len() && #[trigger] after[i].0 == k;
                        let b = if i < at {
                            i
                        } else {
                            i + 1
                        };
                        assert(before[b] == after[i]);
                        crate::text::lemma_name_before_irreflexive(k);
                        assert(crate::text::name_before(before[b].0, before[at as int].0)
                            || crate::text::name_before(before[at as int].0, before[b].0));
                    }
                    if want.contains_key(k) {
                        let b = choose|b: int|
                            0 <= b < before.len() && #[trigger] before[b].0 == k;
                        let i = if b < at {
                            b
                        } else {
                            b - 1
                        };
                        assert(after[i] == before[b]);
                    }
                }
                assert forall|k: Seq<char>| #[trigger] m.contains_key(k) implies m[k]
                    == want[k] by {
                    let i = choose|i: int| 0 <= i < after.len() && #[trigger] after[i].0 == k;
                    let b = if i < at {
                        i
                    } else {
                        i + 1
                    };
                    assert(before[b] == after[i]);
                    assert(m[k] == after[i].1);
                }
            }
        }
        self.entries = entries;
        Some(value)
    }
}

} // verus!
