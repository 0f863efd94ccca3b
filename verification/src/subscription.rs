//! Subscriptions: replicas of remote channels, and how they fare.
use vstd::prelude::*;

verus! {

/// How often a subscription had to discard its replica and pull the channel anew, by cause, and when
/// it last did.
#[derive(Clone, Copy, PartialEq, Eq, Debug, Structural)]
pub struct RebuildStats {
    pub gap: u64,
    pub diverged: u64,
    /// Unix milliseconds; zero for never.
    pub last_at_ms: u64,
}

impl Default for RebuildStats {
    fn default() -> (r: RebuildStats)
        ensures
            r == (RebuildStats { gap: 0, diverged: 0, last_at_ms: 0 }),
    {
        RebuildStats { gap: 0, diverged: 0, last_at_ms: 0 }
    }
}

/// A time that zero stands for the lack of.
pub open spec fn since_epoch(ms: u64) -> Option<u64> {
    if ms == 0 {
        None
    } else {
        Some(ms)
    }
}

impl RebuildStats {
    /// Rebuilds because the replica fell behind what the source still retains.
    pub fn gap(&self) -> (n: u64)
        ensures
            n == self.gap,
    {
        self.gap
    }

    /// Rebuilds because the replica belongs to another incarnation of the name.
    pub fn diverged(&self) -> (n: u64)
        ensures
            n == self.diverged,
    {
        self.diverged
    }

    /// When the replica was last rebuilt, in Unix milliseconds; `None` if it never was.
    pub fn last_at_ms(&self) -> (r: Option<u64>)
        ensures
            r == since_epoch(self.last_at_ms),
    {
        if self.last_at_ms == 0 {
            None
        } else {
            Some(self.last_at_ms)
        }
    }

    /// These statistics with one more rebuild at `now_ms`. The counters wrap.
    pub open spec fn with_rebuild(self, diverged: bool, now_ms: u64) -> RebuildStats {
        if diverged {
            RebuildStats {
                diverged: self.diverged.wrapping_add(1),
                last_at_ms: now_ms,
                gap: self.gap,
            }
        } else {
            RebuildStats {
                gap: self.gap.wrapping_add(1),
                last_at_ms: now_ms,
                diverged: self.diverged,
            }
        }
    }

    /// These statistics after all of `records`, first to last.
    pub open spec fn after_all(self, records: Seq<(bool, u64)>) -> RebuildStats
        decreases records.len(),
    {
        if records.len() == 0 {
            self
        } else {
            self.after_all(records.drop_last()).with_rebuild(records.last().0, records.last().1)
        }
    }

    /// Counts a rebuild at `now_ms`.
    pub fn record(&mut self, diverged: bool, now_ms: u64)
        ensures
            *final(self) == old(self).with_rebuild(diverged, now_ms),
    {
        if diverged {
            self.diverged = self.diverged.wrapping_add(1);
        } else {
            self.gap = self.gap.wrapping_add(1);
        }
        self.last_at_ms = now_ms;
    }
}

/// How many of `records` were for divergence, or were not.
pub open spec fn rebuilds_for(records: Seq<(bool, u64)>, diverged: bool) -> nat
    decreases records.len(),
{
    if records.len() == 0 {
        0
    } else {
        rebuilds_for(records.drop_last(), diverged) + if records.last().0 == diverged {
            1nat
        } else {
            0
        }
    }
}

/// Over a run of rebuilds each counter grows by those of its own cause, round the end of its range,
/// every rebuild is counted once, and the time is that of the last.
pub proof fn law_rebuilds_add_up(stats: RebuildStats, records: Seq<(bool, u64)>)
    ensures
        stats.after_all(records).gap == (stats.gap + rebuilds_for(records, false))
            % 0x1_0000_0000_0000_0000,
        stats.after_all(records).diverged == (stats.diverged + rebuilds_for(records, true))
            % 0x1_0000_0000_0000_0000,
        rebuilds_for(records, false) + rebuilds_for(records, true) == records.len(),
        stats.after_all(records).last_at_ms == if records.len() == 0 {
            stats.last_at_ms
        } else {
            records.last().1
        },
    decreases records.len(),
{
    if records.len() > 0 {
        law_rebuilds_add_up(stats, records.drop_last());
    }
}

/// A subscription, which keeps a replica of a remote channel.
///
/// `connected` is the handoff between establishment and the duty cycle. Only while it is false may
/// the replica's files be discarded, because then nothing writes to them.
#[derive(PartialEq, Eq, Debug)]
pub struct Subscription {
    pub replica_path: String,
    /// The index the replica has been synced to.
    pub synced: u64,
    /// The source's head as of the last connect.
    pub head_at_connect: u64,
    /// Unix milliseconds when a record was last applied; zero for never.
    pub last_record_at_ms: u64,
    pub rebuilds: RebuildStats,
    pub stopped: bool,
    /// The duty cycle holds a connection for this subscription.
    pub connected: bool,
    /// An attempt to connect is under way.
    pub establishing: bool,
}

impl Clone for Subscription {
    fn clone(&self) -> (r: Subscription)
        ensures
            r == *self,
    {
        Subscription {
            replica_path: self.replica_path.clone(),
            synced: self.synced,
            head_at_connect: self.head_at_connect,
            last_record_at_ms: self.last_record_at_ms,
            rebuilds: self.rebuilds,
            stopped: self.stopped,
            connected: self.connected,
            establishing: self.establishing,
        }
    }
}

impl Subscription {
    /// Whether this is a subscription that nothing has happened to yet.
    pub open spec fn fresh(self, replica_path: Seq<char>) -> bool {
        &&& self.replica_path@ == replica_path
        &&& self.synced == 0
        &&& self.head_at_connect == 0
        &&& self.last_record_at_ms == 0
        &&& self.rebuilds == (RebuildStats { gap: 0, diverged: 0, last_at_ms: 0 })
        &&& !self.stopped
        &&& !self.connected
        &&& !self.establishing
    }

    pub fn new(replica_path: String) -> (s: Subscription)
        ensures
            s.fresh(replica_path@),
            s.replica_path == replica_path,
    {
        Subscription {
            replica_path,
            synced: 0,
            head_at_connect: 0,
            last_record_at_ms: 0,
            rebuilds: RebuildStats::default(),
            stopped: false,
            connected: false,
            establishing: false,
        }
    }

    /// Where the replica is; a reader opens it there.
    pub fn replica_path(&self) -> (p: &String)
        ensures
            *p == self.replica_path,
    {
        &self.replica_path
    }

    /// The index the replica has been synced to. It grows as records arrive.
    pub fn synced_index(&self) -> (n: u64)
        ensures
            n == self.synced,
    {
        self.synced
    }

    pub fn rebuilds(&self) -> (r: &RebuildStats)
        ensures
            *r == self.rebuilds,
    {
        &self.rebuilds
    }

    /// The source's head as of the last connect.
    pub fn head_at_connect(&self) -> (n: u64)
        ensures
            n == self.head_at_connect,
    {
        self.head_at_connect
    }

    /// When a record was last applied, in Unix milliseconds; `None` if none has been.
    pub fn last_record_at_ms(&self) -> (r: Option<u64>)
        ensures
            r == since_epoch(self.last_record_at_ms),
    {
        if self.last_record_at_ms == 0 {
            None
        } else {
            Some(self.last_record_at_ms)
        }
    }

    /// Whether the subscription is still wanted, connected or not.
    pub fn is_active(&self) -> (b: bool)
        ensures
            b == !self.stopped,
    {
        !self.stopped
    }

    /// Stops replicating. The duty cycle drops the connection on its next round.
    pub fn stop(&mut self)
        ensures
            *final(self) == (Subscription { stopped: true, ..*old(self) }),
    {
        self.stopped = true;
    }
}

/// A subscription's handle.
#[derive(Clone, Copy, PartialEq, Eq, Debug, Structural)]
pub struct SubId(pub u64);

impl View for SubId {
    type V = SubId;

    open spec fn view(&self) -> SubId {
        *self
    }
}

/// A subscription and the channel it is to.
#[derive(PartialEq, Eq, Debug)]
pub struct Conducted {
    pub name: String,
    pub sub: Subscription,
}

/// All subscriptions of a node, by handle. Handles are given out in ascending order and never twice.
pub struct Subscriptions {
    entries: Vec<(u64, Conducted)>,
    next: u64,
}

pub open spec fn ids_ascend(list: Seq<(u64, Conducted)>) -> bool {
    forall|i: int, j: int|
        0 <= i < j < list.len() ==> (#[trigger] list[i]).0 < (#[trigger] list[j]).0
}

spec fn by_id(list: Seq<(u64, Conducted)>) -> Map<SubId, Conducted> {
    Map::new(
        |k: SubId| exists|i: int| 0 <= i < list.len() && (#[trigger] list[i]).0 == k.0,
        |k: SubId| list[choose|i: int| 0 <= i < list.len() && (#[trigger] list[i]).0 == k.0].1,
    )
}

proof fn lemma_by_id(list: Seq<(u64, Conducted)>, i: int)
    requires
        ids_ascend(list),
        0 <= i < list.len(),
    ensures
        by_id(list).contains_key(SubId(list[i].0)),
        by_id(list)[SubId(list[i].0)] == list[i].1,
{
    let k = SubId(list[i].0);
    assert(list[i].0 == k.0);
    let c = choose|c: int| 0 <= c < list.len() && (#[trigger] list[c]).0 == k.0;
    assert(0 <= c < list.len() && list[c].0 == k.0);
    if c < i {
        assert(list[c].0 < list[i].0);
    } else if i < c {
        assert(list[i].0 < list[c].0);
    }
}

impl View for Subscriptions {
    type V = Map<SubId, Conducted>;

    closed spec fn view(&self) -> Map<SubId, Conducted> {
        by_id(self.entries@)
    }
}

impl Subscriptions {
    #[verifier::type_invariant]
    spec fn in_order(&self) -> bool {
        &&& ids_ascend(self.entries@)
        &&& forall|i: int|
            0 <= i < self.entries@.len() ==> (#[trigger] self.entries@[i]).0 < self.next
    }

    /// The handle that the next subscription gets.
    pub closed spec fn next_id(&self) -> u64 {
        self.next
    }

    /// The handles in use, in ascending order.
    pub closed spec fn ids(&self) -> Seq<SubId> {
        Seq::new(self.entries@.len(), |i: int| SubId(self.entries@[i].0))
    }

    pub fn new() -> (s: Subscriptions)
        ensures
            s@ == Map::<SubId, Conducted>::empty(),
            s.ids() == Seq::<SubId>::empty(),
            s.next_id() == 0,
    {
        let s = Subscriptions { entries: Vec::new(), next: 0 };
        assert(s@ =~= Map::<SubId, Conducted>::empty());
        assert(s.ids() =~= Seq::<SubId>::empty());
        s
    }

    pub fn len(&self) -> (n: usize)
        ensures
            n == self.ids().len(),
            forall|i: int| 0 <= i < n ==> self@.contains_key(#[trigger] self.ids()[i]),
            forall|k: SubId| #[trigger] self@.contains_key(k) ==> self.ids().contains(k),
            forall|i: int, j: int|
                0 <= i < j < n ==> (#[trigger] self.ids()[i]).0 < (#[trigger] self.ids()[j]).0,
            !self@.contains_key(SubId(self.next_id())),
    {
        proof {
            use_type_invariant(self);
            assert forall|i: int| 0 <= i < self.entries@.len() implies self@.contains_key(
                #[trigger] self.ids()[i],
            ) by {
                lemma_by_id(self.entries@, i);
            }
            assert forall|k: SubId| #[trigger] self@.contains_key(k) implies self.ids().contains(
                k,
            ) by {
                let i = choose|i: int|
                    0 <= i < self.entries@.len() && (#[trigger] self.entries@[i]).0 == k.0;
                assert(self.ids()[i] == k);
            }
        }
        self.entries.len()
    }

    /// The handle at place `i`.
    pub fn id_at(&self, i: usize) -> (id: SubId)
        requires
            i < self.ids().len(),
        ensures
            id == self.ids()[i as int],
    {
        SubId(self.entries[i].0)
    }

    /// The subscription at place `i`.
    pub fn at(&self, i: usize) -> (c: &Conducted)
        requires
            i < self.ids().len(),
        ensures
            self@.contains_key(self.ids()[i as int]),
            *c == self@[self.ids()[i as int]],
    {
        proof {
            use_type_invariant(self);
            lemma_by_id(self.entries@, i as int);
        }
        &self.entries[i].1
    }

    fn find(&self, id: SubId) -> (r: Option<usize>)
        ensures
            match r {
                Some(i) => i < self.entries@.len() && self.entries@[i as int].0 == id.0,
                None => !self@.contains_key(id),
            },
    {
        proof {
            use_type_invariant(self);
        }
        let mut low: usize = 0;
        let mut high: usize = self.entries.len();
        while low < high
            invariant
                low <= high <= self.entries@.len(),
                ids_ascend(self.entries@),
                forall|j: int| 0 <= j < low ==> (#[trigger] self.entries@[j]).0 < id.0,
                forall|j: int|
                    high <= j < self.entries@.len() ==> (#[trigger] self.entries@[j]).0 > id.0,
            decreases high - low,
        {
            let mid: usize = low + (high - low) / 2;
            let at = self.entries[mid].0;
            if at == id.0 {
                return Some(mid);
            }
            if at < id.0 {
                low = mid + 1;
            } else {
                high = mid;
            }
        }
        None
    }

    pub fn get(&self, id: SubId) -> (r: Option<&Conducted>)
        ensures
            match r {
                Some(c) => self@.contains_key(id) && *c == self@[id],
                None => !self@.contains_key(id),
            },
    {
        proof {
            use_type_invariant(self);
        }
        match self.find(id) {
            Some(i) => {
                proof {
                    lemma_by_id(self.entries@, i as int);
                }
                Some(&self.entries[i].1)
            },
            None => None,
        }
    }

    /// Whether there is a handle left to give.
    pub fn has_room(&self) -> (b: bool)
        ensures
            b == (self.next_id() < u64::MAX),
    {
        self.next < u64::MAX
    }

    /// Takes up a subscription and gives it a handle.
    pub fn add(&mut self, c: Conducted) -> (id: SubId)
        requires
            old(self).next_id() < u64::MAX,
        ensures
            id == SubId(old(self).next_id()),
            final(self).next_id() == old(self).next_id() + 1,
            !old(self)@.contains_key(id),
            final(self)@ == old(self)@.insert(id, c),
            final(self).ids() == old(self).ids().push(id),
    {
        proof {
            use_type_invariant(&*self);
        }
        let id: u64 = self.next;
        let ghost before = self.entries@;
        let mut entries: Vec<(u64, Conducted)> = Vec::new();
        std::mem::swap(&mut entries, &mut self.entries);
        self.next = id + 1;
        entries.push((id, c));
        proof {
            let after = entries@;
            assert(ids_ascend(after));
            assert(by_id(after) =~= by_id(before).insert(SubId(id), c)) by {
                lemma_by_id(after, before.len() as int);
                assert forall|k: SubId| by_id(after).contains_key(k) == by_id(before).insert(
                    SubId(id),
                    c,
                ).contains_key(k) by {
                    if by_id(before).contains_key(k) {
                        let i = choose|i: int|
                            0 <= i < before.len() && (#[trigger] before[i]).0 == k.0;
                        assert(after[i].0 == k.0);
                    }
                    if by_id(after).contains_key(k) {
                        let i = choose|i: int|
                            0 <= i < after.len() && (#[trigger] after[i]).0 == k.0;
                        if i < before.len() {
                            assert(before[i].0 == k.0);
                        }
                    }
                }
                assert forall|k: SubId| #[trigger] by_id(after).contains_key(k) implies by_id(
                    after,
                )[k] == by_id(before).insert(SubId(id), c)[k] by {
                    let i = choose|i: int| 0 <= i < after.len() && (#[trigger] after[i]).0 == k.0;
                    lemma_by_id(after, i);
                    if i < before.len() {
                        assert(before[i] == after[i]);
                        lemma_by_id(before, i);
                    }
                }
            }
        }
        self.entries = entries;
        assert(self.ids() =~= old(self).ids().push(SubId(id)));
        SubId(id)
    }

    /// Replaces the state of a subscription.
    pub fn set(&mut self, id: SubId, c: Conducted)
        requires
            old(self)@.contains_key(id),
        ensures
            final(self)@ == old(self)@.insert(id, c),
            final(self).ids() == old(self).ids(),
            final(self).next_id() == old(self).next_id(),
    {
        proof {
            use_type_invariant(&*self);
        }
        let ghost before = self.entries@;
        match self.find(id) {
            Some(at) => {
                let mut entries: Vec<(u64, Conducted)> = Vec::new();
                std::mem::swap(&mut entries, &mut self.entries);
                entries.set(at, (id.0, c));
                proof {
                    let after = entries@;
                    assert(ids_ascend(after));
                    assert(by_id(after) =~= by_id(before).insert(id, c)) by {
                        assert forall|k: SubId| by_id(after).contains_key(k) == by_id(
                            before,
                        ).insert(id, c).contains_key(k) by {
                            if by_id(before).contains_key(k) {
                                let i = choose|i: int|
                                    0 <= i < before.len() && (#[trigger] before[i]).0 == k.0;
                                assert(after[i].0 == k.0);
                            }
                            if by_id(after).contains_key(k) {
                                let i = choose|i: int|
                                    0 <= i < after.len() && (#[trigger] after[i]).0 == k.0;
                                assert(before[i].0 == k.0);
                            }
                        }
                        assert forall|k: SubId| #[trigger] by_id(after).contains_key(
                            k,
                        ) implies by_id(after)[k] == by_id(before).insert(id, c)[k] by {
                            let i = choose|i: int|
                                0 <= i < after.len() && (#[trigger] after[i]).0 == k.0;
                            lemma_by_id(after, i);
                            lemma_by_id(before, i);
                            if i != at {
                                assert(before[i] == after[i]);
                                if i < at {
                                    assert(after[i].0 < after[at as int].0);
                                } else {
                                    assert(after[at as int].0 < after[i].0);
                                }
                            }
                        }
                    }
                }
                self.entries = entries;
                assert(self.ids() =~= old(self).ids());
            },
            None => {},
        }
    }

    /// Forgets a subscription.
    pub fn remove(&mut self, id: SubId)
        ensures
            final(self)@ == old(self)@.remove(id),
            final(self).next_id() == old(self).next_id(),
    {
        proof {
            use_type_invariant(&*self);
        }
        let ghost before = self.entries@;
        match self.find(id) {
            Some(at) => {
                let mut entries: Vec<(u64, Conducted)> = Vec::new();
                std::mem::swap(&mut entries, &mut self.entries);
                let _ = entries.remove(at);
                proof {
                    let after = entries@;
                    assert(after =~= before.remove(at as int));
                    assert forall|i: int, j: int| 0 <= i < j < after.len() implies (
                    #[trigger] after[i]).0 < (#[trigger] after[j]).0 by {
                        let a = if i < at {
                            i
                        } else {
                            i + 1
                        };
                        let b = if j < at {
                            j
                        } else {
                            j + 1
                        };
                        assert(after[i] == before[a] && after[j] == before[b]);
                    }
                    assert forall|i: int| 0 <= i < after.len() implies (#[trigger] after[i]).0
                        < self.next by {
                        let a = if i < at {
                            i
                        } else {
                            i + 1
                        };
                        assert(after[i] == before[a]);
                    }
                    assert(by_id(after) =~= by_id(before).remove(id)) by {
                        assert forall|k: SubId| by_id(after).contains_key(k) == by_id(
                            before,
                        ).remove(id).contains_key(k) by {
                            if by_id(before).contains_key(k) && k != id {
                                let b = choose|b: int|
                                    0 <= b < before.len() && (#[trigger] before[b]).0 == k.0;
                                let i = if b < at {
                                    b
                                } else {
                                    b - 1
                                };
                                assert(after[i] == before[b]);
                            }
                            if by_id(after).contains_key(k) {
                                let i = choose|i: int|
                                    0 <= i < after.len() && (#[trigger] after[i]).0 == k.0;
                                let b = if i < at {
                                    i
                                } else {
                                    i + 1
                                };
                                assert(after[i] == before[b]);
                                if b < at {
                                    assert(before[b].0 < before[at as int].0);
                                } else {
                                    assert(before[at as int].0 < before[b].0);
                                }
                            }
                        }
                        assert forall|k: SubId| #[trigger] by_id(after).contains_key(
                            k,
                        ) implies by_id(after)[k] == by_id(before).remove(id)[k] by {
                            let i = choose|i: int|
                                0 <= i < after.len() && (#[trigger] after[i]).0 == k.0;
                            let b = if i < at {
                                i
                            } else {
                                i + 1
                            };
                            assert(after[i] == before[b]);
                            lemma_by_id(after, i);
                            lemma_by_id(before, b);
                        }
                    }
                }
                self.entries = entries;
            },
            None => {
                assert(self@ =~= self@.remove(id));
            },
        }
    }
}

} // verus!
