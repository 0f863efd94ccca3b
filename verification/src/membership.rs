//! Who is out there: the nodes this node has heard of, where they listen, and which of them it has
//! heard from itself.
//!
//! Two kinds of knowledge are kept apart. A **heartbeat** received directly teaches addresses and
//! confers liveness. **Hearsay**, passed on by a third party, teaches addresses of nodes never heard
//! from, and never anything about liveness: a live member is one that *this* node can reach.
use vstd::prelude::*;

use crate::addr::SocketAddr;
use crate::identity::NodeId;
use crate::table::Table;
use crate::text::same;
use crate::time::{elapsed, Duration};

verus! {

/// One node, as known here.
#[derive(PartialEq, Eq, Debug)]
pub struct Member {
    /// Where it serves streams.
    pub addr: SocketAddr,
    /// Where it accepts peer links.
    pub control_addr: SocketAddr,
    /// Its label, for people to read. Empty if it advertised none.
    pub name: String,
    /// When it was last heard from directly, on the monotonic clock.
    pub heard_at: Option<u64>,
    /// Whether it has said that it is leaving, and has not been heard from since.
    pub departed: bool,
}

/// A [`Member`] as a value.
#[verifier::ext_equal]
pub struct MemberModel {
    pub addr: SocketAddr,
    pub control_addr: SocketAddr,
    pub name: Seq<char>,
    pub heard_at: Option<u64>,
    pub departed: bool,
}

impl View for Member {
    type V = MemberModel;

    open spec fn view(&self) -> MemberModel {
        MemberModel {
            addr: self.addr,
            control_addr: self.control_addr,
            name: self.name@,
            heard_at: self.heard_at,
            departed: self.departed,
        }
    }
}

pub type Acquaintances = Map<NodeId, MemberModel>;

/// Whether `m` counts as live at `now`: heard from directly within `timeout`, and not departed.
pub open spec fn alive(m: MemberModel, timeout: nat, now: u64) -> bool {
    &&& !m.departed
    &&& m.heard_at matches Some(t) && crate::time::elapsed_nanos(t, now) <= timeout
}

pub open spec fn node_alive(known: Acquaintances, node: NodeId, timeout: nat, now: u64) -> bool {
    known.contains_key(node) && alive(known[node], timeout, now)
}

/// Whether addresses and label are what is already known of `node`.
pub open spec fn is_news(
    known: Acquaintances,
    node: NodeId,
    addr: SocketAddr,
    control_addr: SocketAddr,
    name: Seq<char>,
) -> bool {
    !known.contains_key(node) || known[node].addr != addr || known[node].control_addr
        != control_addr || known[node].name != name
}

/// What a heartbeat of `node`, received at `now`, leaves known.
pub open spec fn after_heartbeat(
    known: Acquaintances,
    node: NodeId,
    addr: SocketAddr,
    control_addr: SocketAddr,
    name: Seq<char>,
    now: u64,
) -> Acquaintances {
    known.insert(
        node,
        MemberModel { addr, control_addr, name, heard_at: Some(now), departed: false },
    )
}

/// Whether hearsay about `node` is taken up: it says something new, of a node never heard from.
pub open spec fn hearsay_counts(
    known: Acquaintances,
    node: NodeId,
    addr: SocketAddr,
    control_addr: SocketAddr,
    name: Seq<char>,
) -> bool {
    &&& is_news(known, node, addr, control_addr, name)
    &&& known.contains_key(node) ==> known[node].heard_at is None
}

/// What hearsay about `node` leaves known.
pub open spec fn after_hearsay(
    known: Acquaintances,
    node: NodeId,
    addr: SocketAddr,
    control_addr: SocketAddr,
    name: Seq<char>,
) -> Acquaintances {
    if hearsay_counts(known, node, addr, control_addr, name) {
        known.insert(
            node,
            MemberModel { addr, control_addr, name, heard_at: None, departed: false },
        )
    } else {
        known
    }
}

/// What the departure of `node` leaves known: everything but its liveness.
pub open spec fn after_departure(known: Acquaintances, node: NodeId) -> Acquaintances {
    if known.contains_key(node) {
        known.insert(node, MemberModel { departed: true, ..known[node] })
    } else {
        known
    }
}

pub struct Membership {
    members: Table<NodeId, Member>,
}

/// An introduction: a node and where it is to be found.
#[derive(PartialEq, Eq, Debug)]
pub struct Introduction {
    pub node: NodeId,
    pub addr: SocketAddr,
    pub control_addr: SocketAddr,
    pub name: String,
}

/// An [`Introduction`] as a value.
#[verifier::ext_equal]
pub struct IntroductionModel {
    pub node: NodeId,
    pub addr: SocketAddr,
    pub control_addr: SocketAddr,
    pub name: Seq<char>,
}

impl View for Introduction {
    type V = IntroductionModel;

    open spec fn view(&self) -> IntroductionModel {
        IntroductionModel {
            node: self.node,
            addr: self.addr,
            control_addr: self.control_addr,
            name: self.name@,
        }
    }
}

impl View for Membership {
    type V = Acquaintances;

    closed spec fn view(&self) -> Acquaintances {
        self.members@.map_values(|m: Member| m@)
    }
}

impl Membership {
    /// The known nodes, in the order in which they became known.
    pub closed spec fn list(&self) -> Seq<(NodeId, MemberModel)> {
        Seq::new(
            self.members.list().len(),
            |i: int| (self.members.list()[i].0, self.members.list()[i].1@),
        )
    }

    pub fn new() -> (m: Membership)
        ensures
            m@ == Map::<NodeId, MemberModel>::empty(),
    {
        let m = Membership { members: Table::new() };
        assert(m@ =~= Map::<NodeId, MemberModel>::empty());
        m
    }

    fn find(&self, node: NodeId) -> (r: Option<&Member>)
        ensures
            match r {
                Some(m) => self@.contains_key(node) && m@ == self@[node],
                None => !self@.contains_key(node),
            },
    {
        self.members.get(&node)
    }

    /// How many nodes are known.
    pub fn len(&self) -> (n: usize)
        ensures
            n == self.list().len(),
            crate::table::holds(self.list(), self@),
    {
        let n = self.members.len();
        proof {
            let raw = self.members.list();
            let list = self.list();
            assert forall|i: int| 0 <= i < list.len() implies self@.contains_key(
                (#[trigger] list[i]).0,
            ) && self@[list[i].0] == list[i].1 by {
                assert(list[i].0 == raw[i].0);
            }
            assert forall|i: int, j: int| 0 <= i < j < list.len() implies (#[trigger] list[i]).0
                != (#[trigger] list[j]).0 by {
                assert(list[i].0 == raw[i].0 && list[j].0 == raw[j].0);
            }
            assert forall|k: NodeId| #[trigger] self@.contains_key(k) implies exists|i: int|
                0 <= i < list.len() && (#[trigger] list[i]).0 == k by {
                let i = choose|i: int| 0 <= i < raw.len() && (#[trigger] raw[i]).0 == k;
                assert(list[i].0 == k);
            }
        }
        n
    }

    fn tells_news(
        &self,
        node: NodeId,
        addr: SocketAddr,
        control_addr: SocketAddr,
        name: &str,
    ) -> (b: bool)
        ensures
            b == is_news(self@, node, addr, control_addr, name@),
    {
        match self.find(node) {
            Some(m) => m.addr != addr || m.control_addr != control_addr || !same(
                m.name.as_str(),
                name,
            ),
            None => true,
        }
    }

    fn put(&mut self, node: NodeId, m: Member)
        ensures
            final(self)@ == old(self)@.insert(node, m@),
    {
        self.members.insert(node, m);
        assert(self@ =~= old(self)@.insert(node, m@));
    }

    /// A heartbeat of `node`, received directly at `now`. Returns whether it told us something new.
    pub fn record(
        &mut self,
        node: NodeId,
        addr: SocketAddr,
        control_addr: SocketAddr,
        name: &str,
        now: u64,
    ) -> (news: bool)
        ensures
            final(self)@ == after_heartbeat(old(self)@, node, addr, control_addr, name@, now),
            news == is_news(old(self)@, node, addr, control_addr, name@),
    {
        let news = self.tells_news(node, addr, control_addr, name);
        self.put(
            node,
            Member {
                addr,
                control_addr,
                name: name.to_owned(),
                heard_at: Some(now),
                departed: false,
            },
        );
        news
    }

    /// What a third party says of `node`. Returns whether it told us something new.
    pub fn learn(
        &mut self,
        node: NodeId,
        addr: SocketAddr,
        control_addr: SocketAddr,
        name: &str,
    ) -> (news: bool)
        ensures
            final(self)@ == after_hearsay(old(self)@, node, addr, control_addr, name@),
            news == hearsay_counts(old(self)@, node, addr, control_addr, name@),
    {
        let heard = match self.find(node) {
            Some(m) => m.heard_at.is_some(),
            None => false,
        };
        if heard || !self.tells_news(node, addr, control_addr, name) {
            return false;
        }
        self.put(
            node,
            Member { addr, control_addr, name: name.to_owned(), heard_at: None, departed: false },
        );
        true
    }

    /// `node` has said that it is leaving. Where it was, and when it was heard from, stays known.
    pub fn depart(&mut self, node: NodeId)
        ensures
            final(self)@ == after_departure(old(self)@, node),
    {
        let gone = match self.find(node) {
            Some(m) => Member {
                addr: m.addr,
                control_addr: m.control_addr,
                name: m.name.clone(),
                heard_at: m.heard_at,
                departed: true,
            },
            None => {
                return ;
            },
        };
        self.put(node, gone);
    }

    /// The last known stream address of `node`.
    pub fn addr_of(&self, node: NodeId) -> (r: Option<SocketAddr>)
        ensures
            r == if self@.contains_key(node) {
                Some(self@[node].addr)
            } else {
                None
            },
    {
        match self.find(node) {
            Some(m) => Some(m.addr),
            None => None,
        }
    }

    /// The stream address of `node`, if it is live at `now`.
    pub fn live_addr_of(&self, node: NodeId, timeout: Duration, now: u64) -> (r: Option<SocketAddr>)
        ensures
            r == if node_alive(self@, node, timeout@, now) {
                Some(self@[node].addr)
            } else {
                None
            },
    {
        match self.find(node) {
            Some(m) => if member_alive(m, timeout, now) {
                Some(m.addr)
            } else {
                None
            },
            None => None,
        }
    }

    /// How long `node` has been silent at `now`; `None` if it was never heard from directly.
    pub fn silent_for(&self, node: NodeId, now: u64) -> (r: Option<Duration>)
        ensures
            match silence(self@, node, now) {
                Some(n) => r matches Some(d) && d@ == n,
                None => r is None,
            },
    {
        match self.find(node) {
            Some(m) => match m.heard_at {
                Some(t) => Some(elapsed(t, now)),
                None => None,
            },
            None => None,
        }
    }

    /// The label of `node`, if it advertised one.
    pub fn name_of(&self, node: NodeId) -> (r: Option<&String>)
        ensures
            match label_name(self@, node) {
                Some(n) => r matches Some(s) && s@ == n,
                None => r is None,
            },
    {
        match self.find(node) {
            Some(m) => if m.name.as_str().is_empty() {
                None
            } else {
                Some(&m.name)
            },
            None => None,
        }
    }

    /// The nodes that are live at `now`.
    pub fn live_members(&self, timeout: Duration, now: u64) -> (nodes: Vec<NodeId>)
        ensures
            nodes@ == live_in(self.list(), timeout@, now),
            forall|n: NodeId| nodes@.contains(n) <==> node_alive(self@, n, timeout@, now),
    {
        let n = self.len();
        let mut nodes: Vec<NodeId> = Vec::new();
        let mut i: usize = 0;
        assert(self.list().take(0) =~= Seq::<(NodeId, MemberModel)>::empty());
        while i < n
            invariant
                i <= n == self.list().len(),
                n == self.members.list().len(),
                nodes@ == live_in(self.list().take(i as int), timeout@, now),
            decreases n - i,
        {
            proof {
                assert(self.list().take(i + 1).drop_last() =~= self.list().take(i as int));
                assert(self.list().take(i + 1).last() == self.list()[i as int]);
            }
            if member_alive(self.members.value_at(i), timeout, now) {
                nodes.push(*self.members.key_at(i));
            }
            i = i + 1;
        }
        assert(self.list().take(n as int) =~= self.list());
        proof {
            assert forall|x: NodeId| nodes@.contains(x) <==> node_alive(self@, x, timeout@, now) by {
                lemma_live_in(self.list(), timeout@, now, x);
                if node_alive(self@, x, timeout@, now) {
                    let j = choose|j: int|
                        0 <= j < self.list().len() && (#[trigger] self.list()[j]).0 == x;
                    assert(self.list()[j].0 == x);
                }
            }
        }
        nodes
    }

    /// Every known node with its control address, in the order in which they became known.
    pub fn known_peers(&self) -> (peers: Vec<(NodeId, SocketAddr)>)
        ensures
            peers@ == Seq::new(
                self.list().len(),
                |i: int| (self.list()[i].0, self.list()[i].1.control_addr),
            ),
            crate::table::holds(self.list(), self@),
    {
        let n = self.len();
        let mut peers: Vec<(NodeId, SocketAddr)> = Vec::new();
        let mut i: usize = 0;
        while i < n
            invariant
                i <= n == self.list().len(),
                n == self.members.list().len(),
                peers@ == Seq::new(
                    i as nat,
                    |j: int| (self.list()[j].0, self.list()[j].1.control_addr),
                ),
            decreases n - i,
        {
            peers.push((*self.members.key_at(i), self.members.value_at(i).control_addr));
            assert(peers@ =~= Seq::new(
                (i + 1) as nat,
                |j: int| (self.list()[j].0, self.list()[j].1.control_addr),
            ));
            i = i + 1;
        }
        peers
    }

    /// Every known node and all that is known of where it is, in the order in which they became
    /// known.
    pub fn directory(&self) -> (all: Vec<Introduction>)
        ensures
            all@.len() == self.list().len(),
            forall|i: int|
                0 <= i < all@.len() ==> (#[trigger] all@[i])@ == introduction_of(self.list()[i]),
            crate::table::holds(self.list(), self@),
    {
        let n = self.len();
        let mut all: Vec<Introduction> = Vec::new();
        let mut i: usize = 0;
        while i < n
            invariant
                i <= n == self.list().len(),
                n == self.members.list().len(),
                all@.len() == i,
                forall|j: int|
                    0 <= j < all@.len() ==> (#[trigger] all@[j])@ == introduction_of(
                        self.list()[j],
                    ),
            decreases n - i,
        {
            let m = self.members.value_at(i);
            all.push(
                Introduction {
                    node: *self.members.key_at(i),
                    addr: m.addr,
                    control_addr: m.control_addr,
                    name: m.name.clone(),
                },
            );
            i = i + 1;
        }
        all
    }

    /// The node that accepts peer links at `control_addr`, if one is known to: the first to have
    /// become known of.
    pub fn node_at(&self, control_addr: SocketAddr) -> (r: Option<NodeId>)
        ensures
            r == first_at(self.list(), control_addr),
            r matches Some(n) ==> self@.contains_key(n) && self@[n].control_addr == control_addr,
            r is None ==> forall|n: NodeId| #[trigger]
                self@.contains_key(n) ==> self@[n].control_addr != control_addr,
    {
        let n = self.len();
        let mut i: usize = 0;
        assert(self.list().skip(0) =~= self.list());
        while i < n
            invariant
                i <= n == self.list().len(),
                n == self.members.list().len(),
                crate::table::holds(self.list(), self@),
                first_at(self.list(), control_addr) == first_at(
                    self.list().skip(i as int),
                    control_addr,
                ),
                forall|j: int|
                    0 <= j < i ==> (#[trigger] self.list()[j]).1.control_addr != control_addr,
            decreases n - i,
        {
            let ghost rest = self.list().skip(i as int);
            assert(rest[0] == self.list()[i as int]);
            if self.members.value_at(i).control_addr == control_addr {
                return Some(*self.members.key_at(i));
            }
            assert(rest.drop_first() =~= self.list().skip(i + 1));
            i = i + 1;
        }
        proof {
            assert forall|k: NodeId| #[trigger] self@.contains_key(k) implies self@[k].control_addr
                != control_addr by {
                let j = choose|j: int|
                    0 <= j < self.list().len() && (#[trigger] self.list()[j]).0 == k;
                assert(self.list()[j].1.control_addr != control_addr);
            }
        }
        None
    }
}

fn member_alive(m: &Member, timeout: Duration, now: u64) -> (b: bool)
    ensures
        b == alive(m@, timeout@, now),
{
    if m.departed {
        return false;
    }
    match m.heard_at {
        Some(t) => !timeout.shorter_than(elapsed(t, now)),
        None => false,
    }
}

/// How long `node` has been silent, if it was ever heard from.
pub open spec fn silence(known: Acquaintances, node: NodeId, now: u64) -> Option<nat> {
    if known.contains_key(node) {
        match known[node].heard_at {
            Some(t) => Some(crate::time::elapsed_nanos(t, now)),
            None => None,
        }
    } else {
        None
    }
}

/// The label of `node`, if it advertised one.
pub open spec fn label_name(known: Acquaintances, node: NodeId) -> Option<Seq<char>> {
    if known.contains_key(node) && known[node].name.len() > 0 {
        Some(known[node].name)
    } else {
        None
    }
}

pub open spec fn introduction_of(entry: (NodeId, MemberModel)) -> IntroductionModel {
    IntroductionModel {
        node: entry.0,
        addr: entry.1.addr,
        control_addr: entry.1.control_addr,
        name: entry.1.name,
    }
}

/// The nodes of `list` that are live, in its order.
pub open spec fn live_in(list: Seq<(NodeId, MemberModel)>, timeout: nat, now: u64) -> Seq<NodeId>
    decreases list.len(),
{
    if list.len() == 0 {
        Seq::empty()
    } else if alive(list.last().1, timeout, now) {
        live_in(list.drop_last(), timeout, now).push(list.last().0)
    } else {
        live_in(list.drop_last(), timeout, now)
    }
}

proof fn lemma_live_in(list: Seq<(NodeId, MemberModel)>, timeout: nat, now: u64, x: NodeId)
    ensures
        live_in(list, timeout, now).contains(x) <==> exists|i: int|
            0 <= i < list.len() && (#[trigger] list[i]).0 == x && alive(list[i].1, timeout, now),
    decreases list.len(),
{
    if list.len() > 0 {
        let front = list.drop_last();
        let rest = live_in(front, timeout, now);
        lemma_live_in(front, timeout, now, x);
        if alive(list.last().1, timeout, now) {
            assert(rest.push(list.last().0).contains(x) <==> rest.contains(x) || x == list.last().0)
                by {
                if rest.contains(x) {
                    let i = choose|i: int| 0 <= i < rest.len() && rest[i] == x;
                    assert(rest.push(list.last().0)[i] == x);
                }
                assert(rest.push(list.last().0)[rest.len() as int] == list.last().0);
            }
        }
        if exists|i: int|
            0 <= i < front.len() && (#[trigger] front[i]).0 == x && alive(
                front[i].1,
                timeout,
                now,
            ) {
            let i = choose|i: int|
                0 <= i < front.len() && (#[trigger] front[i]).0 == x && alive(
                    front[i].1,
                    timeout,
                    now,
                );
            assert(list[i] == front[i]);
        }
        if exists|i: int|
            0 <= i < list.len() && (#[trigger] list[i]).0 == x && alive(list[i].1, timeout, now) {
            let i = choose|i: int|
                0 <= i < list.len() && (#[trigger] list[i]).0 == x && alive(
                    list[i].1,
                    timeout,
                    now,
                );
            if i < front.len() {
                assert(front[i] == list[i]);
            }
        }
    }
}

/// The first node of `list` that accepts peer links at `control_addr`.
pub open spec fn first_at(
    list: Seq<(NodeId, MemberModel)>,
    control_addr: SocketAddr,
) -> Option<NodeId>
    decreases list.len(),
{
    if list.len() == 0 {
        None
    } else if list[0].1.control_addr == control_addr {
        Some(list[0].0)
    } else {
        first_at(list.drop_first(), control_addr)
    }
}

// ---------------- laws ----------------
/// Hearsay never makes a node live, nor a live one look dead, nor changes where a node that was
/// heard from is to be found.
pub proof fn law_hearsay_never_confers_liveness(
    known: Acquaintances,
    node: NodeId,
    addr: SocketAddr,
    control_addr: SocketAddr,
    name: Seq<char>,
    other: NodeId,
    timeout: nat,
    now: u64,
)
    ensures
        node_alive(after_hearsay(known, node, addr, control_addr, name), other, timeout, now)
            == node_alive(known, other, timeout, now),
        silence(after_hearsay(known, node, addr, control_addr, name), other, now) == silence(
            known,
            other,
            now,
        ),
        known.contains_key(other) && known[other].heard_at is Some ==> after_hearsay(
            known,
            node,
            addr,
            control_addr,
            name,
        )[other] == known[other],
{
}

/// A heartbeat makes its sender live at once, whatever was known of it before, and leaves every
/// other node as it was.
pub proof fn law_heartbeat_confers_liveness(
    known: Acquaintances,
    node: NodeId,
    addr: SocketAddr,
    control_addr: SocketAddr,
    name: Seq<char>,
    now: u64,
    timeout: nat,
    other: NodeId,
)
    ensures
        node_alive(
            after_heartbeat(known, node, addr, control_addr, name, now),
            node,
            timeout,
            now,
        ),
        other != node ==> node_alive(
            after_heartbeat(known, node, addr, control_addr, name, now),
            other,
            timeout,
            now,
        ) == node_alive(known, other, timeout, now),
{
}

/// A departure ends liveness at once, and forgets neither the addresses nor when the node was last
/// heard from.
pub proof fn law_departure_forgets_liveness_only(
    known: Acquaintances,
    node: NodeId,
    timeout: nat,
    now: u64,
)
    requires
        known.contains_key(node),
    ensures
        !node_alive(after_departure(known, node), node, timeout, now),
        after_departure(known, node).contains_key(node),
        after_departure(known, node)[node].addr == known[node].addr,
        after_departure(known, node)[node].control_addr == known[node].control_addr,
        silence(after_departure(known, node), node, now) == silence(known, node, now),
{
}

/// News is told once: a heartbeat or hearsay repeated says nothing new, which is what lets a mesh
/// that passes news on go quiet.
pub proof fn law_news_is_told_once(
    known: Acquaintances,
    node: NodeId,
    addr: SocketAddr,
    control_addr: SocketAddr,
    name: Seq<char>,
    now: u64,
)
    ensures
        !is_news(
            after_heartbeat(known, node, addr, control_addr, name, now),
            node,
            addr,
            control_addr,
            name,
        ),
        !hearsay_counts(
            after_hearsay(known, node, addr, control_addr, name),
            node,
            addr,
            control_addr,
            name,
        ),
        !hearsay_counts(
            after_heartbeat(known, node, addr, control_addr, name, now),
            node,
            addr,
            control_addr,
            name,
        ),
{
}

} // verus!
