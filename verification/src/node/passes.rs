//! What holds over several maintenance passes in a row.
use vstd::prelude::*;

use crate::identity::IdentityModel;
use crate::node::topic_life::{
    each_within, reap_one, watched, with_attached, with_detached, without_member, ReapState,
};
use crate::node::topics::{
    all_leaving, departures, has_left, leaving, live_members, members_of, steps, texts, AttachModel,
    AttachPlan,
};
use crate::node::{Node, TopicModel};
use crate::registry::Directory;
use crate::time::elapsed_nanos;

verus! {

// ---------------- reaping ----------------
/// One reaping pass.
pub struct Pass {
    pub before: Node,
    pub after: Node,
    pub now: u64,
}

impl Pass {
    /// Whether this is a pass over the live member `name`, of the generation `epoch`, of `topic`,
    /// which retires members.
    pub open spec fn watches(self, topic: Seq<char>, name: Seq<char>, epoch: u64) -> bool {
        &&& Node::reaped(self.before, self.after, self.now)
        &&& self.before.registry@.contains_key(name)
        &&& !self.before.registry@[name].deleted
        &&& self.before.registry@[name].epoch == epoch
        &&& self.before.registry@[name].member_of == Some(topic)
        &&& self.before.topic_reap@.contains_key(topic)
    }

    /// Whether the pass found the owner of `name` out of reach.
    pub open spec fn found_dead(self, name: Seq<char>) -> bool {
        !self.before.owner_live(self.before.registry@[name].owner, self.now)
    }

    /// Whether the pass tombstoned `name`.
    pub open spec fn retired(self, name: Seq<char>) -> bool {
        self.after.registry@[name].deleted
    }

    /// Whether the pass is made after `last`, which left `name` live, with the clocks as `last` left
    /// them.
    pub open spec fn follows(self, last: Pass, name: Seq<char>) -> bool {
        &&& !last.retired(name)
        &&& last.now <= self.now
        &&& self.before.member_dead_since@ == last.after.member_dead_since@
    }

    /// What the pass does to a member under watch: its clock starts when its owner is out of reach
    /// and stops when it is not, and once it has run for the topic's span the member is tombstoned.
    spec fn keeps_time(self, topic: Seq<char>, name: Seq<char>, epoch: u64) -> bool {
        let key = (name, epoch);
        let clock = self.before.member_dead_since@;
        let since = if clock.contains_key(key) {
            clock[key]
        } else {
            self.now
        };
        let span = self.before.topic_reap@[topic];
        &&& self.retired(name) <==> self.found_dead(name) && elapsed_nanos(since, self.now) >= span
        &&& !self.retired(name) ==> if self.found_dead(name) {
            &&& self.after.member_dead_since@.contains_key(key)
            &&& self.after.member_dead_since@[key] == since
        } else {
            !self.after.member_dead_since@.contains_key(key)
        }
    }
}

/// Whether `passes` are the reaping passes over a member from the first that saw it: each has it
/// live, none but perhaps the last tombstones it, nothing else touches its clock in between, and time
/// does not run backwards.
pub open spec fn watches_over(
    passes: Seq<Pass>,
    topic: Seq<char>,
    name: Seq<char>,
    epoch: u64,
) -> bool {
    &&& passes.len() > 0
    &&& forall|i: int| 0 <= i < passes.len() ==> (#[trigger] passes[i]).watches(topic, name, epoch)
    &&& !passes[0].before.member_dead_since@.contains_key((name, epoch))
    &&& forall|i: int, j: int|
        0 <= i < passes.len() && j == i + 1 && j < passes.len() ==> (#[trigger] passes[j]).follows(
            #[trigger] passes[i],
            name,
        )
}

/// What the passes over a member come to.
spec fn timed(passes: Seq<Pass>, topic: Seq<char>, name: Seq<char>, epoch: u64) -> bool {
    &&& passes.len() > 0
    &&& forall|i: int|
        0 <= i < passes.len() ==> (#[trigger] passes[i]).keeps_time(topic, name, epoch)
    &&& !passes[0].before.member_dead_since@.contains_key((name, epoch))
    &&& forall|i: int, j: int|
        0 <= i < passes.len() && j == i + 1 && j < passes.len() ==> (#[trigger] passes[j]).follows(
            #[trigger] passes[i],
            name,
        )
}

proof fn lemma_timed(passes: Seq<Pass>, topic: Seq<char>, name: Seq<char>, epoch: u64)
    requires
        watches_over(passes, topic, name, epoch),
    ensures
        timed(passes, topic, name, epoch),
{
    assert forall|i: int| 0 <= i < passes.len() implies (#[trigger] passes[i]).keeps_time(
        topic,
        name,
        epoch,
    ) by {
        lemma_one_pass(passes[i], topic, name, epoch);
    }
}

/// How many passes, up to the `n`th, found the owner of `name` out of reach without a break.
pub open spec fn silent_passes(passes: Seq<Pass>, name: Seq<char>, n: nat) -> nat
    decreases n,
{
    if n == 0 || !passes[n - 1].found_dead(name) {
        0
    } else {
        silent_passes(passes, name, (n - 1) as nat) + 1
    }
}

/// The entries that feed `topic` are those of the registry that are live and name it, each once.
proof fn lemma_members_of(list: Seq<IdentityModel>, topic: Seq<char>)
    requires
        forall|i: int, j: int|
            0 <= i < j < list.len() ==> (#[trigger] list[i]).name != (#[trigger] list[j]).name,
    ensures
        forall|m: IdentityModel| #[trigger]
            members_of(list, topic).contains(m) <==> list.contains(m) && !m.deleted && m.member_of
                == Some(topic),
        forall|i: int, j: int|
            0 <= i < j < members_of(list, topic).len() ==> (#[trigger] members_of(list, topic)[i]).name
                != (#[trigger] members_of(list, topic)[j]).name,
    decreases list.len(),
{
    if list.len() > 0 {
        let front = list.drop_last();
        let rest = members_of(front, topic);
        lemma_members_of(front, topic);
        crate::broadcast::lemma_push_contains(rest, list.last());
        crate::broadcast::lemma_push_contains(front, list.last());
        assert(list =~= front.push(list.last()));
        assert forall|i: int| 0 <= i < rest.len() implies (#[trigger] rest[i]).name
            != list.last().name by {
            assert(rest.contains(rest[i]));
            let k = choose|k: int| 0 <= k < front.len() && front[k] == rest[i];
            assert(list[k].name != list[list.len() - 1].name);
        }
    }
}

/// The live members of a topic, by the registry.
pub(crate) proof fn lemma_live_members(m: Directory, topic: Seq<char>)
    requires
        crate::registry::enumerates(crate::registry::listing(m), m),
    ensures
        forall|id: IdentityModel| #[trigger]
            live_members(m, topic).contains(id) <==> m.contains_key(id.name) && m[id.name] == id
                && !id.deleted && id.member_of == Some(topic),
        forall|i: int, j: int|
            0 <= i < j < live_members(m, topic).len() ==> (#[trigger] live_members(m, topic)[i]).name
                != (#[trigger] live_members(m, topic)[j]).name,
{
    let list = crate::registry::listing(m);
    let pairs = Seq::new(list.len(), |i: int| (list[i].name, list[i]));
    assert(crate::name_map::lists(pairs, m));
    assert forall|i: int, j: int| 0 <= i < j < list.len() implies (#[trigger] list[i]).name != (
    #[trigger] list[j]).name by {
        assert(crate::text::name_before(pairs[i].0, pairs[j].0));
        crate::text::lemma_name_before_irreflexive(pairs[i].0);
    }
    lemma_members_of(list, topic);
    assert forall|id: IdentityModel| #[trigger] list.contains(id) <==> m.contains_key(id.name)
        && m[id.name] == id by {
        if list.contains(id) {
            let i = choose|i: int| 0 <= i < list.len() && list[i] == id;
            assert(pairs[i].0 == id.name);
        }
        if m.contains_key(id.name) && m[id.name] == id {
            let i = choose|i: int| 0 <= i < pairs.len() && #[trigger] pairs[i].0 == id.name;
            assert(list[i] == id);
        }
    }
}

/// Who is under watch: the live members of the topics in `topics`, each once and with its topic's
/// span.
pub(crate) proof fn lemma_watched(m: Directory, topics: Seq<(Seq<char>, nat)>)
    requires
        crate::registry::enumerates(crate::registry::listing(m), m),
        crate::name_map::ascending(topics),
    ensures
        forall|i: int|
            0 <= i < watched(m, topics).len() ==> {
                let (id, span) = #[trigger] watched(m, topics)[i];
                &&& m.contains_key(id.name)
                &&& m[id.name] == id
                &&& !id.deleted
                &&& id.member_of is Some
                &&& topics.contains((id.member_of->0, span))
            },
        forall|t: int, id: IdentityModel|
            #![trigger topics[t], live_members(m, topics[t].0).contains(id)]
            0 <= t < topics.len() && live_members(m, topics[t].0).contains(id) ==> watched(
                m,
                topics,
            ).contains((id, topics[t].1)),
        forall|i: int, j: int|
            0 <= i < j < watched(m, topics).len() ==> (#[trigger] watched(m, topics)[i]).0.name != (
            #[trigger] watched(m, topics)[j]).0.name,
    decreases topics.len(),
{
    if topics.len() > 0 {
        let front = topics.drop_last();
        let (topic, span) = topics.last();
        lemma_watched(m, front);
        lemma_live_members(m, topic);
        let (rest, here) = (watched(m, front), live_members(m, topic));
        let all = watched(m, topics);
        assert(all == rest + each_within(here, span));
        assert(topics =~= front.push(topics.last()));
        crate::broadcast::lemma_push_contains(front, topics.last());
        assert forall|i: int| 0 <= i < all.len() implies {
            let (id, s) = #[trigger] all[i];
            &&& m.contains_key(id.name)
            &&& m[id.name] == id
            &&& !id.deleted
            &&& id.member_of is Some
            &&& topics.contains((id.member_of->0, s))
        } by {
            if i < rest.len() {
                assert(all[i] == rest[i]);
            } else {
                let k = i - rest.len();
                assert(all[i] == (here[k], span));
                assert(here.contains(here[k]));
            }
        }
        assert forall|t: int, id: IdentityModel|
            #![trigger topics[t], live_members(m, topics[t].0).contains(id)]
            0 <= t < topics.len() && live_members(m, topics[t].0).contains(id) implies all.contains(
            (id, topics[t].1),
        ) by {
            if t < front.len() {
                assert(front[t] == topics[t]);
                assert(live_members(m, front[t].0).contains(id));
                let k = choose|k: int| 0 <= k < rest.len() && rest[k] == (id, front[t].1);
                assert(all[k] == rest[k]);
            } else {
                let k = choose|k: int| 0 <= k < here.len() && here[k] == id;
                assert(all[rest.len() + k] == (id, span));
            }
        }
        assert forall|i: int, j: int| 0 <= i < j < all.len() implies (#[trigger] all[i]).0.name != (
        #[trigger] all[j]).0.name by {
            if j < rest.len() {
                assert(all[i] == rest[i] && all[j] == rest[j]);
            } else {
                let b = j - rest.len();
                assert(all[j] == (here[b], span));
                assert(here.contains(here[b]));
                if i < rest.len() {
                    assert(all[i] == rest[i]);
                    if all[i].0.name == all[j].0.name {
                        assert(all[i].0 == all[j].0);
                        assert(front.contains((topic, rest[i].1)));
                        let k = choose|k: int| 0 <= k < front.len() && front[k] == (topic, rest[i].1);
                        assert(crate::text::name_before(topics[k].0, topics[topics.len() - 1].0));
                        crate::text::lemma_name_before_irreflexive(topic);
                    }
                } else {
                    let a = i - rest.len();
                    assert(all[i] == (here[a], span));
                    assert(here[a].name != here[b].name);
                }
            }
        }
    }
}

/// A pass leaves alone the names that it does not come across.
proof fn lemma_reap_passes_by(
    node: Node,
    s: ReapState,
    members: Seq<(IdentityModel, nat)>,
    now: u64,
    name: Seq<char>,
    epoch: u64,
)
    requires
        forall|i: int| 0 <= i < members.len() ==> (#[trigger] members[i]).0.name != name,
    ensures
        ({
            let r = node.reap_all(s, members, now);
            &&& r.registry.contains_key(name) == s.registry.contains_key(name)
            &&& r.registry[name] == s.registry[name]
            &&& r.dead_since.contains_key((name, epoch)) == s.dead_since.contains_key((name, epoch))
            &&& r.dead_since[(name, epoch)] == s.dead_since[(name, epoch)]
        }),
    decreases members.len(),
{
    if members.len() > 0 {
        let front = members.drop_last();
        assert forall|i: int| 0 <= i < front.len() implies (#[trigger] front[i]).0.name != name by {
            assert(front[i] == members[i]);
        }
        lemma_reap_passes_by(node, s, front, now, name, epoch);
        assert(members.last() == members[members.len() - 1]);
    }
}

/// What a pass does to the member it comes across at `at`.
proof fn lemma_reap_at(
    node: Node,
    s: ReapState,
    members: Seq<(IdentityModel, nat)>,
    now: u64,
    at: int,
)
    requires
        0 <= at < members.len(),
        forall|i: int, j: int|
            0 <= i < j < members.len() ==> (#[trigger] members[i]).0.name != (#[trigger] members[j]).0.name,
    ensures
        ({
            let (m, span) = members[at];
            let key = (m.name, m.epoch);
            let r = node.reap_all(s, members, now);
            let one = reap_one(s, m, span, node.owner_live(m.owner, now), now);
            &&& r.registry.contains_key(m.name) == one.registry.contains_key(m.name)
            &&& r.registry[m.name] == one.registry[m.name]
            &&& r.dead_since.contains_key(key) == one.dead_since.contains_key(key)
            &&& one.dead_since.contains_key(key) ==> r.dead_since[key] == one.dead_since[key]
        }),
    decreases members.len(),
{
    let (m, span) = members[at];
    let front = members.drop_last();
    if at == members.len() - 1 {
        assert forall|i: int| 0 <= i < front.len() implies (#[trigger] front[i]).0.name != m.name by {
            assert(members[i].0.name != members[at].0.name);
        }
        lemma_reap_passes_by(node, s, front, now, m.name, m.epoch);
    } else {
        assert forall|i: int, j: int| 0 <= i < j < front.len() implies (#[trigger] front[i]).0.name
            != (#[trigger] front[j]).0.name by {
            assert(members[i].0.name != members[j].0.name);
        }
        lemma_reap_at(node, s, front, now, at);
        assert(front[at] == members[at]);
        assert(members[at].0.name != members[members.len() - 1].0.name);
    }
}

/// What one pass does to a member under watch.
proof fn lemma_one_pass(p: Pass, topic: Seq<char>, name: Seq<char>, epoch: u64)
    requires
        p.watches(topic, name, epoch),
    ensures
        p.keeps_time(topic, name, epoch),
{
    let b = p.before;
    let id = b.registry@[name];
    let list = crate::registry::listing(b.registry@);
    let topics = crate::name_map::listing(b.topic_reap@);
    let members = watched(b.registry@, topics);
    assert(id.name == name) by {
        let pairs = Seq::new(list.len(), |i: int| (list[i].name, list[i]));
        let i = choose|i: int| 0 <= i < pairs.len() && #[trigger] pairs[i].0 == name;
        assert(list[i] == id);
    }
    lemma_watched(b.registry@, topics);
    lemma_live_members(b.registry@, topic);
    let t = choose|t: int| 0 <= t < topics.len() && #[trigger] topics[t].0 == topic;
    assert(live_members(b.registry@, topics[t].0).contains(id));
    let at = choose|at: int| 0 <= at < members.len() && members[at] == (id, topics[t].1);
    let s = ReapState {
        registry: b.registry@,
        dead_since: b.member_dead_since@,
        tombstones: Seq::empty(),
    };
    lemma_reap_at(b, s, members, p.now, at);
}

/// What the clock of a member shows after `n` passes, none of which retired it: when the first of
/// those that found its owner out of reach without a break was made.
proof fn lemma_clock(
    passes: Seq<Pass>,
    topic: Seq<char>,
    name: Seq<char>,
    epoch: u64,
    n: nat,
)
    requires
        timed(passes, topic, name, epoch),
        0 < n <= passes.len(),
        !passes[n - 1].retired(name),
    ensures
        silent_passes(passes, name, n) <= n,
        ({
            let clock = passes[n - 1].after.member_dead_since@;
            let run = silent_passes(passes, name, n);
            &&& clock.contains_key((name, epoch)) <==> run > 0
            &&& run > 0 ==> clock[(name, epoch)] == passes[n - run].now
        }),
    decreases n,
{
    assert(passes[n - 1].keeps_time(topic, name, epoch));
    if n > 1 {
        assert(passes[n - 1].follows(passes[n - 2], name));
        lemma_clock(passes, topic, name, epoch, (n - 1) as nat);
    } else {
        assert(silent_passes(passes, name, 0) == 0);
    }
}

/// A member is tombstoned only for unbroken silence, and then it is: the last pass tombstones it
/// exactly if some pass, at least the topic's span ago, and every pass since found its owner out of
/// reach. So a pass that finds the owner live starts the clock anew, and with a span above zero the
/// first pass to find it out of reach never tombstones.
pub proof fn law_a_member_is_reaped_after_unbroken_silence(
    passes: Seq<Pass>,
    topic: Seq<char>,
    name: Seq<char>,
    epoch: u64,
)
    requires
        watches_over(passes, topic, name, epoch),
    ensures
        passes.last().retired(name) <==> exists|j: int|
            #![trigger passes[j]]
            {
                &&& 0 <= j < passes.len()
                &&& forall|k: int| j <= k < passes.len() ==> (#[trigger] passes[k]).found_dead(name)
                &&& elapsed_nanos(passes[j].now, passes.last().now)
                    >= passes.last().before.topic_reap@[topic]
            },
        passes.last().before.topic_reap@[topic] > 0 && (passes.len() == 1
            || !passes[passes.len() - 2].found_dead(name)) ==> !passes.last().retired(name),
{
    lemma_timed(passes, topic, name, epoch);
    lemma_reaped_after_silence(passes, topic, name, epoch);
}

proof fn lemma_reaped_after_silence(
    passes: Seq<Pass>,
    topic: Seq<char>,
    name: Seq<char>,
    epoch: u64,
)
    requires
        timed(passes, topic, name, epoch),
    ensures
        passes.last().retired(name) <==> exists|j: int|
            #![trigger passes[j]]
            {
                &&& 0 <= j < passes.len()
                &&& forall|k: int| j <= k < passes.len() ==> (#[trigger] passes[k]).found_dead(name)
                &&& elapsed_nanos(passes[j].now, passes.last().now)
                    >= passes.last().before.topic_reap@[topic]
            },
        passes.last().before.topic_reap@[topic] > 0 && (passes.len() == 1
            || !passes[passes.len() - 2].found_dead(name)) ==> !passes.last().retired(name),
{
    let n = passes.len();
    let last = passes[n - 1];
    let span = last.before.topic_reap@[topic];
    let run = silent_passes(passes, name, n);
    assert(last.keeps_time(topic, name, epoch));
    if n > 1 {
        assert(last.follows(passes[n - 2], name));
        lemma_clock(passes, topic, name, epoch, (n - 1) as nat);
    } else {
        assert(silent_passes(passes, name, 0) == 0);
    }
    lemma_run(passes, name, n);
    if last.found_dead(name) {
        let first = n - run;
        let since = passes[first].now;
        assert(last.retired(name) <==> elapsed_nanos(since, last.now) >= span);
        assert forall|j: int|
            #![trigger passes[j]]
            0 <= j < n && (forall|k: int|
                j <= k < n ==> (#[trigger] passes[k]).found_dead(name)) implies since
            <= passes[j].now by {
            if j < first {
                assert(passes[first - 1].found_dead(name));
            }
            lemma_time(passes, topic, name, epoch, first, j);
        }
        if last.retired(name) {
            assert(0 <= first < n);
            assert(elapsed_nanos(passes[first].now, passes.last().now) >= span);
        }
    }
}

/// The passes of an unbroken run all found the owner out of reach, and the one before did not.
proof fn lemma_run(passes: Seq<Pass>, name: Seq<char>, n: nat)
    requires
        n <= passes.len(),
    ensures
        silent_passes(passes, name, n) <= n,
        forall|k: int|
            n - silent_passes(passes, name, n) <= k < n ==> (#[trigger] passes[k]).found_dead(name),
        silent_passes(passes, name, n) < n ==> !passes[n - silent_passes(passes, name, n)
            - 1].found_dead(name),
    decreases n,
{
    if n > 0 && passes[n - 1].found_dead(name) {
        lemma_run(passes, name, (n - 1) as nat);
    }
}

/// Later passes are made later.
proof fn lemma_time(
    passes: Seq<Pass>,
    topic: Seq<char>,
    name: Seq<char>,
    epoch: u64,
    i: int,
    j: int,
)
    requires
        timed(passes, topic, name, epoch),
        0 <= i <= j < passes.len(),
    ensures
        passes[i].now <= passes[j].now,
    decreases j - i,
{
    if i < j {
        lemma_time(passes, topic, name, epoch, i, j - 1);
        assert(passes[j].follows(passes[j - 1], name));
    }
}

/// A pass tombstones no member of a topic that did not ask for it, and nothing that is no member.
pub proof fn law_only_topics_that_ask_lose_members(p: Pass, name: Seq<char>)
    requires
        Node::reaped(p.before, p.after, p.now),
        p.before.registry@.contains_key(name),
        match p.before.registry@[name].member_of {
            Some(topic) => !p.before.topic_reap@.contains_key(topic),
            None => true,
        },
    ensures
        p.after.registry@.contains_key(name),
        p.after.registry@[name] == p.before.registry@[name],
{
    let b = p.before;
    let topics = crate::name_map::listing(b.topic_reap@);
    let members = watched(b.registry@, topics);
    lemma_watched(b.registry@, topics);
    assert forall|i: int| 0 <= i < members.len() implies (#[trigger] members[i]).0.name != name by {
        let (id, span) = members[i];
        if id.name == name {
            let t = choose|t: int| 0 <= t < topics.len() && topics[t] == (id.member_of->0, span);
            assert(b.topic_reap@.contains_key(topics[t].0));
        }
    }
    let s = ReapState {
        registry: b.registry@,
        dead_since: b.member_dead_since@,
        tombstones: Seq::empty(),
    };
    lemma_reap_passes_by(b, s, members, p.now, name, 0);
}

// ---------------- attaching ----------------
/// The topics once every member in `gone` has been detached, one after the other.
pub open spec fn all_detached(
    muxes: Map<Seq<char>, TopicModel>,
    gone: Seq<(Seq<char>, Seq<char>, u64)>,
) -> Map<Seq<char>, TopicModel>
    decreases gone.len(),
{
    if gone.len() == 0 {
        muxes
    } else {
        let (topic, name, epoch) = gone.last();
        with_detached(all_detached(muxes, gone.drop_last()), topic, (name, epoch))
    }
}

/// The topics once the members in `done` have been attached, one after the other.
pub open spec fn all_attached(
    muxes: Map<Seq<char>, TopicModel>,
    done: Seq<AttachModel>,
) -> Map<Seq<char>, TopicModel>
    decreases done.len(),
{
    if done.len() == 0 {
        muxes
    } else {
        let s = done.last();
        with_attached(all_attached(muxes, done.drop_last()), s.topic, (s.name, s.epoch))
    }
}

/// Whether `carried` is `after` with `plan` carried out: whoever left has been detached, whoever is
/// wanted is subscribed to, and the members in `done` have been attached. Those are the members of
/// this node, and of the others those whose replica is there.
pub open spec fn carried_out(
    after: Node,
    plan: AttachPlan,
    done: Seq<AttachModel>,
    carried: Node,
) -> bool {
    &&& carried.muxes@ == all_attached(
        all_detached(after.muxes@, departures(plan.detach@)),
        done,
    )
    &&& forall|s: AttachModel| #[trigger] done.contains(s) ==> steps(plan.attach@).contains(s)
    &&& forall|s: AttachModel| #[trigger]
        steps(plan.attach@).contains(s) ==> s.replica || done.contains(s)
    &&& forall|name: Seq<char>|
        texts(plan.subscribe@).contains(name) || after.subscribed(name)
            ==> #[trigger] carried.subscribed(name)
    &&& carried.registry == after.registry
    &&& carried.config == after.config
    &&& carried.dissemination == after.dissemination
    &&& carried.last_live_owners == after.last_live_owners
}

proof fn lemma_without_member(members: Seq<(Seq<char>, u64)>, m: (Seq<char>, u64))
    ensures
        forall|x: (Seq<char>, u64)| #[trigger]
            without_member(members, m).contains(x) <==> members.contains(x) && x != m,
    decreases members.len(),
{
    if members.len() > 0 {
        let front = members.drop_last();
        lemma_without_member(front, m);
        crate::broadcast::lemma_push_contains(without_member(front, m), members.last());
        crate::broadcast::lemma_push_contains(front, members.last());
        assert(members =~= front.push(members.last()));
    }
}

proof fn lemma_all_detached(
    muxes: Map<Seq<char>, TopicModel>,
    gone: Seq<(Seq<char>, Seq<char>, u64)>,
    topic: Seq<char>,
    m: (Seq<char>, u64),
)
    ensures
        all_detached(muxes, gone).contains_key(topic) <==> muxes.contains_key(topic),
        muxes.contains_key(topic) ==> (all_detached(muxes, gone)[topic].members.contains(m)
            <==> muxes[topic].members.contains(m) && !gone.contains((topic, m.0, m.1))),
    decreases gone.len(),
{
    if gone.len() > 0 {
        let front = gone.drop_last();
        let last = gone.last();
        lemma_all_detached(muxes, front, topic, m);
        crate::broadcast::lemma_push_contains(front, last);
        assert(gone =~= front.push(last));
        assert(gone.contains((topic, m.0, m.1)) <==> front.contains((topic, m.0, m.1)) || (
            topic,
            m.0,
            m.1,
        ) == last);
        lemma_without_member(all_detached(muxes, front)[topic].members, (last.1, last.2));
    }
}

/// Whether one of `done` attaches `m` to `topic`.
spec fn attaches(done: Seq<AttachModel>, topic: Seq<char>, m: (Seq<char>, u64)) -> bool {
    exists|s: AttachModel|
        #[trigger] done.contains(s) && s.topic == topic && s.name == m.0 && s.epoch == m.1
}

proof fn lemma_all_attached(
    muxes: Map<Seq<char>, TopicModel>,
    done: Seq<AttachModel>,
    topic: Seq<char>,
    m: (Seq<char>, u64),
)
    ensures
        all_attached(muxes, done).contains_key(topic) <==> muxes.contains_key(topic),
        muxes.contains_key(topic) ==> (all_attached(muxes, done)[topic].members.contains(m)
            <==> muxes[topic].members.contains(m) || attaches(done, topic, m)),
    decreases done.len(),
{
    if done.len() > 0 {
        let front = done.drop_last();
        let last = done.last();
        lemma_all_attached(muxes, front, topic, m);
        crate::broadcast::lemma_push_contains(front, last);
        assert(done =~= front.push(last));
        crate::broadcast::lemma_push_contains(
            all_attached(muxes, front)[topic].members,
            (last.name, last.epoch),
        );
        let here = last.topic == topic && last.name == m.0 && last.epoch == m.1;
        assert(attaches(done, topic, m) <==> attaches(front, topic, m) || here) by {
            if attaches(front, topic, m) {
                let s = choose|s: AttachModel|
                    #[trigger] front.contains(s) && s.topic == topic && s.name == m.0 && s.epoch
                        == m.1;
                assert(done.contains(s));
            }
            if here {
                assert(done.contains(last));
            }
            if attaches(done, topic, m) && !here {
                let s = choose|s: AttachModel|
                    #[trigger] done.contains(s) && s.topic == topic && s.name == m.0 && s.epoch
                        == m.1;
                assert(front.contains(s));
            }
        }
    } else {
        assert(!attaches(done, topic, m));
    }
}

pub(crate) proof fn lemma_concat_contains<A>(a: Seq<A>, b: Seq<A>)
    ensures
        forall|x: A| #[trigger] (a + b).contains(x) <==> a.contains(x) || b.contains(x),
{
    assert forall|x: A| #[trigger] (a + b).contains(x) <==> a.contains(x) || b.contains(x) by {
        if a.contains(x) {
            let i = choose|i: int| 0 <= i < a.len() && a[i] == x;
            assert((a + b)[i] == x);
        }
        if b.contains(x) {
            let i = choose|i: int| 0 <= i < b.len() && b[i] == x;
            assert((a + b)[a.len() + i] == x);
        }
    }
}

proof fn lemma_leaving(
    m: Directory,
    topic: Seq<char>,
    members: Seq<(Seq<char>, u64)>,
    x: (Seq<char>, Seq<char>, u64),
)
    ensures
        leaving(m, topic, members).contains(x) <==> x.0 == topic && members.contains((x.1, x.2))
            && has_left(m, topic, x.1),
    decreases members.len(),
{
    if members.len() > 0 {
        let front = members.drop_last();
        let last = members.last();
        lemma_leaving(m, topic, front, x);
        crate::broadcast::lemma_push_contains(
            leaving(m, topic, front),
            (topic, last.0, last.1),
        );
        crate::broadcast::lemma_push_contains(front, last);
        assert(members =~= front.push(last));
        assert(members.contains((x.1, x.2)) <==> front.contains((x.1, x.2)) || (x.1, x.2) == last);
    }
}

pub(crate) proof fn lemma_all_leaving(
    m: Directory,
    topics: Seq<(Seq<char>, TopicModel)>,
    x: (Seq<char>, Seq<char>, u64),
)
    ensures
        all_leaving(m, topics).contains(x) <==> exists|t: int|
            0 <= t < topics.len() && (#[trigger] topics[t]).0 == x.0 && topics[t].1.members.contains(
                (x.1, x.2),
            ) && has_left(m, x.0, x.1),
    decreases topics.len(),
{
    if topics.len() > 0 {
        let front = topics.drop_last();
        let last = topics.last();
        lemma_all_leaving(m, front, x);
        lemma_leaving(m, last.0, last.1.members, x);
        lemma_concat_contains(all_leaving(m, front), leaving(m, last.0, last.1.members));
        assert(all_leaving(m, topics) == all_leaving(m, front) + leaving(
            m,
            last.0,
            last.1.members,
        ));
        if all_leaving(m, front).contains(x) {
            let t = choose|t: int|
                0 <= t < front.len() && (#[trigger] front[t]).0 == x.0
                    && front[t].1.members.contains((x.1, x.2)) && has_left(m, x.0, x.1);
            assert(topics[t] == front[t]);
        }
        if leaving(m, last.0, last.1.members).contains(x) {
            assert(topics[topics.len() - 1].0 == x.0);
        }
        if exists|t: int|
            0 <= t < topics.len() && (#[trigger] topics[t]).0 == x.0
                && topics[t].1.members.contains((x.1, x.2)) && has_left(m, x.0, x.1) {
            let t = choose|t: int|
                0 <= t < topics.len() && (#[trigger] topics[t]).0 == x.0
                    && topics[t].1.members.contains((x.1, x.2)) && has_left(m, x.0, x.1);
            if t < front.len() {
                assert(front[t] == topics[t]);
            }
        }
    }
}

/// Whether the member `id` of `topic` is to be attached as `s`.
pub open spec fn to_attach(
    node: Node,
    topic: Seq<char>,
    attached: Seq<(Seq<char>, u64)>,
    id: IdentityModel,
    s: AttachModel,
) -> bool {
    &&& s == node.step_value(topic, id)
    &&& !attached.contains((id.name, id.epoch))
    &&& crate::names::valid_name(id.name)
}

proof fn lemma_pending(
    node: Node,
    topic: Seq<char>,
    attached: Seq<(Seq<char>, u64)>,
    list: Seq<IdentityModel>,
    s: AttachModel,
)
    ensures
        node.pending(topic, attached, list).contains(s) <==> exists|id: IdentityModel|
            list.contains(id) && #[trigger] to_attach(node, topic, attached, id, s),
    decreases list.len(),
{
    if list.len() > 0 {
        let front = list.drop_last();
        let last = list.last();
        lemma_pending(node, topic, attached, front, s);
        crate::broadcast::lemma_push_contains(front, last);
        crate::broadcast::lemma_push_contains(
            node.pending(topic, attached, front),
            node.step_value(topic, last),
        );
        assert(list =~= front.push(last));
        assert(list.contains(last));
        if node.pending(topic, attached, front).contains(s) {
            let id = choose|id: IdentityModel|
                front.contains(id) && #[trigger] to_attach(node, topic, attached, id, s);
            assert(list.contains(id));
        }
        if exists|id: IdentityModel|
            list.contains(id) && #[trigger] to_attach(node, topic, attached, id, s) {
            let id = choose|id: IdentityModel|
                list.contains(id) && #[trigger] to_attach(node, topic, attached, id, s);
            assert(front.contains(id) || id == last);
        }
        if node.pending(topic, attached, list).contains(s) && !node.pending(
            topic,
            attached,
            front,
        ).contains(s) {
            assert(to_attach(node, topic, attached, last, s));
        }
    }
}

/// Whether `s` attaches a live member of the topic at `t`.
pub open spec fn pending_at(
    node: Node,
    topics: Seq<(Seq<char>, TopicModel)>,
    t: int,
    id: IdentityModel,
    s: AttachModel,
) -> bool {
    &&& 0 <= t < topics.len()
    &&& live_members(node.registry@, topics[t].0).contains(id)
    &&& to_attach(node, topics[t].0, topics[t].1.members, id, s)
}

pub(crate) proof fn lemma_all_pending(
    node: Node,
    topics: Seq<(Seq<char>, TopicModel)>,
    s: AttachModel,
)
    ensures
        node.all_pending(topics).contains(s) <==> exists|t: int, id: IdentityModel| #[trigger]
            pending_at(node, topics, t, id, s),
    decreases topics.len(),
{
    if topics.len() > 0 {
        let front = topics.drop_last();
        let last = topics.last();
        let list = live_members(node.registry@, last.0);
        let here = node.pending(last.0, last.1.members, list);
        lemma_all_pending(node, front, s);
        lemma_pending(node, last.0, last.1.members, list, s);
        lemma_concat_contains(node.all_pending(front), here);
        assert(node.all_pending(topics) == node.all_pending(front) + here);
        if node.all_pending(front).contains(s) {
            let (t, id) = choose|t: int, id: IdentityModel| #[trigger]
                pending_at(node, front, t, id, s);
            assert(pending_at(node, topics, t, id, s));
        }
        if here.contains(s) {
            let id = choose|id: IdentityModel|
                list.contains(id) && #[trigger] to_attach(node, last.0, last.1.members, id, s);
            assert(pending_at(node, topics, topics.len() - 1, id, s));
        }
        if exists|t: int, id: IdentityModel| #[trigger] pending_at(node, topics, t, id, s) {
            let (t, id) = choose|t: int, id: IdentityModel| #[trigger]
                pending_at(node, topics, t, id, s);
            if t < front.len() {
                assert(pending_at(node, front, t, id, s));
            } else {
                assert(to_attach(node, last.0, last.1.members, id, s));
            }
        }
    }
}

/// Whom a pass wants is a live member that it wants.
pub(crate) proof fn lemma_all_wanted(
    node: Node,
    topics: Seq<(Seq<char>, TopicModel)>,
    name: Seq<char>,
    now: u64,
)
    requires
        node.all_wanted(topics, now).contains(name),
    ensures
        exists|t: int, m: IdentityModel|
            0 <= t < topics.len() && #[trigger] live_members(
                node.registry@,
                topics[t].0,
            ).contains(m) && m.name == name && node.wants(m, now),
    decreases topics.len(),
{
    if topics.len() > 0 {
        let front = topics.drop_last();
        let last = topics.last();
        let list = live_members(node.registry@, last.0);
        lemma_concat_contains(node.all_wanted(front, now), node.wanted(list, now));
        assert(node.all_wanted(topics, now) == node.all_wanted(front, now) + node.wanted(list, now));
        if node.all_wanted(front, now).contains(name) {
            lemma_all_wanted(node, front, name, now);
            let (t, m) = choose|t: int, m: IdentityModel|
                0 <= t < front.len() && #[trigger] live_members(
                    node.registry@,
                    front[t].0,
                ).contains(m) && m.name == name && node.wants(m, now);
            assert(topics[t] == front[t]);
            assert(live_members(node.registry@, topics[t].0).contains(m));
        } else {
            lemma_wanted_from(node, list, name, now);
            let m = choose|m: IdentityModel| #[trigger]
                list.contains(m) && m.name == name && node.wants(m, now);
            assert(live_members(node.registry@, topics[topics.len() - 1].0).contains(m));
        }
    }
}

proof fn lemma_wanted_from(node: Node, list: Seq<IdentityModel>, name: Seq<char>, now: u64)
    requires
        node.wanted(list, now).contains(name),
    ensures
        exists|m: IdentityModel| #[trigger]
            list.contains(m) && m.name == name && node.wants(m, now),
    decreases list.len(),
{
    if list.len() > 0 {
        let front = list.drop_last();
        crate::broadcast::lemma_push_contains(node.wanted(front, now), list.last().name);
        crate::broadcast::lemma_push_contains(front, list.last());
        assert(list =~= front.push(list.last()));
        if node.wanted(front, now).contains(name) {
            lemma_wanted_from(node, front, name, now);
            let m = choose|m: IdentityModel| #[trigger]
                front.contains(m) && m.name == name && node.wants(m, now);
            assert(list.contains(m));
        } else {
            assert(list.contains(list.last()));
        }
    }
}

/// A topic hosted here has a place among the topics.
pub(crate) proof fn lemma_place(node: Node, topic: Seq<char>) -> (t: int)
    requires
        node.listable(),
        node.muxes@.contains_key(topic),
    ensures
        0 <= t < crate::name_map::listing(node.muxes@).len(),
        crate::name_map::listing(node.muxes@)[t] == (topic, node.muxes@[topic]),
{
    let topics = crate::name_map::listing(node.muxes@);
    let t = choose|t: int| 0 <= t < topics.len() && #[trigger] topics[t].0 == topic;
    t
}

/// Who is attached once a plan has been carried out: those attached before that have not left, and
/// those attached since.
proof fn lemma_carried(
    before: Node,
    after: Node,
    now: u64,
    plan: AttachPlan,
    done: Seq<AttachModel>,
    carried: Node,
    topic: Seq<char>,
    m: (Seq<char>, u64),
)
    requires
        Node::attach_planned(before, after, now, plan),
        carried_out(after, plan, done, carried),
    ensures
        carried.muxes@.contains_key(topic) <==> before.muxes@.contains_key(topic),
        before.muxes@.contains_key(topic) ==> (carried.muxes@[topic].members.contains(m) <==> (
        before.muxes@[topic].members.contains(m) && !has_left(before.registry@, topic, m.0))
            || attaches(done, topic, m)),
{
    let gone = departures(plan.detach@);
    let topics = crate::name_map::listing(before.muxes@);
    let x = (topic, m.0, m.1);
    lemma_all_detached(after.muxes@, gone, topic, m);
    lemma_all_attached(all_detached(after.muxes@, gone), done, topic, m);
    if before.muxes@.contains_key(topic) {
        lemma_all_leaving(before.registry@, topics, x);
        let t = lemma_place(before, topic);
        assert(topics[t].0 == topic);
        if gone.contains(x) {
            let k = choose|k: int|
                0 <= k < topics.len() && (#[trigger] topics[k]).0 == x.0
                    && topics[k].1.members.contains((x.1, x.2)) && has_left(
                    before.registry@,
                    x.0,
                    x.1,
                );
            assert(has_left(before.registry@, topic, m.0));
        }
        assert(x.1 == m.0 && x.2 == m.1 && (x.1, x.2) == m);
    }
}

/// Whatever a plan attaches is a live member, and has not left.
proof fn lemma_attached_is_live(
    before: Node,
    after: Node,
    now: u64,
    plan: AttachPlan,
    s: AttachModel,
)
    requires
        Node::attach_planned(before, after, now, plan),
        steps(plan.attach@).contains(s),
    ensures
        !has_left(before.registry@, s.topic, s.name),
{
    let topics = crate::name_map::listing(before.muxes@);
    lemma_all_pending(before, topics, s);
    let (t, id) = choose|t: int, id: IdentityModel| #[trigger] pending_at(before, topics, t, id, s);
    lemma_live_members(before.registry@, topics[t].0);
}

/// Once the plan of an attach pass has been carried out, every live member of this node is attached to
/// its topic.
pub proof fn law_own_members_are_attached(
    before: Node,
    after: Node,
    now: u64,
    plan: AttachPlan,
    done: Seq<AttachModel>,
    carried: Node,
    topic: Seq<char>,
    id: IdentityModel,
)
    requires
        Node::attach_planned(before, after, now, plan),
        carried_out(after, plan, done, carried),
        before.muxes@.contains_key(topic),
        before.registry@.contains_key(id.name),
        before.registry@[id.name] == id,
        !id.deleted,
        id.member_of == Some(topic),
        id.owner == before.config.node_id,
        crate::names::valid_name(id.name),
    ensures
        carried.muxes@[topic].members.contains((id.name, id.epoch)),
{
    let m = (id.name, id.epoch);
    lemma_carried(before, after, now, plan, done, carried, topic, m);
    if !before.muxes@[topic].members.contains(m) {
        let topics = crate::name_map::listing(before.muxes@);
        let s = before.step_value(topic, id);
        let t = lemma_place(before, topic);
        lemma_live_members(before.registry@, topic);
        lemma_all_pending(before, topics, s);
        assert(pending_at(before, topics, t, id, s));
        assert(done.contains(s));
        assert(attaches(done, topic, m));
    }
}

/// A member is detached exactly if the registry says that it has left: it is tombstoned, or feeds
/// another topic or none. One that the registry does not know stays.
pub proof fn law_only_those_who_left_are_detached(
    before: Node,
    after: Node,
    now: u64,
    plan: AttachPlan,
    topic: Seq<char>,
    name: Seq<char>,
    epoch: u64,
)
    requires
        Node::attach_planned(before, after, now, plan),
        before.muxes@.contains_key(topic),
        before.muxes@[topic].members.contains((name, epoch)),
    ensures
        departures(plan.detach@).contains((topic, name, epoch)) <==> {
            &&& before.registry@.contains_key(name)
            &&& before.registry@[name].deleted || before.registry@[name].member_of != Some(topic)
        },
{
    let topics = crate::name_map::listing(before.muxes@);
    let x = (topic, name, epoch);
    lemma_all_leaving(before.registry@, topics, x);
    let t = lemma_place(before, topic);
    assert(topics[t].0 == x.0 && topics[t].1.members.contains((x.1, x.2)));
}

/// Once the plan of an attach pass has been carried out, a second pass at the same moment changes
/// nothing: it detaches nobody, subscribes to nobody, and forgives nobody; and it attaches nobody but
/// those whose replica was not there the first time.
pub proof fn law_a_second_attach_pass_changes_nothing(
    before: Node,
    after: Node,
    now: u64,
    plan: AttachPlan,
    done: Seq<AttachModel>,
    carried: Node,
    again: Node,
    second: AttachPlan,
)
    requires
        Node::attach_planned(before, after, now, plan),
        carried_out(after, plan, done, carried),
        Node::attach_planned(carried, again, now, second),
    ensures
        second.detach@.len() == 0,
        second.subscribe@.len() == 0,
        forall|s: AttachModel| #[trigger]
            steps(second.attach@).contains(s) ==> s.replica && steps(plan.attach@).contains(s)
                && !done.contains(s),
        (forall|s: AttachModel| #[trigger] steps(plan.attach@).contains(s) ==> done.contains(s))
            ==> second.attach@.len() == 0,
        again.muxes@ == carried.muxes@,
        again.subscriptions@ == carried.subscriptions@,
        again.conducted@ == carried.conducted@,
        again.attach_backoff@ == carried.attach_backoff@,
        forall|x: crate::identity::NodeId|
            again.last_live_owners@.contains(x) <==> #[trigger] carried.last_live_owners@.contains(x),
{
    lemma_second_detach(before, after, now, plan, done, carried, again, second);
    lemma_second_attach(before, after, now, plan, done, carried, again, second);
    if second.attach@.len() > 0 {
        let s = steps(second.attach@)[0];
        assert(steps(second.attach@).contains(s));
    }
    assert(names_of_none(second));
    lemma_second_subscribe(before, after, now, plan, done, carried, again, second);
    assert forall|k: Seq<char>| #[trigger]
        again.attach_backoff@.contains_key(k) <==> carried.attach_backoff@.contains_key(k) by {
        if carried.revived(again.last_live_owners@, k) {
            let owner = carried.registry@[k].owner;
            assert(carried.dissemination.live(owner, now));
            assert(after.last_live_owners@.contains(owner));
        }
    }
    assert(again.attach_backoff@ =~= carried.attach_backoff@);
}

/// A plan that detaches nobody leaves the subscriptions alone.
spec fn names_of_none(plan: AttachPlan) -> bool {
    crate::node::topics::names_of(departures(plan.detach@)) == Seq::<Seq<char>>::empty()
}

proof fn lemma_second_detach(
    before: Node,
    after: Node,
    now: u64,
    plan: AttachPlan,
    done: Seq<AttachModel>,
    carried: Node,
    again: Node,
    second: AttachPlan,
)
    requires
        Node::attach_planned(before, after, now, plan),
        carried_out(after, plan, done, carried),
        Node::attach_planned(carried, again, now, second),
    ensures
        second.detach@.len() == 0,
        names_of_none(second),
{
    let gone = departures(second.detach@);
    let topics = crate::name_map::listing(carried.muxes@);
    if gone.len() > 0 {
        let x = gone[0];
        assert(gone.contains(x));
        lemma_all_leaving(carried.registry@, topics, x);
        let t = choose|t: int|
            0 <= t < topics.len() && (#[trigger] topics[t]).0 == x.0
                && topics[t].1.members.contains((x.1, x.2)) && has_left(
                carried.registry@,
                x.0,
                x.1,
            );
        assert(carried.muxes@.contains_key(topics[t].0));
        lemma_carried(before, after, now, plan, done, carried, x.0, (x.1, x.2));
        let s = choose|s: AttachModel|
            #[trigger] done.contains(s) && s.topic == x.0 && s.name == x.1 && s.epoch == x.2;
        lemma_attached_is_live(before, after, now, plan, s);
    }
    assert(crate::node::topics::names_of(gone) =~= Seq::<Seq<char>>::empty());
}

proof fn lemma_second_attach(
    before: Node,
    after: Node,
    now: u64,
    plan: AttachPlan,
    done: Seq<AttachModel>,
    carried: Node,
    again: Node,
    second: AttachPlan,
)
    requires
        Node::attach_planned(before, after, now, plan),
        carried_out(after, plan, done, carried),
        Node::attach_planned(carried, again, now, second),
    ensures
        forall|s: AttachModel| #[trigger]
            steps(second.attach@).contains(s) ==> s.replica && steps(plan.attach@).contains(s)
                && !done.contains(s),
{
    let topics = crate::name_map::listing(before.muxes@);
    let topics2 = crate::name_map::listing(carried.muxes@);
    assert forall|s: AttachModel| #[trigger] steps(second.attach@).contains(s) implies s.replica
        && steps(plan.attach@).contains(s) && !done.contains(s) by {
        lemma_all_pending(carried, topics2, s);
        let (t2, id) = choose|t: int, id: IdentityModel| #[trigger]
            pending_at(carried, topics2, t, id, s);
        let topic = topics2[t2].0;
        let m = (id.name, id.epoch);
        assert(carried.muxes@.contains_key(topic));
        lemma_live_members(carried.registry@, topic);
        lemma_carried(before, after, now, plan, done, carried, topic, m);
        assert(!carried.muxes@[topic].members.contains(m));
        assert(!has_left(before.registry@, topic, id.name));
        let t = lemma_place(before, topic);
        lemma_all_pending(before, topics, s);
        assert(s == before.step_value(topic, id));
        assert(pending_at(before, topics, t, id, s));
        if done.contains(s) {
            assert(attaches(done, topic, m));
        }
    }
}

proof fn lemma_second_subscribe(
    before: Node,
    after: Node,
    now: u64,
    plan: AttachPlan,
    done: Seq<AttachModel>,
    carried: Node,
    again: Node,
    second: AttachPlan,
)
    requires
        Node::attach_planned(before, after, now, plan),
        carried_out(after, plan, done, carried),
        Node::attach_planned(carried, again, now, second),
        names_of_none(second),
    ensures
        second.subscribe@.len() == 0,
        again.subscriptions@ == carried.subscriptions@,
        again.conducted@ == carried.conducted@,
{
    let topics = crate::name_map::listing(before.muxes@);
    let topics2 = crate::name_map::listing(carried.muxes@);
    let wanted = texts(second.subscribe@);
    assert(again.subscriptions@ == carried.subscriptions@);
    if wanted.len() > 0 {
        let name = wanted[0];
        assert(wanted.contains(name));
        lemma_all_wanted(again, topics2, name, now);
        let (t2, m) = choose|t: int, m: IdentityModel|
            0 <= t < topics2.len() && #[trigger] live_members(
                again.registry@,
                topics2[t].0,
            ).contains(m) && m.name == name && again.wants(m, now);
        let topic = topics2[t2].0;
        assert(carried.muxes@.contains_key(topic));
        lemma_carried(before, after, now, plan, done, carried, topic, (name, 0));
        let t = lemma_place(before, topic);
        if !after.subscribed(name) {
            assert(after.wants(m, now));
            crate::node::laws::law_no_live_member_is_starved(after, topics, t, m, now);
            assert(texts(plan.subscribe@).contains(name));
        }
        assert(carried.subscribed(name));
        assert(again.subscribed(name));
    }
}

} // verus!
