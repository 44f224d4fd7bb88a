//! Fan-out of encoded readings to every subscribed client, each with a
//! bounded queue of its own; a subscriber whose delivery fails is removed.

use vstd::prelude::*;
use crate::text::views;

verus! {

/// What the hub holds for one subscriber: its number, whether its receiving
/// side is still open, and the messages waiting for it, oldest first.
pub struct Member {
    pub id: u64,
    pub open: bool,
    pub inbox: Seq<Seq<char>>,
}

struct Subscription {
    id: u64,
    open: bool,
    queue: Vec<String>,
}

/// The subscriber registry.
pub struct Hub {
    subs: Vec<Subscription>,
    next_id: u64,
    capacity: usize,
}

spec fn member_of(s: Subscription) -> Member {
    Member { id: s.id, open: s.open, inbox: views(s.queue@) }
}

/// Delivery to `m` succeeds: its receiver is open and its queue has room.
pub open spec fn delivers(m: Member, capacity: nat) -> bool {
    m.open && m.inbox.len() < capacity
}

/// The registry after publishing `msg`: each member that takes delivery
/// keeps its place with `msg` appended to its inbox; the others are gone.
pub open spec fn after_publish(ms: Seq<Member>, msg: Seq<char>, capacity: nat) -> Seq<Member>
    decreases ms.len(),
{
    if ms.len() == 0 {
        Seq::empty()
    } else {
        let rest = after_publish(ms.drop_last(), msg, capacity);
        let m = ms.last();
        if delivers(m, capacity) {
            rest.push(Member { id: m.id, open: m.open, inbox: m.inbox.push(msg) })
        } else {
            rest
        }
    }
}

/// The numbers of a list of members.
pub open spec fn ids(ms: Seq<Member>) -> Seq<u64> {
    ms.map_values(|m: Member| m.id)
}

/// Members are listed in increasing order of their numbers.
pub open spec fn ids_increasing(ms: Seq<Member>) -> bool {
    forall|i: int, j: int| 0 <= i < j < ms.len() ==> ms[i].id < ms[j].id
}

impl Hub {
    /// The registry, in order of subscription.
    pub closed spec fn members(&self) -> Seq<Member> {
        self.subs@.map_values(|s: Subscription| member_of(s))
    }

    /// The number that the next subscriber gets.
    pub closed spec fn next_id(&self) -> u64 {
        self.next_id
    }

    /// How many messages may wait for one subscriber.
    pub closed spec fn capacity(&self) -> nat {
        self.capacity as nat
    }

    /// Numbers increase along the registry and lie below `next_id`; no
    /// inbox is over capacity.
    pub open spec fn wf(&self) -> bool {
        &&& ids_increasing(self.members())
        &&& forall|i: int| 0 <= i < self.members().len() ==> #[trigger] self.members()[i].id
            < self.next_id()
        &&& forall|i: int| 0 <= i < self.members().len() ==> #[trigger] self.members()[i].inbox.len()
            <= self.capacity()
    }

    /// An empty hub whose subscribers may each have `capacity` messages waiting.
    pub fn new(capacity: usize) -> (r: Hub)
        ensures
            r.wf(),
            r.members() == Seq::<Member>::empty(),
            r.next_id() == 0,
            r.capacity() == capacity,
    {
        let r = Hub { subs: Vec::new(), next_id: 0, capacity };
        assert(r.members() =~= Seq::<Member>::empty());
        r
    }

    /// The number of registered subscribers.
    pub fn len(&self) -> (r: usize)
        ensures
            r == self.members().len(),
    {
        self.subs.len()
    }

    /// Registers a new subscriber with an empty inbox and returns its number;
    /// `None`, changing nothing, once every number has been handed out.
    pub fn subscribe(&mut self) -> (r: Option<u64>)
        requires
            old(self).wf(),
        ensures
            final(self).wf(),
            final(self).capacity() == old(self).capacity(),
            old(self).next_id() == u64::MAX ==> r is None && final(self).members() == old(
                self,
            ).members() && final(self).next_id() == old(self).next_id(),
            old(self).next_id() < u64::MAX ==> {
                &&& r == Some(old(self).next_id())
                &&& final(self).next_id() == old(self).next_id() + 1
                &&& final(self).members() == old(self).members().push(
                    Member { id: old(self).next_id(), open: true, inbox: Seq::empty() },
                )
            },
    {
        if self.next_id == u64::MAX {
            return None;
        }
        let id = self.next_id;
        let ghost before = self.subs@;
        self.subs.push(Subscription { id, open: true, queue: Vec::new() });
        self.next_id = id + 1;
        proof {
            assert(views(Seq::<String>::empty()) =~= Seq::<Seq<char>>::empty());
            assert(self.members() =~= before.map_values(|s: Subscription| member_of(s)).push(
                Member { id, open: true, inbox: Seq::empty() },
            ));
        }
        Some(id)
    }

    fn find(&self, id: u64) -> (r: Option<usize>)
        ensures
            r matches Some(i) ==> i < self.members().len() && self.members()[i as int].id == id,
            r is None ==> forall|i: int|
                0 <= i < self.members().len() ==> #[trigger] self.members()[i].id != id,
    {
        let mut i: usize = 0;
        while i < self.subs.len()
            invariant
                i <= self.subs@.len(),
                forall|k: int| 0 <= k < i ==> #[trigger] self.members()[k].id != id,
            decreases self.subs@.len() - i,
        {
            if self.subs[i].id == id {
                return Some(i);
            }
            i = i + 1;
        }
        None
    }

    /// Marks subscriber `id` as gone; it is removed at the next publish.
    /// Returns whether it was registered.
    pub fn close(&mut self, id: u64) -> (r: bool)
        requires
            old(self).wf(),
        ensures
            final(self).wf(),
            final(self).next_id() == old(self).next_id(),
            final(self).capacity() == old(self).capacity(),
            r == exists|i: int| 0 <= i < old(self).members().len() && #[trigger] old(self).members()[i].id == id,
            final(self).members().len() == old(self).members().len(),
            forall|i: int| 0 <= i < old(self).members().len() ==> {
                let m = #[trigger] old(self).members()[i];
                final(self).members()[i] == if m.id == id {
                    Member { id: m.id, open: false, inbox: m.inbox }
                } else {
                    m
                }
            },
    {
        match self.find(id) {
            None => false,
            Some(i) => {
                let ghost before = self.members();
                let s = self.subs.remove(i);
                let Subscription { id: sid, open: _, queue } = s;
                self.subs.insert(i, Subscription { id: sid, open: false, queue });
                proof {
                    assert forall|k: int| 0 <= k < before.len() implies {
                        let m = #[trigger] before[k];
                        self.members()[k] == if m.id == id {
                            Member { id: m.id, open: false, inbox: m.inbox }
                        } else {
                            m
                        }
                    } by {
                        if k != i {
                            assert(before[k].id != before[i as int].id);
                        }
                    }

                    assert(self.members().len() == before.len());
                    assert forall|k: int| 0 <= k < before.len() implies #[trigger] self.members()[k].id
                        == before[k].id && self.members()[k].inbox.len() <= before[k].inbox.len() by {
                        let m = before[k];
                    }
                    assert forall|a: int, b: int| 0 <= a < b < self.members().len() implies self.members()[a].id
                        < self.members()[b].id by {
                        assert(self.members()[a].id == before[a].id);
                        assert(self.members()[b].id == before[b].id);
                    }
                }
                true
            },
        }
    }

    /// Takes the messages waiting for subscriber `id`, oldest first, leaving
    /// its inbox empty; `None` where it is no longer registered.
    pub fn drain(&mut self, id: u64) -> (r: Option<Vec<String>>)
        requires
            old(self).wf(),
        ensures
            final(self).wf(),
            final(self).next_id() == old(self).next_id(),
            final(self).capacity() == old(self).capacity(),
            r is None <==> forall|i: int| 0 <= i < old(self).members().len() ==> #[trigger] old(self).members()[i].id != id,
            final(self).members().len() == old(self).members().len(),
            forall|i: int| 0 <= i < old(self).members().len() ==> {
                let m = #[trigger] old(self).members()[i];
                final(self).members()[i] == if m.id == id {
                    Member { id: m.id, open: m.open, inbox: Seq::empty() }
                } else {
                    m
                }
            },
            forall|i: int| 0 <= i < old(self).members().len() && #[trigger] old(self).members()[i].id == id
                ==> (r matches Some(v) && views(v@) == old(self).members()[i].inbox),
    {
        match self.find(id) {
            None => None,
            Some(i) => {
                let ghost before = self.members();
                let s = self.subs.remove(i);
                let Subscription { id: sid, open, queue } = s;
                self.subs.insert(i, Subscription { id: sid, open, queue: Vec::new() });
                proof {
                    assert(views(Seq::<String>::empty()) =~= Seq::<Seq<char>>::empty());
                    assert forall|k: int| 0 <= k < before.len() implies {
                        let m = #[trigger] before[k];
                        self.members()[k] == if m.id == id {
                            Member { id: m.id, open: m.open, inbox: Seq::empty() }
                        } else {
                            m
                        }
                    } by {
                        if k != i {
                            assert(before[k].id != before[i as int].id);
                        }
                    }
                    assert forall|k: int| 0 <= k < before.len() && #[trigger] before[k].id == id
                        implies k == i by {
                        if k != i {
                            assert(before[k].id != before[i as int].id);
                        }
                    }

                    assert(self.members().len() == before.len());
                    assert forall|k: int| 0 <= k < before.len() implies #[trigger] self.members()[k].id
                        == before[k].id && self.members()[k].inbox.len() <= before[k].inbox.len() by {
                        let m = before[k];
                    }
                    assert forall|a: int, b: int| 0 <= a < b < self.members().len() implies self.members()[a].id
                        < self.members()[b].id by {
                        assert(self.members()[a].id == before[a].id);
                        assert(self.members()[b].id == before[b].id);
                    }
                }
                Some(queue)
            },
        }
    }

    /// Delivers `msg` to every subscriber that takes it and removes the rest,
    /// keeping the order of the registry.
    pub fn publish(&mut self, msg: &String)
        requires
            old(self).wf(),
        ensures
            final(self).wf(),
            final(self).next_id() == old(self).next_id(),
            final(self).capacity() == old(self).capacity(),
            final(self).members() == after_publish(old(self).members(), msg@, old(self).capacity()),
    {
        let ghost ms = self.members();
        let mut rest: Vec<Subscription> = Vec::new();
        std::mem::swap(&mut self.subs, &mut rest);
        let mut kept: Vec<Subscription> = Vec::new();
        let ghost src = rest@;
        let mut i: usize = 0;
        let n = rest.len();
        proof {
            assert(ms.subrange(0, 0) =~= Seq::<Member>::empty());
            assert(kept@.map_values(|s: Subscription| member_of(s)) =~= Seq::<Member>::empty());
        }
        while i < n
            invariant
                n == src.len(),
                i <= n,
                ms == src.map_values(|s: Subscription| member_of(s)),
                rest@ == src.subrange(i as int, n as int),
                kept@.map_values(|s: Subscription| member_of(s)) == after_publish(
                    ms.subrange(0, i as int),
                    msg@,
                    self.capacity as nat,
                ),
                self.capacity == old(self).capacity,
                self.next_id == old(self).next_id,
            decreases n - i,
        {
            let s = rest.remove(0);
            let ghost prefix = ms.subrange(0, i + 1);
            proof {
                assert(prefix.drop_last() =~= ms.subrange(0, i as int));
                assert(s == src[i as int]);
                assert(prefix.last() == member_of(s));
                assert(rest@ =~= src.subrange(i + 1, n as int));
            }
            let ghost before = kept@;
            if s.open && s.queue.len() < self.capacity {
                let Subscription { id, open, mut queue } = s;
                let ghost q0 = queue@;
                queue.push(msg.clone());
                kept.push(Subscription { id, open, queue });
                proof {
                    assert(views(queue@) =~= views(q0).push(msg@));
                    assert(kept@.map_values(|s: Subscription| member_of(s)) =~= before.map_values(
                        |s: Subscription| member_of(s),
                    ).push(member_of(kept@.last())));
                }
            }
            i = i + 1;
        }
        proof {
            assert(ms.subrange(0, n as int) =~= ms);
        }
        self.subs = kept;
        proof {
            lemma_after_publish_wf(ms, msg@, self.capacity as nat, self.next_id);
        }
    }
}

/// Publishing keeps the registry ordered, below the next number, and within
/// capacity.
proof fn lemma_after_publish_wf(ms: Seq<Member>, msg: Seq<char>, capacity: nat, next: u64)
    requires
        ids_increasing(ms),
        forall|i: int| 0 <= i < ms.len() ==> #[trigger] ms[i].id < next,
        forall|i: int| 0 <= i < ms.len() ==> #[trigger] ms[i].inbox.len() <= capacity,
    ensures
        ({
            let r = after_publish(ms, msg, capacity);
            &&& ids_increasing(r)
            &&& forall|i: int| 0 <= i < r.len() ==> #[trigger] r[i].id < next
            &&& forall|i: int| 0 <= i < r.len() ==> #[trigger] r[i].inbox.len() <= capacity
            &&& forall|i: int| 0 <= i < r.len() ==> ms.last().id >= #[trigger] r[i].id
        }),
    decreases ms.len(),
{
    if ms.len() > 0 {
        let p = ms.drop_last();
        lemma_after_publish_wf(p, msg, capacity, next);
    }
}

/// `m` after taking delivery of `msg`.
pub open spec fn delivered(m: Member, msg: Seq<char>) -> Member {
    Member { id: m.id, open: m.open, inbox: m.inbox.push(msg) }
}

/// `m` is a member of `ms` that took delivery of `msg`, after it did.
pub open spec fn took_delivery(ms: Seq<Member>, m: Member, msg: Seq<char>, capacity: nat) -> bool {
    exists|i: int|
        0 <= i < ms.len() && delivers(ms[i], capacity) && m == #[trigger] delivered(ms[i], msg)
}

/// Publishing reaches every subscriber that takes delivery, each with the
/// message appended to its inbox; a subscriber whose delivery fails is no
/// longer registered, and every one still registered took the message.
pub proof fn lemma_publish_fan_out(ms: Seq<Member>, msg: Seq<char>, capacity: nat)
    requires
        ids_increasing(ms),
    ensures
        forall|i: int| 0 <= i < ms.len() && delivers(#[trigger] ms[i], capacity)
            ==> after_publish(ms, msg, capacity).contains(delivered(ms[i], msg)),
        forall|i: int, j: int| 0 <= i < ms.len() && !delivers(#[trigger] ms[i], capacity)
            && 0 <= j < after_publish(ms, msg, capacity).len()
            ==> #[trigger] after_publish(ms, msg, capacity)[j].id != ms[i].id,
        forall|j: int| 0 <= j < after_publish(ms, msg, capacity).len() ==> took_delivery(
            ms,
            #[trigger] after_publish(ms, msg, capacity)[j],
            msg,
            capacity,
        ),
    decreases ms.len(),
{
    if ms.len() > 0 {
        let p = ms.drop_last();
        let last = ms.last();
        let rest = after_publish(p, msg, capacity);
        let r = after_publish(ms, msg, capacity);
        lemma_publish_fan_out(p, msg, capacity);
        assert forall|j: int| 0 <= j < rest.len() implies #[trigger] rest[j].id < last.id by {
            assert(took_delivery(p, rest[j], msg, capacity));
            let i = choose|i: int| 0 <= i < p.len() && delivers(p[i], capacity) && rest[j]
                == #[trigger] delivered(p[i], msg);
            assert(p[i] == ms[i]);
        }
        assert forall|i: int| 0 <= i < ms.len() && delivers(#[trigger] ms[i], capacity) implies r.contains(
            delivered(ms[i], msg),
        ) by {
            if i < ms.len() - 1 {
                assert(p[i] == ms[i]);
                let k = choose|k: int| 0 <= k < rest.len() && rest[k] == delivered(p[i], msg);
                if delivers(last, capacity) {
                    assert(r[k] == rest[k]);
                }
            } else {
                assert(r[r.len() - 1] == delivered(last, msg));
            }
        }
        assert forall|i: int, j: int| 0 <= i < ms.len() && !delivers(#[trigger] ms[i], capacity)
            && 0 <= j < r.len() implies #[trigger] r[j].id != ms[i].id by {
            if i < ms.len() - 1 {
                assert(p[i] == ms[i]);
                if j < rest.len() {
                    assert(r[j] == rest[j]);
                } else {
                    assert(r[j].id == last.id);
                }
            } else {
                if delivers(last, capacity) {
                    assert(j < rest.len());
                }
                assert(r[j] == rest[j]);
            }
        }
        assert forall|j: int| 0 <= j < r.len() implies took_delivery(ms, #[trigger] r[j], msg, capacity) by {
            if j < rest.len() {
                assert(r[j] == rest[j]);
                assert(took_delivery(p, rest[j], msg, capacity));
                let i = choose|i: int| 0 <= i < p.len() && delivers(p[i], capacity) && rest[j]
                    == #[trigger] delivered(p[i], msg);
                assert(p[i] == ms[i]);
                assert(0 <= i < ms.len() && delivers(ms[i], capacity) && r[j] == delivered(ms[i], msg));
                assert(took_delivery(ms, r[j], msg, capacity));
            } else {
                assert(delivers(last, capacity));
                assert(r[j] == delivered(ms[ms.len() - 1], msg));
                assert(took_delivery(ms, r[j], msg, capacity));
            }
        }
    } else {
        assert(after_publish(ms, msg, capacity) =~= Seq::<Member>::empty());
    }
}

/// A number that is no longer registered, and lies below the next number to
/// hand out, stays unregistered: publishing brings back no member, and a new
/// subscriber gets the next number.
pub proof fn lemma_removed_stays_removed(
    ms: Seq<Member>,
    msg: Seq<char>,
    capacity: nat,
    id: u64,
    next: u64,
)
    requires
        ids_increasing(ms),
        forall|i: int| 0 <= i < ms.len() ==> #[trigger] ms[i].id != id,
        id < next,
    ensures
        forall|j: int| 0 <= j < after_publish(ms, msg, capacity).len() ==> #[trigger] after_publish(
            ms,
            msg,
            capacity,
        )[j].id != id,
        forall|j: int| 0 <= j <= ms.len() ==> #[trigger] ms.push(
            Member { id: next, open: true, inbox: Seq::empty() },
        )[j].id != id,
{
    lemma_publish_fan_out(ms, msg, capacity);
    let r = after_publish(ms, msg, capacity);
    assert forall|j: int| 0 <= j < r.len() implies #[trigger] r[j].id != id by {
        assert(took_delivery(ms, r[j], msg, capacity));
    }
    let q = ms.push(Member { id: next, open: true, inbox: Seq::empty() });
    assert forall|j: int| 0 <= j <= ms.len() implies #[trigger] q[j].id != id by {
        if j < ms.len() {
            assert(q[j] == ms[j]);
        }
    }
}

} // verus!
