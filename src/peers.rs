use vstd::prelude::*;

use crate::peer::PeerId;
use crate::sink::Sink;

verus! {

/// The registry of connected peers: each identity with the sink that
/// reaches it.
///
/// Entries keep the order in which peers were first registered; an identity
/// occurs at most once.
pub struct PeerMap {
    entries: Vec<(PeerId, Sink)>,
    model: Ghost<Map<PeerId, Sink>>,
}

impl View for PeerMap {
    type V = Map<PeerId, Sink>;

    closed spec fn view(&self) -> Map<PeerId, Sink> {
        self.model@
    }
}

impl PeerMap {
    /// The entries in registration order.
    pub closed spec fn entry_seq(&self) -> Seq<(PeerId, Sink)> {
        self.entries@
    }

    /// The entries hold exactly the mapping, each identity once.
    pub open spec fn wf(&self) -> bool {
        &&& forall|i: int|
            0 <= i < self.entry_seq().len() ==> {
                &&& #[trigger] self@.contains_key(self.entry_seq()[i].0)
                &&& self@[self.entry_seq()[i].0] == self.entry_seq()[i].1
            }
        &&& forall|i: int, j: int|
            0 <= i < self.entry_seq().len() && 0 <= j < self.entry_seq().len() && i != j
                ==> #[trigger] self.entry_seq()[i].0 != #[trigger] self.entry_seq()[j].0
        &&& forall|k: PeerId|
            #[trigger] self@.contains_key(k) ==> exists|i: int|
                0 <= i < self.entry_seq().len() && #[trigger] self.entry_seq()[i].0 == k
    }

    /// An empty registry.
    pub fn new() -> (r: PeerMap)
        ensures
            r.wf(),
            r@ == Map::<PeerId, Sink>::empty(),
    {
        PeerMap { entries: Vec::new(), model: Ghost(Map::empty()) }
    }

    fn index_of(&self, id: PeerId) -> (r: Option<usize>)
        requires
            self.wf(),
        ensures
            match r {
                Some(i) => i < self.entry_seq().len() && self.entry_seq()[i as int].0 == id,
                None => !self@.contains_key(id),
            },
    {
        let mut i: usize = 0;
        while i < self.entries.len()
            invariant
                self.wf(),
                i <= self.entries@.len(),
                forall|j: int| 0 <= j < i ==> self.entries@[j].0 != id,
            decreases self.entries@.len() - i,
        {
            if self.entries[i].0 == id {
                return Some(i);
            }
            i = i + 1;
        }
        None
    }

    /// Adds `id` with its sink. An identity already present has its sink
    /// replaced: the last registration wins.
    pub fn register(&mut self, id: PeerId, sink: Sink)
        requires
            old(self).wf(),
        ensures
            final(self).wf(),
            final(self)@ == old(self)@.insert(id, sink),
    {
        let ghost g = sink;
        let found = self.index_of(id);
        self.model = Ghost(self.model@.insert(id, g));
        match found {
            Some(i) => {
                self.entries.set(i, (id, sink));
            },
            None => {
                self.entries.push((id, sink));
            },
        }
        proof {
            let e = self.entry_seq();
            let o = old(self).entry_seq();
            match found {
                Some(i) => {
                    assert(e.len() == o.len());
                    assert forall|j: int| 0 <= j < e.len() && j != i implies #[trigger] e[j] == o[j] by {}
                    assert(e[i as int] == (id, g));
                },
                None => {
                    assert(e.len() == o.len() + 1);
                    assert forall|j: int| 0 <= j < o.len() implies #[trigger] e[j] == o[j] by {}
                    assert(e[o.len() as int] == (id, g));
                },
            }
            assert forall|k: PeerId| #[trigger] self@.contains_key(k) implies exists|j: int|
                0 <= j < e.len() && #[trigger] e[j].0 == k by {
                if k == id {
                    match found {
                        Some(i) => assert(e[i as int].0 == k),
                        None => assert(e[e.len() - 1].0 == k),
                    }
                } else {
                    assert(old(self)@.contains_key(k));
                    let j = choose|j: int| 0 <= j < o.len() && #[trigger] o[j].0 == k;
                    assert(e[j].0 == k);
                }
            }
            assert forall|a: int, b: int|
                0 <= a < e.len() && 0 <= b < e.len() && a != b implies #[trigger] e[a].0
                != #[trigger] e[b].0 by {
                match found {
                    Some(i) => {
                        if a != i && b != i {
                            assert(o[a].0 != o[b].0);
                        }
                    },
                    None => {
                        if a < o.len() && b < o.len() {
                            assert(o[a].0 != o[b].0);
                        } else if a < o.len() {
                            assert(old(self)@.contains_key(o[a].0));
                        } else {
                            assert(old(self)@.contains_key(o[b].0));
                        }
                    },
                }
            }
            assert forall|j: int| 0 <= j < e.len() implies {
                &&& #[trigger] self@.contains_key(e[j].0)
                &&& self@[e[j].0] == e[j].1
            } by {
                match found {
                    Some(i) => {
                        if j != i {
                            assert(o[j].0 != o[i as int].0);
                            assert(old(self)@.contains_key(o[j].0));
                        }
                    },
                    None => {
                        if j < o.len() {
                            assert(old(self)@.contains_key(o[j].0));
                        }
                    },
                }
            }
        }
    }

    /// Removes `id` if present; nothing happens otherwise.
    pub fn deregister(&mut self, id: PeerId)
        requires
            old(self).wf(),
        ensures
            final(self).wf(),
            final(self)@ == old(self)@.remove(id),
    {
        let found = self.index_of(id);
        self.model = Ghost(self.model@.remove(id));
        match found {
            Some(i) => {
                self.entries.remove(i);
                proof {
                    let e = self.entry_seq();
                    let before = old(self).entry_seq();
                    assert forall|j: int| 0 <= j < e.len() implies #[trigger] e[j] == if j < i {
                        before[j]
                    } else {
                        before[j + 1]
                    } by {}
                    assert forall|k: PeerId| #[trigger] self@.contains_key(k) implies exists|j: int|
                        0 <= j < e.len() && #[trigger] e[j].0 == k by {
                        assert(old(self)@.contains_key(k));
                        let j = choose|j: int| 0 <= j < before.len() && #[trigger] before[j].0 == k;
                        assert(j != i);
                        if j < i {
                            assert(e[j].0 == k);
                        } else {
                            assert(e[j - 1].0 == k);
                        }
                    }
                    assert forall|a: int, b: int|
                        0 <= a < e.len() && 0 <= b < e.len() && a != b implies #[trigger] e[a].0
                        != #[trigger] e[b].0 by {
                        let a2 = if a < i { a } else { a + 1 };
                        let b2 = if b < i { b } else { b + 1 };
                        assert(before[a2].0 != before[b2].0);
                    }
                    assert forall|j: int| 0 <= j < e.len() implies {
                        &&& #[trigger] self@.contains_key(e[j].0)
                        &&& self@[e[j].0] == e[j].1
                    } by {
                        let j2 = if j < i { j } else { j + 1 };
                        assert(before[j2].0 != before[i as int].0);
                        assert(old(self)@.contains_key(before[j2].0));
                    }
                }
            },
            None => {
                assert(self@ =~= old(self)@);
            },
        }
    }

    /// Whether `id` is registered.
    pub fn contains(&self, id: PeerId) -> (r: bool)
        requires
            self.wf(),
        ensures
            r == self@.contains_key(id),
    {
        self.index_of(id).is_some()
    }

    /// The sink registered for `id`, if any.
    pub fn get(&self, id: PeerId) -> (r: Option<&Sink>)
        requires
            self.wf(),
        ensures
            match r {
                Some(t) => self@.contains_key(id) && *t == self@[id],
                None => !self@.contains_key(id),
            },
    {
        match self.index_of(id) {
            Some(i) => {
                proof {
                    assert(self@.contains_key(self.entry_seq()[i as int].0));
                }
                Some(&self.entries[i].1)
            },
            None => None,
        }
    }

    proof fn lemma_len(&self)
        requires
            self.wf(),
        ensures
            self@.dom().finite(),
            self@.len() == self.entry_seq().len(),
    {
        let e = self.entry_seq();
        let s = e.map_values(|x: (PeerId, Sink)| x.0);
        assert forall|a: int, b: int| 0 <= a < s.len() && 0 <= b < s.len() && a != b implies s[a]
            != s[b] by {
            assert(e[a].0 != e[b].0);
        }
        assert forall|k: PeerId| s.to_set().contains(k) == self@.dom().contains(k) by {
            if self@.contains_key(k) {
                let j = choose|j: int| 0 <= j < e.len() && #[trigger] e[j].0 == k;
                assert(s[j] == k);
            }
            if s.contains(k) {
                let j = choose|j: int| 0 <= j < s.len() && s[j] == k;
                assert(self@.contains_key(e[j].0));
            }
        }
        assert(s.to_set() =~= self@.dom());
        assert(s.no_duplicates());
        s.unique_seq_to_set();
        vstd::seq_lib::seq_to_set_is_finite(s);
        assert(s.len() == e.len());
    }

    /// The number of registered peers.
    pub fn len(&self) -> (r: usize)
        requires
            self.wf(),
        ensures
            r == self@.len(),
            r == self.entry_seq().len(),
    {
        proof {
            self.lemma_len();
        }
        self.entries.len()
    }

    /// The entry at position `i` of the registration order.
    pub fn entry(&self, i: usize) -> (r: &(PeerId, Sink))
        requires
            i < self.entry_seq().len(),
        ensures
            *r == self.entry_seq()[i as int],
    {
        &self.entries[i]
    }

    /// Hands `content` to the sink at position `i` of the registration
    /// order.
    pub fn enqueue_at(&mut self, i: usize, content: &String)
        requires
            old(self).wf(),
            i < old(self).entry_seq().len(),
        ensures
            final(self).wf(),
            final(self).entry_seq().len() == old(self).entry_seq().len(),
            final(self).entry_seq()[i as int].0 == old(self).entry_seq()[i as int].0,
            final(self).entry_seq()[i as int].1.handle() == old(self).entry_seq()[i as int].1.handle(),
            final(self).entry_seq()[i as int].1.sent() == old(self).entry_seq()[i as int].1.sent().push(
                content@,
            ),
            forall|j: int|
                0 <= j < old(self).entry_seq().len() && j != i ==> #[trigger] final(self).entry_seq()[j]
                    == old(self).entry_seq()[j],
            final(self)@ == old(self)@.insert(
                old(self).entry_seq()[i as int].0,
                final(self).entry_seq()[i as int].1,
            ),
    {
        let (id, mut sink) = self.entries.remove(i);
        sink.enqueue(content);
        self.entries.insert(i, (id, sink));
        let ghost g = sink;
        self.model = Ghost(self.model@.insert(id, g));
        proof {
            let e = self.entry_seq();
            let o = old(self).entry_seq();
            assert forall|j: int| 0 <= j < o.len() && j != i implies #[trigger] e[j] == o[j] by {}
            assert forall|k: PeerId| #[trigger] self@.contains_key(k) implies exists|j: int|
                0 <= j < e.len() && #[trigger] e[j].0 == k by {
                assert(old(self)@.contains_key(k));
                let j = choose|j: int| 0 <= j < o.len() && #[trigger] o[j].0 == k;
                assert(e[j].0 == k);
            }
            assert forall|a: int, b: int|
                0 <= a < e.len() && 0 <= b < e.len() && a != b implies #[trigger] e[a].0
                != #[trigger] e[b].0 by {
                assert(o[a].0 != o[b].0);
            }
            assert forall|j: int| 0 <= j < e.len() implies {
                &&& #[trigger] self@.contains_key(e[j].0)
                &&& self@[e[j].0] == e[j].1
            } by {
                if j != i {
                    assert(o[j].0 != o[i as int].0);
                    assert(old(self)@.contains_key(o[j].0));
                }
            }
        }
    }

    /// The registered identities, each once.
    pub fn ids(&self) -> (r: Vec<PeerId>)
        requires
            self.wf(),
        ensures
            r@.no_duplicates(),
            r@.to_set() == self@.dom(),
    {
        let mut r: Vec<PeerId> = Vec::new();
        let mut i: usize = 0;
        while i < self.entries.len()
            invariant
                self.wf(),
                i <= self.entries@.len(),
                r@.len() == i,
                forall|j: int| 0 <= j < i ==> r@[j] == #[trigger] self.entries@[j].0,
            decreases self.entries@.len() - i,
        {
            r.push(self.entries[i].0);
            i = i + 1;
        }
        proof {
            let e = self.entry_seq();
            assert forall|a: int, b: int| 0 <= a < r@.len() && 0 <= b < r@.len() && a != b implies r@[a] != r@[b] by {
                assert(e[a].0 != e[b].0);
            }
            assert forall|k: PeerId| r@.to_set().contains(k) == self@.dom().contains(k) by {
                if self@.contains_key(k) {
                    let j = choose|j: int| 0 <= j < e.len() && #[trigger] e[j].0 == k;
                    assert(r@[j] == k);
                }
                if r@.contains(k) {
                    let j = choose|j: int| 0 <= j < r@.len() && r@[j] == k;
                    assert(e[j].0 == k);
                    assert(self@.contains_key(e[j].0));
                }
            }
            assert(r@.to_set() =~= self@.dom());
        }
        r
    }

    /// A copy of the registry as it is now, for one delivery.
    pub fn snapshot(&self) -> (r: PeerMap)
        requires
            self.wf(),
        ensures
            r.wf(),
            r@ == self@,
            r.entry_seq() == self.entry_seq(),
    {
        let mut entries: Vec<(PeerId, Sink)> = Vec::new();
        let mut i: usize = 0;
        while i < self.entries.len()
            invariant
                i <= self.entries@.len(),
                entries@ == self.entries@.subrange(0, i as int),
            decreases self.entries@.len() - i,
        {
            let e = &self.entries[i];
            entries.push((e.0, e.1.duplicate()));
            i = i + 1;
            assert(entries@ =~= self.entries@.subrange(0, i as int));
        }
        assert(entries@ =~= self.entries@);
        let r = PeerMap { entries, model: Ghost(self.model@) };
        assert(r.entry_seq() == self.entry_seq());
        assert(r@ == self@);
        assert forall|j: int| 0 <= j < r.entry_seq().len() implies {
            &&& #[trigger] r@.contains_key(r.entry_seq()[j].0)
            &&& r@[r.entry_seq()[j].0] == r.entry_seq()[j].1
        } by {
            assert(self@.contains_key(self.entry_seq()[j].0));
        }
        assert forall|a: int, b: int|
            0 <= a < r.entry_seq().len() && 0 <= b < r.entry_seq().len() && a != b implies
            #[trigger] r.entry_seq()[a].0 != #[trigger] r.entry_seq()[b].0 by {
            assert(self.entry_seq()[a].0 != self.entry_seq()[b].0);
        }
        assert forall|k: PeerId| #[trigger] r@.contains_key(k) implies exists|j: int|
            0 <= j < r.entry_seq().len() && #[trigger] r.entry_seq()[j].0 == k by {
            assert(self@.contains_key(k));
        }
        r
    }
}

/// One change to the registry.
pub enum Membership {
    /// `register(id, sink)`.
    Register(PeerId, Sink),
    /// `deregister(id)`.
    Deregister(PeerId),
}

/// The identity a change is about.
pub open spec fn member_of(op: Membership) -> PeerId {
    match op {
        Membership::Register(id, _) => id,
        Membership::Deregister(id) => id,
    }
}

/// The registry after `ops`, each applied as `register` and `deregister`
/// state it.
pub open spec fn replay(start: Map<PeerId, Sink>, ops: Seq<Membership>) -> Map<PeerId, Sink>
    decreases ops.len(),
{
    if ops.len() == 0 {
        start
    } else {
        let before = replay(start, ops.drop_last());
        match ops.last() {
            Membership::Register(id, sink) => before.insert(id, sink),
            Membership::Deregister(id) => before.remove(id),
        }
    }
}

/// The change at position `i` of `ops` registers `id`, and no later change
/// is about `id`.
pub open spec fn settles(ops: Seq<Membership>, id: PeerId, i: int) -> bool {
    &&& 0 <= i < ops.len()
    &&& ops[i] is Register
    &&& member_of(ops[i]) == id
    &&& forall|j: int| i < j < ops.len() ==> member_of(#[trigger] ops[j]) != id
}

/// After any sequence of registrations and removals from an empty registry,
/// a peer is registered exactly when its last change was a registration, and
/// then with the sink of that registration.
pub proof fn law_membership_follows_last_change(ops: Seq<Membership>, id: PeerId)
    ensures
        replay(Map::empty(), ops).contains_key(id) <==> exists|i: int| settles(ops, id, i),
        forall|i: int|
            #[trigger] settles(ops, id, i) ==> replay(Map::empty(), ops)[id]
                == ops[i]->Register_1,
    decreases ops.len(),
{
    if ops.len() > 0 {
        let prev = ops.drop_last();
        let n = ops.len() - 1;
        law_membership_follows_last_change(prev, id);
        assert forall|i: int| 0 <= i < n implies #[trigger] prev[i] == ops[i] by {}
        if member_of(ops[n]) == id {
            assert forall|i: int| settles(ops, id, i) implies i == n by {
                if i < n {
                    assert(member_of(ops[n]) != id);
                }
            }
            if ops[n] is Register {
                assert(settles(ops, id, n));
            }
        } else {
            assert forall|i: int| settles(ops, id, i) <==> settles(prev, id, i) by {
                if settles(ops, id, i) {
                    assert(i != n);
                    assert forall|j: int| i < j < prev.len() implies member_of(#[trigger] prev[j]) != id by {
                        assert(ops[j] == prev[j]);
                    }
                }
                if settles(prev, id, i) {
                    assert forall|j: int| i < j < ops.len() implies member_of(#[trigger] ops[j]) != id by {
                        if j < n {
                            assert(ops[j] == prev[j]);
                        }
                    }
                }
            }
        }
    }
}

/// Removing a peer a second time changes nothing.
pub proof fn law_deregister_idempotent(m: Map<PeerId, Sink>, id: PeerId)
    ensures
        m.remove(id).remove(id) == m.remove(id),
{
    assert(m.remove(id).remove(id) =~= m.remove(id));
}

} // verus!
