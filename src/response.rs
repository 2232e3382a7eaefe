use vstd::prelude::*;

use crate::peer::{contains_id, PeerId};
use crate::peers::PeerMap;
use crate::sink::Sink;

verus! {

/// Which peers a response goes to.
pub enum PeerDirection {
    /// Nobody.
    Nobody,
    /// Every registered peer.
    All,
    /// Only the given peer, when it is registered.
    Pong(PeerId),
    /// The registered peers among the given ones.
    Multiple(Vec<PeerId>),
    /// The registered peers except the given ones.
    AllExcept(Vec<PeerId>),
}

impl Default for PeerDirection {
    fn default() -> (r: PeerDirection)
        ensures
            r is Nobody,
    {
        PeerDirection::Nobody
    }
}

/// Whether `dir` names `id`, registered or not.
pub open spec fn directs_to(dir: PeerDirection, id: PeerId) -> bool {
    match dir {
        PeerDirection::Nobody => false,
        PeerDirection::All => true,
        PeerDirection::Pong(a) => id == a,
        PeerDirection::Multiple(v) => v@.contains(id),
        PeerDirection::AllExcept(v) => !v@.contains(id),
    }
}

/// The peers that `dir` reaches when `registered` are connected.
pub open spec fn recipients_of(dir: PeerDirection, registered: Set<PeerId>) -> Set<PeerId> {
    match dir {
        PeerDirection::Nobody => Set::empty(),
        PeerDirection::All => registered,
        PeerDirection::Pong(a) => if registered.contains(a) {
            set![a]
        } else {
            Set::empty()
        },
        PeerDirection::Multiple(v) => registered.intersect(v@.to_set()),
        PeerDirection::AllExcept(v) => registered.difference(v@.to_set()),
    }
}

/// A peer is reached exactly when it is registered and named by the direction.
pub proof fn lemma_recipients_of(dir: PeerDirection, registered: Set<PeerId>, id: PeerId)
    ensures
        recipients_of(dir, registered).contains(id) == (registered.contains(id) && directs_to(
            dir,
            id,
        )),
{
}

/// `after` is `before` with `content` handed once to the sink of every peer
/// that `dir` reaches, and with nothing else changed.
pub open spec fn delivered(
    before: Map<PeerId, Sink>,
    after: Map<PeerId, Sink>,
    dir: PeerDirection,
    content: Seq<char>,
) -> bool {
    &&& after.dom() == before.dom()
    &&& forall|k: PeerId| #[trigger]
        before.contains_key(k) ==> {
            &&& after[k].handle() == before[k].handle()
            &&& after[k].sent() == if recipients_of(dir, before.dom()).contains(k) {
                before[k].sent().push(content)
            } else {
                before[k].sent()
            }
        }
}

/// Two deliveries in a row that both reach peer `k` hand it their contents
/// in the order they were delivered.
pub proof fn law_order_kept(
    m0: Map<PeerId, Sink>,
    m1: Map<PeerId, Sink>,
    m2: Map<PeerId, Sink>,
    d1: PeerDirection,
    c1: Seq<char>,
    d2: PeerDirection,
    c2: Seq<char>,
    k: PeerId,
)
    requires
        delivered(m0, m1, d1, c1),
        delivered(m1, m2, d2, c2),
        recipients_of(d1, m0.dom()).contains(k),
        recipients_of(d2, m1.dom()).contains(k),
    ensures
        m2[k].handle() == m0[k].handle(),
        m2[k].sent() == m0[k].sent() + seq![c1, c2],
{
    lemma_recipients_of(d1, m0.dom(), k);
    assert(m0.contains_key(k));
    assert(m1.contains_key(k));
    assert(m2[k].sent() =~= m0[k].sent() + seq![c1, c2]);
}

/// The decimal digits of `n`, most significant first, without leading zeros.
pub open spec fn decimal(n: nat) -> Seq<char>
    decreases n,
{
    let digit = seq!['0', '1', '2', '3', '4', '5', '6', '7', '8', '9'][(n % 10) as int];
    if n < 10 {
        seq![digit]
    } else {
        decimal(n / 10).push(digit)
    }
}

/// The status payload `{"status":<n>}`.
pub open spec fn status_payload(status: u16) -> Seq<char> {
    "{\"status\":"@ + decimal(status as nat) + "}"@
}

/// Relies on `serde_json::to_string` for a `u16`: serde_json writes an
/// unsigned integer as its plain decimal digits, and writing into a string
/// does not fail.
#[verifier::external_body]
fn json_u16(n: u16) -> (r: String)
    ensures
        r@ == decimal(n as nat),
{
    match serde_json::to_string(&n) {
        Ok(s) => s,
        Err(_) => String::new(),
    }
}

/// A complete response: its content and where it goes.
pub struct Response {
    content: String,
    to: PeerDirection,
}

/// A response with content and no direction yet; it cannot be delivered
/// until a direction is chosen.
pub struct EmptyDestinationResponse {
    content: String,
}

impl EmptyDestinationResponse {
    pub closed spec fn content_view(&self) -> Seq<char> {
        self.content@
    }

    /// With the given direction.
    pub fn to_direction(self, to: PeerDirection) -> (r: Response)
        ensures
            r.content_view() == self.content_view(),
            r.direction() == to,
    {
        Response { content: self.content, to }
    }

    /// To nobody.
    pub fn to_none(self) -> (r: Response)
        ensures
            r.content_view() == self.content_view(),
            r.direction() is Nobody,
    {
        Response { content: self.content, to: PeerDirection::Nobody }
    }

    /// To every registered peer.
    pub fn to_all(self) -> (r: Response)
        ensures
            r.content_view() == self.content_view(),
            r.direction() is All,
    {
        Response { content: self.content, to: PeerDirection::All }
    }

    /// Back to the peer that sent the request.
    pub fn to_origin(self, origin: PeerId) -> (r: Response)
        ensures
            r.content_view() == self.content_view(),
            r.direction() == PeerDirection::Pong(origin),
    {
        Response { content: self.content, to: PeerDirection::Pong(origin) }
    }

    /// To the registered peers among `selected`.
    pub fn to_selected(self, selected: Vec<PeerId>) -> (r: Response)
        ensures
            r.content_view() == self.content_view(),
            r.direction() == PeerDirection::Multiple(selected),
    {
        Response { content: self.content, to: PeerDirection::Multiple(selected) }
    }

    /// To every registered peer not in `except`.
    pub fn to_all_except(self, except: Vec<PeerId>) -> (r: Response)
        ensures
            r.content_view() == self.content_view(),
            r.direction() == PeerDirection::AllExcept(except),
    {
        Response { content: self.content, to: PeerDirection::AllExcept(except) }
    }
}

impl Response {
    pub closed spec fn content_view(&self) -> Seq<char> {
        self.content@
    }

    pub closed spec fn direction(&self) -> PeerDirection {
        self.to
    }

    /// No content, to nobody.
    pub fn empty() -> (r: Response)
        ensures
            r.content_view() == Seq::<char>::empty(),
            r.direction() is Nobody,
    {
        Response { content: String::new(), to: PeerDirection::default() }
    }

    /// The JSON status object `{"status":<status>}` as content.
    pub fn payload_status(status: u16) -> (r: EmptyDestinationResponse)
        ensures
            r.content_view() == status_payload(status),
    {
        let mut content = String::from_str("{\"status\":");
        let digits = json_u16(status);
        content.append(digits.as_str());
        content.append("}");
        EmptyDestinationResponse { content }
    }

    /// The given text as content.
    pub fn text(data: &str) -> (r: EmptyDestinationResponse)
        ensures
            r.content_view() == data@,
    {
        EmptyDestinationResponse { content: String::from_str(data) }
    }

    /// The content sent to each recipient.
    pub fn content(&self) -> (r: &String)
        ensures
            r@ == self.content_view(),
    {
        &self.content
    }

    /// The direction of this response.
    pub fn to(&self) -> (r: &PeerDirection)
        ensures
            *r == self.direction(),
    {
        &self.to
    }

    /// Whether this response is directed at `id`, registered or not.
    pub fn directs(&self, id: PeerId) -> (r: bool)
        ensures
            r == directs_to(self.direction(), id),
    {
        match &self.to {
            PeerDirection::Nobody => false,
            PeerDirection::All => true,
            PeerDirection::Pong(a) => *a == id,
            PeerDirection::Multiple(v) => contains_id(v, id),
            PeerDirection::AllExcept(v) => !contains_id(v, id),
        }
    }

    /// Hands the content to the sink of every recipient in `peers`, the
    /// registry as it stands at delivery, and returns those recipients.
    ///
    /// A sink whose peer has gone drops the message without complaint.
    pub fn respond(self, peers: &mut PeerMap) -> (r: Vec<PeerId>)
        requires
            old(peers).wf(),
        ensures
            final(peers).wf(),
            r@.no_duplicates(),
            r@.to_set() == recipients_of(self.direction(), old(peers)@.dom()),
            delivered(old(peers)@, final(peers)@, self.direction(), self.content_view()),
    {
        let ghost o = peers.entry_seq();
        let mut r: Vec<PeerId> = Vec::new();
        let n = peers.len();
        let mut i: usize = 0;
        while i < n
            invariant
                peers.wf(),
                o == old(peers).entry_seq(),
                old(peers).wf(),
                n == o.len(),
                n == peers.entry_seq().len(),
                i <= n,
                forall|j: int| 0 <= j < n ==> (#[trigger] peers.entry_seq()[j]).0 == o[j].0,
                forall|j: int| 0 <= j < n ==> (#[trigger] peers.entry_seq()[j]).1.handle() == o[j].1.handle(),
                forall|j: int| #![auto] 0 <= j < i ==> peers.entry_seq()[j].1.sent() == if directs_to(self.to, o[j].0) {
                    o[j].1.sent().push(self.content@)
                } else {
                    o[j].1.sent()
                },
                forall|j: int| i <= j < n ==> #[trigger] peers.entry_seq()[j] == o[j],
                r@.no_duplicates(),
                forall|k: PeerId|
                    r@.contains(k) <==> (directs_to(self.to, k) && exists|j: int|
                        0 <= j < i && #[trigger] o[j].0 == k),
            decreases n - i,
        {
            let id = peers.entry(i).0;
            let ghost r0 = r@;
            let ghost before = peers.entry_seq();
            if self.directs(id) {
                peers.enqueue_at(i, &self.content);
                proof {
                    assert forall|a: int| 0 <= a < r@.len() implies r@[a] != id by {
                        let k = r@[a];
                        assert(r@.contains(k));
                        let j = choose|j: int| 0 <= j < i && #[trigger] o[j].0 == k;
                        assert(o[j].0 != o[i as int].0);
                    }
                }
                r.push(id);
            }
            proof {
                let e = peers.entry_seq();
                assert forall|j: int| 0 <= j < n && j != i implies #[trigger] e[j] == before[j] by {}
                assert forall|k: PeerId|
                    r@.contains(k) <==> (directs_to(self.to, k) && exists|j: int|
                        0 <= j < i + 1 && #[trigger] o[j].0 == k) by {
                    if directs_to(self.to, k) && o[i as int].0 == k {
                        assert(r@[r@.len() - 1] == k);
                    }
                    if r@.contains(k) && k != o[i as int].0 {
                        let a = choose|a: int| 0 <= a < r@.len() && r@[a] == k;
                        assert(r0[a] == k);
                        assert(r0.contains(k));
                    }
                    if directs_to(self.to, k) && r0.contains(k) {
                        let a = choose|a: int| 0 <= a < r0.len() && r0[a] == k;
                        assert(r@[a] == k);
                    }
                }
            }
            i = i + 1;
        }
        proof {
            let e = peers.entry_seq();
            let dom0 = old(peers)@.dom();
            assert forall|k: PeerId|
                r@.to_set().contains(k) == recipients_of(self.to, dom0).contains(k) by {
                lemma_recipients_of(self.to, dom0, k);
                if r@.contains(k) {
                    let j = choose|j: int| 0 <= j < i && #[trigger] o[j].0 == k;
                    assert(old(peers)@.contains_key(o[j].0));
                }
            }
            assert(r@.to_set() =~= recipients_of(self.to, dom0));
            assert forall|k: PeerId| #[trigger] old(peers)@.contains_key(k) implies {
                &&& peers@.contains_key(k)
                &&& peers@[k].handle() == old(peers)@[k].handle()
                &&& peers@[k].sent() == if recipients_of(self.to, dom0).contains(k) {
                    old(peers)@[k].sent().push(self.content@)
                } else {
                    old(peers)@[k].sent()
                }
            } by {
                lemma_recipients_of(self.to, dom0, k);
                let j = choose|j: int| 0 <= j < o.len() && #[trigger] o[j].0 == k;
                assert(e[j].0 == k);
                assert(peers@.contains_key(e[j].0));
            }
            assert forall|k: PeerId| #[trigger] peers@.contains_key(k) implies old(peers)@.contains_key(k) by {
                let j = choose|j: int| 0 <= j < e.len() && #[trigger] e[j].0 == k;
                assert(o[j].0 == k);
                assert(old(peers)@.contains_key(o[j].0));
            }
            assert(peers@.dom() =~= dom0);
        }
        r
    }
}

} // verus!
