//! The composed peer behaviour: one addressable peer owning the gossip
//! and DHT protocol policies. It routes inbound protocol events, keeps
//! the local record store, the pending writes, the explicit gossip
//! peers, the known routing peers and the seen message ids, and turns
//! decisions into actions for the network layer to perform.

use vstd::prelude::*;
use vstd::string::StringSliceAdditionalSpecFns;

use crate::codec::{add_news_of, decode_add_news, decode_news, encode_news, news_json, news_of};
use crate::news::{AddNews, AddNewsView, News, NewsMode, NewsModeView, NewsResponse, NewsView};
use crate::news::mode_matches;
use crate::store::{sp_find, sp_put, Record, RecordStore, RecordView};

verus! {

/// The largest payload the transport will frame, in bytes.
pub const MAX_FRAME: usize = 65536;

/// How many storing peers must acknowledge a write.
#[derive(Clone, Copy, Debug)]
pub enum Quorum {
    One,
    Majority,
    N(usize),
}

/// Why a write failed.
#[derive(Clone, Copy, Debug, PartialEq, Eq)]
pub enum PutError {
    NoRoute,
    QuorumNotMet,
}

/// Why a read failed.
#[derive(Clone, Copy, Debug, PartialEq, Eq)]
pub enum GetError {
    NotFound,
}

/// Why a gossip publish failed.
#[derive(Clone, Copy, Debug, PartialEq, Eq)]
pub enum PublishError {
    NotSubscribed,
    EncodingError,
}

/// An inbound gossip protocol event, as the transport delivers it. The
/// transport verifies the message signature; `signature_ok` carries its
/// verdict.
#[derive(Debug)]
pub enum GossipEvent {
    Message { propagation_source: String, message_id: String, data: String, signature_ok: bool },
    Subscribed { peer_id: String, topic: String },
    Unsubscribed { peer_id: String, topic: String },
}

/// An inbound DHT protocol event.
#[derive(Debug)]
pub enum DhtEvent {
    RoutingUpdated { peer: String, is_new_peer: bool },
    PutResult { key: String, acked: usize },
}

/// Any inbound event, as one closed choice, dispatched by
/// [`NewsNetworkBehaviour::inject_event`].
#[derive(Debug)]
pub enum ComposedEvent {
    Gossip(GossipEvent),
    Dht(DhtEvent),
}

/// What the behaviour asks the network layer to do.
#[derive(Debug)]
pub enum Action {
    Replicate { key: String, required: usize },
    AddExplicitPeer { peer: String },
    PutFailed { key: String, err: PutError },
}

/// The mathematical value of an [`Action`].
pub ghost enum ActionView {
    Replicate { key: Seq<char>, required: int },
    AddExplicitPeer { peer: Seq<char> },
    PutFailed { key: Seq<char>, err: PutError },
}

impl View for Action {
    type V = ActionView;

    open spec fn view(&self) -> ActionView {
        match self {
            Action::Replicate { key, required } => ActionView::Replicate {
                key: key@,
                required: *required as int,
            },
            Action::AddExplicitPeer { peer } => ActionView::AddExplicitPeer { peer: peer@ },
            Action::PutFailed { key, err } => ActionView::PutFailed { key: key@, err: *err },
        }
    }
}

/// The values of a sequence of actions.
pub open spec fn acts(s: Seq<Action>) -> Seq<ActionView> {
    s.map_values(|a: Action| a@)
}

/// A write started but not yet acknowledged by enough peers.
#[derive(Debug)]
pub struct PendingPut {
    pub record: Record,
    pub required: usize,
}

/// The mathematical value of a [`PendingPut`].
pub ghost struct PendingPutView {
    pub record: RecordView,
    pub required: int,
}

impl View for PendingPut {
    type V = PendingPutView;

    open spec fn view(&self) -> PendingPutView {
        PendingPutView { record: self.record@, required: self.required as int }
    }
}

/// The first pending write under key `k`.
pub open spec fn sp_pfind(ps: Seq<PendingPutView>, k: Seq<char>) -> Option<PendingPutView>
    decreases ps.len(),
{
    if ps.len() == 0 {
        None
    } else if ps[0].record.key == k {
        Some(ps[0])
    } else {
        sp_pfind(ps.skip(1), k)
    }
}

/// Does the string sequence hold `x`?
pub open spec fn has_str(v: Seq<String>, x: Seq<char>) -> bool {
    exists|i: int| 0 <= i < v.len() && v[i]@ == x
}

/// No string occurs twice.
pub open spec fn unique_strs(v: Seq<String>) -> bool {
    forall|i: int, j: int| 0 <= i < j < v.len() ==> v[i]@ != v[j]@
}

/// How many acknowledgements a quorum demands among `n` known peers.
pub open spec fn quorum_required(q: Quorum, n: int) -> int {
    match q {
        Quorum::One => 1,
        Quorum::Majority => n / 2 + 1,
        Quorum::N(m) => m as int,
    }
}

/// The majority write quorum the behaviour applies to incoming
/// articles.
pub open spec fn majority_required(n: int) -> int {
    quorum_required(Quorum::Majority, n)
}

/// The article as the storing peer persists it: the store-assigned
/// record key becomes the article id.
pub open spec fn published_article(a: AddNewsView, k: Seq<char>) -> NewsView {
    NewsView {
        id: k,
        title: a.news.title,
        author: a.news.author,
        description: a.news.description,
        date: a.news.date,
    }
}

/// The record a publish request becomes under record key `k`: the
/// serialized article as its value, the requester as its publisher.
pub open spec fn stored_record(a: AddNewsView, k: Seq<char>) -> RecordView {
    RecordView {
        key: k,
        value: news_json(published_article(a, k)),
        publisher: Some(a.requester_peer_id),
        expires: None,
    }
}

/// Whether a textual peer id is well formed depends on its characters
/// alone.
pub uninterp spec fn peer_id_valid(s: Seq<char>) -> bool;

/// Relies on libp2p_identity::PeerId::from_str (reexported as
/// libp2p::PeerId): decoding a textual peer id is a pure function of
/// the characters; it returns an error rather than panicking.
#[verifier::external_body]
fn parse_peer_id_ok(s: &str) -> (r: bool)
    ensures
        r == peer_id_valid(s@),
{
    <libp2p::PeerId as core::str::FromStr>::from_str(s).is_ok()
}

/// Relies on uuid::Uuid::new_v4 and its display form: a fresh random
/// version-4 identifier rendered as 36 hyphenated hexadecimal
/// characters. The value is random; nothing relates two calls.
#[verifier::external_body]
fn new_record_key() -> (r: String)
    ensures
        r@.len() == 36,
{
    uuid::Uuid::new_v4().to_string()
}

fn contains_str(v: &Vec<String>, x: &String) -> (r: bool)
    ensures
        r == has_str(v@, x@),
{
    let mut i: usize = 0;
    while i < v.len()
        invariant
            i <= v@.len(),
            forall|j: int| 0 <= j < i ==> v@[j]@ != x@,
        decreases v@.len() - i,
    {
        if v[i].eq(x) {
            assert(has_str(v@, x@));
            return true;
        }
        i = i + 1;
    }
    false
}

fn insert_str(v: &mut Vec<String>, x: String)
    requires
        unique_strs(old(v)@),
    ensures
        unique_strs(final(v)@),
        forall|q: Seq<char>| has_str(final(v)@, q) <==> has_str(old(v)@, q) || q == x@,
        final(v)@.len() == old(v)@.len() + (if has_str(old(v)@, x@) {
            0int
        } else {
            1int
        }),
{
    if contains_str(v, &x) {
        return ;
    }
    let ghost oldv = v@;
    v.push(x);
    proof {
        assert forall|q: Seq<char>| has_str(v@, q) <==> has_str(oldv, q) || q == x@ by {
            if has_str(oldv, q) {
                let i = choose|i: int| 0 <= i < oldv.len() && oldv[i]@ == q;
                assert(v@[i]@ == q);
            }
            if q == x@ {
                assert(v@[oldv.len() as int]@ == q);
            }
            if has_str(v@, q) {
                let i = choose|i: int| 0 <= i < v@.len() && v@[i]@ == q;
                if i < oldv.len() {
                    assert(oldv[i]@ == q);
                } else {
                    assert(q == x@);
                }
            }
        }
        assert forall|i: int, j: int| 0 <= i < j < v@.len() implies v@[i]@ != v@[j]@ by {
            if j < v@.len() - 1 {
                assert(oldv[i]@ != oldv[j]@);
            } else {
                assert(v@[j]@ == x@);
                assert(!has_str(oldv, x@));
                assert(oldv[i]@ != x@);
            }
        }
    }
}

/// The composed peer behaviour: the gossip side and the DHT side of one
/// peer, with the cross-protocol policy between them.
pub struct NewsNetworkBehaviour {
    pub local_peer_id: String,
    pub store: RecordStore,
    pub pending: Vec<PendingPut>,
    pub explicit_peers: Vec<String>,
    pub seen_messages: Vec<String>,
    pub known_peers: Vec<String>,
    pub subscribed_topics: Vec<String>,
}

impl NewsNetworkBehaviour {
    /// The values of the pending writes, in order.
    pub open spec fn pending_views(self) -> Seq<PendingPutView> {
        Seq::new(self.pending@.len(), |i: int| self.pending@[i]@)
    }

    /// The pending write under key `k`, if any.
    pub open spec fn pending_find(self, k: Seq<char>) -> Option<PendingPutView> {
        sp_pfind(self.pending_views(), k)
    }

    /// Has this message id been delivered before?
    pub open spec fn seen(self, id: Seq<char>) -> bool {
        has_str(self.seen_messages@, id)
    }

    /// Is this peer on the explicit gossip mesh list?
    pub open spec fn explicit_peer(self, p: Seq<char>) -> bool {
        has_str(self.explicit_peers@, p)
    }

    /// Is this peer in the routing table?
    pub open spec fn known_peer(self, p: Seq<char>) -> bool {
        has_str(self.known_peers@, p)
    }

    /// Is this topic subscribed?
    pub open spec fn topic_subscribed(self, t: Seq<char>) -> bool {
        has_str(self.subscribed_topics@, t)
    }

    /// How many distinct peers the routing table holds.
    pub open spec fn known_count(self) -> int {
        self.known_peers@.len() as int
    }

    /// The stores and the membership lists hold no duplicates.
    pub open spec fn wf(self) -> bool {
        &&& self.store.wf()
        &&& unique_strs(self.explicit_peers@)
        &&& unique_strs(self.seen_messages@)
        &&& unique_strs(self.known_peers@)
        &&& unique_strs(self.subscribed_topics@)
        &&& forall|i: int, j: int|
            0 <= i < j < self.pending_views().len() ==> self.pending_views()[i].record.key
                != self.pending_views()[j].record.key
    }

    /// A fresh peer behaviour: empty store, nothing pending, no peers,
    /// no subscriptions, nothing seen.
    pub fn new(local_peer_id: String) -> (b: Self)
        ensures
            b.wf(),
            b.local_peer_id@ == local_peer_id@,
            b.store@.len() == 0,
            b.pending_views().len() == 0,
            forall|q: Seq<char>| !b.seen(q) && !b.explicit_peer(q) && !b.known_peer(q)
                && !b.topic_subscribed(q),
            b.known_count() == 0,
    {
        let b = NewsNetworkBehaviour {
            local_peer_id,
            store: RecordStore::new(),
            pending: Vec::new(),
            explicit_peers: Vec::new(),
            seen_messages: Vec::new(),
            known_peers: Vec::new(),
            subscribed_topics: Vec::new(),
        };
        proof {
            assert(b.pending_views() =~= Seq::<PendingPutView>::empty());
        }
        b
    }

    /// Joins a topic's relay mesh. Repeat calls change nothing: the
    /// operation is idempotent and never fails.
    pub fn subscribe(&mut self, topic: String)
        requires
            old(self).wf(),
        ensures
            final(self).wf(),
            forall|t: Seq<char>|
                final(self).topic_subscribed(t) <==> old(self).topic_subscribed(t) || t == topic@,
            final(self).local_peer_id == old(self).local_peer_id,
            final(self).store == old(self).store,
            final(self).pending == old(self).pending,
            final(self).explicit_peers == old(self).explicit_peers,
            final(self).seen_messages == old(self).seen_messages,
            final(self).known_peers == old(self).known_peers,
    {
        insert_str(&mut self.subscribed_topics, topic);
    }

    /// May a payload go out on a topic? `Ok` exactly when the topic is
    /// subscribed and the payload fits one transport frame; otherwise
    /// the error says which condition failed.
    pub fn publish(&self, topic: &String, payload: &String) -> (r: Result<(), PublishError>)
        ensures
            r is Ok <==> self.topic_subscribed(topic@) && vstd::utf8::encode_utf8(payload@).len()
                <= MAX_FRAME,
            r is Err ==> (r == Err::<(), PublishError>(PublishError::NotSubscribed) <==> !self
                .topic_subscribed(topic@)),
            r is Err ==> (r == Err::<(), PublishError>(PublishError::EncodingError) <==> self
                .topic_subscribed(topic@) && vstd::utf8::encode_utf8(payload@).len() > MAX_FRAME),
    {
        if !contains_str(&self.subscribed_topics, topic) {
            return Err(PublishError::NotSubscribed);
        }
        let b = payload.as_str().as_bytes();
        proof {
            assert(b@ == vstd::utf8::encode_utf8(payload@));
        }
        if b.len() > MAX_FRAME {
            return Err(PublishError::EncodingError);
        }
        Ok(())
    }

    /// Always includes a peer in the gossip relay mesh.
    pub fn add_explicit_peer(&mut self, peer: &String)
        requires
            old(self).wf(),
        ensures
            final(self).wf(),
            forall|q: Seq<char>|
                final(self).explicit_peer(q) <==> old(self).explicit_peer(q) || q == peer@,
            final(self).local_peer_id == old(self).local_peer_id,
            final(self).store == old(self).store,
            final(self).pending == old(self).pending,
            final(self).seen_messages == old(self).seen_messages,
            final(self).known_peers == old(self).known_peers,
            final(self).subscribed_topics == old(self).subscribed_topics,
    {
        insert_str(&mut self.explicit_peers, peer.clone());
    }

    /// Begins a replicated write: with fewer known peers than the
    /// quorum demands the write fails at once with `NoRoute` and
    /// nothing changes; otherwise the write becomes pending and the
    /// required acknowledgement count is returned for the network layer
    /// to collect.
    #[verifier::loop_isolation(false)]
    pub fn put_record(&mut self, record: Record, quorum: Quorum) -> (r: Result<usize, PutError>)
        requires
            old(self).wf(),
        ensures
            final(self).wf(),
            final(self).local_peer_id == old(self).local_peer_id,
            final(self).store == old(self).store,
            final(self).explicit_peers == old(self).explicit_peers,
            final(self).seen_messages == old(self).seen_messages,
            final(self).known_peers == old(self).known_peers,
            final(self).subscribed_topics == old(self).subscribed_topics,
            ({
                let n = old(self).known_count();
                let need = quorum_required(quorum, n);
                if need <= n {
                    &&& 0 <= need <= usize::MAX as int
                    &&& r == Ok::<usize, PutError>(need as usize)
                    &&& final(self).pending_find(record@.key) == Some(
                        (PendingPutView { record: record@, required: need }),
                    )
                    &&& forall|k2: Seq<char>|
                        k2 != record@.key ==> final(self).pending_find(k2) == old(
                            self,
                        ).pending_find(k2)
                } else {
                    &&& r == Err::<usize, PutError>(PutError::NoRoute)
                    &&& final(self).pending == old(self).pending
                }
            }),
    {
        let n = self.known_peers.len();
        let need: usize = match quorum {
            Quorum::One => 1,
            Quorum::Majority => n / 2 + 1,
            Quorum::N(m) => m,
        };
        if need > n {
            return Err(PutError::NoRoute);
        }
        let p = PendingPut { record, required: need };
        let ghost pv = p@;
        let ghost oldp = self.pending_views();
        let mut i: usize = 0;
        while i < self.pending.len()
            invariant
                i <= self.pending@.len(),
                self == old(self),
                oldp == self.pending_views(),
                pv.record.key == p.record@.key && pv == p@,
                forall|j: int| 0 <= j < i ==> oldp[j].record.key != pv.record.key,
            decreases self.pending@.len() - i,
        {
            if self.pending[i].record.key.eq(&p.record.key) {
                self.pending.set(i, p);
                proof {
                    assert(self.pending_views() =~= oldp.update(i as int, pv));
                    assert forall|k2: Seq<char>| true implies sp_pfind(
                        oldp.update(i as int, pv),
                        k2,
                    ) == (if k2 == pv.record.key {
                        Some(pv)
                    } else {
                        sp_pfind(oldp, k2)
                    }) by {
                        lemma_pfind_update(oldp, pv, i as int, k2);
                    }
                    assert forall|a: int, b: int|
                        0 <= a < b < self.pending_views().len() implies self.pending_views()[a]
                        .record.key != self.pending_views()[b].record.key by {
                        assert(oldp[a].record.key != oldp[b].record.key);
                    }
                }
                return Ok(need);
            }
            i = i + 1;
        }
        let ghost oldlen = self.pending@.len();
        self.pending.push(p);
        proof {
            assert(self.pending_views() =~= oldp.push(pv));
            assert forall|k2: Seq<char>| true implies sp_pfind(oldp.push(pv), k2) == (if k2
                == pv.record.key {
                Some(pv)
            } else {
                sp_pfind(oldp, k2)
            }) by {
                lemma_pfind_push(oldp, pv, k2);
            }
            assert forall|a: int, b: int|
                0 <= a < b < self.pending_views().len() implies self.pending_views()[a].record.key
                != self.pending_views()[b].record.key by {
                if b < oldlen {
                    assert(oldp[a].record.key != oldp[b].record.key);
                } else {
                    assert(self.pending_views()[b] == pv);
                    assert(oldp[a].record.key != pv.record.key);
                }
            }
        }
        Ok(need)
    }

    /// Looks a record up in the local store; `NotFound` exactly when no
    /// record is stored under the key.
    pub fn get_record(&self, key: &String) -> (r: Result<&Record, GetError>)
        ensures
            match r {
                Ok(rec) => sp_find(self.store@, key@) == Some(rec@),
                Err(e) => sp_find(self.store@, key@) is None && e == GetError::NotFound,
            },
    {
        match self.store.get(key) {
            Some(rec) => Ok(rec),
            None => Err(GetError::NotFound),
        }
    }
}

/// Replacing the first pending write whose key matches is a point
/// update.
proof fn lemma_pfind_update(ps: Seq<PendingPutView>, p: PendingPutView, i: int, k: Seq<char>)
    requires
        0 <= i < ps.len(),
        ps[i].record.key == p.record.key,
        forall|j: int| 0 <= j < i ==> ps[j].record.key != p.record.key,
    ensures
        sp_pfind(ps.update(i, p), k) == (if k == p.record.key {
            Some(p)
        } else {
            sp_pfind(ps, k)
        }),
    decreases i,
{
    let u = ps.update(i, p);
    if i == 0 {
        assert(u[0] == p);
        assert(u.skip(1) =~= ps.skip(1));
        if k != p.record.key {
            assert(sp_pfind(u, k) == sp_pfind(ps.skip(1), k));
            assert(sp_pfind(ps, k) == sp_pfind(ps.skip(1), k));
        }
    } else {
        assert(u[0] == ps[0]);
        assert(ps[0].record.key != p.record.key);
        assert(u.skip(1) =~= ps.skip(1).update(i - 1, p));
        assert(ps.skip(1)[i - 1].record.key == p.record.key);
        assert forall|j: int| #![trigger ps.skip(1)[j]] 0 <= j < i - 1 implies ps.skip(1)[j].record.key != p.record.key by {
            assert(ps.skip(1)[j] == ps[j + 1]);
        }
        lemma_pfind_update(ps.skip(1), p, i - 1, k);
        if ps[0].record.key == k {
            assert(sp_pfind(u, k) == Some(ps[0]));
            assert(sp_pfind(ps, k) == Some(ps[0]));
        } else {
            assert(sp_pfind(u, k) == sp_pfind(u.skip(1), k));
            assert(sp_pfind(ps, k) == sp_pfind(ps.skip(1), k));
        }
    }
}

/// Starting a pending write under a fresh key appends it.
proof fn lemma_pfind_push(ps: Seq<PendingPutView>, p: PendingPutView, k: Seq<char>)
    requires
        forall|j: int| 0 <= j < ps.len() ==> ps[j].record.key != p.record.key,
    ensures
        sp_pfind(ps.push(p), k) == (if k == p.record.key {
            Some(p)
        } else {
            sp_pfind(ps, k)
        }),
    decreases ps.len(),
{
    let u = ps.push(p);
    if ps.len() == 0 {
        assert(u.len() == 1);
        assert(u[0] == p);
        assert(u.skip(1).len() == 0);
        if k != p.record.key {
            assert(sp_pfind(u, k) == sp_pfind(u.skip(1), k));
            assert(sp_pfind(u.skip(1), k) is None);
        }
    } else {
        assert(u[0] == ps[0]);
        assert(u.skip(1) =~= ps.skip(1).push(p));
        assert forall|j: int| #![trigger ps.skip(1)[j]] 0 <= j < ps.skip(1).len() implies ps.skip(1)[j].record.key
            != p.record.key by {
            assert(ps.skip(1)[j] == ps[j + 1]);
        }
        lemma_pfind_push(ps.skip(1), p, k);
        if ps[0].record.key == k {
            assert(sp_pfind(u, k) == Some(ps[0]));
            assert(sp_pfind(ps, k) == Some(ps[0]));
        } else {
            assert(sp_pfind(u, k) == sp_pfind(u.skip(1), k));
            assert(sp_pfind(ps, k) == sp_pfind(ps.skip(1), k));
        }
    }
}

/// A key held by no pending write finds nothing.
proof fn lemma_pfind_absent(ps: Seq<PendingPutView>, k: Seq<char>)
    requires
        forall|j: int| 0 <= j < ps.len() ==> ps[j].record.key != k,
    ensures
        sp_pfind(ps, k) is None,
    decreases ps.len(),
{
    if ps.len() > 0 {
        assert forall|j: int| #![trigger ps.skip(1)[j]] 0 <= j < ps.skip(1).len() implies ps.skip(1)[j].record.key != k by {
            assert(ps.skip(1)[j] == ps[j + 1]);
        }
        lemma_pfind_absent(ps.skip(1), k);
    }
}

/// The first pending write whose key matches is what the scan finds.
proof fn lemma_pfind_at(ps: Seq<PendingPutView>, i: int)
    requires
        0 <= i < ps.len(),
        forall|j: int| 0 <= j < i ==> ps[j].record.key != ps[i].record.key,
    ensures
        sp_pfind(ps, ps[i].record.key) == Some(ps[i]),
    decreases i,
{
    if i == 0 {
    } else {
        assert(ps.skip(1)[i - 1] == ps[i]);
        assert forall|j: int| #![trigger ps.skip(1)[j]] 0 <= j < i - 1 implies ps.skip(1)[j].record.key
            != ps.skip(1)[i - 1].record.key by {
            assert(ps.skip(1)[j] == ps[j + 1]);
        }
        lemma_pfind_at(ps.skip(1), i - 1);
        assert(sp_pfind(ps, ps[i].record.key) == sp_pfind(ps.skip(1), ps[i].record.key));
    }
}

/// Removing the only pending write under a key erases exactly that key.
proof fn lemma_pfind_remove(ps: Seq<PendingPutView>, i: int, k: Seq<char>)
    requires
        0 <= i < ps.len(),
        forall|j: int|
            0 <= j < ps.len() && j != i ==> ps[j].record.key != ps[i].record.key,
    ensures
        sp_pfind(ps.remove(i), k) == (if k == ps[i].record.key {
            None
        } else {
            sp_pfind(ps, k)
        }),
    decreases i,
{
    let u = ps.remove(i);
    if i == 0 {
        assert(u =~= ps.skip(1));
        if k == ps[0].record.key {
            assert forall|j: int| #![trigger u[j]] 0 <= j < u.len() implies u[j].record.key != k by {
                assert(u[j] == ps[j + 1]);
            }
            lemma_pfind_absent(u, k);
        } else {
            assert(sp_pfind(ps, k) == sp_pfind(ps.skip(1), k));
        }
    } else {
        assert(u[0] == ps[0]);
        assert(u.skip(1) =~= ps.skip(1).remove(i - 1));
        assert(ps.skip(1)[i - 1] == ps[i]);
        assert forall|j: int| #![trigger ps.skip(1)[j]]
            0 <= j < ps.skip(1).len() && j != i - 1 implies ps.skip(1)[j].record.key
            != ps.skip(1)[i - 1].record.key by {
            assert(ps.skip(1)[j] == ps[j + 1]);
        }
        lemma_pfind_remove(ps.skip(1), i - 1, k);
        if ps[0].record.key == k {
            assert(k != ps[i].record.key);
            assert(sp_pfind(u, k) == Some(ps[0]));
            assert(sp_pfind(ps, k) == Some(ps[0]));
        } else {
            assert(sp_pfind(u, k) == sp_pfind(u.skip(1), k));
            assert(sp_pfind(ps, k) == sp_pfind(ps.skip(1), k));
        }
    }
}


/// What handling one gossip message does. A message whose signature
/// does not verify, or whose id was already seen, changes nothing and
/// causes no action; a fresh valid message is marked seen, and if its
/// payload decodes to a publish request naming a well-formed requester
/// peer id, a write of the article begins under some fresh record key.
pub open spec fn gossip_message_post(
    pre: NewsNetworkBehaviour,
    post: NewsNetworkBehaviour,
    message_id: Seq<char>,
    data: Seq<char>,
    signature_ok: bool,
    out: Seq<ActionView>,
) -> bool {
    &&& post.local_peer_id == pre.local_peer_id
    &&& post.store == pre.store
    &&& post.explicit_peers == pre.explicit_peers
    &&& post.known_peers == pre.known_peers
    &&& post.subscribed_topics == pre.subscribed_topics
    &&& (!signature_ok ==> post == pre && out.len() == 0)
    &&& (signature_ok && pre.seen(message_id) ==> post == pre && out.len() == 0)
    &&& (signature_ok && !pre.seen(message_id) ==> {
        &&& (forall|q: Seq<char>| post.seen(q) <==> pre.seen(q) || q == message_id)
        &&& (match add_news_of(data) {
            Option::None => post.pending == pre.pending && out.len() == 0,
            Option::Some(a) => {
                if !peer_id_valid(a.requester_peer_id) {
                    post.pending == pre.pending && out.len() == 0
                } else {
                    exists|k: Seq<char>|
                        k.len() == 36 && #[trigger] add_news_outcome(pre, post, a, k, out)
                }
            },
        })
    })
}

/// What starting the write of a decoded publish request under record
/// key `k` does: with no route to a majority the state is unchanged and
/// the failure is reported, otherwise the write becomes pending and the
/// network layer is asked to replicate it.
pub open spec fn add_news_outcome(
    pre: NewsNetworkBehaviour,
    post: NewsNetworkBehaviour,
    a: AddNewsView,
    k: Seq<char>,
    out: Seq<ActionView>,
) -> bool {
    let n = pre.known_count();
    let need = majority_required(n);
    if need <= n {
        &&& post.pending_find(k) == Some(
            (PendingPutView { record: stored_record(a, k), required: need }),
        )
        &&& (forall|k2: Seq<char>| k2 != k ==> post.pending_find(k2) == pre.pending_find(k2))
        &&& out == seq![ActionView::Replicate { key: k, required: need }]
    } else {
        &&& post.pending == pre.pending
        &&& out == seq![ActionView::PutFailed { key: k, err: PutError::NoRoute }]
    }
}

/// What a routing table update does: a newly confirmed peer joins both
/// the known peers and the explicit gossip mesh, and the network layer
/// is told to allow-list it; a refresh changes nothing.
pub open spec fn routing_updated_post(
    pre: NewsNetworkBehaviour,
    post: NewsNetworkBehaviour,
    peer: Seq<char>,
    is_new_peer: bool,
    out: Seq<ActionView>,
) -> bool {
    &&& post.local_peer_id == pre.local_peer_id
    &&& post.store == pre.store
    &&& post.pending == pre.pending
    &&& post.seen_messages == pre.seen_messages
    &&& post.subscribed_topics == pre.subscribed_topics
    &&& if is_new_peer {
        &&& (forall|q: Seq<char>| post.known_peer(q) <==> pre.known_peer(q) || q == peer)
        &&& (forall|q: Seq<char>| post.explicit_peer(q) <==> pre.explicit_peer(q) || q == peer)
        &&& post.known_count() == pre.known_count() + (if pre.known_peer(peer) {
            0int
        } else {
            1int
        })
        &&& post.explicit_peer(peer)
        &&& out == seq![ActionView::AddExplicitPeer { peer }]
    } else {
        &&& post == pre
        &&& out.len() == 0
    }
}

/// What a completed replication round does: an unknown key changes
/// nothing; a pending write is closed, and its record enters the store
/// exactly when enough peers acknowledged, else the store is untouched
/// and the quorum failure is reported.
pub open spec fn put_result_post(
    pre: NewsNetworkBehaviour,
    post: NewsNetworkBehaviour,
    key: Seq<char>,
    acked: int,
    out: Seq<ActionView>,
) -> bool {
    &&& post.local_peer_id == pre.local_peer_id
    &&& post.explicit_peers == pre.explicit_peers
    &&& post.known_peers == pre.known_peers
    &&& post.seen_messages == pre.seen_messages
    &&& post.subscribed_topics == pre.subscribed_topics
    &&& match pre.pending_find(key) {
        Option::Some(p) => {
            &&& post.pending_find(key) is None
            &&& (forall|k2: Seq<char>| k2 != key ==> post.pending_find(k2) == pre.pending_find(k2))
            &&& if acked >= p.required {
                &&& post.store@ == sp_put(pre.store@, p.record)
                &&& out.len() == 0
            } else {
                &&& post.store == pre.store
                &&& out == seq![ActionView::PutFailed { key, err: PutError::QuorumNotMet }]
            }
        },
        Option::None => post == pre && out.len() == 0,
    }
}

/// The articles a query mode selects from the stored records, in store
/// order: each value that decodes to an article whose fields satisfy
/// the mode.
pub open spec fn sp_query(rs: Seq<RecordView>, m: NewsModeView) -> Seq<NewsView>
    decreases rs.len(),
{
    if rs.len() == 0 {
        Seq::empty()
    } else {
        let rest = sp_query(rs.skip(1), m);
        match news_of(rs[0].value) {
            Option::Some(n) => if mode_matches(m, n) {
                seq![n] + rest
            } else {
                rest
            },
            Option::None => rest,
        }
    }
}

/// What a lookup by article id yields: the record stored under that
/// key, decoded, if its article carries the id.
pub open spec fn sp_by_id(rs: Seq<RecordView>, id: Seq<char>) -> Seq<NewsView> {
    match sp_find(rs, id) {
        Option::Some(rec) => match news_of(rec.value) {
            Option::Some(n) => if n.id == id {
                seq![n]
            } else {
                Seq::empty()
            },
            Option::None => Seq::empty(),
        },
        Option::None => Seq::empty(),
    }
}

/// Scanning one more record extends the selection on the right.
proof fn lemma_sp_query_push(rs: Seq<RecordView>, r: RecordView, m: NewsModeView)
    ensures
        sp_query(rs.push(r), m) == sp_query(rs, m) + (match news_of(r.value) {
            Option::Some(n) => if mode_matches(m, n) {
                seq![n]
            } else {
                Seq::<NewsView>::empty()
            },
            Option::None => Seq::<NewsView>::empty(),
        }),
    decreases rs.len(),
{
    let t = rs.push(r);
    let tail = (match news_of(r.value) {
        Option::Some(n) => if mode_matches(m, n) {
            seq![n]
        } else {
            Seq::<NewsView>::empty()
        },
        Option::None => Seq::<NewsView>::empty(),
    });
    if rs.len() == 0 {
        assert(t.len() == 1);
        assert(t[0] == r);
        assert(t.skip(1).len() == 0);
        assert(sp_query(t.skip(1), m) == Seq::<NewsView>::empty());
        assert(sp_query(t, m) =~= sp_query(rs, m) + tail);
    } else {
        assert(t[0] == rs[0]);
        assert(t.skip(1) =~= rs.skip(1).push(r));
        lemma_sp_query_push(rs.skip(1), r, m);
        assert(sp_query(t, m) =~= sp_query(rs, m) + tail);
    }
}

fn mode_match_exec(mode: &NewsMode, n: &News) -> (r: bool)
    ensures
        r == mode_matches(mode@, n@),
{
    match mode {
        NewsMode::ALL => true,
        NewsMode::ByTitle(t) => n.title.eq(t),
        NewsMode::ById(i) => n.id.eq(i),
        NewsMode::ByAuthor(a) => n.author.eq(a),
    }
}

impl NewsNetworkBehaviour {
    /// Starts the write of a decoded publish request under record key
    /// `key`: the article gets the key as its id, is serialized, and a
    /// majority-quorum write of the record begins, the requester named
    /// as publisher.
    pub fn apply_add_news(&mut self, req: &AddNews, key: String) -> (out: Vec<Action>)
        requires
            old(self).wf(),
        ensures
            final(self).wf(),
            final(self).local_peer_id == old(self).local_peer_id,
            final(self).store == old(self).store,
            final(self).explicit_peers == old(self).explicit_peers,
            final(self).seen_messages == old(self).seen_messages,
            final(self).known_peers == old(self).known_peers,
            final(self).subscribed_topics == old(self).subscribed_topics,
            add_news_outcome(*old(self), *final(self), req@, key@, acts(out@)),
    {
        let article = News {
            id: key.clone(),
            title: req.news.title.clone(),
            author: req.news.author.clone(),
            description: req.news.description.clone(),
            date: req.news.date,
        };
        let value = encode_news(&article);
        let record = Record {
            key: key.clone(),
            value,
            publisher: Some(req.requester_peer_id.clone()),
            expires: None,
        };
        proof {
            assert(record@ == stored_record(req@, key@));
        }
        match self.put_record(record, Quorum::Majority) {
            Ok(required) => {
                let out = vec![Action::Replicate { key, required }];
                proof {
                    assert(acts(out@) =~= seq![
                        ActionView::Replicate {
                            key: key@,
                            required: majority_required(old(self).known_count()),
                        },
                    ]);
                }
                out
            },
            Err(err) => {
                let out = vec![Action::PutFailed { key, err }];
                proof {
                    assert(acts(out@) =~= seq![
                        ActionView::PutFailed { key: key@, err: PutError::NoRoute },
                    ]);
                }
                out
            },
        }
    }

    /// Routes one gossip message: drops it unless its signature
    /// verified and it was not seen before; then, if it is a publish
    /// request from a well-formed peer id, begins storing the article
    /// under a fresh record key.
    pub fn handle_gossip_message(
        &mut self,
        message_id: &String,
        data: &String,
        signature_ok: bool,
    ) -> (out: Vec<Action>)
        requires
            old(self).wf(),
        ensures
            final(self).wf(),
            gossip_message_post(
                *old(self),
                *final(self),
                message_id@,
                data@,
                signature_ok,
                acts(out@),
            ),
    {
        let out: Vec<Action> = Vec::new();
        proof {
            assert(acts(out@) =~= Seq::<ActionView>::empty());
        }
        if !signature_ok {
            return out;
        }
        if contains_str(&self.seen_messages, message_id) {
            return out;
        }
        insert_str(&mut self.seen_messages, message_id.clone());
        match decode_add_news(data.as_str()) {
            Option::None => out,
            Option::Some(req) => {
                if !parse_peer_id_ok(req.requester_peer_id.as_str()) {
                    return out;
                }
                let key = new_record_key();
                let ghost kv = key@;
                let acts_out = self.apply_add_news(&req, key);
                proof {
                    assert(kv.len() == 36 && add_news_outcome(
                        *old(self),
                        *self,
                        req@,
                        kv,
                        acts(acts_out@),
                    ));
                }
                acts_out
            },
        }
    }

    /// Applies the cross-protocol policy to a routing table update: a
    /// peer newly confirmed by the DHT is allow-listed in the gossip
    /// mesh at once, before any further broadcast.
    pub fn handle_routing_updated(&mut self, peer: &String, is_new_peer: bool) -> (out: Vec<
        Action,
    >)
        requires
            old(self).wf(),
        ensures
            final(self).wf(),
            routing_updated_post(*old(self), *final(self), peer@, is_new_peer, acts(out@)),
    {
        if !is_new_peer {
            let out: Vec<Action> = Vec::new();
            proof {
                assert(acts(out@) =~= Seq::<ActionView>::empty());
            }
            return out;
        }
        insert_str(&mut self.known_peers, peer.clone());
        self.add_explicit_peer(peer);
        let out = vec![Action::AddExplicitPeer { peer: peer.clone() }];
        proof {
            assert(acts(out@) =~= seq![ActionView::AddExplicitPeer { peer: peer@ }]);
        }
        out
    }

    /// Closes a replication round: commits the pending record when
    /// enough peers acknowledged, else discards it and reports the
    /// quorum failure; a key with no pending write is ignored.
    #[verifier::loop_isolation(false)]
    pub fn handle_put_result(&mut self, key: &String, acked: usize) -> (out: Vec<Action>)
        requires
            old(self).wf(),
        ensures
            final(self).wf(),
            put_result_post(*old(self), *final(self), key@, acked as int, acts(out@)),
    {
        let ghost oldp = self.pending_views();
        let mut i: usize = 0;
        while i < self.pending.len()
            invariant
                i <= self.pending@.len(),
                self == old(self),
                forall|j: int| 0 <= j < i ==> oldp[j].record.key != key@,
            decreases self.pending@.len() - i,
        {
            if self.pending[i].record.key.eq(key) {
                proof {
                    assert(oldp[i as int].record.key == key@);
                    lemma_pfind_at(oldp, i as int);
                    assert forall|j: int| #![trigger oldp[j]]
                        0 <= j < oldp.len() && j != i implies oldp[j].record.key
                        != oldp[i as int].record.key by {
                        if j > i {
                            assert(oldp[i as int].record.key != oldp[j].record.key);
                        }
                    }
                    assert forall|k2: Seq<char>| true implies sp_pfind(
                        oldp.remove(i as int),
                        k2,
                    ) == (if k2 == key@ {
                        Option::<PendingPutView>::None
                    } else {
                        sp_pfind(oldp, k2)
                    }) by {
                        lemma_pfind_remove(oldp, i as int, k2);
                    }
                }
                let p = self.pending.remove(i);
                proof {
                    assert(self.pending_views() =~= oldp.remove(i as int));
                    assert forall|a: int, b: int|
                        0 <= a < b < self.pending_views().len() implies self.pending_views()[a]
                        .record.key != self.pending_views()[b].record.key by {
                        assert(self.pending_views()[a] == oldp.remove(i as int)[a]);
                        assert(self.pending_views()[b] == oldp.remove(i as int)[b]);
                        if a < i && b < i {
                            assert(oldp[a].record.key != oldp[b].record.key);
                        } else if a < i {
                            assert(oldp[a].record.key != oldp[b + 1].record.key);
                        } else {
                            assert(oldp[a + 1].record.key != oldp[b + 1].record.key);
                        }
                    }
                }
                if acked >= p.required {
                    self.store.put(p.record);
                    let out: Vec<Action> = Vec::new();
                    proof {
                        assert(acts(out@) =~= Seq::<ActionView>::empty());
                    }
                    return out;
                } else {
                    let out = vec![
                        Action::PutFailed { key: key.clone(), err: PutError::QuorumNotMet },
                    ];
                    proof {
                        assert(acts(out@) =~= seq![
                            ActionView::PutFailed { key: key@, err: PutError::QuorumNotMet },
                        ]);
                    }
                    return out;
                }
            }
            i = i + 1;
        }
        proof {
            lemma_pfind_absent(oldp, key@);
        }
        let out: Vec<Action> = Vec::new();
        proof {
            assert(acts(out@) =~= Seq::<ActionView>::empty());
        }
        out
    }

    /// Dispatches one inbound event to the protocol handler it belongs
    /// to. This is the single place where the two protocols meet.
    pub fn inject_event(&mut self, event: ComposedEvent) -> (out: Vec<Action>)
        requires
            old(self).wf(),
        ensures
            final(self).wf(),
            (match event {
                ComposedEvent::Gossip(
                    GossipEvent::Message { propagation_source: _, message_id, data, signature_ok },
                ) => gossip_message_post(
                    *old(self),
                    *final(self),
                    message_id@,
                    data@,
                    signature_ok,
                    acts(out@),
                ),
                ComposedEvent::Gossip(GossipEvent::Subscribed { .. }) => *final(self) == *old(self)
                    && out@.len() == 0,
                ComposedEvent::Gossip(GossipEvent::Unsubscribed { .. }) => *final(self) == *old(
                    self,
                ) && out@.len() == 0,
                ComposedEvent::Dht(DhtEvent::RoutingUpdated { peer, is_new_peer }) => routing_updated_post(
                    *old(self),
                    *final(self),
                    peer@,
                    is_new_peer,
                    acts(out@),
                ),
                ComposedEvent::Dht(DhtEvent::PutResult { key, acked }) => put_result_post(
                    *old(self),
                    *final(self),
                    key@,
                    acked as int,
                    acts(out@),
                ),
            }),
    {
        match event {
            ComposedEvent::Gossip(
                GossipEvent::Message { propagation_source: _, message_id, data, signature_ok },
            ) => self.handle_gossip_message(&message_id, &data, signature_ok),
            ComposedEvent::Gossip(GossipEvent::Subscribed { .. }) => Vec::new(),
            ComposedEvent::Gossip(GossipEvent::Unsubscribed { .. }) => Vec::new(),
            ComposedEvent::Dht(DhtEvent::RoutingUpdated { peer, is_new_peer }) => self
                .handle_routing_updated(&peer, is_new_peer),
            ComposedEvent::Dht(DhtEvent::PutResult { key, acked }) => self.handle_put_result(
                &key,
                acked,
            ),
        }
    }

    /// Answers a query from the locally known records: a lookup by id
    /// through the store key, a scan for every other mode. The answer
    /// is best-effort local knowledge; no network round happens here.
    #[verifier::loop_isolation(false)]
    pub fn handle_query(&self, mode: &NewsMode, requester_peer_id: &String) -> (resp: NewsResponse)
        requires
            self.wf(),
        ensures
            resp@.mode == mode@,
            resp@.responser_peer_id == self.local_peer_id@,
            resp@.requester_peer_id == requester_peer_id@,
            (match mode@ {
                NewsModeView::ById(id) => resp@.data == sp_by_id(self.store@, id) && resp@.data.len()
                    <= 1,
                _ => resp@.data == sp_query(self.store@, mode@),
            }),
    {
        let mut data: Vec<News> = Vec::new();
        match mode {
            NewsMode::ById(id) => {
                match self.store.get(id) {
                    Option::Some(rec) => {
                        match decode_news(rec.value.as_str()) {
                            Option::Some(n) => {
                                if n.id.eq(id) {
                                    data.push(n);
                                }
                            },
                            Option::None => {},
                        }
                    },
                    Option::None => {},
                }
                proof {
                    assert(Seq::new(data@.len(), |i: int| data@[i]@) =~= sp_by_id(
                        self.store@,
                        id@,
                    ));
                }
            },
            _ => {
                proof {
                    assert(self.store@.subrange(0, 0) =~= Seq::<RecordView>::empty());
                }
                let count = self.store.len();
                let mut i: usize = 0;
                while i < count
                    invariant
                        i <= count,
                        Seq::new(data@.len(), |j: int| data@[j]@) == sp_query(
                            self.store@.subrange(0, i as int),
                            mode@,
                        ),
                    decreases count - i,
                {
                    let rec = self.store.get_at(i);
                    let ghost prefix = self.store@.subrange(0, i as int);
                    match decode_news(rec.value.as_str()) {
                        Option::Some(n) => {
                            if mode_match_exec(mode, &n) {
                                data.push(n);
                            }
                        },
                        Option::None => {},
                    }
                    proof {
                        lemma_sp_query_push(prefix, self.store@[i as int], mode@);
                        assert(self.store@.subrange(0, i + 1) =~= prefix.push(
                            self.store@[i as int],
                        ));
                        assert(Seq::new(data@.len(), |j: int| data@[j]@) =~= sp_query(
                            self.store@.subrange(0, i + 1),
                            mode@,
                        ));
                    }
                    i = i + 1;
                }
                proof {
                    assert(self.store@.subrange(0, self.store@.len() as int) =~= self.store@);
                }
            },
        }
        let resp = NewsResponse {
            mode: mode.clone(),
            responser_peer_id: self.local_peer_id.clone(),
            requester_peer_id: requester_peer_id.clone(),
            data,
        };
        proof {
            assert(resp@.data =~= Seq::new(resp.data@.len(), |i: int| resp.data@[i]@));
        }
        resp
    }
}

/// Handling a message twice creates at most one record: once a message
/// id has been delivered, a second validly-signed delivery under the
/// same id leaves the peer unchanged and causes no action.
pub proof fn lemma_duplicate_message_ignored(
    pre: NewsNetworkBehaviour,
    mid: NewsNetworkBehaviour,
    post: NewsNetworkBehaviour,
    message_id: Seq<char>,
    data1: Seq<char>,
    data2: Seq<char>,
    out1: Seq<ActionView>,
    out2: Seq<ActionView>,
)
    requires
        gossip_message_post(pre, mid, message_id, data1, true, out1),
        gossip_message_post(mid, post, message_id, data2, true, out2),
    ensures
        post == mid,
        out2.len() == 0,
{
    if pre.seen(message_id) {
        assert(mid == pre);
    } else {
        assert(mid.seen(message_id));
    }
}

/// An article written with its required quorum of acknowledgements is
/// afterwards retrievable under its record key: the store answers with
/// exactly the record that was pending, whose value is the serialized
/// article.
pub proof fn lemma_quorum_store_then_get(
    pre: NewsNetworkBehaviour,
    post: NewsNetworkBehaviour,
    key: Seq<char>,
    acked: int,
    out: Seq<ActionView>,
)
    requires
        put_result_post(pre, post, key, acked, out),
        pre.pending_find(key) is Some,
        acked >= pre.pending_find(key).unwrap().required,
    ensures
        sp_find(post.store@, pre.pending_find(key).unwrap().record.key) == Some(
            pre.pending_find(key).unwrap().record,
        ),
{
    crate::store::lemma_put_then_get(pre.store@, pre.pending_find(key).unwrap().record);
}

/// A write that misses its quorum leaves no record behind: after the
/// failure is reported the store is exactly what it was, and a key that
/// was absent stays absent.
pub proof fn lemma_quorum_failure_no_record(
    pre: NewsNetworkBehaviour,
    post: NewsNetworkBehaviour,
    key: Seq<char>,
    acked: int,
    out: Seq<ActionView>,
)
    requires
        put_result_post(pre, post, key, acked, out),
        pre.pending_find(key) is Some,
        acked < pre.pending_find(key).unwrap().required,
        sp_find(pre.store@, key) is None,
    ensures
        sp_find(post.store@, key) is None,
        out == seq![ActionView::PutFailed { key, err: PutError::QuorumNotMet }],
{
}


/// For an article published over gossip and stored with its required
/// quorum: the record key afterwards retrieves exactly the serialized
/// article, and decoding that value yields the article back, its id the
/// record key and its publisher the requesting peer.
pub proof fn lemma_published_article_retrievable(
    pre: NewsNetworkBehaviour,
    post: NewsNetworkBehaviour,
    a: AddNewsView,
    k: Seq<char>,
    acked: int,
    out: Seq<ActionView>,
)
    requires
        put_result_post(pre, post, k, acked, out),
        pre.pending_find(k) is Some,
        pre.pending_find(k).unwrap().record == stored_record(a, k),
        acked >= pre.pending_find(k).unwrap().required,
        i64::MIN as int <= a.news.date <= i64::MAX as int,
    ensures
        sp_find(post.store@, k) == Some(stored_record(a, k)),
        crate::codec::news_of(stored_record(a, k).value) == Some(published_article(a, k)),
{
    lemma_quorum_store_then_get(pre, post, k, acked, out);
    crate::codec::lemma_news_round_trip(published_article(a, k));
}

} // verus!
