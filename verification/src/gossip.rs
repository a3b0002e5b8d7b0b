//! The bookkeeping of the gossip layer: which peers offered which
//! artifacts, from which peer each artifact is being requested, and to
//! whom a validated artifact is announced.
//!
//! An artifact is requested from one peer at a time: from the peer that
//! offered it first, and after a timeout from the next one that offered it.

use crate::artifact::views;
use crate::artifact::Advert;
use crate::artifact::AdvertView;
use crate::artifact::ArtifactTag;
use crate::artifact::CryptoHash;
use crate::artifact::NodeId;
use crate::processor::Diagnostic;
use crate::processor::DiagnosticView;
use crate::processor::PassReport;
use crate::processor::PassReportView;
use vstd::prelude::*;

verus! {

/// An offer as a mathematical value.
pub ghost struct OfferView {
    pub peer: NodeId,
    pub tag: ArtifactTag,
    pub id: Seq<char>,
    pub integrity_hash: Seq<u8>,
}

/// A peer announced that it holds an artifact.
#[derive(Debug)]
pub struct Offer {
    pub peer: NodeId,
    pub tag: ArtifactTag,
    pub id: String,
    pub integrity_hash: CryptoHash,
}

impl View for Offer {
    type V = OfferView;

    open spec fn view(&self) -> OfferView {
        OfferView {
            peer: self.peer,
            tag: self.tag,
            id: self.id@,
            integrity_hash: self.integrity_hash@,
        }
    }
}

impl Clone for Offer {
    fn clone(&self) -> (res: Self)
        ensures
            res@ == self@,
    {
        Offer {
            peer: self.peer,
            tag: self.tag,
            id: self.id.clone(),
            integrity_hash: self.integrity_hash.clone(),
        }
    }
}

/// A request as a mathematical value.
pub ghost struct RequestView {
    pub peer: NodeId,
    pub tag: ArtifactTag,
    pub id: Seq<char>,
    pub integrity_hash: Seq<u8>,
    pub requested_at: u64,
}

/// An artifact is being requested from a peer, since the given time in
/// milliseconds. The integrity hash is the one that the peer announced.
#[derive(Debug)]
pub struct Request {
    pub peer: NodeId,
    pub tag: ArtifactTag,
    pub id: String,
    pub integrity_hash: CryptoHash,
    pub requested_at: u64,
}

impl View for Request {
    type V = RequestView;

    open spec fn view(&self) -> RequestView {
        RequestView {
            peer: self.peer,
            tag: self.tag,
            id: self.id@,
            integrity_hash: self.integrity_hash@,
            requested_at: self.requested_at,
        }
    }
}

impl Clone for Request {
    fn clone(&self) -> (res: Self)
        ensures
            res@ == self@,
    {
        Request {
            peer: self.peer,
            tag: self.tag,
            id: self.id.clone(),
            integrity_hash: self.integrity_hash.clone(),
            requested_at: self.requested_at,
        }
    }
}

/// The peer that delivered an artifact, as a mathematical value.
pub ghost struct OriginView {
    pub peer: NodeId,
    pub tag: ArtifactTag,
    pub id: Seq<char>,
}

/// The peer that delivered an artifact.
#[derive(Debug)]
pub struct Origin {
    pub peer: NodeId,
    pub tag: ArtifactTag,
    pub id: String,
}

impl View for Origin {
    type V = OriginView;

    open spec fn view(&self) -> OriginView {
        OriginView { peer: self.peer, tag: self.tag, id: self.id@ }
    }
}

/// An advert and the peers it goes to, as a mathematical value.
pub ghost struct AdvertSendView {
    pub advert: AdvertView,
    pub recipients: Seq<NodeId>,
}

/// An advert to send, and the peers to send it to.
#[derive(Debug)]
pub struct AdvertSend {
    pub advert: Advert,
    pub recipients: Vec<NodeId>,
}

impl View for AdvertSend {
    type V = AdvertSendView;

    open spec fn view(&self) -> AdvertSendView {
        AdvertSendView { advert: self.advert@, recipients: self.recipients@ }
    }
}

/// Whether the offer is for the artifact `id` of kind `tag`.
pub open spec fn offer_for(o: OfferView, tag: ArtifactTag, id: Seq<char>) -> bool {
    o.tag == tag && o.id == id
}

/// Whether some peer offered the artifact.
pub open spec fn has_offer(offers: Seq<OfferView>, tag: ArtifactTag, id: Seq<char>) -> bool {
    exists|i: int| 0 <= i < offers.len() && offer_for(#[trigger] offers[i], tag, id)
}

/// Whether `peer` offered the artifact.
pub open spec fn offered_by(
    offers: Seq<OfferView>,
    peer: NodeId,
    tag: ArtifactTag,
    id: Seq<char>,
) -> bool {
    exists|i: int|
        0 <= i < offers.len() && (#[trigger] offers[i]).peer == peer && offer_for(
            offers[i],
            tag,
            id,
        )
}

/// Whether position `i` holds the first offer of the artifact.
pub open spec fn is_first_offer(
    offers: Seq<OfferView>,
    tag: ArtifactTag,
    id: Seq<char>,
    i: int,
) -> bool {
    &&& 0 <= i < offers.len()
    &&& offer_for(offers[i], tag, id)
    &&& forall|j: int| 0 <= j < i ==> !offer_for(#[trigger] offers[j], tag, id)
}

/// The position of the first offer of the artifact, if it was offered.
pub open spec fn first_offer(offers: Seq<OfferView>, tag: ArtifactTag, id: Seq<char>) -> int {
    choose|i: int| is_first_offer(offers, tag, id, i)
}

/// Whether the artifact is being requested.
pub open spec fn requested(requests: Seq<RequestView>, tag: ArtifactTag, id: Seq<char>) -> bool {
    exists|i: int|
        0 <= i < requests.len() && (#[trigger] requests[i]).tag == tag && requests[i].id == id
}

/// No peer occurs twice.
pub open spec fn distinct_peers(peers: Seq<NodeId>) -> bool {
    forall|i: int, j: int|
        0 <= i < peers.len() && 0 <= j < peers.len() && i != j ==> peers[i] != peers[j]
}

/// No artifact is requested twice: each is requested from at most one peer.
pub open spec fn one_request_each(requests: Seq<RequestView>) -> bool {
    forall|i: int, j: int|
        0 <= i < requests.len() && 0 <= j < requests.len() && i != j ==> !((
        #[trigger] requests[i]).tag == (#[trigger] requests[j]).tag && requests[i].id
            == requests[j].id)
}

/// No peer offers the same artifact twice.
pub open spec fn distinct_offers(offers: Seq<OfferView>) -> bool {
    forall|i: int, j: int|
        0 <= i < offers.len() && 0 <= j < offers.len() && i != j ==> !((#[trigger] offers[i]).peer
            == (#[trigger] offers[j]).peer && offer_for(offers[i], offers[j].tag, offers[j].id))
}

/// The elements of `s` that `keep` holds of, in order.
pub open spec fn retain<T>(s: Seq<T>, keep: spec_fn(T) -> bool) -> Seq<T>
    decreases s.len(),
{
    if s.len() == 0 {
        Seq::empty()
    } else if keep(s.last()) {
        retain(s.drop_last(), keep).push(s.last())
    } else {
        retain(s.drop_last(), keep)
    }
}

/// What `retain` keeps was in the sequence and satisfies `keep`; it keeps
/// nothing twice that was there once: a relation that holds of no two
/// elements of the sequence holds of no two elements kept.
pub proof fn lemma_retain<T>(s: Seq<T>, keep: spec_fn(T) -> bool, related: spec_fn(T, T) -> bool)
    requires
        forall|i: int, j: int|
            0 <= i < s.len() && 0 <= j < s.len() && i != j ==> !related(s[i], s[j]),
    ensures
        retain(s, keep).len() <= s.len(),
        forall|i: int|
            0 <= i < retain(s, keep).len() ==> keep(#[trigger] retain(s, keep)[i]) && s.contains(
                retain(s, keep)[i],
            ),
        forall|i: int| 0 <= i < s.len() && keep(s[i]) ==> retain(s, keep).contains(#[trigger] s[i]),
        forall|i: int, j: int|
            0 <= i < retain(s, keep).len() && 0 <= j < retain(s, keep).len() && i != j ==> !related(
                retain(s, keep)[i],
                retain(s, keep)[j],
            ),
    decreases s.len(),
{
    if s.len() > 0 {
        let front = s.drop_last();
        let last = s.last();
        let n = front.len() as int;
        assert forall|i: int, j: int|
            0 <= i < front.len() && 0 <= j < front.len() && i != j implies !related(
            front[i],
            front[j],
        ) by {
            assert(front[i] == s[i] && front[j] == s[j]);
        }
        lemma_retain(front, keep, related);
        let kept = retain(front, keep);
        let r = retain(s, keep);
        assert forall|i: int| 0 <= i < r.len() implies keep(#[trigger] r[i]) && s.contains(
            r[i],
        ) by {
            if i < kept.len() {
                assert(r[i] == kept[i]);
                assert(front.contains(kept[i]));
                let k = choose|k: int| 0 <= k < front.len() && front[k] == kept[i];
                assert(s[k] == kept[i]);
            } else {
                assert(r[i] == s[n]);
            }
        }
        assert forall|i: int| 0 <= i < s.len() && keep(s[i]) implies r.contains(
            #[trigger] s[i],
        ) by {
            if i < n {
                assert(front[i] == s[i]);
                assert(kept.contains(front[i]));
                let k = choose|k: int| 0 <= k < kept.len() && kept[k] == front[i];
                assert(r[k] == s[i]);
            } else {
                assert(r[r.len() - 1] == s[i]);
            }
        }
        assert forall|i: int, j: int|
            0 <= i < r.len() && 0 <= j < r.len() && i != j implies !related(r[i], r[j]) by {
            if i < kept.len() && j < kept.len() {
                assert(r[i] == kept[i] && r[j] == kept[j]);
            } else if i < kept.len() {
                assert(r[i] == kept[i]);
                assert(front.contains(kept[i]));
                let k = choose|k: int| 0 <= k < front.len() && front[k] == kept[i];
                assert(s[k] == r[i] && s[n] == r[j]);
            } else {
                assert(r[j] == kept[j]);
                assert(front.contains(kept[j]));
                let k = choose|k: int| 0 <= k < front.len() && front[k] == kept[j];
                assert(s[k] == r[j] && s[n] == r[i]);
            }
        }
    }
}

/// Holds of the offers that are not for the artifact.
pub open spec fn offer_not_for(tag: ArtifactTag, id: Seq<char>) -> spec_fn(OfferView) -> bool {
    |o: OfferView| !offer_for(o, tag, id)
}

/// Holds of the offers but the one of the artifact by `peer`.
pub open spec fn offer_not_by(peer: NodeId, tag: ArtifactTag, id: Seq<char>) -> spec_fn(
    OfferView,
) -> bool {
    |o: OfferView| !(o.peer == peer && offer_for(o, tag, id))
}

/// Holds of the requests that are not for the artifact.
pub open spec fn request_not_for(tag: ArtifactTag, id: Seq<char>) -> spec_fn(RequestView) -> bool {
    |r: RequestView| !(r.tag == tag && r.id == id)
}

/// Holds of the origins that are not of the artifact.
pub open spec fn origin_not_of(tag: ArtifactTag, id: Seq<char>) -> spec_fn(OriginView) -> bool {
    |o: OriginView| !(o.tag == tag && o.id == id)
}

/// Holds of every peer but `peer`.
pub open spec fn peer_not(peer: NodeId) -> spec_fn(NodeId) -> bool {
    |p: NodeId| p != peer
}

/// Holds of two offers of one artifact by one peer.
pub open spec fn same_offer() -> spec_fn(OfferView, OfferView) -> bool {
    |a: OfferView, b: OfferView| a.peer == b.peer && offer_for(a, b.tag, b.id)
}

/// Holds of two requests of one artifact.
pub open spec fn same_request() -> spec_fn(RequestView, RequestView) -> bool {
    |a: RequestView, b: RequestView| a.tag == b.tag && a.id == b.id
}

/// Holds of a peer and itself.
pub open spec fn same_peer() -> spec_fn(NodeId, NodeId) -> bool {
    |a: NodeId, b: NodeId| a == b
}

/// Whether position `i` holds the first origin recorded for the artifact.
pub open spec fn is_first_origin(
    origins: Seq<OriginView>,
    tag: ArtifactTag,
    id: Seq<char>,
    i: int,
) -> bool {
    &&& 0 <= i < origins.len()
    &&& origins[i].tag == tag && origins[i].id == id
    &&& forall|j: int|
        0 <= j < i ==> !((#[trigger] origins[j]).tag == tag && origins[j].id == id)
}

/// The peer that delivered the artifact, if that was recorded.
pub open spec fn origin_of(origins: Seq<OriginView>, tag: ArtifactTag, id: Seq<char>) -> Option<
    NodeId,
> {
    if exists|i: int| is_first_origin(origins, tag, id, i) {
        Some(origins[choose|i: int| is_first_origin(origins, tag, id, i)].peer)
    } else {
        None
    }
}

/// Whether a request made at `requested_at` has timed out at `now`.
pub open spec fn timed_out(requested_at: u64, now: u64, timeout_ms: u64) -> bool {
    now >= requested_at && now - requested_at >= timeout_ms
}

/// Where the timer's pass over the requests stands: the offers that are
/// left, the requests that stay, and the requests made anew.
pub ghost struct Sweep {
    pub offers: Seq<OfferView>,
    pub requests: Seq<RequestView>,
    pub retries: Seq<RequestView>,
}

/// Dropping offers or requests keeps them distinct.
pub proof fn lemma_retain_offers(offers: Seq<OfferView>, keep: spec_fn(OfferView) -> bool)
    requires
        distinct_offers(offers),
    ensures
        distinct_offers(retain(offers, keep)),
{
    lemma_retain(offers, keep, same_offer());
    let r = retain(offers, keep);
    assert forall|i: int, j: int| 0 <= i < r.len() && 0 <= j < r.len() && i != j implies !((
    #[trigger] r[i]).peer == (#[trigger] r[j]).peer && offer_for(r[i], r[j].tag, r[j].id)) by {
        assert(!same_offer()(r[i], r[j]));
    }
}

/// Dropping requests leaves each artifact requested at most once.
pub proof fn lemma_retain_requests(requests: Seq<RequestView>, keep: spec_fn(RequestView) -> bool)
    requires
        one_request_each(requests),
    ensures
        one_request_each(retain(requests, keep)),
{
    lemma_retain(requests, keep, same_request());
    let r = retain(requests, keep);
    assert forall|i: int, j: int| 0 <= i < r.len() && 0 <= j < r.len() && i != j implies !((
    #[trigger] r[i]).tag == (#[trigger] r[j]).tag && r[i].id == r[j].id) by {
        assert(!same_request()(r[i], r[j]));
    }
}

/// Dropping peers keeps them distinct.
pub proof fn lemma_retain_peers(peers: Seq<NodeId>, keep: spec_fn(NodeId) -> bool)
    requires
        distinct_peers(peers),
    ensures
        distinct_peers(retain(peers, keep)),
{
    lemma_retain(peers, keep, same_peer());
    let r = retain(peers, keep);
    assert forall|i: int, j: int| 0 <= i < r.len() && 0 <= j < r.len() && i != j implies r[i]
        != r[j] by {
        assert(!same_peer()(r[i], r[j]));
    }
}

/// The first position is unique.
pub proof fn lemma_first_offer_unique(
    offers: Seq<OfferView>,
    tag: ArtifactTag,
    id: Seq<char>,
    i: int,
)
    requires
        is_first_offer(offers, tag, id, i),
    ensures
        has_offer(offers, tag, id),
        first_offer(offers, tag, id) == i,
{
    let j = first_offer(offers, tag, id);
    assert(is_first_offer(offers, tag, id, j));
    if j < i {
        assert(!offer_for(offers[j], tag, id));
    }
    if i < j {
        assert(!offer_for(offers[i], tag, id));
    }
}

/// An artifact that was offered has a first offer.
pub proof fn lemma_first_offer_exists(offers: Seq<OfferView>, tag: ArtifactTag, id: Seq<char>)
    requires
        has_offer(offers, tag, id),
    ensures
        is_first_offer(offers, tag, id, first_offer(offers, tag, id)),
{
    lemma_first_offer_from(offers, tag, id, 0);
}

/// An artifact that was not offered before position `k` and was offered
/// from there on has a first offer.
proof fn lemma_first_offer_from(offers: Seq<OfferView>, tag: ArtifactTag, id: Seq<char>, k: int)
    requires
        0 <= k <= offers.len(),
        forall|j: int| 0 <= j < k ==> !offer_for(#[trigger] offers[j], tag, id),
        has_offer(offers, tag, id),
    ensures
        exists|i: int| is_first_offer(offers, tag, id, i),
    decreases offers.len() - k,
{
    let w = choose|i: int| 0 <= i < offers.len() && offer_for(#[trigger] offers[i], tag, id);
    assert(k <= w);
    if offer_for(offers[k], tag, id) {
        assert(is_first_offer(offers, tag, id, k));
    } else {
        assert forall|j: int| 0 <= j < k + 1 implies !offer_for(#[trigger] offers[j], tag, id) by {}
        lemma_first_offer_from(offers, tag, id, k + 1);
    }
}

/// The position of the first offer of the artifact, if it was offered.
fn find_first_offer(offers: &Vec<Offer>, tag: ArtifactTag, id: &String) -> (found: Option<usize>)
    ensures
        found.is_some() == has_offer(views(offers@), tag, id@),
        found matches Some(i) ==> is_first_offer(views(offers@), tag, id@, i as int) && i
            == first_offer(views(offers@), tag, id@),
{
    let ghost s = views(offers@);
    let mut i: usize = 0;
    while i < offers.len()
        invariant
            i <= offers.len(),
            s == views(offers@),
            forall|j: int| 0 <= j < i ==> !offer_for(#[trigger] s[j], tag, id@),
        decreases offers.len() - i,
    {
        if offers[i].tag == tag && offers[i].id == *id {
            proof {
                assert(is_first_offer(s, tag, id@, i as int));
                lemma_first_offer_unique(s, tag, id@, i as int);
            }
            return Some(i);
        }
        i += 1;
    }
    None
}

/// The position of the offer of the artifact by `peer`, if there is one.
fn find_offer_by(offers: &Vec<Offer>, peer: NodeId, tag: ArtifactTag, id: &String) -> (found:
    Option<usize>)
    ensures
        found.is_some() == offered_by(views(offers@), peer, tag, id@),
        found matches Some(i) ==> i < offers.len() && offers[i as int]@.peer == peer && offer_for(
            offers[i as int]@,
            tag,
            id@,
        ),
{
    let ghost s = views(offers@);
    let mut i: usize = 0;
    while i < offers.len()
        invariant
            i <= offers.len(),
            s == views(offers@),
            forall|j: int|
                0 <= j < i ==> !((#[trigger] s[j]).peer == peer && offer_for(s[j], tag, id@)),
        decreases offers.len() - i,
    {
        if offers[i].peer == peer && offers[i].tag == tag && offers[i].id == *id {
            assert(s[i as int].peer == peer && offer_for(s[i as int], tag, id@));
            return Some(i);
        }
        i += 1;
    }
    None
}

/// The position of the request of the artifact, if it is being requested.
fn find_request(requests: &Vec<Request>, tag: ArtifactTag, id: &String) -> (found: Option<usize>)
    ensures
        found.is_some() == requested(views(requests@), tag, id@),
        found matches Some(i) ==> i < requests.len() && requests[i as int]@.tag == tag
            && requests[i as int]@.id == id@,
{
    let ghost s = views(requests@);
    let mut i: usize = 0;
    while i < requests.len()
        invariant
            i <= requests.len(),
            s == views(requests@),
            forall|j: int| 0 <= j < i ==> !((#[trigger] s[j]).tag == tag && s[j].id == id@),
        decreases requests.len() - i,
    {
        if requests[i].tag == tag && requests[i].id == *id {
            assert(s[i as int].tag == tag && s[i as int].id == id@);
            return Some(i);
        }
        i += 1;
    }
    None
}

/// The peer that delivered the artifact, if that was recorded.
fn find_origin(origins: &Vec<Origin>, tag: ArtifactTag, id: &String) -> (found: Option<NodeId>)
    ensures
        found == origin_of(views(origins@), tag, id@),
{
    let ghost s = views(origins@);
    let mut i: usize = 0;
    while i < origins.len()
        invariant
            i <= origins.len(),
            s == views(origins@),
            forall|j: int| 0 <= j < i ==> !((#[trigger] s[j]).tag == tag && s[j].id == id@),
        decreases origins.len() - i,
    {
        if origins[i].tag == tag && origins[i].id == *id {
            proof {
                assert(is_first_origin(s, tag, id@, i as int));
                let j = choose|j: int| is_first_origin(s, tag, id@, j);
                if j < i {
                    assert(!(s[j].tag == tag && s[j].id == id@));
                }
                if i < j {
                    assert(!(s[i as int].tag == tag && s[i as int].id == id@));
                }
            }
            return Some(origins[i].peer);
        }
        i += 1;
    }
    proof {
        if exists|j: int| is_first_origin(s, tag, id@, j) {
            let j = choose|j: int| is_first_origin(s, tag, id@, j);
            assert(!(s[j].tag == tag && s[j].id == id@));
        }
    }
    None
}

/// The offers that are not for the artifact.
fn offers_not_for(offers: &Vec<Offer>, tag: ArtifactTag, id: &String) -> (kept: Vec<Offer>)
    ensures
        views(kept@) == retain(views(offers@), offer_not_for(tag, id@)),
{
    let ghost s = views(offers@);
    let mut kept: Vec<Offer> = Vec::new();
    let mut i: usize = 0;
    assert(s.take(0) =~= Seq::empty());
    assert(views(kept@) =~= Seq::empty());
    while i < offers.len()
        invariant
            i <= offers.len(),
            s == views(offers@),
            views(kept@) == retain(s.take(i as int), offer_not_for(tag, id@)),
        decreases offers.len() - i,
    {
        proof {
            assert(s.take(i + 1).drop_last() =~= s.take(i as int));
            assert(s.take(i + 1).last() == s[i as int]);
        }
        if !(offers[i].tag == tag && offers[i].id == *id) {
            let ghost before = views(kept@);
            kept.push(offers[i].clone());
            assert(views(kept@) =~= before.push(s[i as int]));
        }
        i += 1;
    }
    assert(s.take(i as int) =~= s);
    kept
}

/// The offers but the one of the artifact by `peer`.
fn offers_not_by(offers: &Vec<Offer>, peer: NodeId, tag: ArtifactTag, id: &String) -> (kept: Vec<
    Offer,
>)
    ensures
        views(kept@) == retain(views(offers@), offer_not_by(peer, tag, id@)),
{
    let ghost s = views(offers@);
    let mut kept: Vec<Offer> = Vec::new();
    let mut i: usize = 0;
    assert(s.take(0) =~= Seq::empty());
    assert(views(kept@) =~= Seq::empty());
    while i < offers.len()
        invariant
            i <= offers.len(),
            s == views(offers@),
            views(kept@) == retain(s.take(i as int), offer_not_by(peer, tag, id@)),
        decreases offers.len() - i,
    {
        proof {
            assert(s.take(i + 1).drop_last() =~= s.take(i as int));
            assert(s.take(i + 1).last() == s[i as int]);
        }
        if !(offers[i].peer == peer && offers[i].tag == tag && offers[i].id == *id) {
            let ghost before = views(kept@);
            kept.push(offers[i].clone());
            assert(views(kept@) =~= before.push(s[i as int]));
        }
        i += 1;
    }
    assert(s.take(i as int) =~= s);
    kept
}

/// The requests that are not for the artifact.
fn requests_not_for(requests: &Vec<Request>, tag: ArtifactTag, id: &String) -> (kept: Vec<Request>)
    ensures
        views(kept@) == retain(views(requests@), request_not_for(tag, id@)),
{
    let ghost s = views(requests@);
    let mut kept: Vec<Request> = Vec::new();
    let mut i: usize = 0;
    assert(s.take(0) =~= Seq::empty());
    assert(views(kept@) =~= Seq::empty());
    while i < requests.len()
        invariant
            i <= requests.len(),
            s == views(requests@),
            views(kept@) == retain(s.take(i as int), request_not_for(tag, id@)),
        decreases requests.len() - i,
    {
        proof {
            assert(s.take(i + 1).drop_last() =~= s.take(i as int));
            assert(s.take(i + 1).last() == s[i as int]);
        }
        if !(requests[i].tag == tag && requests[i].id == *id) {
            let ghost before = views(kept@);
            kept.push(requests[i].clone());
            assert(views(kept@) =~= before.push(s[i as int]));
        }
        i += 1;
    }
    assert(s.take(i as int) =~= s);
    kept
}

/// The origins that are not of the artifact.
fn origins_not_of(origins: &Vec<Origin>, tag: ArtifactTag, id: &String) -> (kept: Vec<Origin>)
    ensures
        views(kept@) == retain(views(origins@), origin_not_of(tag, id@)),
{
    let ghost s = views(origins@);
    let mut kept: Vec<Origin> = Vec::new();
    let mut i: usize = 0;
    assert(s.take(0) =~= Seq::empty());
    assert(views(kept@) =~= Seq::empty());
    while i < origins.len()
        invariant
            i <= origins.len(),
            s == views(origins@),
            views(kept@) == retain(s.take(i as int), origin_not_of(tag, id@)),
        decreases origins.len() - i,
    {
        proof {
            assert(s.take(i + 1).drop_last() =~= s.take(i as int));
            assert(s.take(i + 1).last() == s[i as int]);
        }
        if !(origins[i].tag == tag && origins[i].id == *id) {
            let ghost before = views(kept@);
            let origin = Origin {
                peer: origins[i].peer,
                tag: origins[i].tag,
                id: origins[i].id.clone(),
            };
            kept.push(origin);
            assert(views(kept@) =~= before.push(s[i as int]));
        }
        i += 1;
    }
    assert(s.take(i as int) =~= s);
    kept
}

/// The peers but `peer`.
fn peers_not(peers: &Vec<NodeId>, peer: NodeId) -> (kept: Vec<NodeId>)
    ensures
        kept@ == retain(peers@, peer_not(peer)),
{
    let mut kept: Vec<NodeId> = Vec::new();
    let mut i: usize = 0;
    assert(peers@.take(0) =~= Seq::empty());
    while i < peers.len()
        invariant
            i <= peers.len(),
            kept@ == retain(peers@.take(i as int), peer_not(peer)),
        decreases peers.len() - i,
    {
        proof {
            assert(peers@.take(i + 1).drop_last() =~= peers@.take(i as int));
            assert(peers@.take(i + 1).last() == peers@[i as int]);
        }
        if peers[i] != peer {
            kept.push(peers[i]);
        }
        i += 1;
    }
    assert(peers@.take(i as int) =~= peers@);
    kept
}

/// The state of the gossip layer, as a mathematical value.
pub ghost struct GossipView {
    /// The connected peers, in order of connection.
    pub peers: Seq<NodeId>,
    /// The offers that were heard, the first heard first.
    pub offers: Seq<OfferView>,
    /// The requests that are outstanding.
    pub requests: Seq<RequestView>,
    /// Who delivered the artifacts that are not yet announced.
    pub origins: Seq<OriginView>,
    /// After how many milliseconds a request times out.
    pub timeout_ms: u64,
    /// Whether the layer was stopped: then it sends nothing.
    pub stopped: bool,
}

impl GossipView {
    /// The state's invariant: an artifact is requested from at most one
    /// peer at a time, and no peer and no offer is kept twice.
    pub open spec fn wf(self) -> bool {
        &&& distinct_peers(self.peers)
        &&& distinct_offers(self.offers)
        &&& one_request_each(self.requests)
    }

    /// The offers after `peer` announced `advert`.
    pub open spec fn offers_with(self, tag: ArtifactTag, advert: AdvertView, peer: NodeId) -> Seq<
        OfferView,
    > {
        if offered_by(self.offers, peer, tag, advert.id) {
            self.offers
        } else {
            self.offers.push(
                OfferView { peer, tag, id: advert.id, integrity_hash: advert.integrity_hash },
            )
        }
    }

    /// The request that an advert gives rise to: none if the layer was
    /// stopped, the artifact is known locally or it is already being
    /// requested; else a request to the peer that offered it first.
    pub open spec fn advert_request(
        self,
        tag: ArtifactTag,
        advert: AdvertView,
        peer: NodeId,
        known_locally: bool,
        now: u64,
    ) -> Option<RequestView> {
        if self.stopped || known_locally || requested(self.requests, tag, advert.id) {
            None
        } else {
            let offers = self.offers_with(tag, advert, peer);
            let first = offers[first_offer(offers, tag, advert.id)];
            Some(
                RequestView {
                    peer: first.peer,
                    tag,
                    id: advert.id,
                    integrity_hash: first.integrity_hash,
                    requested_at: now,
                },
            )
        }
    }

    /// The state after `peer` announced `advert`.
    pub open spec fn on_advert(
        self,
        tag: ArtifactTag,
        advert: AdvertView,
        peer: NodeId,
        known_locally: bool,
        now: u64,
    ) -> GossipView {
        if self.stopped || known_locally {
            self
        } else {
            GossipView {
                offers: self.offers_with(tag, advert, peer),
                requests: match self.advert_request(tag, advert, peer, known_locally, now) {
                    Some(r) => self.requests.push(r),
                    None => self.requests,
                },
                ..self
            }
        }
    }

    /// The state after `peer` was disconnected.
    pub open spec fn remove_peer(self, peer: NodeId) -> GossipView {
        GossipView { peers: retain(self.peers, peer_not(peer)), ..self }
    }

    /// The state after all that concerns the artifact was forgotten.
    pub open spec fn forget(self, tag: ArtifactTag, id: Seq<char>) -> GossipView {
        GossipView {
            offers: retain(self.offers, offer_not_for(tag, id)),
            requests: retain(self.requests, request_not_for(tag, id)),
            origins: retain(self.origins, origin_not_of(tag, id)),
            ..self
        }
    }

    /// The state after `peer` delivered the artifact: nobody is asked for
    /// it any more, and the peer is recorded as its origin unless an
    /// earlier delivery was. A stopped layer takes nothing in.
    pub open spec fn on_artifact(self, tag: ArtifactTag, id: Seq<char>, peer: NodeId) -> GossipView {
        if self.stopped {
            self
        } else {
            GossipView {
                offers: retain(self.offers, offer_not_for(tag, id)),
                requests: retain(self.requests, request_not_for(tag, id)),
                origins: if origin_of(self.origins, tag, id).is_some() {
                    self.origins
                } else {
                    self.origins.push(OriginView { peer, tag, id })
                },
                ..self
            }
        }
    }

    /// The peers to whom a validated artifact is announced: every
    /// connected peer but the one that delivered it; nobody after the
    /// layer was stopped.
    pub open spec fn recipients(self, tag: ArtifactTag, id: Seq<char>) -> Seq<NodeId> {
        if self.stopped {
            Seq::empty()
        } else {
            match origin_of(self.origins, tag, id) {
                Some(origin) => retain(self.peers, peer_not(origin)),
                None => self.peers,
            }
        }
    }

    /// The state after a validated artifact was announced: its origin is
    /// forgotten.
    pub open spec fn broadcast_advert(self, tag: ArtifactTag, id: Seq<char>) -> GossipView {
        if self.stopped {
            self
        } else {
            GossipView { origins: retain(self.origins, origin_not_of(tag, id)), ..self }
        }
    }

    /// The timer's pass over the first `n` requests. A request that has
    /// not timed out stays. The peer of one that has is no longer counted
    /// among those that offer the artifact; the artifact is requested anew
    /// from the first peer that still offers it, and from nobody if none
    /// does.
    pub open spec fn sweep(self, now: u64, n: nat) -> Sweep
        decreases n,
    {
        if n == 0 {
            Sweep { offers: self.offers, requests: Seq::empty(), retries: Seq::empty() }
        } else {
            let prev = self.sweep(now, (n - 1) as nat);
            let r = self.requests[n - 1];
            if !timed_out(r.requested_at, now, self.timeout_ms) {
                Sweep { requests: prev.requests.push(r), ..prev }
            } else {
                let offers = retain(prev.offers, offer_not_by(r.peer, r.tag, r.id));
                if has_offer(offers, r.tag, r.id) {
                    let first = offers[first_offer(offers, r.tag, r.id)];
                    let retry = RequestView {
                        peer: first.peer,
                        tag: r.tag,
                        id: r.id,
                        integrity_hash: first.integrity_hash,
                        requested_at: now,
                    };
                    Sweep {
                        offers,
                        requests: prev.requests.push(retry),
                        retries: prev.retries.push(retry),
                    }
                } else {
                    Sweep { offers, ..prev }
                }
            }
        }
    }

    /// The state after the timer's pass at `now`. A stopped layer does
    /// nothing.
    pub open spec fn on_timer(self, now: u64) -> GossipView {
        if self.stopped {
            self
        } else {
            let swept = self.sweep(now, self.requests.len());
            GossipView { offers: swept.offers, requests: swept.requests, ..self }
        }
    }

    /// The requests that the timer's pass at `now` makes anew.
    pub open spec fn timer_retries(self, now: u64) -> Seq<RequestView> {
        if self.stopped {
            Seq::empty()
        } else {
            self.sweep(now, self.requests.len()).retries
        }
    }

    /// Whether one of the first `n` requests is for the artifact.
    pub open spec fn requested_among(self, n: nat, tag: ArtifactTag, id: Seq<char>) -> bool {
        exists|j: int| 0 <= j < n && (#[trigger] self.requests[j]).tag == tag && self.requests[j].id == id
    }

    /// The timer's pass keeps offers distinct and each artifact requested
    /// from at most one peer, and it requests no artifact that was not
    /// being requested.
    pub proof fn lemma_sweep(self, now: u64, n: nat)
        requires
            self.wf(),
            n <= self.requests.len(),
        ensures
            distinct_offers(self.sweep(now, n).offers),
            one_request_each(self.sweep(now, n).requests),
            forall|k: int|
                0 <= k < self.sweep(now, n).requests.len() ==> self.requested_among(
                    n,
                    (#[trigger] self.sweep(now, n).requests[k]).tag,
                    self.sweep(now, n).requests[k].id,
                ),
        decreases n,
    {
        if n > 0 {
            let m = (n - 1) as nat;
            self.lemma_sweep(now, m);
            let prev = self.sweep(now, m);
            let cur = self.sweep(now, n);
            let r = self.requests[n - 1];
            lemma_retain_offers(prev.offers, offer_not_by(r.peer, r.tag, r.id));
            assert forall|k: int| 0 <= k < prev.requests.len() implies !((
            #[trigger] prev.requests[k]).tag == r.tag && prev.requests[k].id == r.id) by {
                assert(self.requested_among(m, prev.requests[k].tag, prev.requests[k].id));
                let j = choose|j: int|
                    0 <= j < m && (#[trigger] self.requests[j]).tag == prev.requests[k].tag
                        && self.requests[j].id == prev.requests[k].id;
                assert(!(self.requests[j].tag == self.requests[n - 1].tag && self.requests[j].id
                    == self.requests[n - 1].id));
            }
            assert forall|k: int| 0 <= k < cur.requests.len() implies self.requested_among(
                n,
                (#[trigger] cur.requests[k]).tag,
                cur.requests[k].id,
            ) by {
                if k < prev.requests.len() {
                    assert(cur.requests[k] == prev.requests[k]);
                    assert(self.requested_among(m, prev.requests[k].tag, prev.requests[k].id));
                    let j = choose|j: int|
                        0 <= j < m && (#[trigger] self.requests[j]).tag == prev.requests[k].tag
                            && self.requests[j].id == prev.requests[k].id;
                    assert(self.requests[j].tag == cur.requests[k].tag);
                } else {
                    assert(self.requests[n - 1].tag == cur.requests[k].tag);
                }
            }
            assert forall|i: int, j: int|
                0 <= i < cur.requests.len() && 0 <= j < cur.requests.len() && i != j implies !((
            #[trigger] cur.requests[i]).tag == (#[trigger] cur.requests[j]).tag
                && cur.requests[i].id == cur.requests[j].id) by {
                if i < prev.requests.len() {
                    assert(cur.requests[i] == prev.requests[i]);
                }
                if j < prev.requests.len() {
                    assert(cur.requests[j] == prev.requests[j]);
                }
            }
        }
    }

    /// Whether `retry` replaces one of the first `n` requests: one for the
    /// same artifact that has timed out at `now`, and that went to another
    /// peer than `retry` goes to.
    pub open spec fn replaces_timed_out(self, now: u64, n: nat, retry: RequestView) -> bool {
        exists|j: int|
            0 <= j < n && (#[trigger] self.requests[j]).tag == retry.tag && self.requests[j].id
                == retry.id && self.requests[j].peer != retry.peer && timed_out(
                self.requests[j].requested_at,
                now,
                self.timeout_ms,
            )
    }

    /// Every request that the timer makes anew replaces a request that
    /// timed out, and goes to another peer than that one: to a peer that
    /// offered the artifact. The timer adds no offer.
    pub proof fn lemma_retries_go_elsewhere(self, now: u64, n: nat)
        requires
            self.wf(),
            n <= self.requests.len(),
        ensures
            forall|k: int|
                0 <= k < self.sweep(now, n).offers.len() ==> self.offers.contains(
                    #[trigger] self.sweep(now, n).offers[k],
                ),
            forall|k: int|
                0 <= k < self.sweep(now, n).retries.len() ==> {
                    let retry = #[trigger] self.sweep(now, n).retries[k];
                    &&& self.replaces_timed_out(now, n, retry)
                    &&& offered_by(self.offers, retry.peer, retry.tag, retry.id)
                    &&& retry.requested_at == now
                },
        decreases n,
    {
        if n > 0 {
            let m = (n - 1) as nat;
            self.lemma_retries_go_elsewhere(now, m);
            self.lemma_sweep(now, m);
            let prev = self.sweep(now, m);
            let cur = self.sweep(now, n);
            let r = self.requests[n - 1];
            let keep = offer_not_by(r.peer, r.tag, r.id);
            lemma_retain(prev.offers, keep, same_offer());
            assert forall|k: int| 0 <= k < cur.offers.len() implies self.offers.contains(
                #[trigger] cur.offers[k],
            ) by {
                if timed_out(r.requested_at, now, self.timeout_ms) {
                    let o = cur.offers[k];
                    assert(prev.offers.contains(o));
                    let i = choose|i: int| 0 <= i < prev.offers.len() && prev.offers[i] == o;
                    assert(self.offers.contains(prev.offers[i]));
                }
            }
            assert forall|k: int| 0 <= k < cur.retries.len() implies {
                let retry = #[trigger] cur.retries[k];
                &&& self.replaces_timed_out(now, n, retry)
                &&& offered_by(self.offers, retry.peer, retry.tag, retry.id)
                &&& retry.requested_at == now
            } by {
                let retry = cur.retries[k];
                if k < prev.retries.len() {
                    assert(retry == prev.retries[k]);
                    assert(self.replaces_timed_out(now, m, retry));
                    let j = choose|j: int|
                        0 <= j < m && (#[trigger] self.requests[j]).tag == retry.tag
                            && self.requests[j].id == retry.id && self.requests[j].peer
                            != retry.peer && timed_out(
                            self.requests[j].requested_at,
                            now,
                            self.timeout_ms,
                        );
                    assert(self.requests[j].tag == retry.tag);
                } else {
                    let offers = retain(prev.offers, keep);
                    lemma_first_offer_exists(offers, r.tag, r.id);
                    let f = first_offer(offers, r.tag, r.id);
                    let first = offers[f];
                    assert(keep(first));
                    assert(self.offers.contains(cur.offers[f]));
                    let i = choose|i: int| 0 <= i < self.offers.len() && self.offers[i] == first;
                    assert(self.offers[i].peer == retry.peer && offer_for(
                        self.offers[i],
                        retry.tag,
                        retry.id,
                    ));
                    assert(self.requests[n - 1].tag == retry.tag);
                }
            }
        }
    }

    /// The timer's pass keeps the invariant.
    pub proof fn lemma_on_timer_wf(self, now: u64)
        requires
            self.wf(),
        ensures
            self.on_timer(now).wf(),
    {
        self.lemma_sweep(now, self.requests.len());
    }

    /// A delivery, a forgetting and a disconnection keep the invariant.
    pub proof fn lemma_retained_wf(self, tag: ArtifactTag, id: Seq<char>, peer: NodeId)
        requires
            self.wf(),
        ensures
            self.on_artifact(tag, id, peer).wf(),
            self.forget(tag, id).wf(),
            self.remove_peer(peer).wf(),
            self.broadcast_advert(tag, id).wf(),
    {
        lemma_retain_offers(self.offers, offer_not_for(tag, id));
        lemma_retain_requests(self.requests, request_not_for(tag, id));
        lemma_retain_peers(self.peers, peer_not(peer));
    }

    /// The state after the adverts were announced, in order.
    pub open spec fn announced(self, tag: ArtifactTag, adverts: Seq<AdvertView>) -> GossipView
        decreases adverts.len(),
    {
        if adverts.len() == 0 {
            self
        } else {
            self.announced(tag, adverts.drop_last()).broadcast_advert(tag, adverts.last().id)
        }
    }

    /// Each of the adverts with the peers it goes to, in order.
    pub open spec fn sends(self, tag: ArtifactTag, adverts: Seq<AdvertView>) -> Seq<AdvertSendView>
        decreases adverts.len(),
    {
        if adverts.len() == 0 {
            Seq::empty()
        } else {
            self.sends(tag, adverts.drop_last()).push(
                AdvertSendView {
                    advert: adverts.last(),
                    recipients: self.announced(tag, adverts.drop_last()).recipients(
                        tag,
                        adverts.last().id,
                    ),
                },
            )
        }
    }

    /// The state after the artifacts were forgotten, in order.
    pub open spec fn forgotten(self, tag: ArtifactTag, ids: Seq<Seq<char>>) -> GossipView
        decreases ids.len(),
    {
        if ids.len() == 0 {
            self
        } else {
            self.forgotten(tag, ids.drop_last()).forget(tag, ids.last())
        }
    }

    /// The state after the rejected artifacts among the diagnostics were
    /// forgotten, in order.
    pub open spec fn rejected_forgotten(
        self,
        tag: ArtifactTag,
        diagnostics: Seq<DiagnosticView>,
    ) -> GossipView
        decreases diagnostics.len(),
    {
        if diagnostics.len() == 0 {
            self
        } else {
            let before = self.rejected_forgotten(tag, diagnostics.drop_last());
            match diagnostics.last() {
                DiagnosticView::ValidationRejected { id, reason } => before.forget(tag, id),
                _ => before,
            }
        }
    }

    /// The state after the report of a pass of the kind `tag` was taken in:
    /// the adverts are announced, and what was purged or rejected is
    /// forgotten.
    pub open spec fn disseminate(self, tag: ArtifactTag, report: PassReportView) -> GossipView {
        self.announced(tag, report.adverts).forgotten(tag, report.purges).rejected_forgotten(
            tag,
            report.diagnostics,
        )
    }

    /// Taking in a report keeps the invariant.
    pub proof fn lemma_disseminate_wf(self, tag: ArtifactTag, report: PassReportView)
        requires
            self.wf(),
        ensures
            self.disseminate(tag, report).wf(),
            self.disseminate(tag, report).stopped == self.stopped,
    {
        self.lemma_announced_wf(tag, report.adverts);
        let a = self.announced(tag, report.adverts);
        a.lemma_forgotten_wf(tag, report.purges);
        a.forgotten(tag, report.purges).lemma_rejected_forgotten_wf(tag, report.diagnostics);
    }

    /// Announcing adverts keeps the invariant.
    pub proof fn lemma_announced_wf(self, tag: ArtifactTag, adverts: Seq<AdvertView>)
        requires
            self.wf(),
        ensures
            self.announced(tag, adverts).wf(),
            self.announced(tag, adverts).stopped == self.stopped,
        decreases adverts.len(),
    {
        if adverts.len() > 0 {
            self.lemma_announced_wf(tag, adverts.drop_last());
            self.announced(tag, adverts.drop_last()).lemma_retained_wf(tag, adverts.last().id, 0);
        }
    }

    /// Forgetting artifacts keeps the invariant.
    pub proof fn lemma_forgotten_wf(self, tag: ArtifactTag, ids: Seq<Seq<char>>)
        requires
            self.wf(),
        ensures
            self.forgotten(tag, ids).wf(),
            self.forgotten(tag, ids).stopped == self.stopped,
        decreases ids.len(),
    {
        if ids.len() > 0 {
            self.lemma_forgotten_wf(tag, ids.drop_last());
            self.forgotten(tag, ids.drop_last()).lemma_retained_wf(tag, ids.last(), 0);
        }
    }

    /// Forgetting rejected artifacts keeps the invariant.
    pub proof fn lemma_rejected_forgotten_wf(
        self,
        tag: ArtifactTag,
        diagnostics: Seq<DiagnosticView>,
    )
        requires
            self.wf(),
        ensures
            self.rejected_forgotten(tag, diagnostics).wf(),
            self.rejected_forgotten(tag, diagnostics).stopped == self.stopped,
        decreases diagnostics.len(),
    {
        if diagnostics.len() > 0 {
            self.lemma_rejected_forgotten_wf(tag, diagnostics.drop_last());
            let before = self.rejected_forgotten(tag, diagnostics.drop_last());
            match diagnostics.last() {
                DiagnosticView::ValidationRejected { id, reason } => {
                    before.lemma_retained_wf(tag, id, 0);
                },
                _ => {},
            }
        }
    }

    /// A stopped layer sends nothing: whatever it hears, it asks nobody for
    /// an artifact, makes no request anew and announces to nobody.
    pub proof fn lemma_stopped_sends_nothing(
        self,
        tag: ArtifactTag,
        advert: AdvertView,
        peer: NodeId,
        known_locally: bool,
        now: u64,
    )
        requires
            self.stopped,
        ensures
            self.advert_request(tag, advert, peer, known_locally, now).is_none(),
            self.timer_retries(now).len() == 0,
            self.recipients(tag, advert.id).len() == 0,
            self.on_advert(tag, advert, peer, known_locally, now) == self,
            self.on_timer(now) == self,
            self.on_artifact(tag, advert.id, peer) == self,
            self.broadcast_advert(tag, advert.id) == self,
    {
    }

    /// Hearing an advert keeps the invariant.
    pub proof fn lemma_on_advert_wf(
        self,
        tag: ArtifactTag,
        advert: AdvertView,
        peer: NodeId,
        known_locally: bool,
        now: u64,
    )
        requires
            self.wf(),
        ensures
            self.on_advert(tag, advert, peer, known_locally, now).wf(),
    {
        let next = self.on_advert(tag, advert, peer, known_locally, now);
        if !(self.stopped || known_locally) {
            if !offered_by(self.offers, peer, tag, advert.id) {
                let o = OfferView {
                    peer,
                    tag,
                    id: advert.id,
                    integrity_hash: advert.integrity_hash,
                };
                let p = self.offers.push(o);
                assert forall|i: int, j: int|
                    0 <= i < p.len() && 0 <= j < p.len() && i != j implies !((#[trigger] p[i]).peer
                    == (#[trigger] p[j]).peer && offer_for(p[i], p[j].tag, p[j].id)) by {
                    if i < self.offers.len() {
                        assert(p[i] == self.offers[i]);
                    }
                    if j < self.offers.len() {
                        assert(p[j] == self.offers[j]);
                    }
                }
            }
            match self.advert_request(tag, advert, peer, known_locally, now) {
                Some(r) => {
                    let q = self.requests.push(r);
                    assert forall|i: int, j: int|
                        0 <= i < q.len() && 0 <= j < q.len() && i != j implies !((
                    #[trigger] q[i]).tag == (#[trigger] q[j]).tag && q[i].id == q[j].id) by {
                        if i < self.requests.len() {
                            assert(q[i] == self.requests[i]);
                        }
                        if j < self.requests.len() {
                            assert(q[j] == self.requests[j]);
                        }
                    }
                },
                None => {},
            }
        }
    }
}

/// The bookkeeping of the gossip layer.
pub struct Gossip {
    peers: Vec<NodeId>,
    offers: Vec<Offer>,
    requests: Vec<Request>,
    origins: Vec<Origin>,
    timeout_ms: u64,
    stopped: bool,
}

impl View for Gossip {
    type V = GossipView;

    closed spec fn view(&self) -> GossipView {
        GossipView {
            peers: self.peers@,
            offers: views(self.offers@),
            requests: views(self.requests@),
            origins: views(self.origins@),
            timeout_ms: self.timeout_ms,
            stopped: self.stopped,
        }
    }
}

impl Gossip {
    /// The layer's invariant.
    pub open spec fn wf(&self) -> bool {
        self@.wf()
    }

    /// A gossip layer without peers, in which a request times out after
    /// `timeout_ms` milliseconds.
    pub fn new(timeout_ms: u64) -> (gossip: Gossip)
        ensures
            gossip.wf(),
            gossip@ == (GossipView {
                peers: Seq::empty(),
                offers: Seq::empty(),
                requests: Seq::empty(),
                origins: Seq::empty(),
                timeout_ms,
                stopped: false,
            }),
    {
        let gossip = Gossip {
            peers: Vec::new(),
            offers: Vec::new(),
            requests: Vec::new(),
            origins: Vec::new(),
            timeout_ms,
            stopped: false,
        };
        assert(gossip@.offers =~= Seq::empty());
        assert(gossip@.requests =~= Seq::empty());
        assert(gossip@.origins =~= Seq::empty());
        gossip
    }

    /// Whether the layer was stopped.
    pub fn is_stopped(&self) -> (b: bool)
        ensures
            b == self@.stopped,
    {
        self.stopped
    }

    /// Stops the layer: from now on it asks for nothing and announces
    /// nothing, whatever still waits.
    pub fn stop(&mut self)
        ensures
            final(self)@ == (GossipView { stopped: true, ..old(self)@ }),
    {
        self.stopped = true;
    }

    /// Whether the peer is connected.
    pub fn is_connected(&self, peer: NodeId) -> (b: bool)
        ensures
            b == self@.peers.contains(peer),
    {
        let mut i: usize = 0;
        while i < self.peers.len()
            invariant
                i <= self.peers.len(),
                forall|j: int| 0 <= j < i ==> self.peers@[j] != peer,
            decreases self.peers.len() - i,
        {
            if self.peers[i] == peer {
                return true;
            }
            i += 1;
        }
        false
    }

    /// The peer from which the artifact is being requested, if it is.
    pub fn requested_from(&self, tag: ArtifactTag, id: &String) -> (peer: Option<NodeId>)
        ensures
            peer.is_some() == requested(self@.requests, tag, id@),
            peer matches Some(p) ==> exists|i: int|
                0 <= i < self@.requests.len() && (#[trigger] self@.requests[i]).tag == tag
                    && self@.requests[i].id == id@ && self@.requests[i].peer == p,
    {
        match find_request(&self.requests, tag, id) {
            Some(i) => {
                assert(views(self.requests@)[i as int].peer == self.requests[i as int].peer);
                Some(self.requests[i].peer)
            },
            None => None,
        }
    }

    /// Number of requests that are outstanding.
    pub fn pending_requests(&self) -> (n: usize)
        ensures
            n == self@.requests.len(),
    {
        self.requests.len()
    }

    /// Connects a peer. Returns whether it was not connected before.
    pub fn add_peer(&mut self, peer: NodeId) -> (added: bool)
        requires
            old(self).wf(),
        ensures
            final(self).wf(),
            added == !old(self)@.peers.contains(peer),
            final(self)@ == (GossipView {
                peers: if added {
                    old(self)@.peers.push(peer)
                } else {
                    old(self)@.peers
                },
                ..old(self)@
            }),
    {
        if self.is_connected(peer) {
            false
        } else {
            self.peers.push(peer);
            true
        }
    }

    /// Hears an advert of `peer` and decides whether to request the
    /// artifact. `known_locally` says whether the kind's pool holds the
    /// artifact already; `now` is the time in milliseconds.
    ///
    /// The offer is remembered. A request goes out only if the artifact is
    /// not known and not being requested; it goes to the peer that offered
    /// the artifact first.
    pub fn on_advert(
        &mut self,
        tag: ArtifactTag,
        advert: &Advert,
        peer: NodeId,
        known_locally: bool,
        now: u64,
    ) -> (request: Option<Request>)
        requires
            old(self).wf(),
        ensures
            final(self).wf(),
            final(self)@ == old(self)@.on_advert(tag, advert@, peer, known_locally, now),
            request.is_some() == old(self)@.advert_request(
                tag,
                advert@,
                peer,
                known_locally,
                now,
            ).is_some(),
            request matches Some(r) ==> Some(r@) == old(self)@.advert_request(
                tag,
                advert@,
                peer,
                known_locally,
                now,
            ),
    {
        proof {
            self@.lemma_on_advert_wf(tag, advert@, peer, known_locally, now);
        }
        if self.stopped || known_locally {
            return None;
        }
        if find_offer_by(&self.offers, peer, tag, &advert.id).is_none() {
            let ghost before = views(self.offers@);
            let offer = Offer {
                peer,
                tag,
                id: advert.id.clone(),
                integrity_hash: advert.integrity_hash.clone(),
            };
            self.offers.push(offer);
            assert(views(self.offers@) =~= before.push(offer@));
        }
        if find_request(&self.requests, tag, &advert.id).is_some() {
            return None;
        }
        let ghost offers = views(self.offers@);
        proof {
            let last = offers.len() - 1;
            if !offered_by(old(self)@.offers, peer, tag, advert@.id) {
                assert(offer_for(offers[last], tag, advert@.id));
            } else {
                let k = choose|k: int|
                    0 <= k < offers.len() && (#[trigger] offers[k]).peer == peer && offer_for(
                        offers[k],
                        tag,
                        advert@.id,
                    );
                assert(offer_for(offers[k], tag, advert@.id));
            }
            assert(has_offer(offers, tag, advert@.id));
        }
        let first = find_first_offer(&self.offers, tag, &advert.id).unwrap();
        let request = Request {
            peer: self.offers[first].peer,
            tag,
            id: advert.id.clone(),
            integrity_hash: self.offers[first].integrity_hash.clone(),
            requested_at: now,
        };
        let ghost before = views(self.requests@);
        self.requests.push(request.clone());
        assert(views(self.requests@) =~= before.push(request@));
        Some(request)
    }
    /// Disconnects a peer: nothing is announced to it any more.
    pub fn remove_peer(&mut self, peer: NodeId)
        requires
            old(self).wf(),
        ensures
            final(self).wf(),
            final(self)@ == old(self)@.remove_peer(peer),
    {
        proof {
            self@.lemma_retained_wf(ArtifactTag::IngressArtifact, Seq::empty(), peer);
        }
        self.peers = peers_not(&self.peers, peer);
    }

    /// Forgets the offers, the request and the origin of an artifact: for
    /// one that was purged or rejected.
    pub fn forget(&mut self, tag: ArtifactTag, id: &String)
        requires
            old(self).wf(),
        ensures
            final(self).wf(),
            final(self)@ == old(self)@.forget(tag, id@),
    {
        proof {
            self@.lemma_retained_wf(tag, id@, 0);
        }
        self.offers = offers_not_for(&self.offers, tag, id);
        self.requests = requests_not_for(&self.requests, tag, id);
        self.origins = origins_not_of(&self.origins, tag, id);
    }

    /// Takes note that `peer` delivered the artifact, and says whether the
    /// artifact is to be forwarded to the artifact manager: it is, unless
    /// the layer was stopped.
    pub fn on_artifact(&mut self, tag: ArtifactTag, id: &String, peer: NodeId) -> (forward: bool)
        requires
            old(self).wf(),
        ensures
            final(self).wf(),
            final(self)@ == old(self)@.on_artifact(tag, id@, peer),
            forward == !old(self)@.stopped,
    {
        proof {
            self@.lemma_retained_wf(tag, id@, peer);
        }
        if self.stopped {
            return false;
        }
        self.offers = offers_not_for(&self.offers, tag, id);
        self.requests = requests_not_for(&self.requests, tag, id);
        if find_origin(&self.origins, tag, id).is_none() {
            let ghost before = views(self.origins@);
            let origin = Origin { peer, tag, id: id.clone() };
            self.origins.push(origin);
            assert(views(self.origins@) =~= before.push(origin@));
        }
        true
    }

    /// Says to which peers the advert of a validated artifact is to be
    /// sent: to every connected peer but the one that delivered the
    /// artifact, and to nobody after the layer was stopped.
    pub fn broadcast_advert(&mut self, tag: ArtifactTag, advert: &Advert) -> (recipients: Vec<
        NodeId,
    >)
        requires
            old(self).wf(),
        ensures
            final(self).wf(),
            final(self)@ == old(self)@.broadcast_advert(tag, advert@.id),
            recipients@ == old(self)@.recipients(tag, advert@.id),
    {
        proof {
            self@.lemma_retained_wf(tag, advert@.id, 0);
        }
        if self.stopped {
            return Vec::new();
        }
        let recipients = match find_origin(&self.origins, tag, &advert.id) {
            Some(origin) => peers_not(&self.peers, origin),
            None => vstd::slice::slice_to_vec(self.peers.as_slice()),
        };
        self.origins = origins_not_of(&self.origins, tag, &advert.id);
        recipients
    }

    /// The periodic maintenance at time `now`, in milliseconds. A request
    /// that has waited for the timeout is given up: its peer no longer
    /// counts as offering the artifact, and the artifact is requested from
    /// the next peer that offered it, if there is one. Returns the new
    /// requests in the order of the requests they replace.
    pub fn on_timer(&mut self, now: u64) -> (retries: Vec<Request>)
        requires
            old(self).wf(),
        ensures
            final(self).wf(),
            final(self)@ == old(self)@.on_timer(now),
            views(retries@) == old(self)@.timer_retries(now),
    {
        proof {
            self@.lemma_on_timer_wf(now);
        }
        let mut retries: Vec<Request> = Vec::new();
        assert(views(retries@) =~= Seq::empty());
        if self.stopped {
            return retries;
        }
        let mut kept: Vec<Request> = Vec::new();
        assert(views(kept@) =~= Seq::empty());
        let mut i: usize = 0;
        while i < self.requests.len()
            invariant
                i <= self.requests.len(),
                self.requests == old(self).requests,
                self.peers == old(self).peers,
                self.origins == old(self).origins,
                self.timeout_ms == old(self).timeout_ms,
                self.stopped == old(self).stopped,
                views(self.offers@) == old(self)@.sweep(now, i as nat).offers,
                views(kept@) == old(self)@.sweep(now, i as nat).requests,
                views(retries@) == old(self)@.sweep(now, i as nat).retries,
            decreases self.requests.len() - i,
        {
            let ghost kept_before = views(kept@);
            let ghost retries_before = views(retries@);
            if now >= self.requests[i].requested_at && now - self.requests[i].requested_at
                >= self.timeout_ms {
                let offers = offers_not_by(
                    &self.offers,
                    self.requests[i].peer,
                    self.requests[i].tag,
                    &self.requests[i].id,
                );
                match find_first_offer(&offers, self.requests[i].tag, &self.requests[i].id) {
                    Some(first) => {
                        let retry = Request {
                            peer: offers[first].peer,
                            tag: self.requests[i].tag,
                            id: self.requests[i].id.clone(),
                            integrity_hash: offers[first].integrity_hash.clone(),
                            requested_at: now,
                        };
                        kept.push(retry.clone());
                        retries.push(retry);
                        assert(views(kept@) =~= kept_before.push(retry@));
                        assert(views(retries@) =~= retries_before.push(retry@));
                    },
                    None => {},
                }
                self.offers = offers;
            } else {
                kept.push(self.requests[i].clone());
                assert(views(kept@) =~= kept_before.push(self.requests[i as int]@));
            }
            i += 1;
        }
        self.requests = kept;
        retries
    }
    /// Takes in the report of a pass of the kind `tag`: says to whom each
    /// advert of the report is to be sent, and forgets the artifacts that
    /// the pass purged or rejected.
    pub fn on_pass_report(&mut self, tag: ArtifactTag, report: &PassReport) -> (sends: Vec<
        AdvertSend,
    >)
        requires
            old(self).wf(),
        ensures
            final(self).wf(),
            final(self)@ == old(self)@.disseminate(tag, report@),
            final(self)@.stopped == old(self)@.stopped,
            views(sends@) == old(self)@.sends(tag, report@.adverts),
    {
        proof {
            self@.lemma_disseminate_wf(tag, report@);
        }
        let ghost adverts = views(report.adverts@);
        let ghost purges = views(report.purges@);
        let ghost diagnostics = views(report.diagnostics@);
        let mut sends: Vec<AdvertSend> = Vec::new();
        let mut i: usize = 0;
        assert(adverts.take(0) =~= Seq::empty());
        assert(views(sends@) =~= Seq::empty());
        while i < report.adverts.len()
            invariant
                i <= report.adverts.len(),
                adverts == views(report.adverts@),
                old(self).wf(),
                self.wf(),
                self@ == old(self)@.announced(tag, adverts.take(i as int)),
                views(sends@) == old(self)@.sends(tag, adverts.take(i as int)),
            decreases report.adverts.len() - i,
        {
            proof {
                assert(adverts.take(i + 1).drop_last() =~= adverts.take(i as int));
                assert(adverts.take(i + 1).last() == adverts[i as int]);
            }
            let ghost before = views(sends@);
            let recipients = self.broadcast_advert(tag, &report.adverts[i]);
            let send = AdvertSend { advert: report.adverts[i].clone(), recipients };
            sends.push(send);
            assert(views(sends@) =~= before.push(send@));
            i += 1;
        }
        assert(adverts.take(i as int) =~= adverts);
        let ghost announced = self@;
        let mut j: usize = 0;
        assert(purges.take(0) =~= Seq::empty());
        while j < report.purges.len()
            invariant
                j <= report.purges.len(),
                purges == views(report.purges@),
                self.wf(),
                self@ == announced.forgotten(tag, purges.take(j as int)),
            decreases report.purges.len() - j,
        {
            proof {
                assert(purges.take(j + 1).drop_last() =~= purges.take(j as int));
                assert(purges.take(j + 1).last() == purges[j as int]);
            }
            self.forget(tag, &report.purges[j]);
            j += 1;
        }
        assert(purges.take(j as int) =~= purges);
        let ghost purged = self@;
        let mut k: usize = 0;
        assert(diagnostics.take(0) =~= Seq::empty());
        while k < report.diagnostics.len()
            invariant
                k <= report.diagnostics.len(),
                diagnostics == views(report.diagnostics@),
                self.wf(),
                self@ == purged.rejected_forgotten(tag, diagnostics.take(k as int)),
            decreases report.diagnostics.len() - k,
        {
            proof {
                assert(diagnostics.take(k + 1).drop_last() =~= diagnostics.take(k as int));
                assert(diagnostics.take(k + 1).last() == diagnostics[k as int]);
            }
            match &report.diagnostics[k] {
                Diagnostic::ValidationRejected { id, reason } => {
                    self.forget(tag, id);
                },
                _ => {},
            }
            k += 1;
        }
        assert(diagnostics.take(k as int) =~= diagnostics);
        sends
    }
}

} // verus!
