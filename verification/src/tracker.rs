//! The tracker of one connection: pairs each reply with the request it
//! answers, by the request's identifier, and measures the time between the
//! two. It only observes: it never touches a socket.
//!
//! Time is a number that the caller reads from its clock, in microseconds.

use vstd::prelude::*;
use std::collections::HashMap;
use crate::counter::{bump, increase, increment, raised};
use crate::decoder::{DecodedMessage, Summary};
use crate::wire::WireHeader;

verus! {

broadcast use vstd::std_specs::hash::group_hash_axioms;

/// How long a request may await its reply before it is given up, unless the
/// tracker is made with another limit: one hour.
pub const DEFAULT_TTL: u64 = 3600000000;

/// A request that awaits its reply, as a value.
pub struct Pending {
    /// What the decoder kept of the request.
    pub summary: Summary,
    /// When the request was seen.
    pub started_at: u64,
}

/// A request that awaits its reply.
#[derive(Clone, Debug, PartialEq, Eq)]
pub struct PendingRequest {
    /// What the decoder kept of the request.
    pub message: DecodedMessage,
    /// When the request was seen.
    pub started_at: u64,
}

impl View for PendingRequest {
    type V = Pending;

    open spec fn view(&self) -> Pending {
        Pending { summary: self.message@, started_at: self.started_at }
    }
}

/// A request with its reply and the time between the two, as a value.
pub struct Sample {
    pub request: Summary,
    pub reply: Summary,
    pub elapsed: u64,
}

/// A request with its reply and the time between the two, for the latency
/// histogram of the request's command and collection.
#[derive(Clone, Debug, PartialEq, Eq)]
pub struct LatencySample {
    /// What the decoder kept of the request.
    pub request: DecodedMessage,
    /// What the decoder kept of the reply.
    pub reply: DecodedMessage,
    /// Microseconds from the request to its reply; zero where the clock has
    /// gone back in between.
    pub elapsed: u64,
}

impl View for LatencySample {
    type V = Sample;

    open spec fn view(&self) -> Sample {
        Sample { request: self.request@, reply: self.reply@, elapsed: self.elapsed }
    }
}

/// A sample that may be there, as a value.
pub open spec fn sample_view(sample: Option<LatencySample>) -> Option<Sample> {
    match sample {
        Some(s) => Some(s@),
        None => None,
    }
}

/// What a tracker has counted.
#[derive(Clone, Copy, Debug, PartialEq, Eq, Structural)]
pub struct Counters {
    /// Messages seen from the client.
    pub requests: u64,
    /// Replies that answered a pending request.
    pub replies: u64,
    /// Replies that answered nothing that was pending.
    pub orphans: u64,
    /// Requests given up because no reply came in time.
    pub timeouts: u64,
}

/// No counter of `a` is above its counterpart in `b`.
pub open spec fn counters_le(a: Counters, b: Counters) -> bool {
    &&& a.requests <= b.requests
    &&& a.replies <= b.replies
    &&& a.orphans <= b.orphans
    &&& a.timeouts <= b.timeouts
}

/// A tracker, as a value: the requests that await a reply, by identifier,
/// and what has been counted.
pub struct TrackerState {
    pub pending: Map<i32, Pending>,
    pub counters: Counters,
}

/// A tracker that has seen nothing.
pub open spec fn fresh_tracker() -> TrackerState {
    TrackerState {
        pending: Map::empty(),
        counters: Counters { requests: 0, replies: 0, orphans: 0, timeouts: 0 },
    }
}

/// What is kept of a request seen at `now`.
pub open spec fn pending_of(summary: Summary, now: u64) -> Pending {
    Pending { summary, started_at: now }
}

/// The tracker after a message from the client: it is counted, and where its
/// identifier is not zero it awaits its reply, in place of any request that
/// awaited one under the same identifier.
pub open spec fn after_request(st: TrackerState, request_id: i32, p: Pending) -> TrackerState {
    TrackerState {
        pending: if request_id != 0 {
            st.pending.insert(request_id, p)
        } else {
            st.pending
        },
        counters: Counters { requests: bump(st.counters.requests), ..st.counters },
    }
}

/// The time from `started_at` to `now`; zero where the clock has gone back.
pub open spec fn elapsed_since(started_at: u64, now: u64) -> u64 {
    if now >= started_at {
        (now - started_at) as u64
    } else {
        0
    }
}

/// The sample that the reply to the request `p` gives at `now`.
pub open spec fn sample_of(p: Pending, reply: Summary, now: u64) -> Sample {
    Sample { request: p.summary, reply, elapsed: elapsed_since(p.started_at, now) }
}

/// The sample that a reply to `response_to` at `now` gives: that of the
/// request that awaits it; none where no request does.
pub open spec fn sample_on_reply(
    st: TrackerState,
    response_to: i32,
    reply: Summary,
    now: u64,
) -> Option<Sample> {
    if st.pending.contains_key(response_to) {
        Some(sample_of(st.pending[response_to], reply, now))
    } else {
        None
    }
}

/// The tracker after a message from the server: where a request awaits it,
/// that request is done and a reply is counted; otherwise an orphan is
/// counted and nothing else changes.
pub open spec fn after_reply(st: TrackerState, response_to: i32) -> TrackerState {
    if st.pending.contains_key(response_to) {
        TrackerState {
            pending: st.pending.remove(response_to),
            counters: Counters { replies: bump(st.counters.replies), ..st.counters },
        }
    } else {
        TrackerState {
            pending: st.pending,
            counters: Counters { orphans: bump(st.counters.orphans), ..st.counters },
        }
    }
}

/// A request that has awaited its reply for longer than `ttl`.
pub open spec fn is_expired(p: Pending, now: u64, ttl: u64) -> bool {
    elapsed_since(p.started_at, now) > ttl
}

/// The requests of `pending` that have not expired.
pub open spec fn live(pending: Map<i32, Pending>, now: u64, ttl: u64) -> Map<i32, Pending> {
    pending.restrict(Set::new(|id: i32| !is_expired(pending[id], now, ttl)))
}

/// The tracker after a collection at `now`: every expired request is given
/// up and counted as a timeout.
pub open spec fn after_gc(st: TrackerState, now: u64, ttl: u64) -> TrackerState {
    TrackerState {
        pending: live(st.pending, now, ttl),
        counters: Counters {
            timeouts: raised(
                st.counters.timeouts,
                (st.pending.len() - live(st.pending, now, ttl).len()) as nat,
            ),
            ..st.counters
        },
    }
}

/// The tracker of one connection.
pub struct Tracker {
    pending: HashMap<i32, PendingRequest>,
    ttl: u64,
    counters: Counters,
}

impl View for Tracker {
    type V = TrackerState;

    closed spec fn view(&self) -> TrackerState {
        TrackerState {
            pending: self.pending@.map_values(|p: PendingRequest| p@),
            counters: self.counters,
        }
    }
}

fn elapsed(started_at: u64, now: u64) -> (e: u64)
    ensures
        e == elapsed_since(started_at, now),
{
    if now >= started_at {
        now - started_at
    } else {
        0
    }
}

impl Tracker {
    /// How long a request may await its reply.
    pub closed spec fn ttl(&self) -> u64 {
        self.ttl
    }

    /// A tracker that has seen nothing and gives a request up after `ttl`
    /// microseconds.
    pub fn new(ttl: u64) -> (t: Tracker)
        ensures
            t@ == fresh_tracker(),
            t.ttl() == ttl,
    {
        let t = Tracker {
            pending: HashMap::new(),
            ttl,
            counters: Counters { requests: 0, replies: 0, orphans: 0, timeouts: 0 },
        };
        assert(t@.pending =~= Map::<i32, Pending>::empty());
        t
    }

    /// How many requests await a reply.
    pub fn pending_len(&self) -> (n: usize)
        ensures
            n == self@.pending.len(),
            self@.pending.dom().finite(),
    {
        assert(self@.pending.dom() =~= self.pending@.dom());
        self.pending.len()
    }

    /// Whether a request with this identifier awaits its reply.
    pub fn is_pending(&self, request_id: i32) -> (b: bool)
        ensures
            b == self@.pending.contains_key(request_id),
    {
        self.pending.contains_key(&request_id)
    }

    /// What has been counted so far.
    pub fn counters(&self) -> (c: Counters)
        ensures
            c == self@.counters,
    {
        self.counters
    }

    /// Takes what the decoder kept of a message that the client sent, seen at
    /// `now`.
    pub fn on_client_message(&mut self, header: &WireHeader, message: DecodedMessage, now: u64)
        ensures
            final(self)@ == after_request(
                old(self)@,
                header.request_id,
                pending_of(message@, now),
            ),
            final(self).ttl() == old(self).ttl(),
            counters_le(old(self)@.counters, final(self)@.counters),
    {
        self.counters.requests = increment(self.counters.requests);
        if header.request_id != 0 {
            let request = PendingRequest { message, started_at: now };
            self.pending.insert(header.request_id, request);
            assert(final(self)@.pending =~= old(self)@.pending.insert(
                header.request_id,
                pending_of(message@, now),
            ));
        }
    }

    /// Takes what the decoder kept of a message that the server sent, seen
    /// at `now`. Where it answers a pending request, returns that request
    /// with the reply and the time between the two; a reply that answers
    /// nothing is counted as an orphan and leaves every pending request as
    /// it was.
    pub fn on_server_message(
        &mut self,
        header: &WireHeader,
        message: DecodedMessage,
        now: u64,
    ) -> (sample: Option<LatencySample>)
        ensures
            final(self)@ == after_reply(old(self)@, header.response_to),
            sample_view(sample) == sample_on_reply(
                old(self)@,
                header.response_to,
                message@,
                now,
            ),
            final(self).ttl() == old(self).ttl(),
            counters_le(old(self)@.counters, final(self)@.counters),
    {
        let id = header.response_to;
        match self.pending.remove(&id) {
            Some(request) => {
                self.counters.replies = increment(self.counters.replies);
                assert(final(self)@.pending =~= old(self)@.pending.remove(id));
                Some(
                    LatencySample {
                        request: request.message,
                        reply: message,
                        elapsed: elapsed(request.started_at, now),
                    },
                )
            },
            None => {
                self.counters.orphans = increment(self.counters.orphans);
                assert(final(self)@.pending =~= old(self)@.pending);
                None
            },
        }
    }

    /// The identifiers of the requests that have expired at `now`.
    fn expired_ids(&self, now: u64) -> (ids: Vec<i32>)
        ensures
            forall|id: i32|
                ids@.contains(id) <==> self@.pending.contains_key(id) && is_expired(
                    self@.pending[id],
                    now,
                    self.ttl(),
                ),
    {
        let mut ids: Vec<i32> = Vec::new();
        for id in it: self.pending.keys()
            invariant
                it.seq().unref().to_set() == self.pending@.dom(),
                forall|i: int|
                    0 <= i < ids@.len() ==> self.pending@.contains_key(#[trigger] ids@[i])
                        && is_expired(self.pending@[ids@[i]]@, now, self.ttl),
                forall|k: i32|
                    #[trigger] self.pending@.contains_key(k) && is_expired(
                        self.pending@[k]@,
                        now,
                        self.ttl,
                    ) ==> ids@.contains(k) || still_ahead(it.seq().unref(), it.index(), k),
        {
            let ghost keys = it.seq().unref();
            let ghost at = it.index();
            let ghost before = ids@;
            assert(keys[at] == *id);
            assert(keys.contains(*id));
            assert(self.pending@.dom().contains(*id));
            let request = self.pending.get(id).unwrap();
            if elapsed(request.started_at, now) > self.ttl {
                ids.push(*id);
                assert(ids@[ids@.len() - 1] == *id);
            }
            assert forall|k: i32|
                #[trigger] self.pending@.contains_key(k) && is_expired(
                    self.pending@[k]@,
                    now,
                    self.ttl,
                ) implies ids@.contains(k) || still_ahead(keys, at + 1, k) by {
                if before.contains(k) {
                    let w = choose|w: int| 0 <= w < before.len() && before[w] == k;
                    assert(ids@[w] == k);
                } else {
                    let j = choose|j: int| at <= j < keys.len() && keys[j] == k;
                    if j == at {
                        assert(ids@[ids@.len() - 1] == k);
                    } else {
                        assert(at + 1 <= j < keys.len() && keys[j] == k);
                    }
                }
            }
        }
        ids
    }

    /// Gives up every request that has awaited its reply for longer than the
    /// tracker's limit, and counts each as a timeout. Returns how many were
    /// given up.
    pub fn gc(&mut self, now: u64) -> (evicted: usize)
        ensures
            final(self)@ == after_gc(old(self)@, now, old(self).ttl()),
            evicted == old(self)@.pending.len() - final(self)@.pending.len(),
            final(self).ttl() == old(self).ttl(),
            counters_le(old(self)@.counters, final(self)@.counters),
    {
        let ghost before = self.pending@;
        let ghost ttl = self.ttl;
        let expired = self.expired_ids(now);
        let mut evicted: usize = 0;
        let mut i: usize = 0;
        assert(before.remove_keys(expired@.take(0).to_set()) =~= before);
        let total = self.pending.len();
        while i < expired.len()
            invariant
                i <= expired.len(),
                self.ttl == ttl,
                self.counters == old(self).counters,
                self.pending@ == before.remove_keys(expired@.take(i as int).to_set()),
                self.pending@.dom().finite(),
                evicted + self.pending@.len() == total,
                total == before.len(),
            decreases expired.len() - i,
        {
            let id = expired[i];
            let ghost done = expired@.take(i as int).to_set();
            let ghost held = self.pending@;
            match self.pending.remove(&id) {
                Some(_) => {
                    assert(held.dom().contains(id));
                    assert(self.pending@.dom() =~= held.dom().remove(id));
                    evicted = evicted + 1;
                },
                None => {
                    assert(self.pending@ =~= held);
                },
            }
            proof {
                let prev = expired@.take(i as int);
                let next = expired@.take(i + 1);
                assert(next =~= prev.push(id));
                assert(next.to_set() =~= done.insert(id)) by {
                    assert forall|k: i32| next.contains(k) <==> done.insert(id).contains(k) by {
                        if next.contains(k) {
                            let w = choose|w: int| 0 <= w < next.len() && next[w] == k;
                            if w < i {
                                assert(prev[w] == k);
                            }
                        }
                        if done.contains(k) {
                            let w = choose|w: int| 0 <= w < prev.len() && prev[w] == k;
                            assert(next[w] == k);
                        }
                        if k == id {
                            assert(next[i as int] == id);
                        }
                    }
                }
                assert(self.pending@ =~= before.remove_keys(done.insert(id)));
            }
            i = i + 1;
        }
        self.counters.timeouts = increase(self.counters.timeouts, evicted);
        proof {
            assert(expired@.take(expired@.len() as int) =~= expired@);
            let kept = live(old(self)@.pending, now, ttl);
            assert(final(self)@.pending =~= kept);
            assert(final(self)@.pending.dom() =~= self.pending@.dom());
            assert(old(self)@.pending.dom() =~= before.dom());
        }
        evicted
    }
}

/// `k` is among `keys` from position `from` on.
pub open spec fn still_ahead(keys: Seq<i32>, from: int, k: i32) -> bool {
    exists|j: int| from <= j < keys.len() && keys[j] == k
}

/// What a tracker is told, as a value.
pub enum TrackerEvent {
    /// A message from the client.
    Request { request_id: i32, pending: Pending },
    /// A message from the server.
    Reply { response_to: i32 },
    /// A collection of expired requests.
    Gc { now: u64 },
}

/// The tracker after one event.
pub open spec fn apply(st: TrackerState, event: TrackerEvent, ttl: u64) -> TrackerState {
    match event {
        TrackerEvent::Request { request_id, pending } => after_request(st, request_id, pending),
        TrackerEvent::Reply { response_to } => after_reply(st, response_to),
        TrackerEvent::Gc { now } => after_gc(st, now, ttl),
    }
}

/// The tracker after a run of events.
pub open spec fn apply_all(st: TrackerState, events: Seq<TrackerEvent>, ttl: u64) -> TrackerState
    decreases events.len(),
{
    if events.len() == 0 {
        st
    } else {
        apply(apply_all(st, events.drop_last(), ttl), events.last(), ttl)
    }
}

/// An event that takes the request `p`, pending under `id`, away or puts
/// another in its place: a request with the same identifier, a reply to it,
/// or a collection at a time when it has expired.
pub open spec fn disturbs(event: TrackerEvent, id: i32, p: Pending, ttl: u64) -> bool {
    match event {
        TrackerEvent::Request { request_id, pending } => request_id == id,
        TrackerEvent::Reply { response_to } => response_to == id,
        TrackerEvent::Gc { now } => is_expired(p, now, ttl),
    }
}

/// Correlation, request and reply back to back: a reply to a request that
/// has just been taken gives that request's sample, and the pending requests
/// are again what they were before the request, no more and no fewer. The
/// request's identifier is not zero and was not pending already.
pub proof fn lemma_reply_restores_pending(
    st: TrackerState,
    id: i32,
    p: Pending,
    reply: Summary,
    now: u64,
)
    requires
        id != 0,
        !st.pending.contains_key(id),
    ensures
        sample_on_reply(after_request(st, id, p), id, reply, now) == Some(
            sample_of(p, reply, now),
        ),
        after_reply(after_request(st, id, p), id).pending == st.pending,
        after_reply(after_request(st, id, p), id).counters.orphans == st.counters.orphans,
{
    assert(st.pending.insert(id, p).remove(id) =~= st.pending);
}

/// Correlation, with other traffic in between: whatever the tracker is told
/// between a request and its reply, as long as none of it disturbs the
/// request, the reply gives the request's sample, is no orphan, and leaves
/// the request no longer pending.
pub proof fn lemma_reply_finds_its_request(
    st: TrackerState,
    id: i32,
    p: Pending,
    between: Seq<TrackerEvent>,
    ttl: u64,
    reply: Summary,
    now: u64,
)
    requires
        id != 0,
        forall|i: int| 0 <= i < between.len() ==> !disturbs(#[trigger] between[i], id, p, ttl),
    ensures
        ({
            let mid = apply_all(after_request(st, id, p), between, ttl);
            &&& mid.pending.contains_key(id)
            &&& mid.pending[id] == p
            &&& sample_on_reply(mid, id, reply, now) == Some(sample_of(p, reply, now))
            &&& !after_reply(mid, id).pending.contains_key(id)
            &&& after_reply(mid, id).counters.orphans == mid.counters.orphans
        }),
    decreases between.len(),
{
    if between.len() > 0 {
        let head = between.drop_last();
        assert forall|i: int| 0 <= i < head.len() implies !disturbs(
            #[trigger] head[i],
            id,
            p,
            ttl,
        ) by {
            assert(head[i] == between[i]);
        }
        lemma_reply_finds_its_request(st, id, p, head, ttl, reply, now);
        assert(!disturbs(between[between.len() - 1], id, p, ttl));
    }
}

/// A reply that answers nothing is counted and changes nothing else: every
/// pending request stays, so what is correlated later is not affected.
pub proof fn lemma_orphan_changes_nothing_else(
    st: TrackerState,
    response_to: i32,
    reply: Summary,
    now: u64,
)
    requires
        !st.pending.contains_key(response_to),
    ensures
        sample_on_reply(st, response_to, reply, now) is None,
        after_reply(st, response_to).pending == st.pending,
        after_reply(st, response_to).counters == (Counters {
            orphans: bump(st.counters.orphans),
            ..st.counters
        }),
{
}

/// The tracker's counters never go down, whatever it is told.
pub proof fn lemma_counters_never_decrease(st: TrackerState, events: Seq<TrackerEvent>, ttl: u64)
    ensures
        counters_le(st.counters, apply_all(st, events, ttl).counters),
    decreases events.len(),
{
    if events.len() > 0 {
        lemma_counters_never_decrease(st, events.drop_last(), ttl);
    }
}

} // verus!
