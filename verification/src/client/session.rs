//! A managed, demultiplexed UDS session over one HSFZ connection: its decisions.
//!
//! One connection to the gateway carries requests to *many* ECU addresses. Each received frame
//! is routed to the pending request for that frame's **source address** (a response swaps source
//! and target), so requests to different targets can be in flight at once over the single
//! socket, at most one per target. A response for one ECU can therefore never be mis-attributed
//! to a request for a *different* ECU.
//!
//! One request breaks the per-target model: a functional (broadcast) request goes to one address
//! and is answered by many ECUs, each from its own source. Its answers land in a separate
//! broadcast slot that the router falls through to, and only for a frame that genuinely answers
//! the outstanding broadcast: a frame with no waiter is otherwise dropped.
use std::collections::HashMap;
use vstd::prelude::*;
use crate::bytes::copy_bytes;
use crate::client::error::{timed_out, ClientError, Outcome};
use crate::hsfz::control;
use crate::hsfz::HsfzFrame;
use crate::text::{from_chars, push_hex_byte};
use crate::uds::{is_retry_safe, positive_response_sid, sid_of, tester_present_suppressed};

verus! {

broadcast use vstd::std_specs::hash::group_hash_axioms;

/// How often the background keepalive sends `3E 80` to the gateway, in milliseconds.
///
/// Comfortably under the S3 inactivity timeout of about five seconds.
pub const KEEPALIVE_INTERVAL_MS: u64 = 2000;

/// Most "response pending" ticks for one request before giving up.
pub const MAX_PENDING_TICKS: u32 = 10;

/// How many times a failed exchange is automatically repeated.
pub const RETRY_COMM: u32 = 1;

/// The most responders one functional (broadcast) request collects.
pub const MAX_BROADCAST_RESPONDERS: usize = 100;

// ---------------------------------------------------------------------------
// Routing received frames
// ---------------------------------------------------------------------------

/// One outstanding request.
#[derive(Debug, Clone, Copy, PartialEq, Eq, Structural)]
pub struct PendingReq {
    /// The request's service identifier, by which its responses are recognised.
    pub request_sid: u8,
    /// A per-request number, so that cleanup only ever evicts *this* request's slot.
    pub generation: u64,
    /// Whether the gateway's acknowledge for this request was seen. Observability only.
    pub acked: bool,
}

/// The outstanding functional (broadcast) request, which many ECUs answer.
#[derive(Debug, Clone, Copy, PartialEq, Eq, Structural)]
pub struct BroadcastWaiter {
    /// The broadcast request's service identifier; only its positive response is collected.
    pub request_sid: u8,
    /// Our tester address: a collected response must be addressed to us.
    pub tester: u8,
}

/// What one received frame means to the requests in flight.
#[derive(Debug)]
pub enum Delivery {
    /// The final outcome for the request to `target`: its slot is released.
    Final { target: u8, request: PendingReq, outcome: Outcome },
    /// The ECU at `target` is still working: keep waiting, with a fresh deadline.
    Pending { target: u8, request: PendingReq },
    /// One more answer to the outstanding broadcast.
    Responder { source: u8, payload: Vec<u8> },
    /// Nothing to deliver: an acknowledge, an echo, or a stray or late reply.
    Dropped,
}

/// The view of a [`Delivery`].
#[verifier::ext_equal]
pub enum DeliveryView {
    Final { target: u8, request: PendingReq, outcome: Result<Seq<u8>, ClientError> },
    Pending { target: u8, request: PendingReq },
    Responder { source: u8, payload: Seq<u8> },
    Dropped,
}

impl View for Delivery {
    type V = DeliveryView;

    open spec fn view(&self) -> DeliveryView {
        match *self {
            Delivery::Final { target, request, outcome } => DeliveryView::Final {
                target,
                request,
                outcome: crate::client::error::outcome_view(outcome),
            },
            Delivery::Pending { target, request } => DeliveryView::Pending { target, request },
            Delivery::Responder { source, payload } => DeliveryView::Responder {
                source,
                payload: payload@,
            },
            Delivery::Dropped => DeliveryView::Dropped,
        }
    }
}

/// The requests in flight.
#[verifier::ext_equal]
pub struct RouterView {
    /// The outstanding request of each target address.
    pub pending: Map<u8, PendingReq>,
    /// The outstanding broadcast.
    pub broadcast: Option<BroadcastWaiter>,
    /// The number of the next request.
    pub next_generation: u64,
}

/// The table of requests in flight: at most one per target address, and one broadcast.
#[derive(Debug)]
pub struct Router {
    pending: HashMap<u8, PendingReq>,
    broadcast: Option<BroadcastWaiter>,
    next_generation: u64,
}

impl View for Router {
    type V = RouterView;

    closed spec fn view(&self) -> RouterView {
        RouterView {
            pending: self.pending@,
            broadcast: self.broadcast,
            next_generation: self.next_generation,
        }
    }
}

/// The table after a request to `target` was registered.
pub open spec fn registered(r: RouterView, target: u8, request_sid: u8) -> RouterView {
    RouterView {
        pending: r.pending.insert(
            target,
            PendingReq { request_sid, generation: r.next_generation, acked: false },
        ),
        broadcast: r.broadcast,
        next_generation: if r.next_generation == u64::MAX {
            0
        } else {
            (r.next_generation + 1) as u64
        },
    }
}

/// The table without `target`'s slot.
pub open spec fn without(r: RouterView, target: u8) -> RouterView {
    RouterView { pending: r.pending.remove(target), ..r }
}

/// The table after the acknowledge `frame`: it echoes the accepted request, so it is credited to
/// the waiter of its *target*, and only where the echoed service is the waiter's.
pub open spec fn acknowledged(r: RouterView, frame: crate::hsfz::frame::FrameView) -> RouterView {
    match frame.addr {
        Some((_, target)) => if r.pending.contains_key(target) && frame.payload.len() > 0
            && frame.payload[0] == r.pending[target].request_sid {
            RouterView {
                pending: r.pending.insert(
                    target,
                    PendingReq { acked: true, ..r.pending[target] },
                ),
                ..r
            }
        } else {
            r
        },
        None => r,
    }
}

/// Whether a reply from an ECU without a waiter answers the outstanding broadcast: it is
/// addressed to our tester, and it is the positive response to the broadcast's service.
pub open spec fn answers_broadcast(r: RouterView, tgt: u8, payload: Seq<u8>) -> bool {
    match r.broadcast {
        Some(w) => tgt == w.tester && payload.len() > 0 && payload[0]
            == crate::uds::positive_sid(w.request_sid),
        None => false,
    }
}

/// The table and the delivery after a diagnostic reply from `src` that `request` waits for.
pub open spec fn replied(r: RouterView, src: u8, payload: Seq<u8>) -> (RouterView, DeliveryView) {
    let request = r.pending[src];
    if payload.len() > 0 && payload[0] == crate::uds::positive_sid(request.request_sid) {
        (without(r, src), DeliveryView::Final { target: src, request, outcome: Ok(payload) })
    } else if payload.len() > 1 && payload[0] == crate::uds::SID_NEGATIVE_RESPONSE && payload[1]
        == request.request_sid {
        let nrc = if payload.len() > 2 {
            payload[2]
        } else {
            0
        };
        if nrc == crate::uds::NRC_RESPONSE_PENDING {
            (r, DeliveryView::Pending { target: src, request })
        } else {
            (
                without(r, src),
                DeliveryView::Final {
                    target: src,
                    request,
                    outcome: Err(ClientError::Negative { sid: request.request_sid, nrc }),
                },
            )
        }
    } else {
        (r, DeliveryView::Dropped)
    }
}

/// The table and the delivery after one received frame.
pub open spec fn routed(r: RouterView, frame: crate::hsfz::frame::FrameView) -> (
    RouterView,
    DeliveryView,
) {
    if frame.control == control::ACK {
        (acknowledged(r, frame), DeliveryView::Dropped)
    } else if frame.control != control::DIAGNOSTIC {
        (r, DeliveryView::Dropped)
    } else {
        match frame.addr {
            Some((src, tgt)) => if r.pending.contains_key(src) {
                replied(r, src, frame.payload)
            } else if answers_broadcast(r, tgt, frame.payload) {
                (r, DeliveryView::Responder { source: src, payload: frame.payload })
            } else {
                (r, DeliveryView::Dropped)
            },
            None => (r, DeliveryView::Dropped),
        }
    }
}

/// The targets of `r` at or above `from`, ascending, with their requests.
pub open spec fn waiters_from(r: RouterView, from: nat) -> Seq<(u8, PendingReq)>
    decreases 256 - from,
{
    if from >= 256 {
        Seq::<(u8, PendingReq)>::empty()
    } else {
        let rest = waiters_from(r, from + 1);
        let target = from as u8;
        if r.pending.contains_key(target) {
            seq![(target, r.pending[target])] + rest
        } else {
            rest
        }
    }
}

impl Router {
    /// A table with nothing in flight.
    pub fn new() -> (r: Router)
        ensures
            r@ == (RouterView {
                pending: Map::<u8, PendingReq>::empty(),
                broadcast: None,
                next_generation: 0u64,
            }),
    {
        Router { pending: HashMap::new(), broadcast: None, next_generation: 0 }
    }

    /// Register a request to `target`, rejecting a second one in flight to the same target.
    ///
    /// Gives the request's generation, by which [`Router::release`] finds it again.
    pub fn register(&mut self, target: u8, request_sid: u8) -> (r: Result<u64, ClientError>)
        ensures
            match r {
                Ok(generation) => !old(self)@.pending.contains_key(target) && generation == old(
                    self,
                )@.next_generation && final(self)@ == registered(old(self)@, target, request_sid),
                Err(e) => old(self)@.pending.contains_key(target) && e
                    == (ClientError::RequestInFlight { target }) && final(self)@ == old(self)@,
            },
    {
        if self.pending.contains_key(&target) {
            return Err(ClientError::RequestInFlight { target });
        }
        let generation: u64 = self.next_generation;
        self.pending.insert(target, PendingReq { request_sid, generation, acked: false });
        self.next_generation = if generation == u64::MAX {
            0
        } else {
            generation + 1
        };
        assert(self@ =~= registered(old(self)@, target, request_sid));
        Ok(generation)
    }

    /// Release the slot of the request numbered `generation`, on whatever path it ended.
    ///
    /// If a *newer* request reused the target address, that newer slot is left alone. Gives the
    /// released request.
    pub fn release(&mut self, target: u8, generation: u64) -> (r: Option<PendingReq>)
        ensures
            match r {
                Some(request) => old(self)@.pending.contains_key(target) && request == old(
                    self,
                )@.pending[target] && request.generation == generation && final(self)@ == without(
                    old(self)@,
                    target,
                ),
                None => (!old(self)@.pending.contains_key(target) || old(
                    self,
                )@.pending[target].generation != generation) && final(self)@ == old(self)@,
            },
    {
        let found: Option<PendingReq> = match self.pending.get(&target) {
            Some(request) => Some(*request),
            None => None,
        };
        match found {
            Some(request) => {
                if request.generation == generation {
                    self.pending.remove(&target);
                    assert(self@ =~= without(old(self)@, target));
                    Some(request)
                } else {
                    None
                }
            },
            None => None,
        }
    }

    /// Register the functional request, rejecting a second one: responses carry no request
    /// number to tell two broadcasts apart.
    pub fn register_broadcast(&mut self, target: u8, request_sid: u8, tester: u8) -> (r: Result<
        (),
        ClientError,
    >)
        ensures
            match r {
                Ok(_) => old(self)@.broadcast is None && final(self)@ == (RouterView {
                    broadcast: Some(BroadcastWaiter { request_sid, tester }),
                    ..old(self)@
                }),
                Err(e) => old(self)@.broadcast is Some && e == (ClientError::RequestInFlight {
                    target,
                }) && final(self)@ == old(self)@,
            },
    {
        if self.broadcast.is_some() {
            return Err(ClientError::RequestInFlight { target });
        }
        self.broadcast = Some(BroadcastWaiter { request_sid, tester });
        Ok(())
    }

    /// Clear the broadcast slot, on whatever path the collection ended.
    pub fn release_broadcast(&mut self)
        ensures
            final(self)@ == (RouterView { broadcast: None, ..old(self)@ }),
    {
        self.broadcast = None;
    }

    /// Record the gateway's acknowledge against the request it accepts.
    ///
    /// The acknowledge echoes the accepted frame verbatim, so unlike a response it is keyed by
    /// its *target*. The echoed service must match too: the keepalive and the gateway's own
    /// reads share a target.
    fn note_ack(&mut self, frame: &HsfzFrame)
        ensures
            final(self)@ == acknowledged(old(self)@, frame@),
    {
        let target: u8 = match frame.addr {
            Some((_, target)) => target,
            None => {
                return;
            },
        };
        let found: Option<PendingReq> = match self.pending.get(&target) {
            Some(request) => Some(*request),
            None => None,
        };
        if let Some(request) = found {
            if frame.payload.len() > 0 && frame.payload[0] == request.request_sid {
                self.pending.insert(
                    target,
                    PendingReq {
                        request_sid: request.request_sid,
                        generation: request.generation,
                        acked: true,
                    },
                );
                assert(self@ =~= acknowledged(old(self)@, frame@));
            }
        }
    }

    /// Offer a frame with no per-target waiter to the outstanding broadcast, if any.
    ///
    /// That the source equals the address the broadcast was sent to is deliberately not asked:
    /// no responder's own address can equal a functional one.
    fn route_to_broadcast(&self, src: u8, tgt: u8, payload: Vec<u8>) -> (r: Delivery)
        ensures
            r@ == (if answers_broadcast(self@, tgt, payload@) {
                DeliveryView::Responder { source: src, payload: payload@ }
            } else {
                DeliveryView::Dropped
            }),
    {
        match self.broadcast {
            Some(waiter) => {
                if tgt == waiter.tester && payload.len() > 0 && payload[0] == positive_response_sid(
                    waiter.request_sid,
                ) {
                    Delivery::Responder { source: src, payload }
                } else {
                    Delivery::Dropped
                }
            },
            None => Delivery::Dropped,
        }
    }

    /// Route one received frame to the pending request for its source address.
    ///
    /// An acknowledge is recorded against its request and delivered to nobody; any other
    /// non-diagnostic frame is skipped. A diagnostic frame is matched against the waiter of its
    /// source: the request's positive service delivers the payload; a negative for a *different*
    /// service (a stray keepalive refusal) is skipped; "response pending" re-arms the waiter; any
    /// other negative delivers a typed error. A frame with no waiter falls through to the
    /// outstanding broadcast, and is dropped where that does not accept it.
    pub fn route_frame(&mut self, frame: HsfzFrame) -> (r: Delivery)
        ensures
            (final(self)@, r@) == routed(old(self)@, frame@),
    {
        if frame.control == control::ACK {
            self.note_ack(&frame);
            return Delivery::Dropped;
        }
        if frame.control != control::DIAGNOSTIC {
            return Delivery::Dropped;
        }
        let (src, tgt): (u8, u8) = match frame.addr {
            Some(addr) => addr,
            None => {
                return Delivery::Dropped;
            },
        };
        let payload = frame.payload;
        let found: Option<PendingReq> = match self.pending.get(&src) {
            Some(request) => Some(*request),
            None => None,
        };
        let request = match found {
            Some(request) => request,
            None => {
                return self.route_to_broadcast(src, tgt, payload);
            },
        };
        if payload.len() == 0 {
            return Delivery::Dropped;
        }
        if payload[0] == positive_response_sid(request.request_sid) {
            self.pending.remove(&src);
            assert(self@ =~= without(old(self)@, src));
            return Delivery::Final { target: src, request, outcome: Ok(payload) };
        }
        if payload.len() < 2 || payload[0] != crate::uds::SID_NEGATIVE_RESPONSE || payload[1]
            != request.request_sid {
            return Delivery::Dropped;
        }
        let nrc: u8 = if payload.len() > 2 {
            payload[2]
        } else {
            0
        };
        if nrc == crate::uds::NRC_RESPONSE_PENDING {
            return Delivery::Pending { target: src, request };
        }
        self.pending.remove(&src);
        assert(self@ =~= without(old(self)@, src));
        Delivery::Final {
            target: src,
            request,
            outcome: Err(ClientError::Negative { sid: request.request_sid, nrc }),
        }
    }

    /// The connection ended: empty both slots, and give every waiter, so that none hangs.
    ///
    /// Each of them is owed [`ClientError::ConnectionClosed`].
    pub fn close(&mut self) -> (r: Vec<(u8, PendingReq)>)
        ensures
            r@ == waiters_from(old(self)@, 0),
            final(self)@ == (RouterView {
                pending: Map::<u8, PendingReq>::empty(),
                broadcast: None,
                ..old(self)@
            }),
    {
        let mut out: Vec<(u8, PendingReq)> = Vec::new();
        let mut at: u16 = 0;
        let ghost before = self@;
        assert(out@ + waiters_from(before, 0) =~= waiters_from(before, 0));
        while at < 256
            invariant
                at <= 256,
                self@ == before,
                before == old(self)@,
                out@ + waiters_from(before, at as nat) == waiters_from(before, 0),
            decreases 256 - at,
        {
            let target: u8 = at as u8;
            let ghost so_far = out@;
            let ghost rest = waiters_from(before, (at + 1) as nat);
            if let Some(request) = self.pending.get(&target) {
                out.push((target, *request));
                assert(so_far + (seq![(target, *request)] + rest) =~= out@ + rest);
            }
            at = at + 1;
        }
        assert(out@ + waiters_from(before, 256) =~= out@);
        self.pending = HashMap::new();
        self.broadcast = None;
        out
    }
}

/// The source address of a frame that carries addresses.
pub open spec fn source_of(frame: crate::hsfz::frame::FrameView) -> u8 {
    match frame.addr {
        Some((src, _)) => src,
        None => 0,
    }
}

/// The target address of a frame that carries addresses.
pub open spec fn target_of(frame: crate::hsfz::frame::FrameView) -> u8 {
    match frame.addr {
        Some((_, tgt)) => tgt,
        None => 0,
    }
}

/// A frame only ever concerns the waiter of the ECU it came from (or, for an acknowledge, of the
/// ECU it was sent to): every other request in flight stays exactly as it was.
pub proof fn law_a_reply_is_never_misattributed(
    r: RouterView,
    frame: crate::hsfz::frame::FrameView,
    other: u8,
)
    requires
        frame.addr matches Some((src, tgt)) ==> if frame.control == control::ACK {
            other != tgt
        } else {
            other != src
        },
    ensures
        routed(r, frame).0.pending.contains_key(other) == r.pending.contains_key(other),
        r.pending.contains_key(other) ==> routed(r, frame).0.pending[other] == r.pending[other],
        !(routed(r, frame).1 matches DeliveryView::Final { target, .. } && target == other),
        !(routed(r, frame).1 matches DeliveryView::Pending { target, .. } && target == other),
{
}

/// A final outcome goes to a waiter that was registered for the frame's source, names that
/// waiter's request, and releases exactly its slot.
pub proof fn law_a_final_outcome_releases_its_slot(
    r: RouterView,
    frame: crate::hsfz::frame::FrameView,
)
    ensures
        routed(r, frame).1 matches DeliveryView::Final { target, request, .. } ==> {
            &&& frame.addr is Some && source_of(frame) == target
            &&& r.pending.contains_key(target) && r.pending[target] == request
            &&& routed(r, frame).0 == without(r, target)
        },
        !(routed(r, frame).1 is Final) ==> routed(r, frame).0.pending.dom() == r.pending.dom(),
{
    if let DeliveryView::Final { target, .. } = routed(r, frame).1 {
    } else {
        assert(routed(r, frame).0.pending.dom() =~= r.pending.dom());
    }
}

/// An acknowledge delivers nothing and releases no slot: it only marks the request it echoes.
pub proof fn law_an_acknowledge_is_no_response(
    r: RouterView,
    frame: crate::hsfz::frame::FrameView,
    target: u8,
)
    requires
        frame.control == control::ACK,
    ensures
        routed(r, frame).1 is Dropped,
        routed(r, frame).0.pending.dom() == r.pending.dom(),
        r.pending.contains_key(target) ==> {
            let after = routed(r, frame).0.pending[target];
            &&& after.request_sid == r.pending[target].request_sid
            &&& after.generation == r.pending[target].generation
            &&& after.acked == (r.pending[target].acked || (frame.addr is Some && target_of(frame)
                == target && frame.payload.len() > 0 && frame.payload[0]
                == r.pending[target].request_sid))
        },
{
    assert(routed(r, frame).0.pending.dom() =~= r.pending.dom());
}

/// A refusal of another service than the one requested (such as a stray keepalive refusal)
/// changes nothing and is delivered to nobody, as long as that is not the request's own positive
/// answer.
pub proof fn law_a_stray_refusal_is_skipped(
    r: RouterView,
    frame: crate::hsfz::frame::FrameView,
)
    requires
        frame.control == control::DIAGNOSTIC,
        frame.addr is Some,
        r.pending.contains_key(source_of(frame)),
        frame.payload.len() > 1,
        frame.payload[0] == crate::uds::SID_NEGATIVE_RESPONSE,
        frame.payload[1] != r.pending[source_of(frame)].request_sid,
        crate::uds::positive_sid(r.pending[source_of(frame)].request_sid)
            != crate::uds::SID_NEGATIVE_RESPONSE,
    ensures
        routed(r, frame) == (r, DeliveryView::Dropped),
{
}

/// With no waiter for its source and no broadcast outstanding, every frame but an acknowledge
/// changes nothing and is dropped.
pub proof fn law_a_frame_nobody_waits_for_is_dropped(
    r: RouterView,
    frame: crate::hsfz::frame::FrameView,
)
    requires
        frame.control != control::ACK,
        frame.addr is Some ==> !r.pending.contains_key(source_of(frame)),
        r.broadcast is None,
    ensures
        routed(r, frame) == (r, DeliveryView::Dropped),
{
}

/// Whether every request in flight was numbered before the next one.
pub open spec fn numbered(r: RouterView) -> bool {
    forall|t: u8| #[trigger]
        r.pending.contains_key(t) ==> r.pending[t].generation < r.next_generation
}

/// As long as the numbers have not run out, registering, routing and releasing keep every
/// request in flight numbered before the next one.
pub proof fn law_requests_stay_numbered(
    r: RouterView,
    target: u8,
    request_sid: u8,
    frame: crate::hsfz::frame::FrameView,
)
    requires
        numbered(r),
        r.next_generation < u64::MAX,
    ensures
        numbered(registered(r, target, request_sid)),
        numbered(routed(r, frame).0),
        numbered(without(r, target)),
{
}

/// The number of an earlier request never releases the slot of a later one to the same target.
pub proof fn law_cleanup_spares_a_newer_request(r: RouterView, target: u8, request_sid: u8)
    requires
        numbered(r),
        r.next_generation < u64::MAX,
        r.pending.contains_key(target),
    ensures
        ({
            let earlier = r.pending[target].generation;
            let later = registered(without(r, target), target, request_sid);
            later.pending[target].generation != earlier
        }),
{
}

/// A registered request's positive answer is delivered to it, whatever else is in flight.
pub proof fn law_an_answer_reaches_its_request(
    r: RouterView,
    target: u8,
    request_sid: u8,
    tester: u8,
    payload: Seq<u8>,
)
    requires
        payload.len() > 0,
        payload[0] == crate::uds::positive_sid(request_sid),
    ensures
        ({
            let waiting = registered(r, target, request_sid);
            let frame = crate::hsfz::frame::FrameView {
                control: control::DIAGNOSTIC,
                addr: Some((target, tester)),
                payload,
            };
            &&& routed(waiting, frame).1 == DeliveryView::Final {
                target,
                request: PendingReq { request_sid, generation: r.next_generation, acked: false },
                outcome: Ok(payload),
            }
            &&& !routed(waiting, frame).0.pending.contains_key(target)
        }),
{
}

// ---------------------------------------------------------------------------
// Waiting for one request's outcome
// ---------------------------------------------------------------------------

/// What ended one wait.
#[derive(Debug)]
pub enum WaitEvent {
    /// The outcome was delivered.
    Final(Outcome),
    /// The ECU answered that it is still working.
    Pending,
    /// The connection ended.
    Closed,
    /// The deadline passed.
    Elapsed,
}

/// The wait for one request's outcome.
///
/// The initial timeout bounds only the wait for the ECU to say *anything*; once it answers
/// "received, still working" the tester owes it the longer P2* budget instead, re-armed per tick
/// and bounded by [`MAX_PENDING_TICKS`].
#[derive(Debug, Clone, Copy)]
pub struct Wait {
    /// How many "still working" answers came.
    pub ticks: u32,
    /// How long to wait for the next event, in milliseconds.
    pub deadline: u64,
}

/// The read-timeout error for a deadline.
pub open spec fn silence(deadline: u64) -> ClientError {
    ClientError::Hsfz(crate::hsfz::Error::ReadTimeout { timeout: deadline })
}

/// The outcome that an event settles, if it does.
pub open spec fn settled(w: Wait, event: WaitEvent) -> Option<Result<Seq<u8>, ClientError>> {
    match event {
        WaitEvent::Final(outcome) => Some(crate::client::error::outcome_view(outcome)),
        WaitEvent::Pending => if w.ticks >= MAX_PENDING_TICKS {
            Some(Err(silence(w.deadline)))
        } else {
            None
        },
        WaitEvent::Closed => Some(Err(ClientError::ConnectionClosed)),
        WaitEvent::Elapsed => Some(Err(silence(w.deadline))),
    }
}

/// Whether the wait has taken no more ticks than are allowed, and owes P2* after the first.
pub open spec fn fair(w: Wait, timeout: u64) -> bool {
    &&& w.ticks <= MAX_PENDING_TICKS
    &&& w.deadline == if w.ticks == 0 {
        timeout
    } else {
        crate::uds::P2_STAR_SERVER_MAX_DEFAULT_MS
    }
}

impl Wait {
    /// The wait for an answer within `timeout` milliseconds.
    pub fn start(timeout: u64) -> (r: Wait)
        ensures
            r.ticks == 0,
            r.deadline == timeout,
            fair(r, timeout),
    {
        Wait { ticks: 0, deadline: timeout }
    }

    /// Take what ended the wait: the outcome, or nothing where the wait goes on.
    pub fn step(&mut self, event: WaitEvent) -> (r: Option<Outcome>)
        ensures
            match r {
                Some(outcome) => settled(*old(self), event) == Some(
                    crate::client::error::outcome_view(outcome),
                ) && *final(self) == *old(self),
                None => settled(*old(self), event) is None && event is Pending && *final(self)
                    == (Wait {
                    ticks: (old(self).ticks + 1) as u32,
                    deadline: crate::uds::P2_STAR_SERVER_MAX_DEFAULT_MS,
                }),
            },
            forall|timeout: u64| fair(*old(self), timeout) ==> #[trigger] fair(*final(self), timeout),
    {
        match event {
            WaitEvent::Final(outcome) => Some(outcome),
            WaitEvent::Pending => {
                if self.ticks >= MAX_PENDING_TICKS {
                    return Some(Err(read_timeout(self.deadline)));
                }
                self.ticks = self.ticks + 1;
                self.deadline = crate::uds::P2_STAR_SERVER_MAX_DEFAULT_MS;
                None
            },
            WaitEvent::Closed => Some(Err(ClientError::ConnectionClosed)),
            WaitEvent::Elapsed => Some(Err(read_timeout(self.deadline))),
        }
    }
}

/// The read-timeout error for a per-request deadline.
pub fn read_timeout(timeout: u64) -> (r: ClientError)
    ensures
        r == silence(timeout),
{
    ClientError::Hsfz(crate::hsfz::Error::ReadTimeout { timeout })
}

// ---------------------------------------------------------------------------
// Repeating a silent exchange
// ---------------------------------------------------------------------------

/// The repeats left to one request.
///
/// A repeat re-sends the identical bytes, so it is only offered for a service that can absorb
/// being sent twice. Only silence is repeated: a negative response is an answer, and a dead
/// connection is not mended by another attempt.
#[derive(Debug, Clone, Copy)]
pub struct Retry {
    /// How many repeats were made.
    pub retries: u32,
    /// How many may be made.
    pub budget: u32,
}

/// How many repeats a service is offered.
pub open spec fn retry_budget(retry_safe: bool) -> u32 {
    if retry_safe {
        RETRY_COMM
    } else {
        0
    }
}

/// How often a request is sent when its exchanges end as in `outcomes` and repeats are left.
pub open spec fn sends(outcomes: Seq<Result<Seq<u8>, ClientError>>, retries: u32, budget: u32) -> nat
    decreases outcomes.len(),
{
    if outcomes.len() == 0 {
        0
    } else if crate::client::error::is_silence(outcomes[0]) && retries < budget {
        1 + sends(outcomes.skip(1), (retries + 1) as u32, budget)
    } else {
        1
    }
}

proof fn lemma_sends_bounded(
    outcomes: Seq<Result<Seq<u8>, ClientError>>,
    retries: u32,
    budget: u32,
)
    requires
        retries <= budget,
    ensures
        sends(outcomes, retries, budget) <= 1 + (budget - retries),
    decreases outcomes.len(),
{
    if outcomes.len() > 0 && crate::client::error::is_silence(outcomes[0]) && retries < budget {
        lemma_sends_bounded(outcomes.skip(1), (retries + 1) as u32, budget);
    }
}

/// A request is sent at most twice; one that cannot absorb being sent twice is sent once however
/// silent the ECU stays, and one whose first exchange was answered is sent once.
pub proof fn law_the_repeat_is_bounded(
    outcomes: Seq<Result<Seq<u8>, ClientError>>,
    retry_safe: bool,
)
    requires
        outcomes.len() > 0,
    ensures
        1 <= sends(outcomes, 0, retry_budget(retry_safe)) <= 2,
        !retry_safe ==> sends(outcomes, 0, retry_budget(retry_safe)) == 1,
        !crate::client::error::is_silence(outcomes[0]) ==> sends(
            outcomes,
            0,
            retry_budget(retry_safe),
        ) == 1,
{
    lemma_sends_bounded(outcomes, 0, retry_budget(retry_safe));
}

/// A clear, a write, an actuation, a redefinition, a reset and a change of session are sent once,
/// however silent the ECU stays.
pub proof fn law_a_write_is_never_repeated(
    outcomes: Seq<Result<Seq<u8>, ClientError>>,
    uds: Seq<u8>,
)
    requires
        outcomes.len() > 0,
        ({
            let sid = crate::uds::request_sid(uds);
            ||| sid == crate::uds::SID_CLEAR_DTC
            ||| sid == crate::uds::SID_WRITE_DATA
            ||| sid == crate::uds::SID_ROUTINE_CONTROL
            ||| sid == crate::uds::SID_DYNAMIC_DATA
            ||| sid == crate::uds::SID_ECU_RESET
            ||| sid == crate::uds::SID_SESSION_CONTROL
        }),
    ensures
        sends(
            outcomes,
            0,
            retry_budget(crate::uds::retry_safe(crate::uds::request_sid(uds))),
        ) == 1,
{
    law_the_repeat_is_bounded(outcomes, crate::uds::retry_safe(crate::uds::request_sid(uds)));
}

impl Retry {
    /// The repeats offered to a request.
    pub fn offered(uds: &[u8]) -> (r: Retry)
        ensures
            r.retries == 0,
            r.budget == retry_budget(crate::uds::retry_safe(crate::uds::request_sid(uds@))),
    {
        Retry {
            retries: 0,
            budget: if is_retry_safe(sid_of(uds)) {
                RETRY_COMM
            } else {
                0
            },
        }
    }

    /// Whether the exchange that ended so is to be repeated; a repeat is counted.
    pub fn again(&mut self, outcome: &Outcome) -> (r: bool)
        ensures
            r == (crate::client::error::is_silence(crate::client::error::outcome_view(*outcome))
                && old(self).retries < old(self).budget),
            final(self).budget == old(self).budget,
            final(self).retries == old(self).retries + (if r {
                1int
            } else {
                0
            }),
    {
        if !timed_out(outcome) || self.retries >= self.budget {
            return false;
        }
        self.retries = self.retries + 1;
        true
    }
}

// ---------------------------------------------------------------------------
// Collecting a broadcast's answers
// ---------------------------------------------------------------------------

/// The views of responders: source address and payload.
pub open spec fn responders_view(v: Seq<(u8, Vec<u8>)>) -> Seq<(u8, Seq<u8>)> {
    Seq::new(v.len(), |i: int| (v[i].0, v[i].1@))
}

/// The source addresses of responders.
pub open spec fn sources(v: Seq<(u8, Seq<u8>)>) -> Seq<u8> {
    Seq::new(v.len(), |i: int| v[i].0)
}

/// The answers to one broadcast, in arrival order.
///
/// Collection ends on whichever comes first: a quiet period with no new answer, the cap, or the
/// end of the connection. An empty collection means that nobody answered, not that the request
/// failed.
#[derive(Debug)]
pub struct Collector {
    responders: Vec<(u8, Vec<u8>)>,
    max_responders: usize,
    ended: bool,
}

/// The view of a [`Collector`].
#[verifier::ext_equal]
pub struct CollectorView {
    pub responders: Seq<(u8, Seq<u8>)>,
    pub max_responders: nat,
    pub ended: bool,
}

impl View for Collector {
    type V = CollectorView;

    closed spec fn view(&self) -> CollectorView {
        CollectorView {
            responders: responders_view(self.responders@),
            max_responders: self.max_responders as nat,
            ended: self.ended,
        }
    }
}

/// Whether a collection waits for another answer.
pub open spec fn is_collecting(c: CollectorView) -> bool {
    !c.ended && c.responders.len() < c.max_responders
}

/// The collection after one more event: an answer, or none (a quiet period, or the end of the
/// connection).
pub open spec fn offered(c: CollectorView, event: Option<(u8, Seq<u8>)>) -> CollectorView {
    if !is_collecting(c) {
        c
    } else {
        match event {
            Some(answer) => CollectorView { responders: c.responders.push(answer), ..c },
            None => CollectorView { ended: true, ..c },
        }
    }
}

/// The collection after a run of answers.
pub open spec fn offered_all(c: CollectorView, answers: Seq<(u8, Seq<u8>)>) -> CollectorView
    decreases answers.len(),
{
    if answers.len() == 0 {
        c
    } else {
        offered_all(offered(c, Some(answers[0])), answers.skip(1))
    }
}

proof fn lemma_offered_all(c: CollectorView, answers: Seq<(u8, Seq<u8>)>)
    requires
        !c.ended,
        c.responders.len() <= c.max_responders,
    ensures
        ({
            let room = (c.max_responders - c.responders.len()) as nat;
            let kept = if answers.len() <= room {
                answers
            } else {
                answers.take(room as int)
            };
            offered_all(c, answers).responders == c.responders + kept
        }),
    decreases answers.len(),
{
    if answers.len() == 0 {
        assert(c.responders + answers =~= c.responders);
    } else {
        let next = offered(c, Some(answers[0]));
        lemma_offered_all(next, answers.skip(1));
        let room = (c.max_responders - c.responders.len()) as nat;
        if room == 0 {
            assert(next == c);
            assert(answers.skip(1).take(0) =~= answers.take(0));
            assert(c.responders + answers.skip(1) =~= c.responders + answers.take(0)
                || answers.skip(1).len() > 0);
        } else if answers.len() <= room {
            assert(next.responders + answers.skip(1) =~= c.responders + answers);
        } else {
            assert(next.responders + answers.skip(1).take(room - 1) =~= c.responders + answers.take(
                room as int,
            ));
        }
    }
}

/// Every ECU that answers is collected in arrival order, up to the cap and no further.
pub proof fn law_every_answer_up_to_the_cap_is_collected(
    answers: Seq<(u8, Seq<u8>)>,
    max_responders: nat,
)
    ensures
        offered_all(
            CollectorView { responders: Seq::empty(), max_responders, ended: false },
            answers,
        ).responders == (if answers.len() <= max_responders {
            answers
        } else {
            answers.take(max_responders as int)
        }),
{
    let start = CollectorView { responders: Seq::empty(), max_responders, ended: false };
    lemma_offered_all(start, answers);
    assert(start.responders + answers =~= answers);
    if answers.len() > max_responders {
        assert(start.responders + answers.take(max_responders as int) =~= answers.take(
            max_responders as int,
        ));
    }
}

impl Collector {
    /// A collection of at most `max_responders` answers.
    pub fn start(max_responders: usize) -> (r: Collector)
        ensures
            r@ == (CollectorView {
                responders: Seq::<(u8, Seq<u8>)>::empty(),
                max_responders: max_responders as nat,
                ended: false,
            }),
    {
        let r = Collector { responders: Vec::new(), max_responders, ended: false };
        assert(r@.responders =~= Seq::<(u8, Seq<u8>)>::empty());
        r
    }

    /// Whether to wait for another answer.
    pub fn collecting(&self) -> (r: bool)
        ensures
            r == is_collecting(self@),
    {
        !self.ended && self.responders.len() < self.max_responders
    }

    /// Take what ended one wait: an answer, or `None` for a quiet period or a closed connection.
    pub fn offer(&mut self, event: Option<(u8, Vec<u8>)>)
        ensures
            final(self)@ == offered(
                old(self)@,
                match event {
                    Some((source, payload)) => Some((source, payload@)),
                    None => None,
                },
            ),
    {
        if !self.collecting() {
            return;
        }
        match event {
            Some((source, payload)) => {
                let ghost before = self@.responders;
                self.responders.push((source, payload));
                assert(self@.responders =~= before.push((source, payload@)));
            },
            None => {
                self.ended = true;
            },
        }
    }

    /// The answers.
    pub fn finish(self) -> (r: Vec<(u8, Vec<u8>)>)
        ensures
            responders_view(r@) == self@.responders,
    {
        self.responders
    }
}

/// The source address of every responder, in arrival order.
pub fn responder_addresses(responders: &[(u8, Vec<u8>)]) -> (r: Vec<u8>)
    ensures
        r@ == sources(responders_view(responders@)),
{
    let mut out: Vec<u8> = Vec::new();
    let mut i: usize = 0;
    while i < responders.len()
        invariant
            i <= responders.len(),
            out@ == sources(responders_view(responders@)).take(i as int),
        decreases responders.len() - i,
    {
        let source: u8 = responders[i].0;
        out.push(source);
        assert(out@ =~= sources(responders_view(responders@)).take(i + 1));
        i = i + 1;
    }
    assert(sources(responders_view(responders@)).take(i as int) =~= sources(
        responders_view(responders@),
    ));
    out
}

// ---------------------------------------------------------------------------
// Frames
// ---------------------------------------------------------------------------

/// The frame that carries a request to `target`.
pub fn request_frame(source: u8, target: u8, uds: &[u8]) -> (r: HsfzFrame)
    ensures
        r@ == (crate::hsfz::frame::FrameView {
            control: control::DIAGNOSTIC,
            addr: Some((source, target)),
            payload: uds@,
        }),
{
    HsfzFrame::diagnostic(source, target, copy_bytes(uds))
}

/// The keepalive frame: a TesterPresent to the gateway that asks for no answer.
pub fn keepalive_frame(source: u8, gateway: u8) -> (r: HsfzFrame)
    ensures
        r@ == (crate::hsfz::frame::FrameView {
            control: control::DIAGNOSTIC,
            addr: Some((source, gateway)),
            payload: seq![0x3Eu8, 0x80u8],
        }),
{
    HsfzFrame::diagnostic(source, gateway, tester_present_suppressed())
}

/// The uppercase hex of `bytes`, space-separated.
pub open spec fn hex_text(bytes: Seq<u8>) -> Seq<char>
    decreases bytes.len(),
{
    if bytes.len() == 0 {
        Seq::<char>::empty()
    } else if bytes.len() == 1 {
        crate::text::hex_byte(bytes[0])
    } else {
        hex_text(bytes.drop_last()) + seq![' '] + crate::text::hex_byte(bytes.last())
    }
}

/// Space-separated uppercase hex of a frame's UDS bytes, for tracing.
pub fn hex_frame(bytes: &[u8]) -> (r: String)
    ensures
        r@ == hex_text(bytes@),
{
    let mut out: Vec<char> = Vec::new();
    let mut i: usize = 0;
    assert(hex_text(bytes@.take(0)) =~= out@);
    while i < bytes.len()
        invariant
            i <= bytes.len(),
            out@ == hex_text(bytes@.take(i as int)),
        decreases bytes.len() - i,
    {
        let ghost before = out@;
        if i > 0 {
            out.push(' ');
        }
        push_hex_byte(&mut out, bytes[i]);
        proof {
            let upto = bytes@.take(i + 1);
            assert(upto.drop_last() =~= bytes@.take(i as int));
            if i == 0 {
                assert(out@ =~= crate::text::hex_byte(bytes@[0]));
            } else {
                assert(out@ =~= before + seq![' '] + crate::text::hex_byte(bytes@[i as int]));
            }
        }
        i = i + 1;
    }
    assert(bytes@.take(i as int) =~= bytes@);
    from_chars(out.as_slice())
}

/// The limits of a session.
pub proof fn law_the_limits_of_a_session_are_fixed()
    ensures
        KEEPALIVE_INTERVAL_MS == 2_000,
        MAX_PENDING_TICKS == 10,
        RETRY_COMM == 1,
        MAX_BROADCAST_RESPONDERS == 100,
{
}

/// A registered request waits under its target with the next free number, not yet acknowledged;
/// no other request and no broadcast is touched.
pub proof fn law_a_registered_request_waits(r: RouterView, target: u8, request_sid: u8, other: u8)
    requires
        r.next_generation < u64::MAX,
    ensures
        ({
            let after = registered(r, target, request_sid);
            &&& after.pending.contains_key(target)
            &&& after.pending[target].request_sid == request_sid
            &&& after.pending[target].generation == r.next_generation
            &&& !after.pending[target].acked
            &&& after.next_generation == r.next_generation + 1
            &&& after.broadcast == r.broadcast
            &&& other != target ==> after.pending.contains_key(other) == r.pending.contains_key(
                other,
            )
            &&& other != target && r.pending.contains_key(other) ==> after.pending[other]
                == r.pending[other]
        }),
{
}

/// A released slot is gone, and it alone.
pub proof fn law_a_release_frees_one_slot(r: RouterView, target: u8, other: u8)
    ensures
        !without(r, target).pending.contains_key(target),
        other != target ==> without(r, target).pending.contains_key(other)
            == r.pending.contains_key(other),
        other != target && r.pending.contains_key(other) ==> without(r, target).pending[other]
            == r.pending[other],
        without(r, target).broadcast == r.broadcast,
        without(r, target).next_generation == r.next_generation,
{
}

/// A refusal of a registered request is its outcome, with the refusal's code; only the code that
/// says "still working" keeps it waiting, and a refusal without a code counts as code zero.
pub proof fn law_a_refusal_reaches_its_request(
    r: RouterView,
    target: u8,
    request_sid: u8,
    tester: u8,
    nrc: u8,
    rest: Seq<u8>,
)
    requires
        request_sid != 0x3F,
    ensures
        ({
            let waiting = registered(r, target, request_sid);
            let request = PendingReq { request_sid, generation: r.next_generation, acked: false };
            let coded = crate::hsfz::frame::FrameView {
                control: 1,
                addr: Some((target, tester)),
                payload: seq![0x7Fu8, request_sid, nrc] + rest,
            };
            let bare = crate::hsfz::frame::FrameView {
                control: 1,
                addr: Some((target, tester)),
                payload: seq![0x7Fu8, request_sid],
            };
            &&& nrc == 0x78 ==> routed(waiting, coded) == (
                waiting,
                DeliveryView::Pending { target, request },
            )
            &&& nrc != 0x78 ==> routed(waiting, coded) == (
                without(waiting, target),
                DeliveryView::Final {
                    target,
                    request,
                    outcome: Err(ClientError::Negative { sid: request_sid, nrc }),
                },
            )
            &&& routed(waiting, bare) == (
                without(waiting, target),
                DeliveryView::Final {
                    target,
                    request,
                    outcome: Err(ClientError::Negative { sid: request_sid, nrc: 0 }),
                },
            )
        }),
{
    let waiting = registered(r, target, request_sid);
    let payload = seq![0x7Fu8, request_sid, nrc] + rest;
    assert(payload[0] == 0x7F && payload[1] == request_sid && payload[2] == nrc);
    assert(crate::uds::positive_sid(request_sid) != 0x7F);
    assert(waiting.pending.contains_key(target));
}

/// A positive answer is told by the service with `40` added; a diagnostic frame that is neither
/// that nor a refusal of the service leaves the request waiting.
pub proof fn law_another_service_does_not_answer(
    r: RouterView,
    target: u8,
    request_sid: u8,
    tester: u8,
    payload: Seq<u8>,
)
    requires
        request_sid < 0xC0,
        payload.len() == 0 || (payload[0] != request_sid + 0x40 && payload[0] != 0x7F),
    ensures
        routed(
            registered(r, target, request_sid),
            crate::hsfz::frame::FrameView {
                control: 1,
                addr: Some((target, tester)),
                payload,
            },
        ) == (registered(r, target, request_sid), DeliveryView::Dropped),
{
    assert(registered(r, target, request_sid).pending.contains_key(target));
}

/// While a broadcast is out, the positive answer to its service from an ECU that nothing else waits
/// for is collected if it is addressed to the tester, and dropped if not; nothing changes.
pub proof fn law_a_broadcast_takes_positive_answers_to_its_tester(
    r: RouterView,
    request_sid: u8,
    tester: u8,
    src: u8,
    tgt: u8,
    payload: Seq<u8>,
)
    requires
        r.broadcast == Some(BroadcastWaiter { request_sid, tester }),
        request_sid < 0xC0,
        !r.pending.contains_key(src),
    ensures
        routed(
            r,
            crate::hsfz::frame::FrameView { control: 1, addr: Some((src, tgt)), payload },
        ) == (
            r,
            if tgt == tester && payload.len() > 0 && payload[0] == request_sid + 0x40 {
                DeliveryView::Responder { source: src, payload }
            } else {
                DeliveryView::Dropped
            },
        ),
{
}

proof fn lemma_waiters_from(r: RouterView, from: nat)
    requires
        from <= 256,
    ensures
        forall|i: int|
            0 <= i < waiters_from(r, from).len() ==> from <= (#[trigger] waiters_from(r, from)[i]).0
                && r.pending.contains_key(waiters_from(r, from)[i].0) && waiters_from(
                r,
                from,
            )[i].1 == r.pending[waiters_from(r, from)[i].0],
        forall|i: int, j: int|
            0 <= i < j < waiters_from(r, from).len() ==> (#[trigger] waiters_from(r, from)[i]).0 < (
            #[trigger] waiters_from(r, from)[j]).0,
        forall|target: u8|
            from <= target && #[trigger] r.pending.contains_key(target) ==> waiters_from(
                r,
                from,
            ).contains((target, r.pending[target])),
    decreases 256 - from,
{
    if from < 256 {
        lemma_waiters_from(r, from + 1);
        let rest = waiters_from(r, from + 1);
        let here = from as u8;
        let all = waiters_from(r, from);
        if r.pending.contains_key(here) {
            let head = seq![(here, r.pending[here])];
            assert(all == head + rest);
            assert forall|target: u8|
                from <= target && #[trigger] r.pending.contains_key(target) implies all.contains(
                (target, r.pending[target]),
            ) by {
                if target == here {
                    assert(all[0] == (here, r.pending[here]));
                } else {
                    let k = choose|k: int|
                        0 <= k < rest.len() && rest[k] == (target, r.pending[target]);
                    assert(all[k + 1] == rest[k]);
                }
            }
            assert forall|i: int| 0 <= i < all.len() implies from <= (#[trigger] all[i]).0
                && r.pending.contains_key(all[i].0) && all[i].1 == r.pending[all[i].0] by {
                if i > 0 {
                    assert(all[i] == rest[i - 1]);
                }
            }
            assert forall|i: int, j: int| 0 <= i < j < all.len() implies (#[trigger] all[i]).0 < (
            #[trigger] all[j]).0 by {
                assert(all[j] == rest[j - 1]);
                if i > 0 {
                    assert(all[i] == rest[i - 1]);
                }
            }
        } else {
            assert(all == rest);
            assert forall|target: u8|
                from <= target && #[trigger] r.pending.contains_key(target) implies all.contains(
                (target, r.pending[target]),
            ) by {
                assert(target != here);
            }
        }
    }
}

/// When the connection ends, every request in flight is woken, each once, by ascending target.
pub proof fn law_the_end_of_a_connection_wakes_every_waiter(r: RouterView)
    ensures
        forall|target: u8| #[trigger]
            r.pending.contains_key(target) ==> waiters_from(r, 0).contains(
                (target, r.pending[target]),
            ),
        forall|i: int|
            0 <= i < waiters_from(r, 0).len() ==> r.pending.contains_key(
                (#[trigger] waiters_from(r, 0)[i]).0,
            ) && waiters_from(r, 0)[i].1 == r.pending[waiters_from(r, 0)[i].0],
        forall|i: int, j: int|
            0 <= i < j < waiters_from(r, 0).len() ==> (#[trigger] waiters_from(r, 0)[i]).0 < (
            #[trigger] waiters_from(r, 0)[j]).0,
{
    lemma_waiters_from(r, 0);
}

/// A wait ends with the outcome that came, with the end of the connection, or with silence after
/// its deadline; "still working" is borne ten times and is silence the next.
pub proof fn law_a_wait_ends_with_what_came(w: Wait, outcome: Outcome)
    ensures
        settled(w, WaitEvent::Final(outcome)) == Some(crate::client::error::outcome_view(outcome)),
        settled(w, WaitEvent::Closed) == Some(
            Err::<Seq<u8>, ClientError>(ClientError::ConnectionClosed),
        ),
        settled(w, WaitEvent::Elapsed) == Some(
            Err::<Seq<u8>, ClientError>(
                ClientError::Hsfz(crate::hsfz::Error::ReadTimeout { timeout: w.deadline }),
            ),
        ),
        w.ticks < 10 ==> settled(w, WaitEvent::Pending) is None,
        w.ticks >= 10 ==> settled(w, WaitEvent::Pending) == settled(w, WaitEvent::Elapsed),
{
}

/// A fair wait owes the request's own time before the first "still working", and five seconds after
/// each one.
pub proof fn law_a_wait_owes_more_time_to_a_working_ecu(w: Wait, timeout: u64)
    ensures
        fair(w, timeout) && w.ticks == 0 ==> w.deadline == timeout,
        fair(w, timeout) && w.ticks > 0 ==> w.deadline == 5_000,
        fair(w, timeout) ==> w.ticks <= 10,
{
}

/// Silence is a read that timed out: no answer, no refusal and no other failure is silence.
pub proof fn law_only_a_read_timeout_is_silence(payload: Seq<u8>, e: ClientError, timeout: u64)
    ensures
        !crate::client::error::is_silence(Ok(payload)),
        crate::client::error::is_silence(
            Err(ClientError::Hsfz(crate::hsfz::Error::ReadTimeout { timeout })),
        ),
        crate::client::error::is_silence(Err(e)) ==> e matches ClientError::Hsfz(
            crate::hsfz::Error::ReadTimeout { .. },
        ),
{
}

/// A read or a presence ping that meets silence is sent a second time, and never a third.
pub proof fn law_a_silent_read_is_sent_twice(
    outcomes: Seq<Result<Seq<u8>, ClientError>>,
    uds: Seq<u8>,
    timeout: u64,
)
    requires
        outcomes.len() >= 2,
        uds.len() > 0,
        uds[0] == 0x19 || uds[0] == 0x22 || uds[0] == 0x3E,
        outcomes[0] == Err::<Seq<u8>, ClientError>(
            ClientError::Hsfz(crate::hsfz::Error::ReadTimeout { timeout }),
        ),
    ensures
        sends(outcomes, 0, retry_budget(crate::uds::retry_safe(crate::uds::request_sid(uds)))) == 2,
{
    crate::uds::law_reads_alone_may_be_sent_twice(uds[0]);
    reveal_with_fuel(sends, 3);
    assert(outcomes.skip(1).len() > 0);
}

/// An answer is collected behind those that came before it; a quiet period ends the collection,
/// and what comes after it is not collected.
pub proof fn law_a_quiet_period_ends_a_collection(
    c: CollectorView,
    answer: (u8, Seq<u8>),
    event: Option<(u8, Seq<u8>)>,
)
    requires
        !c.ended,
        c.responders.len() < c.max_responders,
    ensures
        offered(c, Some(answer)).responders == c.responders + seq![answer],
        !offered(c, Some(answer)).ended,
        offered(c, None).responders == c.responders,
        !is_collecting(offered(c, None)),
        offered(offered(c, None), event) == offered(c, None),
        is_collecting(offered(c, Some(answer))) <==> c.responders.len() + 1 < c.max_responders,
{
    assert(offered(c, Some(answer)).responders =~= c.responders + seq![answer]);
}

/// The address of each responder stands where the responder does.
pub proof fn law_a_responder_gives_its_source(v: Seq<(u8, Seq<u8>)>, i: int)
    ensures
        sources(v).len() == v.len(),
        0 <= i < v.len() ==> sources(v)[i] == v[i].0,
{
}

proof fn lemma_hex_text_is_joined(bytes: Seq<u8>)
    ensures
        hex_text(bytes) == crate::text::join(
            Seq::new(bytes.len(), |i: int| crate::text::hex_byte(bytes[i])),
            seq![' '],
        ),
    decreases bytes.len(),
{
    let parts = Seq::new(bytes.len(), |i: int| crate::text::hex_byte(bytes[i]));
    if bytes.len() > 1 {
        lemma_hex_text_is_joined(bytes.drop_last());
        let front = bytes.drop_last();
        assert(parts.drop_last() =~= Seq::new(
            front.len(),
            |i: int| crate::text::hex_byte(front[i]),
        ));
    }
}

/// A trace shows each byte as two digits, with a space between neighbours: split at the spaces it
/// gives the bytes back.
pub proof fn law_a_trace_shows_every_byte(bytes: Seq<u8>, i: int)
    requires
        0 <= i < bytes.len(),
    ensures
        ({
            let parts = crate::text::split(hex_text(bytes), ' ');
            &&& parts.len() == bytes.len()
            &&& parts[i].len() == 2
            &&& crate::text::unsigned_value(parts[i], 16, 255) == Some(bytes[i] as int)
        }),
{
    let parts = Seq::new(bytes.len(), |k: int| crate::text::hex_byte(bytes[k]));
    lemma_hex_text_is_joined(bytes);
    assert forall|k: int| 0 <= k < parts.len() implies !(#[trigger] parts[k]).contains(' ') by {
        let hi = bytes[k] as int / 16;
        let lo = bytes[k] as int % 16;
        assert(0 <= hi < 16 && 0 <= lo < 16);
        assert(parts[k] == seq![crate::text::hex_char(hi), crate::text::hex_char(lo)]);
        assert(crate::text::hex_char(hi) != ' ' && crate::text::hex_char(lo) != ' ');
    }
    crate::text::law_splitting_undoes_joining(parts, ' ');
    let one = seq![bytes[i]];
    assert(one.drop_last() =~= Seq::<u8>::empty());
    crate::bytes::law_the_front_byte_weighs_most(bytes[i], 0, 0, 0);
    crate::text::law_hex_digits_read_back(one, 255);
    reveal_with_fuel(crate::text::hex_text, 2);
    assert(crate::text::hex_text(one) =~= crate::text::hex_byte(bytes[i]));
}

} // verus!
