use vstd::prelude::*;

use std::collections::HashMap;

use crate::error::AscendError;
use crate::json::{json_view, text_eq, text_view, Json, JsonValue};
use crate::network::{find_first_room, first_room};
use crate::protocol::{Method, RequestId, Response};
use crate::subscription::StateUpdate;

verus! {

broadcast use vstd::std_specs::hash::group_hash_axioms;

/// Seconds a request waits for its reply.
pub const REQUEST_TIMEOUT_SECS: u64 = 10;

/// The room record that a pushed response carries, if it is a network
/// notification with one: the first entry of `data.state` whose `data` is of
/// type `"room"`.
pub open spec fn notification_room(method: Method, rtype: Option<Seq<char>>, data: Option<Json>) -> Option<Json> {
    if method == Method::Notify && rtype == Some("network"@) {
        match data {
            Some(d) => first_room(d),
            None => None,
        }
    } else {
        None
    }
}

/// The room record carried by a decoded response, as a notification.
pub open spec fn response_room(r: Response) -> Option<Json> {
    notification_room(r.meta.method, text_view(r.meta.response_type), json_view(r.data))
}

/// What became of one inbound frame.
pub enum Inbound<H> {
    /// The frame answers a pending request: hand the response to its handle.
    Reply(H, Response),
    /// The frame is a notification to publish to every subscriber.
    Notification(StateUpdate),
    /// The frame is neither: it is dropped.
    Dropped,
}

/// How a caller's wait for its reply ended.
pub enum WaitOutcome {
    /// The reader handed over the reply.
    Replied(Response),
    /// The handle was discarded unresolved: the connection closed.
    Discarded,
    /// The deadline passed first.
    TimedOut,
}

/// The table of requests awaiting replies on one connection, keyed by
/// correlation token; `H` is the handle through which a reply is delivered.
pub struct PendingTable<H> {
    pending: HashMap<RequestId, H>,
    closed: bool,
}

impl<H> PendingTable<H> {
    /// The handles awaiting replies, by token.
    pub closed spec fn waiting(&self) -> Map<RequestId, H> {
        self.pending@
    }

    /// The connection has closed; no request can be registered any more.
    pub closed spec fn is_closed(&self) -> bool {
        self.closed
    }

    /// An empty table of an open connection.
    pub fn new() -> (r: Self)
        ensures
            r.waiting() == Map::<RequestId, H>::empty(),
            !r.is_closed(),
    {
        PendingTable { pending: HashMap::new(), closed: false }
    }

    /// Whether the connection has closed.
    pub fn closed(&self) -> (r: bool)
        ensures
            r == self.is_closed(),
    {
        self.closed
    }

    /// Number of requests awaiting replies.
    pub fn len(&self) -> (r: usize)
        ensures
            r == self.waiting().len(),
    {
        self.pending.len()
    }

    /// Whether `id` awaits a reply.
    pub fn contains(&self, id: RequestId) -> (r: bool)
        ensures
            r == self.waiting().contains_key(id),
    {
        self.pending.contains_key(&id)
    }

    /// Registers `handle` to receive the reply to `id`; on a closed connection
    /// nothing is registered and the request fails as closed.
    pub fn register(&mut self, id: RequestId, handle: H) -> (r: Result<(), AscendError>)
        ensures
            old(self).is_closed() ==> (r matches Err(AscendError::ConnectionClosed))
                && final(self).waiting() == old(self).waiting(),
            !old(self).is_closed() ==> r is Ok && final(self).waiting() == old(self).waiting().insert(
                id,
                handle,
            ),
            final(self).is_closed() == old(self).is_closed(),
    {
        if self.closed {
            return Err(AscendError::ConnectionClosed);
        }
        self.pending.insert(id, handle);
        Ok(())
    }

    /// Removes the entry of `id`, handing back its handle where there was one.
    pub fn take(&mut self, id: RequestId) -> (r: Option<H>)
        ensures
            match r {
                Some(h) => old(self).waiting().contains_key(id) && h == old(self).waiting()[id],
                None => !old(self).waiting().contains_key(id),
            },
            final(self).waiting() == old(self).waiting().remove(id),
            final(self).is_closed() == old(self).is_closed(),
    {
        self.pending.remove(&id)
    }

    /// The deadline of `id` passed: its entry is removed, so a late reply can
    /// no longer resolve it. Returns whether it was still waiting.
    pub fn expire(&mut self, id: RequestId) -> (r: bool)
        ensures
            r == old(self).waiting().contains_key(id),
            final(self).waiting() == old(self).waiting().remove(id),
            final(self).is_closed() == old(self).is_closed(),
    {
        match self.take(id) {
            Some(_) => true,
            None => false,
        }
    }

    /// The connection closed: every waiting entry is discarded unresolved and
    /// no request can be registered any more.
    pub fn close(&mut self)
        ensures
            final(self).waiting() == Map::<RequestId, H>::empty(),
            final(self).is_closed(),
    {
        self.pending.clear();
        self.closed = true;
    }

    /// Routes one inbound frame: a reply to the request that awaits its token,
    /// else a room notification, else nothing.
    pub fn route(&mut self, frame: &JsonValue) -> (r: Inbound<H>)
        ensures
            final(self).is_closed() == old(self).is_closed(),
            route_outcome(old(self).waiting(), frame@, final(self).waiting(), r),
    {
        let resp = match Response::from_json(frame) {
            Some(resp) => resp,
            None => return Inbound::Dropped,
        };
        proof {
            assert(response_decodes_to(frame@, resp));
            assert forall|other: Response| #[trigger]
                response_decodes_to(frame@, other) implies other.meta.id == resp.meta.id
                && response_room(other) == response_room(resp) by {}
        }
        let ghost before = self.waiting();
        match self.take(resp.meta.id) {
            Some(h) => {
                let r = Inbound::Reply(h, resp);
                assert(route_outcome(before, frame@, self.waiting(), r));
                r
            },
            None => match parse_state_update(&resp) {
                Some(u) => {
                    assert(before.remove(resp.meta.id) =~= before);
                    let r = Inbound::Notification(u);
                    assert(route_outcome(before, frame@, self.waiting(), r));
                    r
                },
                None => {
                    assert(before.remove(resp.meta.id) =~= before);
                    let r = Inbound::Dropped;
                    assert(route_outcome(before, frame@, self.waiting(), r));
                    r
                },
            },
        }
    }
}

/// How `route` relates the table before and after a frame to its outcome: a
/// frame that decodes with a waiting token goes to that token's handle, whose
/// entry leaves the table; any other frame leaves the table as it was and is
/// published when it carries a room record.
pub open spec fn route_outcome<H>(
    before: Map<RequestId, H>,
    frame: Json,
    after: Map<RequestId, H>,
    r: Inbound<H>,
) -> bool {
    match r {
        Inbound::Reply(h, resp) => {
            &&& response_decodes_to(frame, resp)
            &&& before.contains_key(resp.meta.id)
            &&& h == before[resp.meta.id]
            &&& after == before.remove(resp.meta.id)
        },
        Inbound::Notification(u) => {
            &&& after == before
            &&& exists|resp: Response|
                #![trigger response_decodes_to(frame, resp)]
                response_decodes_to(frame, resp) && !before.contains_key(resp.meta.id)
                    && match u {
                    StateUpdate::RoomUpdate(v) => response_room(resp) == Some(v@),
                    StateUpdate::DeviceUpdate(_, _) => false,
                }
        },
        Inbound::Dropped => {
            &&& after == before
            &&& (crate::protocol::response_ok(frame) ==> exists|resp: Response|
                #![trigger response_decodes_to(frame, resp)]
                response_decodes_to(frame, resp))
            &&& forall|resp: Response|
                #![trigger response_decodes_to(frame, resp)]
                response_decodes_to(frame, resp) ==> !before.contains_key(resp.meta.id)
                    && response_room(resp) is None
        },
    }
}

/// `resp` is what `Response::from_json` makes of `frame`.
pub open spec fn response_decodes_to(frame: Json, resp: Response) -> bool {
    let meta = frame.get("meta"@)->0;
    &&& crate::protocol::response_ok(frame)
    &&& resp.meta.id == crate::protocol::header_token(meta)->0
    &&& forall|x: u128|
        #[trigger] crate::protocol::hyphenated(x) == crate::json::opt_str(meta.get("id"@))->0
            ==> resp.meta.id == x
    &&& resp.meta.method == crate::protocol::header_method(meta)->0
    &&& text_view(resp.meta.endpoint) == crate::json::opt_str(meta.get("endpoint"@))
    &&& text_view(resp.meta.response_type) == crate::json::opt_str(meta.get("type"@))
    &&& json_view(resp.data) == crate::protocol::payload(frame.get("data"@))
    &&& resp.details() == crate::protocol::error_details(frame.get("errors"@))
}

/// Decodes a response that answers no request as a notification: a network
/// notification carrying a room record becomes a room update.
pub fn parse_state_update(response: &Response) -> (r: Option<StateUpdate>)
    ensures
        match r {
            Some(StateUpdate::RoomUpdate(v)) => response_room(*response) == Some(v@),
            Some(StateUpdate::DeviceUpdate(_, _)) => false,
            None => response_room(*response) is None,
        },
{
    if response.meta.method != Method::Notify {
        return None;
    }
    let is_network = match &response.meta.response_type {
        Some(t) => text_eq(t.as_str(), "network"),
        None => false,
    };
    if !is_network {
        return None;
    }
    match &response.data {
        Some(data) => match find_first_room(data) {
            Some(room) => Some(StateUpdate::RoomUpdate(room.duplicate())),
            None => None,
        },
        None => None,
    }
}

/// The result a caller of a request gets once its wait ended: the reply, unless
/// it carries errors (the first detail is reported); a closed connection; or a
/// timeout.
pub fn settle(outcome: WaitOutcome) -> (r: Result<Response, AscendError>)
    ensures
        match outcome {
            WaitOutcome::Replied(resp) => if resp.is_error() {
                (r matches Err(AscendError::ApiError { detail })) && r->Err_0->detail@
                    == resp.details()->0[0]
            } else {
                r == Ok::<Response, AscendError>(resp)
            },
            WaitOutcome::Discarded => r matches Err(AscendError::ConnectionClosed),
            WaitOutcome::TimedOut => r matches Err(AscendError::Timeout),
        },
{
    match outcome {
        WaitOutcome::Replied(resp) => {
            if resp.has_errors() {
                match resp.error_message() {
                    Some(detail) => Err(AscendError::ApiError { detail }),
                    None => Ok(resp),
                }
            } else {
                Ok(resp)
            }
        },
        WaitOutcome::Discarded => Err(AscendError::ConnectionClosed),
        WaitOutcome::TimedOut => Err(AscendError::Timeout),
    }
}

/// A reply reaches exactly the handle registered under the token it carries:
/// when the decoded frame's token is waiting, routing hands the response to
/// that token's handle, and whenever routing hands a response to a handle, that
/// handle was registered under the response's own token.
pub proof fn lemma_reply_correlates<H>(
    before: Map<RequestId, H>,
    frame: Json,
    after: Map<RequestId, H>,
    r: Inbound<H>,
    resp: Response,
)
    requires
        route_outcome(before, frame, after, r),
        response_decodes_to(frame, resp),
    ensures
        before.contains_key(resp.meta.id) <==> r is Reply,
        r matches Inbound::Reply(h, got) ==> got.meta.id == resp.meta.id && h == before[resp.meta.id],
{
}

/// Round-trip correlation: a reply that carries the token text a request was
/// written with reaches the handle registered for that request, with the
/// request's own token.
pub proof fn lemma_echo_reaches_sender<H>(
    request: crate::protocol::Request,
    before: Map<RequestId, H>,
    frame: Json,
    after: Map<RequestId, H>,
    r: Inbound<H>,
)
    requires
        before.contains_key(request.meta.id),
        route_outcome(before, frame, after, r),
        crate::protocol::response_ok(frame),
        frame.get("meta"@)->0.get("id"@) == request.wire().get("meta"@)->0.get("id"@),
    ensures
        r matches Inbound::Reply(h, resp) && h == before[request.meta.id] && resp.meta.id
            == request.meta.id,
        after == before.remove(request.meta.id),
{
    let wire_meta = request.wire().get("meta"@)->0;
    assert(wire_meta.get("id"@) == Some(Json::Str(crate::protocol::hyphenated(request.meta.id)))) by {
        reveal_strlit("id");
        reveal_strlit("meta");
        reveal_strlit("endpoint");
        reveal_strlit("method");
        reveal_strlit("data");
        reveal_strlit("targetType");
        reveal_strlit("target");
    }
    match r {
        Inbound::Reply(h, resp) => {},
        Inbound::Notification(u) => {
            let resp = choose|resp: Response|
                #![trigger response_decodes_to(frame, resp)]
                response_decodes_to(frame, resp) && !before.contains_key(resp.meta.id) && match u {
                    crate::subscription::StateUpdate::RoomUpdate(v) => response_room(resp) == Some(v@),
                    crate::subscription::StateUpdate::DeviceUpdate(_, _) => false,
                };
            assert(resp.meta.id == request.meta.id);
        },
        Inbound::Dropped => {
            let resp = choose|resp: Response|
                #![trigger response_decodes_to(frame, resp)]
                response_decodes_to(frame, resp);
            assert(resp.meta.id == request.meta.id);
        },
    }
}

/// When every waiting caller has a handle of its own, the response handed to
/// the handle of token `t` carries `t`: a caller receives the reply to its own
/// request.
pub proof fn lemma_caller_gets_own_token<H>(
    before: Map<RequestId, H>,
    frame: Json,
    after: Map<RequestId, H>,
    r: Inbound<H>,
    t: RequestId,
)
    requires
        route_outcome(before, frame, after, r),
        before.contains_key(t),
        forall|u: RequestId| #[trigger] before.contains_key(u) && before[u] == before[t] ==> u == t,
        r matches Inbound::Reply(h, _) && h == before[t],
    ensures
        r->Reply_1.meta.id == t,
        after == before.remove(t),
{
}

/// A token is delivered at most once: after a frame was handed to a waiting
/// caller, the same frame arriving again resolves no one.
pub proof fn lemma_reply_at_most_once<H>(
    before: Map<RequestId, H>,
    frame: Json,
    mid: Map<RequestId, H>,
    first: Inbound<H>,
    after: Map<RequestId, H>,
    second: Inbound<H>,
)
    requires
        route_outcome(before, frame, mid, first),
        first is Reply,
        route_outcome(mid, frame, after, second),
    ensures
        !(second is Reply),
        after == mid,
{
    let resp = first->Reply_1;
    assert(!mid.contains_key(resp.meta.id));
    if second is Reply {
        let other = second->Reply_1;
        assert(other.meta.id == resp.meta.id);
    }
}

/// Once the deadline of `id` has expired its entry, a late reply for `id` is
/// routed as a notification-shaped frame or dropped, never delivered.
pub proof fn lemma_late_reply_dropped<H>(
    waiting: Map<RequestId, H>,
    id: RequestId,
    frame: Json,
    after: Map<RequestId, H>,
    r: Inbound<H>,
    resp: Response,
)
    requires
        route_outcome(waiting.remove(id), frame, after, r),
        response_decodes_to(frame, resp),
        resp.meta.id == id,
    ensures
        !(r is Reply),
        after == waiting.remove(id),
{
}

/// A closed connection resolves no request and accepts none: its table is
/// empty, so no frame is delivered, and registering fails as closed.
pub proof fn lemma_closed_resolves_nothing<H>(
    frame: Json,
    after: Map<RequestId, H>,
    r: Inbound<H>,
)
    requires
        route_outcome(Map::<RequestId, H>::empty(), frame, after, r),
    ensures
        !(r is Reply),
        after == Map::<RequestId, H>::empty(),
{
}

} // verus!
