//! One client connection, as the shard that holds it drives it.
//!
//! A connection waits for a request, is answered by the shard that holds it or
//! moves to the shard that the request belongs to, and then waits for the next
//! request. The caller carries out each action and reports its outcome.

use crate::cache;
use crate::fibonacci;
use crate::request;
use crate::shard;
use crate::shard::Shard;
use crate::text;
use vstd::prelude::*;
use vstd::string::*;
use vstd::utf8::*;

verus! {

/// What a connection waits for.
pub enum ConnectionState {
    /// The next request of the client.
    AwaitingRequest,
    /// The word whether another shard takes the connection over.
    AwaitingHandover,
    /// The end of writing an answer.
    AwaitingReply,
    /// The end of writing the refusal of a request.
    AwaitingRefusal,
    /// Nothing: another shard has taken the connection over.
    HandedOver,
    /// Nothing: the connection is closed.
    Closed,
}

/// The outcome of an action.
pub enum ConnectionEvent {
    /// These bytes were read, none at the end of the stream.
    Received(Vec<u8>),
    /// Reading failed.
    ReadFailed,
    /// The other shard's channel took the connection.
    HandoverAccepted,
    /// The other shard's channel is full or gone.
    HandoverRejected,
    /// Writing ended, well or badly.
    WriteFinished,
}

/// What to do next with a connection.
pub enum ConnectionAction {
    /// Read the next request.
    Receive,
    /// Send the connection, with the number that it asks for, to a shard.
    HandOver { target: usize, value: u64 },
    /// Write an answer.
    Reply(String),
    /// Write why the request is refused.
    Refuse(String),
    /// Forget the connection without closing it: it is another shard's now.
    Release,
    /// Close the connection.
    Close,
}

/// What a client is told whose request could not reach its shard.
pub open spec fn refusal_text() -> Seq<char> {
    "Server is overwhelmed. Please try again later.\n"@
}

/// The outcome is one of the action that the connection waits for.
pub open spec fn awaited(state: ConnectionState, event: ConnectionEvent) -> bool {
    match state {
        ConnectionState::AwaitingRequest => event is Received || event is ReadFailed,
        ConnectionState::AwaitingHandover => event is HandoverAccepted || event is HandoverRejected,
        ConnectionState::AwaitingReply => event is WriteFinished,
        ConnectionState::AwaitingRefusal => event is WriteFinished,
        ConnectionState::HandedOver => false,
        ConnectionState::Closed => false,
    }
}

/// The number that an outcome asks for.
pub open spec fn asked_number(event: ConnectionEvent) -> Option<u64> {
    match event {
        ConnectionEvent::Received(received) => request::requested_number(received@),
        _ => None,
    }
}

/// What a connection that shard `id` of `count` holds waits for after an
/// outcome that it waited for.
pub open spec fn state_after(
    id: usize,
    count: usize,
    state: ConnectionState,
    event: ConnectionEvent,
) -> ConnectionState {
    match state {
        ConnectionState::AwaitingRequest => match asked_number(event) {
            None => ConnectionState::Closed,
            Some(value) => if shard::shard_of(value, count) == id {
                ConnectionState::AwaitingReply
            } else {
                ConnectionState::AwaitingHandover
            },
        },
        ConnectionState::AwaitingHandover => if event is HandoverAccepted {
            ConnectionState::HandedOver
        } else {
            ConnectionState::AwaitingRefusal
        },
        ConnectionState::AwaitingReply => ConnectionState::AwaitingRequest,
        ConnectionState::AwaitingRefusal => ConnectionState::Closed,
        ConnectionState::HandedOver => ConnectionState::HandedOver,
        ConnectionState::Closed => ConnectionState::Closed,
    }
}

/// Starts with a connection that a client has just opened.
pub fn accept() -> (next: (ConnectionState, ConnectionAction))
    ensures
        next.0 is AwaitingRequest,
        next.1 is Receive,
{
    (ConnectionState::AwaitingRequest, ConnectionAction::Receive)
}

/// Starts with a connection that another shard has handed over, along with a
/// request for `value`.
pub fn adopt(shard: &mut Shard, value: u64) -> (next: (ConnectionState, ConnectionAction))
    requires
        old(shard).wf(),
    ensures
        next.0 is AwaitingReply,
        next.1 matches ConnectionAction::Reply(response) && response@ == shard::reply_text(
            old(shard).id(),
            value,
            fibonacci::wrapped_fib(value as nat),
            cache::has_key(old(shard).numbers().entries(), value),
        ),
        final(shard).wf(),
        final(shard).has_served(*old(shard), value),
        old(shard).caches_only_its_own() && shard::shard_of(value, old(shard).count()) == old(
            shard,
        ).id() ==> final(shard).caches_only_its_own(),
{
    (ConnectionState::AwaitingReply, ConnectionAction::Reply(shard.answer(value)))
}

/// Whether the outcome is one of the action that the connection waits for.
pub fn awaits(state: &ConnectionState, event: &ConnectionEvent) -> (yes: bool)
    ensures
        yes == awaited(*state, *event),
{
    match (state, event) {
        (ConnectionState::AwaitingRequest, ConnectionEvent::Received(_)) => true,
        (ConnectionState::AwaitingRequest, ConnectionEvent::ReadFailed) => true,
        (ConnectionState::AwaitingHandover, ConnectionEvent::HandoverAccepted) => true,
        (ConnectionState::AwaitingHandover, ConnectionEvent::HandoverRejected) => true,
        (ConnectionState::AwaitingReply, ConnectionEvent::WriteFinished) => true,
        (ConnectionState::AwaitingRefusal, ConnectionEvent::WriteFinished) => true,
        _ => false,
    }
}

/// Takes in the outcome of the last action and says what to do next.
pub fn advance(shard: &mut Shard, state: ConnectionState, event: ConnectionEvent) -> (next: (
    ConnectionState,
    ConnectionAction,
))
    requires
        old(shard).wf(),
        awaited(state, event),
    ensures
        next.0 == state_after(old(shard).id(), old(shard).count(), state, event),
        match next.0 {
            ConnectionState::AwaitingRequest => next.1 is Receive,
            ConnectionState::AwaitingHandover => {
                &&& asked_number(event) matches Some(value)
                &&& next.1 == (ConnectionAction::HandOver {
                    target: shard::shard_of(value, old(shard).count()),
                    value,
                })
            },
            ConnectionState::AwaitingReply => {
                &&& asked_number(event) matches Some(value)
                &&& next.1 matches ConnectionAction::Reply(response)
                &&& response@ == shard::reply_text(
                    old(shard).id(),
                    value,
                    fibonacci::wrapped_fib(value as nat),
                    cache::has_key(old(shard).numbers().entries(), value),
                )
            },
            ConnectionState::AwaitingRefusal => next.1 matches ConnectionAction::Refuse(refusal)
                && refusal@ == refusal_text(),
            ConnectionState::HandedOver => next.1 is Release,
            ConnectionState::Closed => next.1 is Close,
        },
        match (state, event) {
            (ConnectionState::AwaitingRequest, ConnectionEvent::Received(received))
                => match request::requested_number(received@) {
                Some(value) => if shard::shard_of(value, old(shard).count()) == old(shard).id() {
                    &&& next.0 is AwaitingReply
                    &&& next.1 matches ConnectionAction::Reply(response)
                    &&& response@ == shard::reply_text(
                        old(shard).id(),
                        value,
                        fibonacci::wrapped_fib(value as nat),
                        cache::has_key(old(shard).numbers().entries(), value),
                    )
                    &&& final(shard).has_served(*old(shard), value)
                } else {
                    &&& next.0 is AwaitingHandover
                    &&& next.1 == (ConnectionAction::HandOver {
                        target: shard::shard_of(value, old(shard).count()),
                        value,
                    })
                    &&& *final(shard) == *old(shard)
                },
                None => next.0 is Closed && next.1 is Close && *final(shard) == *old(shard),
            },
            (ConnectionState::AwaitingRequest, _) => next.0 is Closed && next.1 is Close
                && *final(shard) == *old(shard),
            _ => *final(shard) == *old(shard),
        },
        final(shard).wf(),
        match asked_number(event) {
            Some(value) if shard::shard_of(value, old(shard).count()) == old(shard).id()
                => final(shard).has_served(*old(shard), value),
            _ => *final(shard) == *old(shard),
        },
        old(shard).caches_only_its_own() ==> final(shard).caches_only_its_own(),
{
    match event {
        ConnectionEvent::Received(received) => match request::parse_request(received.as_slice()) {
            None => (ConnectionState::Closed, ConnectionAction::Close),
            Some(value) => {
                let target: usize = shard::route(value, shard.nbr_shards());
                if target != shard.shard_id() {
                    (
                        ConnectionState::AwaitingHandover,
                        ConnectionAction::HandOver { target, value },
                    )
                } else {
                    (ConnectionState::AwaitingReply, ConnectionAction::Reply(shard.answer(value)))
                }
            },
        },
        ConnectionEvent::ReadFailed => (ConnectionState::Closed, ConnectionAction::Close),
        ConnectionEvent::HandoverAccepted => (
            ConnectionState::HandedOver,
            ConnectionAction::Release,
        ),
        ConnectionEvent::HandoverRejected => (
            ConnectionState::AwaitingRefusal,
            ConnectionAction::Refuse(
                "Server is overwhelmed. Please try again later.\n".to_owned(),
            ),
        ),
        ConnectionEvent::WriteFinished => match state {
            ConnectionState::AwaitingReply => (
                ConnectionState::AwaitingRequest,
                ConnectionAction::Receive,
            ),
            _ => (ConnectionState::Closed, ConnectionAction::Close),
        },
    }
}

/// Requests for one number always end up at one and the same shard: it is one
/// of those that there are, it answers them itself, and every other shard hands
/// them over.
pub proof fn lemma_same_number_same_shard(value: u64, count: usize)
    requires
        count > 0,
    ensures
        shard::shard_of(value, count) < count,
        forall|id: usize, event: ConnectionEvent|
            asked_number(event) == Some(value) ==> #[trigger] state_after(
                id,
                count,
                ConnectionState::AwaitingRequest,
                event,
            ) == (if id == shard::shard_of(value, count) {
                ConnectionState::AwaitingReply
            } else {
                ConnectionState::AwaitingHandover
            }),
{
}

/// A connection outlives the requests on it: once the shard that a request
/// belongs to has written its answer, the connection waits for the next one,
/// whether it was handed over for this request or not.
pub proof fn lemma_connection_outlives_request(
    id: usize,
    count: usize,
    event: ConnectionEvent,
    written: ConnectionEvent,
)
    requires
        asked_number(event) matches Some(value) && shard::shard_of(value, count) == id,
    ensures
        state_after(
            id,
            count,
            state_after(id, count, ConnectionState::AwaitingRequest, event),
            written,
        ) is AwaitingRequest,
        state_after(id, count, ConnectionState::AwaitingReply, written) is AwaitingRequest,
{
}

/// The shard that holds a connection once a request on it is answered: the one
/// that held it before, or the one that took it over.
pub open spec fn holder_after(id: usize, count: usize, event: ConnectionEvent) -> usize {
    match (state_after(id, count, ConnectionState::AwaitingRequest, event), asked_number(event)) {
        (ConnectionState::AwaitingHandover, Some(value)) => shard::shard_of(value, count),
        _ => id,
    }
}

/// The shard that holds a connection once all of the requests on it are
/// answered, one after another.
pub open spec fn holder_after_all(
    id: usize,
    count: usize,
    events: Seq<ConnectionEvent>,
) -> usize
    decreases events.len(),
{
    if events.len() == 0 {
        id
    } else {
        holder_after(holder_after_all(id, count, events.drop_last()), count, events.last())
    }
}

/// A connection follows its requests: whichever shard it began at and whatever
/// was asked on it before, it ends up at the shard that the last request
/// belongs to.
pub proof fn lemma_connection_follows_its_requests(
    id: usize,
    count: usize,
    events: Seq<ConnectionEvent>,
    value: u64,
)
    requires
        events.len() > 0,
        asked_number(events.last()) == Some(value),
    ensures
        holder_after_all(id, count, events) == shard::shard_of(value, count),
{
}

/// A shard gives a connection up to another shard only once that shard's
/// channel has taken it; otherwise the client is told so and the connection
/// closed.
pub proof fn lemma_no_connection_is_lost(id: usize, count: usize, written: ConnectionEvent)
    ensures
        forall|state: ConnectionState, event: ConnectionEvent|
            awaited(state, event) ==> (#[trigger] state_after(id, count, state, event) is HandedOver
                <==> event is HandoverAccepted),
        state_after(
            id,
            count,
            ConnectionState::AwaitingHandover,
            ConnectionEvent::HandoverRejected,
        ) is AwaitingRefusal,
        state_after(id, count, ConnectionState::AwaitingRefusal, written) is Closed,
{
}

/// A connection that was closed or handed over takes no further part.
pub proof fn lemma_finished_connection_awaits_nothing(event: ConnectionEvent)
    ensures
        !awaited(ConnectionState::Closed, event),
        !awaited(ConnectionState::HandedOver, event),
{
}

/// The number that is asked for is the one that was received, and no other.
pub proof fn lemma_asked_is_what_was_received(event: ConnectionEvent)
    ensures
        asked_number(event) == (match event {
            ConnectionEvent::Received(received) => request::requested_number(received@),
            _ => None,
        }),
{
}

/// Whoever sends the line for a number `n` is answered for `n`, by the shard
/// whose number is the remainder of `n`; at any other shard the connection waits
/// to be handed over.
pub proof fn lemma_line_reaches_its_shard(
    n: u64,
    id: usize,
    count: usize,
    event: ConnectionEvent,
)
    requires
        count > 0,
        event matches ConnectionEvent::Received(received) && received@ == encode_utf8(
            text::decimal(n as nat).push('\n'),
        ),
    ensures
        asked_number(event) == Some(n),
        state_after(id, count, ConnectionState::AwaitingRequest, event) is AwaitingReply <==> id as int
            == (n as usize) as int % count as int,
        state_after(id, count, ConnectionState::AwaitingRequest, event) is AwaitingHandover <==> id
            as int != (n as usize) as int % count as int,
{
    request::lemma_request_round_trip(n);
    assert(request::request_text(n) == text::decimal(n as nat).push('\n'));
}

/// A connection that waits for a request is closed exactly if none comes: if
/// reading failed, or if what was received is no number.
pub proof fn lemma_closed_exactly_without_a_number(
    id: usize,
    count: usize,
    event: ConnectionEvent,
)
    requires
        awaited(ConnectionState::AwaitingRequest, event),
    ensures
        state_after(id, count, ConnectionState::AwaitingRequest, event) is Closed <==> (match event {
            ConnectionEvent::Received(received) => request::requested_number(received@) is None,
            _ => true,
        }),
{
}

/// A client that has closed its end, or that sends blanks only, is gone: its
/// connection is closed.
pub proof fn lemma_silent_client_is_dropped(
    id: usize,
    count: usize,
    event: ConnectionEvent,
    blank: Seq<char>,
)
    requires
        forall|i: int| 0 <= i < blank.len() ==> text::is_white_space(#[trigger] blank[i]),
        event matches ConnectionEvent::Received(received) && (received@.len() == 0 || received@
            == encode_utf8(blank)),
    ensures
        state_after(id, count, ConnectionState::AwaitingRequest, event) is Closed,
{
    request::lemma_what_asks_for_nothing(Seq::empty(), blank);
    if let ConnectionEvent::Received(received) = event {
        if received@.len() == 0 {
            assert(received@ == Seq::<u8>::empty());
        }
    }
}

/// Every action has outcomes, and the connection waits for each of them: for
/// whatever was read, for a failed read, for both words of the other shard, and
/// for the end of a write.
pub proof fn lemma_every_outcome_is_awaited(received: Vec<u8>, event: ConnectionEvent)
    ensures
        awaited(ConnectionState::AwaitingRequest, ConnectionEvent::Received(received)),
        awaited(ConnectionState::AwaitingRequest, ConnectionEvent::ReadFailed),
        awaited(ConnectionState::AwaitingHandover, ConnectionEvent::HandoverAccepted),
        awaited(ConnectionState::AwaitingHandover, ConnectionEvent::HandoverRejected),
        awaited(ConnectionState::AwaitingReply, ConnectionEvent::WriteFinished),
        awaited(ConnectionState::AwaitingRefusal, ConnectionEvent::WriteFinished),
        awaited(ConnectionState::AwaitingRequest, event) ==> event is Received || event
            is ReadFailed,
        awaited(ConnectionState::AwaitingHandover, event) ==> event is HandoverAccepted || event
            is HandoverRejected,
        awaited(ConnectionState::AwaitingReply, event) ==> event is WriteFinished,
        awaited(ConnectionState::AwaitingRefusal, event) ==> event is WriteFinished,
{
}

/// A client whose request could not reach its shard is told so in one line, which
/// it cannot take for an answer.
pub proof fn lemma_refusal_is_no_answer(shard: usize, value: u64, number: u64, cached: bool)
    ensures
        refusal_text() == "Server is overwhelmed. Please try again later.\n"@,
        refusal_text() != shard::reply_text(shard, value, number, cached),
{
    reveal_strlit("Server is overwhelmed. Please try again later.\n");
    reveal_strlit("Reply from shard ");
    assert(refusal_text()[0] == 'S');
    assert(shard::reply_text(shard, value, number, cached)[0] == 'R');
}

} // verus!
