//! The client side of the boundary: one call on the capability becomes one
//! request on the wire, sent again for as long as the channel drops it, and
//! answered by exactly one response.
//!
//! The client decides and the embedding program performs: each decision is
//! an action (send these bytes, receive, hand this result to the caller),
//! and each thing that happened on the channel comes back as an event.

use crate::error::{CodecError, Error, ErrorView, TransportError};
use crate::request::{Request, RequestView};
use crate::response::{decode_response, lemma_response_round_trip, Response, ResponseView};
use vstd::prelude::*;

verus! {

/// An IP address, as the number it stands for.
#[derive(Clone, Copy, Debug, PartialEq, Eq, Structural)]
pub enum IpAddress {
    V4(u32),
    V6(u128),
}

/// Where the capability listens.
#[derive(Clone, Copy, Debug, PartialEq, Eq, Structural)]
pub struct SocketAddress {
    pub ip: IpAddress,
    pub port: u16,
}

/// How long to wait before a failed write is tried again. The wait starts at
/// `base_delay_ms`, doubles with each further failure and never exceeds
/// `max_delay_ms`; the number of tries is not limited.
#[derive(Clone, Copy, Debug, PartialEq, Eq, Structural)]
pub struct RetryPolicy {
    pub base_delay_ms: u64,
    pub max_delay_ms: u64,
}

impl RetryPolicy {
    pub open spec fn spec_immediate() -> RetryPolicy {
        RetryPolicy { base_delay_ms: 0, max_delay_ms: 0 }
    }

    /// The policy that tries again at once, every time.
    #[verifier::when_used_as_spec(spec_immediate)]
    pub fn immediate() -> (policy: RetryPolicy)
        ensures
            policy == RetryPolicy::spec_immediate(),
    {
        RetryPolicy { base_delay_ms: 0, max_delay_ms: 0 }
    }

    /// The wait before the next try, given the wait before the last one
    /// (zero before the first failure): the base wait at first, then twice
    /// the last wait, and never more than the bound.
    pub open spec fn spec_next_delay(&self, delay_ms: u64) -> u64 {
        let wanted = if delay_ms == 0 {
            self.base_delay_ms as int
        } else {
            2 * delay_ms
        };
        if wanted <= self.max_delay_ms {
            wanted as u64
        } else {
            self.max_delay_ms
        }
    }

    /// The wait before the next try, given the wait before the last one.
    #[verifier::when_used_as_spec(spec_next_delay)]
    pub fn next_delay(&self, delay_ms: u64) -> (next: u64)
        ensures
            next == self.spec_next_delay(delay_ms),
            next <= self.max_delay_ms,
    {
        if delay_ms == 0 {
            if self.base_delay_ms <= self.max_delay_ms {
                self.base_delay_ms
            } else {
                self.max_delay_ms
            }
        } else if delay_ms <= self.max_delay_ms / 2 {
            2 * delay_ms
        } else {
            self.max_delay_ms
        }
    }
}

/// Where a client stands in a call.
#[derive(Clone, Copy, Debug, PartialEq, Eq, Structural)]
pub enum ClientPhase {
    /// No call is in flight.
    Idle,
    /// The request is to be written to the channel.
    Sending,
    /// The request was written; the response is awaited.
    Receiving,
}

/// What happened on the channel.
#[derive(Clone, Debug, PartialEq, Eq)]
pub enum ClientEvent {
    /// The message was written in full.
    Sent,
    /// The write failed.
    SendFailed { error: TransportError },
    /// One complete message was read.
    Received { message: Vec<u8> },
    /// The read failed.
    ReceiveFailed { error: TransportError },
}

/// The logical value of a [`ClientEvent`].
pub ghost enum ClientEventView {
    Sent,
    SendFailed { error: TransportError },
    Received { message: Seq<u8> },
    ReceiveFailed { error: TransportError },
}

impl View for ClientEvent {
    type V = ClientEventView;

    open spec fn view(&self) -> ClientEventView {
        match self {
            ClientEvent::Sent => ClientEventView::Sent,
            ClientEvent::SendFailed { error } => ClientEventView::SendFailed { error: *error },
            ClientEvent::Received { message } => ClientEventView::Received { message: message@ },
            ClientEvent::ReceiveFailed { error } => ClientEventView::ReceiveFailed {
                error: *error,
            },
        }
    }
}

/// What the client asks the embedding program to do next.
#[derive(Debug, PartialEq, Eq)]
pub enum ClientAction {
    /// Wait `delay_ms` milliseconds, then write `message` to the channel.
    Send { message: Vec<u8>, delay_ms: u64 },
    /// Read one message from the channel.
    Receive,
    /// The call is over: hand `result` to the caller.
    Complete { result: Result<Response, Error> },
    /// A call is in flight; the new request was not taken.
    Busy,
    /// No call is in flight; there is nothing to do.
    Idle,
}

/// The logical value of a [`ClientAction`].
pub ghost enum ClientActionView {
    Send { message: Seq<u8>, delay_ms: u64 },
    Receive,
    Complete { result: Result<ResponseView, ErrorView> },
    Busy,
    Idle,
}

impl View for ClientAction {
    type V = ClientActionView;

    open spec fn view(&self) -> ClientActionView {
        match self {
            ClientAction::Send { message, delay_ms } => ClientActionView::Send {
                message: message@,
                delay_ms: *delay_ms,
            },
            ClientAction::Receive => ClientActionView::Receive,
            ClientAction::Complete { result } => ClientActionView::Complete {
                result: match result {
                    Ok(response) => Ok(response@),
                    Err(error) => Err(error@),
                },
            },
            ClientAction::Busy => ClientActionView::Busy,
            ClientAction::Idle => ClientActionView::Idle,
        }
    }
}

/// The state of a client: where it reaches the capability, how it retries,
/// and the call in flight, if any.
pub ghost struct ClientState {
    pub server_address: SocketAddress,
    pub policy: RetryPolicy,
    pub phase: ClientPhase,
    /// The encoded request of the call in flight.
    pub pending: Seq<u8>,
    /// The wait before the write that is being tried.
    pub delay_ms: u64,
}

impl ClientState {
    /// A client with no call in flight.
    pub open spec fn idle(server_address: SocketAddress, policy: RetryPolicy) -> ClientState {
        ClientState {
            server_address,
            policy,
            phase: ClientPhase::Idle,
            pending: Seq::empty(),
            delay_ms: 0,
        }
    }

    /// This client once its call is over.
    pub open spec fn finished(self) -> ClientState {
        ClientState::idle(self.server_address, self.policy)
    }

    /// This client about to write the request of its call, after `delay_ms`.
    pub open spec fn sending(self, pending: Seq<u8>, delay_ms: u64) -> ClientState {
        ClientState { phase: ClientPhase::Sending, pending, delay_ms, ..self }
    }

    /// This client waiting for the response to its call.
    pub open spec fn receiving(self) -> ClientState {
        ClientState { phase: ClientPhase::Receiving, delay_ms: 0, ..self }
    }
}

/// What the caller gets for the bytes of a reply: the response they decode
/// to, the failure the response carries, or the failure to decode them.
pub open spec fn call_result(reply: Seq<u8>) -> Result<ResponseView, ErrorView> {
    match decode_response(reply) {
        Ok(ResponseView::Failed { error }) => Err(error),
        Ok(response) => Ok(response),
        Err(cause) => Err(ErrorView::Serialization { cause }),
    }
}

/// How a call begins. A client with a call in flight takes no other. A
/// request that cannot be encoded ends the call at once. Otherwise the
/// encoded request is to be written, without delay.
pub open spec fn begin(state: ClientState, request: RequestView) -> (ClientState, ClientActionView) {
    if state.phase != ClientPhase::Idle {
        (state, ClientActionView::Busy)
    } else if !request.fits() {
        (
            state,
            ClientActionView::Complete {
                result: Err(ErrorView::Serialization { cause: CodecError::SequenceTooLong }),
            },
        )
    } else {
        (
            state.sending(request.encoding(), 0),
            ClientActionView::Send { message: request.encoding(), delay_ms: 0 },
        )
    }
}

/// How a call goes on after `event`.
///
/// A failed write is tried again, whatever the failure, after the wait the
/// policy gives. Once written, the response is read. A stream that the peer
/// closed means the request was not delivered: it is written again. Any
/// other failure to read ends the call with that failure. A reply ends the
/// call with what it decodes to. An event that does not answer the action
/// in progress changes nothing, and the action is asked for again.
pub open spec fn step(state: ClientState, event: ClientEventView) -> (ClientState, ClientActionView) {
    match state.phase {
        ClientPhase::Idle => (state, ClientActionView::Idle),
        ClientPhase::Sending => match event {
            ClientEventView::Sent => (state.receiving(), ClientActionView::Receive),
            ClientEventView::SendFailed { error } => {
                let delay_ms = state.policy.next_delay(state.delay_ms);
                (
                    state.sending(state.pending, delay_ms),
                    ClientActionView::Send { message: state.pending, delay_ms },
                )
            },
            _ => (
                state,
                ClientActionView::Send { message: state.pending, delay_ms: state.delay_ms },
            ),
        },
        ClientPhase::Receiving => match event {
            ClientEventView::Received { message } => (
                state.finished(),
                ClientActionView::Complete { result: call_result(message) },
            ),
            ClientEventView::ReceiveFailed { error } => if error
                == TransportError::RemoteStreamClosed {
                (
                    state.sending(state.pending, 0),
                    ClientActionView::Send { message: state.pending, delay_ms: 0 },
                )
            } else {
                (
                    state.finished(),
                    ClientActionView::Complete {
                        result: Err(ErrorView::Transport { cause: error }),
                    },
                )
            },
            _ => (state, ClientActionView::Receive),
        },
    }
}

/// The state a client reaches from `state` as `events` happen one after
/// another, and the actions it asks for on the way.
pub open spec fn run(state: ClientState, events: Seq<ClientEventView>) -> (
    ClientState,
    Seq<ClientActionView>,
)
    decreases events.len(),
{
    if events.len() == 0 {
        (state, Seq::empty())
    } else {
        let (next, action) = step(state, events[0]);
        let (last, actions) = run(next, events.skip(1));
        (last, seq![action] + actions)
    }
}

/// The events of `attempts` tries that the peer cut short: each time the
/// write goes through and the read finds the stream closed.
pub open spec fn dropped_attempts(attempts: nat) -> Seq<ClientEventView>
    decreases attempts,
{
    if attempts == 0 {
        Seq::empty()
    } else {
        seq![
            ClientEventView::Sent,
            ClientEventView::ReceiveFailed { error: TransportError::RemoteStreamClosed },
        ] + dropped_attempts((attempts - 1) as nat)
    }
}

/// The events of a try that is answered with `reply`.
pub open spec fn answered_attempt(reply: Seq<u8>) -> Seq<ClientEventView> {
    seq![ClientEventView::Sent, ClientEventView::Received { message: reply }]
}

/// What a client asks for while `attempts` tries are cut short and the next
/// one is answered with `reply`: after each try that was cut short it writes
/// the same bytes `pending` again, at once; at the end it hands out what the
/// reply decodes to.
pub open spec fn retried_actions(pending: Seq<u8>, attempts: nat, reply: Seq<u8>) -> Seq<
    ClientActionView,
>
    decreases attempts,
{
    if attempts == 0 {
        seq![ClientActionView::Receive, ClientActionView::Complete { result: call_result(reply) }]
    } else {
        seq![
            ClientActionView::Receive,
            ClientActionView::Send { message: pending, delay_ms: 0 },
        ] + retried_actions(pending, (attempts - 1) as nat, reply)
    }
}

/// What the caller gets for the encoding of a response: the failure it
/// carries, or the response itself.
pub proof fn lemma_call_result_of_encoded(response: ResponseView)
    requires
        response.fits(),
    ensures
        call_result(response.encoding()) == match response {
            ResponseView::Failed { error } => Err::<ResponseView, ErrorView>(error),
            _ => Ok::<ResponseView, ErrorView>(response),
        },
{
    lemma_response_round_trip(response);
}

/// A client that is writing its request, and whose peer cuts `attempts`
/// tries short before it answers with `reply`, writes the same request after
/// each of them and ends the call with what `reply` decodes to.
pub proof fn lemma_retry_from_sending(state: ClientState, attempts: nat, reply: Seq<u8>)
    requires
        state.phase == ClientPhase::Sending,
    ensures
        run(state, dropped_attempts(attempts) + answered_attempt(reply)) == (
            state.finished(),
            retried_actions(state.pending, attempts, reply),
        ),
    decreases attempts,
{
    let events = dropped_attempts(attempts) + answered_attempt(reply);
    let waiting = state.receiving();
    assert(events[0] == ClientEventView::Sent);
    assert(step(state, events[0]) == (waiting, ClientActionView::Receive));
    let after_first = events.skip(1);
    if attempts == 0 {
        assert(after_first[0] == ClientEventView::Received { message: reply });
        assert(after_first.skip(1) =~= Seq::<ClientEventView>::empty());
        assert(run(waiting.finished(), after_first.skip(1)) == (
            waiting.finished(),
            Seq::<ClientActionView>::empty(),
        ));
        assert(run(waiting, after_first).1 =~= seq![
            ClientActionView::Complete { result: call_result(reply) },
        ]);
        assert(run(state, events).1 =~= retried_actions(state.pending, attempts, reply));
    } else {
        let again = waiting.sending(state.pending, 0);
        let fewer = (attempts - 1) as nat;
        assert(after_first[0] == ClientEventView::ReceiveFailed {
            error: TransportError::RemoteStreamClosed,
        });
        assert(after_first.skip(1) =~= dropped_attempts(fewer) + answered_attempt(reply));
        lemma_retry_from_sending(again, fewer, reply);
        assert(again.finished() == state.finished());
        assert(run(waiting, after_first).1 =~= seq![
            ClientActionView::Send { message: state.pending, delay_ms: 0 },
        ] + retried_actions(state.pending, fewer, reply));
        assert(run(state, events).1 =~= retried_actions(state.pending, attempts, reply));
    }
}

/// Retry until delivered. A call begins on an idle client; the peer closes
/// the stream on each of the first `attempts` tries and answers the next one
/// with the encoding of `response`. Then the client writes the encoding of
/// the same request every time, ends idle, and hands the caller that very
/// response (or the failure that the response carries).
pub proof fn lemma_retry_until_delivered(
    state: ClientState,
    request: RequestView,
    response: ResponseView,
    attempts: nat,
)
    requires
        state.phase == ClientPhase::Idle,
        request.fits(),
        response.fits(),
    ensures
        begin(state, request).1 == (ClientActionView::Send {
            message: request.encoding(),
            delay_ms: 0,
        }),
        run(
            begin(state, request).0,
            dropped_attempts(attempts) + answered_attempt(response.encoding()),
        ) == (
            state.finished(),
            retried_actions(request.encoding(), attempts, response.encoding()),
        ),
        call_result(response.encoding()) == match response {
            ResponseView::Failed { error } => Err::<ResponseView, ErrorView>(error),
            _ => Ok::<ResponseView, ErrorView>(response),
        },
{
    let started = begin(state, request).0;
    lemma_retry_from_sending(started, attempts, response.encoding());
    lemma_call_result_of_encoded(response);
}

/// Calls do not overlap. While a call is in flight the client takes no other
/// request, and whatever happens on the channel, anything it writes is the
/// request of that call, which stays in flight until the call is over.
pub proof fn lemma_calls_do_not_overlap(
    state: ClientState,
    other: RequestView,
    event: ClientEventView,
)
    requires
        state.phase != ClientPhase::Idle,
    ensures
        begin(state, other) == (state, ClientActionView::Busy),
        step(state, event).1 matches ClientActionView::Send { message, .. } ==> message
            == state.pending,
        step(state, event).1 is Complete <==> step(state, event).0.phase == ClientPhase::Idle,
        step(state, event).0.phase != ClientPhase::Idle ==> step(state, event).0.pending
            == state.pending,
{
}

/// The remote client adapter: the one place that knows how the capability is
/// reached.
pub struct RemoteClient {
    server_address: SocketAddress,
    policy: RetryPolicy,
    phase: ClientPhase,
    pending: Vec<u8>,
    delay_ms: u64,
}

impl View for RemoteClient {
    type V = ClientState;

    closed spec fn view(&self) -> ClientState {
        ClientState {
            server_address: self.server_address,
            policy: self.policy,
            phase: self.phase,
            pending: self.pending@,
            delay_ms: self.delay_ms,
        }
    }
}

impl RemoteClient {
    /// A client of the capability at `server_address` that tries failed
    /// writes again at once.
    pub fn new(server_address: SocketAddress) -> (client: RemoteClient)
        ensures
            client@ == ClientState::idle(server_address, RetryPolicy::immediate()),
    {
        RemoteClient::with_policy(server_address, RetryPolicy::immediate())
    }

    /// A client of the capability at `server_address` that waits as `policy`
    /// says before it tries a failed write again.
    pub fn with_policy(server_address: SocketAddress, policy: RetryPolicy) -> (client: RemoteClient)
        ensures
            client@ == ClientState::idle(server_address, policy),
    {
        RemoteClient {
            server_address,
            policy,
            phase: ClientPhase::Idle,
            pending: Vec::new(),
            delay_ms: 0,
        }
    }

    /// Where the capability listens.
    pub fn server_address(&self) -> (address: SocketAddress)
        ensures
            address == self@.server_address,
    {
        self.server_address
    }

    /// Where the client stands in its call.
    pub fn phase(&self) -> (phase: ClientPhase)
        ensures
            phase == self@.phase,
    {
        self.phase
    }

    /// Begins a call with `input`, and says what to do first.
    pub fn request(&mut self, input: &Request) -> (action: ClientAction)
        ensures
            (final(self)@, action@) == begin(old(self)@, input@),
    {
        match self.phase {
            ClientPhase::Idle => {},
            _ => { return ClientAction::Busy; },
        }
        match input.encode() {
            Ok(message) => {
                let pending = message.clone();
                assert(pending@ =~= message@);
                self.phase = ClientPhase::Sending;
                self.pending = pending;
                self.delay_ms = 0;
                ClientAction::Send { message, delay_ms: 0 }
            },
            Err(cause) => ClientAction::Complete { result: Err(Error::Serialization { cause }) },
        }
    }

    /// Takes in what happened on the channel, and says what to do next.
    pub fn on_event(&mut self, event: ClientEvent) -> (action: ClientAction)
        ensures
            (final(self)@, action@) == step(old(self)@, event@),
    {
        match self.phase {
            ClientPhase::Idle => ClientAction::Idle,
            ClientPhase::Sending => match event {
                ClientEvent::Sent => {
                    self.phase = ClientPhase::Receiving;
                    self.delay_ms = 0;
                    ClientAction::Receive
                },
                ClientEvent::SendFailed { error } => {
                    self.delay_ms = self.policy.next_delay(self.delay_ms);
                    self.send_again()
                },
                _ => self.send_again(),
            },
            ClientPhase::Receiving => match event {
                ClientEvent::Received { message } => {
                    self.finish();
                    ClientAction::Complete { result: decode_reply(message.as_slice()) }
                },
                ClientEvent::ReceiveFailed { error } => {
                    if error.is_transient() {
                        self.phase = ClientPhase::Sending;
                        self.delay_ms = 0;
                        self.send_again()
                    } else {
                        self.finish();
                        ClientAction::Complete { result: Err(Error::Transport { cause: error }) }
                    }
                },
                _ => ClientAction::Receive,
            },
        }
    }

    /// The action that writes the request in flight once more.
    fn send_again(&self) -> (action: ClientAction)
        ensures
            action@ == (ClientActionView::Send {
                message: self@.pending,
                delay_ms: self@.delay_ms,
            }),
    {
        let message = self.pending.clone();
        assert(message@ =~= self.pending@);
        ClientAction::Send { message, delay_ms: self.delay_ms }
    }

    /// Ends the call in flight.
    fn finish(&mut self)
        ensures
            final(self)@ == old(self)@.finished(),
    {
        self.phase = ClientPhase::Idle;
        self.pending = Vec::new();
        self.delay_ms = 0;
    }
}

/// Decodes the bytes of a reply into what the caller gets.
pub fn decode_reply(reply: &[u8]) -> (result: Result<Response, Error>)
    ensures
        call_result(reply@) == match result {
            Ok(response) => Ok::<ResponseView, ErrorView>(response@),
            Err(error) => Err::<ResponseView, ErrorView>(error@),
        },
{
    match Response::decode(reply) {
        Ok(Response::Failed { error }) => Err(error),
        Ok(response) => Ok(response),
        Err(cause) => Err(Error::Serialization { cause }),
    }
}

/// Something that runs the capability somewhere and knows where it listens.
pub trait RemoteService {
    /// The address at which the capability is served.
    fn server_address(&self) -> SocketAddress;

    /// A client of this service, with no call in flight: it reaches the
    /// capability at the address that `server_address` gives.
    fn client(&self) -> (client: RemoteClient)
        ensures
            call_ensures(Self::server_address, (self,), client@.server_address),
            client@ == ClientState::idle(client@.server_address, RetryPolicy::immediate()),
    {
        RemoteClient::new(self.server_address())
    }
}

} // verus!
