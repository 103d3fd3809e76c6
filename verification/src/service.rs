//! The server side of the boundary: the loop that owns the capability. It
//! takes one message at a time, and whatever that message holds and whatever
//! fails on the way, it comes back to waiting for the next one.
//!
//! The loop decides and the embedding program performs: each decision names
//! the next operation (read, execute this request, write these bytes) and
//! what to log, and each outcome comes back as an event.
//!
//! A message that does not decode gets no reply: it is logged and dropped.

use crate::ed25519::{signature_of, PrivateKey};
use crate::error::{CodecError, Error, ErrorView, TransportError};
use crate::request::{decode_request, Request, RequestView};
use crate::response::{Response, ResponseView};
use vstd::prelude::*;

verus! {

/// Where the loop stands. It is processing a message in the two phases
/// between the read and the end of the write.
#[derive(Clone, Copy, Debug, PartialEq, Eq, Structural)]
pub enum ServicePhase {
    /// Waiting to read the next message.
    Idle,
    /// A request was handed to the capability; its response is awaited.
    Dispatching,
    /// A response was handed to the channel; the end of the write is awaited.
    Writing,
}

/// What came back from the channel or from the capability.
#[derive(Clone, Debug, PartialEq, Eq)]
pub enum ServerEvent {
    /// One complete message was read.
    Read { message: Vec<u8> },
    /// The read failed.
    ReadFailed { error: TransportError },
    /// The capability answered the request it was handed. A failure of the
    /// capability arrives here too, as the response that carries it.
    Executed { response: Response },
    /// The response was written in full.
    Written,
    /// The write failed.
    WriteFailed { error: TransportError },
}

/// The logical value of a [`ServerEvent`].
pub ghost enum ServerEventView {
    Read { message: Seq<u8> },
    ReadFailed { error: TransportError },
    Executed { response: ResponseView },
    Written,
    WriteFailed { error: TransportError },
}

impl View for ServerEvent {
    type V = ServerEventView;

    open spec fn view(&self) -> ServerEventView {
        match self {
            ServerEvent::Read { message } => ServerEventView::Read { message: message@ },
            ServerEvent::ReadFailed { error } => ServerEventView::ReadFailed { error: *error },
            ServerEvent::Executed { response } => ServerEventView::Executed {
                response: response@,
            },
            ServerEvent::Written => ServerEventView::Written,
            ServerEvent::WriteFailed { error } => ServerEventView::WriteFailed { error: *error },
        }
    }
}

/// Why the cycle of one message ended without a reply. This is all that the
/// loop ever hands out to be logged.
#[derive(Clone, Copy, Debug, PartialEq, Eq)]
pub enum Warning {
    /// No message could be read.
    ReadFailed { error: TransportError },
    /// The message is no request.
    Undecodable { cause: CodecError },
    /// The response cannot be put on the wire.
    Unencodable { cause: CodecError },
    /// The response could not be written.
    WriteFailed { error: TransportError },
    /// Something came back that answers no operation in progress.
    UnexpectedEvent,
}

/// What the loop asks the embedding program to do next.
#[derive(Clone, Debug, PartialEq, Eq)]
pub enum Operation {
    /// Read one message from the channel.
    Read,
    /// Hand `request` to the capability.
    Execute { request: Request },
    /// Write `message` to the channel.
    Write { message: Vec<u8> },
}

/// The logical value of an [`Operation`].
pub ghost enum OperationView {
    Read,
    Execute { request: RequestView },
    Write { message: Seq<u8> },
}

impl View for Operation {
    type V = OperationView;

    open spec fn view(&self) -> OperationView {
        match self {
            Operation::Read => OperationView::Read,
            Operation::Execute { request } => OperationView::Execute { request: request@ },
            Operation::Write { message } => OperationView::Write { message: message@ },
        }
    }
}

/// One decision of the loop: what to log, if anything, and what to do next.
#[derive(Clone, Debug, PartialEq, Eq)]
pub struct Decision {
    pub warning: Option<Warning>,
    pub next: Operation,
}

/// The state of the loop: its phase, and the private key it holds, if any.
pub ghost struct ServiceState {
    pub phase: ServicePhase,
    pub key: Option<Seq<u8>>,
}

/// The outcome of one step of the loop: the phase it moves to, what it logs
/// and the operation it asks for.
pub ghost struct Outcome {
    pub phase: ServicePhase,
    pub warning: Option<Warning>,
    pub next: OperationView,
}

/// The cycle ends without a reply: log `warning`, read the next message.
pub open spec fn give_up(warning: Warning) -> Outcome {
    Outcome { phase: ServicePhase::Idle, warning: Some(warning), next: OperationView::Read }
}

/// The response goes to the channel, if it can be encoded.
pub open spec fn reply(response: ResponseView) -> Outcome {
    if response.fits() {
        Outcome {
            phase: ServicePhase::Writing,
            warning: None,
            next: OperationView::Write { message: response.encoding() },
        }
    } else {
        give_up(Warning::Unencodable { cause: CodecError::SequenceTooLong })
    }
}

/// The response to a request for a signature over `message`.
pub open spec fn signing_response(key: Option<Seq<u8>>, message: Seq<u8>) -> ResponseView {
    match key {
        Some(key) => ResponseView::Signed { signature: signature_of(key, message) },
        None => ResponseView::Failed { error: ErrorView::NoSigningKey },
    }
}

/// What the loop does with a message that was read.
pub open spec fn accept(key: Option<Seq<u8>>, message: Seq<u8>) -> Outcome {
    match decode_request(message) {
        Ok(RequestView::Sign { message }) => reply(signing_response(key, message)),
        Ok(request) => Outcome {
            phase: ServicePhase::Dispatching,
            warning: None,
            next: OperationView::Execute { request },
        },
        Err(cause) => give_up(Warning::Undecodable { cause }),
    }
}

/// One step of the loop.
///
/// Waiting, a message that decodes to a request is handed to the capability;
/// a request for a signature is answered from the key at once. Processing,
/// the response of the capability is written, and the end of the write,
/// good or bad, ends the cycle. Every failure, and every event that answers
/// no operation in progress, ends the cycle without a reply and with a
/// warning. No step ends the loop.
pub open spec fn serve(state: ServiceState, event: ServerEventView) -> Outcome {
    match (state.phase, event) {
        (ServicePhase::Idle, ServerEventView::Read { message }) => accept(state.key, message),
        (ServicePhase::Idle, ServerEventView::ReadFailed { error }) => give_up(
            Warning::ReadFailed { error },
        ),
        (ServicePhase::Dispatching, ServerEventView::Executed { response }) => reply(response),
        (ServicePhase::Writing, ServerEventView::Written) => Outcome {
            phase: ServicePhase::Idle,
            warning: None,
            next: OperationView::Read,
        },
        (ServicePhase::Writing, ServerEventView::WriteFailed { error }) => give_up(
            Warning::WriteFailed { error },
        ),
        _ => give_up(Warning::UnexpectedEvent),
    }
}

/// The state after a step: the phase moves on, the key stays.
pub open spec fn after(state: ServiceState, event: ServerEventView) -> ServiceState {
    ServiceState { phase: serve(state, event).phase, key: state.key }
}

/// What the loop logs and asks for as `events` come in one after another.
pub open spec fn serve_all(state: ServiceState, events: Seq<ServerEventView>) -> Seq<Outcome>
    decreases events.len(),
{
    if events.len() == 0 {
        Seq::empty()
    } else {
        seq![serve(state, events[0])] + serve_all(after(state, events[0]), events.skip(1))
    }
}

/// The state the loop is in after `events` came in one after another.
pub open spec fn state_after_all(state: ServiceState, events: Seq<ServerEventView>) -> ServiceState
    decreases events.len(),
{
    if events.len() == 0 {
        state
    } else {
        state_after_all(after(state, events[0]), events.skip(1))
    }
}

/// The events of reading `messages` one after another.
pub open spec fn reads(messages: Seq<Seq<u8>>) -> Seq<ServerEventView> {
    Seq::new(messages.len(), |i: int| ServerEventView::Read { message: messages[i] })
}

/// The loop never stops: after every step it asks for an operation, and
/// that operation is the one its new phase waits for.
pub proof fn lemma_loop_goes_on(state: ServiceState, event: ServerEventView)
    ensures
        serve(state, event).phase == ServicePhase::Idle <==> serve(state, event).next
            == OperationView::Read,
        serve(state, event).phase == ServicePhase::Dispatching <==> serve(
            state,
            event,
        ).next is Execute,
        serve(state, event).phase == ServicePhase::Writing <==> serve(state, event).next is Write,
        serve(state, event).phase != ServicePhase::Idle ==> serve(state, event).warning is None,
{
}

/// Every cycle ends: whatever comes back while a message is processed, the
/// loop is waiting for the next message after two steps at most.
pub proof fn lemma_processing_ends(
    state: ServiceState,
    first: ServerEventView,
    second: ServerEventView,
)
    requires
        state.phase != ServicePhase::Idle,
    ensures
        state.phase == ServicePhase::Writing ==> after(state, first).phase == ServicePhase::Idle,
        after(state, first).phase == ServicePhase::Idle || after(
            after(state, first),
            second,
        ).phase == ServicePhase::Idle,
{
}

/// A message that is no request is dropped: nothing is written, nothing is
/// handed to the capability, the cause is logged and the loop reads on.
pub proof fn lemma_malformed_message_is_dropped(key: Option<Seq<u8>>, message: Seq<u8>)
    requires
        decode_request(message) is Err,
    ensures
        serve(
            ServiceState { phase: ServicePhase::Idle, key },
            ServerEventView::Read { message },
        ) == give_up(Warning::Undecodable { cause: decode_request(message)->Err_0 }),
{
}

/// A stream of messages of which none is a request leaves the loop waiting
/// for the next one; each of them is dropped in the same way.
pub proof fn lemma_malformed_stream_is_dropped(key: Option<Seq<u8>>, messages: Seq<Seq<u8>>)
    requires
        forall|i: int| 0 <= i < messages.len() ==> decode_request(#[trigger] messages[i]) is Err,
    ensures
        state_after_all(ServiceState { phase: ServicePhase::Idle, key }, reads(messages)) == (
            ServiceState { phase: ServicePhase::Idle, key }),
        serve_all(ServiceState { phase: ServicePhase::Idle, key }, reads(messages)).len()
            == messages.len(),
        forall|i: int|
            0 <= i < messages.len() ==> #[trigger] serve_all(
                ServiceState { phase: ServicePhase::Idle, key },
                reads(messages),
            )[i] == give_up(Warning::Undecodable { cause: decode_request(messages[i])->Err_0 }),
    decreases messages.len(),
{
    let state = ServiceState { phase: ServicePhase::Idle, key };
    let events = reads(messages);
    if messages.len() > 0 {
        let later = messages.skip(1);
        assert(events.skip(1) =~= reads(later));
        assert(events[0] == ServerEventView::Read { message: messages[0] });
        assert(after(state, events[0]) == state);
        assert forall|i: int| 0 <= i < later.len() implies decode_request(
            #[trigger] later[i],
        ) is Err by {
            assert(later[i] == messages[i + 1]);
        }
        lemma_malformed_stream_is_dropped(key, later);
        assert forall|i: int| 0 <= i < messages.len() implies #[trigger] serve_all(state, events)[i]
            == give_up(Warning::Undecodable { cause: decode_request(messages[i])->Err_0 }) by {
            if i > 0 {
                assert(serve_all(state, events)[i] == serve_all(state, reads(later))[i - 1]);
                assert(later[i - 1] == messages[i]);
            }
        }
    }
}

/// The message over which `event` asks a loop in `phase` for a signature, if
/// it asks for one.
pub open spec fn signature_asked(phase: ServicePhase, event: ServerEventView) -> Option<Seq<u8>> {
    match (phase, event) {
        (ServicePhase::Idle, ServerEventView::Read { message }) => match decode_request(message) {
            Ok(RequestView::Sign { message }) => Some(message),
            _ => None,
        },
        _ => None,
    }
}

/// The key stays with the loop. What the loop writes, asks for and logs is
/// the same for any two keys, with one exception: the reply to a request for
/// a signature holds the signature made with the key (or says that there is
/// no key). The key reaches the outside through that signature alone.
pub proof fn lemma_key_stays_inside(
    phase: ServicePhase,
    key: Option<Seq<u8>>,
    other_key: Option<Seq<u8>>,
    event: ServerEventView,
)
    requires
        signature_asked(phase, event) matches Some(signed) ==> signing_response(key, signed)
            == signing_response(other_key, signed),
    ensures
        serve(ServiceState { phase, key }, event) == serve(
            ServiceState { phase, key: other_key },
            event,
        ),
{
}

/// The service loop: the single owner of the private key, and of the phase
/// of the one message in progress.
pub struct ServiceLoop {
    phase: ServicePhase,
    key: Option<PrivateKey>,
}

impl View for ServiceLoop {
    type V = ServiceState;

    closed spec fn view(&self) -> ServiceState {
        ServiceState {
            phase: self.phase,
            key: match self.key {
                Some(key) => Some(key@),
                None => None,
            },
        }
    }
}

impl ServiceLoop {
    /// A loop that holds `key` and waits for its first message.
    pub fn new(key: Option<PrivateKey>) -> (service: ServiceLoop)
        ensures
            service@ == (ServiceState {
                phase: ServicePhase::Idle,
                key: match key {
                    Some(key) => Some(key@),
                    None => None,
                },
            }),
    {
        ServiceLoop { phase: ServicePhase::Idle, key }
    }

    /// Where the loop stands.
    pub fn phase(&self) -> (phase: ServicePhase)
        ensures
            phase == self@.phase,
    {
        self.phase
    }

    /// Whether the loop is between the read and the end of the write of one
    /// message.
    pub fn is_processing(&self) -> (processing: bool)
        ensures
            processing == (self@.phase != ServicePhase::Idle),
    {
        match self.phase {
            ServicePhase::Idle => false,
            _ => true,
        }
    }

    /// Takes in what came back, and says what to log and what to do next.
    pub fn on_event(&mut self, event: ServerEvent) -> (decision: Decision)
        ensures
            final(self)@ == after(old(self)@, event@),
            decision.warning == serve(old(self)@, event@).warning,
            decision.next@ == serve(old(self)@, event@).next,
    {
        let decision = match self.phase {
            ServicePhase::Idle => match event {
                ServerEvent::Read { message } => self.accept(message.as_slice()),
                ServerEvent::ReadFailed { error } => self.give_up(Warning::ReadFailed { error }),
                _ => self.give_up(Warning::UnexpectedEvent),
            },
            ServicePhase::Dispatching => match event {
                ServerEvent::Executed { response } => self.reply(&response),
                _ => self.give_up(Warning::UnexpectedEvent),
            },
            ServicePhase::Writing => match event {
                ServerEvent::Written => {
                    self.phase = ServicePhase::Idle;
                    Decision { warning: None, next: Operation::Read }
                },
                ServerEvent::WriteFailed { error } => self.give_up(Warning::WriteFailed { error }),
                _ => self.give_up(Warning::UnexpectedEvent),
            },
        };
        decision
    }

    /// Ends the cycle without a reply.
    fn give_up(&mut self, warning: Warning) -> (decision: Decision)
        ensures
            final(self)@.key == old(self)@.key,
            final(self)@.phase == give_up(warning).phase,
            decision.warning == give_up(warning).warning,
            decision.next@ == give_up(warning).next,
    {
        self.phase = ServicePhase::Idle;
        Decision { warning: Some(warning), next: Operation::Read }
    }

    /// Hands `response` to the channel, if it can be encoded.
    fn reply(&mut self, response: &Response) -> (decision: Decision)
        ensures
            final(self)@.key == old(self)@.key,
            final(self)@.phase == reply(response@).phase,
            decision.warning == reply(response@).warning,
            decision.next@ == reply(response@).next,
    {
        match response.encode() {
            Ok(message) => {
                self.phase = ServicePhase::Writing;
                Decision { warning: None, next: Operation::Write { message } }
            },
            Err(cause) => self.give_up(Warning::Unencodable { cause }),
        }
    }

    /// Decodes a message that was read and decides what to do with it.
    fn accept(&mut self, message: &[u8]) -> (decision: Decision)
        ensures
            final(self)@.key == old(self)@.key,
            final(self)@.phase == accept(old(self)@.key, message@).phase,
            decision.warning == accept(old(self)@.key, message@).warning,
            decision.next@ == accept(old(self)@.key, message@).next,
    {
        match Request::decode(message) {
            Ok(Request::Sign { message }) => {
                let response = match &self.key {
                    Some(key) => Response::Signed { signature: key.sign(message.as_slice()) },
                    None => Response::Failed { error: Error::NoSigningKey },
                };
                self.reply(&response)
            },
            Ok(request) => {
                self.phase = ServicePhase::Dispatching;
                Decision { warning: None, next: Operation::Execute { request } }
            },
            Err(cause) => self.give_up(Warning::Undecodable { cause }),
        }
    }
}

} // verus!
