//! What the capability answers: the payload of the operation that was asked
//! for, or a typed failure. Both travel in the same canonical wire form.

use crate::error::{
    lemma_parse_error_encoded, lemma_parsed_error_is_encoded, parse_error, CodecError, Error,
    ErrorView,
};
use crate::wire::{
    bytes_encoding, items_view, lemma_parse_bytes_encoded, lemma_parse_list_encoded,
    lemma_parsed_bytes_is_encoded, lemma_parsed_list_is_encoded, list_encoding, list_fits,
    list_is_encodable, parse_bytes, parse_list, read_bytes, read_list, write_bytes, write_list,
    MAX_SEQUENCE_LENGTH,
};
use vstd::prelude::*;

verus! {

pub const TAG_COMMITTED_BLOCK_ID: u8 = 0;

pub const TAG_RESET_DONE: u8 = 1;

pub const TAG_BLOCK_EXECUTED: u8 = 2;

pub const TAG_BLOCKS_COMMITTED: u8 = 3;

pub const TAG_SIGNED: u8 = 4;

pub const TAG_FAILED: u8 = 5;

/// The result of applying one request to the capability.
#[derive(Clone, Debug, PartialEq, Eq)]
pub enum Response {
    /// The identifier of the last committed block.
    CommittedBlockId { block_id: Vec<u8> },
    /// Speculative state was dropped.
    ResetDone,
    /// The block was executed; `result` is the state it computes.
    BlockExecuted { result: Vec<u8> },
    /// The blocks were committed; the transactions and events to publish.
    BlocksCommitted { transactions: Vec<Vec<u8>>, events: Vec<Vec<u8>> },
    /// The signature over the message that was handed in.
    Signed { signature: Vec<u8> },
    /// The capability could not perform the operation.
    Failed { error: Error },
}

/// The logical value of a [`Response`].
pub ghost enum ResponseView {
    CommittedBlockId { block_id: Seq<u8> },
    ResetDone,
    BlockExecuted { result: Seq<u8> },
    BlocksCommitted { transactions: Seq<Seq<u8>>, events: Seq<Seq<u8>> },
    Signed { signature: Seq<u8> },
    Failed { error: ErrorView },
}

impl View for Response {
    type V = ResponseView;

    open spec fn view(&self) -> ResponseView {
        match self {
            Response::CommittedBlockId { block_id } => ResponseView::CommittedBlockId {
                block_id: block_id@,
            },
            Response::ResetDone => ResponseView::ResetDone,
            Response::BlockExecuted { result } => ResponseView::BlockExecuted { result: result@ },
            Response::BlocksCommitted { transactions, events } => ResponseView::BlocksCommitted {
                transactions: items_view(transactions@),
                events: items_view(events@),
            },
            Response::Signed { signature } => ResponseView::Signed { signature: signature@ },
            Response::Failed { error } => ResponseView::Failed { error: error@ },
        }
    }
}

impl ResponseView {
    /// Whether every sequence in the response is short enough to be encoded.
    pub open spec fn fits(self) -> bool {
        match self {
            ResponseView::CommittedBlockId { block_id } => block_id.len() <= MAX_SEQUENCE_LENGTH,
            ResponseView::ResetDone => true,
            ResponseView::BlockExecuted { result } => result.len() <= MAX_SEQUENCE_LENGTH,
            ResponseView::BlocksCommitted { transactions, events } => {
                &&& list_fits(transactions)
                &&& list_fits(events)
            },
            ResponseView::Signed { signature } => signature.len() <= MAX_SEQUENCE_LENGTH,
            ResponseView::Failed { error } => error.fits(),
        }
    }

    /// The canonical bytes of the response: the variant's tag, then its
    /// payload.
    pub open spec fn encoding(self) -> Seq<u8> {
        match self {
            ResponseView::CommittedBlockId { block_id } => seq![TAG_COMMITTED_BLOCK_ID]
                + bytes_encoding(block_id),
            ResponseView::ResetDone => seq![TAG_RESET_DONE],
            ResponseView::BlockExecuted { result } => seq![TAG_BLOCK_EXECUTED] + bytes_encoding(
                result,
            ),
            ResponseView::BlocksCommitted { transactions, events } => seq![TAG_BLOCKS_COMMITTED]
                + list_encoding(transactions) + list_encoding(events),
            ResponseView::Signed { signature } => seq![TAG_SIGNED] + bytes_encoding(signature),
            ResponseView::Failed { error } => seq![TAG_FAILED] + error.encoding(),
        }
    }
}

/// Reads one response from the front of `bytes`; gives it and the number of
/// bytes it occupies.
pub open spec fn parse_response(bytes: Seq<u8>) -> Result<(ResponseView, nat), CodecError> {
    if bytes.len() == 0 {
        Err(CodecError::UnexpectedEnd)
    } else if bytes[0] == TAG_COMMITTED_BLOCK_ID {
        match parse_bytes(bytes.skip(1)) {
            Ok((block_id, used)) => Ok((ResponseView::CommittedBlockId { block_id }, 1 + used)),
            Err(e) => Err(e),
        }
    } else if bytes[0] == TAG_RESET_DONE {
        Ok((ResponseView::ResetDone, 1))
    } else if bytes[0] == TAG_BLOCK_EXECUTED {
        match parse_bytes(bytes.skip(1)) {
            Ok((result, used)) => Ok((ResponseView::BlockExecuted { result }, 1 + used)),
            Err(e) => Err(e),
        }
    } else if bytes[0] == TAG_BLOCKS_COMMITTED {
        match parse_list(bytes.skip(1)) {
            Ok((transactions, used)) => match parse_list(bytes.skip(1 + used as int)) {
                Ok((events, more)) => Ok(
                    (ResponseView::BlocksCommitted { transactions, events }, 1 + used + more),
                ),
                Err(e) => Err(e),
            },
            Err(e) => Err(e),
        }
    } else if bytes[0] == TAG_SIGNED {
        match parse_bytes(bytes.skip(1)) {
            Ok((signature, used)) => Ok((ResponseView::Signed { signature }, 1 + used)),
            Err(e) => Err(e),
        }
    } else if bytes[0] == TAG_FAILED {
        match parse_error(bytes.skip(1)) {
            Ok((error, used)) => Ok((ResponseView::Failed { error }, 1 + used)),
            Err(e) => Err(e),
        }
    } else {
        Err(CodecError::UnknownTag)
    }
}

/// What decoding `bytes` as one whole response gives: the response, or the
/// reason for which the bytes are rejected.
pub open spec fn decode_response(bytes: Seq<u8>) -> Result<ResponseView, CodecError> {
    match parse_response(bytes) {
        Ok((response, used)) => if used < bytes.len() {
            Err(CodecError::TrailingBytes)
        } else {
            Ok(response)
        },
        Err(e) => Err(e),
    }
}

/// A response that fits is read back from its encoding, whatever follows.
pub proof fn lemma_parse_response_encoded(response: ResponseView, rest: Seq<u8>)
    requires
        response.fits(),
    ensures
        parse_response(response.encoding() + rest) == Ok::<(ResponseView, nat), CodecError>(
            (response, response.encoding().len()),
        ),
{
    let bytes = response.encoding() + rest;
    match response {
        ResponseView::CommittedBlockId { block_id } => {
            assert(bytes[0] == TAG_COMMITTED_BLOCK_ID);
            assert(bytes.skip(1) =~= bytes_encoding(block_id) + rest);
            lemma_parse_bytes_encoded(block_id, rest);
        },
        ResponseView::ResetDone => {
            assert(bytes[0] == TAG_RESET_DONE);
        },
        ResponseView::BlockExecuted { result } => {
            assert(bytes[0] == TAG_BLOCK_EXECUTED);
            assert(bytes.skip(1) =~= bytes_encoding(result) + rest);
            lemma_parse_bytes_encoded(result, rest);
        },
        ResponseView::BlocksCommitted { transactions, events } => {
            let first = list_encoding(transactions);
            let second = list_encoding(events);
            assert(bytes[0] == TAG_BLOCKS_COMMITTED);
            assert(bytes.skip(1) =~= first + (second + rest));
            lemma_parse_list_encoded(transactions, second + rest);
            assert(bytes.skip(1 + first.len() as int) =~= second + rest);
            lemma_parse_list_encoded(events, rest);
        },
        ResponseView::Signed { signature } => {
            assert(bytes[0] == TAG_SIGNED);
            assert(bytes.skip(1) =~= bytes_encoding(signature) + rest);
            lemma_parse_bytes_encoded(signature, rest);
        },
        ResponseView::Failed { error } => {
            assert(bytes[0] == TAG_FAILED);
            assert(bytes.skip(1) =~= error.encoding() + rest);
            lemma_parse_error_encoded(error, rest);
        },
    }
}

/// A response that was read fits, and stands at the front in canonical form.
pub proof fn lemma_parsed_response_is_encoded(bytes: Seq<u8>)
    requires
        parse_response(bytes) is Ok,
    ensures
        ({
            let (response, used) = parse_response(bytes).unwrap();
            &&& response.fits()
            &&& 1 <= used <= bytes.len()
            &&& bytes.subrange(0, used as int) == response.encoding()
        }),
{
    let (response, used) = parse_response(bytes).unwrap();
    let body = bytes.skip(1);
    if bytes[0] == TAG_RESET_DONE {
        assert(bytes.subrange(0, 1) =~= response.encoding());
    } else if bytes[0] == TAG_BLOCKS_COMMITTED {
        lemma_parsed_list_is_encoded(body);
        let (transactions, n) = parse_list(body).unwrap();
        let tail = bytes.skip(1 + n as int);
        lemma_parsed_list_is_encoded(tail);
        let (events, m) = parse_list(tail).unwrap();
        assert(bytes.subrange(0, used as int) =~= seq![TAG_BLOCKS_COMMITTED] + body.subrange(
            0,
            n as int,
        ) + tail.subrange(0, m as int));
    } else if bytes[0] == TAG_FAILED {
        lemma_parsed_error_is_encoded(body);
        let (error, n) = parse_error(body).unwrap();
        assert(bytes.subrange(0, used as int) =~= seq![TAG_FAILED] + body.subrange(0, n as int));
    } else {
        lemma_parsed_bytes_is_encoded(body);
        let (data, n) = parse_bytes(body).unwrap();
        assert(bytes.subrange(0, used as int) =~= seq![bytes[0]] + body.subrange(0, n as int));
    }
}

/// Decoding undoes encoding: every response that fits is decoded from its own
/// encoding.
pub proof fn lemma_response_round_trip(response: ResponseView)
    requires
        response.fits(),
    ensures
        decode_response(response.encoding()) == Ok::<ResponseView, CodecError>(response),
{
    lemma_parse_response_encoded(response, Seq::empty());
    assert(response.encoding() + Seq::<u8>::empty() =~= response.encoding());
}

/// Encoding undoes decoding: bytes are accepted only if they are exactly the
/// canonical encoding of the response they decode to.
pub proof fn lemma_response_decoded_is_canonical(bytes: Seq<u8>)
    requires
        decode_response(bytes) is Ok,
    ensures
        decode_response(bytes).unwrap().fits(),
        decode_response(bytes).unwrap().encoding() == bytes,
{
    lemma_parsed_response_is_encoded(bytes);
    assert(bytes.subrange(0, bytes.len() as int) =~= bytes);
}

/// No two distinct responses share an encoding.
pub proof fn lemma_response_encoding_injective(a: ResponseView, b: ResponseView)
    requires
        a.fits(),
        b.fits(),
        a.encoding() == b.encoding(),
    ensures
        a == b,
{
    lemma_response_round_trip(a);
    lemma_response_round_trip(b);
}

/// Bytes that are rejected are the encoding of no response.
pub proof fn lemma_rejected_response_is_no_encoding(bytes: Seq<u8>, response: ResponseView)
    requires
        decode_response(bytes) is Err,
        response.fits(),
    ensures
        response.encoding() != bytes,
{
    lemma_response_round_trip(response);
}

impl Response {
    /// Whether the response can be encoded.
    pub fn is_encodable(&self) -> (fits: bool)
        ensures
            fits == self@.fits(),
    {
        match self {
            Response::CommittedBlockId { block_id } => block_id.len() <= MAX_SEQUENCE_LENGTH,
            Response::ResetDone => true,
            Response::BlockExecuted { result } => result.len() <= MAX_SEQUENCE_LENGTH,
            Response::BlocksCommitted { transactions, events } => list_is_encodable(transactions)
                && list_is_encodable(events),
            Response::Signed { signature } => signature.len() <= MAX_SEQUENCE_LENGTH,
            Response::Failed { error } => error.is_encodable(),
        }
    }

    /// The canonical bytes of the response. Fails only for a response that
    /// holds a sequence too long for the encoding.
    pub fn encode(&self) -> (r: Result<Vec<u8>, CodecError>)
        ensures
            match r {
                Ok(bytes) => self@.fits() && bytes@ == self@.encoding(),
                Err(e) => !self@.fits() && e == CodecError::SequenceTooLong,
            },
    {
        let mut out: Vec<u8> = Vec::new();
        match self {
            Response::CommittedBlockId { block_id } => {
                out.push(TAG_COMMITTED_BLOCK_ID);
                write_bytes(&mut out, block_id.as_slice())?;
            },
            Response::ResetDone => {
                out.push(TAG_RESET_DONE);
            },
            Response::BlockExecuted { result } => {
                out.push(TAG_BLOCK_EXECUTED);
                write_bytes(&mut out, result.as_slice())?;
            },
            Response::BlocksCommitted { transactions, events } => {
                out.push(TAG_BLOCKS_COMMITTED);
                write_list(&mut out, transactions)?;
                write_list(&mut out, events)?;
            },
            Response::Signed { signature } => {
                out.push(TAG_SIGNED);
                write_bytes(&mut out, signature.as_slice())?;
            },
            Response::Failed { error } => {
                out.push(TAG_FAILED);
                error.write(&mut out)?;
            },
        }
        assert(out@ =~= self@.encoding());
        Ok(out)
    }

    /// Reads one response at the front of `bytes`; gives it and the position
    /// behind it.
    fn read(bytes: &[u8]) -> (r: Result<(Response, usize), CodecError>)
        ensures
            match r {
                Ok((response, next)) => parse_response(bytes@) == Ok::<
                    (ResponseView, nat),
                    CodecError,
                >((response@, next as nat)),
                Err(e) => parse_response(bytes@) == Err::<(ResponseView, nat), CodecError>(e),
            },
    {
        if bytes.len() == 0 {
            return Err(CodecError::UnexpectedEnd);
        }
        let tag: u8 = bytes[0];
        if tag == TAG_COMMITTED_BLOCK_ID {
            match read_bytes(bytes, 1) {
                Ok((block_id, next)) => Ok((Response::CommittedBlockId { block_id }, next)),
                Err(e) => Err(e),
            }
        } else if tag == TAG_RESET_DONE {
            Ok((Response::ResetDone, 1))
        } else if tag == TAG_BLOCK_EXECUTED {
            match read_bytes(bytes, 1) {
                Ok((result, next)) => Ok((Response::BlockExecuted { result }, next)),
                Err(e) => Err(e),
            }
        } else if tag == TAG_BLOCKS_COMMITTED {
            let (transactions, at) = match read_list(bytes, 1) {
                Ok(found) => found,
                Err(e) => { return Err(e); },
            };
            let (events, next) = match read_list(bytes, at) {
                Ok(found) => found,
                Err(e) => { return Err(e); },
            };
            Ok((Response::BlocksCommitted { transactions, events }, next))
        } else if tag == TAG_SIGNED {
            match read_bytes(bytes, 1) {
                Ok((signature, next)) => Ok((Response::Signed { signature }, next)),
                Err(e) => Err(e),
            }
        } else if tag == TAG_FAILED {
            match Error::read(bytes, 1) {
                Ok((error, next)) => Ok((Response::Failed { error }, next)),
                Err(e) => Err(e),
            }
        } else {
            Err(CodecError::UnknownTag)
        }
    }

    /// Decodes `bytes` as one whole response. Succeeds exactly on the
    /// canonical encoding of a response, and gives that response; otherwise
    /// says why the bytes are rejected.
    pub fn decode(bytes: &[u8]) -> (r: Result<Response, CodecError>)
        ensures
            match r {
                Ok(response) => {
                    &&& decode_response(bytes@) == Ok::<ResponseView, CodecError>(response@)
                    &&& response@.fits()
                    &&& response@.encoding() == bytes@
                },
                Err(e) => {
                    &&& decode_response(bytes@) == Err::<ResponseView, CodecError>(e)
                    &&& forall|other: ResponseView| other.fits() ==> other.encoding() != bytes@
                },
            },
    {
        match Response::read(bytes) {
            Ok((response, next)) => {
                if next < bytes.len() {
                    proof {
                        assert forall|other: ResponseView| other.fits() implies other.encoding()
                            != bytes@ by {
                            lemma_rejected_response_is_no_encoding(bytes@, other);
                        }
                    }
                    Err(CodecError::TrailingBytes)
                } else {
                    proof {
                        lemma_response_decoded_is_canonical(bytes@);
                    }
                    Ok(response)
                }
            },
            Err(e) => {
                proof {
                    assert forall|other: ResponseView| other.fits() implies other.encoding()
                        != bytes@ by {
                        lemma_rejected_response_is_no_encoding(bytes@, other);
                    }
                }
                Err(e)
            },
        }
    }
}

/// Determinism: whenever two responses of the same logical value are encoded,
/// whatever their representation in memory, the two calls agree: both fail,
/// or both give the same bytes.
pub proof fn lemma_response_encode_is_deterministic(
    a: Response,
    b: Response,
    first: Result<Vec<u8>, CodecError>,
    second: Result<Vec<u8>, CodecError>,
)
    requires
        a@ == b@,
        call_ensures(Response::encode, (&a,), first),
        call_ensures(Response::encode, (&b,), second),
    ensures
        match (first, second) {
            (Ok(x), Ok(y)) => x@ == y@,
            (Err(x), Err(y)) => x == y,
            _ => false,
        },
{
}

/// Round trip: whenever a response is encoded and the bytes are decoded, the
/// response comes back.
pub proof fn lemma_response_decode_inverts_encode(
    response: Response,
    bytes: Vec<u8>,
    copy: &[u8],
    decoded: Result<Response, CodecError>,
)
    requires
        call_ensures(Response::encode, (&response,), Ok::<Vec<u8>, CodecError>(bytes)),
        copy@ == bytes@,
        call_ensures(Response::decode, (copy,), decoded),
    ensures
        decoded matches Ok(back) && back@ == response@,
{
    lemma_response_round_trip(response@);
}

} // verus!
