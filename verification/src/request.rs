//! The closed set of operations a caller may ask of the privileged
//! capability, and their canonical wire form.

use crate::error::CodecError;
use crate::wire::{
    bytes_encoding, items_view, lemma_parse_bytes_encoded, lemma_parse_list_encoded,
    lemma_parsed_bytes_is_encoded, lemma_parsed_list_is_encoded, list_encoding, list_fits,
    list_is_encodable, parse_bytes, parse_list, read_bytes, read_list, write_bytes, write_list,
    MAX_SEQUENCE_LENGTH,
};
use vstd::prelude::*;

verus! {

pub const TAG_COMMITTED_BLOCK_ID: u8 = 0;

pub const TAG_RESET: u8 = 1;

pub const TAG_EXECUTE_BLOCK: u8 = 2;

pub const TAG_COMMIT_BLOCKS: u8 = 3;

pub const TAG_SIGN: u8 = 4;

/// One operation asked of the capability, with its arguments.
#[derive(Clone, Debug, PartialEq, Eq)]
pub enum Request {
    /// Ask for the identifier of the last committed block.
    CommittedBlockId,
    /// Drop all speculative state and return to the last committed block.
    Reset,
    /// Execute a proposed block on top of its parent.
    ExecuteBlock { block: Vec<u8>, parent_block_id: Vec<u8> },
    /// Commit executed blocks under a signed ledger info.
    CommitBlocks { block_ids: Vec<Vec<u8>>, ledger_info: Vec<u8> },
    /// Sign a message with the consensus key the capability holds.
    Sign { message: Vec<u8> },
}

/// The logical value of a [`Request`].
pub ghost enum RequestView {
    CommittedBlockId,
    Reset,
    ExecuteBlock { block: Seq<u8>, parent_block_id: Seq<u8> },
    CommitBlocks { block_ids: Seq<Seq<u8>>, ledger_info: Seq<u8> },
    Sign { message: Seq<u8> },
}

impl View for Request {
    type V = RequestView;

    open spec fn view(&self) -> RequestView {
        match self {
            Request::CommittedBlockId => RequestView::CommittedBlockId,
            Request::Reset => RequestView::Reset,
            Request::ExecuteBlock { block, parent_block_id } => RequestView::ExecuteBlock {
                block: block@,
                parent_block_id: parent_block_id@,
            },
            Request::CommitBlocks { block_ids, ledger_info } => RequestView::CommitBlocks {
                block_ids: items_view(block_ids@),
                ledger_info: ledger_info@,
            },
            Request::Sign { message } => RequestView::Sign { message: message@ },
        }
    }
}

impl RequestView {
    /// Whether every sequence in the request is short enough to be encoded.
    pub open spec fn fits(self) -> bool {
        match self {
            RequestView::CommittedBlockId => true,
            RequestView::Reset => true,
            RequestView::ExecuteBlock { block, parent_block_id } => {
                &&& block.len() <= MAX_SEQUENCE_LENGTH
                &&& parent_block_id.len() <= MAX_SEQUENCE_LENGTH
            },
            RequestView::CommitBlocks { block_ids, ledger_info } => {
                &&& list_fits(block_ids)
                &&& ledger_info.len() <= MAX_SEQUENCE_LENGTH
            },
            RequestView::Sign { message } => message.len() <= MAX_SEQUENCE_LENGTH,
        }
    }

    /// The canonical bytes of the request: the variant's tag, then its
    /// arguments in order.
    pub open spec fn encoding(self) -> Seq<u8> {
        match self {
            RequestView::CommittedBlockId => seq![TAG_COMMITTED_BLOCK_ID],
            RequestView::Reset => seq![TAG_RESET],
            RequestView::ExecuteBlock { block, parent_block_id } => seq![TAG_EXECUTE_BLOCK]
                + bytes_encoding(block) + bytes_encoding(parent_block_id),
            RequestView::CommitBlocks { block_ids, ledger_info } => seq![TAG_COMMIT_BLOCKS]
                + list_encoding(block_ids) + bytes_encoding(ledger_info),
            RequestView::Sign { message } => seq![TAG_SIGN] + bytes_encoding(message),
        }
    }
}

/// Reads one request from the front of `bytes`; gives it and the number of
/// bytes it occupies.
pub open spec fn parse_request(bytes: Seq<u8>) -> Result<(RequestView, nat), CodecError> {
    if bytes.len() == 0 {
        Err(CodecError::UnexpectedEnd)
    } else if bytes[0] == TAG_COMMITTED_BLOCK_ID {
        Ok((RequestView::CommittedBlockId, 1))
    } else if bytes[0] == TAG_RESET {
        Ok((RequestView::Reset, 1))
    } else if bytes[0] == TAG_EXECUTE_BLOCK {
        match parse_bytes(bytes.skip(1)) {
            Ok((block, used)) => match parse_bytes(bytes.skip(1 + used as int)) {
                Ok((parent_block_id, more)) => Ok(
                    (RequestView::ExecuteBlock { block, parent_block_id }, 1 + used + more),
                ),
                Err(e) => Err(e),
            },
            Err(e) => Err(e),
        }
    } else if bytes[0] == TAG_COMMIT_BLOCKS {
        match parse_list(bytes.skip(1)) {
            Ok((block_ids, used)) => match parse_bytes(bytes.skip(1 + used as int)) {
                Ok((ledger_info, more)) => Ok(
                    (RequestView::CommitBlocks { block_ids, ledger_info }, 1 + used + more),
                ),
                Err(e) => Err(e),
            },
            Err(e) => Err(e),
        }
    } else if bytes[0] == TAG_SIGN {
        match parse_bytes(bytes.skip(1)) {
            Ok((message, used)) => Ok((RequestView::Sign { message }, 1 + used)),
            Err(e) => Err(e),
        }
    } else {
        Err(CodecError::UnknownTag)
    }
}

/// What decoding `bytes` as one whole request gives: the request, or the
/// reason for which the bytes are rejected.
pub open spec fn decode_request(bytes: Seq<u8>) -> Result<RequestView, CodecError> {
    match parse_request(bytes) {
        Ok((request, used)) => if used < bytes.len() {
            Err(CodecError::TrailingBytes)
        } else {
            Ok(request)
        },
        Err(e) => Err(e),
    }
}

/// A request that fits is read back from its encoding, whatever follows.
pub proof fn lemma_parse_request_encoded(request: RequestView, rest: Seq<u8>)
    requires
        request.fits(),
    ensures
        parse_request(request.encoding() + rest) == Ok::<(RequestView, nat), CodecError>(
            (request, request.encoding().len()),
        ),
{
    let bytes = request.encoding() + rest;
    match request {
        RequestView::CommittedBlockId => {},
        RequestView::Reset => {},
        RequestView::ExecuteBlock { block, parent_block_id } => {
            let first = bytes_encoding(block);
            let second = bytes_encoding(parent_block_id);
            assert(bytes[0] == TAG_EXECUTE_BLOCK);
            assert(bytes.skip(1) =~= first + (second + rest));
            lemma_parse_bytes_encoded(block, second + rest);
            assert(bytes.skip(1 + first.len() as int) =~= second + rest);
            lemma_parse_bytes_encoded(parent_block_id, rest);
        },
        RequestView::CommitBlocks { block_ids, ledger_info } => {
            let first = list_encoding(block_ids);
            let second = bytes_encoding(ledger_info);
            assert(bytes[0] == TAG_COMMIT_BLOCKS);
            assert(bytes.skip(1) =~= first + (second + rest));
            lemma_parse_list_encoded(block_ids, second + rest);
            assert(bytes.skip(1 + first.len() as int) =~= second + rest);
            lemma_parse_bytes_encoded(ledger_info, rest);
        },
        RequestView::Sign { message } => {
            assert(bytes[0] == TAG_SIGN);
            assert(bytes.skip(1) =~= bytes_encoding(message) + rest);
            lemma_parse_bytes_encoded(message, rest);
        },
    }
}

/// A request that was read fits, and stands at the front in canonical form.
pub proof fn lemma_parsed_request_is_encoded(bytes: Seq<u8>)
    requires
        parse_request(bytes) is Ok,
    ensures
        ({
            let (request, used) = parse_request(bytes).unwrap();
            &&& request.fits()
            &&& 1 <= used <= bytes.len()
            &&& bytes.subrange(0, used as int) == request.encoding()
        }),
{
    let (request, used) = parse_request(bytes).unwrap();
    let body = bytes.skip(1);
    if bytes[0] == TAG_COMMITTED_BLOCK_ID || bytes[0] == TAG_RESET {
        assert(bytes.subrange(0, 1) =~= request.encoding());
    } else if bytes[0] == TAG_EXECUTE_BLOCK {
        lemma_parsed_bytes_is_encoded(body);
        let (block, n) = parse_bytes(body).unwrap();
        let tail = bytes.skip(1 + n as int);
        lemma_parsed_bytes_is_encoded(tail);
        let (parent_block_id, m) = parse_bytes(tail).unwrap();
        assert(bytes.subrange(0, used as int) =~= seq![TAG_EXECUTE_BLOCK] + body.subrange(
            0,
            n as int,
        ) + tail.subrange(0, m as int));
    } else if bytes[0] == TAG_COMMIT_BLOCKS {
        lemma_parsed_list_is_encoded(body);
        let (block_ids, n) = parse_list(body).unwrap();
        let tail = bytes.skip(1 + n as int);
        lemma_parsed_bytes_is_encoded(tail);
        let (ledger_info, m) = parse_bytes(tail).unwrap();
        assert(bytes.subrange(0, used as int) =~= seq![TAG_COMMIT_BLOCKS] + body.subrange(
            0,
            n as int,
        ) + tail.subrange(0, m as int));
    } else {
        lemma_parsed_bytes_is_encoded(body);
        let (message, n) = parse_bytes(body).unwrap();
        assert(bytes.subrange(0, used as int) =~= seq![TAG_SIGN] + body.subrange(0, n as int));
    }
}

/// Decoding undoes encoding: every request that fits is decoded from its own
/// encoding.
pub proof fn lemma_request_round_trip(request: RequestView)
    requires
        request.fits(),
    ensures
        decode_request(request.encoding()) == Ok::<RequestView, CodecError>(request),
{
    lemma_parse_request_encoded(request, Seq::empty());
    assert(request.encoding() + Seq::<u8>::empty() =~= request.encoding());
}

/// Encoding undoes decoding: bytes are accepted only if they are exactly the
/// canonical encoding of the request they decode to.
pub proof fn lemma_request_decoded_is_canonical(bytes: Seq<u8>)
    requires
        decode_request(bytes) is Ok,
    ensures
        decode_request(bytes).unwrap().fits(),
        decode_request(bytes).unwrap().encoding() == bytes,
{
    lemma_parsed_request_is_encoded(bytes);
    assert(bytes.subrange(0, bytes.len() as int) =~= bytes);
}

/// No two distinct requests share an encoding.
pub proof fn lemma_request_encoding_injective(a: RequestView, b: RequestView)
    requires
        a.fits(),
        b.fits(),
        a.encoding() == b.encoding(),
    ensures
        a == b,
{
    lemma_request_round_trip(a);
    lemma_request_round_trip(b);
}

/// Bytes that are rejected are the encoding of no request.
pub proof fn lemma_rejected_request_is_no_encoding(bytes: Seq<u8>, request: RequestView)
    requires
        decode_request(bytes) is Err,
        request.fits(),
    ensures
        request.encoding() != bytes,
{
    lemma_request_round_trip(request);
}

impl Request {
    /// Whether the request can be encoded.
    pub fn is_encodable(&self) -> (fits: bool)
        ensures
            fits == self@.fits(),
    {
        match self {
            Request::CommittedBlockId => true,
            Request::Reset => true,
            Request::ExecuteBlock { block, parent_block_id } => block.len() <= MAX_SEQUENCE_LENGTH
                && parent_block_id.len() <= MAX_SEQUENCE_LENGTH,
            Request::CommitBlocks { block_ids, ledger_info } => list_is_encodable(block_ids)
                && ledger_info.len() <= MAX_SEQUENCE_LENGTH,
            Request::Sign { message } => message.len() <= MAX_SEQUENCE_LENGTH,
        }
    }

    /// The canonical bytes of the request. Fails only for a request that holds
    /// a sequence too long for the encoding.
    pub fn encode(&self) -> (r: Result<Vec<u8>, CodecError>)
        ensures
            match r {
                Ok(bytes) => self@.fits() && bytes@ == self@.encoding(),
                Err(e) => !self@.fits() && e == CodecError::SequenceTooLong,
            },
    {
        let mut out: Vec<u8> = Vec::new();
        match self {
            Request::CommittedBlockId => {
                out.push(TAG_COMMITTED_BLOCK_ID);
            },
            Request::Reset => {
                out.push(TAG_RESET);
            },
            Request::ExecuteBlock { block, parent_block_id } => {
                out.push(TAG_EXECUTE_BLOCK);
                write_bytes(&mut out, block.as_slice())?;
                write_bytes(&mut out, parent_block_id.as_slice())?;
            },
            Request::CommitBlocks { block_ids, ledger_info } => {
                out.push(TAG_COMMIT_BLOCKS);
                write_list(&mut out, block_ids)?;
                write_bytes(&mut out, ledger_info.as_slice())?;
            },
            Request::Sign { message } => {
                out.push(TAG_SIGN);
                write_bytes(&mut out, message.as_slice())?;
            },
        }
        assert(out@ =~= self@.encoding());
        Ok(out)
    }

    /// Reads one request at the front of `bytes`; gives it and the position
    /// behind it.
    fn read(bytes: &[u8]) -> (r: Result<(Request, usize), CodecError>)
        ensures
            match r {
                Ok((request, next)) => parse_request(bytes@) == Ok::<(RequestView, nat), CodecError>(
                    (request@, next as nat),
                ),
                Err(e) => parse_request(bytes@) == Err::<(RequestView, nat), CodecError>(e),
            },
    {
        if bytes.len() == 0 {
            return Err(CodecError::UnexpectedEnd);
        }
        let tag: u8 = bytes[0];
        if tag == TAG_COMMITTED_BLOCK_ID {
            Ok((Request::CommittedBlockId, 1))
        } else if tag == TAG_RESET {
            Ok((Request::Reset, 1))
        } else if tag == TAG_EXECUTE_BLOCK {
            let (block, at) = match read_bytes(bytes, 1) {
                Ok(found) => found,
                Err(e) => { return Err(e); },
            };
            let (parent_block_id, next) = match read_bytes(bytes, at) {
                Ok(found) => found,
                Err(e) => { return Err(e); },
            };
            Ok((Request::ExecuteBlock { block, parent_block_id }, next))
        } else if tag == TAG_COMMIT_BLOCKS {
            let (block_ids, at) = match read_list(bytes, 1) {
                Ok(found) => found,
                Err(e) => { return Err(e); },
            };
            let (ledger_info, next) = match read_bytes(bytes, at) {
                Ok(found) => found,
                Err(e) => { return Err(e); },
            };
            Ok((Request::CommitBlocks { block_ids, ledger_info }, next))
        } else if tag == TAG_SIGN {
            let (message, next) = match read_bytes(bytes, 1) {
                Ok(found) => found,
                Err(e) => { return Err(e); },
            };
            Ok((Request::Sign { message }, next))
        } else {
            Err(CodecError::UnknownTag)
        }
    }

    /// Decodes `bytes` as one whole request. Succeeds exactly on the canonical
    /// encoding of a request, and gives that request; otherwise says why the
    /// bytes are rejected.
    pub fn decode(bytes: &[u8]) -> (r: Result<Request, CodecError>)
        ensures
            match r {
                Ok(request) => {
                    &&& decode_request(bytes@) == Ok::<RequestView, CodecError>(request@)
                    &&& request@.fits()
                    &&& request@.encoding() == bytes@
                },
                Err(e) => {
                    &&& decode_request(bytes@) == Err::<RequestView, CodecError>(e)
                    &&& forall|other: RequestView| other.fits() ==> other.encoding() != bytes@
                },
            },
    {
        match Request::read(bytes) {
            Ok((request, next)) => {
                if next < bytes.len() {
                    proof {
                        assert forall|other: RequestView| other.fits() implies other.encoding()
                            != bytes@ by {
                            lemma_rejected_request_is_no_encoding(bytes@, other);
                        }
                    }
                    Err(CodecError::TrailingBytes)
                } else {
                    proof {
                        lemma_request_decoded_is_canonical(bytes@);
                    }
                    Ok(request)
                }
            },
            Err(e) => {
                proof {
                    assert forall|other: RequestView| other.fits() implies other.encoding()
                        != bytes@ by {
                        lemma_rejected_request_is_no_encoding(bytes@, other);
                    }
                }
                Err(e)
            },
        }
    }
}

/// Determinism: whenever two requests of the same logical value are encoded,
/// whatever their representation in memory, the two calls agree: both fail,
/// or both give the same bytes.
pub proof fn lemma_request_encode_is_deterministic(
    a: Request,
    b: Request,
    first: Result<Vec<u8>, CodecError>,
    second: Result<Vec<u8>, CodecError>,
)
    requires
        a@ == b@,
        call_ensures(Request::encode, (&a,), first),
        call_ensures(Request::encode, (&b,), second),
    ensures
        match (first, second) {
            (Ok(x), Ok(y)) => x@ == y@,
            (Err(x), Err(y)) => x == y,
            _ => false,
        },
{
}

/// Round trip: whenever a request is encoded and the bytes are decoded, the
/// request comes back.
pub proof fn lemma_request_decode_inverts_encode(
    request: Request,
    bytes: Vec<u8>,
    copy: &[u8],
    decoded: Result<Request, CodecError>,
)
    requires
        call_ensures(Request::encode, (&request,), Ok::<Vec<u8>, CodecError>(bytes)),
        copy@ == bytes@,
        call_ensures(Request::decode, (copy,), decoded),
    ensures
        decoded matches Ok(back) && back@ == request@,
{
    lemma_request_round_trip(request@);
}

} // verus!
