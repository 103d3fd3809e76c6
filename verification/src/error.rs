//! Shared error taxonomy: codec, transport and capability level failures are
//! kept apart so that callers can tell them from one another.

use crate::wire::{
    bytes_encoding, lemma_parse_bytes_encoded, lemma_parsed_bytes_is_encoded, parse_bytes,
    read_bytes, write_bytes, MAX_SEQUENCE_LENGTH,
};
use vstd::prelude::*;

verus! {

/// Why a byte sequence was rejected by a decoder, or a value by an encoder.
#[derive(Clone, Copy, Debug, PartialEq, Eq, Structural)]
pub enum CodecError {
    /// The input ends before the value is complete.
    UnexpectedEnd,
    /// A length prefix is not in canonical form or exceeds the accepted range.
    MalformedLength,
    /// The variant tag names no known variant.
    UnknownTag,
    /// A complete value is followed by further bytes.
    TrailingBytes,
    /// A sequence is longer than the encoding can express.
    SequenceTooLong,
}

/// Why a read from or a write to the byte channel failed.
#[derive(Clone, Copy, Debug, PartialEq, Eq, Structural)]
pub enum TransportError {
    /// The peer closed or reset the connection. Expected, and recoverable by
    /// sending again.
    RemoteStreamClosed,
    /// The message is longer than a frame can carry.
    DataTooLarge,
    /// Any other failure of the channel.
    Io,
}

impl CodecError {
    /// The byte that stands for this error on the wire.
    pub open spec fn tag(self) -> u8 {
        match self {
            CodecError::UnexpectedEnd => 0,
            CodecError::MalformedLength => 1,
            CodecError::UnknownTag => 2,
            CodecError::TrailingBytes => 3,
            CodecError::SequenceTooLong => 4,
        }
    }

    /// The error that `tag` stands for, if any.
    pub open spec fn of_tag(tag: u8) -> Option<CodecError> {
        if tag == 0 {
            Some(CodecError::UnexpectedEnd)
        } else if tag == 1 {
            Some(CodecError::MalformedLength)
        } else if tag == 2 {
            Some(CodecError::UnknownTag)
        } else if tag == 3 {
            Some(CodecError::TrailingBytes)
        } else if tag == 4 {
            Some(CodecError::SequenceTooLong)
        } else {
            None
        }
    }

    pub fn to_tag(self) -> (tag: u8)
        ensures
            tag == self.tag(),
            CodecError::of_tag(tag) == Some(self),
    {
        match self {
            CodecError::UnexpectedEnd => 0,
            CodecError::MalformedLength => 1,
            CodecError::UnknownTag => 2,
            CodecError::TrailingBytes => 3,
            CodecError::SequenceTooLong => 4,
        }
    }

    pub fn from_tag(tag: u8) -> (error: Option<CodecError>)
        ensures
            error == CodecError::of_tag(tag),
            error matches Some(e) ==> e.tag() == tag,
    {
        match tag {
            0 => Some(CodecError::UnexpectedEnd),
            1 => Some(CodecError::MalformedLength),
            2 => Some(CodecError::UnknownTag),
            3 => Some(CodecError::TrailingBytes),
            4 => Some(CodecError::SequenceTooLong),
            _ => None,
        }
    }
}

impl TransportError {
    /// The byte that stands for this error on the wire.
    pub open spec fn tag(self) -> u8 {
        match self {
            TransportError::RemoteStreamClosed => 0,
            TransportError::DataTooLarge => 1,
            TransportError::Io => 2,
        }
    }

    /// The error that `tag` stands for, if any.
    pub open spec fn of_tag(tag: u8) -> Option<TransportError> {
        if tag == 0 {
            Some(TransportError::RemoteStreamClosed)
        } else if tag == 1 {
            Some(TransportError::DataTooLarge)
        } else if tag == 2 {
            Some(TransportError::Io)
        } else {
            None
        }
    }

    pub fn to_tag(self) -> (tag: u8)
        ensures
            tag == self.tag(),
            TransportError::of_tag(tag) == Some(self),
    {
        match self {
            TransportError::RemoteStreamClosed => 0,
            TransportError::DataTooLarge => 1,
            TransportError::Io => 2,
        }
    }

    pub fn from_tag(tag: u8) -> (error: Option<TransportError>)
        ensures
            error == TransportError::of_tag(tag),
            error matches Some(e) ==> e.tag() == tag,
    {
        match tag {
            0 => Some(TransportError::RemoteStreamClosed),
            1 => Some(TransportError::DataTooLarge),
            2 => Some(TransportError::Io),
            _ => None,
        }
    }

    /// Whether the failure is the expected, transient kind that a client
    /// answers by sending its request again.
    pub fn is_transient(self) -> (transient: bool)
        ensures
            transient == (self == TransportError::RemoteStreamClosed),
    {
        match self {
            TransportError::RemoteStreamClosed => true,
            _ => false,
        }
    }
}

pub const TAG_BLOCK_NOT_FOUND: u8 = 0;

pub const TAG_EXECUTION_FAILED: u8 = 1;

pub const TAG_TRANSPORT: u8 = 2;

pub const TAG_SERIALIZATION: u8 = 3;

pub const TAG_NO_SIGNING_KEY: u8 = 4;

/// A failure at the level of the capability: what a call on the capability
/// reports to its caller, locally or across the wire.
#[derive(Clone, Debug, PartialEq, Eq)]
#[allow(inconsistent_fields)]
pub enum Error {
    /// The capability knows no block of this identifier.
    BlockNotFound { block_id: Vec<u8> },
    /// The capability could not apply the operation.
    ExecutionFailed { detail: Vec<u8> },
    /// The channel to the capability failed for good.
    Transport { cause: TransportError },
    /// A message could not be encoded or decoded.
    Serialization { cause: CodecError },
    /// A signature was asked for, and no key is configured.
    NoSigningKey,
}

/// The logical value of an [`Error`].
#[allow(inconsistent_fields)]
pub ghost enum ErrorView {
    BlockNotFound { block_id: Seq<u8> },
    ExecutionFailed { detail: Seq<u8> },
    Transport { cause: TransportError },
    Serialization { cause: CodecError },
    NoSigningKey,
}

impl View for Error {
    type V = ErrorView;

    open spec fn view(&self) -> ErrorView {
        match self {
            Error::BlockNotFound { block_id } => ErrorView::BlockNotFound { block_id: block_id@ },
            Error::ExecutionFailed { detail } => ErrorView::ExecutionFailed { detail: detail@ },
            Error::Transport { cause } => ErrorView::Transport { cause: *cause },
            Error::Serialization { cause } => ErrorView::Serialization { cause: *cause },
            Error::NoSigningKey => ErrorView::NoSigningKey,
        }
    }
}

impl ErrorView {
    /// Whether every sequence in the error is short enough to be encoded.
    pub open spec fn fits(self) -> bool {
        match self {
            ErrorView::BlockNotFound { block_id } => block_id.len() <= MAX_SEQUENCE_LENGTH,
            ErrorView::ExecutionFailed { detail } => detail.len() <= MAX_SEQUENCE_LENGTH,
            _ => true,
        }
    }

    /// The canonical bytes of the error: the variant's tag, then its payload.
    pub open spec fn encoding(self) -> Seq<u8> {
        match self {
            ErrorView::BlockNotFound { block_id } => seq![TAG_BLOCK_NOT_FOUND] + bytes_encoding(
                block_id,
            ),
            ErrorView::ExecutionFailed { detail } => seq![TAG_EXECUTION_FAILED] + bytes_encoding(
                detail,
            ),
            ErrorView::Transport { cause } => seq![TAG_TRANSPORT, cause.tag()],
            ErrorView::Serialization { cause } => seq![TAG_SERIALIZATION, cause.tag()],
            ErrorView::NoSigningKey => seq![TAG_NO_SIGNING_KEY],
        }
    }
}

/// Reads one error from the front of `bytes`; gives it and the number of
/// bytes it occupies.
pub open spec fn parse_error(bytes: Seq<u8>) -> Result<(ErrorView, nat), CodecError> {
    if bytes.len() == 0 {
        Err(CodecError::UnexpectedEnd)
    } else if bytes[0] == TAG_BLOCK_NOT_FOUND {
        match parse_bytes(bytes.skip(1)) {
            Ok((block_id, used)) => Ok((ErrorView::BlockNotFound { block_id }, 1 + used)),
            Err(e) => Err(e),
        }
    } else if bytes[0] == TAG_EXECUTION_FAILED {
        match parse_bytes(bytes.skip(1)) {
            Ok((detail, used)) => Ok((ErrorView::ExecutionFailed { detail }, 1 + used)),
            Err(e) => Err(e),
        }
    } else if bytes[0] == TAG_TRANSPORT {
        if bytes.len() < 2 {
            Err(CodecError::UnexpectedEnd)
        } else {
            match TransportError::of_tag(bytes[1]) {
                Some(cause) => Ok((ErrorView::Transport { cause }, 2)),
                None => Err(CodecError::UnknownTag),
            }
        }
    } else if bytes[0] == TAG_SERIALIZATION {
        if bytes.len() < 2 {
            Err(CodecError::UnexpectedEnd)
        } else {
            match CodecError::of_tag(bytes[1]) {
                Some(cause) => Ok((ErrorView::Serialization { cause }, 2)),
                None => Err(CodecError::UnknownTag),
            }
        }
    } else if bytes[0] == TAG_NO_SIGNING_KEY {
        Ok((ErrorView::NoSigningKey, 1))
    } else {
        Err(CodecError::UnknownTag)
    }
}

/// An error that fits is read back from its encoding, whatever follows.
pub proof fn lemma_parse_error_encoded(error: ErrorView, rest: Seq<u8>)
    requires
        error.fits(),
    ensures
        parse_error(error.encoding() + rest) == Ok::<(ErrorView, nat), CodecError>(
            (error, error.encoding().len()),
        ),
{
    let bytes = error.encoding() + rest;
    match error {
        ErrorView::BlockNotFound { block_id } => {
            assert(bytes[0] == TAG_BLOCK_NOT_FOUND);
            assert(bytes.skip(1) =~= bytes_encoding(block_id) + rest);
            lemma_parse_bytes_encoded(block_id, rest);
        },
        ErrorView::ExecutionFailed { detail } => {
            assert(bytes[0] == TAG_EXECUTION_FAILED);
            assert(bytes.skip(1) =~= bytes_encoding(detail) + rest);
            lemma_parse_bytes_encoded(detail, rest);
        },
        ErrorView::Transport { cause } => {
            assert(bytes[0] == TAG_TRANSPORT);
            assert(bytes[1] == cause.tag());
        },
        ErrorView::Serialization { cause } => {
            assert(bytes[0] == TAG_SERIALIZATION);
            assert(bytes[1] == cause.tag());
        },
        ErrorView::NoSigningKey => {
            assert(bytes[0] == TAG_NO_SIGNING_KEY);
        },
    }
}

/// An error that was read fits, and stands at the front in canonical form.
pub proof fn lemma_parsed_error_is_encoded(bytes: Seq<u8>)
    requires
        parse_error(bytes) is Ok,
    ensures
        ({
            let (error, used) = parse_error(bytes).unwrap();
            &&& error.fits()
            &&& 1 <= used <= bytes.len()
            &&& bytes.subrange(0, used as int) == error.encoding()
        }),
{
    let (error, used) = parse_error(bytes).unwrap();
    let body = bytes.skip(1);
    if bytes[0] == TAG_BLOCK_NOT_FOUND {
        lemma_parsed_bytes_is_encoded(body);
        let (block_id, n) = parse_bytes(body).unwrap();
        assert(bytes.subrange(0, used as int) =~= seq![TAG_BLOCK_NOT_FOUND] + body.subrange(
            0,
            n as int,
        ));
    } else if bytes[0] == TAG_EXECUTION_FAILED {
        lemma_parsed_bytes_is_encoded(body);
        let (detail, n) = parse_bytes(body).unwrap();
        assert(bytes.subrange(0, used as int) =~= seq![TAG_EXECUTION_FAILED] + body.subrange(
            0,
            n as int,
        ));
    } else {
        assert(bytes.subrange(0, used as int) =~= error.encoding());
    }
}

impl Error {
    /// Whether the error can be encoded.
    pub fn is_encodable(&self) -> (fits: bool)
        ensures
            fits == self@.fits(),
    {
        match self {
            Error::BlockNotFound { block_id } => block_id.len() <= MAX_SEQUENCE_LENGTH,
            Error::ExecutionFailed { detail } => detail.len() <= MAX_SEQUENCE_LENGTH,
            _ => true,
        }
    }

    /// Appends the canonical bytes of the error to `out`. Fails exactly
    /// when the error holds a sequence too long to be encoded.
    pub fn write(&self, out: &mut Vec<u8>) -> (r: Result<(), CodecError>)
        ensures
            match r {
                Ok(_) => self@.fits() && final(out)@ == old(out)@ + self@.encoding(),
                Err(e) => !self@.fits() && e == CodecError::SequenceTooLong,
            },
    {
        let ghost before = out@;
        match self {
            Error::BlockNotFound { block_id } => {
                out.push(TAG_BLOCK_NOT_FOUND);
                write_bytes(out, block_id.as_slice())?;
            },
            Error::ExecutionFailed { detail } => {
                out.push(TAG_EXECUTION_FAILED);
                write_bytes(out, detail.as_slice())?;
            },
            Error::Transport { cause } => {
                out.push(TAG_TRANSPORT);
                out.push(cause.to_tag());
            },
            Error::Serialization { cause } => {
                out.push(TAG_SERIALIZATION);
                out.push(cause.to_tag());
            },
            Error::NoSigningKey => {
                out.push(TAG_NO_SIGNING_KEY);
            },
        }
        assert(out@ =~= before + self@.encoding());
        Ok(())
    }

    /// Reads one error at `pos`; gives it and the position behind it.
    pub fn read(input: &[u8], pos: usize) -> (r: Result<(Error, usize), CodecError>)
        requires
            pos <= input@.len(),
        ensures
            match r {
                Ok((error, next)) => parse_error(input@.skip(pos as int)) == Ok::<
                    (ErrorView, nat),
                    CodecError,
                >((error@, (next - pos) as nat)) && pos < next <= input@.len(),
                Err(e) => parse_error(input@.skip(pos as int)) == Err::<(ErrorView, nat), CodecError>(
                    e,
                ),
            },
    {
        let ghost bytes = input@.skip(pos as int);
        if pos >= input.len() {
            return Err(CodecError::UnexpectedEnd);
        }
        let tag: u8 = input[pos];
        assert(bytes[0] == tag);
        assert(bytes.skip(1) =~= input@.skip(pos + 1));
        if tag == TAG_BLOCK_NOT_FOUND {
            match read_bytes(input, pos + 1) {
                Ok((block_id, next)) => Ok((Error::BlockNotFound { block_id }, next)),
                Err(e) => Err(e),
            }
        } else if tag == TAG_EXECUTION_FAILED {
            match read_bytes(input, pos + 1) {
                Ok((detail, next)) => Ok((Error::ExecutionFailed { detail }, next)),
                Err(e) => Err(e),
            }
        } else if tag == TAG_TRANSPORT {
            if input.len() - pos < 2 {
                return Err(CodecError::UnexpectedEnd);
            }
            assert(bytes[1] == input[pos + 1]);
            match TransportError::from_tag(input[pos + 1]) {
                Some(cause) => Ok((Error::Transport { cause }, pos + 2)),
                None => Err(CodecError::UnknownTag),
            }
        } else if tag == TAG_SERIALIZATION {
            if input.len() - pos < 2 {
                return Err(CodecError::UnexpectedEnd);
            }
            assert(bytes[1] == input[pos + 1]);
            match CodecError::from_tag(input[pos + 1]) {
                Some(cause) => Ok((Error::Serialization { cause }, pos + 2)),
                None => Err(CodecError::UnknownTag),
            }
        } else if tag == TAG_NO_SIGNING_KEY {
            Ok((Error::NoSigningKey, pos + 1))
        } else {
            Err(CodecError::UnknownTag)
        }
    }
}

} // verus!
