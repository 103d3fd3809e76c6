use execution_correctness::error::{CodecError, Error, TransportError};
use execution_correctness::request::Request;
use execution_correctness::response::Response;
use execution_correctness::uleb128::{read_u32, write_u32};
use execution_correctness::wire::{
    list_is_encodable, read_bytes, read_list, write_bytes, write_list,
};

fn uleb(value: u32) -> Vec<u8> {
    let mut out = Vec::new();
    write_u32(&mut out, value);
    out
}

fn sample_requests() -> Vec<Request> {
    vec![
        Request::CommittedBlockId,
        Request::Reset,
        Request::ExecuteBlock { block: vec![1, 2, 3], parent_block_id: vec![9; 32] },
        Request::ExecuteBlock { block: vec![], parent_block_id: vec![] },
        Request::CommitBlocks {
            block_ids: vec![vec![1; 32], vec![], vec![2, 3]],
            ledger_info: vec![7, 7],
        },
        Request::CommitBlocks { block_ids: vec![], ledger_info: vec![] },
        Request::Sign { message: vec![0xff; 200] },
    ]
}

fn sample_responses() -> Vec<Response> {
    vec![
        Response::CommittedBlockId { block_id: vec![5; 32] },
        Response::ResetDone,
        Response::BlockExecuted { result: vec![1, 2, 3, 4] },
        Response::BlocksCommitted {
            transactions: vec![vec![1], vec![2, 2]],
            events: vec![vec![], vec![3, 3, 3]],
        },
        Response::Signed { signature: vec![8; 64] },
        Response::Failed { error: Error::BlockNotFound { block_id: vec![4; 32] } },
        Response::Failed { error: Error::ExecutionFailed { detail: vec![b'x'; 300] } },
        Response::Failed { error: Error::Transport { cause: TransportError::RemoteStreamClosed } },
        Response::Failed { error: Error::Transport { cause: TransportError::DataTooLarge } },
        Response::Failed { error: Error::Transport { cause: TransportError::Io } },
        Response::Failed { error: Error::Serialization { cause: CodecError::UnexpectedEnd } },
        Response::Failed { error: Error::Serialization { cause: CodecError::MalformedLength } },
        Response::Failed { error: Error::Serialization { cause: CodecError::UnknownTag } },
        Response::Failed { error: Error::Serialization { cause: CodecError::TrailingBytes } },
        Response::Failed { error: Error::Serialization { cause: CodecError::SequenceTooLong } },
        Response::Failed { error: Error::NoSigningKey },
    ]
}

#[test]
fn uleb128_exact_bytes() {
    assert_eq!(uleb(0), vec![0x00]);
    assert_eq!(uleb(1), vec![0x01]);
    assert_eq!(uleb(127), vec![0x7f]);
    assert_eq!(uleb(128), vec![0x80, 0x01]);
    assert_eq!(uleb(300), vec![0xac, 0x02]);
    assert_eq!(uleb(16384), vec![0x80, 0x80, 0x01]);
    assert_eq!(uleb(u32::MAX), vec![0xff, 0xff, 0xff, 0xff, 0x0f]);
}

#[test]
fn uleb128_appends_to_what_is_there() {
    let mut out = vec![0xaa];
    write_u32(&mut out, 300);
    assert_eq!(out, vec![0xaa, 0xac, 0x02]);
}

#[test]
fn uleb128_reads_back() {
    for value in [0u32, 1, 127, 128, 255, 300, 16383, 16384, 0x7fff_ffff, u32::MAX] {
        let mut bytes = vec![0xee];
        write_u32(&mut bytes, value);
        let end = bytes.len();
        bytes.push(0x55);
        assert_eq!(read_u32(&bytes, 1), Ok((value, end)));
    }
}

#[test]
fn uleb128_rejects_truncated_input() {
    assert_eq!(read_u32(&[], 0), Err(CodecError::UnexpectedEnd));
    assert_eq!(read_u32(&[0x80], 0), Err(CodecError::UnexpectedEnd));
    assert_eq!(read_u32(&[0xff, 0xff, 0xff], 0), Err(CodecError::UnexpectedEnd));
    assert_eq!(read_u32(&[0x01], 1), Err(CodecError::UnexpectedEnd));
}

#[test]
fn uleb128_rejects_non_canonical_forms() {
    assert_eq!(read_u32(&[0x80, 0x00], 0), Err(CodecError::MalformedLength));
    assert_eq!(read_u32(&[0x81, 0x80, 0x00], 0), Err(CodecError::MalformedLength));
}

#[test]
fn uleb128_rejects_values_beyond_32_bits() {
    assert_eq!(read_u32(&[0xff, 0xff, 0xff, 0xff, 0x10], 0), Err(CodecError::MalformedLength));
    assert_eq!(read_u32(&[0xff, 0xff, 0xff, 0xff, 0x7f], 0), Err(CodecError::MalformedLength));
    assert_eq!(
        read_u32(&[0x80, 0x80, 0x80, 0x80, 0x80, 0x01], 0),
        Err(CodecError::MalformedLength)
    );
}

#[test]
fn byte_strings_on_the_wire() {
    let mut out = Vec::new();
    write_bytes(&mut out, &[]).unwrap();
    assert_eq!(out, vec![0]);
    write_bytes(&mut out, &[7, 8]).unwrap();
    assert_eq!(out, vec![0, 2, 7, 8]);
    assert_eq!(read_bytes(&out, 0), Ok((vec![], 1)));
    assert_eq!(read_bytes(&out, 1), Ok((vec![7, 8], 4)));
    assert_eq!(read_bytes(&out, 2), Err(CodecError::UnexpectedEnd));
    assert_eq!(read_bytes(&out, 4), Err(CodecError::UnexpectedEnd));
}

#[test]
fn long_byte_string_gets_a_two_byte_length() {
    let data = vec![3u8; 200];
    let mut out = Vec::new();
    write_bytes(&mut out, &data).unwrap();
    assert_eq!(out.len(), 202);
    assert_eq!(&out[..2], &[0xc8, 0x01]);
    assert_eq!(read_bytes(&out, 0), Ok((data, 202)));
}

#[test]
fn byte_string_length_beyond_the_limit_is_rejected() {
    assert_eq!(read_bytes(&[0x80, 0x80, 0x80, 0x80, 0x08], 0), Err(CodecError::MalformedLength));
    assert_eq!(read_bytes(&[0xff, 0xff, 0xff, 0xff, 0x07], 0), Err(CodecError::UnexpectedEnd));
}

#[test]
fn lists_on_the_wire() {
    let items = vec![vec![1u8], vec![], vec![2, 3]];
    let mut out = Vec::new();
    write_list(&mut out, &items).unwrap();
    assert_eq!(out, vec![3, 1, 1, 0, 2, 2, 3]);
    assert_eq!(read_list(&out, 0), Ok((items, 7)));
    assert_eq!(read_list(&[0], 0), Ok((vec![], 1)));
    assert_eq!(read_list(&[2, 1, 1], 0), Err(CodecError::UnexpectedEnd));
    assert_eq!(read_list(&[1, 0x80, 0x00], 0), Err(CodecError::MalformedLength));
}

#[test]
fn wire_agrees_with_canonical_serialization() {
    for value in [0u32, 5, 127, 128, 300, 70000] {
        let data = vec![0xabu8; value as usize];
        let mut ours = Vec::new();
        write_bytes(&mut ours, &data).unwrap();
        assert_eq!(ours, libra_canonical_serialization::to_bytes(&data).unwrap());
    }
    let items = vec![vec![1u8, 2], vec![], vec![9u8; 130]];
    let mut ours = Vec::new();
    write_list(&mut ours, &items).unwrap();
    assert_eq!(ours, libra_canonical_serialization::to_bytes(&items).unwrap());
}

#[test]
fn requests_agree_with_canonical_serialization() {
    let block = vec![1u8, 2, 3];
    let parent = vec![9u8; 32];
    let mut expected = vec![2u8];
    expected.extend(libra_canonical_serialization::to_bytes(&(block.clone(), parent.clone())).unwrap());
    let request = Request::ExecuteBlock { block, parent_block_id: parent };
    assert_eq!(request.encode(), Ok(expected));

    let ids = vec![vec![1u8; 32], vec![2u8; 32]];
    let info = vec![7u8; 150];
    let mut expected = vec![3u8];
    expected.extend(libra_canonical_serialization::to_bytes(&(ids.clone(), info.clone())).unwrap());
    let request = Request::CommitBlocks { block_ids: ids, ledger_info: info };
    assert_eq!(request.encode(), Ok(expected));
}

#[test]
fn request_exact_bytes() {
    assert_eq!(Request::CommittedBlockId.encode(), Ok(vec![0]));
    assert_eq!(Request::Reset.encode(), Ok(vec![1]));
    assert_eq!(
        Request::ExecuteBlock { block: vec![0xaa, 0xbb], parent_block_id: vec![0xcc] }.encode(),
        Ok(vec![2, 2, 0xaa, 0xbb, 1, 0xcc])
    );
    assert_eq!(
        Request::CommitBlocks { block_ids: vec![vec![1], vec![2, 3]], ledger_info: vec![4] }
            .encode(),
        Ok(vec![3, 2, 1, 1, 2, 2, 3, 1, 4])
    );
    assert_eq!(Request::Sign { message: vec![1, 2, 3] }.encode(), Ok(vec![4, 3, 1, 2, 3]));
}

#[test]
fn response_exact_bytes() {
    assert_eq!(Response::CommittedBlockId { block_id: vec![6] }.encode(), Ok(vec![0, 1, 6]));
    assert_eq!(Response::ResetDone.encode(), Ok(vec![1]));
    assert_eq!(Response::BlockExecuted { result: vec![] }.encode(), Ok(vec![2, 0]));
    assert_eq!(
        Response::BlocksCommitted { transactions: vec![vec![1]], events: vec![] }.encode(),
        Ok(vec![3, 1, 1, 1, 0])
    );
    assert_eq!(Response::Signed { signature: vec![9, 9] }.encode(), Ok(vec![4, 2, 9, 9]));
    assert_eq!(
        Response::Failed { error: Error::BlockNotFound { block_id: vec![1] } }.encode(),
        Ok(vec![5, 0, 1, 1])
    );
    assert_eq!(
        Response::Failed { error: Error::ExecutionFailed { detail: vec![2, 3] } }.encode(),
        Ok(vec![5, 1, 2, 2, 3])
    );
    assert_eq!(
        Response::Failed { error: Error::Transport { cause: TransportError::Io } }.encode(),
        Ok(vec![5, 2, 2])
    );
    assert_eq!(
        Response::Failed { error: Error::Serialization { cause: CodecError::TrailingBytes } }
            .encode(),
        Ok(vec![5, 3, 3])
    );
    assert_eq!(Response::Failed { error: Error::NoSigningKey }.encode(), Ok(vec![5, 4]));
}

#[test]
fn request_round_trip() {
    for request in sample_requests() {
        let bytes = request.encode().unwrap();
        assert_eq!(Request::decode(&bytes), Ok(request));
    }
}

#[test]
fn response_round_trip() {
    for response in sample_responses() {
        let bytes = response.encode().unwrap();
        assert_eq!(Response::decode(&bytes), Ok(response));
    }
}

#[test]
fn decoded_bytes_encode_to_themselves() {
    let accepted: Vec<Vec<u8>> = vec![
        vec![0],
        vec![1],
        vec![2, 0, 0],
        vec![3, 0, 0],
        vec![3, 2, 0, 1, 5, 2, 6, 7],
        vec![4, 1, 0xff],
    ];
    for bytes in accepted {
        let request = Request::decode(&bytes).unwrap();
        assert_eq!(request.encode(), Ok(bytes));
    }
    let accepted: Vec<Vec<u8>> = vec![vec![1], vec![5, 4], vec![5, 2, 0], vec![3, 0, 1, 0]];
    for bytes in accepted {
        let response = Response::decode(&bytes).unwrap();
        assert_eq!(response.encode(), Ok(bytes));
    }
}

#[test]
fn distinct_requests_have_distinct_encodings() {
    let requests = sample_requests();
    for (i, a) in requests.iter().enumerate() {
        for (j, b) in requests.iter().enumerate() {
            assert_eq!(a.encode() == b.encode(), i == j);
        }
    }
}

#[test]
fn distinct_responses_have_distinct_encodings() {
    let responses = sample_responses();
    for (i, a) in responses.iter().enumerate() {
        for (j, b) in responses.iter().enumerate() {
            assert_eq!(a.encode() == b.encode(), i == j);
        }
    }
}

#[test]
fn encoding_is_deterministic() {
    for request in sample_requests() {
        assert_eq!(request.encode(), request.clone().encode());
    }
    for response in sample_responses() {
        assert_eq!(response.encode(), response.clone().encode());
    }
    let mut roomy = Vec::with_capacity(1000);
    roomy.extend_from_slice(&[1, 2, 3]);
    let a = Request::CommitBlocks { block_ids: vec![roomy.clone()], ledger_info: roomy };
    let b = Request::CommitBlocks { block_ids: vec![vec![1, 2, 3]], ledger_info: vec![1, 2, 3] };
    assert_eq!(a.encode(), b.encode());
}

#[test]
fn request_decode_rejects_truncated_bytes() {
    assert_eq!(Request::decode(&[]), Err(CodecError::UnexpectedEnd));
    assert_eq!(Request::decode(&[2]), Err(CodecError::UnexpectedEnd));
    assert_eq!(Request::decode(&[2, 1, 5]), Err(CodecError::UnexpectedEnd));
    assert_eq!(Request::decode(&[4, 3, 1, 2]), Err(CodecError::UnexpectedEnd));
    assert_eq!(Request::decode(&[3, 2, 1, 1]), Err(CodecError::UnexpectedEnd));
    for request in sample_requests() {
        let bytes = request.encode().unwrap();
        for cut in 0..bytes.len() {
            assert!(Request::decode(&bytes[..cut]).is_err());
        }
    }
}

#[test]
fn request_decode_rejects_unknown_tags() {
    assert_eq!(Request::decode(&[5]), Err(CodecError::UnknownTag));
    assert_eq!(Request::decode(&[0xff, 0, 0]), Err(CodecError::UnknownTag));
}

#[test]
fn request_decode_rejects_trailing_bytes() {
    assert_eq!(Request::decode(&[0, 0]), Err(CodecError::TrailingBytes));
    assert_eq!(Request::decode(&[4, 1, 9, 9]), Err(CodecError::TrailingBytes));
}

#[test]
fn request_decode_rejects_malformed_lengths() {
    assert_eq!(Request::decode(&[4, 0x80, 0x00]), Err(CodecError::MalformedLength));
    assert_eq!(
        Request::decode(&[4, 0xff, 0xff, 0xff, 0xff, 0x0f]),
        Err(CodecError::MalformedLength)
    );
}

#[test]
fn response_decode_rejects_what_is_no_response() {
    assert_eq!(Response::decode(&[]), Err(CodecError::UnexpectedEnd));
    assert_eq!(Response::decode(&[6]), Err(CodecError::UnknownTag));
    assert_eq!(Response::decode(&[5]), Err(CodecError::UnexpectedEnd));
    assert_eq!(Response::decode(&[5, 9]), Err(CodecError::UnknownTag));
    assert_eq!(Response::decode(&[5, 2]), Err(CodecError::UnexpectedEnd));
    assert_eq!(Response::decode(&[5, 2, 3]), Err(CodecError::UnknownTag));
    assert_eq!(Response::decode(&[5, 3, 5]), Err(CodecError::UnknownTag));
    assert_eq!(Response::decode(&[1, 1]), Err(CodecError::TrailingBytes));
    assert_eq!(Response::decode(&[0, 0x80, 0x00]), Err(CodecError::MalformedLength));
    assert_eq!(Response::decode(&[3, 1, 1]), Err(CodecError::UnexpectedEnd));
    for response in sample_responses() {
        let bytes = response.encode().unwrap();
        for cut in 0..bytes.len() {
            assert!(Response::decode(&bytes[..cut]).is_err());
        }
    }
}

#[test]
fn sequence_too_long_is_refused_by_encode() {
    let huge = vec![0u8; 0x8000_0000];
    let mut out = vec![1, 2];
    assert_eq!(write_bytes(&mut out, &huge), Err(CodecError::SequenceTooLong));
    assert_eq!(out, vec![1, 2]);
    let items = vec![vec![1u8], huge];
    assert!(!list_is_encodable(&items));
    let mut out = vec![3];
    assert_eq!(write_list(&mut out, &items), Err(CodecError::SequenceTooLong));
    assert_eq!(out, vec![3]);
    let mut items = items;
    let huge = items.pop().unwrap();
    assert!(list_is_encodable(&items));
    let error = Error::BlockNotFound { block_id: huge };
    assert!(!error.is_encodable());
    assert_eq!(error.write(&mut out), Err(CodecError::SequenceTooLong));
    let Error::BlockNotFound { block_id: huge } = error else { unreachable!() };
    let request = Request::Sign { message: huge };
    assert!(!request.is_encodable());
    assert_eq!(request.encode(), Err(CodecError::SequenceTooLong));
    let Request::Sign { message: huge } = request else { unreachable!() };
    let response = Response::BlockExecuted { result: huge };
    assert!(!response.is_encodable());
    assert_eq!(response.encode(), Err(CodecError::SequenceTooLong));
}

#[test]
fn error_tags_read_back() {
    for error in [
        CodecError::UnexpectedEnd,
        CodecError::MalformedLength,
        CodecError::UnknownTag,
        CodecError::TrailingBytes,
        CodecError::SequenceTooLong,
    ] {
        assert_eq!(CodecError::from_tag(error.to_tag()), Some(error));
    }
    assert_eq!(CodecError::from_tag(5), None);
    for error in
        [TransportError::RemoteStreamClosed, TransportError::DataTooLarge, TransportError::Io]
    {
        assert_eq!(TransportError::from_tag(error.to_tag()), Some(error));
    }
    assert_eq!(TransportError::from_tag(3), None);
    assert!(TransportError::RemoteStreamClosed.is_transient());
    assert!(!TransportError::Io.is_transient());
    assert!(!TransportError::DataTooLarge.is_transient());
}

#[test]
fn error_reads_at_a_position() {
    let mut out = vec![0xaa];
    Error::ExecutionFailed { detail: vec![1, 2] }.write(&mut out).unwrap();
    assert_eq!(out, vec![0xaa, 1, 2, 1, 2]);
    assert_eq!(Error::read(&out, 1), Ok((Error::ExecutionFailed { detail: vec![1, 2] }, 5)));
    assert_eq!(Error::read(&out, 5), Err(CodecError::UnexpectedEnd));
    assert_eq!(Error::read(&[7], 0), Err(CodecError::UnknownTag));
}
