use execution_correctness::error::TransportError;
use execution_correctness::framing::{encode_frame, FrameBuffer};

#[test]
fn frame_exact_bytes() {
    assert_eq!(encode_frame(&[]), Ok(vec![0, 0, 0, 0]));
    assert_eq!(encode_frame(&[9, 8, 7]), Ok(vec![3, 0, 0, 0, 9, 8, 7]));
    let message = vec![1u8; 0x0102_03];
    let framed = encode_frame(&message).unwrap();
    assert_eq!(&framed[..4], &[0x03, 0x02, 0x01, 0x00]);
    assert_eq!(&framed[4..], &message[..]);
}

#[test]
fn frame_round_trip() {
    let mut buffer = FrameBuffer::new();
    assert_eq!(buffer.len(), 0);
    buffer.receive(&encode_frame(&[1, 2, 3]).unwrap()).unwrap();
    assert_eq!(buffer.take_message(), Some(vec![1, 2, 3]));
    assert_eq!(buffer.len(), 0);
    assert_eq!(buffer.take_message(), None);
}

#[test]
fn frames_keep_message_boundaries() {
    let mut stream = encode_frame(&[1, 2, 3]).unwrap();
    stream.extend(encode_frame(&[]).unwrap());
    stream.extend(encode_frame(&[4]).unwrap());
    let mut buffer = FrameBuffer::new();
    buffer.receive(&stream).unwrap();
    assert_eq!(buffer.take_message(), Some(vec![1, 2, 3]));
    assert_eq!(buffer.take_message(), Some(vec![]));
    assert_eq!(buffer.take_message(), Some(vec![4]));
    assert_eq!(buffer.take_message(), None);
}

#[test]
fn partial_frame_yields_nothing_until_complete() {
    let framed = encode_frame(&[5, 6, 7, 8]).unwrap();
    let mut buffer = FrameBuffer::new();
    for byte in &framed[..framed.len() - 1] {
        buffer.receive(&[*byte]).unwrap();
        assert_eq!(buffer.take_message(), None);
    }
    assert_eq!(buffer.len(), framed.len() - 1);
    buffer.receive(&framed[framed.len() - 1..]).unwrap();
    assert_eq!(buffer.take_message(), Some(vec![5, 6, 7, 8]));
}

#[test]
fn empty_read_means_the_peer_closed() {
    let mut buffer = FrameBuffer::new();
    buffer.receive(&[1, 0]).unwrap();
    assert_eq!(buffer.receive(&[]), Err(TransportError::RemoteStreamClosed));
    assert_eq!(buffer.len(), 2);
}
