use mbulet::protocol::{encode_frame, frame_len, Receiver};

#[test]
fn frame_is_length_then_payload() {
    assert_eq!(encode_frame(b"abc"), vec![0, 0, 0, 3, b'a', b'b', b'c']);
    assert_eq!(encode_frame(b""), vec![0, 0, 0, 0]);
    let long = vec![7u8; 70_000];
    let framed = encode_frame(&long);
    assert_eq!(framed[..4], [0, 1, 0x11, 0x70]);
    assert_eq!(framed.len(), 70_004);
}

#[test]
fn length_is_big_endian() {
    assert_eq!(frame_len(&[0, 0, 0, 3]), 3);
    assert_eq!(frame_len(&[0, 1, 0x11, 0x70]), 70_000);
    assert_eq!(frame_len(&[0xff, 0xff, 0xff, 0xff]), u32::MAX);
}

/// Takes a message off the front of a stream.
fn receive(stream: &mut Vec<u8>) -> Vec<u8> {
    let mut r = Receiver::new();
    while r.wanted() > 0 {
        let rest = stream.split_off(r.wanted());
        r.accept(stream);
        *stream = rest;
    }
    r.payload()
}

#[test]
fn frames_are_read_back_one_after_the_other() {
    let payloads: Vec<Vec<u8>> = vec![b"first".to_vec(), vec![], b"third one".to_vec()];
    let mut stream: Vec<u8> = Vec::new();
    for p in &payloads {
        stream.extend(encode_frame(p));
    }
    let read: Vec<Vec<u8>> = (0..3).map(|_| receive(&mut stream)).collect();
    assert_eq!(read, payloads);
    assert!(stream.is_empty());
}

#[test]
fn reader_asks_for_the_header_and_then_the_text() {
    let mut r = Receiver::new();
    assert_eq!(r.wanted(), 4);
    r.accept(&[0, 0]);
    assert_eq!(r.wanted(), 2);
    r.accept(&[1, 2]);
    assert_eq!(r.wanted(), 258);
    r.accept(&[7; 200]);
    assert_eq!(r.wanted(), 58);
    r.accept(&[8; 58]);
    assert_eq!(r.wanted(), 0);
    assert_eq!(r.payload().len(), 258);
}

#[test]
fn text_that_is_no_message_does_not_shift_the_stream() {
    let mut stream = encode_frame(b"{ this is no message ]");
    stream.extend(encode_frame(b"\"Detach\""));
    stream.extend(b"rest");
    assert!(serde_json::from_slice::<String>(&receive(&mut stream)).is_err());
    assert_eq!(serde_json::from_slice::<String>(&receive(&mut stream)).unwrap(), "Detach");
    assert_eq!(stream, b"rest".to_vec());
}
