use torch_lights::codec::{Codec, Command, DecodeError, EncodeError, Output, Poll, PollReply};

fn sample_output(data: Vec<u8>) -> Output {
    Output {
        version: [0, 14],
        sequence: 7,
        physical: 1,
        port_address: 1,
        length: data.len() as u16,
        data,
    }
}

#[test]
fn round_trip_output() {
    let cmd = Command::Output(sample_output(vec![1, 2, 3, 4, 5, 6]));
    let bytes = Codec::encode(&cmd).unwrap();
    let back = Codec::decode(&bytes).unwrap();
    assert_eq!(back, cmd);
}

#[test]
fn round_trip_output_full_frame() {
    let data: Vec<u8> = (0..450u16).map(|i| (i % 251) as u8).collect();
    let cmd = Command::Output(sample_output(data));
    let bytes = Codec::encode(&cmd).unwrap();
    assert_eq!(bytes.len(), 18 + 450);
    let back = Codec::decode(&bytes).unwrap();
    assert_eq!(back, cmd);
}

#[test]
fn round_trip_poll() {
    let cmd = Command::Poll(Poll::default());
    let bytes = Codec::encode(&cmd).unwrap();
    assert_eq!(bytes.len(), 14);
    let back = Codec::decode(&bytes).unwrap();
    assert_eq!(back, cmd);
}

#[test]
fn round_trip_poll_reply() {
    let mut short_name = [0u8; 18];
    short_name[..5].copy_from_slice(b"torch");
    let mut long_name = [0u8; 64];
    long_name[..9].copy_from_slice(b"torch one");
    let cmd = Command::PollReply(PollReply {
        address: [10, 0, 0, 42],
        port: 6454,
        short_name,
        long_name,
    });
    let bytes = Codec::encode(&cmd).unwrap();
    assert_eq!(bytes.len(), 239);
    let back = Codec::decode(&bytes).unwrap();
    assert_eq!(back, cmd);
}

#[test]
fn encode_rejects_length_mismatch() {
    let mut out = sample_output(vec![1, 2, 3, 4]);
    out.length = 6;
    assert_eq!(
        Codec::encode(&Command::Output(out)),
        Err(EncodeError::LengthMismatch)
    );
}

#[test]
fn encode_rejects_bad_sizes() {
    // Empty payload.
    let out = sample_output(Vec::new());
    assert_eq!(
        Codec::encode(&Command::Output(out)),
        Err(EncodeError::SizeInvalid)
    );
    // Odd payload length.
    let out = sample_output(vec![1, 2, 3]);
    assert_eq!(
        Codec::encode(&Command::Output(out)),
        Err(EncodeError::SizeInvalid)
    );
    // Over 512 bytes.
    let out = sample_output(vec![0u8; 514]);
    assert_eq!(
        Codec::encode(&Command::Output(out)),
        Err(EncodeError::SizeInvalid)
    );
}

#[test]
fn decode_rejects_short_datagram() {
    assert_eq!(
        Codec::decode(&b"Art-Net\0\x00\x20".to_vec()),
        Err(DecodeError::TooShort)
    );
}

#[test]
fn decode_rejects_bad_header() {
    let bytes = b"Bad-Net\0\x00\x20\x00\x0e\x00\x80".to_vec();
    assert_eq!(Codec::decode(&bytes), Err(DecodeError::BadHeader));
}

#[test]
fn decode_rejects_unknown_opcode() {
    let bytes = b"Art-Net\0\xff\xff\x00\x0e\x00\x80".to_vec();
    assert_eq!(Codec::decode(&bytes), Err(DecodeError::UnknownOpcode));
}

#[test]
fn decode_rejects_truncated_reply() {
    // A PollReply opcode with far fewer than its 239 bytes.
    let mut bytes = b"Art-Net\0\x00\x21".to_vec();
    bytes.extend_from_slice(&[0u8; 20]);
    assert_eq!(Codec::decode(&bytes), Err(DecodeError::TruncatedPayload));
}

#[test]
fn decode_ignores_fields_this_service_does_not_read() {
    // A full-size reply with junk in the unmodelled fields still yields
    // the modelled ones.
    let mut bytes = b"Art-Net\0\x00\x21".to_vec();
    bytes.extend_from_slice(&[1, 2, 3, 4]); // address
    bytes.extend_from_slice(&[0x36, 0x19]); // port 6454 little-endian
    bytes.extend_from_slice(&[0xaa; 10]); // version .. esta, junk
    let mut short_name = [0u8; 18];
    short_name[..2].copy_from_slice(b"ab");
    bytes.extend_from_slice(&short_name);
    let long_name = [0x41u8; 64];
    bytes.extend_from_slice(&long_name);
    bytes.extend_from_slice(&[0xbb; 131]); // the rest, junk
    assert_eq!(bytes.len(), 239);
    match Codec::decode(&bytes).unwrap() {
        Command::PollReply(r) => {
            assert_eq!(r.address, [1, 2, 3, 4]);
            assert_eq!(r.port, 6454);
            assert_eq!(r.short_name, short_name);
            assert_eq!(r.long_name, long_name);
        }
        other => panic!("expected a PollReply, got {:?}", other),
    }
}

#[test]
fn output_wire_form_matches_artnet_library() {
    let payload: Vec<u8> = (0..450u16).map(|i| (i % 7) as u8).collect();
    let cmd = Command::Output(sample_output(payload.clone()));
    let bytes = Codec::encode(&cmd).unwrap();
    match artnet_protocol::ArtCommand::from_buffer(&bytes).unwrap() {
        artnet_protocol::ArtCommand::Output(out) => {
            assert_eq!(*out.length, 450u16);
            assert_eq!(out.data.as_ref(), &payload);
            assert_eq!(out.sequence, 7);
            assert_eq!(out.physical, 1);
        }
        other => panic!("expected an Output, got {:?}", other),
    }
}

#[test]
fn poll_wire_form_matches_artnet_library() {
    // What the established protocol library emits for its default Poll,
    // this codec reads back as its own default Poll.
    let theirs = artnet_protocol::ArtCommand::Poll(artnet_protocol::Poll::default())
        .write_to_buffer()
        .unwrap();
    assert_eq!(Codec::decode(&theirs).unwrap(), Command::Poll(Poll::default()));
    let ours = Codec::encode(&Command::Poll(Poll::default())).unwrap();
    assert_eq!(ours, theirs);
}

#[test]
fn poll_reply_wire_form_matches_artnet_library() {
    let mut short_name = [0u8; 18];
    short_name[..4].copy_from_slice(b"lamp");
    let cmd = Command::PollReply(PollReply {
        address: [192, 168, 1, 9],
        port: 6454,
        short_name,
        long_name: [0u8; 64],
    });
    let bytes = Codec::encode(&cmd).unwrap();
    match artnet_protocol::ArtCommand::from_buffer(&bytes).unwrap() {
        artnet_protocol::ArtCommand::PollReply(r) => {
            assert_eq!(r.address.octets(), [192, 168, 1, 9]);
            assert_eq!(r.port, 6454);
            assert_eq!(r.short_name, short_name);
            assert_eq!(r.long_name, [0u8; 64]);
        }
        other => panic!("expected a PollReply, got {:?}", other),
    }
}

#[test]
fn poll_reply_from_artnet_library_decodes() {
    // A reply emitted by the established protocol library — as a physical
    // node would send it — decodes to the fields this service keeps.
    let mut theirs = artnet_protocol::PollReply::default();
    theirs.address = [10, 1, 2, 3].into();
    theirs.short_name[..3].copy_from_slice(b"abc");
    theirs.long_name[..6].copy_from_slice(b"abcdef");
    theirs.node_report = [7u8; 64]; // junk in a field this service ignores
    let bytes = artnet_protocol::ArtCommand::PollReply(Box::new(theirs))
        .write_to_buffer()
        .unwrap();
    match Codec::decode(&bytes).unwrap() {
        Command::PollReply(r) => {
            assert_eq!(r.address, [10, 1, 2, 3]);
            assert_eq!(r.port, 6454);
            assert_eq!(&r.short_name[..3], b"abc");
            assert_eq!(r.short_name[3..], [0u8; 15]);
            assert_eq!(&r.long_name[..6], b"abcdef");
        }
        other => panic!("expected a PollReply, got {:?}", other),
    }
}

#[test]
fn output_from_artnet_library_decodes() {
    let payload: Vec<u8> = (0..100u8).collect();
    let mut theirs = artnet_protocol::Output::default();
    theirs.data = payload.clone().into();
    theirs.sequence = 3;
    let bytes = artnet_protocol::ArtCommand::Output(theirs)
        .write_to_buffer()
        .unwrap();
    match Codec::decode(&bytes).unwrap() {
        Command::Output(out) => {
            assert_eq!(out.length, 100);
            assert_eq!(out.data, payload);
            assert_eq!(out.sequence, 3);
        }
        other => panic!("expected an Output, got {:?}", other),
    }
}
