use voicemcu::common::error::VoiceError;
use voicemcu::common::protocol::{
    decode_audio_datagram, encode_audio_datagram, AudioFrameHeader, ClientInfo, SignalMessage,
    MAX_SIGNAL_LEN,
};
use voicemcu::common::signal::{decode_signal, encode_signal, frame_signal, read_signal_len};


#[test]
fn signal_join_round_trip() {
    let msg = SignalMessage::Join {
        room_code: "test-room".into(),
        display_name: "alice".into(),
    };
    let bytes = encode_signal(&msg).expect("encode");
    assert_eq!(decode_signal(&bytes).expect("decode"), msg);
}

#[test]
fn signal_leave_round_trip() {
    let bytes = encode_signal(&SignalMessage::Leave).expect("encode");
    assert!(matches!(
        decode_signal(&bytes).expect("decode"),
        SignalMessage::Leave
    ));
}

#[test]
fn signal_room_info_round_trip() {
    let msg = SignalMessage::RoomInfo {
        clients: vec![
            ClientInfo {
                client_id: 1,
                display_name: "alice".into(),
                muted: false,
                server_muted: false,
                is_host: true,
            },
            ClientInfo {
                client_id: 2,
                display_name: "bob".into(),
                muted: true,
                server_muted: true,
                is_host: false,
            },
        ],
    };
    let bytes = encode_signal(&msg).expect("encode");
    assert_eq!(decode_signal(&bytes).expect("decode"), msg);
}

#[test]
fn signal_decode_garbage_fails() {
    let garbage = [0xFF, 0xFE, 0xFD];
    assert!(decode_signal(&garbage).is_err());
}

#[test]
fn signal_kick_round_trip() {
    let msg = SignalMessage::Kick { target: 42 };
    let bytes = encode_signal(&msg).expect("encode");
    assert_eq!(decode_signal(&bytes).expect("decode"), msg);
}

#[test]
fn signal_server_mute_round_trip() {
    let msg = SignalMessage::ServerMute {
        target: 7,
        muted: true,
    };
    let bytes = encode_signal(&msg).expect("encode");
    assert_eq!(decode_signal(&bytes).expect("decode"), msg);
}

#[test]
fn signal_block_peer_round_trip() {
    let msg = SignalMessage::BlockPeer { target: 3 };
    let bytes = encode_signal(&msg).expect("encode");
    assert_eq!(decode_signal(&bytes).expect("decode"), msg);
}

#[test]
fn signal_you_are_host_round_trip() {
    let bytes = encode_signal(&SignalMessage::YouAreHost).expect("encode");
    assert_eq!(
        decode_signal(&bytes).expect("decode"),
        SignalMessage::YouAreHost
    );
}

#[test]
fn signal_kicked_round_trip() {
    let msg = SignalMessage::Kicked {
        reason: "disruptive".into(),
    };
    let bytes = encode_signal(&msg).expect("encode");
    assert_eq!(decode_signal(&bytes).expect("decode"), msg);
}

#[test]
fn signal_peer_muted_self_round_trip() {
    let msg = SignalMessage::PeerMuted {
        client_id: 5,
        muted: true,
        by_server: false,
    };
    let bytes = encode_signal(&msg).expect("encode");
    assert_eq!(decode_signal(&bytes).expect("decode"), msg);
}

#[test]
fn signal_peer_muted_by_server_round_trip() {
    let msg = SignalMessage::PeerMuted {
        client_id: 3,
        muted: true,
        by_server: true,
    };
    let bytes = encode_signal(&msg).expect("encode");
    assert_eq!(decode_signal(&bytes).expect("decode"), msg);
}

#[test]
fn audio_header_round_trip() {
    let header = AudioFrameHeader {
        client_id: 0xDEAD_BEEF_CAFE_BABE,
        sequence: 42,
        timestamp: 960 * 42,
    };
    let bytes = header.to_bytes();
    let restored = AudioFrameHeader::from_bytes(&bytes);
    assert_eq!(restored.client_id, header.client_id);
    assert_eq!(restored.sequence, header.sequence);
    assert_eq!(restored.timestamp, header.timestamp);
}

#[test]
fn audio_datagram_round_trip() {
    let header = AudioFrameHeader {
        client_id: 7,
        sequence: 100,
        timestamp: 96000,
    };
    let payload = b"fake-opus-data";
    let datagram = encode_audio_datagram(&header, payload);

    assert_eq!(datagram.len(), AudioFrameHeader::SIZE + payload.len());

    let (decoded_hdr, decoded_payload) = decode_audio_datagram(&datagram).expect("decode");
    assert_eq!(decoded_hdr.client_id, 7);
    assert_eq!(decoded_hdr.sequence, 100);
    assert_eq!(decoded_hdr.timestamp, 96000);
    assert_eq!(decoded_payload, payload);
}

#[test]
fn audio_datagram_too_short() {
    let short = [0u8; AudioFrameHeader::SIZE - 1];
    assert!(decode_audio_datagram(&short).is_err());
}

#[test]
fn audio_datagram_empty_payload() {
    let header = AudioFrameHeader {
        client_id: 1,
        sequence: 0,
        timestamp: 0,
    };
    let datagram = encode_audio_datagram(&header, &[]);
    let (_, payload) = decode_audio_datagram(&datagram).expect("decode");
    assert!(payload.is_empty());
}

#[test]
fn signal_error_round_trip() {
    let msg = SignalMessage::Error {
        message: "only the host can kick".into(),
    };
    let bytes = encode_signal(&msg).expect("encode");
    assert_eq!(decode_signal(&bytes).expect("decode"), msg);
}

/// Writes frames to a byte stream and reads them back.
fn read_framed(stream: &[u8]) -> Result<(SignalMessage, usize), String> {
    let mut prefix = [0u8; 4];
    prefix.copy_from_slice(&stream[..4]);
    let len = read_signal_len(&prefix)?;
    let msg = decode_signal(&stream[4..4 + len]).map_err(|e| e.message())?;
    Ok((msg, 4 + len))
}

#[test]
fn framed_signal_round_trip() {
    let msg = SignalMessage::Kick { target: 42 };
    let stream = frame_signal(&msg).expect("write");
    let (decoded, used) = read_framed(&stream).expect("read");
    assert_eq!(decoded, msg);
    assert_eq!(used, stream.len());
}

#[test]
fn framed_signal_error_round_trip() {
    let msg = SignalMessage::Error {
        message: "rate limited".into(),
    };
    let stream = frame_signal(&msg).expect("write");
    let (decoded, used) = read_framed(&stream).expect("read");
    assert_eq!(decoded, msg);
    assert_eq!(used, stream.len());
}

#[test]
fn framed_signal_rejects_oversized() {
    let fake_len = (MAX_SIGNAL_LEN as u32 + 1).to_be_bytes();
    let result = read_framed(&fake_len);
    assert_eq!(result, Err("signaling message too large".to_string()));
}

#[test]
fn framed_signal_accepts_the_largest_length() {
    assert_eq!(read_signal_len(&[0, 1, 0, 0]), Ok(MAX_SIGNAL_LEN));
    assert_eq!(read_signal_len(&[0, 0, 0, 0]), Ok(0));
}

#[test]
fn frames_follow_each_other_on_a_stream() {
    let first = SignalMessage::Mute { muted: true };
    let second = SignalMessage::ClientLeft { client_id: 300 };
    let mut stream = frame_signal(&first).expect("first");
    stream.extend(frame_signal(&second).expect("second"));
    let (a, used) = read_framed(&stream).expect("first");
    let (b, rest) = read_framed(&stream[used..]).expect("second");
    assert_eq!(a, first);
    assert_eq!(b, second);
    assert_eq!(used + rest, stream.len());
}

#[test]
fn signal_bytes_are_tag_then_fields() {
    let mute = encode_signal(&SignalMessage::Mute { muted: true }).expect("encode");
    assert_eq!(mute, vec![2, 1]);
    let kick = encode_signal(&SignalMessage::Kick { target: 300 }).expect("encode");
    assert_eq!(kick, vec![3, 0xac, 0x02]);
    let joined = encode_signal(&SignalMessage::Join {
        room_code: "r\u{e9}".into(),
        display_name: "a".into(),
    })
    .expect("encode");
    assert_eq!(joined, vec![0, 3, b'r', 0xc3, 0xa9, 1, b'a']);
}

#[test]
fn signal_bytes_agree_with_postcard_tuples() {
    // A variant is its index followed by its fields, as a tuple of them is.
    let info = SignalMessage::RoomInfo {
        clients: vec![ClientInfo {
            client_id: u64::MAX,
            display_name: "\u{1f399} mic".into(),
            muted: true,
            server_muted: false,
            is_host: true,
        }],
    };
    let same = postcard::to_allocvec(&(
        8u32,
        vec![(u64::MAX, "\u{1f399} mic", true, false, true)],
    ))
    .expect("tuple");
    assert_eq!(encode_signal(&info).expect("encode"), same);
    assert_eq!(decode_signal(&same).expect("decode"), info);

    let muted = SignalMessage::PeerMuted {
        client_id: 128,
        muted: false,
        by_server: true,
    };
    let same = postcard::to_allocvec(&(13u32, 128u64, false, true)).expect("tuple");
    assert_eq!(encode_signal(&muted).expect("encode"), same);
}

fn fault(data: &[u8]) -> String {
    decode_signal(data).expect_err("should not decode").message()
}

#[test]
fn signal_decode_faults() {
    assert_eq!(
        fault(&[]),
        "protocol error: Hit the end of buffer, expected more data"
    );
    assert_eq!(fault(&[15]), "protocol error: Serde Deserialization Error");
    assert_eq!(
        fault(&[2, 7]),
        "protocol error: Found a bool that wasn't 0 or 1"
    );
    assert_eq!(
        fault(&[14, 1, 0xff]),
        "protocol error: Tried to parse invalid utf-8"
    );
    assert_eq!(
        fault(&[0xff, 0xff, 0xff, 0xff, 0xff]),
        "protocol error: Found a varint that didn't terminate. Is the usize too big for this platform?"
    );
}

#[test]
fn signal_decode_ignores_what_follows() {
    assert_eq!(decode_signal(&[1, 9, 9]).expect("decode"), SignalMessage::Leave);
}

#[test]
fn header_bytes_are_big_endian() {
    let header = AudioFrameHeader {
        client_id: 0x0102_0304_0506_0708,
        sequence: 0x090a_0b0c,
        timestamp: 0x0d0e_0f10,
    };
    assert_eq!(
        header.to_bytes(),
        [1, 2, 3, 4, 5, 6, 7, 8, 9, 10, 11, 12, 13, 14, 15, 16]
    );
}

#[test]
fn datagram_error_says_why() {
    let err = decode_audio_datagram(&[0; 15]).expect_err("too short");
    assert_eq!(err.message(), "protocol error: datagram too short for header");
    let io = VoiceError::Io(std::io::Error::new(std::io::ErrorKind::Other, "gone"));
    assert_eq!(io.message(), "I/O error: gone");
    assert_eq!(
        VoiceError::Codec("BufferTooSmall".into()).message(),
        "opus codec error: BufferTooSmall"
    );
}
