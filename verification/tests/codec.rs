use voicemcu::client::stream::{
    initial_roster, join_reply, Playout, ReceiveStream, SendStream,
};
use voicemcu::common::codec::{
    usable_len, EncodeAction, EncodeAttempts, EncodeOutcome, FailStreak,
};
use voicemcu::common::protocol::{
    decode_audio_datagram, ClientInfo, SignalMessage, MAX_OPUS_WIRE_PAYLOAD,
};

#[test]
fn output_is_cut_to_the_wire_payload() {
    assert_eq!(usable_len(1275).expect("room"), MAX_OPUS_WIRE_PAYLOAD);
    assert_eq!(usable_len(MAX_OPUS_WIRE_PAYLOAD).expect("room"), MAX_OPUS_WIRE_PAYLOAD);
    assert_eq!(usable_len(7).expect("room"), 7);
    assert_eq!(
        usable_len(0).expect_err("no room").message(),
        "protocol error: opus encode output buffer has zero usable length"
    );
}

#[test]
fn encoding_retries_twice_at_lower_bitrates() {
    let mut attempts = EncodeAttempts::new();
    assert_eq!(
        attempts.next(EncodeOutcome::BufferTooSmall),
        EncodeAction::Retry { bitrate: 16_000 }
    );
    assert_eq!(
        attempts.next(EncodeOutcome::BufferTooSmall),
        EncodeAction::Retry { bitrate: 12_000 }
    );
    assert_eq!(attempts.next(EncodeOutcome::BufferTooSmall), EncodeAction::GiveUp);
}

#[test]
fn encoding_restores_the_bitrate_it_lowered() {
    let mut first = EncodeAttempts::new();
    assert_eq!(
        first.next(EncodeOutcome::Encoded { len: 60 }),
        EncodeAction::Done { len: 60, restore: false }
    );
    let mut second = EncodeAttempts::new();
    second.next(EncodeOutcome::BufferTooSmall);
    assert_eq!(
        second.next(EncodeOutcome::Encoded { len: 40 }),
        EncodeAction::Done { len: 40, restore: true }
    );
    let mut failed = EncodeAttempts::new();
    assert_eq!(failed.next(EncodeOutcome::Failed), EncodeAction::GiveUp);
}

#[test]
fn third_failure_in_a_row_replaces_the_codec() {
    let mut streak = FailStreak::new();
    assert!(!streak.fail());
    assert!(!streak.fail());
    assert!(streak.fail());
    // The replacement failed: the next failure asks for it again.
    assert!(streak.fail());
    streak.clear();
    assert!(!streak.fail());
    for _ in 0..1000 {
        streak.fail();
    }
    assert!(streak.fail());
}

#[test]
fn sent_frames_are_numbered_without_gaps() {
    let mut stream = SendStream::new(9);
    let first = stream.encoded(b"one");
    stream.sent();
    assert!(!stream.encode_failed());
    assert!(!stream.encode_failed());
    assert!(stream.encode_failed());
    stream.encoder_replaced();
    assert!(!stream.encode_failed());
    let second = stream.encoded(b"two");
    stream.sent();
    let (a, payload) = decode_audio_datagram(&first).expect("first");
    assert_eq!((a.client_id, a.sequence, a.timestamp), (9, 0, 0));
    assert_eq!(payload, b"one");
    let (b, payload) = decode_audio_datagram(&second).expect("second");
    assert_eq!((b.client_id, b.sequence, b.timestamp), (9, 1, 960));
    assert_eq!(payload, b"two");
}

#[test]
fn received_frames_play_in_order() {
    let mut stream: ReceiveStream<char> = ReceiveStream::new();
    assert_eq!(stream.tick(), Playout::Idle);
    assert!(stream.decoded(10, 'a'));
    assert!(stream.decoded(12, 'c'));
    assert_eq!(stream.tick(), Playout::Play('a'));
    assert_eq!(stream.tick(), Playout::Conceal);
    assert!(!stream.decoded(11, 'b'));
    assert_eq!(stream.tick(), Playout::Play('c'));
}

#[test]
fn replaced_decoder_starts_afresh() {
    let mut stream: ReceiveStream<char> = ReceiveStream::new();
    assert!(stream.decoded(10, 'a'));
    assert!(!stream.decode_failed());
    assert!(!stream.decode_failed());
    assert!(stream.decode_failed());
    stream.decoder_replaced();
    assert_eq!(stream.tick(), Playout::Idle);
    assert!(stream.decoded(3, 'x'));
    assert_eq!(stream.tick(), Playout::Play('x'));
}

#[test]
fn answers_to_a_join() {
    assert_eq!(join_reply(SignalMessage::Joined { client_id: 4 }), Some(Ok(4)));
    assert_eq!(
        join_reply(SignalMessage::Error { message: "room is full".into() }),
        Some(Err("room is full".to_string()))
    );
    assert_eq!(join_reply(SignalMessage::YouAreHost), None);
    let clients = vec![ClientInfo {
        client_id: 4,
        display_name: "ann".into(),
        muted: false,
        server_muted: false,
        is_host: true,
    }];
    assert_eq!(
        initial_roster(Some(SignalMessage::RoomInfo { clients: clients.clone() })),
        clients
    );
    assert!(initial_roster(Some(SignalMessage::Leave)).is_empty());
    assert!(initial_roster(None).is_empty());
}
