use voicemcu::common::protocol::{encode_audio_datagram, AudioFrameHeader, FRAME_SIZE};
use voicemcu::server::config::ServerConfig;
use voicemcu::server::mix::{audio_packet, plan_room, Contribution, Mixer};
use voicemcu::server::room::{ClientState, Room, Server};
use voicemcu::server::session::MixCommand;

type PcmFrame = [f32; FRAME_SIZE];

const VAD_RMS_THRESHOLD: f32 = 0.002;

fn room_of(ids: &[u64]) -> Room {
    let mut room = Room::new();
    for id in ids {
        room.add(*id, ClientState::new(format!("client {id}")));
    }
    room
}

fn mixer_of(ids: &[u64]) -> Mixer<PcmFrame> {
    let mut mixer = Mixer::new(4);
    for id in ids {
        mixer.add_client(*id);
    }
    mixer
}

fn is_voice_active(frame: &PcmFrame) -> bool {
    let sum: f32 = frame.iter().map(|s| s * s).sum();
    (sum / frame.len() as f32).sqrt() >= VAD_RMS_THRESHOLD
}

fn mix_frames(frames: &[&PcmFrame]) -> PcmFrame {
    let mut mixed = [0.0; FRAME_SIZE];
    for frame in frames {
        for (out, sample) in mixed.iter_mut().zip(frame.iter()) {
            *out += sample;
        }
    }
    mixed
}

/// The mix that each destination gets.
fn mixes(
    mixer: &Mixer<PcmFrame>,
    room: &Room,
    frames: &[(u64, PcmFrame)],
) -> Vec<(u64, PcmFrame)> {
    let heard = frames.iter().map(|(id, f)| (*id, is_voice_active(f))).collect();
    let mut out: Vec<(u64, PcmFrame)> = mixer
        .plan(room, &heard)
        .into_iter()
        .map(|(dest, picked)| {
            let sources: Vec<&PcmFrame> = picked.iter().map(|i| &frames[*i].1).collect();
            (dest, mix_frames(&sources))
        })
        .collect();
    out.sort_by_key(|(dest, _)| *dest);
    out
}

#[test]
fn mix_excludes_self() {
    let a = [0.1f32; FRAME_SIZE];
    let b = [0.2f32; FRAME_SIZE];
    let c = [0.3f32; FRAME_SIZE];
    let all = vec![(1, a), (2, b), (3, c)];
    let got = mixes(&mixer_of(&[1, 2, 3]), &room_of(&[1, 2, 3]), &all);
    assert_eq!(got.len(), 3);
    for (dest_id, mixed) in got {
        let expected: f32 = all
            .iter()
            .filter(|(id, _)| *id != dest_id)
            .map(|(_, frame)| frame[0])
            .sum();
        assert!((mixed[0] - expected).abs() < 1e-6, "dest {dest_id}");
    }
}

#[test]
fn mix_excludes_muted() {
    let active_frame = [0.4f32; FRAME_SIZE];
    let muted_frame = [0.5f32; FRAME_SIZE];
    let mut room = room_of(&[1, 2, 3]);
    room.set_muted(2, true);
    let frames = vec![(1, active_frame), (2, muted_frame), (3, active_frame)];
    let got = mixes(&mixer_of(&[1, 2, 3]), &room, &frames);
    // Destination client 1 should hear client 3 only (2 is muted)
    assert_eq!(got[0].0, 1);
    assert!(
        (got[0].1[0] - 0.4).abs() < 1e-6,
        "muted client should not contribute to mix"
    );
}

#[test]
fn mix_excludes_vad_inactive() {
    let speech = [0.3f32; FRAME_SIZE];
    let noise = [0.0005f32; FRAME_SIZE]; // below VAD_RMS_THRESHOLD
    assert!(is_voice_active(&speech));
    assert!(!is_voice_active(&noise));
    let frames = vec![(1, speech), (2, noise)];
    let got = mixes(&mixer_of(&[1, 2, 3]), &room_of(&[1, 2, 3]), &frames);
    let third = got.iter().find(|(dest, _)| *dest == 3).expect("a mix for 3");
    assert!(
        (third.1[0] - 0.3).abs() < 1e-6,
        "only the speech frame should appear in the mix"
    );
    assert!(!got.iter().any(|(dest, _)| *dest == 1));
}

#[test]
fn mix_full_exclusion_pipeline() {
    let talking = [0.25f32; FRAME_SIZE];
    let muted_talking = [0.4f32; FRAME_SIZE];
    let quiet = [0.0001f32; FRAME_SIZE];
    let mut room = room_of(&[1, 2, 3, 4]);
    room.set_muted(2, true);
    let frames = vec![(1, talking), (2, muted_talking), (3, quiet)];
    let heard = frames.iter().map(|(id, f)| (*id, is_voice_active(f))).collect();
    let mixer = mixer_of(&[1, 2, 3, 4]);
    let plan = mixer.plan(&room, &heard);
    let fourth = plan.iter().find(|(dest, _)| *dest == 4).expect("a mix for 4");
    assert_eq!(fourth.1.len(), 1, "only client 1 should pass both gates");
    let mixed = mix_frames(&[&frames[fourth.1[0]].1]);
    assert!((mixed[0].tanh() - 0.25f32.tanh()).abs() < 1e-6);
}

fn plan_of(mixer: &Mixer<PcmFrame>, room: &Room, heard: &[(u64, bool)]) -> Vec<(u64, Vec<usize>)> {
    let mut plan = mixer.plan(room, &heard.to_vec());
    plan.sort();
    plan
}

#[test]
fn server_mute_and_blocks_are_obeyed() {
    let mixer = mixer_of(&[1, 2, 3]);
    let mut room = room_of(&[1, 2, 3]);
    let heard = [(1, true), (2, true), (3, true)];
    assert_eq!(
        plan_of(&mixer, &room, &heard),
        vec![(1, vec![1, 2]), (2, vec![0, 2]), (3, vec![0, 1])]
    );
    room.block(1, 2);
    assert_eq!(
        plan_of(&mixer, &room, &heard),
        vec![(1, vec![2]), (2, vec![0, 2]), (3, vec![0, 1])]
    );
    room.set_server_muted(3, true);
    assert_eq!(plan_of(&mixer, &room, &heard), vec![(2, vec![0]), (3, vec![0, 1])]);
    room.unblock(1, 2);
    assert_eq!(
        plan_of(&mixer, &room, &heard),
        vec![(1, vec![1]), (2, vec![0]), (3, vec![0, 1])]
    );
}

#[test]
fn those_who_left_neither_hear_nor_are_heard() {
    let mixer = mixer_of(&[1, 2, 3]);
    let mut room = room_of(&[1, 2, 3]);
    room.remove(2);
    let heard = [(1, true), (2, true), (3, true)];
    assert_eq!(plan_of(&mixer, &room, &heard), vec![(1, vec![2]), (3, vec![0])]);
    assert!(plan_of(&mixer, &room, &[(1, false), (3, false)]).is_empty());
}

#[test]
fn a_tick_takes_one_frame_from_each() {
    let mut mixer: Mixer<char> = Mixer::new(4);
    assert!(!mixer.is_active());
    mixer.apply(MixCommand::AddClient { client_id: 1 });
    assert!(!mixer.is_active());
    mixer.apply(MixCommand::AddClient { client_id: 2 });
    mixer.apply(MixCommand::AddClient { client_id: 3 });
    assert!(mixer.is_active());
    assert!(mixer.receive(1, 10, 'a'));
    assert!(mixer.receive(1, 11, 'b'));
    assert!(mixer.receive(2, 50, 'x'));
    assert!(!mixer.receive(9, 0, '?'));
    let sorted = |mixer: &mut Mixer<char>| {
        let mut out = mixer.tick();
        out.sort_by_key(|(id, _)| *id);
        out
    };
    assert_eq!(
        sorted(&mut mixer),
        vec![(1, Contribution::Play('a')), (2, Contribution::Play('x'))]
    );
    assert_eq!(
        sorted(&mut mixer),
        vec![(1, Contribution::Play('b')), (2, Contribution::Conceal)]
    );
    assert!(!mixer.receive(1, 10, 'a'));
    mixer.apply(MixCommand::RemoveClient { client_id: 1 });
    assert_eq!(sorted(&mut mixer), vec![(2, Contribution::Conceal)]);
    let mut ids = mixer.client_ids();
    ids.sort();
    assert_eq!(ids, vec![2, 3]);
    // A client that comes back starts with an empty buffer.
    mixer.add_client(2);
    assert!(sorted(&mut mixer).is_empty());
}

#[test]
fn headers_are_numbered_per_destination() {
    let mut mixer: Mixer<u8> = Mixer::new(2);
    mixer.add_client(1);
    mixer.add_client(2);
    let numbers: Vec<(u64, u32, u32)> = [1, 1, 2, 1]
        .iter()
        .map(|id| mixer.next_header(*id).expect("known"))
        .map(|h| (h.client_id, h.sequence, h.timestamp))
        .collect();
    assert_eq!(numbers, vec![(1, 0, 0), (1, 1, 960), (2, 0, 0), (1, 2, 1920)]);
    assert!(mixer.next_header(3).is_none());
}

#[test]
fn plan_of_a_room_on_the_server() {
    let mut server = Server::with_seed(ServerConfig::default(), 1);
    server.put_room("den", room_of(&[1, 2]));
    let mixer = mixer_of(&[1, 2]);
    let frames = vec![(1, true), (2, false)];
    assert_eq!(
        plan_room(&mut server, "den", &mixer, &frames),
        Some(vec![(2, vec![0])])
    );
    assert_eq!(plan_room(&mut server, "attic", &mixer, &frames), None);
    assert_eq!(server.take_room("den").expect("room").len(), 2);
}

#[test]
fn packets_come_out_of_datagrams() {
    let header = AudioFrameHeader { client_id: 1, sequence: 77, timestamp: 3 };
    let packet = audio_packet(&encode_audio_datagram(&header, b"opus")).expect("packet");
    assert_eq!(packet.sequence, 77);
    assert_eq!(packet.data, b"opus");
    assert!(audio_packet(&[0; 15]).is_none());
    assert!(audio_packet(&[0; 16]).expect("empty").data.is_empty());
}
