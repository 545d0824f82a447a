use voicemcu::client::audio_io::DeviceInfo;
use voicemcu::client::screen::{
    connected, cursor_column, cursor_row, event_scroll, input_line, input_title, peer_line,
    peers_title, start_audio, AudioStart, Span,
};
use voicemcu::client::tui::{AppState, Color, PeerEntry, Style};
use voicemcu::common::protocol::ClientInfo;

fn peer(client_id: u64, name: &str) -> PeerEntry {
    PeerEntry {
        client_id,
        display_name: name.into(),
        self_muted: false,
        server_muted: false,
        is_host: false,
    }
}

fn texts(spans: &[Span]) -> String {
    spans.iter().map(|s| s.text.as_str()).collect()
}

#[test]
fn roster_lines() {
    let mut state = AppState::new(7, "den".into(), "ann".into(), 10);
    state.peers.push(PeerEntry { is_host: true, ..peer(7, "ann") });
    state.peers.push(PeerEntry { self_muted: true, ..peer(12345, "Bob") });
    state.peers.push(PeerEntry { self_muted: true, server_muted: true, ..peer(3, "bob") });
    assert_eq!(peers_title(&state), " Peers (3) ");
    let me = peer_line(&state, &state.peers[0]);
    assert_eq!(texts(&me), ">#7   ann HOST ");
    assert_eq!(me[0].style, Style::new().fg(Color::DarkGray));
    assert_eq!(me[1].style, Style::new().fg(Color::White).bold());
    assert_eq!(me[2].style, Style::new().fg(Color::Cyan));
    let twin = peer_line(&state, &state.peers[1]);
    assert_eq!(texts(&twin), " #12345Bob (!) MUTE ");
    assert_eq!(twin[1].style, Style::new().fg(Color::LightYellow));
    assert_eq!(twin[3].style, Style::new().fg(Color::Yellow));
    let silenced = peer_line(&state, &state.peers[2]);
    assert_eq!(texts(&silenced), " #3   bob (!) SILENCED ");
    assert_eq!(silenced[3].style, Style::new().fg(Color::Red));
    state.peers.pop();
    let alone = peer_line(&state, &state.peers[1]);
    assert_eq!(texts(&alone), " #12345Bob MUTE ");
    assert_eq!(alone[1].style, Style::new().fg(Color::White));
}

#[test]
fn input_box() {
    let mut state = AppState::new(7, "den".into(), "ann".into(), 10);
    assert_eq!(texts(&input_title(&state)), " ann | room: den ");
    state.is_host = true;
    state.self_muted = true;
    assert_eq!(texts(&input_title(&state)), " ann | room: den [HOST] [MUTED] ");
    state.server_muted = true;
    let title = input_title(&state);
    assert_eq!(texts(&title), " ann | room: den [HOST] [SILENCED] ");
    assert_eq!(title[0].style, Style::new());
    state.input = "h\u{e9}".into();
    assert_eq!(texts(&input_line(&state)), "> h\u{e9}");
    // The cursor is placed by bytes.
    assert_eq!(cursor_column(&state, 10), 16);
    assert_eq!(cursor_row(20), 21);
}

#[test]
fn log_scrolls_to_its_end() {
    let mut state = AppState::new(7, "den".into(), "ann".into(), 100);
    for i in 0..30 {
        state.add_event(format!("{i}"), Style::new());
    }
    assert_eq!(event_scroll(&state, 12), 20);
    assert_eq!(event_scroll(&state, 32), 0);
    assert_eq!(event_scroll(&state, 40), 0);
    assert_eq!(event_scroll(&state, 1), 30);
}

#[test]
fn first_events() {
    let roster = vec![ClientInfo {
        client_id: 7,
        display_name: "ann".into(),
        muted: true,
        server_muted: false,
        is_host: true,
    }];
    let quiet = connected(7, "den".into(), "ann".into(), 10, &roster, false);
    assert_eq!(quiet.events.len(), 1);
    assert!(quiet.is_host && quiet.self_muted && !quiet.server_muted);
    let mut state = connected(7, "den".into(), "ann".into(), 10, &[], true);
    assert_eq!(state.events[0].0, "connected to server");
    assert_eq!(
        state.events[1],
        (
            "WARNING: TLS verification disabled -- connection is NOT secure".to_string(),
            Style::new().fg(Color::Red).bold()
        )
    );
    assert!(start_audio(&mut state, AudioStart::TestTone));
    assert_eq!(state.events[2].0, "test-tone mode (440 Hz sine)");
    let info = DeviceInfo {
        input_name: "mic".into(),
        input_rate: 44_100,
        input_channels: 2,
        output_name: "speaker".into(),
        output_rate: 48_000,
        output_channels: 1,
    };
    assert!(!start_audio(&mut state, AudioStart::Devices { info }));
    assert_eq!(state.events[3].0, "input:  mic (44100 Hz, 2 ch)");
    assert_eq!(state.events[4].0, "output: speaker (48000 Hz, 1 ch)");
    assert!(start_audio(&mut state, AudioStart::Failed { reason: "no card".into() }));
    assert_eq!(
        state.events[5],
        (
            "audio init failed, using test tone: no card".to_string(),
            Style::new().fg(Color::Yellow)
        )
    );
}
