use voicemcu::client::tui::{
    AppState, Color, Key, PeerEntry, Style, TuiEvent, DEFAULT_MAX_EVENTS,
};
use voicemcu::common::protocol::{ClientInfo, SignalMessage};

fn make_state() -> AppState {
    let mut s = AppState::new(1, "room-1".into(), "alice".into(), DEFAULT_MAX_EVENTS);
    s.peers.push(PeerEntry {
        client_id: 1,
        display_name: "alice".into(),
        self_muted: false,
        server_muted: false,
        is_host: true,
    });
    s.peers.push(PeerEntry {
        client_id: 2,
        display_name: "bob".into(),
        self_muted: false,
        server_muted: false,
        is_host: false,
    });
    s.is_host = true;
    s
}

#[test]
fn find_peer_by_id() {
    let state = make_state();
    assert_eq!(state.find_peer("2"), Ok(2));
}

#[test]
fn find_peer_by_name_case_insensitive() {
    let state = make_state();
    assert_eq!(state.find_peer("BOB"), Ok(2));
    assert_eq!(state.find_peer("bob"), Ok(2));
}

#[test]
fn find_peer_unknown() {
    let state = make_state();
    assert!(state.find_peer("nobody").is_err());
    assert!(state.find_peer("999").is_err());
}

#[test]
fn command_mute_toggles() {
    let mut state = make_state();
    assert!(!state.self_muted);

    state.input = "/mute".into();
    let msg = state.process_command();
    assert!(state.self_muted);
    assert_eq!(msg, Some(SignalMessage::Mute { muted: true }));

    state.input = "/mute".into();
    let msg = state.process_command();
    assert!(!state.self_muted);
    assert_eq!(msg, Some(SignalMessage::Mute { muted: false }));
}

#[test]
fn command_mute_warns_when_server_muted() {
    let mut state = make_state();
    state.server_muted = true;
    state.self_muted = true;

    state.input = "/mute".into();
    let msg = state.process_command();
    assert!(!state.self_muted);
    assert_eq!(msg, Some(SignalMessage::Mute { muted: false }));
    assert!(
        state
            .events
            .back()
            .unwrap()
            .0
            .contains("still silenced by host")
    );
}

#[test]
fn command_kick_requires_host() {
    let mut state = make_state();
    state.is_host = false;
    state.input = "/kick bob".into();
    let msg = state.process_command();
    assert!(msg.is_none());
    assert!(state.events.back().unwrap().0.contains("host"));
}

#[test]
fn command_kick_as_host() {
    let mut state = make_state();
    state.input = "/kick bob".into();
    let msg = state.process_command();
    assert_eq!(msg, Some(SignalMessage::Kick { target: 2 }));
}

#[test]
fn command_block_returns_message() {
    let mut state = make_state();
    state.input = "/block bob".into();
    let msg = state.process_command();
    assert_eq!(msg, Some(SignalMessage::BlockPeer { target: 2 }));
}

#[test]
fn command_unblock_returns_message() {
    let mut state = make_state();
    state.input = "/unblock bob".into();
    let msg = state.process_command();
    assert_eq!(msg, Some(SignalMessage::UnblockPeer { target: 2 }));
}

#[test]
fn command_leave_sets_quit() {
    let mut state = make_state();
    state.input = "/leave".into();
    let msg = state.process_command();
    assert!(state.should_quit);
    assert_eq!(msg, Some(SignalMessage::Leave));
}

#[test]
fn command_help_adds_events() {
    let mut state = make_state();
    state.input = "/help".into();
    let msg = state.process_command();
    assert!(msg.is_none());
    assert!(state.events.len() >= 5);
}

#[test]
fn command_unknown_reports_error() {
    let mut state = make_state();
    state.input = "/bogus".into();
    let msg = state.process_command();
    assert!(msg.is_none());
    assert!(state.events.back().unwrap().0.contains("unknown command"));
}

#[test]
fn command_forcemute_as_host() {
    let mut state = make_state();
    state.input = "/forcemute bob".into();
    let msg = state.process_command();
    assert_eq!(
        msg,
        Some(SignalMessage::ServerMute {
            target: 2,
            muted: true
        })
    );
}

#[test]
fn command_forceunmute_as_host() {
    let mut state = make_state();
    state.input = "/forceunmute bob".into();
    let msg = state.process_command();
    assert_eq!(
        msg,
        Some(SignalMessage::ServerMute {
            target: 2,
            muted: false
        })
    );
}

#[test]
fn command_empty_arg_shows_usage() {
    let mut state = make_state();
    state.input = "/kick".into();
    let msg = state.process_command();
    assert!(msg.is_none());
    assert!(state.events.back().unwrap().0.contains("usage"));
}

#[test]
fn handle_signal_client_joined() {
    let mut state = make_state();
    state.handle_signal(SignalMessage::ClientJoined {
        client_id: 3,
        display_name: "charlie".into(),
    });
    assert_eq!(state.peers.len(), 3);
    assert_eq!(state.peers[2].display_name, "charlie");
    assert!(state.events.back().unwrap().0.contains("charlie joined"));
}

#[test]
fn handle_signal_client_left() {
    let mut state = make_state();
    state.handle_signal(SignalMessage::ClientLeft { client_id: 2 });
    assert_eq!(state.peers.len(), 1);
    assert!(state.events.back().unwrap().0.contains("bob left"));
}

#[test]
fn handle_signal_you_are_host() {
    let mut state = make_state();
    state.is_host = false;
    state.handle_signal(SignalMessage::YouAreHost);
    assert!(state.is_host);
    assert!(state.events.back().unwrap().0.contains("host"));
}

#[test]
fn handle_signal_kicked_sets_quit() {
    let mut state = make_state();
    state.handle_signal(SignalMessage::Kicked {
        reason: "testing".into(),
    });
    assert!(state.should_quit);
    assert!(state.events.back().unwrap().0.contains("kicked"));
}

#[test]
fn handle_signal_self_mute() {
    let mut state = make_state();
    state.handle_signal(SignalMessage::PeerMuted {
        client_id: 2,
        muted: true,
        by_server: false,
    });
    assert!(state.peers[1].self_muted);
    assert!(!state.peers[1].server_muted);
    assert!(state.events.back().unwrap().0.contains("bob muted"));
}

#[test]
fn handle_signal_server_mute() {
    let mut state = make_state();
    state.handle_signal(SignalMessage::PeerMuted {
        client_id: 2,
        muted: true,
        by_server: true,
    });
    assert!(!state.peers[1].self_muted);
    assert!(state.peers[1].server_muted);
    assert!(
        state
            .events
            .back()
            .unwrap()
            .0
            .contains("bob silenced by host")
    );
}

#[test]
fn handle_signal_server_mute_updates_self() {
    let mut state = make_state();
    state.handle_signal(SignalMessage::PeerMuted {
        client_id: 1,
        muted: true,
        by_server: true,
    });
    assert!(state.server_muted);
    assert!(!state.self_muted);
}

#[test]
fn handle_signal_room_info_updates_peers() {
    let mut state = make_state();
    state.handle_signal(SignalMessage::RoomInfo {
        clients: vec![
            ClientInfo {
                client_id: 1,
                display_name: "alice".into(),
                muted: false,
                server_muted: false,
                is_host: false,
            },
            ClientInfo {
                client_id: 5,
                display_name: "eve".into(),
                muted: true,
                server_muted: true,
                is_host: true,
            },
        ],
    });
    assert_eq!(state.peers.len(), 2);
    assert_eq!(state.peers[1].display_name, "eve");
    assert!(state.peers[1].is_host);
    assert!(state.peers[1].self_muted);
    assert!(state.peers[1].server_muted);
}

#[test]
fn set_peers_from_info_updates_host_status() {
    let mut state = make_state();
    state.is_host = false;
    state.set_peers_from_info(&[ClientInfo {
        client_id: 1,
        display_name: "alice".into(),
        muted: false,
        server_muted: false,
        is_host: true,
    }]);
    assert!(state.is_host);
}

#[test]
fn set_peers_from_info_updates_server_muted() {
    let mut state = make_state();
    state.set_peers_from_info(&[ClientInfo {
        client_id: 1,
        display_name: "alice".into(),
        muted: false,
        server_muted: true,
        is_host: false,
    }]);
    assert!(state.server_muted);
    assert!(!state.self_muted);
}

#[test]
fn non_command_input_rejected() {
    let mut state = make_state();
    state.input = "hello world".into();
    let msg = state.process_command();
    assert!(msg.is_none());
    assert!(
        state
            .events
            .back()
            .unwrap()
            .0
            .contains("commands start with /")
    );
}

#[test]
fn empty_input_returns_none() {
    let mut state = make_state();
    state.input = "".into();
    assert!(state.process_command().is_none());
    state.input = "   ".into();
    assert!(state.process_command().is_none());
}

#[test]
fn events_capped_at_max() {
    let mut state = AppState::new(1, "room".into(), "a".into(), 50);
    for i in 0..150 {
        state.add_event(format!("event {i}"), Style::new());
    }
    assert_eq!(state.events.len(), 50);
    assert!(state.events.front().unwrap().0.contains("event 100"));
}

#[test]
fn has_duplicate_name_detects_collisions() {
    let state = make_state();
    assert!(!state.has_duplicate_name("alice"));
    assert!(!state.has_duplicate_name("bob"));
}

#[test]
fn has_duplicate_name_true_when_duplicated() {
    let mut state = make_state();
    state.peers.push(PeerEntry {
        client_id: 3,
        display_name: "bob".into(),
        self_muted: false,
        server_muted: false,
        is_host: false,
    });
    assert!(state.has_duplicate_name("bob"));
    assert!(!state.has_duplicate_name("alice"));
}

#[test]
fn find_peer_ambiguous_name_returns_error() {
    let mut state = make_state();
    state.peers.push(PeerEntry {
        client_id: 3,
        display_name: "bob".into(),
        self_muted: false,
        server_muted: false,
        is_host: false,
    });
    let result = state.find_peer("bob");
    assert!(result.is_err());
    assert!(result.unwrap_err().contains("ambiguous"));
}

#[test]
fn find_peer_by_id_still_works_with_duplicates() {
    let mut state = make_state();
    state.peers.push(PeerEntry {
        client_id: 3,
        display_name: "bob".into(),
        self_muted: false,
        server_muted: false,
        is_host: false,
    });
    assert_eq!(state.find_peer("2"), Ok(2));
    assert_eq!(state.find_peer("3"), Ok(3));
}

#[test]
fn command_kick_ambiguous_name_shows_error() {
    let mut state = make_state();
    state.peers.push(PeerEntry {
        client_id: 3,
        display_name: "bob".into(),
        self_muted: false,
        server_muted: false,
        is_host: false,
    });
    state.input = "/kick bob".into();
    let msg = state.process_command();
    assert!(msg.is_none());
    assert!(state.events.back().unwrap().0.contains("ambiguous"));
}

#[test]
fn handle_signal_error_shows_in_events() {
    let mut state = make_state();
    state.handle_signal(SignalMessage::Error {
        message: "only the host can kick".into(),
    });
    let last = &state.events.back().unwrap().0;
    assert!(last.contains("only the host can kick"));
}

fn last(state: &AppState) -> (String, Style) {
    state.events.back().expect("an event").clone()
}

fn enter(state: &mut AppState, line: &str) -> Option<SignalMessage> {
    state.input = line.into();
    state.process_command()
}

#[test]
fn event_texts_and_styles() {
    let mut state = make_state();
    state.handle_signal(SignalMessage::ClientLeft { client_id: 77 });
    assert_eq!(last(&state), ("#77 left".into(), Style::new().fg(Color::Red)));
    state.handle_signal(SignalMessage::YouAreHost);
    assert_eq!(
        last(&state),
        ("you are now the host".into(), Style::new().fg(Color::Cyan).bold())
    );
    state.handle_signal(SignalMessage::PeerMuted { client_id: 2, muted: false, by_server: true });
    assert_eq!(
        last(&state),
        ("bob unsilenced by host".into(), Style::new().fg(Color::Yellow))
    );
    state.handle_signal(SignalMessage::PeerMuted { client_id: 2, muted: false, by_server: false });
    assert_eq!(last(&state).0, "bob unmuted");
    state.handle_signal(SignalMessage::RoomInfo { clients: vec![] });
    assert_eq!(last(&state), ("roster updated".into(), Style::new().fg(Color::DarkGray)));
    assert!(state.peers.is_empty());
    state.handle_signal(SignalMessage::Kicked { reason: "noise".into() });
    assert_eq!(last(&state), ("kicked: noise".into(), Style::new().fg(Color::Red).bold()));
    let count = state.events.len();
    state.handle_signal(SignalMessage::Leave);
    assert_eq!(state.events.len(), count);
}

#[test]
fn commands_are_trimmed_and_split_at_the_first_space() {
    let mut state = make_state();
    assert_eq!(
        enter(&mut state, "  /kick    BoB \u{3000}\n"),
        Some(SignalMessage::Kick { target: 2 })
    );
    assert_eq!(enter(&mut state, "/kick\tbob"), None);
    assert_eq!(last(&state).0, "unknown command: /kick\tbob -- type /help");
    assert_eq!(enter(&mut state, "/block +2"), Some(SignalMessage::BlockPeer { target: 2 }));
    assert_eq!(last(&state), ("blocked bob".into(), Style::new().fg(Color::Yellow)));
    assert_eq!(enter(&mut state, "/unblock 2"), Some(SignalMessage::UnblockPeer { target: 2 }));
    assert_eq!(last(&state).0, "unblocked bob");
    assert_eq!(enter(&mut state, "/"), None);
    assert_eq!(last(&state).0, "unknown command: / -- type /help");
    assert_eq!(enter(&mut state, "/kick nobody at all"), None);
    assert_eq!(last(&state), ("unknown peer: nobody at all".into(), Style::new().fg(Color::Red)));
    assert_eq!(state.input, "");
}

#[test]
fn usage_and_refusals() {
    let mut state = make_state();
    for (line, text) in [
        ("/kick", "usage: /kick <peer>"),
        ("/forcemute ", "usage: /forcemute <peer>"),
        ("/forceunmute", "usage: /forceunmute <peer>"),
        ("/block", "usage: /block <peer>"),
        ("/unblock", "usage: /unblock <peer>"),
    ] {
        assert_eq!(enter(&mut state, line), None);
        assert_eq!(last(&state), (text.into(), Style::new().fg(Color::DarkGray)));
    }
    state.is_host = false;
    for (line, text) in [
        ("/kick bob", "only the host can kick"),
        ("/forcemute bob", "only the host can force-mute"),
        ("/forceunmute bob", "only the host can force-unmute"),
    ] {
        assert_eq!(enter(&mut state, line), None);
        assert_eq!(last(&state), (text.into(), Style::new().fg(Color::Red)));
    }
}

#[test]
fn help_is_ten_lines() {
    let mut state = AppState::new(1, "r".into(), "n".into(), 100);
    assert_eq!(enter(&mut state, "/?"), None);
    assert_eq!(state.events.len(), 10);
    assert_eq!(state.events[0].0, "/mute              toggle self-mute");
    assert_eq!(state.events[8].0, "");
    assert_eq!(last(&state).0, "<peer> is a display name or client ID number");
    assert_eq!(last(&state).1, Style::new().fg(Color::White));
}

#[test]
fn keys() {
    let mut state = make_state();
    for c in "/mutex".chars() {
        assert_eq!(state.handle_key(Key::Char { c, control: false }), None);
    }
    assert_eq!(state.handle_key(Key::Backspace), None);
    assert_eq!(state.input, "/mute");
    assert_eq!(state.handle_key(Key::Other), None);
    assert_eq!(state.handle_key(Key::Enter), Some(SignalMessage::Mute { muted: true }));
    assert_eq!(state.input, "");
    assert_eq!(state.handle_key(Key::Backspace), None);
    assert_eq!(state.handle_key(Key::Char { c: 'x', control: true }), None);
    assert_eq!(state.input, "x");
    assert!(!state.should_quit);
    assert_eq!(state.handle_key(Key::Esc), Some(SignalMessage::Leave));
    assert!(state.should_quit);
    let mut other = make_state();
    assert_eq!(
        other.handle_key(Key::Char { c: 'c', control: true }),
        Some(SignalMessage::Leave)
    );
    assert!(other.should_quit);
}

#[test]
fn ways_out() {
    for word in ["/leave", "/quit", "/q"] {
        let mut state = make_state();
        assert_eq!(enter(&mut state, word), Some(SignalMessage::Leave));
        assert!(state.should_quit);
    }
}

#[test]
fn connection_events() {
    let mut state = make_state();
    state.handle_event(TuiEvent::Signal(SignalMessage::Error { message: "no".into() }));
    assert_eq!(last(&state), ("error: no".into(), Style::new().fg(Color::Red)));
    assert!(!state.should_quit);
    state.handle_event(TuiEvent::Disconnected);
    assert_eq!(
        last(&state),
        ("disconnected from server".into(), Style::new().fg(Color::Red).bold())
    );
    assert!(state.should_quit);
}

#[test]
fn numbers_win_over_names() {
    let mut state = make_state();
    state.peers[0].display_name = "2".into();
    assert_eq!(state.find_peer("2"), Ok(2));
    assert_eq!(state.find_peer("02"), Ok(2));
    state.peers[1].client_id = 5;
    assert_eq!(state.find_peer("2"), Ok(1));
    assert_eq!(state.find_peer("18446744073709551616"), Err("unknown peer"));
    assert_eq!(state.find_peer(""), Err("unknown peer"));
    assert_eq!(state.find_peer("-5"), Err("unknown peer"));
}

#[test]
fn only_ascii_case_is_ignored() {
    let mut state = make_state();
    state.peers[1].display_name = "\u{c9}mile".into();
    assert_eq!(state.find_peer("\u{c9}MILE"), Ok(2));
    assert_eq!(state.find_peer("\u{e9}mile"), Err("unknown peer"));
}

#[test]
fn log_of_no_events_stays_empty() {
    let mut state = AppState::new(1, "r".into(), "n".into(), 0);
    state.add_event("gone".into(), Style::new());
    assert!(state.events.is_empty());
}
