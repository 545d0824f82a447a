use voicemcu::common::protocol::{ClientInfo, SignalMessage};
use voicemcu::server::config::ServerConfig;
use voicemcu::server::room::{ClientState, Room, Server};
use voicemcu::server::session::{
    apply_signal, build_room_info, join, leave, sanitize_input, shutdown_notices, Admission,
    MixCommand, Outgoing, Session, Step,
};

fn server() -> Server {
    Server::with_seed(ServerConfig::default(), 100)
}

fn join_message(room: &str, name: &str) -> SignalMessage {
    SignalMessage::Join {
        room_code: room.into(),
        display_name: name.into(),
    }
}

fn enter(server: &mut Server, room: &str, name: &str) -> Admission {
    join(server, join_message(room, name)).ok().expect("let in")
}

fn refused(server: &mut Server, first: SignalMessage) -> String {
    match join(server, first).err().expect("turned away") {
        SignalMessage::Error { message } => message,
        other => panic!("not an error: {other:?}"),
    }
}

/// What is sent, with recipients and rosters in order.
fn show(out: Vec<Outgoing>) -> Vec<String> {
    out.into_iter()
        .map(|o| match o {
            Outgoing::Reply { message } => format!("reply {}", words(message)),
            Outgoing::Push { mut to, message } => {
                to.sort();
                format!("push {to:?} {}", words(message))
            }
            Outgoing::Farewell { target, message } => format!("farewell {target} {}", words(message)),
            Outgoing::Mix { command } => match command {
                MixCommand::AddClient { client_id } => format!("mix +{client_id}"),
                MixCommand::RemoveClient { client_id } => format!("mix -{client_id}"),
            },
        })
        .collect()
}

fn words(message: SignalMessage) -> String {
    match message {
        SignalMessage::RoomInfo { mut clients } => {
            clients.sort_by_key(|c| c.client_id);
            let items: Vec<String> = clients
                .iter()
                .map(|c| {
                    format!(
                        "{}={}{}{}{}",
                        c.client_id,
                        c.display_name,
                        if c.is_host { "*" } else { "" },
                        if c.muted { "m" } else { "" },
                        if c.server_muted { "s" } else { "" }
                    )
                })
                .collect();
            format!("roster {}", items.join(" "))
        }
        SignalMessage::Joined { client_id } => format!("joined {client_id}"),
        SignalMessage::ClientJoined { client_id, display_name } => {
            format!("came {client_id} {display_name}")
        }
        SignalMessage::ClientLeft { client_id } => format!("left {client_id}"),
        SignalMessage::YouAreHost => "host".to_string(),
        SignalMessage::Kicked { reason } => format!("kicked {reason}"),
        SignalMessage::PeerMuted { client_id, muted, by_server } => {
            format!("muted {client_id} {muted} {by_server}")
        }
        SignalMessage::Error { message } => format!("error {message}"),
        other => panic!("not sent by a server: {other:?}"),
    }
}

#[test]
fn sanitizing() {
    assert_eq!(sanitize_input("a\u{0}b\tc\u{7f}d\u{9b}e", 64), "abcde");
    assert_eq!(sanitize_input("\u{1f399} caf\u{e9}", 3), "\u{1f399} c");
    assert_eq!(sanitize_input("\n\n\n", 3), "");
    assert_eq!(sanitize_input("abc", 0), "");
    // Stripped characters do not count.
    assert_eq!(sanitize_input("\na\nb\nc", 2), "ab");
}

#[test]
fn first_client_is_let_in_and_hosts() {
    let mut s = server();
    let a = enter(&mut s, "d\u{7}en", "ann\n");
    assert_eq!(a.client_id, 100);
    assert_eq!(a.room_code, "den");
    assert_eq!(a.display_name, "ann");
    assert!(a.new_room && a.became_host);
    assert_eq!(
        show(a.outgoing),
        vec![
            "mix +100",
            "reply joined 100",
            "reply roster 100=ann*",
            "push [100] host",
            "push [] came 100 ann",
        ]
    );
    let b = enter(&mut s, "den", "bob");
    assert_eq!(b.client_id, 101);
    assert!(!b.new_room && !b.became_host);
    assert_eq!(
        show(b.outgoing),
        vec![
            "mix +101",
            "reply joined 101",
            "reply roster 100=ann* 101=bob",
            "push [100] came 101 bob",
        ]
    );
}

#[test]
fn turned_away() {
    let mut s = server();
    assert_eq!(refused(&mut s, SignalMessage::Leave), "expected Join message");
    assert_eq!(
        refused(&mut s, join_message("den", "\n")),
        "name and room code must not be empty"
    );
    assert_eq!(
        refused(&mut s, join_message("", "ann")),
        "name and room code must not be empty"
    );
    s.config.max_room_size = 1;
    enter(&mut s, "den", "ann");
    assert_eq!(refused(&mut s, join_message("den", "bob")), "room is full");
    // No number was spent on those turned away.
    let other = enter(&mut s, "attic", "bob");
    assert_eq!(other.client_id, 101);
    assert!(other.new_room);
}

#[test]
fn names_are_cut() {
    let mut s = server();
    s.config.max_display_name = 3;
    s.config.max_room_code = 2;
    let a = enter(&mut s, "abcd", "abcd");
    assert_eq!(a.display_name, "abc");
    assert_eq!(a.room_code, "ab");
}

fn three() -> Server {
    let mut s = server();
    for name in ["ann", "bob", "cyd"] {
        enter(&mut s, "den", name);
    }
    s
}

fn send(s: &mut Server, id: u64, msg: SignalMessage) -> Vec<String> {
    show(apply_signal(s, "den", id, msg))
}

#[test]
fn muting_is_told_to_everyone() {
    let mut s = three();
    assert_eq!(
        send(&mut s, 101, SignalMessage::Mute { muted: true }),
        vec!["push [100, 101, 102] muted 101 true false"]
    );
    assert_eq!(
        send(&mut s, 100, SignalMessage::ServerMute { target: 101, muted: true }),
        vec!["push [100, 101, 102] muted 101 true true"]
    );
    let room = s.take_room("den").expect("room");
    let bob = room.member(101).expect("bob");
    assert!(bob.muted && bob.server_muted);
}

#[test]
fn absent_target_is_announced_all_the_same() {
    let mut s = three();
    assert_eq!(
        send(&mut s, 100, SignalMessage::ServerMute { target: 9, muted: true }),
        vec!["push [100, 101, 102] muted 9 true true"]
    );
    assert_eq!(
        send(&mut s, 100, SignalMessage::Kick { target: 9 }),
        vec!["push [100, 101, 102] left 9"]
    );
}

#[test]
fn only_the_host_moderates() {
    let mut s = three();
    assert!(send(&mut s, 101, SignalMessage::Kick { target: 102 }).is_empty());
    assert!(send(&mut s, 101, SignalMessage::ServerMute { target: 102, muted: true }).is_empty());
    assert!(send(&mut s, 100, SignalMessage::Kick { target: 100 }).is_empty());
    assert_eq!(
        send(&mut s, 100, SignalMessage::Kick { target: 102 }),
        vec!["mix -102", "farewell 102 kicked kicked by host", "push [100, 101] left 102"]
    );
    // The connection of the kicked client ends later, with nothing left to do.
    assert!(show(leave(&mut s, "den", 102)).is_empty());
}

#[test]
fn blocking_is_silent() {
    let mut s = three();
    assert!(send(&mut s, 101, SignalMessage::BlockPeer { target: 100 }).is_empty());
    let room = s.take_room("den").expect("room");
    assert!(room.member(101).expect("bob").blocked_peers.contains(&100));
    assert!(room.member(100).expect("ann").blocked_peers.is_empty());
    s.put_room("den", room);
    assert!(send(&mut s, 101, SignalMessage::UnblockPeer { target: 100 }).is_empty());
    let room = s.take_room("den").expect("room");
    assert!(room.member(101).expect("bob").blocked_peers.is_empty());
}

#[test]
fn misplaced_messages_are_ignored() {
    let mut s = three();
    assert!(send(&mut s, 101, SignalMessage::YouAreHost).is_empty());
    assert!(send(&mut s, 101, join_message("den", "again")).is_empty());
    assert!(send(&mut s, 555, SignalMessage::Mute { muted: true }).is_empty());
    assert!(show(apply_signal(&mut s, "attic", 101, SignalMessage::Mute { muted: true })).is_empty());
}

#[test]
fn host_leaves() {
    let mut s = three();
    assert_eq!(
        show(leave(&mut s, "den", 100)),
        vec![
            "mix -100",
            "push [101, 102] left 100",
            "push [101] host",
            "push [101, 102] roster 101=bob* 102=cyd",
        ]
    );
    assert_eq!(show(leave(&mut s, "den", 102)), vec!["mix -102", "push [101] left 102"]);
    assert_eq!(show(leave(&mut s, "den", 101)), vec!["mix -101", "push [] left 101"]);
    assert!(show(leave(&mut s, "den", 101)).is_empty());
    assert!(show(leave(&mut s, "attic", 101)).is_empty());
    // The room still exists, without a host: a newcomer takes the role.
    let d = enter(&mut s, "den", "dee");
    assert!(!d.new_room && d.became_host);
    s.remove_empty_rooms();
    assert_eq!(s.rooms_and_members(), vec![("den".to_string(), vec![103])]);
}

#[test]
fn excess_messages_are_dropped_but_leaving_is_not() {
    let mut s = three();
    s.config.signal_burst = 2;
    s.config.signal_rate = 1;
    let mut session = Session::new(&s, 101, "den".into(), 0);
    let mut sent = Vec::new();
    for muted in [true, false, true] {
        match session.handle(&mut s, SignalMessage::Mute { muted }, 0) {
            Step::Continue { outgoing } => sent.push(show(outgoing).len()),
            Step::Stop => panic!("stopped"),
        }
    }
    assert_eq!(sent, vec![1, 1, 0]);
    assert!(!s.take_room("den").expect("room").member(101).expect("bob").muted);
    assert!(matches!(session.handle(&mut s, SignalMessage::Leave, 0), Step::Stop));
}

#[test]
fn tokens_come_back() {
    let mut s = three();
    s.config.signal_burst = 1;
    s.config.signal_rate = 2;
    let mut session = Session::new(&s, 101, "den".into(), 0);
    let mut count = |now: u64| match session.handle(
        &mut s,
        SignalMessage::Mute { muted: true },
        now,
    ) {
        Step::Continue { outgoing } => outgoing.len(),
        Step::Stop => panic!("stopped"),
    };
    assert_eq!(count(0), 1);
    assert_eq!(count(400_000_000), 0);
    assert_eq!(count(500_000_000), 1);
}

#[test]
fn everyone_hears_of_a_shutdown() {
    let mut s = three();
    enter(&mut s, "attic", "dee");
    let mut notices = show(shutdown_notices(&s));
    notices.sort();
    assert_eq!(
        notices,
        vec![
            "push [100, 101, 102] error server is shutting down",
            "push [103] error server is shutting down",
        ]
    );
}

#[test]
fn roster_of_a_room() {
    let mut room = Room::new();
    room.add(4, ClientState::new("ann".into()));
    room.add(6, ClientState::new("bob".into()));
    room.set_server_muted(6, true);
    room.host = 6;
    let mut info = build_room_info(&room);
    info.sort_by_key(|c| c.client_id);
    assert_eq!(
        info,
        vec![
            ClientInfo {
                client_id: 4,
                display_name: "ann".into(),
                muted: false,
                server_muted: false,
                is_host: false,
            },
            ClientInfo {
                client_id: 6,
                display_name: "bob".into(),
                muted: false,
                server_muted: true,
                is_host: true,
            },
        ]
    );
}

#[test]
fn leaving_undoes_joining() {
    let mut s = three();
    let before = build_sorted(&mut s);
    let d = enter(&mut s, "den", "dee");
    leave(&mut s, "den", d.client_id);
    assert_eq!(build_sorted(&mut s), before);
}

fn build_sorted(s: &mut Server) -> Vec<ClientInfo> {
    let room = s.take_room("den").expect("room");
    let mut info = build_room_info(&room);
    info.sort_by_key(|c| c.client_id);
    s.put_room("den", room);
    info
}

#[test]
fn cleanup_is_not_noticed_by_newcomers() {
    for clean in [false, true] {
        let mut s = server();
        let a = enter(&mut s, "den", "ann");
        leave(&mut s, "den", a.client_id);
        if clean {
            s.remove_empty_rooms();
        }
        let b = enter(&mut s, "den", "bob");
        assert!(b.became_host);
        assert_eq!(
            show(b.outgoing),
            vec![
                "mix +101",
                "reply joined 101",
                "reply roster 101=bob*",
                "push [101] host",
                "push [] came 101 bob",
            ]
        );
    }
}

#[test]
fn server_mute_outlasts_unmuting() {
    let mut s = three();
    send(&mut s, 100, SignalMessage::ServerMute { target: 101, muted: true });
    send(&mut s, 101, SignalMessage::Mute { muted: true });
    send(&mut s, 101, SignalMessage::Mute { muted: false });
    let bob = s.take_room("den").expect("room").member(101).expect("bob");
    assert!(!bob.muted && bob.server_muted);
}
