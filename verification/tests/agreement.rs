use std::collections::HashMap;

use voicemcu::client::tui::{AppState, PeerEntry};
use voicemcu::common::protocol::SignalMessage;
use voicemcu::server::config::ServerConfig;
use voicemcu::server::room::Server;
use voicemcu::server::session::{apply_signal, build_room_info, join, leave, Outgoing};

/// A server and the clients of one room, joined by what the server sends.
struct World {
    server: Server,
    clients: HashMap<u64, AppState>,
}

impl World {
    fn route(&mut self, from: Option<u64>, outgoing: Vec<Outgoing>) {
        for item in outgoing {
            match item {
                Outgoing::Reply { message } => {
                    let id = from.expect("a connection");
                    self.clients.get_mut(&id).expect("client").handle_signal(message);
                }
                Outgoing::Push { to, message } => {
                    for id in to {
                        let client = self.clients.get_mut(&id).expect("client");
                        client.handle_signal(message.clone());
                    }
                }
                Outgoing::Farewell { target, message } => {
                    let mut gone = self.clients.remove(&target).expect("client");
                    gone.handle_signal(message);
                    assert!(gone.should_quit);
                }
                Outgoing::Mix { .. } => {}
            }
        }
    }

    fn join(&mut self, name: &str) -> u64 {
        let first = SignalMessage::Join { room_code: "den".into(), display_name: name.into() };
        let a = join(&mut self.server, first).ok().expect("let in");
        let state = AppState::new(a.client_id, a.room_code, a.display_name, 100);
        self.clients.insert(a.client_id, state);
        self.route(Some(a.client_id), a.outgoing);
        self.check();
        a.client_id
    }

    fn send(&mut self, id: u64, msg: SignalMessage) {
        let outgoing = apply_signal(&mut self.server, "den", id, msg);
        self.route(Some(id), outgoing);
        self.check();
    }

    fn leave(&mut self, id: u64) {
        self.clients.remove(&id);
        let outgoing = leave(&mut self.server, "den", id);
        self.route(None, outgoing);
        self.check();
    }

    /// Every client shows the room as it is.
    fn check(&mut self) {
        let room = self.server.take_room("den").expect("room");
        let mut expected: Vec<PeerEntry> = build_room_info(&room)
            .into_iter()
            .map(|c| PeerEntry {
                client_id: c.client_id,
                display_name: c.display_name,
                self_muted: c.muted,
                server_muted: c.server_muted,
                is_host: c.is_host,
            })
            .collect();
        expected.sort_by_key(|p| p.client_id);
        for (id, client) in &self.clients {
            let mut shown = client.peers.clone();
            shown.sort_by_key(|p| p.client_id);
            assert_eq!(shown, expected, "what {id} shows");
            assert_eq!(client.is_host, room.host == *id);
            let me = room.member(*id).expect("member");
            assert_eq!(client.self_muted, me.muted);
            assert_eq!(client.server_muted, me.server_muted);
        }
        self.server.put_room("den", room);
    }
}

#[test]
fn clients_stay_in_step_with_the_room() {
    let mut w = World {
        server: Server::with_seed(ServerConfig::default(), 10),
        clients: HashMap::new(),
    };
    let ann = w.join("ann");
    let bob = w.join("bob");
    let cyd = w.join("cyd");
    let dee = w.join("bob");
    w.send(bob, SignalMessage::Mute { muted: true });
    w.send(ann, SignalMessage::ServerMute { target: cyd, muted: true });
    w.send(cyd, SignalMessage::Mute { muted: true });
    w.send(ann, SignalMessage::ServerMute { target: cyd, muted: false });
    w.send(bob, SignalMessage::Kick { target: ann });
    w.send(ann, SignalMessage::Kick { target: dee });
    w.send(bob, SignalMessage::BlockPeer { target: ann });
    w.leave(ann);
    assert!(w.clients[&bob].is_host);
    w.join("eve");
    w.leave(cyd);
    w.leave(bob);
    w.send(14, SignalMessage::Mute { muted: true });
}
