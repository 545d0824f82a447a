//! The terminal client's state: roster, event log, commands and what is shown.

use std::collections::VecDeque;

use vstd::prelude::*;
use vstd::string::*;

use crate::common::protocol::{
    info_views, ClientId, ClientInfo, ClientInfoView, SignalMessage, SignalView,
};
use crate::common::text::{
    all_digits, ascii_lower, chars_of, decimal, decimal_text, eq_ignore_ascii_case, is_digit,
    lemma_number_round_trip, number_in, parse_number, same_name, same_text, string_of, trim,
    trimmed,
};

verus! {

pub const DEFAULT_MAX_EVENTS: usize = 1000;

#[derive(Debug, Clone, Copy, PartialEq, Eq, Structural)]
pub enum Color {
    Green,
    Red,
    Yellow,
    LightYellow,
    Cyan,
    White,
    DarkGray,
}

/// How a piece of text is drawn.
#[derive(Debug, Clone, Copy, PartialEq, Eq, Structural)]
pub struct Style {
    pub foreground: Option<Color>,
    pub bold: bool,
}

pub open spec fn plain() -> Style {
    Style { foreground: None, bold: false }
}

pub open spec fn colored(color: Color) -> Style {
    Style { foreground: Some(color), bold: false }
}

pub open spec fn bright(color: Color) -> Style {
    Style { foreground: Some(color), bold: true }
}

impl Style {
    pub fn new() -> (r: Self)
        ensures
            r == plain(),
    {
        Style { foreground: None, bold: false }
    }

    pub fn fg(self, color: Color) -> (r: Self)
        ensures
            r == (Style { foreground: Some(color), ..self }),
    {
        Style { foreground: Some(color), bold: self.bold }
    }

    pub fn bold(self) -> (r: Self)
        ensures
            r == (Style { bold: true, ..self }),
    {
        Style { foreground: self.foreground, bold: true }
    }
}

#[derive(Debug, Clone, PartialEq)]
pub struct PeerEntry {
    pub client_id: ClientId,
    pub display_name: String,
    pub self_muted: bool,
    pub server_muted: bool,
    pub is_host: bool,
}

pub struct PeerView {
    pub client_id: ClientId,
    pub display_name: Seq<char>,
    pub self_muted: bool,
    pub server_muted: bool,
    pub is_host: bool,
}

impl View for PeerEntry {
    type V = PeerView;

    open spec fn view(&self) -> PeerView {
        PeerView {
            client_id: self.client_id,
            display_name: self.display_name@,
            self_muted: self.self_muted,
            server_muted: self.server_muted,
            is_host: self.is_host,
        }
    }
}

pub open spec fn peer_views(peers: Seq<PeerEntry>) -> Seq<PeerView> {
    Seq::new(peers.len(), |i: int| peers[i]@)
}

pub open spec fn event_views(events: Seq<(String, Style)>) -> Seq<(Seq<char>, Style)> {
    Seq::new(events.len(), |i: int| (events[i].0@, events[i].1))
}

/// What the event loop hands to the state.
#[derive(Debug, Clone, PartialEq)]
pub enum TuiEvent {
    Signal(SignalMessage),
    Disconnected,
}

/// A key press.
#[derive(Debug, Clone, Copy, PartialEq, Eq, Structural)]
pub enum Key {
    Enter,
    /// A character, and whether Control was held.
    Char { c: char, control: bool },
    Backspace,
    Esc,
    Other,
}

pub struct AppState {
    pub client_id: ClientId,
    pub room_code: String,
    pub display_name: String,
    pub is_host: bool,
    pub self_muted: bool,
    pub server_muted: bool,
    pub peers: Vec<PeerEntry>,
    pub events: VecDeque<(String, Style)>,
    pub input: String,
    pub should_quit: bool,
    pub max_events: usize,
}

#[verifier::ext_equal]
pub struct AppView {
    pub client_id: ClientId,
    pub room_code: Seq<char>,
    pub display_name: Seq<char>,
    pub is_host: bool,
    pub self_muted: bool,
    pub server_muted: bool,
    pub peers: Seq<PeerView>,
    pub events: Seq<(Seq<char>, Style)>,
    pub input: Seq<char>,
    pub should_quit: bool,
    pub max_events: usize,
}

impl View for AppState {
    type V = AppView;

    open spec fn view(&self) -> AppView {
        AppView {
            client_id: self.client_id,
            room_code: self.room_code@,
            display_name: self.display_name@,
            is_host: self.is_host,
            self_muted: self.self_muted,
            server_muted: self.server_muted,
            peers: peer_views(self.peers@),
            events: event_views(self.events@),
            input: self.input@,
            should_quit: self.should_quit,
            max_events: self.max_events,
        }
    }
}

// ---------------------------------------------------------------------------
// Roster
// ---------------------------------------------------------------------------

/// The place of the first peer with a number; the number of peers if there is none.
pub open spec fn position(peers: Seq<PeerView>, id: ClientId) -> nat
    decreases peers.len(),
{
    if peers.len() == 0 {
        0
    } else if peers[0].client_id == id {
        0
    } else {
        1 + position(peers.skip(1), id)
    }
}

/// What [`position`] finds is the first peer with the number.
pub proof fn lemma_position(peers: Seq<PeerView>, id: ClientId)
    ensures
        position(peers, id) <= peers.len(),
        forall|i: int| 0 <= i < position(peers, id) ==> (#[trigger] peers[i]).client_id != id,
        position(peers, id) < peers.len() ==> peers[position(peers, id) as int].client_id == id,
    decreases peers.len(),
{
    if peers.len() > 0 && peers[0].client_id != id {
        lemma_position(peers.skip(1), id);
        assert forall|i: int| 0 <= i < position(peers, id) implies (
        #[trigger] peers[i]).client_id != id by {
            if i > 0 {
                assert(peers.skip(1)[i - 1] == peers[i]);
            }
        }
    }
}

/// Only one place can be the first.
proof fn lemma_position_is(peers: Seq<PeerView>, id: ClientId, k: int)
    requires
        0 <= k <= peers.len(),
        forall|i: int| 0 <= i < k ==> (#[trigger] peers[i]).client_id != id,
        k < peers.len() ==> peers[k].client_id == id,
    ensures
        position(peers, id) == k,
{
    lemma_position(peers, id);
    if position(peers, id) < k {
        assert(peers[position(peers, id) as int].client_id != id);
    }
    if k < position(peers, id) {
        assert(peers[k].client_id != id);
    }
}

/// Whether a peer has a number.
pub open spec fn knows(peers: Seq<PeerView>, id: ClientId) -> bool {
    position(peers, id) < peers.len()
}

/// What a client is called: the name of the first peer with its number, else the
/// number itself.
pub open spec fn name_of(peers: Seq<PeerView>, id: ClientId) -> Seq<char> {
    if knows(peers, id) {
        peers[position(peers, id) as int].display_name
    } else {
        "#"@ + decimal(id as nat)
    }
}

pub open spec fn peer_of(c: ClientInfoView) -> PeerView {
    PeerView {
        client_id: c.client_id,
        display_name: c.display_name,
        self_muted: c.muted,
        server_muted: c.server_muted,
        is_host: c.is_host,
    }
}

pub open spec fn peers_of(clients: Seq<ClientInfoView>) -> Seq<PeerView> {
    Seq::new(clients.len(), |i: int| peer_of(clients[i]))
}

/// The peers whose name is `name` up to case.
pub open spec fn named(peers: Seq<PeerView>, name: Seq<char>) -> Seq<PeerView> {
    peers.filter(|p: PeerView| same_name(p.display_name, name))
}

/// Which peer a text refers to: the number of a peer, else the name of exactly
/// one.
pub open spec fn found(peers: Seq<PeerView>, text: Seq<char>) -> Result<ClientId, Seq<char>> {
    if number_in(text) is Some && knows(peers, number_in(text)->Some_0) {
        Ok(number_in(text)->Some_0)
    } else if named(peers, text).len() == 1 {
        Ok(named(peers, text)[0].client_id)
    } else if named(peers, text).len() == 0 {
        Err("unknown peer"@)
    } else {
        Err("ambiguous name -- use the numeric client ID instead"@)
    }
}

impl AppView {
    pub open spec fn initial(
        client_id: ClientId,
        room_code: Seq<char>,
        display_name: Seq<char>,
        max_events: usize,
    ) -> Self {
        AppView {
            client_id,
            room_code,
            display_name,
            is_host: false,
            self_muted: false,
            server_muted: false,
            peers: seq![],
            events: seq![],
            input: seq![],
            should_quit: false,
            max_events,
        }
    }

    /// The state with one more event; the oldest gives way where there are too many.
    pub open spec fn logged(self, text: Seq<char>, style: Style) -> Self {
        let events = self.events.push((text, style));
        AppView {
            events: if events.len() > self.max_events {
                events.skip(1)
            } else {
                events
            },
            ..self
        }
    }

    /// The state after a roster: it replaces the peers, and what it says of this
    /// client is taken over.
    pub open spec fn with_roster(self, clients: Seq<ClientInfoView>) -> Self {
        let peers = peers_of(clients);
        let at = position(peers, self.client_id) as int;
        if knows(peers, self.client_id) {
            AppView {
                peers,
                is_host: peers[at].is_host,
                self_muted: peers[at].self_muted,
                server_muted: peers[at].server_muted,
                ..self
            }
        } else {
            AppView { peers, ..self }
        }
    }
}

impl AppState {
    pub fn new(
        client_id: ClientId,
        room_code: String,
        display_name: String,
        max_events: usize,
    ) -> (r: Self)
        ensures
            r@ == AppView::initial(client_id, room_code@, display_name@, max_events),
    {
        let r = AppState {
            client_id,
            room_code,
            display_name,
            is_host: false,
            self_muted: false,
            server_muted: false,
            peers: Vec::new(),
            events: VecDeque::new(),
            input: String::new(),
            should_quit: false,
            max_events,
        };
        assert(r@ =~= AppView::initial(client_id, room_code@, display_name@, max_events));
        r
    }

    pub fn add_event(&mut self, text: String, style: Style)
        ensures
            final(self)@ == old(self)@.logged(text@, style),
    {
        self.events.push_back((text, style));
        if self.events.len() > self.max_events {
            self.events.pop_front();
        }
        assert(self@.events =~= old(self)@.logged(text@, style).events);
    }

    fn log(&mut self, text: &str, style: Style)
        ensures
            final(self)@ == old(self)@.logged(text@, style),
    {
        self.add_event(text.to_owned(), style);
    }

    fn position(&self, id: ClientId) -> (r: usize)
        ensures
            r == position(self@.peers, id),
            r <= self.peers@.len(),
    {
        let mut i: usize = 0;
        while i < self.peers.len()
            invariant
                i <= self.peers@.len(),
                forall|j: int| 0 <= j < i ==> (#[trigger] self@.peers[j]).client_id != id,
            decreases self.peers@.len() - i,
        {
            if self.peers[i].client_id == id {
                assert(self@.peers[i as int].client_id == id);
                proof {
                    lemma_position_is(self@.peers, id, i as int);
                }
                return i;
            }
            i = i + 1;
        }
        proof {
            lemma_position_is(self@.peers, id, i as int);
        }
        i
    }

    /// What a client is called.
    fn name_of(&self, id: ClientId) -> (r: String)
        ensures
            r@ == name_of(self@.peers, id),
    {
        let at: usize = self.position(id);
        if at < self.peers.len() {
            self.peers[at].display_name.clone()
        } else {
            "#".to_owned().concat(decimal_text(id).as_str())
        }
    }

    pub fn set_peers_from_info(&mut self, clients: &[ClientInfo])
        ensures
            final(self)@ == old(self)@.with_roster(info_views(clients@)),
    {
        let mut peers: Vec<PeerEntry> = Vec::new();
        let mut i: usize = 0;
        while i < clients.len()
            invariant
                i <= clients@.len(),
                peers@.len() == i,
                forall|j: int|
                    #![trigger peers@[j]]
                    0 <= j < i ==> peers@[j]@ == peer_of(clients@[j]@),
            decreases clients@.len() - i,
        {
            peers.push(
                PeerEntry {
                    client_id: clients[i].client_id,
                    display_name: clients[i].display_name.clone(),
                    self_muted: clients[i].muted,
                    server_muted: clients[i].server_muted,
                    is_host: clients[i].is_host,
                },
            );
            i = i + 1;
        }
        self.peers = peers;
        assert(self@.peers =~= peers_of(info_views(clients@)));
        let at: usize = self.position(self.client_id);
        if at < self.peers.len() {
            self.is_host = self.peers[at].is_host;
            self.self_muted = self.peers[at].self_muted;
            self.server_muted = self.peers[at].server_muted;
        }
    }

    /// The places of the peers with a name, up to case: how many, and the first.
    fn count_named(&self, name: &str) -> (r: (usize, ClientId))
        ensures
            r.0 == named(self@.peers, name@).len(),
            r.0 > 0 ==> r.1 == named(self@.peers, name@)[0].client_id,
    {
        let mut n: usize = 0;
        let mut first: ClientId = 0;
        let mut i: usize = 0;
        let ghost keep = |p: PeerView| same_name(p.display_name, name@);
        let ghost peers = self@.peers;
        proof {
            reveal(Seq::filter);
        }
        while i < self.peers.len()
            invariant
                i <= self.peers@.len(),
                n <= i,
                peers == self@.peers,
                keep == (|p: PeerView| same_name(p.display_name, name@)),
                n == peers.take(i as int).filter(keep).len(),
                n > 0 ==> first == peers.take(i as int).filter(keep)[0].client_id,
            decreases self.peers@.len() - i,
        {
            proof {
                reveal(Seq::filter);
                assert(peers.take(i + 1).drop_last() =~= peers.take(i as int));
                assert(peers.take(i + 1).last() == self.peers@[i as int]@);
            }
            if eq_ignore_ascii_case(self.peers[i].display_name.as_str(), name) {
                if n == 0 {
                    first = self.peers[i].client_id;
                }
                n = n + 1;
            }
            i = i + 1;
        }
        assert(peers.take(peers.len() as int) =~= peers);
        (n, first)
    }

    /// Whether more than one peer has a name, up to case.
    pub fn has_duplicate_name(&self, name: &str) -> (r: bool)
        ensures
            r == (named(self@.peers, name@).len() > 1),
    {
        self.count_named(name).0 > 1
    }

    pub fn find_peer(&self, name_or_id: &str) -> (r: Result<ClientId, &'static str>)
        ensures
            match r {
                Ok(id) => found(self@.peers, name_or_id@) == Ok::<ClientId, Seq<char>>(id),
                Err(text) => found(self@.peers, name_or_id@) == Err::<ClientId, Seq<char>>(text@),
            },
    {
        if let Some(id) = parse_number(name_or_id) {
            if self.position(id) < self.peers.len() {
                return Ok(id);
            }
        }
        let (n, first) = self.count_named(name_or_id);
        if n == 1 {
            Ok(first)
        } else if n == 0 {
            Err("unknown peer")
        } else {
            Err("ambiguous name -- use the numeric client ID instead")
        }
    }
}

// ---------------------------------------------------------------------------
// Messages from the server
// ---------------------------------------------------------------------------

/// What is said of a mute change.
pub open spec fn mute_action(by_server: bool, muted: bool) -> Seq<char> {
    match (by_server, muted) {
        (false, true) => "muted"@,
        (false, false) => "unmuted"@,
        (true, true) => "silenced by host"@,
        (true, false) => "unsilenced by host"@,
    }
}

/// The peers but for those with a number.
pub open spec fn without_peer(peers: Seq<PeerView>, id: ClientId) -> Seq<PeerView> {
    peers.filter(|p: PeerView| p.client_id != id)
}

/// The peers with `f` applied to the first one that has a number.
pub open spec fn with_peer(
    peers: Seq<PeerView>,
    id: ClientId,
    f: spec_fn(PeerView) -> PeerView,
) -> Seq<PeerView> {
    let at = position(peers, id) as int;
    if knows(peers, id) {
        peers.update(at, f(peers[at]))
    } else {
        peers
    }
}

impl AppView {
    /// The state after a message from the server. Messages that a server does
    /// not send change nothing.
    pub open spec fn signaled(self, msg: SignalView) -> Self {
        match msg {
            SignalView::ClientJoined { client_id, display_name } => AppView {
                peers: self.peers.push(
                    PeerView {
                        client_id,
                        display_name,
                        self_muted: false,
                        server_muted: false,
                        is_host: false,
                    },
                ),
                ..self
            }.logged(display_name + " joined"@, colored(Color::Green)),
            SignalView::ClientLeft { client_id } => AppView {
                peers: without_peer(self.peers, client_id),
                ..self
            }.logged(name_of(self.peers, client_id) + " left"@, colored(Color::Red)),
            SignalView::RoomInfo { clients } => self.with_roster(clients).logged(
                "roster updated"@,
                colored(Color::DarkGray),
            ),
            SignalView::YouAreHost => AppView {
                is_host: true,
                peers: with_peer(
                    self.peers,
                    self.client_id,
                    |p: PeerView| PeerView { is_host: true, ..p },
                ),
                ..self
            }.logged("you are now the host"@, bright(Color::Cyan)),
            SignalView::Kicked { reason } => AppView {
                should_quit: true,
                ..self.logged("kicked: "@ + reason, bright(Color::Red))
            },
            SignalView::PeerMuted { client_id, muted, by_server } => {
                let me = client_id == self.client_id;
                AppView {
                    peers: with_peer(
                        self.peers,
                        client_id,
                        |p: PeerView|
                            if by_server {
                                PeerView { server_muted: muted, ..p }
                            } else {
                                PeerView { self_muted: muted, ..p }
                            },
                    ),
                    self_muted: if me && !by_server {
                        muted
                    } else {
                        self.self_muted
                    },
                    server_muted: if me && by_server {
                        muted
                    } else {
                        self.server_muted
                    },
                    ..self
                }.logged(
                    name_of(self.peers, client_id) + " "@ + mute_action(by_server, muted),
                    colored(Color::Yellow),
                )
            },
            SignalView::Error { message } => self.logged(
                "error: "@ + message,
                colored(Color::Red),
            ),
            _ => self,
        }
    }

    /// The state after the connection ended.
    pub open spec fn disconnected(self) -> Self {
        AppView {
            should_quit: true,
            ..self.logged("disconnected from server"@, bright(Color::Red))
        }
    }
}

impl AppState {
    fn drop_peer(&mut self, id: ClientId)
        ensures
            final(self)@ == (AppView { peers: without_peer(old(self)@.peers, id), ..old(self)@ }),
    {
        let mut old_peers: Vec<PeerEntry> = Vec::new();
        std::mem::swap(&mut old_peers, &mut self.peers);
        let mut kept: Vec<PeerEntry> = Vec::new();
        let ghost peers = old(self)@.peers;
        let ghost all = old_peers@;
        let ghost keep = |p: PeerView| p.client_id != id;
        let ghost mut n: int = 0;
        proof {
            reveal(Seq::filter);
            assert(peer_views(kept@) =~= peers.take(0).filter(keep));
        }
        while old_peers.len() > 0
            invariant
                0 <= n <= all.len(),
                keep == (|p: PeerView| p.client_id != id),
                peers == peer_views(all),
                old_peers@ == all.skip(n),
                peer_views(kept@) == peers.take(n).filter(keep),
            decreases old_peers@.len(),
        {
            let peer = old_peers.remove(0);
            proof {
                reveal(Seq::filter);
                assert(peers.take(n + 1).drop_last() =~= peers.take(n));
                assert(peers.take(n + 1).last() == peer@);
            }
            let ghost before = kept@;
            if peer.client_id != id {
                kept.push(peer);
                assert(peer_views(kept@) =~= peer_views(before).push(peer@));
            }
            proof {
                n = n + 1;
                assert(old_peers@ =~= all.skip(n));
            }
        }
        self.peers = kept;
        assert(peers.take(peers.len() as int) =~= peers);
    }

    /// Takes in a message from the server.
    pub fn handle_signal(&mut self, msg: SignalMessage)
        ensures
            final(self)@ == old(self)@.signaled(msg@),
    {
        match msg {
            SignalMessage::ClientJoined { client_id, display_name } => {
                let text = display_name.clone().concat(" joined");
                self.peers.push(
                    PeerEntry {
                        client_id,
                        display_name,
                        self_muted: false,
                        server_muted: false,
                        is_host: false,
                    },
                );
                assert(self@.peers =~= old(self)@.peers.push(
                    PeerView {
                        client_id,
                        display_name: display_name@,
                        self_muted: false,
                        server_muted: false,
                        is_host: false,
                    },
                ));
                self.add_event(text, Style::new().fg(Color::Green));
            },
            SignalMessage::ClientLeft { client_id } => {
                let text = self.name_of(client_id).concat(" left");
                self.drop_peer(client_id);
                self.add_event(text, Style::new().fg(Color::Red));
            },
            SignalMessage::RoomInfo { clients } => {
                self.set_peers_from_info(clients.as_slice());
                self.log("roster updated", Style::new().fg(Color::DarkGray));
            },
            SignalMessage::YouAreHost => {
                self.is_host = true;
                let at: usize = self.position(self.client_id);
                if at < self.peers.len() {
                    self.peers[at].is_host = true;
                }
                assert(self@.peers =~= with_peer(
                    old(self)@.peers,
                    self.client_id,
                    |p: PeerView| PeerView { is_host: true, ..p },
                ));
                self.log("you are now the host", Style::new().fg(Color::Cyan).bold());
            },
            SignalMessage::Kicked { reason } => {
                self.add_event(
                    "kicked: ".to_owned().concat(reason.as_str()),
                    Style::new().fg(Color::Red).bold(),
                );
                self.should_quit = true;
            },
            SignalMessage::PeerMuted { client_id, muted, by_server } => {
                let name = self.name_of(client_id);
                let at: usize = self.position(client_id);
                if at < self.peers.len() {
                    if by_server {
                        self.peers[at].server_muted = muted;
                    } else {
                        self.peers[at].self_muted = muted;
                    }
                }
                assert(self@.peers =~= with_peer(
                    old(self)@.peers,
                    client_id,
                    |p: PeerView|
                        if by_server {
                            PeerView { server_muted: muted, ..p }
                        } else {
                            PeerView { self_muted: muted, ..p }
                        },
                ));
                if client_id == self.client_id {
                    if by_server {
                        self.server_muted = muted;
                    } else {
                        self.self_muted = muted;
                    }
                }
                let action = match (by_server, muted) {
                    (false, true) => "muted",
                    (false, false) => "unmuted",
                    (true, true) => "silenced by host",
                    (true, false) => "unsilenced by host",
                };
                self.add_event(name.concat(" ").concat(action), Style::new().fg(Color::Yellow));
            },
            SignalMessage::Error { message } => {
                self.add_event(
                    "error: ".to_owned().concat(message.as_str()),
                    Style::new().fg(Color::Red),
                );
            },
            _ => {},
        }
    }

    /// Takes in an event of the connection.
    pub fn handle_event(&mut self, event: TuiEvent)
        ensures
            final(self)@ == (match event {
                TuiEvent::Signal(msg) => old(self)@.signaled(msg@),
                TuiEvent::Disconnected => old(self)@.disconnected(),
            }),
    {
        match event {
            TuiEvent::Signal(msg) => self.handle_signal(msg),
            TuiEvent::Disconnected => {
                self.log("disconnected from server", Style::new().fg(Color::Red).bold());
                self.should_quit = true;
            },
        }
    }
}

// ---------------------------------------------------------------------------
// Commands
// ---------------------------------------------------------------------------

/// The place of the first space; the length of the text if there is none.
pub open spec fn space_at(s: Seq<char>) -> nat
    decreases s.len(),
{
    if s.len() == 0 || s[0] == ' ' {
        0
    } else {
        1 + space_at(s.skip(1))
    }
}

/// The command of a line: what stands before the first space.
pub open spec fn command_word(line: Seq<char>) -> Seq<char> {
    line.take(space_at(line) as int)
}

/// The argument of a line: what stands behind the first space, without white
/// space around it.
pub open spec fn command_arg(line: Seq<char>) -> Seq<char> {
    if space_at(line) < line.len() {
        trimmed(line.skip(space_at(line) as int + 1))
    } else {
        trimmed(seq![])
    }
}

/// What [`space_at`] finds is the first space.
pub proof fn lemma_space_at(s: Seq<char>)
    ensures
        space_at(s) <= s.len(),
        space_at(s) < s.len() ==> s[space_at(s) as int] == ' ',
        forall|i: int| 0 <= i < space_at(s) ==> s[i] != ' ',
    decreases s.len(),
{
    if s.len() > 0 && s[0] != ' ' {
        lemma_space_at(s.skip(1));
        assert forall|i: int| 0 <= i < space_at(s) implies s[i] != ' ' by {
            if i > 0 {
                assert(s.skip(1)[i - 1] == s[i]);
            }
        }
    }
}

fn find_space(chars: &Vec<char>, from: usize) -> (r: usize)
    requires
        from <= chars@.len(),
    ensures
        from <= r <= chars@.len(),
        r - from == space_at(chars@.skip(from as int)),
{
    let ghost line = chars@.skip(from as int);
    let mut i: usize = from;
    while i < chars.len() && chars[i] != ' '
        invariant
            from <= i <= chars@.len(),
            line == chars@.skip(from as int),
            forall|j: int| 0 <= j < i - from ==> line[j] != ' ',
        decreases chars@.len() - i,
    {
        assert(line[i - from] == chars@[i as int]);
        i = i + 1;
    }
    proof {
        lemma_space_at(line);
        if i < chars@.len() {
            assert(line[i - from] == ' ');
        }
    }
    i
}

/// The lines of the help.
pub open spec fn help_lines() -> Seq<Seq<char>> {
    seq![
        "/mute              toggle self-mute"@,
        "/kick <peer>       remove peer from room (host)"@,
        "/forcemute <peer>  server-side mute (host)"@,
        "/forceunmute <peer> undo server-mute (host)"@,
        "/block <peer>      block peer from your mix"@,
        "/unblock <peer>    unblock peer"@,
        "/leave             disconnect and exit"@,
        "/help              show this message"@,
        ""@,
        "<peer> is a display name or client ID number"@,
    ]
}

impl AppView {
    /// The state with one event per line.
    pub open spec fn logged_all(self, lines: Seq<Seq<char>>, style: Style) -> Self
        decreases lines.len(),
    {
        if lines.len() == 0 {
            self
        } else {
            self.logged_all(lines.drop_last(), style).logged(lines.last(), style)
        }
    }

    /// Looks up the peer that a command's argument names; where that fails, the
    /// event says why. `denied` is what a client that is not the host is told,
    /// of a command that is the host's.
    pub open spec fn targeted(
        self,
        arg: Seq<char>,
        usage: Seq<char>,
        denied: Option<Seq<char>>,
    ) -> (Self, Option<ClientId>) {
        if arg.len() == 0 {
            (self.logged(usage, colored(Color::DarkGray)), None)
        } else if denied is Some && !self.is_host {
            (self.logged(denied->Some_0, colored(Color::Red)), None)
        } else {
            match found(self.peers, arg) {
                Ok(id) => (self, Some(id)),
                Err(reason) => (self.logged(reason + ": "@ + arg, colored(Color::Red)), None),
            }
        }
    }

    /// Toggles the self-mute.
    pub open spec fn mute_toggled(self) -> Self {
        let muted = !self.self_muted;
        let s = AppView { self_muted: muted, ..self }.logged(
            "you "@ + (if muted { "muted"@ } else { "unmuted"@ }) + " yourself"@,
            colored(Color::Yellow),
        );
        if !muted && self.server_muted {
            s.logged("note: still silenced by host"@, colored(Color::DarkGray))
        } else {
            s
        }
    }

    /// The state after a command, and what is sent to the server.
    pub open spec fn ran(self, cmd: Seq<char>, arg: Seq<char>) -> (Self, Option<SignalView>) {
        if cmd == "mute"@ {
            (self.mute_toggled(), Some(SignalView::Mute { muted: !self.self_muted }))
        } else if cmd == "kick"@ {
            match self.targeted(arg, "usage: /kick <peer>"@, Some("only the host can kick"@)) {
                (s, Some(target)) => (s, Some(SignalView::Kick { target })),
                (s, None) => (s, None),
            }
        } else if cmd == "forcemute"@ {
            match self.targeted(
                arg,
                "usage: /forcemute <peer>"@,
                Some("only the host can force-mute"@),
            ) {
                (s, Some(target)) => (s, Some(SignalView::ServerMute { target, muted: true })),
                (s, None) => (s, None),
            }
        } else if cmd == "forceunmute"@ {
            match self.targeted(
                arg,
                "usage: /forceunmute <peer>"@,
                Some("only the host can force-unmute"@),
            ) {
                (s, Some(target)) => (s, Some(SignalView::ServerMute { target, muted: false })),
                (s, None) => (s, None),
            }
        } else if cmd == "block"@ {
            match self.targeted(arg, "usage: /block <peer>"@, None) {
                (s, Some(target)) => (
                    s.logged("blocked "@ + name_of(s.peers, target), colored(Color::Yellow)),
                    Some(SignalView::BlockPeer { target }),
                ),
                (s, None) => (s, None),
            }
        } else if cmd == "unblock"@ {
            match self.targeted(arg, "usage: /unblock <peer>"@, None) {
                (s, Some(target)) => (
                    s.logged("unblocked "@ + name_of(s.peers, target), colored(Color::Yellow)),
                    Some(SignalView::UnblockPeer { target }),
                ),
                (s, None) => (s, None),
            }
        } else if cmd == "leave"@ || cmd == "quit"@ || cmd == "q"@ {
            (AppView { should_quit: true, ..self }, Some(SignalView::Leave))
        } else if cmd == "help"@ || cmd == "?"@ {
            (self.logged_all(help_lines(), colored(Color::White)), None)
        } else {
            (
                self.logged(
                    "unknown command: /"@ + cmd + " -- type /help"@,
                    colored(Color::Red),
                ),
                None,
            )
        }
    }

    /// The state after the input line was entered, and what is sent to the server.
    pub open spec fn commanded(self) -> (Self, Option<SignalView>) {
        let text = trimmed(self.input);
        let s = AppView { input: seq![], ..self };
        if text.len() == 0 {
            (s, None)
        } else if text[0] != '/' {
            (
                s.logged(
                    "unknown input (commands start with /): "@ + text,
                    colored(Color::DarkGray),
                ),
                None,
            )
        } else {
            s.ran(command_word(text.skip(1)), command_arg(text.skip(1)))
        }
    }
}

/// An optional message as an optional view.
pub open spec fn message_view(msg: Option<SignalMessage>) -> Option<SignalView> {
    match msg {
        Some(m) => Some(m@),
        None => None,
    }
}

proof fn lemma_named_is_known(peers: Seq<PeerView>, name: Seq<char>)
    requires
        named(peers, name).len() > 0,
    ensures
        knows(peers, named(peers, name)[0].client_id),
    decreases peers.len(),
{
    reveal(Seq::filter);
    let keep = |p: PeerView| same_name(p.display_name, name);
    let first = peers.filter(keep)[0];
    let front = peers.drop_last();
    if front.filter(keep).len() > 0 {
        lemma_named_is_known(front, name);
        let at = position(front, first.client_id) as int;
        lemma_position(front, first.client_id);
        assert(front[at] == peers[at]);
        lemma_position(peers, first.client_id);
        if !knows(peers, first.client_id) {
            assert(peers[at].client_id != first.client_id);
        }
    } else {
        assert(first == peers.last());
        lemma_position(peers, first.client_id);
        if !knows(peers, first.client_id) {
            assert(peers[peers.len() - 1].client_id != first.client_id);
        }
    }
}

/// What a lookup finds is a peer.
pub proof fn lemma_found_is_known(peers: Seq<PeerView>, text: Seq<char>)
    ensures
        match found(peers, text) {
            Ok(id) => knows(peers, id),
            Err(_) => true,
        },
{
    if named(peers, text).len() == 1 {
        lemma_named_is_known(peers, text);
    }
}

impl AppState {
    fn target(&mut self, arg: &str, usage: &str, denied: Option<&str>) -> (r: Option<ClientId>)
        ensures
            (final(self)@, r) == old(self)@.targeted(
                arg@,
                usage@,
                match denied {
                    Some(text) => Some(text@),
                    None => None,
                },
            ),
    {
        if arg.unicode_len() == 0 {
            self.log(usage, Style::new().fg(Color::DarkGray));
            return None;
        }
        if let Some(text) = denied {
            if !self.is_host {
                self.log(text, Style::new().fg(Color::Red));
                return None;
            }
        }
        match self.find_peer(arg) {
            Ok(id) => Some(id),
            Err(reason) => {
                self.add_event(
                    reason.to_owned().concat(": ").concat(arg),
                    Style::new().fg(Color::Red),
                );
                None
            },
        }
    }

    fn toggle_mute(&mut self)
        ensures
            final(self)@ == old(self)@.mute_toggled(),
    {
        self.self_muted = !self.self_muted;
        let verb = if self.self_muted {
            "muted"
        } else {
            "unmuted"
        };
        self.add_event(
            "you ".to_owned().concat(verb).concat(" yourself"),
            Style::new().fg(Color::Yellow),
        );
        if !self.self_muted && self.server_muted {
            self.log("note: still silenced by host", Style::new().fg(Color::DarkGray));
        }
    }

    fn show_help(&mut self)
        ensures
            final(self)@ == old(self)@.logged_all(help_lines(), colored(Color::White)),
    {
        let lines: [&str; 10] = [
            "/mute              toggle self-mute",
            "/kick <peer>       remove peer from room (host)",
            "/forcemute <peer>  server-side mute (host)",
            "/forceunmute <peer> undo server-mute (host)",
            "/block <peer>      block peer from your mix",
            "/unblock <peer>    unblock peer",
            "/leave             disconnect and exit",
            "/help              show this message",
            "",
            "<peer> is a display name or client ID number",
        ];
        let ghost texts = help_lines();
        let ghost start = self@;
        let mut i: usize = 0;
        assert(texts.take(0) =~= Seq::<Seq<char>>::empty());
        while i < 10
            invariant
                i <= 10,
                texts.len() == 10,
                forall|j: int| 0 <= j < 10 ==> #[trigger] lines@[j]@ == texts[j],
                self@ == start.logged_all(texts.take(i as int), colored(Color::White)),
            decreases 10 - i,
        {
            self.log(lines[i], Style::new().fg(Color::White));
            assert(lines@[i as int]@ == texts[i as int]);
            assert(texts.take(i + 1).drop_last() =~= texts.take(i as int));
            i = i + 1;
        }
        assert(texts.take(10) =~= texts);
    }

    fn run(&mut self, cmd: &str, arg: &str) -> (r: Option<SignalMessage>)
        ensures
            (final(self)@, message_view(r)) == old(self)@.ran(cmd@, arg@),
    {
        if same_text(cmd, "mute") {
            self.toggle_mute();
            Some(SignalMessage::Mute { muted: self.self_muted })
        } else if same_text(cmd, "kick") {
            match self.target(arg, "usage: /kick <peer>", Some("only the host can kick")) {
                Some(target) => Some(SignalMessage::Kick { target }),
                None => None,
            }
        } else if same_text(cmd, "forcemute") {
            match self.target(
                arg,
                "usage: /forcemute <peer>",
                Some("only the host can force-mute"),
            ) {
                Some(target) => Some(SignalMessage::ServerMute { target, muted: true }),
                None => None,
            }
        } else if same_text(cmd, "forceunmute") {
            match self.target(
                arg,
                "usage: /forceunmute <peer>",
                Some("only the host can force-unmute"),
            ) {
                Some(target) => Some(SignalMessage::ServerMute { target, muted: false }),
                None => None,
            }
        } else if same_text(cmd, "block") {
            match self.target(arg, "usage: /block <peer>", None) {
                Some(target) => {
                    let name = self.name_of(target);
                    self.add_event(
                        "blocked ".to_owned().concat(name.as_str()),
                        Style::new().fg(Color::Yellow),
                    );
                    Some(SignalMessage::BlockPeer { target })
                },
                None => None,
            }
        } else if same_text(cmd, "unblock") {
            match self.target(arg, "usage: /unblock <peer>", None) {
                Some(target) => {
                    let name = self.name_of(target);
                    self.add_event(
                        "unblocked ".to_owned().concat(name.as_str()),
                        Style::new().fg(Color::Yellow),
                    );
                    Some(SignalMessage::UnblockPeer { target })
                },
                None => None,
            }
        } else if same_text(cmd, "leave") || same_text(cmd, "quit") || same_text(cmd, "q") {
            self.should_quit = true;
            Some(SignalMessage::Leave)
        } else if same_text(cmd, "help") || same_text(cmd, "?") {
            self.show_help();
            None
        } else {
            self.add_event(
                "unknown command: /".to_owned().concat(cmd).concat(" -- type /help"),
                Style::new().fg(Color::Red),
            );
            None
        }
    }

    /// Runs the input line, clears it, and returns what to send to the server.
    pub fn process_command(&mut self) -> (r: Option<SignalMessage>)
        ensures
            (final(self)@, message_view(r)) == old(self)@.commanded(),
    {
        let input = trim(self.input.as_str());
        self.input = String::new();
        assert(self@ =~= (AppView { input: seq![], ..old(self)@ }));
        let chars = chars_of(input.as_str());
        if chars.len() == 0 {
            return None;
        }
        if chars[0] != '/' {
            self.add_event(
                "unknown input (commands start with /): ".to_owned().concat(input.as_str()),
                Style::new().fg(Color::DarkGray),
            );
            return None;
        }
        let at: usize = find_space(&chars, 1);
        let cmd = string_of(&chars, 1, at);
        let ghost line = chars@.skip(1);
        assert(cmd@ =~= command_word(line));
        let rest = if at < chars.len() {
            string_of(&chars, at + 1, chars.len())
        } else {
            String::new()
        };
        assert(space_at(line) < line.len() ==> rest@ =~= line.skip(space_at(line) as int + 1));
        assert(space_at(line) >= line.len() ==> rest@ =~= Seq::<char>::empty());
        let arg = trim(rest.as_str());
        self.run(cmd.as_str(), arg.as_str())
    }

    /// Takes in a key press; returns what to send to the server.
    pub fn handle_key(&mut self, key: Key) -> (r: Option<SignalMessage>)
        ensures
            (final(self)@, message_view(r)) == old(self)@.keyed(key),
    {
        match key {
            Key::Enter => self.process_command(),
            Key::Char { c, control } => {
                if control && c == 'c' {
                    self.should_quit = true;
                    Some(SignalMessage::Leave)
                } else {
                    self.input.push(c);
                    None
                }
            },
            Key::Backspace => {
                self.input.pop();
                None
            },
            Key::Esc => {
                self.should_quit = true;
                Some(SignalMessage::Leave)
            },
            Key::Other => None,
        }
    }
}

impl AppView {
    /// The state after a key press, and what is sent to the server.
    pub open spec fn keyed(self, key: Key) -> (Self, Option<SignalView>) {
        match key {
            Key::Enter => self.commanded(),
            Key::Char { c, control } => if control && c == 'c' {
                (AppView { should_quit: true, ..self }, Some(SignalView::Leave))
            } else {
                (AppView { input: self.input.push(c), ..self }, None)
            },
            Key::Backspace => if self.input.len() > 0 {
                (AppView { input: self.input.drop_last(), ..self }, None)
            } else {
                (self, None)
            },
            Key::Esc => (AppView { should_quit: true, ..self }, Some(SignalView::Leave)),
            Key::Other => (self, None),
        }
    }
}

// ---------------------------------------------------------------------------
// Laws
// ---------------------------------------------------------------------------

/// The log holds no more events than its limit.
pub open spec fn log_ok(s: AppView) -> bool {
    s.events.len() <= s.max_events
}

/// Logging keeps the log within its limit, and the newest event is its last.
pub proof fn lemma_log_is_capped(s: AppView, text: Seq<char>, style: Style)
    requires
        log_ok(s),
    ensures
        log_ok(s.logged(text, style)),
        s.max_events > 0 ==> s.logged(text, style).events.last() == (text, style),
        s.logged(text, style).max_events == s.max_events,
{
}

proof fn lemma_log_all_is_capped(s: AppView, lines: Seq<Seq<char>>, style: Style)
    requires
        log_ok(s),
    ensures
        log_ok(s.logged_all(lines, style)),
        s.logged_all(lines, style).max_events == s.max_events,
    decreases lines.len(),
{
    if lines.len() > 0 {
        lemma_log_all_is_capped(s, lines.drop_last(), style);
    }
}

/// Nothing that happens takes the log over its limit.
pub proof fn lemma_log_stays_capped(s: AppView, msg: SignalView, key: Key)
    requires
        log_ok(s),
    ensures
        log_ok(s.signaled(msg)),
        log_ok(s.disconnected()),
        log_ok(s.keyed(key).0),
{
    lemma_log_all_is_capped(AppView { input: seq![], ..s }, help_lines(), colored(Color::White));
}

/// A client that is not the host sends no kick and no server-mute, whatever is typed.
pub proof fn lemma_only_host_sends_moderation(s: AppView)
    requires
        !s.is_host,
    ensures
        match s.commanded().1 {
            Some(SignalView::Kick { target }) => false,
            Some(SignalView::ServerMute { target, muted }) => false,
            _ => true,
        },
{
}

/// Toggling the self-mute twice restores it; the host's mute is never touched.
pub proof fn lemma_mute_toggles(s: AppView)
    ensures
        s.mute_toggled().self_muted == !s.self_muted,
        s.mute_toggled().mute_toggled().self_muted == s.self_muted,
        s.mute_toggled().server_muted == s.server_muted,
{
}

/// Whoever unmutes itself while the host silences it is warned.
pub proof fn lemma_unmuting_while_silenced_warns(s: AppView)
    requires
        s.self_muted,
        s.server_muted,
        s.max_events > 0,
        log_ok(s),
    ensures
        s.mute_toggled().events.last() == (
            "note: still silenced by host"@,
            colored(Color::DarkGray),
        ),
{
}

/// A mute notice of one kind leaves the other kind's flag as it was.
pub proof fn lemma_mute_notices_are_independent(s: AppView, client_id: ClientId, muted: bool)
    ensures
        s.signaled(
            SignalView::PeerMuted { client_id, muted, by_server: true },
        ).self_muted == s.self_muted,
        s.signaled(
            SignalView::PeerMuted { client_id, muted, by_server: false },
        ).server_muted == s.server_muted,
{
}

/// The number of a peer always finds it, however many share its name.
pub proof fn lemma_number_finds_peer(peers: Seq<PeerView>, id: ClientId)
    requires
        knows(peers, id),
    ensures
        found(peers, decimal(id as nat)) == Ok::<ClientId, Seq<char>>(id),
{
    lemma_number_round_trip(id);
}

/// A name that several peers share is refused, unless it is the number of one.
pub proof fn lemma_shared_name_is_refused(peers: Seq<PeerView>, name: Seq<char>)
    requires
        named(peers, name).len() > 1,
        !(number_in(name) is Some && knows(peers, number_in(name)->Some_0)),
    ensures
        found(peers, name) == Err::<ClientId, Seq<char>>(
            "ambiguous name -- use the numeric client ID instead"@,
        ),
{
}

proof fn lemma_case_leaves_numbers(a: Seq<char>, b: Seq<char>)
    requires
        same_name(a, b),
    ensures
        number_in(a) == number_in(b),
{
    assert forall|i: int| 0 <= i < a.len() && (is_digit(#[trigger] a[i]) || a[i]
        == '+') implies b[i] == a[i] by {
        assert(ascii_lower(a[i]) == ascii_lower(b[i]));
    }
    assert forall|i: int| 0 <= i < a.len() && (is_digit(#[trigger] b[i]) || b[i]
        == '+') implies b[i] == a[i] by {
        assert(ascii_lower(a[i]) == ascii_lower(b[i]));
    }
    let skip: int = if a.len() > 0 && a[0] == '+' {
        1
    } else {
        0
    };
    let da = a.skip(skip);
    let db = b.skip(skip);
    assert(a.skip(0) =~= a);
    assert(b.skip(0) =~= b);
    if all_digits(da) {
        assert(da =~= db) by {
            assert forall|i: int| 0 <= i < da.len() implies da[i] == db[i] by {
                assert(is_digit(da[i]));
                assert(a[i + skip] == da[i]);
            }
        }
    }
    if all_digits(db) {
        assert(da =~= db) by {
            assert forall|i: int| 0 <= i < da.len() implies da[i] == db[i] by {
                assert(is_digit(db[i]));
                assert(b[i + skip] == db[i]);
            }
        }
    }
}

/// Looking a peer up pays no heed to the case of ASCII letters.
pub proof fn lemma_lookup_ignores_case(peers: Seq<PeerView>, a: Seq<char>, b: Seq<char>)
    requires
        same_name(a, b),
    ensures
        found(peers, a) == found(peers, b),
{
    lemma_case_leaves_numbers(a, b);
    let f = |p: PeerView| same_name(p.display_name, a);
    let g = |p: PeerView| same_name(p.display_name, b);
    assert forall|p: PeerView| #[trigger] f(p) == g(p) by {
        if f(p) {
            assert forall|i: int| 0 <= i < p.display_name.len() implies ascii_lower(
                #[trigger] p.display_name[i],
            ) == ascii_lower(b[i]) by {
                assert(ascii_lower(a[i]) == ascii_lower(b[i]));
            }
        }
        if g(p) {
            assert forall|i: int| 0 <= i < p.display_name.len() implies ascii_lower(
                #[trigger] p.display_name[i],
            ) == ascii_lower(a[i]) by {
                assert(ascii_lower(a[i]) == ascii_lower(b[i]));
            }
        }
    }
    assert(f =~= g);
}

/// A client that left is no longer a peer.
pub proof fn lemma_departed_peer_is_unknown(s: AppView, client_id: ClientId)
    ensures
        !knows(s.signaled(SignalView::ClientLeft { client_id }).peers, client_id),
{
    let keep = |p: PeerView| p.client_id != client_id;
    let kept = s.peers.filter(keep);
    s.peers.filter_lemma(keep);
    lemma_position(kept, client_id);
    if knows(kept, client_id) {
        assert(keep(kept[position(kept, client_id) as int]));
    }
}

/// Each of the ways out quits and tells the server.
pub proof fn lemma_ways_out(s: AppView, arg: Seq<char>)
    ensures
        s.ran("leave"@, arg) == (
            AppView { should_quit: true, ..s },
            Some(SignalView::Leave),
        ),
        s.ran("quit"@, arg) == s.ran("leave"@, arg),
        s.ran("q"@, arg) == s.ran("leave"@, arg),
        s.keyed(Key::Esc) == s.ran("leave"@, arg),
        s.keyed(Key::Char { c: 'c', control: true }) == s.ran("leave"@, arg),
{
    reveal_strlit("mute");
    reveal_strlit("kick");
    reveal_strlit("forcemute");
    reveal_strlit("forceunmute");
    reveal_strlit("block");
    reveal_strlit("unblock");
    reveal_strlit("leave");
    reveal_strlit("quit");
    reveal_strlit("q");
    assert("leave"@[0] == 'l' && "quit"@[0] == 'q' && "q"@[0] == 'q');
    assert("mute"@[0] == 'm' && "kick"@[0] == 'k' && "block"@[0] == 'b');
    assert("forcemute"@[0] == 'f' && "forceunmute"@[0] == 'f' && "unblock"@[0] == 'u');
}

// ---------------------------------------------------------------------------
// Beginnings
// ---------------------------------------------------------------------------

/// A style starts plain; a color and bold type are put on without touching the
/// other.
pub proof fn lemma_styles(fresh: Style, base: Style, color: Color, tinted: Style, heavy: Style)
    requires
        call_ensures(Style::new, (), fresh),
        call_ensures(Style::fg, (base, color), tinted),
        call_ensures(Style::bold, (base,), heavy),
    ensures
        fresh.foreground is None,
        !fresh.bold,
        tinted.foreground == Some(color),
        tinted.bold == base.bold,
        heavy.foreground == base.foreground,
        heavy.bold,
{
}

/// A client starts unmuted, as nobody's host, with nobody else in sight, an empty
/// log and an empty input line.
pub proof fn lemma_client_starts_unmuted(
    client_id: ClientId,
    room_code: String,
    display_name: String,
    max_events: usize,
    r: AppState,
)
    requires
        call_ensures(AppState::new, (client_id, room_code, display_name, max_events), r),
    ensures
        r@.client_id == client_id,
        r@.room_code == room_code@,
        r@.display_name == display_name@,
        r@.max_events == max_events,
        !r@.is_host,
        !r@.self_muted,
        !r@.server_muted,
        r@.peers.len() == 0,
        r@.events.len() == 0,
        r@.input.len() == 0,
        !r@.should_quit,
{
}

} // verus!
