//! What the server does for one connection: joining, signaling, leaving.
//!
//! Each handler updates the rooms and returns what has to be sent. Sending is
//! left to the caller.

use vstd::prelude::*;
use vstd::string::*;

use crate::common::protocol::{
    info_views, ClientId, ClientInfo, ClientInfoView, SignalMessage, SignalView,
};
use crate::common::text::{cleaned, is_control, spec_is_control};
use crate::server::rate::{BucketView, TokenBucket};
use crate::server::room::{
    enumerates, lists, lists_rooms, ClientState, MemberView, Room, RoomView, Server, ServerView,
};

verus! {

/// Commands for a room's mix task when a client joins or leaves.
#[derive(Debug, Clone, Copy, PartialEq, Eq, Structural)]
pub enum MixCommand {
    AddClient { client_id: ClientId },
    RemoveClient { client_id: ClientId },
}

/// Something to send on behalf of a handler.
pub enum Outgoing {
    /// On the signaling stream of the connection that is handled.
    Reply { message: SignalMessage },
    /// To each listed client, on a stream of its own.
    Push { to: Vec<ClientId>, message: SignalMessage },
    /// To a client that was removed, whose connection is closed afterwards.
    Farewell { target: ClientId, message: SignalMessage },
    /// To the room's mix task.
    Mix { command: MixCommand },
}

/// What an [`Outgoing`] has to carry, up to the order in which recipients and
/// roster entries are listed.
pub enum Announcement {
    Reply { message: SignalView },
    /// The roster of a room, on the signaling stream.
    ReplyRoster { room: RoomView },
    Push { to: Set<ClientId>, message: SignalView },
    /// The roster of a room, to each of a set of clients.
    PushRoster { to: Set<ClientId>, room: RoomView },
    Farewell { target: ClientId, message: SignalView },
    Mix { command: MixCommand },
}

/// What a roster says of one member.
pub open spec fn info_of(room: RoomView, id: ClientId) -> ClientInfoView {
    let member = room.clients[id];
    ClientInfoView {
        client_id: id,
        display_name: member.display_name,
        muted: member.muted,
        server_muted: member.server_muted,
        is_host: id == room.host,
    }
}

/// `infos` describes each member of a room once, in some order.
pub open spec fn is_roster(room: RoomView, infos: Seq<ClientInfoView>) -> bool {
    &&& forall|i: int, j: int|
        0 <= i < j < infos.len() ==> (#[trigger] infos[i]).client_id != (
        #[trigger] infos[j]).client_id
    &&& forall|i: int|
        #![trigger infos[i]]
        0 <= i < infos.len() ==> room.clients.contains_key(infos[i].client_id) && infos[i]
            == info_of(room, infos[i].client_id)
    &&& forall|id: ClientId| #[trigger]
        room.clients.contains_key(id) ==> exists|i: int|
            0 <= i < infos.len() && (#[trigger] infos[i]).client_id == id
}

/// `message` is the roster of a room.
pub open spec fn tells_roster(message: SignalView, room: RoomView) -> bool {
    match message {
        SignalView::RoomInfo { clients } => is_roster(room, clients),
        _ => false,
    }
}

/// `out` carries an announcement.
pub open spec fn carries(out: Outgoing, a: Announcement) -> bool {
    match (out, a) {
        (Outgoing::Reply { message }, Announcement::Reply { message: m }) => message@ == m,
        (Outgoing::Reply { message }, Announcement::ReplyRoster { room }) => tells_roster(
            message@,
            room,
        ),
        (Outgoing::Push { to, message }, Announcement::Push { to: set, message: m }) => lists(
            to@,
            set,
        ) && message@ == m,
        (Outgoing::Push { to, message }, Announcement::PushRoster { to: set, room }) => lists(
            to@,
            set,
        ) && tells_roster(message@, room),
        (
            Outgoing::Farewell { target, message },
            Announcement::Farewell { target: t, message: m },
        ) => target == t && message@ == m,
        (Outgoing::Mix { command }, Announcement::Mix { command: c }) => command == c,
        _ => false,
    }
}

/// `out` carries the announcements, in their order and nothing else.
pub open spec fn carries_all(out: Seq<Outgoing>, all: Seq<Announcement>) -> bool {
    &&& out.len() == all.len()
    &&& forall|i: int| 0 <= i < out.len() ==> carries(#[trigger] out[i], all[i])
}

/// Strips control characters and cuts to `max_len` characters.
pub fn sanitize_input(s: &str, max_len: usize) -> (r: String)
    ensures
        r@ == cleaned(s@, max_len as nat),
{
    let mut out = String::new();
    let mut n: usize = 0;
    proof {
        reveal(Seq::filter);
    }
    for c in it: s.chars()
        invariant
            it.seq() == s@,
            n == out@.len(),
            n <= max_len,
            out@ == cleaned(s@.take(it.index() as int), max_len as nat),
            it.index() == s@.len() ==> out@ == cleaned(s@, max_len as nat),
    {
        let ghost i = it.index() as int;
        let ghost before = s@.take(i);
        let ghost keep = |c: char| !spec_is_control(c);
        proof {
            reveal(Seq::filter);
            assert(s@.take(i + 1).drop_last() =~= before);
            assert(s@.take(i + 1).filter(keep) == (if keep(c) {
                before.filter(keep).push(c)
            } else {
                before.filter(keep)
            }));
            assert(i + 1 == s@.len() ==> s@.take(i + 1) =~= s@);
        }
        if n < max_len && !is_control(c) {
            out.push(c);
            n = n + 1;
        }
        assert(out@ =~= cleaned(s@.take(i + 1), max_len as nat));
    }
    out
}

/// The roster of a room.
pub fn build_room_info(room: &Room) -> (r: Vec<ClientInfo>)
    ensures
        is_roster(room@, info_views(r@)),
{
    let members = room.members();
    let mut out: Vec<ClientInfo> = Vec::new();
    let mut i: usize = 0;
    while i < members.len()
        invariant
            i <= members@.len(),
            enumerates(members@, room@.clients),
            out@.len() == i,
            forall|j: int|
                #![trigger out@[j]]
                0 <= j < i ==> out@[j]@ == info_of(room@, members@[j].0),
        decreases members@.len() - i,
    {
        let id: ClientId = members[i].0;
        let state = &members[i].1;
        out.push(
            ClientInfo {
                client_id: id,
                display_name: state.display_name.clone(),
                muted: state.muted,
                server_muted: state.server_muted,
                is_host: room.is_host(id),
            },
        );
        i = i + 1;
    }
    proof {
        let infos = info_views(out@);
        assert forall|j: int|
            #![trigger infos[j]]
            0 <= j < infos.len() implies infos[j] == info_of(room@, members@[j].0) by {
            assert(out@[j]@ == info_of(room@, members@[j].0));
        }
        assert forall|id: ClientId| #[trigger] room@.clients.contains_key(id) implies exists|k: int|
            0 <= k < infos.len() && (#[trigger] infos[k]).client_id == id by {
            let k = choose|k: int| 0 <= k < members@.len() && members@[k].0 == id;
            assert(infos[k].client_id == id);
        }
    }
    out
}

/// The numbers in `ids` but for `exclude`.
fn without(ids: Vec<ClientId>, exclude: ClientId) -> (r: Vec<ClientId>)
    requires
        ids@.no_duplicates(),
    ensures
        r@.no_duplicates(),
        forall|id: ClientId| #[trigger] r@.contains(id) <==> ids@.contains(id) && id != exclude,
{
    let mut out: Vec<ClientId> = Vec::new();
    let mut i: usize = 0;
    while i < ids.len()
        invariant
            i <= ids@.len(),
            ids@.no_duplicates(),
            out@.no_duplicates(),
            forall|id: ClientId| #[trigger]
                out@.contains(id) <==> ids@.take(i as int).contains(id) && id != exclude,
        decreases ids@.len() - i,
    {
        let id: ClientId = ids[i];
        let ghost before = out@;
        let ghost seen = ids@.take(i as int);
        proof {
            if seen.contains(id) {
                let k = choose|k: int| 0 <= k < seen.len() && seen[k] == id;
                assert(ids@[k] == ids@[i as int]);
            }
            assert(!before.contains(id));
        }
        if id != exclude {
            out.push(id);
        }
        i = i + 1;
        proof {
            let now = ids@.take(i as int);
            assert(now =~= seen.push(id));
            assert forall|x: ClientId| #[trigger] out@.contains(x) <==> now.contains(x) && x
                != exclude by {
                if before.contains(x) {
                    let k = choose|k: int| 0 <= k < before.len() && before[k] == x;
                    assert(out@[k] == x);
                }
                if seen.contains(x) {
                    let k = choose|k: int| 0 <= k < seen.len() && seen[k] == x;
                    assert(now[k] == x);
                }
                if id == x {
                    assert(now[i - 1] == x);
                    if x != exclude {
                        assert(out@[before.len() as int] == x);
                    }
                }
            }
        }
    }
    assert(ids@.take(ids@.len() as int) =~= ids@);
    out
}

// ---------------------------------------------------------------------------
// Joining
// ---------------------------------------------------------------------------

/// The room under a code; a code without one stands for an empty room.
pub open spec fn room_at(server: ServerView, code: Seq<char>) -> RoomView {
    if server.rooms.contains_key(code) {
        server.rooms[code]
    } else {
        RoomView::empty()
    }
}

/// Why a connection's first message does not let it in.
pub open spec fn refusal(server: ServerView, first: SignalView) -> Option<Seq<char>> {
    match first {
        SignalView::Join { room_code, display_name } => {
            let name = cleaned(display_name, server.config.max_display_name as nat);
            let code = cleaned(room_code, server.config.max_room_code as nat);
            if name.len() == 0 || code.len() == 0 {
                Some("name and room code must not be empty"@)
            } else if server.rooms.contains_key(code) && server.rooms[code].clients.dom().len()
                >= server.config.max_room_size {
                Some("room is full"@)
            } else {
                None
            }
        },
        _ => Some("expected Join message"@),
    }
}

/// A room after a client joined it: the newcomer starts fresh, and hosts a room
/// that has no host.
pub open spec fn joined_room(room: RoomView, id: ClientId, name: Seq<char>) -> RoomView {
    room.with_member(id, MemberView::fresh(name)).claimed(id)
}

/// The server after a client joined.
pub open spec fn joined_server(
    server: ServerView,
    code: Seq<char>,
    name: Seq<char>,
) -> ServerView {
    ServerView {
        next_id: ServerView::following(server.next_id),
        ..server.with_room(code, joined_room(room_at(server, code), server.next_id, name))
    }
}

/// What is sent when a client joined: the newcomer learns its number and who is
/// there, a new host learns of its role, the others learn of the newcomer.
pub open spec fn join_announcements(
    before: RoomView,
    id: ClientId,
    name: Seq<char>,
) -> Seq<Announcement> {
    let room = joined_room(before, id, name);
    seq![
        Announcement::Mix { command: MixCommand::AddClient { client_id: id } },
        Announcement::Reply { message: SignalView::Joined { client_id: id } },
        Announcement::ReplyRoster { room },
    ] + (if before.host == 0 {
        seq![Announcement::Push { to: set![id], message: SignalView::YouAreHost }]
    } else {
        seq![]
    }) + seq![
        Announcement::Push {
            to: room.clients.dom().remove(id),
            message: SignalView::ClientJoined { client_id: id, display_name: name },
        },
    ]
}

/// A client that was let in.
pub struct Admission {
    pub client_id: ClientId,
    pub room_code: String,
    pub display_name: String,
    /// Whether the room did not exist before.
    pub new_room: bool,
    pub became_host: bool,
    pub outgoing: Vec<Outgoing>,
}

/// Handles a connection's first message. `Err` carries the reply that turns it
/// away.
pub fn join(server: &mut Server, first: SignalMessage) -> (r: Result<Admission, SignalMessage>)
    ensures
        match r {
            Err(reply) => {
                &&& refusal(old(server)@, first@) is Some
                &&& reply@ == (SignalView::Error {
                    message: refusal(old(server)@, first@)->Some_0,
                })
                &&& final(server)@ == old(server)@
            },
            Ok(a) => {
                let before = old(server)@;
                let code = cleaned(first@->room_code, before.config.max_room_code as nat);
                let name = cleaned(
                    first@->Join_display_name,
                    before.config.max_display_name as nat,
                );
                &&& refusal(before, first@) is None
                &&& a.client_id == before.next_id
                &&& a.room_code@ == code
                &&& a.display_name@ == name
                &&& a.new_room == !before.rooms.contains_key(code)
                &&& a.became_host == (room_at(before, code).host == 0)
                &&& final(server)@ == joined_server(before, code, name)
                &&& carries_all(
                    a.outgoing@,
                    join_announcements(room_at(before, code), before.next_id, name),
                )
            },
        },
{
    let (room_code, display_name) = match first {
        SignalMessage::Join { room_code, display_name } => (room_code, display_name),
        _ => {
            return Err(SignalMessage::Error { message: "expected Join message".to_owned() });
        },
    };
    let name = sanitize_input(display_name.as_str(), server.config.max_display_name);
    let code = sanitize_input(room_code.as_str(), server.config.max_room_code);
    if name.as_str().unicode_len() == 0 || code.as_str().unicode_len() == 0 {
        return Err(
            SignalMessage::Error { message: "name and room code must not be empty".to_owned() },
        );
    }
    let ghost before = server@;
    let ghost start = room_at(before, code@);
    let taken = server.take_room(code.as_str());
    let new_room: bool = taken.is_none();
    let mut room = match taken {
        Some(room) => {
            if room.len() >= server.config.max_room_size {
                server.put_room(code.as_str(), room);
                assert(server@.rooms =~= before.rooms);
                return Err(SignalMessage::Error { message: "room is full".to_owned() });
            }
            room
        },
        None => Room::new(),
    };
    let client_id: ClientId = server.next_id();
    room.add(client_id, ClientState::new(name.clone()));
    let became_host: bool = room.try_claim_host(client_id);
    let ghost joined = joined_room(start, client_id, name@);
    assert(room@ == joined);
    let mut outgoing: Vec<Outgoing> = Vec::new();
    outgoing.push(Outgoing::Mix { command: MixCommand::AddClient { client_id } });
    outgoing.push(Outgoing::Reply { message: SignalMessage::Joined { client_id } });
    outgoing.push(
        Outgoing::Reply { message: SignalMessage::RoomInfo { clients: build_room_info(&room) } },
    );
    if became_host {
        let mut to: Vec<ClientId> = Vec::new();
        to.push(client_id);
        assert(to@ =~= seq![client_id]);
        assert(lists(to@, set![client_id])) by {
            assert(to@[0] == client_id);
        }
        outgoing.push(Outgoing::Push { to, message: SignalMessage::YouAreHost });
    }
    let others = without(room.member_ids(), client_id);
    assert(lists(others@, joined.clients.dom().remove(client_id)));
    outgoing.push(
        Outgoing::Push {
            to: others,
            message: SignalMessage::ClientJoined { client_id, display_name: name.clone() },
        },
    );
    server.put_room(code.as_str(), room);
    assert(server@.rooms =~= before.rooms.insert(code@, joined));
    assert(carries_all(outgoing@, join_announcements(start, client_id, name@)));
    Ok(
        Admission {
            client_id,
            room_code: code,
            display_name: name,
            new_room,
            became_host,
            outgoing,
        },
    )
}

// ---------------------------------------------------------------------------
// Signaling
// ---------------------------------------------------------------------------

/// A room after member `id` sent `msg`. Kicking and server-muting are the
/// host's; a host does not kick itself; what a client has no business sending
/// changes nothing.
pub open spec fn signaled_room(room: RoomView, id: ClientId, msg: SignalView) -> RoomView {
    match msg {
        SignalView::Mute { muted } => room.with_muted(id, muted),
        SignalView::Kick { target } => if room.host == id && target != id {
            room.without_member(target)
        } else {
            room
        },
        SignalView::ServerMute { target, muted } => if room.host == id {
            room.with_server_muted(target, muted)
        } else {
            room
        },
        SignalView::BlockPeer { target } => room.with_block(id, target),
        SignalView::UnblockPeer { target } => room.without_block(id, target),
        _ => room,
    }
}

/// What is sent after member `id` sent `msg` to a room.
pub open spec fn signal_announcements(room: RoomView, id: ClientId, msg: SignalView) -> Seq<
    Announcement,
> {
    let everyone = signaled_room(room, id, msg).clients.dom();
    match msg {
        SignalView::Mute { muted } => if room.clients.contains_key(id) {
            seq![
                Announcement::Push {
                    to: everyone,
                    message: SignalView::PeerMuted { client_id: id, muted, by_server: false },
                },
            ]
        } else {
            seq![]
        },
        SignalView::Kick { target } => if room.host == id && target != id {
            (if room.clients.contains_key(target) {
                seq![
                    Announcement::Mix { command: MixCommand::RemoveClient { client_id: target } },
                    Announcement::Farewell {
                        target,
                        message: SignalView::Kicked { reason: "kicked by host"@ },
                    },
                ]
            } else {
                seq![]
            }) + seq![
                Announcement::Push {
                    to: everyone,
                    message: SignalView::ClientLeft { client_id: target },
                },
            ]
        } else {
            seq![]
        },
        SignalView::ServerMute { target, muted } => if room.host == id {
            seq![
                Announcement::Push {
                    to: everyone,
                    message: SignalView::PeerMuted { client_id: target, muted, by_server: true },
                },
            ]
        } else {
            seq![]
        },
        _ => seq![],
    }
}

/// Applies a member's message to its room.
fn signal_room(room: &mut Room, id: ClientId, msg: SignalMessage) -> (r: Vec<Outgoing>)
    ensures
        final(room)@ == signaled_room(old(room)@, id, msg@),
        carries_all(r@, signal_announcements(old(room)@, id, msg@)),
{
    let mut outgoing: Vec<Outgoing> = Vec::new();
    match msg {
        SignalMessage::Mute { muted } => {
            if room.set_muted(id, muted) {
                outgoing.push(
                    Outgoing::Push {
                        to: room.member_ids(),
                        message: SignalMessage::PeerMuted {
                            client_id: id,
                            muted,
                            by_server: false,
                        },
                    },
                );
            }
        },
        SignalMessage::Kick { target } => {
            if room.is_host(id) && target != id {
                if room.remove(target) {
                    outgoing.push(
                        Outgoing::Mix { command: MixCommand::RemoveClient { client_id: target } },
                    );
                    outgoing.push(
                        Outgoing::Farewell {
                            target,
                            message: SignalMessage::Kicked { reason: "kicked by host".to_owned() },
                        },
                    );
                }
                outgoing.push(
                    Outgoing::Push {
                        to: room.member_ids(),
                        message: SignalMessage::ClientLeft { client_id: target },
                    },
                );
            }
        },
        SignalMessage::ServerMute { target, muted } => {
            if room.is_host(id) {
                room.set_server_muted(target, muted);
                outgoing.push(
                    Outgoing::Push {
                        to: room.member_ids(),
                        message: SignalMessage::PeerMuted {
                            client_id: target,
                            muted,
                            by_server: true,
                        },
                    },
                );
            }
        },
        SignalMessage::BlockPeer { target } => {
            room.block(id, target);
        },
        SignalMessage::UnblockPeer { target } => {
            room.unblock(id, target);
        },
        _ => {},
    }
    outgoing
}

/// The server after client `id` of a room sent `msg`.
pub open spec fn signaled_server(
    server: ServerView,
    code: Seq<char>,
    id: ClientId,
    msg: SignalView,
) -> ServerView {
    if server.rooms.contains_key(code) {
        server.with_room(code, signaled_room(server.rooms[code], id, msg))
    } else {
        server
    }
}

/// Applies a message of client `id` to the room under `code`; without that room
/// nothing happens.
pub fn apply_signal(
    server: &mut Server,
    code: &str,
    id: ClientId,
    msg: SignalMessage,
) -> (r: Vec<Outgoing>)
    ensures
        final(server)@ == signaled_server(old(server)@, code@, id, msg@),
        carries_all(
            r@,
            if old(server)@.rooms.contains_key(code@) {
                signal_announcements(old(server)@.rooms[code@], id, msg@)
            } else {
                seq![]
            },
        ),
{
    let ghost before = server@;
    match server.take_room(code) {
        Some(room) => {
            let mut room = room;
            let outgoing = signal_room(&mut room, id, msg);
            server.put_room(code, room);
            assert(server@.rooms =~= before.rooms.insert(code@, room@));
            outgoing
        },
        None => Vec::new(),
    }
}

/// The signaling side of one client's connection.
pub struct Session {
    pub client_id: ClientId,
    pub room_code: String,
    bucket: TokenBucket,
}

pub struct SessionView {
    pub client_id: ClientId,
    pub room_code: Seq<char>,
    pub bucket: BucketView,
}

impl View for Session {
    type V = SessionView;

    closed spec fn view(&self) -> SessionView {
        SessionView {
            client_id: self.client_id,
            room_code: self.room_code@,
            bucket: self.bucket@,
        }
    }
}

/// What a connection does after a message.
pub enum Step {
    /// Send this, then read on.
    Continue { outgoing: Vec<Outgoing> },
    /// Stop reading.
    Stop,
}

impl Session {
    /// A session may send a full burst from its start.
    pub fn new(server: &Server, client_id: ClientId, room_code: String, now: u64) -> (r: Self)
        ensures
            r@ == (SessionView {
                client_id,
                room_code: room_code@,
                bucket: BucketView::full(
                    server@.config.signal_burst as nat,
                    server@.config.signal_rate as nat,
                    now,
                ),
            }),
    {
        Session {
            client_id,
            room_code,
            bucket: TokenBucket::new(server.config.signal_burst, server.config.signal_rate, now),
        }
    }

    /// Handles one message. Leaving is always possible; any other message costs
    /// a token and is dropped where there is none.
    pub fn handle(&mut self, server: &mut Server, msg: SignalMessage, now: u64) -> (r: Step)
        ensures
            final(self)@.client_id == old(self)@.client_id,
            final(self)@.room_code == old(self)@.room_code,
            final(self)@.bucket == (if msg@ is Leave {
                old(self)@.bucket
            } else {
                old(self)@.bucket.consumed(now)
            }),
            final(server)@ == (if msg@ is Leave || !old(self)@.bucket.allows(now) {
                old(server)@
            } else {
                signaled_server(old(server)@, old(self)@.room_code, old(self)@.client_id, msg@)
            }),
            match r {
                Step::Stop => msg@ is Leave,
                Step::Continue { outgoing } => !(msg@ is Leave) && carries_all(
                    outgoing@,
                    if old(self)@.bucket.allows(now) && old(server)@.rooms.contains_key(
                        old(self)@.room_code,
                    ) {
                        signal_announcements(
                            old(server)@.rooms[old(self)@.room_code],
                            old(self)@.client_id,
                            msg@,
                        )
                    } else {
                        seq![]
                    },
                ),
            },
    {
        if let SignalMessage::Leave = msg {
            return Step::Stop;
        }
        if !self.bucket.try_consume(now) {
            return Step::Continue { outgoing: Vec::new() };
        }
        let outgoing = apply_signal(server, self.room_code.as_str(), self.client_id, msg);
        Step::Continue { outgoing }
    }
}

// ---------------------------------------------------------------------------
// Leaving
// ---------------------------------------------------------------------------

/// A room after member `id` left it.
pub open spec fn left_room(room: RoomView, id: ClientId) -> RoomView {
    room.without_member(id).transferred(id)
}

/// The server after client `id` of a room was gone. A client that is no longer
/// there, because it was kicked, changes nothing.
pub open spec fn left_server(server: ServerView, code: Seq<char>, id: ClientId) -> ServerView {
    if server.rooms.contains_key(code) && server.rooms[code].clients.contains_key(id) {
        server.with_room(code, left_room(server.rooms[code], id))
    } else {
        server
    }
}

/// What is sent when member `id` left a room: those who stay learn of it, and
/// of the new host if the role moved.
pub open spec fn leave_announcements(room: RoomView, id: ClientId) -> Seq<Announcement> {
    let after = left_room(room, id);
    let stay = after.clients.dom();
    seq![
        Announcement::Mix { command: MixCommand::RemoveClient { client_id: id } },
        Announcement::Push { to: stay, message: SignalView::ClientLeft { client_id: id } },
    ] + (if room.host == id && after.host != 0 {
        seq![
            Announcement::Push { to: set![after.host], message: SignalView::YouAreHost },
            Announcement::PushRoster { to: stay, room: after },
        ]
    } else {
        seq![]
    })
}

/// Removes client `id`, whose connection ended, from the room under `code`.
pub fn leave(server: &mut Server, code: &str, id: ClientId) -> (r: Vec<Outgoing>)
    ensures
        final(server)@ == left_server(old(server)@, code@, id),
        carries_all(
            r@,
            if old(server)@.rooms.contains_key(code@) && old(
                server,
            )@.rooms[code@].clients.contains_key(id) {
                leave_announcements(old(server)@.rooms[code@], id)
            } else {
                seq![]
            },
        ),
{
    let ghost before = server@;
    let mut outgoing: Vec<Outgoing> = Vec::new();
    let mut room = match server.take_room(code) {
        Some(room) => room,
        None => {
            return outgoing;
        },
    };
    let ghost was = room@;
    if room.remove(id) {
        outgoing.push(Outgoing::Mix { command: MixCommand::RemoveClient { client_id: id } });
        outgoing.push(
            Outgoing::Push {
                to: room.member_ids(),
                message: SignalMessage::ClientLeft { client_id: id },
            },
        );
        let transferred = room.transfer_host_from(id);
        assert(room@ == left_room(was, id));
        if let Some(new_host) = transferred {
            let mut to: Vec<ClientId> = Vec::new();
            to.push(new_host);
            assert(lists(to@, set![new_host])) by {
                assert(to@[0] == new_host);
            }
            outgoing.push(Outgoing::Push { to, message: SignalMessage::YouAreHost });
            outgoing.push(
                Outgoing::Push {
                    to: room.member_ids(),
                    message: SignalMessage::RoomInfo { clients: build_room_info(&room) },
                },
            );
        }
        assert(carries_all(outgoing@, leave_announcements(was, id)));
    } else {
        assert(room@.clients =~= was.clients);
    }
    server.put_room(code, room);
    assert(server@.rooms =~= left_server(before, code@, id).rooms);
    outgoing
}

/// The notices of a shutdown: one push per room, to all of its members.
pub fn shutdown_notices(server: &Server) -> (r: Vec<Outgoing>)
    ensures
        exists|codes: Seq<Seq<char>>| #[trigger]
            notices_for(r@, server@.rooms, codes),
{
    let listing = server.rooms_and_members();
    let ghost codes = Seq::new(listing@.len(), |i: int| listing@[i].0@);
    let mut listing = listing;
    let ghost all = listing@;
    let mut out: Vec<Outgoing> = Vec::new();
    let mut i: usize = 0;
    while i < listing.len()
        invariant
            i <= listing@.len(),
            listing@.len() == all.len(),
            forall|j: int| i <= j < all.len() ==> #[trigger] listing@[j] == all[j],
            lists_rooms(all, server@.rooms),
            out@.len() == i,
            forall|j: int|
                0 <= j < i ==> carries(
                    #[trigger] out@[j],
                    Announcement::Push {
                        to: server@.rooms[all[j].0@].clients.dom(),
                        message: SignalView::Error { message: "server is shutting down"@ },
                    },
                ),
        decreases listing@.len() - i,
    {
        let mut to: Vec<ClientId> = Vec::new();
        std::mem::swap(&mut to, &mut listing[i].1);
        assert(to@ == all[i as int].1@);
        out.push(
            Outgoing::Push {
                to,
                message: SignalMessage::Error { message: "server is shutting down".to_owned() },
            },
        );
        i = i + 1;
    }
    assert(notices_for(out@, server@.rooms, codes)) by {
        assert forall|code: Seq<char>| #[trigger] server@.rooms.contains_key(
            code,
        ) implies codes.contains(code) by {
            let k = choose|k: int| 0 <= k < all.len() && (#[trigger] all[k]).0@ == code;
            assert(codes[k] == code);
        }
    }
    out
}

/// `out` holds one shutdown notice per room, where `codes` names the rooms in
/// the order of the notices.
pub open spec fn notices_for(
    out: Seq<Outgoing>,
    rooms: Map<Seq<char>, RoomView>,
    codes: Seq<Seq<char>>,
) -> bool {
    &&& codes.no_duplicates()
    &&& forall|code: Seq<char>| #[trigger] rooms.contains_key(code) <==> codes.contains(code)
    &&& out.len() == codes.len()
    &&& forall|i: int|
        0 <= i < out.len() ==> carries(
            #[trigger] out[i],
            Announcement::Push {
                to: rooms[codes[i]].clients.dom(),
                message: SignalView::Error { message: "server is shutting down"@ },
            },
        )
}

} // verus!
