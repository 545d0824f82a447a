//! Who is in a room, who hosts it and who is told, said of the calls themselves.

use vstd::prelude::*;

use crate::common::protocol::{
    info_views, ClientId, ClientInfo, ClientInfoView, SignalMessage, SignalView,
};
use crate::common::text::{cleaned, spec_is_control};
use crate::server::config::ServerConfig;
use crate::server::moderation::lemma_has_lowest;
use crate::server::room::{ClientState, Room, RoomView, Server, ServerView};
use crate::server::session::{
    build_room_info, carries, is_roster, join, join_announcements, joined_server, leave,
    leave_announcements, notices_for, refusal, room_at, sanitize_input, shutdown_notices, Admission,
    Announcement, MixCommand, Outgoing,
};

verus! {

/// `out` pushes a message to each of a set of clients once, and to nobody else.
pub open spec fn tells(out: Outgoing, to: Set<ClientId>, message: SignalView) -> bool {
    match out {
        Outgoing::Push { to: ids, message: m } => {
            &&& ids@.no_duplicates()
            &&& forall|id: ClientId| #[trigger] to.contains(id) <==> ids@.contains(id)
            &&& m@ == message
        },
        _ => false,
    }
}

/// `out` replies with a message to the client that is handled.
pub open spec fn replies(out: Outgoing, message: SignalView) -> bool {
    match out {
        Outgoing::Reply { message: m } => m@ == message,
        _ => false,
    }
}

/// `message` lists each member of a room once: its number, its name, both of its
/// mute flags, and whether it is the host.
pub open spec fn shows_members(message: SignalView, room: RoomView) -> bool {
    match message {
        SignalView::RoomInfo { clients } => {
            &&& forall|i: int, j: int|
                0 <= i < j < clients.len() ==> (#[trigger] clients[i]).client_id != (
                #[trigger] clients[j]).client_id
            &&& forall|i: int|
                #![trigger clients[i]]
                0 <= i < clients.len() ==> {
                    let c = clients[i];
                    let m = room.clients[c.client_id];
                    &&& room.clients.contains_key(c.client_id)
                    &&& c.display_name == m.display_name
                    &&& c.muted == m.muted
                    &&& c.server_muted == m.server_muted
                    &&& c.is_host <==> c.client_id == room.host
                }
            &&& forall|id: ClientId| #[trigger]
                room.clients.contains_key(id) ==> exists|i: int|
                    0 <= i < clients.len() && (#[trigger] clients[i]).client_id == id
        },
        _ => false,
    }
}

/// Nothing but the room under `code` differs.
pub open spec fn same_but_for_room(x: ServerView, y: ServerView, code: Seq<char>) -> bool {
    &&& x.config == y.config
    &&& x.next_id == y.next_id
    &&& x.rooms.dom() == y.rooms.dom()
    &&& forall|c: Seq<char>|
        c != code && #[trigger] x.rooms.contains_key(c) ==> x.rooms[c] == y.rooms[c]
}

/// Nothing but member `id` differs, and the same clients are there.
pub open spec fn same_but_for_member(x: RoomView, y: RoomView, id: ClientId) -> bool {
    &&& x.host == y.host
    &&& x.clients.dom() == y.clients.dom()
    &&& forall|other: ClientId|
        other != id && #[trigger] x.clients.contains_key(other) ==> x.clients[other]
            == y.clients[other]
}

// ---------------------------------------------------------------------------
// Rooms
// ---------------------------------------------------------------------------

/// A new room has nobody in it, and no host.
pub proof fn lemma_new_room_is_empty(room: Room, id: ClientId)
    requires
        call_ensures(Room::new, (), room),
    ensures
        !room@.clients.contains_key(id),
        room@.host == 0,
{
}

/// Setting a member's own mute flag sets that flag and nothing else.
pub proof fn lemma_set_muted(room: &mut Room, id: ClientId, muted: bool, there: bool)
    requires
        call_ensures(Room::set_muted, (room, id, muted), there),
    ensures
        there <==> old(room)@.clients.contains_key(id),
        same_but_for_member(old(room)@, final(room)@, id),
        there ==> {
            let was = old(room)@.clients[id];
            let now = final(room)@.clients[id];
            &&& now.muted == muted
            &&& now.server_muted == was.server_muted
            &&& now.display_name == was.display_name
            &&& now.blocked == was.blocked
        },
{
    assert(old(room)@.clients.dom() =~= final(room)@.clients.dom());
}

/// Setting the host's mute flag on a member sets that flag and nothing else.
pub proof fn lemma_set_server_muted(room: &mut Room, id: ClientId, muted: bool, there: bool)
    requires
        call_ensures(Room::set_server_muted, (room, id, muted), there),
    ensures
        there <==> old(room)@.clients.contains_key(id),
        same_but_for_member(old(room)@, final(room)@, id),
        there ==> {
            let was = old(room)@.clients[id];
            let now = final(room)@.clients[id];
            &&& now.server_muted == muted
            &&& now.muted == was.muted
            &&& now.display_name == was.display_name
            &&& now.blocked == was.blocked
        },
{
    assert(old(room)@.clients.dom() =~= final(room)@.clients.dom());
}

/// Blocking a peer adds it to the blocker's list and changes nothing else.
pub proof fn lemma_block(room: &mut Room, id: ClientId, target: ClientId, there: bool)
    requires
        call_ensures(Room::block, (room, id, target), there),
    ensures
        there <==> old(room)@.clients.contains_key(id),
        same_but_for_member(old(room)@, final(room)@, id),
        there ==> {
            let was = old(room)@.clients[id];
            let now = final(room)@.clients[id];
            &&& forall|peer: ClientId| #[trigger]
                now.blocked.contains(peer) <==> was.blocked.contains(peer) || peer == target
            &&& now.muted == was.muted
            &&& now.server_muted == was.server_muted
            &&& now.display_name == was.display_name
        },
{
    assert(old(room)@.clients.dom() =~= final(room)@.clients.dom());
}

/// Unblocking a peer takes it off the blocker's list and changes nothing else.
pub proof fn lemma_unblock(room: &mut Room, id: ClientId, target: ClientId, there: bool)
    requires
        call_ensures(Room::unblock, (room, id, target), there),
    ensures
        there <==> old(room)@.clients.contains_key(id),
        same_but_for_member(old(room)@, final(room)@, id),
        there ==> {
            let was = old(room)@.clients[id];
            let now = final(room)@.clients[id];
            &&& forall|peer: ClientId| #[trigger]
                now.blocked.contains(peer) <==> was.blocked.contains(peer) && peer != target
            &&& now.muted == was.muted
            &&& now.server_muted == was.server_muted
            &&& now.display_name == was.display_name
        },
{
    assert(old(room)@.clients.dom() =~= final(room)@.clients.dom());
}

/// A member that is added is there as given; the others stay, and so does the host.
pub proof fn lemma_add(room: &mut Room, id: ClientId, state: ClientState, other: ClientId)
    requires
        call_ensures(Room::add, (room, id, state), ()),
    ensures
        final(room)@.host == old(room)@.host,
        final(room)@.clients.contains_key(id),
        final(room)@.clients[id] == state@,
        other != id ==> {
            &&& final(room)@.clients.contains_key(other) <==> old(room)@.clients.contains_key(other)
            &&& old(room)@.clients.contains_key(other) ==> final(room)@.clients[other] == old(room)@.clients[other]
        },
{
}

/// A member that is removed is gone; the others stay, and so does the host.
pub proof fn lemma_remove(room: &mut Room, id: ClientId, there: bool, other: ClientId)
    requires
        call_ensures(Room::remove, (room, id), there),
    ensures
        there <==> old(room)@.clients.contains_key(id),
        final(room)@.host == old(room)@.host,
        !final(room)@.clients.contains_key(id),
        other != id ==> {
            &&& final(room)@.clients.contains_key(other) <==> old(room)@.clients.contains_key(other)
            &&& old(room)@.clients.contains_key(other) ==> final(room)@.clients[other] == old(room)@.clients[other]
        },
{
}

/// The host role goes to whoever asks first, and to nobody after that.
pub proof fn lemma_claim_host(room: &mut Room, id: ClientId, claimed: bool)
    requires
        call_ensures(Room::try_claim_host, (room, id), claimed),
    ensures
        claimed <==> old(room)@.host == 0,
        claimed ==> final(room)@.host == id,
        !claimed ==> final(room)@.host == old(room)@.host,
        final(room)@.clients == old(room)@.clients,
{
}

/// A departing host's role goes to the member with the lowest number, or to
/// nobody in an empty room; the role of a host that stays is left alone.
pub proof fn lemma_transfer_host(room: &mut Room, departing: ClientId, next: Option<ClientId>)
    requires
        call_ensures(Room::transfer_host_from, (room, departing), next),
        !old(room)@.clients.contains_key(0),
    ensures
        final(room)@.clients == old(room)@.clients,
        old(room)@.host != departing ==> next is None && final(room)@.host == old(room)@.host,
        old(room)@.host == departing && next is Some ==> {
            &&& final(room)@.host == next->Some_0
            &&& final(room)@.clients.contains_key(next->Some_0)
            &&& forall|id: ClientId| #[trigger]
                final(room)@.clients.contains_key(id) ==> next->Some_0 <= id
        },
        old(room)@.host == departing && next is None ==> {
            &&& final(room)@.host == 0
            &&& forall|id: ClientId| !#[trigger] final(room)@.clients.contains_key(id)
        },
{
    let ids = old(room)@.clients.dom();
    if old(room)@.host == departing {
        if exists|id: ClientId| ids.contains(id) {
            let id = choose|id: ClientId| ids.contains(id);
            lemma_has_lowest(ids, id);
            assert(ids.contains(final(room)@.host));
            assert forall|k: ClientId| #[trigger]
                final(room)@.clients.contains_key(k) implies final(room)@.host <= k by {
                assert(ids.contains(k));
            }
        } else {
            assert forall|k: ClientId| !#[trigger] final(room)@.clients.contains_key(k) by {
                assert(!ids.contains(k));
            }
        }
    }
}

/// A room's roster says of each member what the room holds of it.
pub proof fn lemma_roster_shows_the_room(room: &Room, infos: Vec<ClientInfo>)
    requires
        call_ensures(build_room_info, (room,), infos),
    ensures
        shows_members(SignalView::RoomInfo { clients: info_views(infos@) }, room@),
{
    lemma_roster_shows_members(room@, info_views(infos@));
}

proof fn lemma_roster_shows_members(room: RoomView, clients: Seq<ClientInfoView>)
    requires
        is_roster(room, clients),
    ensures
        shows_members(SignalView::RoomInfo { clients }, room),
{
    assert forall|i: int|
        #![trigger clients[i]]
        0 <= i < clients.len() implies room.clients.contains_key(clients[i].client_id)
        && clients[i].is_host == (clients[i].client_id == room.host) by {}
    assert forall|id: ClientId| #[trigger] room.clients.contains_key(id) implies exists|i: int|
        0 <= i < clients.len() && (#[trigger] clients[i]).client_id == id by {}
    let message = SignalView::RoomInfo { clients };
    assert(message->clients == clients);
}

// ---------------------------------------------------------------------------
// Joining
// ---------------------------------------------------------------------------

/// Cleaning an empty text gives an empty one.
pub proof fn lemma_clean_empty(s: &str, max_len: usize, r: String)
    requires
        call_ensures(sanitize_input, (s, max_len), r),
        s@.len() == 0,
    ensures
        r@.len() == 0,
{
    reveal(Seq::filter);
}

/// Cleaning goes character by character: one more character is kept, at the end,
/// exactly if it is no control character and there is room for it.
pub proof fn lemma_clean_one_more(
    s: &str,
    longer: &str,
    max_len: usize,
    r: String,
    more: String,
    c: char,
)
    requires
        call_ensures(sanitize_input, (s, max_len), r),
        call_ensures(sanitize_input, (longer, max_len), more),
        longer@ == s@.push(c),
    ensures
        more@ == (if r@.len() < max_len && !(c as u32 <= 0x1f || 0x7f <= c as u32 <= 0x9f) {
            r@.push(c)
        } else {
            r@
        }),
{
    reveal(Seq::filter);
    assert(longer@.drop_last() =~= s@);
    let keep = |c: char| !spec_is_control(c);
    assert(longer@.filter(keep) == (if keep(c) {
        s@.filter(keep).push(c)
    } else {
        s@.filter(keep)
    }));
    assert(more@ =~= (if r@.len() < max_len && !(c as u32 <= 0x1f || 0x7f <= c as u32 <= 0x9f) {
        r@.push(c)
    } else {
        r@
    }));
}

/// Who is let in: a connection whose first message is a join with a name and a
/// room code that are not empty once cleaned, unless the room has as many members
/// as the limit allows. Whoever is turned away is told why, and nothing changes.
pub proof fn lemma_join_admits_exactly(
    server: &mut Server,
    first: SignalMessage,
    r: Result<Admission, SignalMessage>,
)
    requires
        call_ensures(join, (server, first), r),
    ensures
        !(first@ is Join) ==> {
            &&& r is Err
            &&& r->Err_0@ == (SignalView::Error { message: "expected Join message"@ })
        },
        first@ is Join ==> {
            let limit = old(server)@.config.max_room_size;
            let name = cleaned(
                first@->Join_display_name,
                old(server)@.config.max_display_name as nat,
            );
            let code = cleaned(first@->room_code, old(server)@.config.max_room_code as nat);
            let full = old(server)@.rooms.contains_key(code) && old(server)@.rooms[code].clients.dom().len() >= limit;
            &&& r is Ok <==> name.len() > 0 && code.len() > 0 && !full
            &&& name.len() == 0 || code.len() == 0 ==> r->Err_0@ == (SignalView::Error {
                message: "name and room code must not be empty"@,
            })
            &&& name.len() > 0 && code.len() > 0 && full ==> r->Err_0@ == (SignalView::Error {
                message: "room is full"@,
            })
        },
        r is Err ==> final(server)@ == old(server)@,
{
}

/// What joining does: the newcomer is a member under the next free number, with
/// the cleaned name, unmuted and blocking nobody; the room's other members, its
/// host if it has one, the other rooms and the settings stay as they were.
pub proof fn lemma_join_adds_one_member(
    server: &mut Server,
    first: SignalMessage,
    r: Result<Admission, SignalMessage>,
    other: ClientId,
    elsewhere: Seq<char>,
)
    requires
        call_ensures(join, (server, first), r),
        r is Ok,
    ensures
        ({
            let before = old(server)@;
            let after = final(server)@;
            let code = r->Ok_0.room_code@;
            let id = r->Ok_0.client_id;
            let was = before.rooms[code];
            let room = after.rooms[code];
            let existed = before.rooms.contains_key(code);
            &&& id == before.next_id
            &&& after.next_id == (if id == u64::MAX {
                0
            } else {
                id + 1
            })
            &&& code == cleaned(first@->room_code, before.config.max_room_code as nat)
            &&& r->Ok_0.display_name@ == cleaned(
                first@->Join_display_name,
                before.config.max_display_name as nat,
            )
            &&& r->Ok_0.new_room <==> !existed
            &&& r->Ok_0.became_host <==> !existed || was.host == 0
            &&& after.config == before.config
            &&& after.rooms.contains_key(code)
            &&& elsewhere != code ==> {
                &&& after.rooms.contains_key(elsewhere) <==> before.rooms.contains_key(elsewhere)
                &&& after.rooms.contains_key(elsewhere) ==> after.rooms[elsewhere]
                    == before.rooms[elsewhere]
            }
            &&& room.clients.contains_key(id)
            &&& room.clients[id].display_name == r->Ok_0.display_name@
            &&& !room.clients[id].muted
            &&& !room.clients[id].server_muted
            &&& !room.clients[id].blocked.contains(other)
            &&& room.host == (if existed && was.host != 0 {
                was.host
            } else {
                id
            })
            &&& other != id ==> {
                &&& room.clients.contains_key(other) <==> existed && was.clients.contains_key(other)
                &&& room.clients.contains_key(other) ==> room.clients[other] == was.clients[other]
            }
        }),
{
}

/// Who hears of a join: the mix task takes the newcomer in; the newcomer learns
/// its number, then everyone who is there, itself too; a new host learns of its
/// role; and the other members, and only they, learn of the newcomer.
pub proof fn lemma_join_is_announced(
    server: &mut Server,
    first: SignalMessage,
    r: Result<Admission, SignalMessage>,
)
    requires
        call_ensures(join, (server, first), r),
        r is Ok,
    ensures
        ({
            let id = r->Ok_0.client_id;
            let room = final(server)@.rooms[r->Ok_0.room_code@];
            let out = r->Ok_0.outgoing@;
            let last = out.len() - 1;
            &&& out.len() == (if r->Ok_0.became_host {
                5int
            } else {
                4int
            })
            &&& out[0] == (Outgoing::Mix { command: MixCommand::AddClient { client_id: id } })
            &&& replies(out[1], SignalView::Joined { client_id: id })
            &&& out[2] is Reply
            &&& shows_members(out[2]->Reply_message@, room)
            &&& r->Ok_0.became_host ==> tells(out[3], set![id], SignalView::YouAreHost)
            &&& tells(
                out[last],
                room.clients.dom().remove(id),
                SignalView::ClientJoined { client_id: id, display_name: r->Ok_0.display_name@ },
            )
        }),
{
    let out = r->Ok_0.outgoing@;
    let all = join_announcements(
        room_at(old(server)@, r->Ok_0.room_code@),
        r->Ok_0.client_id,
        r->Ok_0.display_name@,
    );
    assert(carries(out[0], all[0]));
    assert(carries(out[1], all[1]));
    assert(carries(out[2], all[2]));
    assert(carries(out[3], all[3]));
    assert(carries(out[out.len() - 1], all[out.len() - 1]));
}

/// The server after `n` clients with the same name asked for the same room.
pub open spec fn filled(server: ServerView, code: Seq<char>, name: Seq<char>, n: nat) -> ServerView
    decreases n,
{
    if n == 0 {
        server
    } else {
        joined_server(filled(server, code, name, (n - 1) as nat), code, name)
    }
}

/// A room takes exactly as many clients as its limit says: on a server without
/// rooms that many get in one after the other, and the next one finds it full.
pub proof fn lemma_room_fills_to_its_limit(
    server: ServerView,
    room_code: Seq<char>,
    display_name: Seq<char>,
    n: nat,
)
    requires
        server.rooms == Map::<Seq<char>, RoomView>::empty(),
        server.next_id + n <= u64::MAX,
        n <= server.config.max_room_size,
        server.config.max_room_size > 0,
        cleaned(room_code, server.config.max_room_code as nat).len() > 0,
        cleaned(display_name, server.config.max_display_name as nat).len() > 0,
    ensures
        ({
            let code = cleaned(room_code, server.config.max_room_code as nat);
            let name = cleaned(display_name, server.config.max_display_name as nat);
            let now = filled(server, code, name, n);
            let ask = SignalView::Join { room_code, display_name };
            &&& now.config == server.config
            &&& now.next_id == server.next_id + n
            &&& n > 0 ==> now.rooms.contains_key(code) && now.rooms[code].clients.dom().len() == n
                && now.rooms[code].clients.dom().finite()
            &&& forall|id: ClientId|
                n > 0 && #[trigger] now.rooms[code].clients.contains_key(id) ==> id
                    < server.next_id + n
            &&& n < server.config.max_room_size ==> refusal(now, ask) is None
            &&& n == server.config.max_room_size ==> refusal(now, ask) == Some("room is full"@)
        }),
    decreases n,
{
    let code = cleaned(room_code, server.config.max_room_code as nat);
    let name = cleaned(display_name, server.config.max_display_name as nat);
    if n > 0 {
        let m = (n - 1) as nat;
        lemma_room_fills_to_its_limit(server, room_code, display_name, m);
        let was = filled(server, code, name, m);
        let now = filled(server, code, name, n);
        let before = if m > 0 {
            was.rooms[code].clients.dom()
        } else {
            Set::<ClientId>::empty()
        };
        if m == 0 {
            assert(was == server);
            assert(!was.rooms.contains_key(code));
        }
        assert(now.rooms[code].clients.dom() =~= before.insert(was.next_id));
        if before.contains(was.next_id) {
            assert(was.rooms[code].clients.contains_key(was.next_id));
        }
        assert(now.rooms[code].clients.dom().len() == n);
        assert forall|id: ClientId| #[trigger]
            now.rooms[code].clients.contains_key(id) implies id < server.next_id + n by {
            if id != was.next_id {
                assert(was.rooms[code].clients.contains_key(id));
            }
        }
    }
}

// ---------------------------------------------------------------------------
// Leaving
// ---------------------------------------------------------------------------

/// What leaving does: the client is gone from its room, and everything else is as
/// it was but for the host role, which passes to the remaining member with the
/// lowest number. A client that is not there, or whose room is gone, changes
/// nothing, and nobody is told.
pub proof fn lemma_leave_removes_one_member(
    server: &mut Server,
    code: &str,
    id: ClientId,
    out: Vec<Outgoing>,
    other: ClientId,
)
    requires
        call_ensures(leave, (server, code, id), out),
    ensures
        ({
            let before = old(server)@;
            let after = final(server)@;
            let was = before.rooms[code@];
            let room = after.rooms[code@];
            let there = before.rooms.contains_key(code@) && was.clients.contains_key(id);
            &&& same_but_for_room(before, after, code@)
            &&& !there ==> after == before && out@.len() == 0
            &&& there ==> {
                &&& !room.clients.contains_key(id)
                &&& other != id ==> {
                    &&& room.clients.contains_key(other) <==> was.clients.contains_key(other)
                    &&& room.clients.contains_key(other) ==> room.clients[other]
                        == was.clients[other]
                }
                &&& was.host != id ==> room.host == was.host
                &&& was.host == id && !was.clients.contains_key(0) ==> {
                    &&& room.clients.contains_key(other) ==> room.clients.contains_key(room.host)
                        && room.host <= other
                    &&& (forall|k: ClientId| !#[trigger] room.clients.contains_key(k)) ==> room.host
                        == 0
                }
            }
        }),
{
    let before = old(server)@;
    let after = final(server)@;
    assert(before.rooms.dom() =~= after.rooms.dom());
    if before.rooms.contains_key(code@) && before.rooms[code@].clients.contains_key(id) {
        let room = after.rooms[code@];
        let stay = room.clients.dom();
        if before.rooms[code@].host == id {
            if room.clients.contains_key(other) {
                assert(stay.contains(other));
                lemma_has_lowest(stay, other);
            }
            if forall|k: ClientId| !#[trigger] room.clients.contains_key(k) {
                assert(forall|k: ClientId| !stay.contains(k)) by {
                    assert forall|k: ClientId| !stay.contains(k) by {
                        assert(!room.clients.contains_key(k));
                    }
                }
            }
        }
    } else {
        assert(after == before);
    }
}

/// Who hears of a departure: the mix task drops the client, those who stay learn
/// that it left; and if the host role moved, the new host learns of it and
/// everyone gets the roster anew.
pub proof fn lemma_leave_is_announced(
    server: &mut Server,
    code: &str,
    id: ClientId,
    out: Vec<Outgoing>,
)
    requires
        call_ensures(leave, (server, code, id), out),
        old(server)@.rooms.contains_key(code@),
        old(server)@.rooms[code@].clients.contains_key(id),
    ensures
        ({
            let was = old(server)@.rooms[code@];
            let room = final(server)@.rooms[code@];
            let moved = was.host == id && room.host != 0;
            &&& out@.len() == (if moved {
                4int
            } else {
                2int
            })
            &&& out@[0] == (Outgoing::Mix { command: MixCommand::RemoveClient { client_id: id } })
            &&& tells(out@[1], room.clients.dom(), SignalView::ClientLeft { client_id: id })
            &&& moved ==> {
                &&& tells(out@[2], set![room.host], SignalView::YouAreHost)
                &&& out@[3] is Push
                &&& tells(out@[3], room.clients.dom(), out@[3]->Push_message@)
                &&& shows_members(out@[3]->Push_message@, room)
            }
        }),
{
    let was = old(server)@.rooms[code@];
    let all = leave_announcements(was, id);
    assert(carries(out@[0], all[0]));
    assert(carries(out@[1], all[1]));
    if all.len() > 2 {
        assert(carries(out@[2], all[2]));
        assert(carries(out@[3], all[3]));
    }
}

// ---------------------------------------------------------------------------
// The server
// ---------------------------------------------------------------------------

/// Client numbers are handed out one after the other.
pub proof fn lemma_next_id_counts_up(server: &mut Server, id: ClientId)
    requires
        call_ensures(Server::next_id, (server,), id),
    ensures
        id == old(server)@.next_id,
        final(server)@.next_id == (if id == u64::MAX {
            0
        } else {
            id + 1
        }),
        final(server)@.rooms == old(server)@.rooms,
        final(server)@.config == old(server)@.config,
{
}

/// A clean-up drops the rooms without members, and nothing else.
pub proof fn lemma_cleanup_drops_only_empty_rooms(server: &mut Server, code: Seq<char>)
    requires
        call_ensures(Server::remove_empty_rooms, (server,), ()),
    ensures
        final(server)@.config == old(server)@.config,
        final(server)@.next_id == old(server)@.next_id,
        final(server)@.rooms.contains_key(code) <==> old(server)@.rooms.contains_key(code)
            && exists|id: ClientId| #[trigger] old(server)@.rooms[code].clients.contains_key(id),
        final(server)@.rooms.contains_key(code) ==> final(server)@.rooms[code] == old(server)@.rooms[code],
{
    if old(server)@.rooms.contains_key(code) {
        let ids = old(server)@.rooms[code].clients.dom();
        if forall|id: ClientId| !#[trigger] old(server)@.rooms[code].clients.contains_key(id) {
            assert(ids =~= Set::<ClientId>::empty());
        } else {
            let id = choose|id: ClientId| #[trigger]
                old(server)@.rooms[code].clients.contains_key(id);
            assert(ids.contains(id));
        }
    }
}

/// A shutdown is announced to every member of every room, once.
pub proof fn lemma_shutdown_reaches_everyone(
    server: &Server,
    out: Vec<Outgoing>,
    code: Seq<char>,
)
    requires
        call_ensures(shutdown_notices, (server,), out),
        server@.rooms.contains_key(code),
    ensures
        exists|i: int|
            0 <= i < out@.len() && tells(
                #[trigger] out@[i],
                server@.rooms[code].clients.dom(),
                SignalView::Error { message: "server is shutting down"@ },
            ),
        forall|i: int|
            0 <= i < out@.len() ==> (#[trigger] out@[i]) is Push && out@[i]->Push_message@ == (
            SignalView::Error { message: "server is shutting down"@ }),
        out@.len() == server@.rooms.dom().len(),
{
    let codes = choose|codes: Seq<Seq<char>>| #[trigger]
        notices_for(out@, server@.rooms, codes);
    assert(notices_for(out@, server@.rooms, codes));
    assert(codes.contains(code));
    let i = choose|i: int| 0 <= i < codes.len() && codes[i] == code;
    assert(carries(
        out@[i],
        Announcement::Push {
            to: server@.rooms[codes[i]].clients.dom(),
            message: SignalView::Error { message: "server is shutting down"@ },
        },
    ));
    assert(server@.rooms.dom() =~= codes.to_set()) by {
        assert forall|c: Seq<char>| server@.rooms.dom().contains(c) <==> codes.to_set().contains(
            c,
        ) by {
            assert(server@.rooms.contains_key(c) <==> codes.contains(c));
        }
    }
    codes.unique_seq_to_set();
}

/// A new server has no rooms, keeps its settings, and never starts counting at 0,
/// which stands for nobody.
pub proof fn lemma_new_server(config: ServerConfig, seed: u64, r: Server, code: Seq<char>)
    requires
        call_ensures(Server::with_seed, (config, seed), r),
    ensures
        !r@.rooms.contains_key(code),
        r@.config == config@,
        r@.next_id != 0,
        seed != 0 ==> r@.next_id == seed,
{
}

/// What a room tells of itself: who hosts it, how many are in it and whether anyone
/// is, and the state of a member.
pub proof fn lemma_room_is_asked(
    room: &Room,
    id: ClientId,
    hosts: bool,
    count: usize,
    occupied: bool,
    state: Option<ClientState>,
)
    requires
        call_ensures(Room::is_host, (room, id), hosts),
        call_ensures(Room::len, (room,), count),
        call_ensures(Room::is_occupied, (room,), occupied),
        call_ensures(Room::member, (room, id), state),
    ensures
        hosts <==> room@.host == id,
        count == room@.clients.dom().len(),
        occupied <==> exists|member: ClientId| room@.clients.contains_key(member),
        state is Some <==> room@.clients.contains_key(id),
        state is Some ==> state->Some_0@ == room@.clients[id],
{
    if room@.clients.dom() != Set::<ClientId>::empty() {
        assert(exists|member: ClientId| room@.clients.contains_key(member)) by {
            if forall|member: ClientId| !room@.clients.contains_key(member) {
                assert(room@.clients.dom() =~= Set::<ClientId>::empty());
            }
        }
    }
}

/// Every member is listed, once, with its state, and nobody else.
pub proof fn lemma_members_are_listed(
    room: &Room,
    entries: Vec<(ClientId, ClientState)>,
    ids: Vec<ClientId>,
    id: ClientId,
)
    requires
        call_ensures(Room::members, (room,), entries),
        call_ensures(Room::member_ids, (room,), ids),
    ensures
        room@.clients.contains_key(id) <==> exists|i: int|
            0 <= i < entries@.len() && entries@[i].0 == id,
        forall|i: int, j: int| 0 <= i < j < entries@.len() ==> entries@[i].0 != entries@[j].0,
        forall|i: int|
            0 <= i < entries@.len() ==> (#[trigger] entries@[i]).1@
                == room@.clients[entries@[i].0],
        room@.clients.contains_key(id) <==> exists|i: int| 0 <= i < ids@.len() && ids@[i] == id,
        forall|i: int, j: int| 0 <= i < j < ids@.len() ==> ids@[i] != ids@[j],
{
    assert(room@.clients.dom().contains(id) <==> ids@.contains(id));
}

/// A room that is taken out is gone, and the others stay; where there is none,
/// nothing changes.
pub proof fn lemma_take_room(
    server: &mut Server,
    code: &str,
    r: Option<Room>,
    other: Seq<char>,
)
    requires
        call_ensures(Server::take_room, (server, code), r),
    ensures
        r is Some <==> old(server)@.rooms.contains_key(code@),
        r is Some ==> r->Some_0@ == old(server)@.rooms[code@],
        !final(server)@.rooms.contains_key(code@),
        final(server)@.config == old(server)@.config,
        final(server)@.next_id == old(server)@.next_id,
        other != code@ ==> (final(server)@.rooms.contains_key(other) <==> old(
            server,
        )@.rooms.contains_key(other)),
        other != code@ && old(server)@.rooms.contains_key(other) ==> final(server)@.rooms[other]
            == old(server)@.rooms[other],
{
}

/// A room that is put in is there as it was given, and the others stay.
pub proof fn lemma_put_room(server: &mut Server, code: &str, room: Room, other: Seq<char>)
    requires
        call_ensures(Server::put_room, (server, code, room), ()),
    ensures
        final(server)@.rooms.contains_key(code@),
        final(server)@.rooms[code@] == room@,
        final(server)@.config == old(server)@.config,
        final(server)@.next_id == old(server)@.next_id,
        other != code@ ==> (final(server)@.rooms.contains_key(other) <==> old(
            server,
        )@.rooms.contains_key(other)),
        other != code@ && old(server)@.rooms.contains_key(other) ==> final(server)@.rooms[other]
            == old(server)@.rooms[other],
{
}

/// Every room is listed, once, with each of its members, once.
pub proof fn lemma_rooms_are_listed(
    server: &Server,
    r: Vec<(String, Vec<ClientId>)>,
    code: Seq<char>,
    i: int,
    id: ClientId,
)
    requires
        call_ensures(Server::rooms_and_members, (server,), r),
        0 <= i < r@.len(),
    ensures
        server@.rooms.contains_key(code) <==> exists|k: int|
            0 <= k < r@.len() && (#[trigger] r@[k]).0@ == code,
        forall|j: int, k: int|
            0 <= j < k < r@.len() ==> (#[trigger] r@[j]).0@ != (#[trigger] r@[k]).0@,
        server@.rooms[r@[i].0@].clients.contains_key(id) <==> r@[i].1@.contains(id),
        r@[i].1@.no_duplicates(),
{
    assert(server@.rooms[r@[i].0@].clients.dom().contains(id) <==> r@[i].1@.contains(id));
}

/// A client comes under its name, is muted by nobody and has blocked nobody.
pub proof fn lemma_new_client(display_name: String, r: ClientState, peer: ClientId)
    requires
        call_ensures(ClientState::new, (display_name,), r),
    ensures
        r@.display_name == display_name@,
        !r@.muted,
        !r@.server_muted,
        !r@.blocked.contains(peer),
{
}

/// So it is with a server whose first number is drawn at random.
pub proof fn lemma_new_random_server(config: ServerConfig, r: Server, code: Seq<char>)
    requires
        call_ensures(Server::new, (config,), r),
    ensures
        !r@.rooms.contains_key(code),
        r@.config == config@,
        r@.next_id != 0,
{
}

} // verus!
