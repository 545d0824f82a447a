//! What always holds of rooms, hosts and moderation.

use vstd::prelude::*;

use crate::common::protocol::{ClientId, SignalMessage, SignalView};
use crate::common::text::cleaned;
use crate::server::membership::{same_but_for_member, same_but_for_room, tells};
use crate::server::rate::TokenBucket;
use crate::server::room::{is_lowest, lowest_or_zero, MemberView, RoomView, Server, ServerView};
use crate::server::session::{
    apply_signal, carries, join_announcements, joined_room, joined_server, left_room, left_server,
    refusal, room_at, signal_announcements, signaled_room, signaled_server, Announcement,
    MixCommand, Outgoing, Session, Step,
};

verus! {

/// The host of a room is one of its members, and only an empty room has none.
/// Number 0 belongs to nobody.
pub open spec fn room_ok(room: RoomView) -> bool {
    &&& !room.clients.contains_key(0)
    &&& room.clients.dom().finite()
    &&& room.host != 0 ==> room.clients.contains_key(room.host)
    &&& room.host == 0 ==> room.clients.dom() == Set::<ClientId>::empty()
}

/// Every room is in order and none is over the limit.
pub open spec fn server_ok(server: ServerView) -> bool {
    forall|code: Seq<char>| #[trigger]
        server.rooms.contains_key(code) ==> room_ok(server.rooms[code])
            && server.rooms[code].clients.dom().len() <= server.config.max_room_size
}

/// A set of client numbers that is not empty has a lowest one.
pub proof fn lemma_has_lowest(ids: Set<ClientId>, some: ClientId)
    requires
        ids.contains(some),
    ensures
        is_lowest(ids, lowest_or_zero(ids)),
    decreases some,
{
    if exists|id: ClientId| ids.contains(id) && id < some {
        let id = choose|id: ClientId| ids.contains(id) && id < some;
        lemma_has_lowest(ids, id);
    } else {
        assert(is_lowest(ids, some));
    }
}

/// Joining keeps a room in order; the newcomer is a member, unmuted and blocking
/// nobody, and the other members stay what they were.
pub proof fn lemma_join_keeps_room_ok(room: RoomView, id: ClientId, name: Seq<char>)
    requires
        room_ok(room),
        id != 0,
    ensures
        room_ok(joined_room(room, id, name)),
        joined_room(room, id, name).clients[id] == MemberView::fresh(name),
        forall|other: ClientId|
            other != id && #[trigger] room.clients.contains_key(other) ==> joined_room(
                room,
                id,
                name,
            ).clients[other] == room.clients[other],
{
    assert(joined_room(room, id, name).clients.dom() =~= room.clients.dom().insert(id));
}

/// The first client in a room becomes its host and is told so; later ones do not.
pub proof fn lemma_first_joiner_hosts(room: RoomView, id: ClientId, name: Seq<char>)
    requires
        room_ok(room),
        id != 0,
    ensures
        room.clients.dom() == Set::<ClientId>::empty() ==> {
            &&& joined_room(room, id, name).host == id
            &&& join_announcements(room, id, name).contains(
                Announcement::Push { to: set![id], message: SignalView::YouAreHost },
            )
        },
        room.clients.dom() != Set::<ClientId>::empty() ==> joined_room(room, id, name).host
            == room.host,
{
    if room.clients.dom() == Set::<ClientId>::empty() {
        if room.host != 0 {
            assert(room.clients.dom().contains(room.host));
        }
        assert(join_announcements(room, id, name)[3] == (Announcement::Push {
            to: set![id],
            message: SignalView::YouAreHost,
        }));
    }
}

/// A message keeps the room in order, also one of a client that is no longer there.
pub proof fn lemma_signal_keeps_room_ok(room: RoomView, id: ClientId, msg: SignalView)
    requires
        room_ok(room),
        id != 0,
    ensures
        room_ok(signaled_room(room, id, msg)),
        signaled_room(room, id, msg).host == room.host,
        signaled_room(room, id, msg).clients.dom().subset_of(room.clients.dom()),
{
    let after = signaled_room(room, id, msg);
    match msg {
        SignalView::Kick { target } => {
            if room.host == id && target != id {
                assert(after.clients.dom() =~= room.clients.dom().remove(target));
            }
        },
        _ => {
            assert(after.clients.dom() =~= room.clients.dom());
        },
    }
}

/// Leaving keeps a room in order.
pub proof fn lemma_leave_keeps_room_ok(room: RoomView, id: ClientId)
    requires
        room_ok(room),
        room.clients.contains_key(id),
    ensures
        room_ok(left_room(room, id)),
        !left_room(room, id).clients.contains_key(id),
{
    let stay = room.clients.remove(id).dom();
    assert(stay =~= room.clients.dom().remove(id));
    assert(left_room(room, id).clients.dom() == stay);
    if room.host == id {
        if exists|other: ClientId| stay.contains(other) {
            let other = choose|other: ClientId| stay.contains(other);
            lemma_has_lowest(stay, other);
        } else {
            assert(stay =~= Set::<ClientId>::empty());
        }
    }
}

/// When the host leaves, the remaining member with the lowest number takes over
/// and is told so; when nobody remains the room is hostless. When another member
/// leaves, the host stays.
pub proof fn lemma_host_passes_to_lowest(room: RoomView, id: ClientId)
    requires
        room_ok(room),
        room.clients.contains_key(id),
    ensures
        ({
            let after = left_room(room, id);
            let stay = after.clients.dom();
            &&& stay == room.clients.dom().remove(id)
            &&& room.host == id && stay != Set::<ClientId>::empty() ==> is_lowest(stay, after.host)
            &&& room.host == id && stay == Set::<ClientId>::empty() ==> after.host == 0
            &&& room.host != id ==> after.host == room.host
        }),
{
    lemma_leave_keeps_room_ok(room, id);
    let stay = room.clients.remove(id).dom();
    assert(stay =~= room.clients.dom().remove(id));
    if room.host == id {
        if exists|other: ClientId| stay.contains(other) {
            let other = choose|other: ClientId| stay.contains(other);
            lemma_has_lowest(stay, other);
        } else {
            assert(stay =~= Set::<ClientId>::empty());
        }
    }
}

/// After everyone left, a newcomer to the room that still exists becomes its host.
pub proof fn lemma_hostless_room_is_claimed(
    room: RoomView,
    last: ClientId,
    id: ClientId,
    name: Seq<char>,
)
    requires
        room_ok(room),
        room.clients.dom() == set![last],
        id != 0,
    ensures
        left_room(room, last).host == 0,
        joined_room(left_room(room, last), id, name).host == id,
{
    assert(room.clients.contains_key(last));
    assert(room.host == last) by {
        assert(room.host != 0) by {
            assert(room.clients.dom().contains(last));
        }
        assert(room.clients.dom().contains(room.host));
    }
    assert(room.clients.dom().remove(last) =~= Set::<ClientId>::empty());
    lemma_host_passes_to_lowest(room, last);
}

/// A client that joins and leaves again leaves the room as it found it.
pub proof fn lemma_leave_undoes_join(room: RoomView, id: ClientId, name: Seq<char>)
    requires
        room_ok(room),
        id != 0,
        !room.clients.contains_key(id),
    ensures
        left_room(joined_room(room, id, name), id) == room,
{
    let joined = joined_room(room, id, name);
    assert(joined.clients.remove(id) =~= room.clients);
    if room.host == 0 {
        assert(left_room(joined, id).clients.dom() =~= Set::<ClientId>::empty());
    }
}

/// Only the host can kick or server-mute: from anyone else these messages change
/// nothing and nobody hears of them.
pub proof fn lemma_only_host_moderates(
    room: RoomView,
    id: ClientId,
    target: ClientId,
    muted: bool,
)
    requires
        room.host != id,
    ensures
        signaled_room(room, id, SignalView::Kick { target }) == room,
        signal_announcements(room, id, SignalView::Kick { target }) == Seq::<
            Announcement,
        >::empty(),
        signaled_room(room, id, SignalView::ServerMute { target, muted }) == room,
        signal_announcements(room, id, SignalView::ServerMute { target, muted }) == Seq::<
            Announcement,
        >::empty(),
{
}

/// A host's kick removes the target, tells it why, takes it out of the mix and
/// tells everyone who stays. The target's own departure afterwards changes nothing.
pub proof fn lemma_kick_removes(
    server: ServerView,
    code: Seq<char>,
    id: ClientId,
    target: ClientId,
)
    requires
        server.rooms.contains_key(code),
        server.rooms[code].host == id,
        server.rooms[code].clients.contains_key(target),
        target != id,
    ensures
        ({
            let room = server.rooms[code];
            let kick = SignalView::Kick { target };
            let after = signaled_room(room, id, kick);
            let sent = signal_announcements(room, id, kick);
            &&& !after.clients.contains_key(target)
            &&& sent[0] == (Announcement::Mix {
                command: MixCommand::RemoveClient { client_id: target },
            })
            &&& sent[1] == (Announcement::Farewell {
                target,
                message: SignalView::Kicked { reason: "kicked by host"@ },
            })
            &&& sent[2] == (Announcement::Push {
                to: room.clients.dom().remove(target),
                message: SignalView::ClientLeft { client_id: target },
            })
            &&& left_server(signaled_server(server, code, id, kick), code, target)
                == signaled_server(server, code, id, kick)
        }),
{
    let room = server.rooms[code];
    assert(room.without_member(target).clients.dom() =~= room.clients.dom().remove(target));
}

/// A member's own mute flag and the host's flag on it are independent: setting
/// either leaves the other, and every other member, as it was.
pub proof fn lemma_mute_flags_are_independent(
    room: RoomView,
    id: ClientId,
    other: ClientId,
    flag: bool,
)
    requires
        room.clients.contains_key(id),
        room.clients.contains_key(other),
        id != other,
    ensures
        room.with_muted(id, flag).clients[id].muted == flag,
        room.with_muted(id, flag).clients[id].server_muted == room.clients[id].server_muted,
        room.with_muted(id, flag).clients[other] == room.clients[other],
        room.with_server_muted(id, flag).clients[id].server_muted == flag,
        room.with_server_muted(id, flag).clients[id].muted == room.clients[id].muted,
        room.with_server_muted(id, flag).clients[other] == room.clients[other],
{
}

/// Blocking is between the blocker and the server: nobody is told, and nothing
/// of the blocked peer changes.
pub proof fn lemma_block_is_silent(room: RoomView, id: ClientId, target: ClientId)
    requires
        room.clients.contains_key(id),
    ensures
        signal_announcements(room, id, SignalView::BlockPeer { target }) == Seq::<
            Announcement,
        >::empty(),
        signal_announcements(room, id, SignalView::UnblockPeer { target }) == Seq::<
            Announcement,
        >::empty(),
        signaled_room(room, id, SignalView::BlockPeer { target }).clients[id].blocked.contains(
            target,
        ),
        forall|other: ClientId|
            other != id && #[trigger] room.clients.contains_key(other) ==> signaled_room(
                room,
                id,
                SignalView::BlockPeer { target },
            ).clients[other] == room.clients[other],
{
}

/// Unblocking undoes a block.
pub proof fn lemma_unblock_undoes_block(room: RoomView, id: ClientId, target: ClientId)
    requires
        room.clients.contains_key(id),
        !room.clients[id].blocked.contains(target),
    ensures
        room.with_block(id, target).without_block(id, target) == room,
{
    let member = room.clients[id];
    assert(member.blocked.insert(target).remove(target) =~= member.blocked);
    assert(room.with_block(id, target).without_block(id, target).clients =~= room.clients);
}

/// A server with its settings and no rooms is in order.
pub proof fn lemma_new_server_ok(server: ServerView)
    requires
        server.rooms == Map::<Seq<char>, RoomView>::empty(),
    ensures
        server_ok(server),
{
}

/// Letting a client in keeps the server in order, room limit and all.
pub proof fn lemma_join_keeps_server_ok(
    server: ServerView,
    room_code: Seq<char>,
    display_name: Seq<char>,
    code: Seq<char>,
    name: Seq<char>,
)
    requires
        server_ok(server),
        server.next_id != 0,
        server.config.max_room_size > 0,
        refusal(server, SignalView::Join { room_code, display_name }) is None,
        code == cleaned(room_code, server.config.max_room_code as nat),
        name == cleaned(display_name, server.config.max_display_name as nat),
    ensures
        server_ok(joined_server(server, code, name)),
{
    let room = room_at(server, code);
    let after = joined_server(server, code, name);
    assert(room_ok(room)) by {
        if !server.rooms.contains_key(code) {
            assert(room.clients.dom() =~= Set::<ClientId>::empty());
        }
    }
    lemma_join_keeps_room_ok(room, server.next_id, name);
    let joined = joined_room(room, server.next_id, name);
    assert(joined.clients.dom() =~= room.clients.dom().insert(server.next_id));
    assert(joined.clients.dom().len() <= room.clients.dom().len() + 1);
    if !server.rooms.contains_key(code) {
        assert(room.clients.dom() =~= Set::<ClientId>::empty());
        assert(room.clients.dom().len() == 0);
    }
    assert forall|c: Seq<char>| #[trigger] after.rooms.contains_key(c) implies room_ok(
        after.rooms[c],
    ) && after.rooms[c].clients.dom().len() <= after.config.max_room_size by {
        if c != code {
            assert(server.rooms.contains_key(c));
        }
    }
}

/// A client's message keeps the server in order.
pub proof fn lemma_signal_keeps_server_ok(
    server: ServerView,
    code: Seq<char>,
    id: ClientId,
    msg: SignalView,
)
    requires
        server_ok(server),
        id != 0,
    ensures
        server_ok(signaled_server(server, code, id, msg)),
{
    let after = signaled_server(server, code, id, msg);
    if server.rooms.contains_key(code) {
        let room = server.rooms[code];
        lemma_signal_keeps_room_ok(room, id, msg);
        vstd::set_lib::lemma_len_subset(signaled_room(room, id, msg).clients.dom(), room.clients.dom());
        assert forall|c: Seq<char>| #[trigger] after.rooms.contains_key(c) implies room_ok(
            after.rooms[c],
        ) && after.rooms[c].clients.dom().len() <= after.config.max_room_size by {
            if c != code {
                assert(server.rooms.contains_key(c));
            }
        }
    }
}

/// A departure keeps the server in order.
pub proof fn lemma_leave_keeps_server_ok(server: ServerView, code: Seq<char>, id: ClientId)
    requires
        server_ok(server),
    ensures
        server_ok(left_server(server, code, id)),
{
    let after = left_server(server, code, id);
    if server.rooms.contains_key(code) && server.rooms[code].clients.contains_key(id) {
        let room = server.rooms[code];
        lemma_leave_keeps_room_ok(room, id);
        assert(left_room(room, id).clients.dom() =~= room.clients.dom().remove(id));
        assert forall|c: Seq<char>| #[trigger] after.rooms.contains_key(c) implies room_ok(
            after.rooms[c],
        ) && after.rooms[c].clients.dom().len() <= after.config.max_room_size by {
            if c != code {
                assert(server.rooms.contains_key(c));
            }
        }
    }
}

/// Dropping empty rooms keeps the server in order and is never noticed: under
/// every code a newcomer finds the same room as before.
pub proof fn lemma_cleanup_is_invisible(server: ServerView, code: Seq<char>)
    requires
        server_ok(server),
    ensures
        server_ok(server.cleaned_up()),
        room_at(server.cleaned_up(), code) == room_at(server, code),
{
    let after = server.cleaned_up();
    assert forall|c: Seq<char>| #[trigger] after.rooms.contains_key(c) implies room_ok(
        after.rooms[c],
    ) && after.rooms[c].clients.dom().len() <= after.config.max_room_size by {
        assert(server.rooms.contains_key(c));
    }
    if server.rooms.contains_key(code) && !after.rooms.contains_key(code) {
        let room = server.rooms[code];
        assert(room.clients =~= Map::<ClientId, MemberView>::empty()) by {
            assert(room.clients.dom() =~= Set::<ClientId>::empty());
        }
        if room.host != 0 {
            assert(room.clients.dom().contains(room.host));
        }
    }
}

/// The number that the `n`th client after `start` gets.
pub open spec fn nth_id(start: ClientId, n: nat) -> ClientId
    decreases n,
{
    if n == 0 {
        start
    } else {
        ServerView::following(nth_id(start, (n - 1) as nat))
    }
}

/// Client numbers go up one by one from the first, so until they wrap around
/// none is 0 and no two are the same.
pub proof fn lemma_ids_are_sequential(start: ClientId, n: nat)
    requires
        start != 0,
        start + n <= u64::MAX,
    ensures
        nth_id(start, n) == start + n,
        nth_id(start, n) != 0,
    decreases n,
{
    if n > 0 {
        lemma_ids_are_sequential(start, (n - 1) as nat);
    }
}

// ---------------------------------------------------------------------------
// What the messages do, said of the call that carries them out
// ---------------------------------------------------------------------------

/// Silencing and unsilencing: after the host's message the member's flag is what
/// the message says, whichever it says; everything else is as it was; and every
/// member is told that same value, once.
pub proof fn lemma_host_sets_silence(
    server: &mut Server,
    code: &str,
    id: ClientId,
    msg: SignalMessage,
    sent: Vec<Outgoing>,
    target: ClientId,
    muted: bool,
)
    requires
        call_ensures(apply_signal, (server, code, id, msg), sent),
        msg@ == (SignalView::ServerMute { target, muted }),
        old(server)@.rooms.contains_key(code@),
        old(server)@.rooms[code@].host == id,
        old(server)@.rooms[code@].clients.contains_key(target),
    ensures
        same_but_for_room(old(server)@, final(server)@, code@),
        same_but_for_member(
            old(server)@.rooms[code@],
            final(server)@.rooms[code@],
            target,
        ),
        ({
            let was = old(server)@.rooms[code@].clients[target];
            let now = final(server)@.rooms[code@].clients[target];
            &&& now.server_muted == muted
            &&& now.muted == was.muted
            &&& now.display_name == was.display_name
            &&& now.blocked == was.blocked
        }),
        sent@.len() == 1,
        tells(
            sent@[0],
            old(server)@.rooms[code@].clients.dom(),
            SignalView::PeerMuted { client_id: target, muted, by_server: true },
        ),
{
    let room = old(server)@.rooms[code@];
    assert(old(server)@.rooms.dom() =~= final(server)@.rooms.dom());
    assert(room.clients.dom() =~= final(server)@.rooms[code@].clients.dom());
    assert(carries(sent@[0], signal_announcements(room, id, msg@)[0]));
}

/// A silence followed by an unsilence leaves the server as it was, for a member
/// that was not silenced before.
pub proof fn lemma_unsilence_undoes_silence(
    server: &mut Server,
    later: &mut Server,
    code: &str,
    id: ClientId,
    silence: SignalMessage,
    unsilence: SignalMessage,
    sent: Vec<Outgoing>,
    sent_later: Vec<Outgoing>,
    target: ClientId,
)
    requires
        call_ensures(apply_signal, (server, code, id, silence), sent),
        call_ensures(apply_signal, (later, code, id, unsilence), sent_later),
        old(later)@ == final(server)@,
        silence@ == (SignalView::ServerMute { target, muted: true }),
        unsilence@ == (SignalView::ServerMute { target, muted: false }),
        old(server)@.rooms.contains_key(code@),
        old(server)@.rooms[code@].host == id,
        old(server)@.rooms[code@].clients.contains_key(target),
        !old(server)@.rooms[code@].clients[target].server_muted,
    ensures
        final(later)@ == old(server)@,
{
    let room = old(server)@.rooms[code@];
    assert(final(later)@.rooms[code@].clients =~= room.clients);
    assert(final(later)@.rooms =~= old(server)@.rooms);
}

/// A silence or a kick of somebody who is not there changes nothing; a host's is
/// announced all the same.
pub proof fn lemma_silence_of_a_stranger(
    server: &mut Server,
    code: &str,
    id: ClientId,
    msg: SignalMessage,
    sent: Vec<Outgoing>,
    target: ClientId,
    muted: bool,
)
    requires
        call_ensures(apply_signal, (server, code, id, msg), sent),
        msg@ == (SignalView::ServerMute { target, muted }) || (msg@ == (SignalView::Kick { target })
            && target != id),
        old(server)@.rooms.contains_key(code@),
        old(server)@.rooms[code@].host == id,
        !old(server)@.rooms[code@].clients.contains_key(target),
    ensures
        final(server)@ == old(server)@,
        sent@.len() == 1,
        tells(
            sent@[0],
            old(server)@.rooms[code@].clients.dom(),
            if msg@ is Kick {
                SignalView::ClientLeft { client_id: target }
            } else {
                SignalView::PeerMuted { client_id: target, muted, by_server: true }
            },
        ),
{
    let room = old(server)@.rooms[code@];
    assert(room.clients.remove(target) =~= room.clients);
    assert(final(server)@.rooms =~= old(server)@.rooms);
    assert(carries(sent@[0], signal_announcements(room, id, msg@)[0]));
}

/// Muting and unmuting oneself: the member's own flag is what the message says,
/// everything else is as it was, and every member is told that same value, once.
pub proof fn lemma_member_sets_own_mute(
    server: &mut Server,
    code: &str,
    id: ClientId,
    msg: SignalMessage,
    sent: Vec<Outgoing>,
    muted: bool,
)
    requires
        call_ensures(apply_signal, (server, code, id, msg), sent),
        msg@ == (SignalView::Mute { muted }),
        old(server)@.rooms.contains_key(code@),
        old(server)@.rooms[code@].clients.contains_key(id),
    ensures
        same_but_for_room(old(server)@, final(server)@, code@),
        same_but_for_member(old(server)@.rooms[code@], final(server)@.rooms[code@], id),
        ({
            let was = old(server)@.rooms[code@].clients[id];
            let now = final(server)@.rooms[code@].clients[id];
            &&& now.muted == muted
            &&& now.server_muted == was.server_muted
            &&& now.display_name == was.display_name
            &&& now.blocked == was.blocked
        }),
        sent@.len() == 1,
        tells(
            sent@[0],
            old(server)@.rooms[code@].clients.dom(),
            SignalView::PeerMuted { client_id: id, muted, by_server: false },
        ),
{
    let room = old(server)@.rooms[code@];
    assert(old(server)@.rooms.dom() =~= final(server)@.rooms.dom());
    assert(room.clients.dom() =~= final(server)@.rooms[code@].clients.dom());
    assert(carries(sent@[0], signal_announcements(room, id, msg@)[0]));
}

/// A host's kick takes the member out of the room and of the mix, tells it why,
/// and tells all who stay. The host and the other members stay as they were.
pub proof fn lemma_host_kicks(
    server: &mut Server,
    code: &str,
    id: ClientId,
    msg: SignalMessage,
    sent: Vec<Outgoing>,
    target: ClientId,
    other: ClientId,
)
    requires
        call_ensures(apply_signal, (server, code, id, msg), sent),
        msg@ == (SignalView::Kick { target }),
        old(server)@.rooms.contains_key(code@),
        old(server)@.rooms[code@].host == id,
        old(server)@.rooms[code@].clients.contains_key(target),
        target != id,
    ensures
        same_but_for_room(old(server)@, final(server)@, code@),
        ({
            let was = old(server)@.rooms[code@];
            let room = final(server)@.rooms[code@];
            &&& room.host == id
            &&& !room.clients.contains_key(target)
            &&& other != target ==> {
                &&& room.clients.contains_key(other) <==> was.clients.contains_key(other)
                &&& room.clients.contains_key(other) ==> room.clients[other] == was.clients[other]
            }
            &&& sent@.len() == 3
            &&& sent@[0] == (Outgoing::Mix {
                command: MixCommand::RemoveClient { client_id: target },
            })
            &&& sent@[1] is Farewell
            &&& sent@[1]->target == target
            &&& sent@[1]->Farewell_message@ == (SignalView::Kicked { reason: "kicked by host"@ })
            &&& tells(
                sent@[2],
                was.clients.dom().remove(target),
                SignalView::ClientLeft { client_id: target },
            )
        }),
{
    let was = old(server)@.rooms[code@];
    let all = signal_announcements(was, id, msg@);
    assert(old(server)@.rooms.dom() =~= final(server)@.rooms.dom());
    assert(final(server)@.rooms[code@].clients.dom() =~= was.clients.dom().remove(target));
    assert(carries(sent@[0], all[0]));
    assert(carries(sent@[1], all[1]));
    assert(carries(sent@[2], all[2]));
}

/// Nobody but the host moderates, and a host does not kick itself: such messages
/// change nothing, and nobody is told.
pub proof fn lemma_powerless_messages(
    server: &mut Server,
    code: &str,
    id: ClientId,
    msg: SignalMessage,
    sent: Vec<Outgoing>,
)
    requires
        call_ensures(apply_signal, (server, code, id, msg), sent),
        match msg@ {
            SignalView::Kick { target } => !old(server)@.rooms.contains_key(code@) || old(server)@.rooms[code@].host != id || target == id,
            SignalView::ServerMute { target, muted } => !old(server)@.rooms.contains_key(code@)
                || old(server)@.rooms[code@].host != id,
            SignalView::Mute { .. } | SignalView::BlockPeer { .. } | SignalView::UnblockPeer { .. } => {
                !old(server)@.rooms.contains_key(code@) || !old(server)@.rooms[code@].clients.contains_key(id)
            },
            _ => true,
        },
    ensures
        final(server)@ == old(server)@,
        sent@.len() == 0,
{
    if old(server)@.rooms.contains_key(code@) {
        assert(final(server)@.rooms =~= old(server)@.rooms);
    }
}

/// Blocking and unblocking put the peer on the member's list or take it off,
/// change nothing else, and nobody is told.
pub proof fn lemma_member_sets_block(
    server: &mut Server,
    code: &str,
    id: ClientId,
    msg: SignalMessage,
    sent: Vec<Outgoing>,
    target: ClientId,
    peer: ClientId,
)
    requires
        call_ensures(apply_signal, (server, code, id, msg), sent),
        msg@ == (SignalView::BlockPeer { target }) || msg@ == (SignalView::UnblockPeer { target }),
        old(server)@.rooms.contains_key(code@),
        old(server)@.rooms[code@].clients.contains_key(id),
    ensures
        same_but_for_room(old(server)@, final(server)@, code@),
        same_but_for_member(old(server)@.rooms[code@], final(server)@.rooms[code@], id),
        ({
            let was = old(server)@.rooms[code@].clients[id];
            let now = final(server)@.rooms[code@].clients[id];
            &&& now.muted == was.muted
            &&& now.server_muted == was.server_muted
            &&& now.display_name == was.display_name
            &&& now.blocked.contains(peer) <==> (if peer == target {
                msg@ is BlockPeer
            } else {
                was.blocked.contains(peer)
            })
        }),
        sent@.len() == 0,
{
    let room = old(server)@.rooms[code@];
    assert(old(server)@.rooms.dom() =~= final(server)@.rooms.dom());
    assert(room.clients.dom() =~= final(server)@.rooms[code@].clients.dom());
}

/// Two messages out say the same thing to the same clients.
pub open spec fn says_the_same(x: Outgoing, y: Outgoing) -> bool {
    match (x, y) {
        (Outgoing::Push { to: a, message: m }, Outgoing::Push { to: b, message: n }) => {
            &&& m@ == n@
            &&& forall|id: ClientId| #[trigger] a@.contains(id) <==> b@.contains(id)
        },
        (Outgoing::Farewell { target: a, message: m }, Outgoing::Farewell { target: b, message: n }) => {
            a == b && m@ == n@
        },
        (Outgoing::Mix { command: a }, Outgoing::Mix { command: b }) => a == b,
        _ => false,
    }
}

proof fn lemma_same_announcement(x: Outgoing, y: Outgoing, a: Announcement)
    requires
        carries(x, a),
        carries(y, a),
        a is Push || a is Farewell || a is Mix,
    ensures
        says_the_same(x, y),
{
    match (x, y, a) {
        (
            Outgoing::Push { to: p, message: m },
            Outgoing::Push { to: q, message: n },
            Announcement::Push { to, message },
        ) => {
            assert forall|id: ClientId| #[trigger] p@.contains(id) <==> q@.contains(id) by {
                assert(to.contains(id) <==> p@.contains(id));
                assert(to.contains(id) <==> q@.contains(id));
            }
        },
        _ => {},
    }
}

/// A connection's messages take effect in its own room and under its own number,
/// as long as its budget allows them. A message over the budget is dropped, and
/// leaving ends the session, whatever the budget, without touching the room.
pub proof fn lemma_session_acts_for_its_client(
    session: &mut Session,
    server: &mut Server,
    direct: &mut Server,
    msg: SignalMessage,
    same: SignalMessage,
    now: u64,
    step: Step,
    code: &str,
    sent: Vec<Outgoing>,
)
    requires
        call_ensures(Session::handle, (session, server, msg, now), step),
        call_ensures(apply_signal, (direct, code, old(session)@.client_id, same), sent),
        old(direct)@ == old(server)@,
        same@ == msg@,
        code@ == old(session)@.room_code,
    ensures
        final(session)@.client_id == old(session)@.client_id,
        final(session)@.room_code == old(session)@.room_code,
        msg@ is Leave <==> step is Stop,
        msg@ is Leave ==> final(server)@ == old(server)@ && final(session)@.bucket == old(session)@.bucket,
        !(msg@ is Leave) && old(session)@.bucket.allows(now) ==> final(server)@ == final(direct)@
            && step->outgoing@.len() == sent@.len() && forall|i: int|
            0 <= i < sent@.len() ==> says_the_same(#[trigger] step->outgoing@[i], sent@[i]),
        !(msg@ is Leave) && !old(session)@.bucket.allows(now) ==> final(server)@ == old(server)@
            && step->outgoing@.len() == 0,
{
    if !(msg@ is Leave) && old(session)@.bucket.allows(now) {
        let all = if old(server)@.rooms.contains_key(code@) {
            signal_announcements(old(server)@.rooms[code@], old(session)@.client_id, msg@)
        } else {
            seq![]
        };
        let outgoing = step->outgoing@;
        assert forall|i: int| 0 <= i < sent@.len() implies says_the_same(
            #[trigger] outgoing[i],
            sent@[i],
        ) by {
            assert(carries(outgoing[i], all[i]));
            assert(carries(sent@[i], all[i]));
            lemma_same_announcement(outgoing[i], sent@[i], all[i]);
        }
    }
}

/// A session acts for the client and the room it was made for, and may send a full
/// burst at once; then messages come in at the configured rate.
pub proof fn lemma_session_starts_with_a_burst(
    server: &Server,
    client_id: ClientId,
    room_code: String,
    now: u64,
    r: Session,
)
    requires
        call_ensures(Session::new, (server, client_id, room_code, now), r),
    ensures
        r@.client_id == client_id,
        r@.room_code == room_code@,
        r@.bucket.capacity == server@.config.signal_burst,
        r@.bucket.rate == server@.config.signal_rate,
        r@.bucket.tokens == server@.config.signal_burst * 1_000_000_000,
        r@.bucket.last_refill == now,
{
}

/// A message of a session costs a token of its budget, and is over the budget
/// exactly if no whole token is left; leaving costs nothing.
pub proof fn lemma_session_budget(
    session: &mut Session,
    server: &mut Server,
    bucket: &mut TokenBucket,
    msg: SignalMessage,
    now: u64,
    step: Step,
    allowed: bool,
)
    requires
        call_ensures(Session::handle, (session, server, msg, now), step),
        call_ensures(TokenBucket::try_consume, (bucket, now), allowed),
        old(bucket)@ == old(session)@.bucket,
    ensures
        allowed <==> old(session)@.bucket.allows(now),
        msg@ is Leave ==> final(session)@.bucket == old(session)@.bucket,
        !(msg@ is Leave) ==> final(session)@.bucket == final(bucket)@,
        !(msg@ is Leave) && !allowed ==> final(server)@ == old(server)@ && step is Continue
            && step->outgoing@.len() == 0,
{
}

} // verus!
