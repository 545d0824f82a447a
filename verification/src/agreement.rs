//! What the server announces keeps every client's roster in step with the room.

use vstd::prelude::*;

use crate::client::tui::{
    knows, lemma_position, peer_of, peers_of, position, with_peer, without_peer, AppView, PeerView,
};
use crate::common::protocol::{ClientId, ClientInfoView, SignalView};
use crate::server::room::RoomView;
use crate::server::session::{info_of, is_roster, joined_room};

verus! {

/// `peers` shows each member of a room once, as it is.
pub open spec fn mirrors(peers: Seq<PeerView>, room: RoomView) -> bool {
    &&& forall|i: int, j: int|
        0 <= i < j < peers.len() ==> (#[trigger] peers[i]).client_id != (
        #[trigger] peers[j]).client_id
    &&& forall|i: int|
        #![trigger peers[i]]
        0 <= i < peers.len() ==> room.clients.contains_key(peers[i].client_id) && peers[i]
            == peer_of(info_of(room, peers[i].client_id))
    &&& forall|id: ClientId| #[trigger]
        room.clients.contains_key(id) ==> exists|i: int|
            0 <= i < peers.len() && (#[trigger] peers[i]).client_id == id
}

/// A client shows the members of its room, and of itself what the room holds.
pub open spec fn in_step(s: AppView, room: RoomView) -> bool {
    &&& mirrors(s.peers, room)
    &&& room.clients.contains_key(s.client_id)
    &&& s.is_host == (room.host == s.client_id)
    &&& s.self_muted == room.clients[s.client_id].muted
    &&& s.server_muted == room.clients[s.client_id].server_muted
}

/// In a roster that mirrors a room, the members are exactly the known peers.
pub proof fn lemma_known_peers_are_members(peers: Seq<PeerView>, room: RoomView, id: ClientId)
    requires
        mirrors(peers, room),
    ensures
        knows(peers, id) == room.clients.contains_key(id),
        knows(peers, id) ==> peers[position(peers, id) as int] == peer_of(info_of(room, id)),
{
    lemma_position(peers, id);
    if room.clients.contains_key(id) && !knows(peers, id) {
        let i = choose|i: int| 0 <= i < peers.len() && (#[trigger] peers[i]).client_id == id;
        assert(peers[i].client_id != id);
    }
}

/// A roster brings a member's client in step with the room, whatever it showed.
pub proof fn lemma_roster_brings_in_step(s: AppView, room: RoomView, infos: Seq<ClientInfoView>)
    requires
        is_roster(room, infos),
        room.clients.contains_key(s.client_id),
    ensures
        in_step(s.with_roster(infos), room),
        in_step(s.signaled(SignalView::RoomInfo { clients: infos }), room),
{
    let peers = peers_of(infos);
    assert forall|i: int|
        #![trigger peers[i]]
        0 <= i < peers.len() implies room.clients.contains_key(peers[i].client_id) && peers[i]
        == peer_of(info_of(room, peers[i].client_id)) by {
        assert(infos[i] == info_of(room, infos[i].client_id));
    }
    assert forall|i: int, j: int| 0 <= i < j < peers.len() implies (#[trigger] peers[i]).client_id
        != (#[trigger] peers[j]).client_id by {
        assert(infos[i].client_id != infos[j].client_id);
    }
    assert forall|id: ClientId| #[trigger] room.clients.contains_key(id) implies exists|i: int|
        0 <= i < peers.len() && (#[trigger] peers[i]).client_id == id by {
        let i = choose|i: int| 0 <= i < infos.len() && (#[trigger] infos[i]).client_id == id;
        assert(peers[i].client_id == id);
    }
    lemma_known_peers_are_members(peers, room, s.client_id);
}

/// The notice of an arrival keeps the others in step.
pub proof fn lemma_arrival_keeps_in_step(
    s: AppView,
    room: RoomView,
    id: ClientId,
    name: Seq<char>,
)
    requires
        in_step(s, room),
        !room.clients.contains_key(id),
        room.host != 0,
        room.clients.contains_key(room.host),
    ensures
        in_step(
            s.signaled(SignalView::ClientJoined { client_id: id, display_name: name }),
            joined_room(room, id, name),
        ),
{
    let after = joined_room(room, id, name);
    let peers = s.signaled(SignalView::ClientJoined { client_id: id, display_name: name }).peers;
    let n = s.peers.len() as int;
    assert forall|i: int|
        #![trigger peers[i]]
        0 <= i < peers.len() implies after.clients.contains_key(peers[i].client_id) && peers[i]
        == peer_of(info_of(after, peers[i].client_id)) by {
        if i < n {
            assert(peers[i] == s.peers[i]);
        }
    }
    assert forall|i: int, j: int| 0 <= i < j < peers.len() implies (#[trigger] peers[i]).client_id
        != (#[trigger] peers[j]).client_id by {
        assert(peers[i] == s.peers[i]);
        if j < n {
            assert(peers[j] == s.peers[j]);
        }
    }
    assert forall|k: ClientId| #[trigger] after.clients.contains_key(k) implies exists|i: int|
        0 <= i < peers.len() && (#[trigger] peers[i]).client_id == k by {
        if k == id {
            assert(peers[n].client_id == k);
        } else {
            assert(room.clients.contains_key(k));
            let i = choose|i: int| 0 <= i < n && (#[trigger] s.peers[i]).client_id == k;
            assert(peers[i].client_id == k);
        }
    }
}

/// The notice that a client other than the host left, or was kicked, keeps those
/// who stay in step.
pub proof fn lemma_departure_keeps_in_step(s: AppView, room: RoomView, id: ClientId)
    requires
        in_step(s, room),
        id != room.host,
        id != s.client_id,
    ensures
        in_step(s.signaled(SignalView::ClientLeft { client_id: id }), room.without_member(id)),
{
    let after = room.without_member(id);
    let keep = |p: PeerView| p.client_id != id;
    let peers = without_peer(s.peers, id);
    lemma_filter_keeps_distinct(s.peers, id);
    s.peers.filter_lemma(keep);
    assert forall|i: int|
        #![trigger peers[i]]
        0 <= i < peers.len() implies after.clients.contains_key(peers[i].client_id) && peers[i]
        == peer_of(info_of(after, peers[i].client_id)) by {
        assert(keep(peers[i]));
        assert(s.peers.contains(peers[i]));
        let k = choose|k: int| 0 <= k < s.peers.len() && s.peers[k] == peers[i];
        assert(room.clients.contains_key(s.peers[k].client_id));
    }
    assert forall|k: ClientId| #[trigger] after.clients.contains_key(k) implies exists|i: int|
        0 <= i < peers.len() && (#[trigger] peers[i]).client_id == k by {
        assert(room.clients.contains_key(k));
        let j = choose|j: int| 0 <= j < s.peers.len() && (#[trigger] s.peers[j]).client_id == k;
        assert(keep(s.peers[j]));
        assert(peers.contains(s.peers[j]));
        let i = choose|i: int| 0 <= i < peers.len() && peers[i] == s.peers[j];
        assert(peers[i].client_id == k);
    }
}

/// Dropping a peer keeps the numbers of the others distinct, and adds nobody.
proof fn lemma_filter_keeps_distinct(peers: Seq<PeerView>, id: ClientId)
    requires
        forall|i: int, j: int|
            0 <= i < j < peers.len() ==> (#[trigger] peers[i]).client_id != (
            #[trigger] peers[j]).client_id,
    ensures
        ({
            let kept = without_peer(peers, id);
            &&& forall|i: int, j: int|
                0 <= i < j < kept.len() ==> (#[trigger] kept[i]).client_id != (
                #[trigger] kept[j]).client_id
            &&& forall|i: int| 0 <= i < kept.len() ==> peers.contains(#[trigger] kept[i])
        }),
    decreases peers.len(),
{
    reveal(Seq::filter);
    let kept = without_peer(peers, id);
    if peers.len() > 0 {
        let front = peers.drop_last();
        assert forall|i: int, j: int| 0 <= i < j < front.len() implies (
        #[trigger] front[i]).client_id != (#[trigger] front[j]).client_id by {
            assert(front[i] == peers[i] && front[j] == peers[j]);
        }
        lemma_filter_keeps_distinct(front, id);
        let kept_front = without_peer(front, id);
        assert(kept == if peers.last().client_id != id {
            kept_front.push(peers.last())
        } else {
            kept_front
        });
        assert forall|i: int| 0 <= i < kept.len() implies peers.contains(#[trigger] kept[i]) by {
            if i < kept_front.len() {
                assert(kept[i] == kept_front[i]);
                assert(front.contains(kept_front[i]));
                let k = choose|k: int| 0 <= k < front.len() && front[k] == kept_front[i];
                assert(peers[k] == kept[i]);
            } else {
                assert(kept[i] == peers[peers.len() - 1]);
            }
        }
        assert forall|i: int, j: int| 0 <= i < j < kept.len() implies (
        #[trigger] kept[i]).client_id != (#[trigger] kept[j]).client_id by {
            assert(kept[i] == kept_front[i]);
            if j < kept_front.len() {
                assert(kept[j] == kept_front[j]);
            } else {
                assert(front.contains(kept_front[i]));
                let k = choose|k: int| 0 <= k < front.len() && front[k] == kept_front[i];
                assert(peers[k] == kept[i]);
                assert(kept[j] == peers[peers.len() - 1]);
                assert(peers[k].client_id != peers[peers.len() - 1].client_id);
            }
        }
    }
}

/// The notice of a mute change, by the member itself or by the host, keeps
/// everyone in step.
pub proof fn lemma_mute_keeps_in_step(
    s: AppView,
    room: RoomView,
    id: ClientId,
    muted: bool,
    by_server: bool,
)
    requires
        in_step(s, room),
    ensures
        in_step(
            s.signaled(SignalView::PeerMuted { client_id: id, muted, by_server }),
            if by_server {
                room.with_server_muted(id, muted)
            } else {
                room.with_muted(id, muted)
            },
        ),
{
    let after = if by_server {
        room.with_server_muted(id, muted)
    } else {
        room.with_muted(id, muted)
    };
    let f = |p: PeerView|
        if by_server {
            PeerView { server_muted: muted, ..p }
        } else {
            PeerView { self_muted: muted, ..p }
        };
    let peers = with_peer(s.peers, id, f);
    assert(s.signaled(SignalView::PeerMuted { client_id: id, muted, by_server }).peers == peers);
    lemma_position(s.peers, id);
    lemma_known_peers_are_members(s.peers, room, id);
    let at = position(s.peers, id) as int;
    assert forall|i: int| 0 <= i < peers.len() implies (#[trigger] peers[i]).client_id
        == s.peers[i].client_id by {}
    assert forall|i: int|
        #![trigger peers[i]]
        0 <= i < peers.len() implies after.clients.contains_key(peers[i].client_id) && peers[i]
        == peer_of(info_of(after, peers[i].client_id)) by {
        assert(room.clients.contains_key(s.peers[i].client_id));
        if knows(s.peers, id) && i != at {
            assert(s.peers[i].client_id != id);
        }
    }
    assert forall|i: int, j: int| 0 <= i < j < peers.len() implies (#[trigger] peers[i]).client_id
        != (#[trigger] peers[j]).client_id by {
        assert(s.peers[i].client_id != s.peers[j].client_id);
    }
    assert forall|k: ClientId| #[trigger] after.clients.contains_key(k) implies exists|i: int|
        0 <= i < peers.len() && (#[trigger] peers[i]).client_id == k by {
        assert(room.clients.contains_key(k));
        let i = choose|i: int| 0 <= i < s.peers.len() && (#[trigger] s.peers[i]).client_id == k;
        assert(peers[i].client_id == k);
    }
}

} // verus!
