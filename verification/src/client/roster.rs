//! The roster, the lookup of peers and the event log, said of the calls.

use vstd::prelude::*;

use crate::client::tui::{
    knows, lemma_position, name_of, named, position, without_peer, AppState, AppView, Color,
    PeerView, Style, TuiEvent,
};
use crate::common::protocol::{info_views, ClientId, ClientInfo, SignalMessage, SignalView};
use crate::common::text::{
    decimal, lemma_same_name_is_whole, parse_number, same_but_for_case, same_name,
};

verus! {

// ---------------------------------------------------------------------------
// Looking a peer up
// ---------------------------------------------------------------------------

/// Place `i` of a roster has a display name that is `name` up to ASCII case.
pub open spec fn is_called(peers: Seq<PeerView>, i: int, name: Seq<char>) -> bool {
    &&& 0 <= i < peers.len()
    &&& peers[i].display_name.len() == name.len()
    &&& forall|j: int|
        0 <= j < name.len() ==> same_but_for_case(#[trigger] peers[i].display_name[j], name[j])
}

/// Some place of a roster has a number.
pub open spec fn is_listed(peers: Seq<PeerView>, id: ClientId) -> bool {
    exists|i: int| 0 <= i < peers.len() && (#[trigger] peers[i]).client_id == id
}

proof fn lemma_called_is_named(peers: Seq<PeerView>, i: int, name: Seq<char>)
    requires
        0 <= i < peers.len(),
    ensures
        is_called(peers, i, name) == same_name(peers[i].display_name, name),
{
    lemma_same_name_is_whole(peers[i].display_name, name);
}

/// How many peers have a name, told by the places that have it.
proof fn lemma_named_by_place(peers: Seq<PeerView>, name: Seq<char>)
    ensures
        named(peers, name).len() == 0 ==> forall|i: int| !#[trigger] is_called(peers, i, name),
        named(peers, name).len() == 1 ==> exists|i: int|
            #[trigger] is_called(peers, i, name) && peers[i] == named(peers, name)[0] && forall|j: int|
                #[trigger] is_called(peers, j, name) ==> j == i,
        named(peers, name).len() >= 2 ==> exists|i: int, j: int|
            i < j && #[trigger] is_called(peers, i, name) && #[trigger] is_called(peers, j, name),
    decreases peers.len(),
{
    reveal(Seq::filter);
    let keep = |p: PeerView| same_name(p.display_name, name);
    if peers.len() > 0 {
        let front = peers.drop_last();
        let n = front.len() as int;
        lemma_named_by_place(front, name);
        lemma_called_is_named(peers, n, name);
        assert forall|i: int| 0 <= i < n implies #[trigger] is_called(peers, i, name) == is_called(
            front,
            i,
            name,
        ) by {
            assert(peers[i] == front[i]);
        }
        let few = front.filter(keep);
        assert(named(peers, name) == (if keep(peers.last()) {
            few.push(peers.last())
        } else {
            few
        }));
        if few.len() == 0 {
            assert forall|i: int| 0 <= i < n implies !#[trigger] is_called(peers, i, name) by {
                assert(!is_called(front, i, name));
            }
            if keep(peers.last()) {
                assert(is_called(peers, n, name));
            }
        } else if few.len() == 1 {
            let i = choose|i: int|
                #[trigger] is_called(front, i, name) && front[i] == few[0] && forall|j: int|
                    #[trigger] is_called(front, j, name) ==> j == i;
            assert(is_called(peers, i, name));
            if keep(peers.last()) {
                assert(is_called(peers, n, name));
            } else {
                assert forall|j: int| #[trigger] is_called(peers, j, name) implies j == i by {
                    if j < n {
                        assert(is_called(front, j, name));
                    }
                }
            }
        } else {
            let (i, j) = choose|i: int, j: int|
                i < j && #[trigger] is_called(front, i, name) && #[trigger] is_called(
                    front,
                    j,
                    name,
                );
            assert(is_called(peers, i, name) && is_called(peers, j, name));
        }
    }
}

/// A number that a peer has finds that peer, whatever the names are.
pub proof fn lemma_a_peers_number_finds_it(
    state: &AppState,
    text: &str,
    number: Option<u64>,
    r: Result<ClientId, &'static str>,
)
    requires
        call_ensures(AppState::find_peer, (state, text), r),
        call_ensures(parse_number, (text,), number),
        number is Some,
        is_listed(state@.peers, number->Some_0),
    ensures
        r == Ok::<ClientId, &'static str>(number->Some_0),
{
    lemma_listed_is_known(state@.peers, number->Some_0);
}

proof fn lemma_listed_is_known(peers: Seq<PeerView>, id: ClientId)
    ensures
        knows(peers, id) == is_listed(peers, id),
{
    lemma_position(peers, id);
    if knows(peers, id) {
        assert(peers[position(peers, id) as int].client_id == id);
    }
}

/// Any other text is a name: the lookup finds the one peer whose display name is
/// the text up to case, the whole name and nothing but the name. It says unknown
/// exactly if nobody has the name, and ambiguous exactly if several do.
pub proof fn lemma_a_name_finds_its_only_bearer(
    state: &AppState,
    text: &str,
    number: Option<u64>,
    r: Result<ClientId, &'static str>,
)
    requires
        call_ensures(AppState::find_peer, (state, text), r),
        call_ensures(parse_number, (text,), number),
        !(number is Some && is_listed(state@.peers, number->Some_0)),
    ensures
        r is Ok <==> exists|i: int|
            #[trigger] is_called(state@.peers, i, text@) && forall|j: int|
                #[trigger] is_called(state@.peers, j, text@) ==> j == i,
        r is Ok ==> exists|i: int|
            #[trigger] is_called(state@.peers, i, text@) && state@.peers[i].client_id == r->Ok_0,
        (forall|i: int| !#[trigger] is_called(state@.peers, i, text@)) <==> r is Err && r->Err_0@
            == "unknown peer"@,
        (exists|i: int, j: int|
            i < j && #[trigger] is_called(state@.peers, i, text@) && #[trigger] is_called(
                state@.peers,
                j,
                text@,
            )) <==> r is Err && r->Err_0@ == "ambiguous name -- use the numeric client ID instead"@,
{
    let peers = state@.peers;
    lemma_named_by_place(peers, text@);
    if number is Some {
        lemma_listed_is_known(peers, number->Some_0);
    }
    reveal_strlit("unknown peer");
    reveal_strlit("ambiguous name -- use the numeric client ID instead");
    assert("unknown peer"@.len() != "ambiguous name -- use the numeric client ID instead"@.len());
}

/// A name is a duplicate exactly if two places of the roster have it.
pub proof fn lemma_duplicate_names(state: &AppState, name: &str, r: bool)
    requires
        call_ensures(AppState::has_duplicate_name, (state, name), r),
    ensures
        r <==> exists|i: int, j: int|
            i < j && #[trigger] is_called(state@.peers, i, name@) && #[trigger] is_called(
                state@.peers,
                j,
                name@,
            ),
{
    lemma_named_by_place(state@.peers, name@);
}

// ---------------------------------------------------------------------------
// The event log
// ---------------------------------------------------------------------------

/// The log of `after` is that of `before` with one more line at its end, and
/// without its oldest where it was full.
pub open spec fn gained_line(before: AppView, after: AppView, text: Seq<char>, style: Style) -> bool {
    let all = before.events.push((text, style));
    after.events == (if all.len() > before.max_events {
        all.skip(1)
    } else {
        all
    })
}

/// Nothing but the roster, the log and the flags differs.
pub open spec fn same_client(x: AppView, y: AppView) -> bool {
    &&& x.client_id == y.client_id
    &&& x.room_code == y.room_code
    &&& x.display_name == y.display_name
    &&& x.input == y.input
    &&& x.max_events == y.max_events
}

/// No flag differs.
pub open spec fn same_flags(x: AppView, y: AppView) -> bool {
    &&& x.is_host == y.is_host
    &&& x.self_muted == y.self_muted
    &&& x.server_muted == y.server_muted
    &&& x.should_quit == y.should_quit
}

pub open spec fn in_color(color: Color, bold: bool) -> Style {
    Style { foreground: Some(color), bold }
}

/// An event is the log's newest line; the oldest gives way where the log is full,
/// and nothing else changes.
pub proof fn lemma_events_are_kept_in_order(state: &mut AppState, text: String, style: Style)
    requires
        call_ensures(AppState::add_event, (state, text, style), ()),
    ensures
        gained_line(old(state)@, final(state)@, text@, style),
        same_client(old(state)@, final(state)@),
        same_flags(old(state)@, final(state)@),
        final(state)@.peers == old(state)@.peers,
{
}

// ---------------------------------------------------------------------------
// What the server says
// ---------------------------------------------------------------------------

/// `name` is what a client is called: the display name of the first place that
/// has its number, else the number itself behind a sharp.
pub open spec fn goes_by(peers: Seq<PeerView>, id: ClientId, name: Seq<char>) -> bool {
    if is_listed(peers, id) {
        exists|i: int|
            0 <= i < peers.len() && (#[trigger] peers[i]).client_id == id && peers[i].display_name
                == name && forall|j: int| 0 <= j < i ==> (#[trigger] peers[j]).client_id != id
    } else {
        name == "#"@ + decimal(id as nat)
    }
}

/// There is one such name.
pub proof fn lemma_goes_by(peers: Seq<PeerView>, id: ClientId, name: Seq<char>)
    requires
        goes_by(peers, id, name),
    ensures
        name == name_of(peers, id),
{
    lemma_position(peers, id);
    lemma_listed_is_known(peers, id);
    if is_listed(peers, id) {
        let i = choose|i: int|
            0 <= i < peers.len() && (#[trigger] peers[i]).client_id == id && peers[i].display_name
                == name && forall|j: int| 0 <= j < i ==> (#[trigger] peers[j]).client_id != id;
        let at = position(peers, id) as int;
        if at < i {
            assert(peers[at].client_id != id);
        }
        if i < at {
            assert(peers[i].client_id != id);
        }
    }
}

/// Nothing but the first place that has a number differs.
pub open spec fn same_but_for_peer(x: Seq<PeerView>, y: Seq<PeerView>, id: ClientId) -> bool {
    &&& x.len() == y.len()
    &&& forall|i: int|
        #![trigger y[i]]
        0 <= i < x.len() && (x[i].client_id != id || exists|j: int|
            0 <= j < i && (#[trigger] x[j]).client_id == id) ==> y[i] == x[i]
    &&& forall|i: int|
        0 <= i < x.len() ==> (#[trigger] y[i]).client_id == x[i].client_id && y[i].display_name
            == x[i].display_name
}

/// Place `i` is the first that has a number.
pub open spec fn is_first(peers: Seq<PeerView>, i: int, id: ClientId) -> bool {
    &&& 0 <= i < peers.len()
    &&& peers[i].client_id == id
    &&& forall|j: int| 0 <= j < i ==> (#[trigger] peers[j]).client_id != id
}

proof fn lemma_first_is_position(peers: Seq<PeerView>, i: int, id: ClientId)
    requires
        is_first(peers, i, id),
    ensures
        position(peers, id) == i,
        knows(peers, id),
{
    lemma_position(peers, id);
    let at = position(peers, id) as int;
    if i < at {
        assert(peers[i].client_id != id);
    }
    if at < i {
        assert(peers[at].client_id != id);
    }
}

/// A newcomer is the roster's last peer, unmuted and no host; the log says so.
pub proof fn lemma_arrivals_are_listed(
    state: &mut AppState,
    msg: SignalMessage,
    client_id: ClientId,
    display_name: Seq<char>,
)
    requires
        call_ensures(AppState::handle_signal, (state, msg), ()),
        msg@ == (SignalView::ClientJoined { client_id, display_name }),
    ensures
        ({
            let before = old(state)@;
            let after = final(state)@;
            let n = before.peers.len() as int;
            &&& same_client(before, after)
            &&& same_flags(before, after)
            &&& after.peers.len() == n + 1
            &&& after.peers.take(n) == before.peers
            &&& after.peers[n].client_id == client_id
            &&& after.peers[n].display_name == display_name
            &&& !after.peers[n].self_muted
            &&& !after.peers[n].server_muted
            &&& !after.peers[n].is_host
            &&& gained_line(
                before,
                after,
                display_name + " joined"@,
                in_color(Color::Green, false),
            )
        }),
{
    let n = old(state)@.peers.len() as int;
    assert(final(state)@.peers.take(n) =~= old(state)@.peers);
}

/// A client that left is taken off the roster, wherever it stood; the others stay
/// in their order; the log calls the client by the name it had.
pub proof fn lemma_departures_are_unlisted(
    state: &mut AppState,
    msg: SignalMessage,
    client_id: ClientId,
    name: Seq<char>,
)
    requires
        call_ensures(AppState::handle_signal, (state, msg), ()),
        msg@ == (SignalView::ClientLeft { client_id }),
        goes_by(old(state)@.peers, client_id, name),
    ensures
        same_client(old(state)@, final(state)@),
        same_flags(old(state)@, final(state)@),
        !is_listed(final(state)@.peers, client_id),
        final(state)@.peers == old(state)@.peers.filter(|p: PeerView| p.client_id != client_id),
        gained_line(old(state)@, final(state)@, name + " left"@, in_color(Color::Red, false)),
{
    lemma_goes_by(old(state)@.peers, client_id, name);
    let keep = |p: PeerView| p.client_id != client_id;
    let kept = final(state)@.peers;
    assert(kept == without_peer(old(state)@.peers, client_id));
    old(state)@.peers.filter_lemma(keep);
    assert(kept == old(state)@.peers.filter(keep));
    if is_listed(kept, client_id) {
        let i = choose|i: int| 0 <= i < kept.len() && (#[trigger] kept[i]).client_id == client_id;
        assert(keep(kept[i]));
    }
}

/// A roster of the server's replaces the client's, entry by entry, and what it
/// says of the client itself is taken over.
pub proof fn lemma_roster_is_taken_over(state: &mut AppState, clients: &[ClientInfo], i: int, me: int)
    requires
        call_ensures(AppState::set_peers_from_info, (state, clients), ()),
    ensures
        ({
            let before = old(state)@;
            let after = final(state)@;
            let infos = info_views(clients@);
            &&& same_client(before, after)
            &&& after.events == before.events
            &&& after.should_quit == before.should_quit
            &&& after.peers.len() == infos.len()
            &&& 0 <= i < infos.len() ==> {
                &&& after.peers[i].client_id == infos[i].client_id
                &&& after.peers[i].display_name == infos[i].display_name
                &&& after.peers[i].self_muted == infos[i].muted
                &&& after.peers[i].server_muted == infos[i].server_muted
                &&& after.peers[i].is_host == infos[i].is_host
            }
            &&& is_first(after.peers, me, before.client_id) ==> {
                &&& after.is_host == infos[me].is_host
                &&& after.self_muted == infos[me].muted
                &&& after.server_muted == infos[me].server_muted
            }
            &&& !is_listed(after.peers, before.client_id) ==> same_flags(before, after)
        }),
{
    let peers = final(state)@.peers;
    lemma_listed_is_known(peers, old(state)@.client_id);
    if is_first(peers, me, old(state)@.client_id) {
        lemma_first_is_position(peers, me, old(state)@.client_id);
    }
}

/// A roster message does what taking the roster over does, and the log says so.
pub proof fn lemma_roster_message(
    state: &mut AppState,
    other: &mut AppState,
    msg: SignalMessage,
    clients: &[ClientInfo],
)
    requires
        call_ensures(AppState::handle_signal, (state, msg), ()),
        call_ensures(AppState::set_peers_from_info, (other, clients), ()),
        old(other)@ == old(state)@,
        msg@ == (SignalView::RoomInfo { clients: info_views(clients@) }),
    ensures
        same_client(final(other)@, final(state)@),
        same_flags(final(other)@, final(state)@),
        final(state)@.peers == final(other)@.peers,
        gained_line(
            old(state)@,
            final(state)@,
            "roster updated"@,
            in_color(Color::DarkGray, false),
        ),
{
}

/// A client that is told it hosts the room is the host, in the roster too; nobody
/// else's entry changes.
pub proof fn lemma_host_role_is_shown(state: &mut AppState, msg: SignalMessage, me: int)
    requires
        call_ensures(AppState::handle_signal, (state, msg), ()),
        msg@ == SignalView::YouAreHost,
    ensures
        ({
            let before = old(state)@;
            let after = final(state)@;
            &&& same_client(before, after)
            &&& after.is_host
            &&& after.self_muted == before.self_muted
            &&& after.server_muted == before.server_muted
            &&& after.should_quit == before.should_quit
            &&& same_but_for_peer(before.peers, after.peers, before.client_id)
            &&& is_first(before.peers, me, before.client_id) ==> {
                &&& after.peers[me].is_host
                &&& after.peers[me].self_muted == before.peers[me].self_muted
                &&& after.peers[me].server_muted == before.peers[me].server_muted
            }
            &&& gained_line(
                before,
                after,
                "you are now the host"@,
                in_color(Color::Cyan, true),
            )
        }),
{
    let before = old(state)@;
    lemma_position(before.peers, before.client_id);
    if is_first(before.peers, me, before.client_id) {
        lemma_first_is_position(before.peers, me, before.client_id);
    }
    lemma_one_place_changed(before.peers, final(state)@.peers, before.client_id);
}

proof fn lemma_one_place_changed(x: Seq<PeerView>, y: Seq<PeerView>, id: ClientId)
    requires
        x.len() == y.len(),
        forall|i: int| 0 <= i < x.len() && i != position(x, id) ==> #[trigger] y[i] == x[i],
        knows(x, id) ==> y[position(x, id) as int].client_id == id && y[position(
            x,
            id,
        ) as int].display_name == x[position(x, id) as int].display_name,
    ensures
        same_but_for_peer(x, y, id),
{
    lemma_position(x, id);
    let at = position(x, id) as int;
    assert forall|i: int|
        #![trigger y[i]]
        0 <= i < x.len() && (x[i].client_id != id || exists|j: int|
            0 <= j < i && (#[trigger] x[j]).client_id == id) implies y[i] == x[i] by {
        if i == at {
            assert(x[at].client_id == id);
            let j = choose|j: int| 0 <= j < i && (#[trigger] x[j]).client_id == id;
            assert(x[j].client_id != id);
        }
    }
}

/// A mute notice sets the flag it is about to the value it gives, on the peer it
/// is about and, where that is the client itself, on the client; the other flag
/// and the other peers stay. The log says who was muted, how and by whom.
pub proof fn lemma_mute_notices_are_shown(
    state: &mut AppState,
    msg: SignalMessage,
    client_id: ClientId,
    muted: bool,
    by_server: bool,
    name: Seq<char>,
    i: int,
)
    requires
        call_ensures(AppState::handle_signal, (state, msg), ()),
        msg@ == (SignalView::PeerMuted { client_id, muted, by_server }),
        goes_by(old(state)@.peers, client_id, name),
    ensures
        ({
            let before = old(state)@;
            let after = final(state)@;
            let me = client_id == before.client_id;
            &&& same_client(before, after)
            &&& after.is_host == before.is_host
            &&& after.should_quit == before.should_quit
            &&& after.self_muted == (if me && !by_server {
                muted
            } else {
                before.self_muted
            })
            &&& after.server_muted == (if me && by_server {
                muted
            } else {
                before.server_muted
            })
            &&& same_but_for_peer(before.peers, after.peers, client_id)
            &&& is_first(before.peers, i, client_id) ==> {
                &&& after.peers[i].is_host == before.peers[i].is_host
                &&& after.peers[i].self_muted == (if by_server {
                    before.peers[i].self_muted
                } else {
                    muted
                })
                &&& after.peers[i].server_muted == (if by_server {
                    muted
                } else {
                    before.peers[i].server_muted
                })
            }
            &&& gained_line(
                before,
                after,
                name + " "@ + (match (by_server, muted) {
                    (false, true) => "muted"@,
                    (false, false) => "unmuted"@,
                    (true, true) => "silenced by host"@,
                    (true, false) => "unsilenced by host"@,
                }),
                in_color(Color::Yellow, false),
            )
        }),
{
    let before = old(state)@;
    lemma_goes_by(before.peers, client_id, name);
    lemma_position(before.peers, client_id);
    if is_first(before.peers, i, client_id) {
        lemma_first_is_position(before.peers, i, client_id);
    }
    lemma_one_place_changed(before.peers, final(state)@.peers, client_id);
}

/// A kicked client quits, and the log gives the reason; an error is logged as the
/// server worded it; what a server does not send is passed over.
pub proof fn lemma_other_messages(state: &mut AppState, msg: SignalMessage)
    requires
        call_ensures(AppState::handle_signal, (state, msg), ()),
    ensures
        ({
            let before = old(state)@;
            let after = final(state)@;
            match msg@ {
                SignalView::Kicked { reason } => {
                    &&& after.should_quit
                    &&& same_client(before, after)
                    &&& after.peers == before.peers
                    &&& after.is_host == before.is_host
                    &&& after.self_muted == before.self_muted
                    &&& after.server_muted == before.server_muted
                    &&& gained_line(
                        before,
                        after,
                        "kicked: "@ + reason,
                        in_color(Color::Red, true),
                    )
                },
                SignalView::Error { message } => {
                    &&& same_client(before, after)
                    &&& same_flags(before, after)
                    &&& after.peers == before.peers
                    &&& gained_line(
                        before,
                        after,
                        "error: "@ + message,
                        in_color(Color::Red, false),
                    )
                },
                SignalView::Join { .. }
                | SignalView::Leave
                | SignalView::Mute { .. }
                | SignalView::Kick { .. }
                | SignalView::ServerMute { .. }
                | SignalView::BlockPeer { .. }
                | SignalView::UnblockPeer { .. }
                | SignalView::Joined { .. } => after == before,
                _ => true,
            }
        }),
{
}

/// The loop hands messages on as they are, and a lost connection ends the client,
/// which says so.
pub proof fn lemma_connection_events(
    state: &mut AppState,
    other: &mut AppState,
    event: TuiEvent,
    msg: SignalMessage,
)
    requires
        call_ensures(AppState::handle_event, (state, event), ()),
        call_ensures(AppState::handle_signal, (other, msg), ()),
        old(other)@ == old(state)@,
        event matches TuiEvent::Signal(m) ==> m@ == msg@,
    ensures
        event is Signal ==> final(state)@ == final(other)@,
        event is Disconnected ==> {
            let before = old(state)@;
            let after = final(state)@;
            &&& after.should_quit
            &&& same_client(before, after)
            &&& after.peers == before.peers
            &&& after.is_host == before.is_host
            &&& after.self_muted == before.self_muted
            &&& after.server_muted == before.server_muted
            &&& gained_line(
                before,
                after,
                "disconnected from server"@,
                in_color(Color::Red, true),
            )
        },
{
}

} // verus!
