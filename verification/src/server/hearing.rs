//! What every listener hears, said of the calls that decide it.

use vstd::prelude::*;

use crate::common::error::VoiceError;
use crate::common::protocol::{decode_audio_datagram, AudioFrameHeader, ClientId};
use crate::server::mix::{
    audio_packet, gets_mix, is_source, plan_room, plans, AudioPacket, Contribution, Mixer, MixerView,
};
use crate::server::room::{Room, RoomView, Server};
use crate::server::session::MixCommand;

verus! {

/// Everyone in the room hears every other member that speaks, is muted neither
/// by itself nor by the host, and is not blocked by the listener. Whether the
/// listener itself is muted plays no part.
pub proof fn lemma_every_speaker_reaches_everyone<F>(
    mixer: &Mixer<F>,
    room: &Room,
    frames: &Vec<(ClientId, bool)>,
    plan: Vec<(ClientId, Vec<usize>)>,
    dest: ClientId,
    i: int,
)
    requires
        call_ensures(Mixer::<F>::plan, (mixer, room, frames), plan),
        mixer@.clients.contains_key(dest),
        room@.clients.contains_key(dest),
        0 <= i < frames@.len(),
        frames@[i].0 != dest,
        frames@[i].1,
        room@.clients.contains_key(frames@[i].0),
        !room@.clients[frames@[i].0].muted,
        !room@.clients[frames@[i].0].server_muted,
        !room@.clients[dest].blocked.contains(frames@[i].0),
    ensures
        exists|a: int, b: int|
            0 <= a < plan@.len() && plan@[a].0 == dest && 0 <= b < plan@[a].1@.len() && (
            #[trigger] plan@[a].1@[b]) == i,
{
    assert(is_source(room@, dest, frames@, i));
    assert(gets_mix(mixer@, room@, dest, frames@));
    let a = choose|a: int| 0 <= a < plan@.len() && (#[trigger] plan@[a]).0 == dest;
    let b = choose|b: int| 0 <= b < plan@[a].1@.len() && plan@[a].1@[b] == i;
    assert(plan@[a].1@[b] == i);
}

/// Nothing else is heard: a mix goes to a client that is in the mix task and in
/// the room, holds at least one frame, and each of its frames is another
/// member's who speaks, is muted neither way and is not blocked.
pub proof fn lemma_only_speakers_reach_anyone<F>(
    mixer: &Mixer<F>,
    room: &Room,
    frames: &Vec<(ClientId, bool)>,
    plan: Vec<(ClientId, Vec<usize>)>,
    a: int,
)
    requires
        call_ensures(Mixer::<F>::plan, (mixer, room, frames), plan),
        0 <= a < plan@.len(),
    ensures
        ({
            let dest = plan@[a].0;
            let mix = plan@[a].1@;
            &&& mixer@.clients.contains_key(dest)
            &&& room@.clients.contains_key(dest)
            &&& mix.len() > 0
            &&& forall|b: int|
                0 <= b < mix.len() ==> {
                    let i = #[trigger] mix[b] as int;
                    let speaker = frames@[i].0;
                    &&& 0 <= i < frames@.len()
                    &&& frames@[i].1
                    &&& speaker != dest
                    &&& room@.clients.contains_key(speaker)
                    &&& !room@.clients[speaker].muted
                    &&& !room@.clients[speaker].server_muted
                    &&& !room@.clients[dest].blocked.contains(speaker)
                }
        }),
{
    let dest = plan@[a].0;
    let i = choose|i: int| is_source(room@, dest, frames@, i);
    assert(is_source(room@, dest, frames@, i));
}

/// Each listener gets one stream, and each frame is in it once, in the order of
/// the tick.
pub proof fn lemma_one_ordered_mix_each<F>(
    mixer: &Mixer<F>,
    room: &Room,
    frames: &Vec<(ClientId, bool)>,
    plan: Vec<(ClientId, Vec<usize>)>,
)
    requires
        call_ensures(Mixer::<F>::plan, (mixer, room, frames), plan),
    ensures
        forall|a: int, b: int|
            0 <= a < b < plan@.len() ==> (#[trigger] plan@[a]).0 != (#[trigger] plan@[b]).0,
        forall|a: int, b: int, c: int|
            0 <= a < plan@.len() && 0 <= b < c < plan@[a].1@.len() ==> (#[trigger] plan@[a].1@[b])
                < (#[trigger] plan@[a].1@[c]),
{
    assert forall|a: int, b: int, c: int|
        0 <= a < plan@.len() && 0 <= b < c < plan@[a].1@.len() implies (#[trigger] plan@[a].1@[b])
        < (#[trigger] plan@[a].1@[c]) by {
        assert(plan@[a].0 == plan@[a].0);
    }
}

/// Two ascending lists with the same entries are the same.
proof fn lemma_ascending_lists_agree(x: Seq<usize>, y: Seq<usize>)
    requires
        forall|a: int, b: int| 0 <= a < b < x.len() ==> x[a] < x[b],
        forall|a: int, b: int| 0 <= a < b < y.len() ==> y[a] < y[b],
        forall|v: usize| #[trigger] x.contains(v) <==> y.contains(v),
    ensures
        x == y,
    decreases x.len() + y.len(),
{
    if x.len() == 0 {
        if y.len() > 0 {
            assert(x.contains(y[0]));
        }
        assert(x =~= y);
    } else {
        assert(x.contains(x.last()));
        let k = choose|k: int| 0 <= k < y.len() && y[k] == x.last();
        assert(x.contains(y.last())) by {
            assert(y.contains(y[y.len() - 1]));
        }
        let j = choose|j: int| 0 <= j < x.len() && x[j] == y.last();
        assert(x.last() == y.last());
        let p = x.drop_last();
        let q = y.drop_last();
        assert forall|v: usize| #[trigger] p.contains(v) <==> q.contains(v) by {
            if p.contains(v) {
                let m = choose|m: int| 0 <= m < p.len() && p[m] == v;
                assert(x[m] == v);
                assert(x.contains(v));
                let n = choose|n: int| 0 <= n < y.len() && y[n] == v;
                assert(x[m] < x[x.len() - 1]);
                assert(q[n] == v);
            }
            if q.contains(v) {
                let m = choose|m: int| 0 <= m < q.len() && q[m] == v;
                assert(y[m] == v);
                assert(y.contains(v));
                assert(x.contains(v));
                let n = choose|n: int| 0 <= n < x.len() && x[n] == v;
                assert(y[m] < y[y.len() - 1]);
                assert(p[n] == v);
            }
        }
        lemma_ascending_lists_agree(p, q);
        assert(x =~= p.push(x.last()));
        assert(y =~= q.push(y.last()));
    }
}

/// Muting oneself, or being silenced by the host, changes nothing of what one
/// hears: the mix for a member is the same whatever its own flags are.
pub proof fn lemma_muted_members_still_hear<F>(
    mixer: &Mixer<F>,
    room: &Room,
    other: &Room,
    frames: &Vec<(ClientId, bool)>,
    plan: Vec<(ClientId, Vec<usize>)>,
    again: Vec<(ClientId, Vec<usize>)>,
    a: int,
)
    requires
        call_ensures(Mixer::<F>::plan, (mixer, room, frames), plan),
        call_ensures(Mixer::<F>::plan, (mixer, other, frames), again),
        0 <= a < plan@.len(),
        other@.clients.dom() == room@.clients.dom(),
        forall|id: ClientId|
            id != plan@[a].0 && #[trigger] room@.clients.contains_key(id) ==> other@.clients[id]
                == room@.clients[id],
        other@.clients[plan@[a].0].blocked == room@.clients[plan@[a].0].blocked,
    ensures
        exists|b: int|
            0 <= b < again@.len() && (#[trigger] again@[b]).0 == plan@[a].0 && again@[b].1@
                == plan@[a].1@,
{
    let dest = plan@[a].0;
    let mix = plan@[a].1@;
    lemma_only_speakers_reach_anyone(mixer, room, frames, plan, a);
    lemma_one_ordered_mix_each(mixer, room, frames, plan);
    lemma_one_ordered_mix_each(mixer, other, frames, again);
    assert(other@.clients.contains_key(dest)) by {
        assert(room@.clients.dom().contains(dest));
    }
    let first = mix[0] as int;
    assert(room@.clients.dom().contains(frames@[first].0));
    assert(other@.clients.contains_key(frames@[first].0));
    lemma_every_speaker_reaches_everyone(mixer, other, frames, again, dest, first);
    let (b, _c) = choose|b: int, c: int|
        0 <= b < again@.len() && again@[b].0 == dest && 0 <= c < again@[b].1@.len() && (
        #[trigger] again@[b].1@[c]) == first;
    lemma_only_speakers_reach_anyone(mixer, other, frames, again, b);
    let heard = again@[b].1@;
    assert forall|v: usize| #[trigger] mix.contains(v) <==> heard.contains(v) by {
        if mix.contains(v) {
            let k = choose|k: int| 0 <= k < mix.len() && mix[k] == v;
            assert(mix[k] == v);
            assert(room@.clients.dom().contains(frames@[v as int].0));
            assert(other@.clients.contains_key(frames@[v as int].0));
            lemma_every_speaker_reaches_everyone(mixer, other, frames, again, dest, v as int);
            let (p, q) = choose|p: int, q: int|
                0 <= p < again@.len() && again@[p].0 == dest && 0 <= q < again@[p].1@.len() && (
                #[trigger] again@[p].1@[q]) == v;
            assert(again@[p].0 == again@[b].0);
            assert(p == b);
            assert(heard[q] == v);
        }
        if heard.contains(v) {
            let k = choose|k: int| 0 <= k < heard.len() && heard[k] == v;
            assert(heard[k] == v);
            assert(other@.clients.dom().contains(frames@[v as int].0));
            assert(room@.clients.contains_key(frames@[v as int].0));
            lemma_every_speaker_reaches_everyone(mixer, room, frames, plan, dest, v as int);
            let (p, q) = choose|p: int, q: int|
                0 <= p < plan@.len() && plan@[p].0 == dest && 0 <= q < plan@[p].1@.len() && (
                #[trigger] plan@[p].1@[q]) == v;
            assert(plan@[p].0 == plan@[a].0);
            assert(p == a);
            assert(mix[q] == v);
        }
    }
    assert(forall|x: int, y: int| 0 <= x < y < mix.len() ==> mix[x] < mix[y]) by {
        assert forall|x: int, y: int| 0 <= x < y < mix.len() implies mix[x] < mix[y] by {
            assert(plan@[a].1@[x] < plan@[a].1@[y]);
        }
    }
    assert(forall|x: int, y: int| 0 <= x < y < heard.len() ==> heard[x] < heard[y]) by {
        assert forall|x: int, y: int| 0 <= x < y < heard.len() implies heard[x] < heard[y] by {
            assert(again@[b].1@[x] < again@[b].1@[y]);
        }
    }
    lemma_ascending_lists_agree(mix, heard);
}

/// The mixes of a room on the server are those of the room: planning them by the
/// room's code gives each listener what planning them with the room itself gives,
/// and changes nothing.
pub proof fn lemma_room_plan_is_the_rooms<F>(
    server: &mut Server,
    code: &str,
    mixer: &Mixer<F>,
    room: &Room,
    frames: &Vec<(ClientId, bool)>,
    by_code: Option<Vec<(ClientId, Vec<usize>)>>,
    plan: Vec<(ClientId, Vec<usize>)>,
    a: int,
)
    requires
        call_ensures(plan_room::<F>, (server, code, mixer, frames), by_code),
        call_ensures(Mixer::<F>::plan, (mixer, room, frames), plan),
        old(server)@.rooms.contains_key(code@) ==> old(server)@.rooms[code@] == room@,
    ensures
        final(server)@ == old(server)@,
        by_code is Some <==> old(server)@.rooms.contains_key(code@),
        by_code is Some && 0 <= a < plan@.len() ==> exists|b: int|
            0 <= b < by_code->Some_0@.len() && (#[trigger] by_code->Some_0@[b]).0 == plan@[a].0
                && by_code->Some_0@[b].1@ == plan@[a].1@,
        by_code is Some && 0 <= a < by_code->Some_0@.len() ==> exists|b: int|
            0 <= b < plan@.len() && (#[trigger] plan@[b]).0 == by_code->Some_0@[a].0
                && plan@[b].1@ == by_code->Some_0@[a].1@,
{
    if by_code is Some {
        let given = by_code->Some_0@;
        if 0 <= a < plan@.len() {
            assert(plan@[a].0 == plan@[a].0);
            lemma_same_listener_same_mix(mixer@, room@, frames@, plan@, given, a);
        }
        if 0 <= a < given.len() {
            assert(given[a].0 == given[a].0);
            lemma_same_listener_same_mix(mixer@, room@, frames@, given, plan@, a);
        }
    }
}

proof fn lemma_same_listener_same_mix<F>(
    mixer: MixerView<F>,
    room: RoomView,
    frames: Seq<(ClientId, bool)>,
    x: Seq<(ClientId, Vec<usize>)>,
    y: Seq<(ClientId, Vec<usize>)>,
    a: int,
)
    requires
        plans(x, mixer, room, frames),
        plans(y, mixer, room, frames),
        0 <= a < x.len(),
    ensures
        exists|b: int| 0 <= b < y.len() && (#[trigger] y[b]).0 == x[a].0 && y[b].1@ == x[a].1@,
{
    let dest = x[a].0;
    assert(gets_mix(mixer, room, dest, frames));
    let b = choose|b: int| 0 <= b < y.len() && (#[trigger] y[b]).0 == dest;
    let p = x[a].1@;
    let q = y[b].1@;
    assert forall|v: usize| #[trigger] p.contains(v) <==> q.contains(v) by {
        if p.contains(v) {
            let k = choose|k: int| 0 <= k < p.len() && p[k] == v;
            assert(is_source(room, dest, frames, p[k] as int));
            let m = choose|m: int| 0 <= m < q.len() && q[m] == v;
        }
        if q.contains(v) {
            let k = choose|k: int| 0 <= k < q.len() && q[k] == v;
            assert(is_source(room, dest, frames, q[k] as int));
            let m = choose|m: int| 0 <= m < p.len() && p[m] == v;
        }
    }
    lemma_ascending_lists_agree(p, q);
}

/// A tick takes one frame of every client that ever sent one: the frame that is
/// due, or the word that it is missing. Nobody else contributes, and everyone's
/// read position moves on by one.
pub proof fn lemma_tick_takes_what_is_due<F>(
    mixer: &mut Mixer<F>,
    out: Vec<(ClientId, Contribution<F>)>,
    id: ClientId,
)
    requires
        call_ensures(Mixer::<F>::tick, (mixer,), out),
        old(mixer).wf(),
    ensures
        final(mixer)@.depth == old(mixer)@.depth,
        final(mixer)@.clients.dom() == old(mixer)@.clients.dom(),
        forall|a: int, b: int|
            0 <= a < b < out@.len() ==> (#[trigger] out@[a]).0 != (#[trigger] out@[b]).0,
        forall|a: int|
            0 <= a < out@.len() ==> old(mixer)@.clients.contains_key((#[trigger] out@[a]).0)
                && old(mixer)@.clients[out@[a].0].jitter.initialized,
        old(mixer)@.clients.contains_key(id) ==> {
            let was = old(mixer)@.clients[id];
            let now = final(mixer)@.clients[id];
            &&& now.out_sequence == was.out_sequence
            &&& now.jitter.depth == was.jitter.depth
            &&& now.jitter.initialized == was.jitter.initialized
            &&& !was.jitter.initialized ==> now.jitter == was.jitter
            &&& was.jitter.initialized ==> {
                let due = was.jitter.read_seq;
                &&& now.jitter.read_seq == (due + 1) % 0x1_0000_0000
                &&& now.jitter.frames == was.jitter.frames.remove(due)
                &&& exists|a: int|
                    0 <= a < out@.len() && (#[trigger] out@[a]).0 == id && out@[a].1 == (
                    if was.jitter.frames.contains_key(due) {
                        Contribution::Play(was.jitter.frames[due])
                    } else {
                        Contribution::Conceal
                    })
            }
        },
{
    assert(final(mixer)@.clients.dom() =~= old(mixer)@.clients.dom());
    if old(mixer)@.clients.contains_key(id) {
        let was = old(mixer)@.clients[id];
        if was.jitter.initialized {
            assert(was.contribution() is Some);
            let a = choose|a: int| 0 <= a < out@.len() && (#[trigger] out@[a]).0 == id;
            assert(out@[a].0 == id);
        }
    }
}

/// A frame that comes in reaches its sender's buffer alone, and only if the
/// sender is in the mix task.
pub proof fn lemma_received_frame_is_the_senders<F>(
    mixer: &mut Mixer<F>,
    id: ClientId,
    sequence: u32,
    frame: F,
    kept: bool,
    other: ClientId,
)
    requires
        call_ensures(Mixer::<F>::receive, (mixer, id, sequence, frame), kept),
        old(mixer).wf(),
    ensures
        final(mixer)@.depth == old(mixer)@.depth,
        final(mixer)@.clients.dom() == old(mixer)@.clients.dom(),
        kept ==> old(mixer)@.clients.contains_key(id) && final(mixer)@.clients[id].jitter.frames.contains_key(sequence) && final(mixer)@.clients[id].jitter.frames[sequence] == frame,
        old(mixer)@.clients.contains_key(id) ==> final(mixer)@.clients[id].out_sequence == old(mixer)@.clients[id].out_sequence,
        old(mixer)@.clients.contains_key(id) && !old(mixer)@.clients[id].jitter.initialized && old(mixer)@.clients[id].jitter.depth > 0 ==> kept && final(mixer)@.clients[id].jitter.read_seq
            == sequence,
        other != id && old(mixer)@.clients.contains_key(other) ==> final(mixer)@.clients[other]
            == old(mixer)@.clients[other],
{
    assert(final(mixer)@.clients.dom() =~= old(mixer)@.clients.dom());
}

/// What goes out to a client is numbered from zero on, one by one, with the
/// samples sent before as its timestamp, and carries the client's own number;
/// nobody else's count moves.
pub proof fn lemma_outgoing_frames_are_numbered<F>(
    mixer: &mut Mixer<F>,
    id: ClientId,
    header: Option<AudioFrameHeader>,
    other: ClientId,
)
    requires
        call_ensures(Mixer::<F>::next_header, (mixer, id), header),
        old(mixer).wf(),
    ensures
        header is Some <==> old(mixer)@.clients.contains_key(id),
        final(mixer)@.clients.dom() == old(mixer)@.clients.dom(),
        header is Some ==> {
            let h = header->Some_0;
            let was = old(mixer)@.clients[id];
            let now = final(mixer)@.clients[id];
            &&& h.client_id == id
            &&& h.sequence == was.out_sequence
            &&& h.timestamp == (was.out_sequence * 960) % 0x1_0000_0000
            &&& now.out_sequence == (was.out_sequence + 1) % 0x1_0000_0000
            &&& now.jitter == was.jitter
        },
        other != id && old(mixer)@.clients.contains_key(other) ==> final(mixer)@.clients[other]
            == old(mixer)@.clients[other],
{
    assert(final(mixer)@.clients.dom() =~= old(mixer)@.clients.dom());
}

/// The mix task follows the room: a client that is added starts with an empty
/// buffer and counts from zero, one that is removed is gone, and the others stay
/// as they were.
pub proof fn lemma_mix_commands_concern_one_client<F>(
    mixer: &mut Mixer<F>,
    command: MixCommand,
    other: ClientId,
)
    requires
        call_ensures(Mixer::<F>::apply, (mixer, command), ()),
        old(mixer).wf(),
    ensures
        final(mixer)@.depth == old(mixer)@.depth,
        match command {
            MixCommand::AddClient { client_id } => {
                &&& final(mixer)@.clients.dom() == old(mixer)@.clients.dom().insert(client_id)
                &&& final(mixer)@.clients[client_id].out_sequence == 0
                &&& !final(mixer)@.clients[client_id].jitter.initialized
                &&& final(mixer)@.clients[client_id].jitter.depth == old(mixer)@.depth
                &&& forall|seq: u32|
                    !#[trigger] final(mixer)@.clients[client_id].jitter.frames.contains_key(seq)
                &&& other != client_id && old(mixer)@.clients.contains_key(other) ==> final(mixer)@.clients[other] == old(mixer)@.clients[other]
            },
            MixCommand::RemoveClient { client_id } => {
                &&& final(mixer)@.clients.dom() == old(mixer)@.clients.dom().remove(client_id)
                &&& other != client_id && old(mixer)@.clients.contains_key(other) ==> final(mixer)@.clients[other] == old(mixer)@.clients[other]
            },
        },
{
    match command {
        MixCommand::AddClient { client_id } => {
            assert(final(mixer)@.clients.dom() =~= old(mixer)@.clients.dom().insert(client_id));
        },
        MixCommand::RemoveClient { client_id } => {
            assert(final(mixer)@.clients.dom() =~= old(mixer)@.clients.dom().remove(client_id));
        },
    }
}

/// There is something to mix as soon as there are two clients, and not before.
pub proof fn lemma_two_clients_make_a_mix<F>(mixer: &Mixer<F>, active: bool)
    requires
        call_ensures(Mixer::<F>::is_active, (mixer,), active),
        mixer@.clients.dom().finite(),
    ensures
        active <==> exists|a: ClientId, b: ClientId|
            a != b && mixer@.clients.contains_key(a) && mixer@.clients.contains_key(b),
{
    let ids = mixer@.clients.dom();
    if active {
        let a = ids.choose();
        assert(ids.contains(a)) by {
            if ids =~= Set::<ClientId>::empty() {
                assert(ids.len() == 0);
            }
        }
        let rest = ids.remove(a);
        assert(rest.len() == ids.len() - 1);
        let b = rest.choose();
        assert(rest.contains(b)) by {
            if rest =~= Set::<ClientId>::empty() {
                assert(rest.len() == 0);
            }
        }
        assert(mixer@.clients.contains_key(a) && mixer@.clients.contains_key(b) && a != b);
    }
    if exists|a: ClientId, b: ClientId|
        a != b && mixer@.clients.contains_key(a) && mixer@.clients.contains_key(b) {
        let (a, b) = choose|a: ClientId, b: ClientId|
            a != b && mixer@.clients.contains_key(a) && mixer@.clients.contains_key(b);
        let pair = set![a, b];
        assert(pair.subset_of(ids));
        vstd::set_lib::lemma_len_subset(pair, ids);
        assert(set![a].insert(b).len() == 2);
        assert(pair =~= set![a].insert(b));
    }
}

/// A new mix task has no clients.
pub proof fn lemma_new_mixer<F>(jitter_depth: usize, r: Mixer<F>, id: ClientId)
    requires
        call_ensures(Mixer::<F>::new, (jitter_depth,), r),
        jitter_depth > 0,
    ensures
        !r@.clients.contains_key(id),
        r@.depth == jitter_depth,
{
}

/// A datagram's packet is what stands behind its header, under the number that the
/// header gives; a datagram without a whole header has none.
pub proof fn lemma_packet_is_the_datagrams(
    datagram: &[u8],
    r: Option<AudioPacket>,
    split: Result<(AudioFrameHeader, &[u8]), VoiceError>,
)
    requires
        call_ensures(audio_packet, (datagram,), r),
        call_ensures(decode_audio_datagram, (datagram,), split),
    ensures
        r is Some <==> split is Ok,
        r is Some ==> {
            &&& r->Some_0.sequence == split->Ok_0.0.sequence
            &&& r->Some_0.data@ == split->Ok_0.1@
        },
{
}

/// Adding a client, which also starts a known one afresh, concerns that client only.
pub proof fn lemma_add_client<F>(mixer: &mut Mixer<F>, id: ClientId, other: ClientId)
    requires
        call_ensures(Mixer::<F>::add_client, (mixer, id), ()),
        old(mixer).wf(),
    ensures
        final(mixer)@.depth == old(mixer)@.depth,
        final(mixer)@.clients.contains_key(id),
        final(mixer)@.clients[id].out_sequence == 0,
        !final(mixer)@.clients[id].jitter.initialized,
        final(mixer)@.clients[id].jitter.depth == old(mixer)@.depth,
        forall|seq: u32| !#[trigger] final(mixer)@.clients[id].jitter.frames.contains_key(seq),
        other != id ==> (final(mixer)@.clients.contains_key(other) <==> old(
            mixer,
        )@.clients.contains_key(other)),
        other != id ==> final(mixer)@.clients[other] == old(mixer)@.clients[other],
{
}

/// Removing a client concerns that client only.
pub proof fn lemma_remove_client<F>(mixer: &mut Mixer<F>, id: ClientId, other: ClientId)
    requires
        call_ensures(Mixer::<F>::remove_client, (mixer, id), ()),
        old(mixer).wf(),
    ensures
        final(mixer)@.depth == old(mixer)@.depth,
        !final(mixer)@.clients.contains_key(id),
        other != id ==> (final(mixer)@.clients.contains_key(other) <==> old(
            mixer,
        )@.clients.contains_key(other)),
        other != id ==> final(mixer)@.clients[other] == old(mixer)@.clients[other],
{
}

/// Every client is listed, once, and nobody else.
pub proof fn lemma_clients_are_listed<F>(mixer: &Mixer<F>, r: Vec<ClientId>, id: ClientId)
    requires
        call_ensures(Mixer::<F>::client_ids, (mixer,), r),
    ensures
        mixer@.clients.contains_key(id) <==> exists|i: int| 0 <= i < r@.len() && r@[i] == id,
        forall|i: int, j: int| 0 <= i < j < r@.len() ==> r@[i] != r@[j],
{
    assert(mixer@.clients.dom().contains(id) <==> r@.contains(id));
}

} // verus!
