//! Who hears whom: per-room playout and mix routing.
//!
//! Frames are opaque here. Decoding, concealment, voice detection, summing and
//! encoding are the caller's; this module decides which frame of which client
//! goes where, and numbers what is sent.

use std::collections::HashMap;

use vstd::prelude::*;

use crate::common::jitter::{JitterBuffer, JitterView};
use crate::common::protocol::{
    decode_audio_datagram, frame_header, frame_header_of, header_of, lemma_next_timestamp,
    AudioFrameHeader, ClientId, FRAME_SIZE,
};
use crate::server::room::{lists, Room, RoomView, Server};
use crate::server::session::MixCommand;

verus! {

broadcast use vstd::std_specs::hash::group_hash_axioms;

/// An Opus packet on its way from the datagram receiver to the mix task.
pub struct AudioPacket {
    pub sequence: u32,
    pub data: Vec<u8>,
}

/// Takes the packet out of a datagram. The client number in the header is
/// ignored: the connection tells who sent it.
pub fn audio_packet(datagram: &[u8]) -> (r: Option<AudioPacket>)
    ensures
        match r {
            Some(p) => {
                &&& datagram@.len() >= AudioFrameHeader::SIZE
                &&& p.sequence == header_of(datagram@.take(16)).sequence
                &&& p.data@ == datagram@.skip(16)
            },
            None => datagram@.len() < AudioFrameHeader::SIZE,
        },
{
    match decode_audio_datagram(datagram) {
        Ok((header, payload)) => {
            let mut data: Vec<u8> = Vec::new();
            data.extend_from_slice(payload);
            assert(data@ =~= payload@);
            Some(AudioPacket { sequence: header.sequence, data })
        },
        Err(_) => None,
    }
}

/// What the mix task keeps per client.
struct MixClient<F> {
    jitter_buffer: JitterBuffer<F>,
    out_sequence: u32,
}

pub struct MixClientView<F> {
    pub jitter: JitterView<F>,
    /// The number of the next mixed frame sent to the client.
    pub out_sequence: u32,
}

/// What a client contributes to a tick.
#[derive(Debug, Clone, PartialEq)]
pub enum Contribution<F> {
    /// The frame that was due.
    Play(F),
    /// The frame that was due is missing: conceal it.
    Conceal,
}

impl<F> MixClientView<F> {
    pub open spec fn fresh(depth: nat) -> Self {
        MixClientView { jitter: JitterView::empty(depth), out_sequence: 0 }
    }

    /// A client that ever sent a frame contributes one to each tick.
    pub open spec fn contribution(self) -> Option<Contribution<F>> {
        if !self.jitter.initialized {
            None
        } else {
            match self.jitter.next() {
                Some(frame) => Some(Contribution::Play(frame)),
                None => Some(Contribution::Conceal),
            }
        }
    }

    pub open spec fn ticked(self) -> Self {
        MixClientView { jitter: self.jitter.popped(), ..self }
    }
}

/// The clients of a room's mix task.
#[verifier::reject_recursive_types(F)]
pub struct Mixer<F> {
    clients: HashMap<ClientId, MixClient<F>>,
    jitter_depth: usize,
}

#[verifier::ext_equal]
#[verifier::reject_recursive_types(F)]
pub struct MixerView<F> {
    pub clients: Map<ClientId, MixClientView<F>>,
    pub depth: nat,
}

impl<F> MixerView<F> {
    pub open spec fn received(self, id: ClientId, sequence: u32, frame: F) -> Self {
        if self.clients.contains_key(id) {
            let c = self.clients[id];
            MixerView {
                clients: self.clients.insert(
                    id,
                    MixClientView { jitter: c.jitter.inserted(sequence, frame), ..c },
                ),
                ..self
            }
        } else {
            self
        }
    }

    /// Every client's buffer moves on by one frame.
    pub open spec fn ticked(self) -> Self {
        MixerView { clients: self.clients.map_values(|c: MixClientView<F>| c.ticked()), ..self }
    }

    pub open spec fn stamped(self, id: ClientId) -> Self {
        let c = self.clients[id];
        MixerView {
            clients: self.clients.insert(
                id,
                MixClientView {
                    out_sequence: ((c.out_sequence + 1) % 0x1_0000_0000) as u32,
                    ..c
                },
            ),
            ..self
        }
    }
}

/// `out` holds the contribution of each client that has one, once, in some order.
pub open spec fn gathers<F>(
    out: Seq<(ClientId, Contribution<F>)>,
    clients: Map<ClientId, MixClientView<F>>,
) -> bool {
    &&& forall|i: int, j: int|
        0 <= i < j < out.len() ==> (#[trigger] out[i]).0 != (#[trigger] out[j]).0
    &&& forall|i: int|
        #![trigger out[i]]
        0 <= i < out.len() ==> clients.contains_key(out[i].0)
            && clients[out[i].0].contribution() == Some(out[i].1)
    &&& forall|id: ClientId| #[trigger]
        clients.contains_key(id) && clients[id].contribution() is Some ==> exists|i: int|
            0 <= i < out.len() && (#[trigger] out[i]).0 == id
}

/// Whether a client's frame may be heard by others: the client is in the room,
/// muted neither by itself nor by the host, and its frame carries a voice.
pub open spec fn audible(room: RoomView, id: ClientId, voice: bool) -> bool {
    &&& room.clients.contains_key(id)
    &&& !room.clients[id].muted
    &&& !room.clients[id].server_muted
    &&& voice
}

/// Whether frame `i` of a tick goes into the mix for member `dest`: it is
/// audible, another client's, and not from a peer that `dest` blocked.
pub open spec fn is_source(
    room: RoomView,
    dest: ClientId,
    frames: Seq<(ClientId, bool)>,
    i: int,
) -> bool {
    &&& 0 <= i < frames.len()
    &&& frames[i].0 != dest
    &&& audible(room, frames[i].0, frames[i].1)
    &&& !room.clients[dest].blocked.contains(frames[i].0)
}

/// `picked` lists the frames that go into the mix for `dest`, in order.
pub open spec fn picks(
    picked: Seq<usize>,
    room: RoomView,
    dest: ClientId,
    frames: Seq<(ClientId, bool)>,
) -> bool {
    &&& forall|a: int, b: int| 0 <= a < b < picked.len() ==> picked[a] < picked[b]
    &&& forall|a: int|
        0 <= a < picked.len() ==> is_source(room, dest, frames, (#[trigger] picked[a]) as int)
    &&& forall|i: int| #[trigger]
        is_source(room, dest, frames, i) ==> exists|a: int|
            0 <= a < picked.len() && picked[a] == i
}

/// Whether `dest` gets a mix at all: it is in the mix task and in the room, and
/// there is something to hear.
pub open spec fn gets_mix<F>(
    mixer: MixerView<F>,
    room: RoomView,
    dest: ClientId,
    frames: Seq<(ClientId, bool)>,
) -> bool {
    &&& mixer.clients.contains_key(dest)
    &&& room.clients.contains_key(dest)
    &&& exists|i: int| is_source(room, dest, frames, i)
}

/// `plan` holds one mix for each client that gets one, in some order.
pub open spec fn plans<F>(
    plan: Seq<(ClientId, Vec<usize>)>,
    mixer: MixerView<F>,
    room: RoomView,
    frames: Seq<(ClientId, bool)>,
) -> bool {
    &&& forall|a: int, b: int|
        0 <= a < b < plan.len() ==> (#[trigger] plan[a]).0 != (#[trigger] plan[b]).0
    &&& forall|a: int|
        #![trigger plan[a]]
        0 <= a < plan.len() ==> gets_mix(mixer, room, plan[a].0, frames) && picks(
            plan[a].1@,
            room,
            plan[a].0,
            frames,
        )
    &&& forall|dest: ClientId| #[trigger]
        gets_mix(mixer, room, dest, frames) ==> exists|a: int|
            0 <= a < plan.len() && (#[trigger] plan[a]).0 == dest
}

/// Picks the frames for one destination.
fn pick_sources(
    room: &Room,
    dest: ClientId,
    frames: &Vec<(ClientId, bool)>,
    active: &Vec<bool>,
) -> (r: Option<Vec<usize>>)
    requires
        active@.len() == frames@.len(),
        forall|i: int|
            0 <= i < frames@.len() ==> #[trigger] active@[i] == audible(
                room@,
                frames@[i].0,
                frames@[i].1,
            ),
    ensures
        match r {
            Some(picked) => {
                &&& room@.clients.contains_key(dest)
                &&& exists|i: int| is_source(room@, dest, frames@, i)
                &&& picks(picked@, room@, dest, frames@)
            },
            None => !(room@.clients.contains_key(dest) && exists|i: int|
                is_source(room@, dest, frames@, i)),
        },
{
    let state = match room.member(dest) {
        Some(state) => state,
        None => {
            return None;
        },
    };
    let mut picked: Vec<usize> = Vec::new();
    let mut i: usize = 0;
    while i < frames.len()
        invariant
            i <= frames@.len(),
            active@.len() == frames@.len(),
            forall|k: int|
                0 <= k < frames@.len() ==> #[trigger] active@[k] == audible(
                    room@,
                    frames@[k].0,
                    frames@[k].1,
                ),
            state@ == room@.clients[dest],
            forall|a: int, b: int| 0 <= a < b < picked@.len() ==> picked@[a] < picked@[b],
            forall|a: int|
                0 <= a < picked@.len() ==> picked@[a] < i && is_source(
                    room@,
                    dest,
                    frames@,
                    (#[trigger] picked@[a]) as int,
                ),
            forall|k: int|
                k < i && #[trigger] is_source(room@, dest, frames@, k) ==> exists|a: int|
                    0 <= a < picked@.len() && picked@[a] == k,
        decreases frames@.len() - i,
    {
        let id: ClientId = frames[i].0;
        let ghost before = picked@;
        if id != dest && active[i] && !state.blocked_peers.contains(&id) {
            assert(is_source(room@, dest, frames@, i as int));
            picked.push(i);
            assert(picked@[before.len() as int] == i);
        } else {
            assert(!is_source(room@, dest, frames@, i as int));
        }
        i = i + 1;
        assert forall|k: int|
            k < i && #[trigger] is_source(room@, dest, frames@, k) implies exists|a: int|
            0 <= a < picked@.len() && picked@[a] == k by {
            if k < i - 1 {
                let a = choose|a: int| 0 <= a < before.len() && before[a] == k;
                assert(picked@[a] == k);
            } else {
                assert(picked@[before.len() as int] == k);
            }
        }
    }
    if picked.len() == 0 {
        assert forall|k: int| !is_source(room@, dest, frames@, k) by {}
        None
    } else {
        assert(is_source(room@, dest, frames@, picked@[0] as int));
        Some(picked)
    }
}

impl<F> View for Mixer<F> {
    type V = MixerView<F>;

    closed spec fn view(&self) -> MixerView<F> {
        MixerView {
            clients: self.clients@.map_values(
                |c: MixClient<F>|
                    MixClientView { jitter: c.jitter_buffer@, out_sequence: c.out_sequence },
            ),
            depth: self.jitter_depth as nat,
        }
    }
}

impl<F> Mixer<F> {
    pub closed spec fn wf(self) -> bool {
        &&& self.jitter_depth > 0
        &&& forall|id: ClientId| #[trigger]
            self.clients@.contains_key(id) ==> self.clients@[id].jitter_buffer.wf()
    }

    pub fn new(jitter_depth: usize) -> (r: Self)
        requires
            jitter_depth > 0,
        ensures
            r.wf(),
            r@.clients == Map::<ClientId, MixClientView<F>>::empty(),
            r@.depth == jitter_depth,
    {
        let r = Mixer { clients: HashMap::new(), jitter_depth };
        assert(r@.clients =~= Map::<ClientId, MixClientView<F>>::empty());
        r
    }

    /// Takes a client in, with an empty buffer, in place of one with the same number.
    pub fn add_client(&mut self, id: ClientId)
        requires
            old(self).wf(),
        ensures
            final(self).wf(),
            final(self)@ == (MixerView {
                clients: old(self)@.clients.insert(id, MixClientView::fresh(old(self)@.depth)),
                ..old(self)@
            }),
    {
        let client = MixClient {
            jitter_buffer: JitterBuffer::new(self.jitter_depth),
            out_sequence: 0,
        };
        self.clients.insert(id, client);
        assert(self@.clients =~= old(self)@.clients.insert(
            id,
            MixClientView::fresh(old(self)@.depth),
        ));
    }

    pub fn remove_client(&mut self, id: ClientId)
        requires
            old(self).wf(),
        ensures
            final(self).wf(),
            final(self)@ == (MixerView {
                clients: old(self)@.clients.remove(id),
                ..old(self)@
            }),
    {
        self.clients.remove(&id);
        assert(self@.clients =~= old(self)@.clients.remove(id));
    }

    /// Carries out a command of a connection handler.
    pub fn apply(&mut self, command: MixCommand)
        requires
            old(self).wf(),
        ensures
            final(self).wf(),
            final(self)@ == (match command {
                MixCommand::AddClient { client_id } => MixerView {
                    clients: old(self)@.clients.insert(
                        client_id,
                        MixClientView::fresh(old(self)@.depth),
                    ),
                    ..old(self)@
                },
                MixCommand::RemoveClient { client_id } => MixerView {
                    clients: old(self)@.clients.remove(client_id),
                    ..old(self)@
                },
            }),
    {
        match command {
            MixCommand::AddClient { client_id } => self.add_client(client_id),
            MixCommand::RemoveClient { client_id } => self.remove_client(client_id),
        }
    }

    /// Whether there is anything to mix: one client alone hears nobody.
    pub fn is_active(&self) -> (r: bool)
        ensures
            r == (self@.clients.dom().len() >= 2),
    {
        assert(self@.clients.dom() =~= self.clients@.dom());
        self.clients.len() >= 2
    }

    /// Buffers a decoded frame of a client. Tells whether it was kept.
    pub fn receive(&mut self, id: ClientId, sequence: u32, frame: F) -> (r: bool)
        requires
            old(self).wf(),
        ensures
            final(self).wf(),
            r == (old(self)@.clients.contains_key(id) && old(self)@.clients[id].jitter.accepts(
                sequence,
            )),
            final(self)@ == old(self)@.received(id, sequence, frame),
    {
        let ghost before = self.clients@;
        match self.clients.remove(&id) {
            Some(client) => {
                let mut client = client;
                let kept: bool = client.jitter_buffer.insert(sequence, frame);
                self.clients.insert(id, client);
                assert(self.clients@ =~= before.insert(id, client));
                assert(self@.clients =~= old(self)@.received(id, sequence, frame).clients);
                kept
            },
            None => {
                assert(self.clients@ =~= before);
                false
            },
        }
    }

    /// The numbers of all clients, in some order.
    pub fn client_ids(&self) -> (r: Vec<ClientId>)
        ensures
            r@.no_duplicates(),
            forall|id: ClientId| #[trigger]
                self@.clients.contains_key(id) <==> r@.contains(id),
            lists(r@, self@.clients.dom()),
    {
        let mut out: Vec<ClientId> = Vec::new();
        for k in it: self.clients.keys()
            invariant
                it.seq().unref().to_set() == self.clients@.dom(),
                it.seq().no_duplicates(),
                out@ == it.seq().unref().take(it.index() as int),
                it.index() == it.seq().len() ==> out@ == it.seq().unref(),
        {
            let ghost keys = it.seq().unref();
            let ghost n = it.index() as int;
            out.push(*k);
            assert(out@ =~= keys.take(n + 1));
            assert(n + 1 == keys.len() ==> keys.take(n + 1) =~= keys);
        }
        assert forall|id: ClientId| #[trigger] self@.clients.contains_key(id) <==> out@.contains(
            id,
        ) by {
            assert(out@.to_set().contains(id) == self.clients@.dom().contains(id));
        }
        out
    }

    /// Takes each client's next frame.
    pub fn tick(&mut self) -> (r: Vec<(ClientId, Contribution<F>)>)
        requires
            old(self).wf(),
        ensures
            final(self).wf(),
            final(self)@ == old(self)@.ticked(),
            gathers(r@, old(self)@.clients),
    {
        let ids = self.client_ids();
        let ghost start = self@;
        let mut out: Vec<(ClientId, Contribution<F>)> = Vec::new();
        let mut i: usize = 0;
        assert(ids@.take(0) =~= Seq::<ClientId>::empty());
        while i < ids.len()
            invariant
                i <= ids@.len(),
                ids@.no_duplicates(),
                forall|id: ClientId| #[trigger]
                    start.clients.contains_key(id) <==> ids@.contains(id),
                self.wf(),
                self@.depth == start.depth,
                self@.clients.dom() == start.clients.dom(),
                forall|id: ClientId| #[trigger]
                    start.clients.contains_key(id) ==> self@.clients[id] == (if ids@.take(
                        i as int,
                    ).contains(id) {
                        start.clients[id].ticked()
                    } else {
                        start.clients[id]
                    }),
                forall|a: int, b: int|
                    0 <= a < b < out@.len() ==> (#[trigger] out@[a]).0 != (#[trigger] out@[b]).0,
                forall|a: int|
                    #![trigger out@[a]]
                    0 <= a < out@.len() ==> ids@.take(i as int).contains(out@[a].0)
                        && start.clients.contains_key(out@[a].0)
                        && start.clients[out@[a].0].contribution() == Some(out@[a].1),
                forall|k: int|
                    0 <= k < i && start.clients[#[trigger] ids@[k]].contribution() is Some
                        ==> exists|a: int| 0 <= a < out@.len() && (#[trigger] out@[a]).0 == ids@[k],
            decreases ids@.len() - i,
        {
            let id: ClientId = ids[i];
            let ghost seen = ids@.take(i as int);
            let ghost mid = self@;
            let ghost table = self.clients@;
            let ghost before = out@;
            proof {
                assert(ids@.contains(id));
                if seen.contains(id) {
                    let k = choose|k: int| 0 <= k < seen.len() && seen[k] == id;
                    assert(ids@[k] == ids@[i as int]);
                }
                assert(ids@.take(i + 1) =~= seen.push(id));
                assert(forall|x: ClientId|
                    #![trigger seen.push(id).contains(x)]
                    seen.push(id).contains(x) <==> seen.contains(x) || x == id) by {
                    assert forall|x: ClientId|
                        #![trigger seen.push(id).contains(x)]
                        seen.push(id).contains(x) <==> seen.contains(x) || x == id by {
                        if seen.contains(x) {
                            let k = choose|k: int| 0 <= k < seen.len() && seen[k] == x;
                            assert(seen.push(id)[k] == x);
                        }
                        assert(seen.push(id)[seen.len() as int] == id);
                    }
                }
                assert(mid.clients.dom().contains(id));
            }
            match self.clients.remove(&id) {
                Some(client) => {
                    let mut client = client;
                    let started: bool = client.jitter_buffer.is_initialized();
                    let next = client.jitter_buffer.pop();
                    self.clients.insert(id, client);
                    assert(self.clients@ =~= table.insert(id, client));
                    assert(self@.clients =~= mid.clients.insert(id, start.clients[id].ticked()));
                    if started {
                        match next {
                            Some(frame) => {
                                out.push((id, Contribution::Play(frame)));
                            },
                            None => {
                                out.push((id, Contribution::Conceal));
                            },
                        }
                        assert(out@[before.len() as int].0 == id);
                    }
                },
                None => {},
            }
            i = i + 1;
            assert(self@.clients.dom() =~= start.clients.dom());
            assert forall|k: int|
                0 <= k < i && start.clients[#[trigger] ids@[k]].contribution() is Some implies exists|
                a: int,
            | 0 <= a < out@.len() && (#[trigger] out@[a]).0 == ids@[k] by {
                if k < i - 1 {
                    let a = choose|a: int|
                        0 <= a < before.len() && (#[trigger] before[a]).0 == ids@[k];
                    assert(out@[a].0 == ids@[k]);
                } else {
                    assert(out@[before.len() as int].0 == ids@[k]);
                }
            }
        }
        proof {
            assert(ids@.take(ids@.len() as int) =~= ids@);
            assert(self@.clients =~= start.ticked().clients);
            assert forall|id: ClientId| #[trigger]
                start.clients.contains_key(id) && start.clients[id].contribution() is Some implies
                exists|a: int| 0 <= a < out@.len() && (#[trigger] out@[a]).0 == id by {
                assert(ids@.contains(id));
                let k = choose|k: int| 0 <= k < ids@.len() && ids@[k] == id;
                assert(start.clients[ids@[k]].contribution() is Some);
            }
        }
        out
    }

    /// Decides which frames go to whom. `frames` tells of each frame of the tick
    /// whose it is and whether it carries a voice.
    pub fn plan(&self, room: &Room, frames: &Vec<(ClientId, bool)>) -> (r: Vec<
        (ClientId, Vec<usize>),
    >)
        ensures
            plans(r@, self@, room@, frames@),
    {
        let mut active: Vec<bool> = Vec::new();
        let mut i: usize = 0;
        while i < frames.len()
            invariant
                i <= frames@.len(),
                active@.len() == i,
                forall|k: int|
                    0 <= k < i ==> #[trigger] active@[k] == audible(
                        room@,
                        frames@[k].0,
                        frames@[k].1,
                    ),
            decreases frames@.len() - i,
        {
            let heard: bool = match room.member(frames[i].0) {
                Some(state) => !state.muted && !state.server_muted && frames[i].1,
                None => false,
            };
            active.push(heard);
            i = i + 1;
        }
        let ids = self.client_ids();
        let mut out: Vec<(ClientId, Vec<usize>)> = Vec::new();
        let mut j: usize = 0;
        while j < ids.len()
            invariant
                j <= ids@.len(),
                ids@.no_duplicates(),
                forall|id: ClientId| #[trigger]
                    self@.clients.contains_key(id) <==> ids@.contains(id),
                active@.len() == frames@.len(),
                forall|k: int|
                    0 <= k < frames@.len() ==> #[trigger] active@[k] == audible(
                        room@,
                        frames@[k].0,
                        frames@[k].1,
                    ),
                forall|a: int, b: int|
                    0 <= a < b < out@.len() ==> (#[trigger] out@[a]).0 != (#[trigger] out@[b]).0,
                forall|a: int|
                    #![trigger out@[a]]
                    0 <= a < out@.len() ==> ids@.take(j as int).contains(out@[a].0) && gets_mix(
                        self@,
                        room@,
                        out@[a].0,
                        frames@,
                    ) && picks(out@[a].1@, room@, out@[a].0, frames@),
                forall|k: int|
                    0 <= k < j && gets_mix(self@, room@, #[trigger] ids@[k], frames@) ==> exists|
                        a: int,
                    | 0 <= a < out@.len() && (#[trigger] out@[a]).0 == ids@[k],
            decreases ids@.len() - j,
        {
            let dest: ClientId = ids[j];
            let ghost seen = ids@.take(j as int);
            let ghost before = out@;
            proof {
                assert(ids@.contains(dest));
                if seen.contains(dest) {
                    let k = choose|k: int| 0 <= k < seen.len() && seen[k] == dest;
                    assert(ids@[k] == ids@[j as int]);
                }
                assert(ids@.take(j + 1) =~= seen.push(dest));
                assert forall|x: ClientId| #[trigger] seen.contains(x) implies seen.push(
                    dest,
                ).contains(x) by {
                    let k = choose|k: int| 0 <= k < seen.len() && seen[k] == x;
                    assert(seen.push(dest)[k] == x);
                }
                assert(seen.push(dest)[seen.len() as int] == dest);
            }
            if let Some(picked) = pick_sources(room, dest, frames, &active) {
                out.push((dest, picked));
                assert(out@[before.len() as int].0 == dest);
            }
            j = j + 1;
            assert forall|k: int|
                0 <= k < j && gets_mix(self@, room@, #[trigger] ids@[k], frames@) implies exists|
                a: int,
            | 0 <= a < out@.len() && (#[trigger] out@[a]).0 == ids@[k] by {
                if k < j - 1 {
                    let a = choose|a: int|
                        0 <= a < before.len() && (#[trigger] before[a]).0 == ids@[k];
                    assert(out@[a].0 == ids@[k]);
                } else {
                    assert(out@[before.len() as int].0 == ids@[k]);
                }
            }
        }
        proof {
            assert forall|dest: ClientId| #[trigger]
                gets_mix(self@, room@, dest, frames@) implies exists|a: int|
                0 <= a < out@.len() && (#[trigger] out@[a]).0 == dest by {
                assert(ids@.contains(dest));
                let k = choose|k: int| 0 <= k < ids@.len() && ids@[k] == dest;
                assert(gets_mix(self@, room@, ids@[k], frames@));
            }
        }
        out
    }

    /// The header of the next frame sent to a client.
    pub fn next_header(&mut self, id: ClientId) -> (r: Option<AudioFrameHeader>)
        requires
            old(self).wf(),
        ensures
            final(self).wf(),
            match r {
                Some(header) => {
                    &&& old(self)@.clients.contains_key(id)
                    &&& header == frame_header_of(id, old(self)@.clients[id].out_sequence)
                    &&& final(self)@ == old(self)@.stamped(id)
                },
                None => !old(self)@.clients.contains_key(id) && final(self)@ == old(self)@,
            },
    {
        let ghost before = self.clients@;
        match self.clients.remove(&id) {
            Some(client) => {
                let mut client = client;
                let header = frame_header(id, client.out_sequence);
                client.out_sequence = client.out_sequence.wrapping_add(1);
                self.clients.insert(id, client);
                assert(self.clients@ =~= before.insert(id, client));
                assert(self@.clients =~= old(self)@.stamped(id).clients);
                Some(header)
            },
            None => {
                assert(self.clients@ =~= before);
                None
            },
        }
    }
}

/// Plans the mixes of the room under `code`; nothing if the room is gone.
pub fn plan_room<F>(
    server: &mut Server,
    code: &str,
    mixer: &Mixer<F>,
    frames: &Vec<(ClientId, bool)>,
) -> (r: Option<Vec<(ClientId, Vec<usize>)>>)
    ensures
        final(server)@ == old(server)@,
        match r {
            Some(plan) => {
                &&& old(server)@.rooms.contains_key(code@)
                &&& plans(plan@, mixer@, old(server)@.rooms[code@], frames@)
            },
            None => !old(server)@.rooms.contains_key(code@),
        },
{
    match server.take_room(code) {
        Some(room) => {
            let plan = mixer.plan(&room, frames);
            server.put_room(code, room);
            assert(server@.rooms =~= old(server)@.rooms);
            Some(plan)
        },
        None => None,
    }
}

// ---------------------------------------------------------------------------
// Laws
// ---------------------------------------------------------------------------

/// Nobody hears itself, a muted or server-muted client, one that is not in the
/// room, one whose frame carries no voice, or a peer it blocked.
pub proof fn lemma_never_heard(
    picked: Seq<usize>,
    room: RoomView,
    dest: ClientId,
    frames: Seq<(ClientId, bool)>,
    a: int,
)
    requires
        picks(picked, room, dest, frames),
        0 <= a < picked.len(),
    ensures
        ({
            let (id, voice) = frames[picked[a] as int];
            &&& picked[a] < frames.len()
            &&& id != dest
            &&& room.clients.contains_key(id)
            &&& !room.clients[id].muted
            &&& !room.clients[id].server_muted
            &&& voice
            &&& !room.clients[dest].blocked.contains(id)
        }),
{
    assert(is_source(room, dest, frames, picked[a] as int));
}

/// Every other member that speaks, is not muted either way and is not blocked is
/// heard, once per frame.
pub proof fn lemma_everyone_else_is_heard(
    picked: Seq<usize>,
    room: RoomView,
    dest: ClientId,
    frames: Seq<(ClientId, bool)>,
    i: int,
)
    requires
        picks(picked, room, dest, frames),
        0 <= i < frames.len(),
        frames[i].0 != dest,
        frames[i].1,
        room.clients.contains_key(frames[i].0),
        !room.clients[frames[i].0].muted,
        !room.clients[frames[i].0].server_muted,
        !room.clients[dest].blocked.contains(frames[i].0),
    ensures
        exists|a: int| 0 <= a < picked.len() && picked[a] == i,
        picked.no_duplicates(),
{
    assert(is_source(room, dest, frames, i));
}

/// A block concerns the blocker alone: whatever `id` blocks, what any other
/// member hears stays the same, that of the blocked peer too.
pub proof fn lemma_block_is_one_sided(
    room: RoomView,
    id: ClientId,
    target: ClientId,
    dest: ClientId,
    frames: Seq<(ClientId, bool)>,
    i: int,
)
    requires
        dest != id,
    ensures
        is_source(room.with_block(id, target), dest, frames, i) == is_source(
            room,
            dest,
            frames,
            i,
        ),
{
}

/// A blocked peer is not heard, and is heard again once unblocked exactly if it
/// would have been heard without the block.
pub proof fn lemma_block_silences(
    room: RoomView,
    id: ClientId,
    target: ClientId,
    frames: Seq<(ClientId, bool)>,
    i: int,
)
    requires
        room.clients.contains_key(id),
        0 <= i < frames.len(),
        frames[i].0 == target,
    ensures
        !is_source(room.with_block(id, target), id, frames, i),
        is_source(room.with_block(id, target).without_block(id, target), id, frames, i) == (target
            != id && audible(room, target, frames[i].1)),
{
}

/// A server-muted client is heard by nobody, whatever its own mute flag says.
pub proof fn lemma_server_mute_overrides(
    room: RoomView,
    id: ClientId,
    muted: bool,
    voice: bool,
)
    ensures
        !audible(room.with_server_muted(id, true).with_muted(id, muted), id, voice),
        !audible(room.with_muted(id, muted).with_server_muted(id, true), id, voice),
{
}

/// Each client gets at most one stream, however many speak.
pub proof fn lemma_one_stream_each<F>(
    plan: Seq<(ClientId, Vec<usize>)>,
    mixer: MixerView<F>,
    room: RoomView,
    frames: Seq<(ClientId, bool)>,
    a: int,
    b: int,
)
    requires
        plans(plan, mixer, room, frames),
        0 <= a < plan.len(),
        0 <= b < plan.len(),
        plan[a].0 == plan[b].0,
    ensures
        a == b,
{
}

/// Where nobody speaks nothing is sent.
pub proof fn lemma_silence_sends_nothing<F>(
    plan: Seq<(ClientId, Vec<usize>)>,
    mixer: MixerView<F>,
    room: RoomView,
    frames: Seq<(ClientId, bool)>,
)
    requires
        plans(plan, mixer, room, frames),
        forall|i: int| 0 <= i < frames.len() ==> !(#[trigger] frames[i]).1,
    ensures
        plan.len() == 0,
{
    if plan.len() > 0 {
        let dest = plan[0].0;
        assert(gets_mix(mixer, room, dest, frames));
        let i = choose|i: int| is_source(room, dest, frames, i);
        assert(!frames[i].1);
    }
}

/// The headers sent to a client are numbered one after the other, modulo 2^32,
/// and each timestamp is one frame later than the one before.
pub proof fn lemma_headers_count_up<F>(mixer: MixerView<F>, id: ClientId)
    ensures
        ({
            let now = frame_header_of(id, mixer.clients[id].out_sequence);
            let next = frame_header_of(id, mixer.stamped(id).clients[id].out_sequence);
            &&& next.sequence == (now.sequence + 1) % 0x1_0000_0000
            &&& next.timestamp == (now.timestamp + FRAME_SIZE) % 0x1_0000_0000
        }),
{
    lemma_next_timestamp(id, mixer.clients[id].out_sequence);
}

} // verus!
