//! Rooms, their members and the server's table of rooms.

use std::collections::HashSet;
use std::hash::BuildHasher;
use std::hash::RandomState;

use dashmap::DashMap;
use vstd::prelude::*;
use vstd::string::*;

use crate::common::protocol::ClientId;
use crate::server::config::{ServerConfig, ServerConfigView};

verus! {

broadcast use vstd::std_specs::hash::group_hash_axioms;

/// What the room tasks know of a member: the name others see, whether the
/// member or the host muted it, and whom it refuses to hear.
pub struct ClientState {
    pub display_name: String,
    pub muted: bool,
    pub server_muted: bool,
    pub blocked_peers: HashSet<ClientId>,
}

#[verifier::ext_equal]
pub struct MemberView {
    pub display_name: Seq<char>,
    pub muted: bool,
    pub server_muted: bool,
    pub blocked: Set<ClientId>,
}

impl View for ClientState {
    type V = MemberView;

    open spec fn view(&self) -> MemberView {
        MemberView {
            display_name: self.display_name@,
            muted: self.muted,
            server_muted: self.server_muted,
            blocked: self.blocked_peers@,
        }
    }
}

impl MemberView {
    /// A member that just joined: heard, and blocking nobody.
    pub open spec fn fresh(display_name: Seq<char>) -> Self {
        MemberView { display_name, muted: false, server_muted: false, blocked: Set::empty() }
    }
}

fn copy_set(from: &HashSet<ClientId>) -> (r: HashSet<ClientId>)
    ensures
        r@ == from@,
{
    let mut out: HashSet<ClientId> = HashSet::new();
    for id in it: from.iter()
        invariant
            it.seq().unref().to_set() == from@,
            out@ == it.seq().unref().take(it.index() as int).to_set(),
            it.index() == it.seq().len() ==> out@ == from@,
    {
        let ghost ids = it.seq().unref();
        let ghost k = it.index() as int;
        out.insert(*id);
        proof {
            assert(ids.take(k + 1) =~= ids.take(k).push(ids[k]));
            assert(out@ =~= ids.take(k + 1).to_set()) by {
                assert forall|x: ClientId| out@.contains(x) == ids.take(
                    k + 1,
                ).to_set().contains(x) by {
                    if ids.take(k).contains(x) {
                        let j = choose|j: int| 0 <= j < k && ids.take(k)[j] == x;
                        assert(ids.take(k + 1)[j] == x);
                    }
                    assert(ids.take(k + 1)[k] == ids[k]);
                }
            }
            assert(k + 1 == ids.len() ==> ids.take(k + 1) =~= ids);
        }
    }
    out
}

impl Clone for ClientState {
    fn clone(&self) -> (r: Self)
        ensures
            r@ == self@,
    {
        ClientState {
            display_name: self.display_name.clone(),
            muted: self.muted,
            server_muted: self.server_muted,
            blocked_peers: copy_set(&self.blocked_peers),
        }
    }
}

impl ClientState {
    pub fn new(display_name: String) -> (r: Self)
        ensures
            r@ == MemberView::fresh(display_name@),
    {
        ClientState {
            display_name,
            muted: false,
            server_muted: false,
            blocked_peers: HashSet::new(),
        }
    }
}

/// `dashmap::DashMap`, whose contents are known by name only.
#[verifier::external_type_specification]
#[verifier::external_body]
#[verifier::reject_recursive_types(K)]
#[verifier::reject_recursive_types(V)]
#[verifier::reject_recursive_types(S)]
pub struct ExDashMap<K, V, S>(DashMap<K, V, S>);

/// The entries of a member table.
pub uninterp spec fn clients_in(m: DashMap<ClientId, ClientState>) -> Map<ClientId, ClientState>;

/// `DashMap::new` gives a table without entries.
#[verifier::external_body]
fn new_clients() -> (r: DashMap<ClientId, ClientState>)
    ensures
        clients_in(r).dom() == Set::<ClientId>::empty(),
{
    DashMap::new()
}

/// `DashMap::len` counts the entries.
#[verifier::external_body]
fn count_clients(m: &DashMap<ClientId, ClientState>) -> (r: usize)
    ensures
        r == clients_in(*m).dom().len(),
{
    m.len()
}

/// `DashMap::is_empty` tells whether there is no entry.
#[verifier::external_body]
fn no_clients(m: &DashMap<ClientId, ClientState>) -> (r: bool)
    ensures
        r == (clients_in(*m).dom() == Set::<ClientId>::empty()),
{
    m.is_empty()
}

/// `DashMap::insert` binds the key to the value, whatever it was bound to.
#[verifier::external_body]
fn put_client(m: &mut DashMap<ClientId, ClientState>, id: ClientId, state: ClientState)
    ensures
        clients_in(*final(m)) == clients_in(*old(m)).insert(id, state),
{
    m.insert(id, state);
}

/// `DashMap::remove` takes an entry out and hands it over; without one the
/// table stays as it is.
#[verifier::external_body]
fn take_client(m: &mut DashMap<ClientId, ClientState>, id: ClientId) -> (r: Option<ClientState>)
    ensures
        clients_in(*final(m)) == clients_in(*old(m)).remove(id),
        match r {
            Some(state) => clients_in(*old(m)).contains_key(id) && state == clients_in(*old(m))[id],
            None => !clients_in(*old(m)).contains_key(id),
        },
{
    m.remove(&id).map(|entry| entry.1)
}

/// `DashMap::get` finds an entry; a copy of it leaves the table.
#[verifier::external_body]
fn read_client(m: &DashMap<ClientId, ClientState>, id: ClientId) -> (r: Option<ClientState>)
    ensures
        match r {
            Some(state) => clients_in(*m).contains_key(id) && state@ == clients_in(*m)[id]@,
            None => !clients_in(*m).contains_key(id),
        },
{
    m.get(&id).map(|entry| entry.value().clone())
}

/// The members of a table.
pub open spec fn members_in(m: DashMap<ClientId, ClientState>) -> Map<ClientId, MemberView> {
    clients_in(m).map_values(|c: ClientState| c@)
}

/// `entries` holds a copy of each member, once, in some order.
pub open spec fn enumerates(
    entries: Seq<(ClientId, ClientState)>,
    members: Map<ClientId, MemberView>,
) -> bool {
    &&& forall|i: int, j: int|
        0 <= i < j < entries.len() ==> (#[trigger] entries[i]).0 != (#[trigger] entries[j]).0
    &&& forall|i: int|
        #![trigger entries[i]]
        0 <= i < entries.len() ==> members.contains_key(entries[i].0) && entries[i].1@
            == members[entries[i].0]
    &&& forall|id: ClientId| #[trigger]
        members.contains_key(id) ==> exists|i: int| 0 <= i < entries.len() && entries[i].0 == id
}

/// `DashMap::iter` visits each entry once, in an order that is not fixed.
#[verifier::external_body]
fn list_clients(m: &DashMap<ClientId, ClientState>) -> (r: Vec<(ClientId, ClientState)>)
    ensures
        enumerates(r@, members_in(*m)),
{
    m.iter().map(|entry| (*entry.key(), entry.value().clone())).collect()
}

/// `ids` holds each number of a set once, in some order.
pub open spec fn lists(ids: Seq<ClientId>, set: Set<ClientId>) -> bool {
    &&& ids.no_duplicates()
    &&& forall|id: ClientId| #[trigger] set.contains(id) <==> ids.contains(id)
}

/// One conversation: its members and who hosts it. Host 0 stands for none.
pub struct Room {
    pub clients: DashMap<ClientId, ClientState>,
    pub host: ClientId,
}

#[verifier::ext_equal]
pub struct RoomView {
    pub clients: Map<ClientId, MemberView>,
    pub host: ClientId,
}

/// `m` is the smallest number of a set.
pub open spec fn is_lowest(ids: Set<ClientId>, m: ClientId) -> bool {
    &&& ids.contains(m)
    &&& forall|id: ClientId| #[trigger] ids.contains(id) ==> m <= id
}

/// The smallest number of a set, or 0 if there is none.
pub open spec fn lowest_or_zero(ids: Set<ClientId>) -> ClientId {
    if exists|m: ClientId| is_lowest(ids, m) {
        choose|m: ClientId| is_lowest(ids, m)
    } else {
        0
    }
}

impl RoomView {
    pub open spec fn empty() -> Self {
        RoomView { clients: Map::empty(), host: 0 }
    }

    /// The room after `id` asked for the host role: it gets a role that nobody has.
    pub open spec fn claimed(self, id: ClientId) -> Self {
        RoomView { host: if self.host == 0 { id } else { self.host }, ..self }
    }

    /// The room after `departing` gave its role up, if it had it: the remaining
    /// member with the lowest number takes over.
    pub open spec fn transferred(self, departing: ClientId) -> Self {
        RoomView {
            host: if self.host == departing {
                lowest_or_zero(self.clients.dom())
            } else {
                self.host
            },
            ..self
        }
    }

    pub open spec fn with_member(self, id: ClientId, member: MemberView) -> Self {
        RoomView { clients: self.clients.insert(id, member), ..self }
    }

    pub open spec fn without_member(self, id: ClientId) -> Self {
        RoomView { clients: self.clients.remove(id), ..self }
    }

    /// The room with a member's own mute flag set; unchanged without the member.
    pub open spec fn with_muted(self, id: ClientId, muted: bool) -> Self {
        if self.clients.contains_key(id) {
            self.with_member(id, MemberView { muted, ..self.clients[id] })
        } else {
            self
        }
    }

    /// The room with the host's mute flag on a member set.
    pub open spec fn with_server_muted(self, id: ClientId, server_muted: bool) -> Self {
        if self.clients.contains_key(id) {
            self.with_member(id, MemberView { server_muted, ..self.clients[id] })
        } else {
            self
        }
    }

    /// The room with `target` added to a member's block list.
    pub open spec fn with_block(self, id: ClientId, target: ClientId) -> Self {
        if self.clients.contains_key(id) {
            let member = self.clients[id];
            self.with_member(id, MemberView { blocked: member.blocked.insert(target), ..member })
        } else {
            self
        }
    }

    /// The room with `target` taken off a member's block list.
    pub open spec fn without_block(self, id: ClientId, target: ClientId) -> Self {
        if self.clients.contains_key(id) {
            let member = self.clients[id];
            self.with_member(id, MemberView { blocked: member.blocked.remove(target), ..member })
        } else {
            self
        }
    }
}

impl View for Room {
    type V = RoomView;

    open spec fn view(&self) -> RoomView {
        RoomView { clients: members_in(self.clients), host: self.host }
    }
}

impl Room {
    /// A room without members or host.
    pub fn new() -> (r: Self)
        ensures
            r@ == RoomView::empty(),
    {
        let r = Room { clients: new_clients(), host: 0 };
        assert(r@.clients =~= Map::empty());
        r
    }

    pub fn is_host(&self, client_id: ClientId) -> (r: bool)
        ensures
            r == (self@.host == client_id),
    {
        self.host == client_id
    }

    /// Takes the host role if nobody has it.
    pub fn try_claim_host(&mut self, client_id: ClientId) -> (r: bool)
        ensures
            r == (old(self)@.host == 0),
            final(self)@ == old(self)@.claimed(client_id),
    {
        if self.host == 0 {
            self.host = client_id;
            true
        } else {
            false
        }
    }

    /// Passes the host role of `departing` on to the remaining member with the
    /// lowest number and returns it. Nothing happens if `departing` is not the
    /// host; without members the room is left hostless.
    pub fn transfer_host_from(&mut self, departing: ClientId) -> (r: Option<ClientId>)
        ensures
            final(self)@ == old(self)@.transferred(departing),
            r == (if old(self)@.host == departing && final(self)@.host != 0 {
                Some(final(self)@.host)
            } else {
                None
            }),
    {
        if self.host != departing {
            return None;
        }
        let ids = self.member_ids();
        let mut new_host: ClientId = 0;
        let mut i: usize = 0;
        while i < ids.len()
            invariant
                i <= ids@.len(),
                i == 0 ==> new_host == 0,
                i > 0 ==> ids@.take(i as int).contains(new_host),
                forall|j: int| 0 <= j < i ==> new_host <= #[trigger] ids@[j],
            decreases ids@.len() - i,
        {
            let ghost before = ids@.take(i as int);
            let ghost was = new_host;
            if i == 0 || ids[i] < new_host {
                new_host = ids[i];
            }
            i = i + 1;
            proof {
                let now = ids@.take(i as int);
                assert(now[i - 1] == ids@[i - 1]);
                if new_host == was && i > 1 {
                    let j = choose|j: int| 0 <= j < before.len() && before[j] == was;
                    assert(now[j] == was);
                }
            }
        }
        proof {
            let set = self@.clients.dom();
            assert(ids@.take(ids@.len() as int) =~= ids@);
            assert forall|id: ClientId| #[trigger] set.contains(id) implies ids@.contains(id) by {}
            if ids@.len() > 0 {
                assert(set.contains(new_host));
                assert forall|id: ClientId| #[trigger] set.contains(id) implies new_host <= id by {
                    assert(ids@.contains(id));
                }
                assert(is_lowest(set, new_host));
                let m = lowest_or_zero(set);
                assert(is_lowest(set, m));
            } else if exists|m: ClientId| is_lowest(set, m) {
                let m = choose|m: ClientId| is_lowest(set, m);
                assert(ids@.contains(m));
            }
        }
        self.host = new_host;
        if new_host == 0 {
            None
        } else {
            Some(new_host)
        }
    }

    /// How many members there are.
    pub fn len(&self) -> (r: usize)
        ensures
            r == self@.clients.dom().len(),
    {
        assert(self@.clients.dom() =~= clients_in(self.clients).dom());
        count_clients(&self.clients)
    }

    /// Whether anybody is in the room.
    pub fn is_occupied(&self) -> (r: bool)
        ensures
            r == !(self@.clients.dom() == Set::<ClientId>::empty()),
    {
        assert(self@.clients.dom() =~= clients_in(self.clients).dom());
        !no_clients(&self.clients)
    }

    /// A copy of a member's state.
    pub fn member(&self, id: ClientId) -> (r: Option<ClientState>)
        ensures
            match r {
                Some(state) => self@.clients.contains_key(id) && state@ == self@.clients[id],
                None => !self@.clients.contains_key(id),
            },
    {
        read_client(&self.clients, id)
    }

    /// Copies of all members, in some order.
    pub fn members(&self) -> (r: Vec<(ClientId, ClientState)>)
        ensures
            enumerates(r@, self@.clients),
    {
        list_clients(&self.clients)
    }

    /// The numbers of all members, in some order.
    pub fn member_ids(&self) -> (r: Vec<ClientId>)
        ensures
            lists(r@, self@.clients.dom()),
    {
        let entries = list_clients(&self.clients);
        let mut ids: Vec<ClientId> = Vec::new();
        let mut i: usize = 0;
        while i < entries.len()
            invariant
                i <= entries@.len(),
                ids@.len() == i,
                forall|j: int| 0 <= j < i ==> #[trigger] ids@[j] == entries@[j].0,
            decreases entries@.len() - i,
        {
            ids.push(entries[i].0);
            i = i + 1;
        }
        proof {
            let set = self@.clients.dom();
            assert forall|id: ClientId| #[trigger] set.contains(id) <==> ids@.contains(id) by {
                if set.contains(id) {
                    assert(self@.clients.contains_key(id));
                    let k = choose|k: int| 0 <= k < entries@.len() && entries@[k].0 == id;
                    assert(ids@[k] == id);
                }
                if ids@.contains(id) {
                    let k = choose|k: int| 0 <= k < ids@.len() && ids@[k] == id;
                    assert(entries@[k].0 == id);
                }
            }
        }
        ids
    }

    /// Puts a member in, in place of one with the same number.
    pub fn add(&mut self, id: ClientId, state: ClientState)
        ensures
            final(self)@ == old(self)@.with_member(id, state@),
    {
        put_client(&mut self.clients, id, state);
        assert(self@.clients =~= old(self)@.clients.insert(id, state@));
    }

    /// Takes a member out; tells whether it was there.
    pub fn remove(&mut self, id: ClientId) -> (r: bool)
        ensures
            r == old(self)@.clients.contains_key(id),
            final(self)@ == old(self)@.without_member(id),
    {
        let taken = take_client(&mut self.clients, id);
        assert(self@.clients =~= old(self)@.clients.remove(id));
        taken.is_some()
    }

    pub fn set_muted(&mut self, id: ClientId, muted: bool) -> (r: bool)
        ensures
            r == old(self)@.clients.contains_key(id),
            final(self)@ == old(self)@.with_muted(id, muted),
    {
        match take_client(&mut self.clients, id) {
            Some(state) => {
                let mut state = state;
                state.muted = muted;
                put_client(&mut self.clients, id, state);
                assert(self@.clients =~= old(self)@.with_muted(id, muted).clients);
                true
            },
            None => {
                assert(self@.clients =~= old(self)@.clients);
                false
            },
        }
    }

    pub fn set_server_muted(&mut self, id: ClientId, server_muted: bool) -> (r: bool)
        ensures
            r == old(self)@.clients.contains_key(id),
            final(self)@ == old(self)@.with_server_muted(id, server_muted),
    {
        match take_client(&mut self.clients, id) {
            Some(state) => {
                let mut state = state;
                state.server_muted = server_muted;
                put_client(&mut self.clients, id, state);
                assert(self@.clients =~= old(self)@.with_server_muted(id, server_muted).clients);
                true
            },
            None => {
                assert(self@.clients =~= old(self)@.clients);
                false
            },
        }
    }

    pub fn block(&mut self, id: ClientId, target: ClientId) -> (r: bool)
        ensures
            r == old(self)@.clients.contains_key(id),
            final(self)@ == old(self)@.with_block(id, target),
    {
        match take_client(&mut self.clients, id) {
            Some(state) => {
                let mut state = state;
                state.blocked_peers.insert(target);
                put_client(&mut self.clients, id, state);
                assert(self@.clients =~= old(self)@.with_block(id, target).clients);
                true
            },
            None => {
                assert(self@.clients =~= old(self)@.clients);
                false
            },
        }
    }

    pub fn unblock(&mut self, id: ClientId, target: ClientId) -> (r: bool)
        ensures
            r == old(self)@.clients.contains_key(id),
            final(self)@ == old(self)@.without_block(id, target),
    {
        match take_client(&mut self.clients, id) {
            Some(state) => {
                let mut state = state;
                state.blocked_peers.remove(&target);
                put_client(&mut self.clients, id, state);
                assert(self@.clients =~= old(self)@.without_block(id, target).clients);
                true
            },
            None => {
                assert(self@.clients =~= old(self)@.clients);
                false
            },
        }
    }
}

/// The entries of a room table, by room code.
pub uninterp spec fn rooms_in(m: DashMap<String, Room>) -> Map<Seq<char>, Room>;

/// `DashMap::new` gives a table without entries.
#[verifier::external_body]
fn new_rooms() -> (r: DashMap<String, Room>)
    ensures
        rooms_in(r).dom() == Set::<Seq<char>>::empty(),
{
    DashMap::new()
}

/// `DashMap::insert` binds the code to the room, whatever it was bound to.
#[verifier::external_body]
fn put_room(m: &mut DashMap<String, Room>, code: String, room: Room)
    ensures
        rooms_in(*final(m)) == rooms_in(*old(m)).insert(code@, room),
{
    m.insert(code, room);
}

/// `DashMap::remove` takes an entry out and hands it over; without one the
/// table stays as it is.
#[verifier::external_body]
fn take_room(m: &mut DashMap<String, Room>, code: &str) -> (r: Option<Room>)
    ensures
        rooms_in(*final(m)) == rooms_in(*old(m)).remove(code@),
        match r {
            Some(room) => rooms_in(*old(m)).contains_key(code@) && room == rooms_in(*old(m))[code@],
            None => !rooms_in(*old(m)).contains_key(code@),
        },
{
    m.remove(code).map(|entry| entry.1)
}

/// The rooms that have a member.
pub open spec fn occupied(rooms: Map<Seq<char>, Room>) -> Map<Seq<char>, Room> {
    Map::new(
        |code: Seq<char>|
            rooms.contains_key(code) && rooms[code]@.clients.dom() != Set::<ClientId>::empty(),
        |code: Seq<char>| rooms[code],
    )
}

/// `DashMap::retain` with [`Room::is_occupied`] keeps exactly the entries for
/// which it answers yes.
#[verifier::external_body]
fn keep_occupied(m: &mut DashMap<String, Room>)
    ensures
        rooms_in(*final(m)) == occupied(rooms_in(*old(m))),
{
    m.retain(|_code, room| room.is_occupied());
}

/// The rooms of a table.
pub open spec fn room_views_in(m: DashMap<String, Room>) -> Map<Seq<char>, RoomView> {
    rooms_in(m).map_values(|r: Room| r@)
}

/// `listing` names each room once, in some order, with its members' numbers.
pub open spec fn lists_rooms(
    listing: Seq<(String, Vec<ClientId>)>,
    rooms: Map<Seq<char>, RoomView>,
) -> bool {
    &&& forall|i: int, j: int|
        0 <= i < j < listing.len() ==> (#[trigger] listing[i]).0@ != (#[trigger] listing[j]).0@
    &&& forall|i: int|
        #![trigger listing[i]]
        0 <= i < listing.len() ==> rooms.contains_key(listing[i].0@) && lists(
            listing[i].1@,
            rooms[listing[i].0@].clients.dom(),
        )
    &&& forall|code: Seq<char>| #[trigger]
        rooms.contains_key(code) ==> exists|i: int|
            0 <= i < listing.len() && (#[trigger] listing[i]).0@ == code
}

/// `DashMap::iter` visits each room once, in an order that is not fixed; of
/// each room its code and [`Room::member_ids`] are handed out.
#[verifier::external_body]
fn list_rooms(m: &DashMap<String, Room>) -> (r: Vec<(String, Vec<ClientId>)>)
    ensures
        lists_rooms(r@, room_views_in(*m)),
{
    m.iter().map(|entry| (entry.key().clone(), entry.value().member_ids())).collect()
}

/// `RandomState::new` makes a hasher with keys of its own. Nothing is claimed
/// of it: the keys are random.
#[verifier::external_body]
fn random_hasher() -> (r: RandomState) {
    RandomState::new()
}

/// `BuildHasher::hash_one` of the number zero. Nothing is claimed of the result:
/// it rests on the hasher's keys.
#[verifier::external_body]
fn hash_of_zero(hasher: &RandomState) -> (r: u64) {
    hasher.hash_one(0u64)
}

/// All rooms, the settings, and the number that the next client gets.
pub struct Server {
    pub rooms: DashMap<String, Room>,
    pub config: ServerConfig,
    pub next_client_id: ClientId,
}

#[verifier::ext_equal]
pub struct ServerView {
    pub rooms: Map<Seq<char>, RoomView>,
    pub config: ServerConfigView,
    pub next_id: ClientId,
}

impl View for Server {
    type V = ServerView;

    open spec fn view(&self) -> ServerView {
        ServerView {
            rooms: room_views_in(self.rooms),
            config: self.config@,
            next_id: self.next_client_id,
        }
    }
}

impl ServerView {
    pub open spec fn with_room(self, code: Seq<char>, room: RoomView) -> Self {
        ServerView { rooms: self.rooms.insert(code, room), ..self }
    }

    /// The number that follows `id`, modulo 2^64.
    pub open spec fn following(id: ClientId) -> ClientId {
        ((id + 1) % 0x1_0000_0000_0000_0000) as u64
    }

    /// The server without its empty rooms.
    pub open spec fn cleaned_up(self) -> Self {
        ServerView {
            rooms: Map::new(
                |code: Seq<char>|
                    self.rooms.contains_key(code) && self.rooms[code].clients.dom()
                        != Set::<ClientId>::empty(),
                |code: Seq<char>| self.rooms[code],
            ),
            ..self
        }
    }
}

impl Server {
    /// A server without rooms whose first client number is drawn at random.
    pub fn new(config: ServerConfig) -> (r: Self)
        ensures
            r@.rooms == Map::<Seq<char>, RoomView>::empty(),
            r@.config == config@,
            r@.next_id != 0,
    {
        let hasher = random_hasher();
        Server::with_seed(config, hash_of_zero(&hasher))
    }

    /// A server whose first client number is `seed`, or 1 in place of 0, which
    /// stands for "no host".
    pub fn with_seed(config: ServerConfig, seed: u64) -> (r: Self)
        ensures
            r@.rooms == Map::<Seq<char>, RoomView>::empty(),
            r@.config == config@,
            r@.next_id == (if seed == 0 { 1 } else { seed }),
    {
        let start: u64 = if seed == 0 {
            1
        } else {
            seed
        };
        let r = Server { rooms: new_rooms(), config, next_client_id: start };
        assert(r@.rooms =~= Map::<Seq<char>, RoomView>::empty());
        r
    }

    /// Hands out the next client number.
    pub fn next_id(&mut self) -> (r: ClientId)
        ensures
            r == old(self)@.next_id,
            final(self)@ == (ServerView {
                next_id: ServerView::following(old(self)@.next_id),
                ..old(self)@
            }),
    {
        let id: u64 = self.next_client_id;
        self.next_client_id = id.wrapping_add(1);
        id
    }

    /// Takes a room out of the table.
    pub fn take_room(&mut self, code: &str) -> (r: Option<Room>)
        ensures
            match r {
                Some(room) => old(self)@.rooms.contains_key(code@) && room@ == old(
                    self,
                )@.rooms[code@] && final(self)@ == (ServerView {
                    rooms: old(self)@.rooms.remove(code@),
                    ..old(self)@
                }),
                None => !old(self)@.rooms.contains_key(code@) && final(self)@ == old(self)@,
            },
    {
        let taken = take_room(&mut self.rooms, code);
        assert(self@.rooms =~= old(self)@.rooms.remove(code@));
        assert(taken is None ==> self@.rooms =~= old(self)@.rooms);
        taken
    }

    /// Puts a room into the table, in place of one with the same code.
    pub fn put_room(&mut self, code: &str, room: Room)
        ensures
            final(self)@ == old(self)@.with_room(code@, room@),
    {
        put_room(&mut self.rooms, code.to_owned(), room);
        assert(self@.rooms =~= old(self)@.rooms.insert(code@, room@));
    }

    /// Drops every room that has no member.
    pub fn remove_empty_rooms(&mut self)
        ensures
            final(self)@ == old(self)@.cleaned_up(),
    {
        keep_occupied(&mut self.rooms);
        assert(self@.rooms =~= old(self)@.cleaned_up().rooms);
    }

    /// Every room's code and the numbers of its members, in some order.
    pub fn rooms_and_members(&self) -> (r: Vec<(String, Vec<ClientId>)>)
        ensures
            lists_rooms(r@, self@.rooms),
    {
        list_rooms(&self.rooms)
    }
}

} // verus!
