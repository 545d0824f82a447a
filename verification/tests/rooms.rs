use std::collections::HashSet;

use voicemcu::server::config::ServerConfig;
use voicemcu::server::room::{ClientState, Room, Server};

#[test]
fn new_room_has_no_host() {
    let room = Room::new();
    assert_eq!(room.host, 0);
}

#[test]
fn try_claim_host_succeeds_when_no_host() {
    let mut room = Room::new();
    assert!(room.try_claim_host(42));
    assert_eq!(room.host, 42);
}

#[test]
fn try_claim_host_fails_when_host_exists() {
    let mut room = Room::new();
    room.host = 1;
    assert!(!room.try_claim_host(2));
    assert_eq!(room.host, 1);
}

#[test]
fn try_claim_host_only_one_winner() {
    let mut room = Room::new();
    let first = room.try_claim_host(10);
    let second = room.try_claim_host(20);
    assert!(first);
    assert!(!second);
    assert_eq!(room.host, 10);
}

#[test]
fn host_recovery_after_empty_room() {
    let mut room = Room::new();
    room.host = 1;
    // Last client leaves -- transfer_host_from sets host to 0
    let result = room.transfer_host_from(1);
    assert!(result.is_none());
    assert_eq!(room.host, 0);
    // New client joins the still-existing room and claims host
    assert!(room.try_claim_host(5));
    assert_eq!(room.host, 5);
}

#[test]
fn transfer_host_ignores_non_host() {
    let mut room = Room::new();
    room.host = 1;
    let result = room.transfer_host_from(99);
    assert!(result.is_none());
    assert_eq!(room.host, 1);
}

#[test]
fn next_id_is_nonzero_and_sequential() {
    let mut server = Server::new(ServerConfig::default());
    let a = server.next_id();
    let b = server.next_id();
    assert_ne!(a, 0, "client IDs must never be 0");
    assert_eq!(b, a.wrapping_add(1));
}

#[test]
fn next_id_is_unpredictable_across_instances() {
    let mut s1 = Server::new(ServerConfig::default());
    let mut s2 = Server::new(ServerConfig::default());
    let id1 = s1.next_id();
    let id2 = s2.next_id();
    // Extremely unlikely (1 in 2^64) for two RandomState seeds to match
    assert_ne!(id1, id2, "IDs should differ across server instances");
}

fn room_of(ids: &[u64]) -> Room {
    let mut room = Room::new();
    for id in ids {
        room.add(*id, ClientState::new(format!("client {id}")));
    }
    room
}

#[test]
fn host_goes_to_the_lowest_number() {
    let mut room = room_of(&[12, 7, 30]);
    room.host = 99;
    assert_eq!(room.transfer_host_from(99), Some(7));
    assert_eq!(room.host, 7);
    assert!(room.is_host(7));
    assert!(!room.is_host(12));
}

#[test]
fn members_come_and_go() {
    let mut room = room_of(&[1, 2]);
    assert_eq!(room.len(), 2);
    assert!(room.is_occupied());
    assert_eq!(room.member(2).expect("member").display_name, "client 2");
    assert!(room.remove(2));
    assert!(!room.remove(2));
    assert!(room.member(2).is_none());
    assert_eq!(room.member_ids(), vec![1]);
    assert!(room.remove(1));
    assert!(!room.is_occupied());
    assert_eq!(room.len(), 0);
}

#[test]
fn every_member_is_listed_once() {
    let room = room_of(&[5, 6, 7, 8]);
    let mut ids = room.member_ids();
    ids.sort();
    assert_eq!(ids, vec![5, 6, 7, 8]);
    let mut named: Vec<(u64, String)> = room
        .members()
        .into_iter()
        .map(|(id, state)| (id, state.display_name))
        .collect();
    named.sort();
    assert_eq!(named[3], (8, "client 8".to_string()));
    assert_eq!(named.len(), 4);
}

#[test]
fn flags_and_blocks_are_set_per_member() {
    let mut room = room_of(&[1, 2]);
    assert!(room.set_muted(1, true));
    assert!(room.set_server_muted(2, true));
    assert!(room.block(1, 2));
    assert!(!room.set_muted(9, true));
    assert!(!room.set_server_muted(9, true));
    assert!(!room.block(9, 1));
    assert!(!room.unblock(9, 1));
    let one = room.member(1).expect("one");
    let two = room.member(2).expect("two");
    assert!(one.muted && !one.server_muted);
    assert!(!two.muted && two.server_muted);
    assert_eq!(one.blocked_peers, HashSet::from([2]));
    assert!(two.blocked_peers.is_empty());
    assert!(room.unblock(1, 2));
    assert!(room.member(1).expect("one").blocked_peers.is_empty());
}

#[test]
fn a_seed_of_zero_starts_at_one() {
    let mut server = Server::with_seed(ServerConfig::default(), 0);
    assert_eq!(server.next_id(), 1);
    assert_eq!(server.next_id(), 2);
    let mut last = Server::with_seed(ServerConfig::default(), u64::MAX);
    assert_eq!(last.next_id(), u64::MAX);
    assert_eq!(last.next_id(), 0);
}

#[test]
fn cleanup_drops_empty_rooms_only() {
    let mut server = Server::with_seed(ServerConfig::default(), 1);
    server.put_room("full", room_of(&[3]));
    server.put_room("empty", Room::new());
    server.remove_empty_rooms();
    let listing = server.rooms_and_members();
    assert_eq!(listing, vec![("full".to_string(), vec![3])]);
    assert!(server.take_room("empty").is_none());
    assert_eq!(server.take_room("full").expect("room").len(), 1);
    assert!(server.take_room("full").is_none());
}
