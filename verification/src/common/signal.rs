//! Byte form of signaling messages: encoding, decoding and length framing.

use vstd::prelude::*;

use crate::common::bytes::{
    be_bytes, be_value, lemma_be_bytes_len, lemma_be_round_trip, lemma_byte_room_values,
    push_be_u32, take_be_u32,
};
use crate::common::error::VoiceError;
use crate::common::protocol::{
    info_views, lemma_four_bytes, ClientInfo, ClientInfoView, SignalMessage, SignalView,
    MAX_SIGNAL_LEN,
};
use crate::common::wire::{
    bool_bytes, lemma_bool_round_trip, lemma_string_round_trip, lemma_u32_round_trip,
    lemma_u64_round_trip, lemma_usize_round_trip, put_bool, put_str, put_u32, put_u64, put_usize,
    read_bool, read_string, read_u32, read_u64, read_usize, string_bytes, take_bool, take_string,
    take_u32, take_u64, take_usize, varint, WireFault,
};

verus! {

// ---------------------------------------------------------------------------
// The format
// ---------------------------------------------------------------------------

/// One roster entry: its fields in order.
pub open spec fn client_bytes(c: ClientInfoView) -> Seq<u8> {
    varint(c.client_id as nat) + (string_bytes(c.display_name) + (bool_bytes(c.muted) + (bool_bytes(
        c.server_muted,
    ) + bool_bytes(c.is_host))))
}

/// Roster entries one after the other.
pub open spec fn clients_bytes(clients: Seq<ClientInfoView>) -> Seq<u8>
    decreases clients.len(),
{
    if clients.len() == 0 {
        Seq::empty()
    } else {
        client_bytes(clients[0]) + clients_bytes(clients.skip(1))
    }
}

/// The number that stands for the kind of message.
pub open spec fn signal_tag(msg: SignalView) -> nat {
    match msg {
        SignalView::Join { .. } => 0,
        SignalView::Leave => 1,
        SignalView::Mute { .. } => 2,
        SignalView::Kick { .. } => 3,
        SignalView::ServerMute { .. } => 4,
        SignalView::BlockPeer { .. } => 5,
        SignalView::UnblockPeer { .. } => 6,
        SignalView::Joined { .. } => 7,
        SignalView::RoomInfo { .. } => 8,
        SignalView::ClientJoined { .. } => 9,
        SignalView::ClientLeft { .. } => 10,
        SignalView::YouAreHost => 11,
        SignalView::Kicked { .. } => 12,
        SignalView::PeerMuted { .. } => 13,
        SignalView::Error { .. } => 14,
    }
}

/// The fields of a message, in order.
pub open spec fn signal_body(msg: SignalView) -> Seq<u8> {
    match msg {
        SignalView::Join { room_code, display_name } => string_bytes(room_code) + string_bytes(
            display_name,
        ),
        SignalView::Leave => Seq::empty(),
        SignalView::Mute { muted } => bool_bytes(muted),
        SignalView::Kick { target } => varint(target as nat),
        SignalView::ServerMute { target, muted } => varint(target as nat) + bool_bytes(muted),
        SignalView::BlockPeer { target } => varint(target as nat),
        SignalView::UnblockPeer { target } => varint(target as nat),
        SignalView::Joined { client_id } => varint(client_id as nat),
        SignalView::RoomInfo { clients } => varint(clients.len()) + clients_bytes(clients),
        SignalView::ClientJoined { client_id, display_name } => varint(client_id as nat)
            + string_bytes(display_name),
        SignalView::ClientLeft { client_id } => varint(client_id as nat),
        SignalView::YouAreHost => Seq::empty(),
        SignalView::Kicked { reason } => string_bytes(reason),
        SignalView::PeerMuted { client_id, muted, by_server } => varint(client_id as nat) + (
        bool_bytes(muted) + bool_bytes(by_server)),
        SignalView::Error { message } => string_bytes(message),
    }
}

/// A message is its tag followed by its fields.
pub open spec fn signal_bytes(msg: SignalView) -> Seq<u8> {
    varint(signal_tag(msg)) + signal_body(msg)
}

pub open spec fn read_client(bytes: Seq<u8>) -> Result<(ClientInfoView, Seq<u8>), WireFault> {
    match read_u64(bytes) {
        Err(fault) => Err(fault),
        Ok((client_id, b1)) => match read_string(b1) {
            Err(fault) => Err(fault),
            Ok((display_name, b2)) => match read_bool(b2) {
                Err(fault) => Err(fault),
                Ok((muted, b3)) => match read_bool(b3) {
                    Err(fault) => Err(fault),
                    Ok((server_muted, b4)) => match read_bool(b4) {
                        Err(fault) => Err(fault),
                        Ok((is_host, b5)) => Ok(
                            (
                                ClientInfoView {
                                    client_id: client_id as u64,
                                    display_name,
                                    muted,
                                    server_muted,
                                    is_host,
                                },
                                b5,
                            ),
                        ),
                    },
                },
            },
        },
    }
}

pub open spec fn read_clients(bytes: Seq<u8>, n: nat) -> Result<
    (Seq<ClientInfoView>, Seq<u8>),
    WireFault,
>
    decreases n,
{
    if n == 0 {
        Ok((Seq::empty(), bytes))
    } else {
        match read_client(bytes) {
            Err(fault) => Err(fault),
            Ok((first, rest)) => match read_clients(rest, (n - 1) as nat) {
                Err(fault) => Err(fault),
                Ok((others, tail)) => Ok((seq![first] + others, tail)),
            },
        }
    }
}

pub open spec fn read_roster(bytes: Seq<u8>) -> Result<
    (Seq<ClientInfoView>, Seq<u8>),
    WireFault,
> {
    match read_usize(bytes) {
        Err(fault) => Err(fault),
        Ok((n, rest)) => read_clients(rest, n),
    }
}

/// The fields of the message with the given tag.
pub open spec fn read_body(tag: nat, bytes: Seq<u8>) -> Result<(SignalView, Seq<u8>), WireFault> {
    if tag == 0 {
        match read_string(bytes) {
            Err(fault) => Err(fault),
            Ok((room_code, b1)) => match read_string(b1) {
                Err(fault) => Err(fault),
                Ok((display_name, b2)) => Ok((SignalView::Join { room_code, display_name }, b2)),
            },
        }
    } else if tag == 1 {
        Ok((SignalView::Leave, bytes))
    } else if tag == 2 {
        match read_bool(bytes) {
            Err(fault) => Err(fault),
            Ok((muted, b1)) => Ok((SignalView::Mute { muted }, b1)),
        }
    } else if tag == 3 {
        match read_u64(bytes) {
            Err(fault) => Err(fault),
            Ok((target, b1)) => Ok((SignalView::Kick { target: target as u64 }, b1)),
        }
    } else if tag == 4 {
        match read_u64(bytes) {
            Err(fault) => Err(fault),
            Ok((target, b1)) => match read_bool(b1) {
                Err(fault) => Err(fault),
                Ok((muted, b2)) => Ok(
                    (SignalView::ServerMute { target: target as u64, muted }, b2),
                ),
            },
        }
    } else if tag == 5 {
        match read_u64(bytes) {
            Err(fault) => Err(fault),
            Ok((target, b1)) => Ok((SignalView::BlockPeer { target: target as u64 }, b1)),
        }
    } else if tag == 6 {
        match read_u64(bytes) {
            Err(fault) => Err(fault),
            Ok((target, b1)) => Ok((SignalView::UnblockPeer { target: target as u64 }, b1)),
        }
    } else if tag == 7 {
        match read_u64(bytes) {
            Err(fault) => Err(fault),
            Ok((client_id, b1)) => Ok((SignalView::Joined { client_id: client_id as u64 }, b1)),
        }
    } else if tag == 8 {
        match read_roster(bytes) {
            Err(fault) => Err(fault),
            Ok((clients, b1)) => Ok((SignalView::RoomInfo { clients }, b1)),
        }
    } else if tag == 9 {
        match read_u64(bytes) {
            Err(fault) => Err(fault),
            Ok((client_id, b1)) => match read_string(b1) {
                Err(fault) => Err(fault),
                Ok((display_name, b2)) => Ok(
                    (SignalView::ClientJoined { client_id: client_id as u64, display_name }, b2),
                ),
            },
        }
    } else if tag == 10 {
        match read_u64(bytes) {
            Err(fault) => Err(fault),
            Ok((client_id, b1)) => Ok((SignalView::ClientLeft { client_id: client_id as u64 }, b1)),
        }
    } else if tag == 11 {
        Ok((SignalView::YouAreHost, bytes))
    } else if tag == 12 {
        match read_string(bytes) {
            Err(fault) => Err(fault),
            Ok((reason, b1)) => Ok((SignalView::Kicked { reason }, b1)),
        }
    } else if tag == 13 {
        match read_u64(bytes) {
            Err(fault) => Err(fault),
            Ok((client_id, b1)) => match read_bool(b1) {
                Err(fault) => Err(fault),
                Ok((muted, b2)) => match read_bool(b2) {
                    Err(fault) => Err(fault),
                    Ok((by_server, b3)) => Ok(
                        (
                            SignalView::PeerMuted { client_id: client_id as u64, muted, by_server },
                            b3,
                        ),
                    ),
                },
            },
        }
    } else if tag == 14 {
        match read_string(bytes) {
            Err(fault) => Err(fault),
            Ok((message, b1)) => Ok((SignalView::Error { message }, b1)),
        }
    } else {
        Err(WireFault::UnknownVariant)
    }
}

/// Reads one message from the front of `bytes`; yields it and what follows.
pub open spec fn read_message(bytes: Seq<u8>) -> Result<(SignalView, Seq<u8>), WireFault> {
    match read_u32(bytes) {
        Err(fault) => Err(fault),
        Ok((tag, rest)) => read_body(tag, rest),
    }
}

// ---------------------------------------------------------------------------
// Encoding
// ---------------------------------------------------------------------------

/// Appends an encoded part.
fn push_part(out: &mut Vec<u8>, part: Result<Vec<u8>, String>) -> (r: Result<(), VoiceError>)
    ensures
        part is Ok ==> r is Ok && final(out)@ == old(out)@ + part->Ok_0@,
        part is Err ==> r == Err::<(), VoiceError>(VoiceError::Protocol(part->Err_0))
            && final(out)@ == old(out)@,
{
    match part {
        Ok(bytes) => {
            let mut bytes = bytes;
            out.append(&mut bytes);
            Ok(())
        },
        Err(text) => Err(VoiceError::Protocol(text)),
    }
}

fn push_client(out: &mut Vec<u8>, c: &ClientInfo) -> (r: Result<(), VoiceError>)
    ensures
        r is Ok,
        final(out)@ == old(out)@ + client_bytes(c@),
{
    push_part(out, put_u64(c.client_id))?;
    push_part(out, put_str(c.display_name.as_str()))?;
    push_part(out, put_bool(c.muted))?;
    push_part(out, put_bool(c.server_muted))?;
    push_part(out, put_bool(c.is_host))?;
    assert(out@ =~= old(out)@ + client_bytes(c@));
    Ok(())
}

fn push_clients(out: &mut Vec<u8>, clients: &Vec<ClientInfo>) -> (r: Result<(), VoiceError>)
    ensures
        r is Ok,
        final(out)@ == old(out)@ + clients_bytes(info_views(clients@)),
{
    let ghost views = info_views(clients@);
    let ghost start = out@;
    let mut i: usize = 0;
    proof {
        assert(views.skip(0) =~= views);
    }
    while i < clients.len()
        invariant
            i <= clients.len(),
            views == info_views(clients@),
            out@ + clients_bytes(views.skip(i as int)) == start + clients_bytes(views),
        decreases clients.len() - i,
    {
        let ghost before = out@;
        push_client(out, &clients[i])?;
        proof {
            let left = views.skip(i as int);
            assert(left[0] == views[i as int]);
            assert(left.skip(1) =~= views.skip(i + 1));
            assert(out@ + clients_bytes(views.skip(i + 1)) =~= before + clients_bytes(left));
        }
        i += 1;
    }
    proof {
        assert(views.skip(i as int) =~= Seq::empty());
        assert(out@ + Seq::<u8>::empty() =~= out@);
    }
    Ok(())
}

/// Serializes a signaling message.
pub fn encode_signal(msg: &SignalMessage) -> (r: Result<Vec<u8>, VoiceError>)
    ensures
        r is Ok,
        r->Ok_0@ == signal_bytes(msg@),
        read_message(r->Ok_0@) == Ok::<(SignalView, Seq<u8>), WireFault>((msg@, Seq::empty())),
{
    let mut out: Vec<u8> = Vec::new();
    match msg {
        SignalMessage::Join { room_code, display_name } => {
            push_part(&mut out, put_u32(0))?;
            push_part(&mut out, put_str(room_code.as_str()))?;
            push_part(&mut out, put_str(display_name.as_str()))?;
        },
        SignalMessage::Leave => {
            push_part(&mut out, put_u32(1))?;
        },
        SignalMessage::Mute { muted } => {
            push_part(&mut out, put_u32(2))?;
            push_part(&mut out, put_bool(*muted))?;
        },
        SignalMessage::Kick { target } => {
            push_part(&mut out, put_u32(3))?;
            push_part(&mut out, put_u64(*target))?;
        },
        SignalMessage::ServerMute { target, muted } => {
            push_part(&mut out, put_u32(4))?;
            push_part(&mut out, put_u64(*target))?;
            push_part(&mut out, put_bool(*muted))?;
        },
        SignalMessage::BlockPeer { target } => {
            push_part(&mut out, put_u32(5))?;
            push_part(&mut out, put_u64(*target))?;
        },
        SignalMessage::UnblockPeer { target } => {
            push_part(&mut out, put_u32(6))?;
            push_part(&mut out, put_u64(*target))?;
        },
        SignalMessage::Joined { client_id } => {
            push_part(&mut out, put_u32(7))?;
            push_part(&mut out, put_u64(*client_id))?;
        },
        SignalMessage::RoomInfo { clients } => {
            push_part(&mut out, put_u32(8))?;
            push_part(&mut out, put_usize(clients.len()))?;
            push_clients(&mut out, clients)?;
        },
        SignalMessage::ClientJoined { client_id, display_name } => {
            push_part(&mut out, put_u32(9))?;
            push_part(&mut out, put_u64(*client_id))?;
            push_part(&mut out, put_str(display_name.as_str()))?;
        },
        SignalMessage::ClientLeft { client_id } => {
            push_part(&mut out, put_u32(10))?;
            push_part(&mut out, put_u64(*client_id))?;
        },
        SignalMessage::YouAreHost => {
            push_part(&mut out, put_u32(11))?;
        },
        SignalMessage::Kicked { reason } => {
            push_part(&mut out, put_u32(12))?;
            push_part(&mut out, put_str(reason.as_str()))?;
        },
        SignalMessage::PeerMuted { client_id, muted, by_server } => {
            push_part(&mut out, put_u32(13))?;
            push_part(&mut out, put_u64(*client_id))?;
            push_part(&mut out, put_bool(*muted))?;
            push_part(&mut out, put_bool(*by_server))?;
        },
        SignalMessage::Error { message } => {
            push_part(&mut out, put_u32(14))?;
            push_part(&mut out, put_str(message.as_str()))?;
        },
    }
    assert(out@ =~= signal_bytes(msg@));
    let total: usize = out.len();
    proof {
        lemma_signal_round_trip(msg@, Seq::empty());
        assert(out@ + Seq::<u8>::empty() =~= out@);
    }
    Ok(out)
}

// ---------------------------------------------------------------------------
// Decoding
// ---------------------------------------------------------------------------

/// Says that an executable read agrees with the format.
spec fn client_read_agrees(
    r: Result<(ClientInfo, &[u8]), String>,
    expected: Result<(ClientInfoView, Seq<u8>), WireFault>,
) -> bool {
    match (r, expected) {
        (Ok((c, rest)), Ok((view, tail))) => c@ == view && rest@ == tail,
        (Err(text), Err(fault)) => text@ == fault.text(),
        _ => false,
    }
}

fn take_client<'a>(bytes: &'a [u8]) -> (r: Result<(ClientInfo, &'a [u8]), String>)
    ensures
        client_read_agrees(r, read_client(bytes@)),
{
    let (client_id, b1) = match take_u64(bytes) {
        Ok(part) => part,
        Err(text) => return Err(text),
    };
    let (display_name, b2) = match take_string(b1) {
        Ok(part) => part,
        Err(text) => return Err(text),
    };
    let (muted, b3) = match take_bool(b2) {
        Ok(part) => part,
        Err(text) => return Err(text),
    };
    let (server_muted, b4) = match take_bool(b3) {
        Ok(part) => part,
        Err(text) => return Err(text),
    };
    let (is_host, b5) = match take_bool(b4) {
        Ok(part) => part,
        Err(text) => return Err(text),
    };
    Ok((ClientInfo { client_id, display_name, muted, server_muted, is_host }, b5))
}

/// Says that an executable read of a roster agrees with the format.
spec fn roster_read_agrees(
    r: Result<(Vec<ClientInfo>, &[u8]), String>,
    expected: Result<(Seq<ClientInfoView>, Seq<u8>), WireFault>,
) -> bool {
    match (r, expected) {
        (Ok((clients, rest)), Ok((views, tail))) => info_views(clients@) == views && rest@ == tail,
        (Err(text), Err(fault)) => text@ == fault.text(),
        _ => false,
    }
}

fn take_roster<'a>(bytes: &'a [u8]) -> (r: Result<(Vec<ClientInfo>, &'a [u8]), String>)
    ensures
        roster_read_agrees(r, read_roster(bytes@)),
{
    let (count, start) = match take_usize(bytes) {
        Ok(part) => part,
        Err(text) => return Err(text),
    };
    let mut clients: Vec<ClientInfo> = Vec::new();
    let mut rest: &'a [u8] = start;
    let mut i: usize = 0;
    let ghost whole = read_clients(start@, count as nat);
    proof {
        match whole {
            Ok((others, tail)) => {
                assert(info_views(clients@) + others =~= others);
            },
            Err(_) => {},
        }
    }
    while i < count
        invariant
            i <= count,
            read_roster(bytes@) == whole,
            match read_clients(rest@, (count - i) as nat) {
                Ok((others, tail)) => whole == Ok::<(Seq<ClientInfoView>, Seq<u8>), WireFault>(
                    (info_views(clients@) + others, tail),
                ),
                Err(fault) => whole == Err::<(Seq<ClientInfoView>, Seq<u8>), WireFault>(fault),
            },
        decreases count - i,
    {
        let ghost before = clients@;
        let (client, after) = match take_client(rest) {
            Ok(part) => part,
            Err(text) => return Err(text),
        };
        clients.push(client);
        rest = after;
        i += 1;
        proof {
            match read_clients(rest@, (count - i) as nat) {
                Ok((others, tail)) => {
                    assert(info_views(clients@) + others =~= info_views(before) + (seq![client@]
                        + others));
                },
                Err(_) => {},
            }
        }
    }
    assert(info_views(clients@) + Seq::<ClientInfoView>::empty() =~= info_views(clients@));
    Ok((clients, rest))
}

/// Says that an executable read of a message agrees with the format.
spec fn body_read_agrees(
    r: Result<SignalMessage, String>,
    expected: Result<(SignalView, Seq<u8>), WireFault>,
) -> bool {
    match (r, expected) {
        (Ok(msg), Ok((view, _))) => msg@ == view,
        (Err(text), Err(fault)) => text@ == fault.text(),
        _ => false,
    }
}

fn take_target(bytes: &[u8]) -> (r: Result<u64, String>)
    ensures
        match (r, read_u64(bytes@)) {
            (Ok(target), Ok((n, _))) => target == n,
            (Err(text), Err(fault)) => text@ == fault.text(),
            _ => false,
        },
{
    match take_u64(bytes) {
        Ok((target, _)) => Ok(target),
        Err(text) => Err(text),
    }
}

fn take_text(bytes: &[u8]) -> (r: Result<String, String>)
    ensures
        match (r, read_string(bytes@)) {
            (Ok(s), Ok((view, _))) => s@ == view,
            (Err(text), Err(fault)) => text@ == fault.text(),
            _ => false,
        },
{
    match take_string(bytes) {
        Ok((s, _)) => Ok(s),
        Err(text) => Err(text),
    }
}

/// The fields of a message that a client sends.
fn take_client_body(tag: u32, bytes: &[u8]) -> (r: Result<SignalMessage, String>)
    requires
        tag <= 6,
    ensures
        body_read_agrees(r, read_body(tag as nat, bytes@)),
{
    match tag {
        0 => match take_string(bytes) {
            Err(text) => Err(text),
            Ok((room_code, b1)) => match take_text(b1) {
                Err(text) => Err(text),
                Ok(display_name) => Ok(SignalMessage::Join { room_code, display_name }),
            },
        },
        1 => Ok(SignalMessage::Leave),
        2 => match take_bool(bytes) {
            Err(text) => Err(text),
            Ok((muted, _)) => Ok(SignalMessage::Mute { muted }),
        },
        3 => match take_target(bytes) {
            Err(text) => Err(text),
            Ok(target) => Ok(SignalMessage::Kick { target }),
        },
        4 => match take_u64(bytes) {
            Err(text) => Err(text),
            Ok((target, b1)) => match take_bool(b1) {
                Err(text) => Err(text),
                Ok((muted, _)) => Ok(SignalMessage::ServerMute { target, muted }),
            },
        },
        5 => match take_target(bytes) {
            Err(text) => Err(text),
            Ok(target) => Ok(SignalMessage::BlockPeer { target }),
        },
        _ => match take_target(bytes) {
            Err(text) => Err(text),
            Ok(target) => Ok(SignalMessage::UnblockPeer { target }),
        },
    }
}

/// The fields of a message that the server sends.
fn take_server_body(tag: u32, bytes: &[u8]) -> (r: Result<SignalMessage, String>)
    requires
        tag > 6,
    ensures
        body_read_agrees(r, read_body(tag as nat, bytes@)),
{
    match tag {
        7 => match take_target(bytes) {
            Err(text) => Err(text),
            Ok(client_id) => Ok(SignalMessage::Joined { client_id }),
        },
        8 => match take_roster(bytes) {
            Err(text) => Err(text),
            Ok((clients, _)) => Ok(SignalMessage::RoomInfo { clients }),
        },
        9 => match take_u64(bytes) {
            Err(text) => Err(text),
            Ok((client_id, b1)) => match take_text(b1) {
                Err(text) => Err(text),
                Ok(display_name) => Ok(SignalMessage::ClientJoined { client_id, display_name }),
            },
        },
        10 => match take_target(bytes) {
            Err(text) => Err(text),
            Ok(client_id) => Ok(SignalMessage::ClientLeft { client_id }),
        },
        11 => Ok(SignalMessage::YouAreHost),
        12 => match take_text(bytes) {
            Err(text) => Err(text),
            Ok(reason) => Ok(SignalMessage::Kicked { reason }),
        },
        13 => match take_u64(bytes) {
            Err(text) => Err(text),
            Ok((client_id, b1)) => match take_bool(b1) {
                Err(text) => Err(text),
                Ok((muted, b2)) => match take_bool(b2) {
                    Err(text) => Err(text),
                    Ok((by_server, _)) => Ok(
                        SignalMessage::PeerMuted { client_id, muted, by_server },
                    ),
                },
            },
        },
        14 => match take_text(bytes) {
            Err(text) => Err(text),
            Ok(message) => Ok(SignalMessage::Error { message }),
        },
        _ => Err("Serde Deserialization Error".to_owned()),
    }
}

/// Parses the signaling message at the front of `data`; bytes after it are ignored.
pub fn decode_signal(data: &[u8]) -> (r: Result<SignalMessage, VoiceError>)
    ensures
        match (r, read_message(data@)) {
            (Ok(msg), Ok((view, _))) => msg@ == view,
            (Err(VoiceError::Protocol(text)), Err(fault)) => text@ == fault.text(),
            _ => false,
        },
{
    let (tag, rest) = match take_u32(data) {
        Ok(part) => part,
        Err(text) => return Err(VoiceError::Protocol(text)),
    };
    let body = if tag <= 6 {
        take_client_body(tag, rest)
    } else {
        take_server_body(tag, rest)
    };
    match body {
        Ok(msg) => Ok(msg),
        Err(text) => Err(VoiceError::Protocol(text)),
    }
}

// ---------------------------------------------------------------------------
// What a reader makes of a writer's bytes
// ---------------------------------------------------------------------------

#[verifier::rlimit(60)]
#[verifier::spinoff_prover]
proof fn lemma_client_round_trip(c: ClientInfoView, rest: Seq<u8>)
    requires
        client_bytes(c).len() <= usize::MAX,
    ensures
        read_client(client_bytes(c) + rest) == Ok::<(ClientInfoView, Seq<u8>), WireFault>(
            (c, rest),
        ),
{
    let b5 = rest;
    let b4 = bool_bytes(c.is_host) + b5;
    let b3 = bool_bytes(c.server_muted) + b4;
    let b2 = bool_bytes(c.muted) + b3;
    let b1 = string_bytes(c.display_name) + b2;
    assert(client_bytes(c) + rest =~= varint(c.client_id as nat) + b1);
    lemma_u64_round_trip(c.client_id, b1);
    lemma_string_round_trip(c.display_name, b2);
    lemma_bool_round_trip(c.muted, b3);
    lemma_bool_round_trip(c.server_muted, b4);
    lemma_bool_round_trip(c.is_host, b5);
}

proof fn lemma_client_bytes_nonempty(c: ClientInfoView)
    ensures
        client_bytes(c).len() > 0,
{
    assert(varint(c.client_id as nat).len() > 0);
}

proof fn lemma_clients_round_trip(clients: Seq<ClientInfoView>, rest: Seq<u8>)
    requires
        clients_bytes(clients).len() <= usize::MAX,
    ensures
        clients.len() <= clients_bytes(clients).len(),
        read_clients(clients_bytes(clients) + rest, clients.len()) == Ok::<
            (Seq<ClientInfoView>, Seq<u8>),
            WireFault,
        >((clients, rest)),
    decreases clients.len(),
{
    if clients.len() == 0 {
        assert(clients_bytes(clients) + rest =~= rest);
        assert(clients =~= Seq::<ClientInfoView>::empty());
    } else {
        let first = clients[0];
        let others = clients.skip(1);
        let tail = clients_bytes(others) + rest;
        lemma_client_bytes_nonempty(first);
        assert(clients_bytes(clients) + rest =~= client_bytes(first) + tail);
        lemma_client_round_trip(first, tail);
        lemma_clients_round_trip(others, rest);
        assert(seq![first] + others =~= clients);
    }
}

#[verifier::rlimit(60)]
#[verifier::spinoff_prover]
proof fn lemma_body_round_trip(msg: SignalView, rest: Seq<u8>)
    requires
        signal_body(msg).len() <= usize::MAX,
    ensures
        read_body(signal_tag(msg), signal_body(msg) + rest) == Ok::<
            (SignalView, Seq<u8>),
            WireFault,
        >((msg, rest)),
{
    let body = signal_body(msg);
    match msg {
        SignalView::Join { room_code, display_name } => {
            let b1 = string_bytes(display_name) + rest;
            assert(body + rest =~= string_bytes(room_code) + b1);
            lemma_string_round_trip(room_code, b1);
            lemma_string_round_trip(display_name, rest);
        },
        SignalView::Leave | SignalView::YouAreHost => {
            assert(body + rest =~= rest);
        },
        SignalView::Mute { muted } => {
            lemma_bool_round_trip(muted, rest);
        },
        SignalView::Kick { target }
        | SignalView::BlockPeer { target }
        | SignalView::UnblockPeer { target } => {
            lemma_u64_round_trip(target, rest);
        },
        SignalView::ServerMute { target, muted } => {
            let b1 = bool_bytes(muted) + rest;
            assert(body + rest =~= varint(target as nat) + b1);
            lemma_u64_round_trip(target, b1);
            lemma_bool_round_trip(muted, rest);
        },
        SignalView::Joined { client_id } | SignalView::ClientLeft { client_id } => {
            lemma_u64_round_trip(client_id, rest);
        },
        SignalView::RoomInfo { clients } => {
            let b1 = clients_bytes(clients) + rest;
            assert(body + rest =~= varint(clients.len()) + b1);
            lemma_clients_round_trip(clients, rest);
            lemma_usize_round_trip(clients.len() as usize, b1);
        },
        SignalView::ClientJoined { client_id, display_name } => {
            let b1 = string_bytes(display_name) + rest;
            assert(body + rest =~= varint(client_id as nat) + b1);
            lemma_u64_round_trip(client_id, b1);
            lemma_string_round_trip(display_name, rest);
        },
        SignalView::Kicked { reason } => {
            lemma_string_round_trip(reason, rest);
        },
        SignalView::PeerMuted { client_id, muted, by_server } => {
            let b2 = bool_bytes(by_server) + rest;
            let b1 = bool_bytes(muted) + b2;
            assert(body + rest =~= varint(client_id as nat) + b1);
            lemma_u64_round_trip(client_id, b1);
            lemma_bool_round_trip(muted, b2);
            lemma_bool_round_trip(by_server, rest);
        },
        SignalView::Error { message } => {
            lemma_string_round_trip(message, rest);
        },
    }
}

/// Decoding what was encoded yields the message and leaves what follows it.
/// The bound is the machine's: no byte sequence in memory is longer.
pub proof fn lemma_signal_round_trip(msg: SignalView, rest: Seq<u8>)
    requires
        signal_bytes(msg).len() <= usize::MAX,
    ensures
        read_message(signal_bytes(msg) + rest) == Ok::<(SignalView, Seq<u8>), WireFault>(
            (msg, rest),
        ),
{
    let body = signal_body(msg);
    assert(signal_bytes(msg) + rest =~= varint(signal_tag(msg)) + (body + rest));
    lemma_u32_round_trip(signal_tag(msg) as u32, body + rest);
    lemma_body_round_trip(msg, rest);
}

// ---------------------------------------------------------------------------
// Framing
// ---------------------------------------------------------------------------

/// A framed message: the byte count as four big-endian bytes, then the message.
pub open spec fn frame_bytes(msg: SignalView) -> Seq<u8> {
    be_bytes(signal_bytes(msg).len() % 0x1_0000_0000, 4) + signal_bytes(msg)
}

/// The bytes that carry `msg` on a stream.
pub fn frame_signal(msg: &SignalMessage) -> (r: Option<Vec<u8>>)
    ensures
        r is Some,
        r->Some_0@ == frame_bytes(msg@),
{
    match encode_signal(msg) {
        Ok(data) => {
            let mut data = data;
            let mut framed: Vec<u8> = Vec::new();
            let len: u64 = data.len() as u64;
            push_be_u32(&mut framed, (len % 0x1_0000_0000) as u32);
            framed.append(&mut data);
            assert(framed@ =~= frame_bytes(msg@));
            Some(framed)
        },
        Err(_) => None,
    }
}

/// How many message bytes follow a frame's length prefix, unless there are more
/// than a reader accepts.
pub fn read_signal_len(prefix: &[u8; 4]) -> (r: Result<usize, &'static str>)
    ensures
        match r {
            Ok(len) => len == be_value(prefix@) && len <= MAX_SIGNAL_LEN,
            Err(text) => be_value(prefix@) > MAX_SIGNAL_LEN && text@
                == "signaling message too large"@,
        },
{
    let len: u32 = take_be_u32(prefix, 0);
    assert(prefix@.subrange(0, 4) =~= prefix@);
    if len > MAX_SIGNAL_LEN as u32 {
        Err("signaling message too large")
    } else {
        Ok(len as usize)
    }
}

/// A reader that takes the four prefix bytes of a frame, then as many bytes as
/// they say, gets exactly the message that was framed. Longer messages than a
/// reader accepts are the only ones left out.
pub proof fn lemma_frame_round_trip(msg: SignalView, rest: Seq<u8>)
    requires
        signal_bytes(msg).len() <= MAX_SIGNAL_LEN,
    ensures
        ({
            let stream = frame_bytes(msg) + rest;
            let len = be_value(stream.take(4));
            let data = stream.subrange(4, 4 + len as int);
            &&& len == signal_bytes(msg).len()
            &&& read_message(data) == Ok::<(SignalView, Seq<u8>), WireFault>((msg, Seq::empty()))
            &&& stream.skip(4 + len as int) == rest
        }),
{
    let body = signal_bytes(msg);
    let stream = frame_bytes(msg) + rest;
    lemma_byte_room_values();
    lemma_be_bytes_len(body.len(), 4);
    lemma_be_round_trip(body.len(), 4);
    assert(stream.take(4) =~= be_bytes(body.len(), 4));
    assert(stream.subrange(4, 4 + body.len() as int) =~= body);
    assert(stream.skip(4 + body.len() as int) =~= rest);
    assert(body + Seq::<u8>::empty() =~= body);
    lemma_signal_round_trip(msg, Seq::empty());
}

// ---------------------------------------------------------------------------
// Laws, said of the calls
// ---------------------------------------------------------------------------

/// What is encoded is decoded as it was, also with other bytes behind it. The
/// bound is the machine's: no byte sequence in memory is longer.
pub proof fn lemma_messages_arrive_as_sent(
    msg: &SignalMessage,
    written: Result<Vec<u8>, VoiceError>,
    data: &[u8],
    r: Result<SignalMessage, VoiceError>,
    rest: Seq<u8>,
)
    requires
        call_ensures(encode_signal, (msg,), written),
        call_ensures(decode_signal, (data,), r),
        written is Ok ==> data@ == written->Ok_0@ + rest && written->Ok_0@.len() <= usize::MAX,
    ensures
        written is Ok,
        r is Ok,
        r->Ok_0@ == msg@,
{
    lemma_signal_round_trip(msg@, rest);
}

/// The kinds of messages are numbered in this order, and a message's first byte is
/// the number of its kind.
pub proof fn lemma_kind_is_the_first_byte(msg: &SignalMessage, r: Result<Vec<u8>, VoiceError>)
    requires
        call_ensures(encode_signal, (msg,), r),
    ensures
        r->Ok_0@.len() > 0,
        r->Ok_0@[0] == (match msg@ {
            SignalView::Join { .. } => 0int,
            SignalView::Leave => 1,
            SignalView::Mute { .. } => 2,
            SignalView::Kick { .. } => 3,
            SignalView::ServerMute { .. } => 4,
            SignalView::BlockPeer { .. } => 5,
            SignalView::UnblockPeer { .. } => 6,
            SignalView::Joined { .. } => 7,
            SignalView::RoomInfo { .. } => 8,
            SignalView::ClientJoined { .. } => 9,
            SignalView::ClientLeft { .. } => 10,
            SignalView::YouAreHost => 11,
            SignalView::Kicked { .. } => 12,
            SignalView::PeerMuted { .. } => 13,
            SignalView::Error { .. } => 14,
        }),
{
    assert(varint(signal_tag(msg@)).len() == 1);
}

/// Behind the kind stand the message's fields, one after the other, in the order
/// in which the message names them.
pub proof fn lemma_fields_follow_in_order(msg: &SignalMessage, r: Result<Vec<u8>, VoiceError>)
    requires
        call_ensures(encode_signal, (msg,), r),
    ensures
        ({
            let body = r->Ok_0@.skip(1);
            match msg@ {
                SignalView::Join { room_code, display_name } => body == string_bytes(room_code)
                    + string_bytes(display_name),
                SignalView::Leave | SignalView::YouAreHost => body.len() == 0,
                SignalView::Mute { muted } => body == bool_bytes(muted),
                SignalView::Kick { target }
                | SignalView::BlockPeer { target }
                | SignalView::UnblockPeer { target } => body == varint(target as nat),
                SignalView::ServerMute { target, muted } => body == varint(target as nat)
                    + bool_bytes(muted),
                SignalView::Joined { client_id } | SignalView::ClientLeft { client_id } => body
                    == varint(client_id as nat),
                SignalView::RoomInfo { clients } => clients.len() == 0 ==> body == varint(0),
                SignalView::ClientJoined { client_id, display_name } => body == varint(
                    client_id as nat,
                ) + string_bytes(display_name),
                SignalView::Kicked { reason } => body == string_bytes(reason),
                SignalView::PeerMuted { client_id, muted, by_server } => body == varint(
                    client_id as nat,
                ) + bool_bytes(muted) + bool_bytes(by_server),
                SignalView::Error { message } => body == string_bytes(message),
            }
        }),
{
    let body = r->Ok_0@.skip(1);
    assert(varint(signal_tag(msg@)).len() == 1);
    assert(body =~= signal_body(msg@));
    match msg@ {
        SignalView::PeerMuted { client_id, muted, by_server } => {
            assert(body =~= varint(client_id as nat) + bool_bytes(muted) + bool_bytes(by_server));
        },
        SignalView::RoomInfo { clients } => {
            if clients.len() == 0 {
                assert(body =~= varint(0));
            }
        },
        _ => {},
    }
}

/// One more roster entry at the front is its fields in order, put in front of the
/// bytes of the others.
pub proof fn lemma_roster_entries_follow_in_order(clients: Seq<ClientInfoView>)
    requires
        clients.len() > 0,
    ensures
        ({
            let c = clients[0];
            clients_bytes(clients) == varint(c.client_id as nat) + string_bytes(c.display_name)
                + bool_bytes(c.muted) + bool_bytes(c.server_muted) + bool_bytes(c.is_host)
                + clients_bytes(clients.skip(1))
        }),
        signal_body(SignalView::RoomInfo { clients }) == varint(clients.len()) + clients_bytes(
            clients,
        ),
{
    let c = clients[0];
    assert(clients_bytes(clients) =~= varint(c.client_id as nat) + string_bytes(c.display_name)
        + bool_bytes(c.muted) + bool_bytes(c.server_muted) + bool_bytes(c.is_host) + clients_bytes(
        clients.skip(1),
    ));
}

/// A frame is the message's length in four bytes, the most significant first, and
/// then the message.
pub proof fn lemma_frame_layout(
    msg: &SignalMessage,
    written: Result<Vec<u8>, VoiceError>,
    framed: Option<Vec<u8>>,
)
    requires
        call_ensures(encode_signal, (msg,), written),
        call_ensures(frame_signal, (msg,), framed),
        written is Ok ==> written->Ok_0@.len() <= u32::MAX,
    ensures
        framed is Some,
        ({
            let n = written->Ok_0@.len() as int;
            let f = framed->Some_0@;
            &&& f.len() == n + 4
            &&& f[0] == n / 0x100_0000 % 256
            &&& f[1] == n / 0x1_0000 % 256
            &&& f[2] == n / 0x100 % 256
            &&& f[3] == n % 256
            &&& f.skip(4) == written->Ok_0@
        }),
{
    let n = written->Ok_0@.len();
    lemma_be_bytes_len(n, 4);
    lemma_four_bytes(n as u32);
    assert(framed->Some_0@.skip(4) =~= written->Ok_0@);
}

/// A length prefix is read most significant byte first, and refused exactly if it
/// asks for more than 65536 bytes.
pub proof fn lemma_length_prefix(prefix: &[u8; 4], r: Result<usize, &'static str>)
    requires
        call_ensures(read_signal_len, (prefix,), r),
    ensures
        ({
            let p = prefix@;
            let n = p[0] * 0x100_0000 + p[1] * 0x1_0000 + p[2] * 0x100 + p[3];
            &&& r is Ok <==> n <= 65_536
            &&& r is Ok ==> r->Ok_0 == n
        }),
{
    reveal_with_fuel(be_value, 5);
    let p = prefix@;
    assert(p.drop_last().drop_last().drop_last().drop_last() =~= Seq::<u8>::empty());
    assert(p.drop_last().drop_last().drop_last() =~= seq![p[0]]);
    assert(p.drop_last().drop_last() =~= seq![p[0], p[1]]);
    assert(p.drop_last() =~= seq![p[0], p[1], p[2]]);
}

/// A message was read as `view`.
pub open spec fn is_read(r: Result<SignalMessage, VoiceError>, view: SignalView) -> bool {
    r is Ok && r->Ok_0@ == view
}

/// A message was refused for a fault.
pub open spec fn is_refused(r: Result<SignalMessage, VoiceError>, fault: WireFault) -> bool {
    r is Err && r->Err_0 is Protocol && r->Err_0->Protocol_0@ == fault.text()
}

/// Without a kind there is no message, nor with a kind that is not known.
pub proof fn lemma_unknown_kinds_are_refused(data: &[u8], r: Result<SignalMessage, VoiceError>)
    requires
        call_ensures(decode_signal, (data,), r),
    ensures
        data@.len() == 0 ==> is_refused(r, WireFault::UnexpectedEnd),
        match read_u32(data@) {
            Err(fault) => is_refused(r, fault),
            Ok((kind, _)) => kind > 14 ==> is_refused(r, WireFault::UnknownVariant),
        },
{
}

/// The messages that have no fields, or one: what follows the kind is the field,
/// and a field that cannot be read is what the message is refused for.
pub proof fn lemma_short_messages_are_read(
    data: &[u8],
    r: Result<SignalMessage, VoiceError>,
    kind: nat,
    rest: Seq<u8>,
)
    requires
        call_ensures(decode_signal, (data,), r),
        read_u32(data@) == Ok::<(nat, Seq<u8>), WireFault>((kind, rest)),
    ensures
        kind == 1 ==> is_read(r, SignalView::Leave),
        kind == 11 ==> is_read(r, SignalView::YouAreHost),
        kind == 2 ==> match read_bool(rest) {
            Ok((muted, _)) => is_read(r, SignalView::Mute { muted }),
            Err(fault) => is_refused(r, fault),
        },
        match read_u64(rest) {
            Ok((n, _)) => {
                &&& kind == 3 ==> is_read(r, SignalView::Kick { target: n as u64 })
                &&& kind == 5 ==> is_read(r, SignalView::BlockPeer { target: n as u64 })
                &&& kind == 6 ==> is_read(r, SignalView::UnblockPeer { target: n as u64 })
                &&& kind == 7 ==> is_read(r, SignalView::Joined { client_id: n as u64 })
                &&& kind == 10 ==> is_read(r, SignalView::ClientLeft { client_id: n as u64 })
            },
            Err(fault) => kind == 3 || kind == 5 || kind == 6 || kind == 7 || kind == 10
                ==> is_refused(r, fault),
        },
        match read_string(rest) {
            Ok((text, _)) => {
                &&& kind == 12 ==> is_read(r, SignalView::Kicked { reason: text })
                &&& kind == 14 ==> is_read(r, SignalView::Error { message: text })
            },
            Err(fault) => kind == 12 || kind == 14 ==> is_refused(r, fault),
        },
{
}

/// The messages of several fields: each field is read where the one before it
/// ends, and the first that cannot be read is what the message is refused for.
pub proof fn lemma_long_messages_are_read(
    data: &[u8],
    r: Result<SignalMessage, VoiceError>,
    kind: nat,
    rest: Seq<u8>,
)
    requires
        call_ensures(decode_signal, (data,), r),
        read_u32(data@) == Ok::<(nat, Seq<u8>), WireFault>((kind, rest)),
    ensures
        kind == 0 ==> match read_string(rest) {
            Err(fault) => is_refused(r, fault),
            Ok((room_code, rest)) => match read_string(rest) {
                Err(fault) => is_refused(r, fault),
                Ok((display_name, _)) => is_read(r, SignalView::Join { room_code, display_name }),
            },
        },
        kind == 4 ==> match read_u64(rest) {
            Err(fault) => is_refused(r, fault),
            Ok((n, rest)) => match read_bool(rest) {
                Err(fault) => is_refused(r, fault),
                Ok((muted, _)) => is_read(r, SignalView::ServerMute { target: n as u64, muted }),
            },
        },
        kind == 9 ==> match read_u64(rest) {
            Err(fault) => is_refused(r, fault),
            Ok((n, rest)) => match read_string(rest) {
                Err(fault) => is_refused(r, fault),
                Ok((display_name, _)) => is_read(
                    r,
                    SignalView::ClientJoined { client_id: n as u64, display_name },
                ),
            },
        },
        kind == 13 ==> match read_u64(rest) {
            Err(fault) => is_refused(r, fault),
            Ok((n, rest)) => match read_bool(rest) {
                Err(fault) => is_refused(r, fault),
                Ok((muted, rest)) => match read_bool(rest) {
                    Err(fault) => is_refused(r, fault),
                    Ok((by_server, _)) => is_read(
                        r,
                        SignalView::PeerMuted { client_id: n as u64, muted, by_server },
                    ),
                },
            },
        },
{
}

proof fn lemma_so_many_clients(bytes: Seq<u8>, count: nat)
    ensures
        read_clients(bytes, count) is Ok ==> (read_clients(bytes, count)->Ok_0).0.len() == count,
    decreases count,
{
    if count > 0 {
        match read_client(bytes) {
            Ok((_, rest)) => {
                lemma_so_many_clients(rest, (count - 1) as nat);
            },
            Err(_) => {},
        }
    }
}

/// A roster has as many entries as its count says; the first follows the count, its
/// fields one after the other.
pub proof fn lemma_rosters_are_read(
    data: &[u8],
    r: Result<SignalMessage, VoiceError>,
    rest: Seq<u8>,
)
    requires
        call_ensures(decode_signal, (data,), r),
        read_u32(data@) == Ok::<(nat, Seq<u8>), WireFault>((8, rest)),
    ensures
        match read_usize(rest) {
            Err(fault) => is_refused(r, fault),
            Ok((count, rest)) => r is Ok ==> {
                &&& r->Ok_0@ is RoomInfo
                &&& r->Ok_0@->clients.len() == count
                &&& count > 0 ==> read_u64(rest) is Ok && r->Ok_0@->clients[0].client_id == (
                read_u64(rest)->Ok_0).0
            },
        },
{
    match read_usize(rest) {
        Ok((count, rest)) => {
            lemma_so_many_clients(rest, count);
        },
        Err(_) => {},
    }
}

} // verus!
