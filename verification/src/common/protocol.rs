//! Protocol constants, signaling messages, audio headers and their byte forms.

use vstd::prelude::*;
use vstd::slice::*;

use crate::common::bytes::{
    be_bytes, be_value, lemma_be_bytes_len, lemma_be_round_trip, lemma_be_value_round_trip,
    lemma_byte_room_values, push_be_u32, push_be_u64, take_be_u32, take_be_u64,
};
use crate::common::error::VoiceError;


verus! {

pub type ClientId = u64;

/// Samples per second.
pub const SAMPLE_RATE: u32 = 48_000;

/// Length of one audio frame in milliseconds.
pub const FRAME_DURATION_MS: u32 = 20;

/// Samples per mono frame: 48000 Hz for 20 ms.
pub const FRAME_SIZE: usize = 960;

pub const CHANNELS: usize = 1;

/// Largest Opus packet the codec can produce.
pub const MAX_OPUS_PACKET_SIZE: usize = 1275;

/// Largest Opus payload put into a datagram.
pub const MAX_OPUS_WIRE_PAYLOAD: usize = 96;

/// Default Opus bitrate in bits per second.
pub const DEFAULT_BITRATE: i32 = 48_000;

/// Largest signaling message a reader accepts, in bytes.
pub const MAX_SIGNAL_LEN: usize = 65_536;

#[derive(Debug, Clone, PartialEq)]
pub struct ClientInfo {
    pub client_id: ClientId,
    pub display_name: String,
    pub muted: bool,
    pub server_muted: bool,
    pub is_host: bool,
}

/// What a [`ClientInfo`] says.
pub struct ClientInfoView {
    pub client_id: ClientId,
    pub display_name: Seq<char>,
    pub muted: bool,
    pub server_muted: bool,
    pub is_host: bool,
}

impl View for ClientInfo {
    type V = ClientInfoView;

    open spec fn view(&self) -> ClientInfoView {
        ClientInfoView {
            client_id: self.client_id,
            display_name: self.display_name@,
            muted: self.muted,
            server_muted: self.server_muted,
            is_host: self.is_host,
        }
    }
}

pub open spec fn info_views(clients: Seq<ClientInfo>) -> Seq<ClientInfoView> {
    Seq::new(clients.len(), |i: int| clients[i]@)
}

#[derive(Debug, Clone, PartialEq)]
pub enum SignalMessage {
    // Client to server.
    Join { room_code: String, display_name: String },
    Leave,
    Mute { muted: bool },
    Kick { target: ClientId },
    ServerMute { target: ClientId, muted: bool },
    BlockPeer { target: ClientId },
    UnblockPeer { target: ClientId },
    // Server to client.
    Joined { client_id: ClientId },
    RoomInfo { clients: Vec<ClientInfo> },
    ClientJoined { client_id: ClientId, display_name: String },
    ClientLeft { client_id: ClientId },
    YouAreHost,
    Kicked { reason: String },
    PeerMuted { client_id: ClientId, muted: bool, by_server: bool },
    Error { message: String },
}

/// What a [`SignalMessage`] says.
pub enum SignalView {
    Join { room_code: Seq<char>, display_name: Seq<char> },
    Leave,
    Mute { muted: bool },
    Kick { target: ClientId },
    ServerMute { target: ClientId, muted: bool },
    BlockPeer { target: ClientId },
    UnblockPeer { target: ClientId },
    Joined { client_id: ClientId },
    RoomInfo { clients: Seq<ClientInfoView> },
    ClientJoined { client_id: ClientId, display_name: Seq<char> },
    ClientLeft { client_id: ClientId },
    YouAreHost,
    Kicked { reason: Seq<char> },
    PeerMuted { client_id: ClientId, muted: bool, by_server: bool },
    Error { message: Seq<char> },
}

impl View for SignalMessage {
    type V = SignalView;

    open spec fn view(&self) -> SignalView {
        match *self {
            SignalMessage::Join { room_code, display_name } => SignalView::Join {
                room_code: room_code@,
                display_name: display_name@,
            },
            SignalMessage::Leave => SignalView::Leave,
            SignalMessage::Mute { muted } => SignalView::Mute { muted },
            SignalMessage::Kick { target } => SignalView::Kick { target },
            SignalMessage::ServerMute { target, muted } => SignalView::ServerMute { target, muted },
            SignalMessage::BlockPeer { target } => SignalView::BlockPeer { target },
            SignalMessage::UnblockPeer { target } => SignalView::UnblockPeer { target },
            SignalMessage::Joined { client_id } => SignalView::Joined { client_id },
            SignalMessage::RoomInfo { clients } => SignalView::RoomInfo {
                clients: info_views(clients@),
            },
            SignalMessage::ClientJoined { client_id, display_name } => SignalView::ClientJoined {
                client_id,
                display_name: display_name@,
            },
            SignalMessage::ClientLeft { client_id } => SignalView::ClientLeft { client_id },
            SignalMessage::YouAreHost => SignalView::YouAreHost,
            SignalMessage::Kicked { reason } => SignalView::Kicked { reason: reason@ },
            SignalMessage::PeerMuted { client_id, muted, by_server } => SignalView::PeerMuted {
                client_id,
                muted,
                by_server,
            },
            SignalMessage::Error { message } => SignalView::Error { message: message@ },
        }
    }
}

/// The fixed header in front of each Opus payload.
#[derive(Debug, Clone, Copy)]
pub struct AudioFrameHeader {
    pub client_id: ClientId,
    pub sequence: u32,
    pub timestamp: u32,
}

/// The sixteen bytes of a header: its fields in order, each big-endian.
pub open spec fn header_bytes(h: AudioFrameHeader) -> Seq<u8> {
    be_bytes(h.client_id as nat, 8) + be_bytes(h.sequence as nat, 4) + be_bytes(
        h.timestamp as nat,
        4,
    )
}

/// The header held in sixteen bytes.
pub open spec fn header_of(bytes: Seq<u8>) -> AudioFrameHeader {
    AudioFrameHeader {
        client_id: be_value(bytes.subrange(0, 8)) as u64,
        sequence: be_value(bytes.subrange(8, 12)) as u32,
        timestamp: be_value(bytes.subrange(12, 16)) as u32,
    }
}

impl AudioFrameHeader {
    /// Bytes in an encoded header.
    pub const SIZE: usize = 16;

    pub fn to_bytes(&self) -> (r: [u8; 16])
        ensures
            r@ == header_bytes(*self),
    {
        let mut v: Vec<u8> = Vec::new();
        push_be_u64(&mut v, self.client_id);
        push_be_u32(&mut v, self.sequence);
        push_be_u32(&mut v, self.timestamp);
        proof {
            lemma_be_bytes_len(self.client_id as nat, 8);
            lemma_be_bytes_len(self.sequence as nat, 4);
            lemma_be_bytes_len(self.timestamp as nat, 4);
        }
        let buf: [u8; 16] = [
            v[0],
            v[1],
            v[2],
            v[3],
            v[4],
            v[5],
            v[6],
            v[7],
            v[8],
            v[9],
            v[10],
            v[11],
            v[12],
            v[13],
            v[14],
            v[15],
        ];
        assert(buf@ =~= v@);
        buf
    }

    pub fn from_bytes(buf: &[u8; 16]) -> (r: Self)
        ensures
            r == header_of(buf@),
    {
        AudioFrameHeader {
            client_id: take_be_u64(buf, 0),
            sequence: take_be_u32(buf, 8),
            timestamp: take_be_u32(buf, 12),
        }
    }
}

/// The header of a stream's frame number `sequence`: its timestamp counts the
/// samples before it, modulo 2^32.
pub open spec fn frame_header_of(client_id: ClientId, sequence: u32) -> AudioFrameHeader {
    AudioFrameHeader {
        client_id,
        sequence,
        timestamp: ((sequence * FRAME_SIZE) % 0x1_0000_0000) as u32,
    }
}

pub fn frame_header(client_id: ClientId, sequence: u32) -> (r: AudioFrameHeader)
    ensures
        r == frame_header_of(client_id, sequence),
{
    AudioFrameHeader { client_id, sequence, timestamp: sequence.wrapping_mul(FRAME_SIZE as u32) }
}

/// Successive frames of a stream are one frame's samples apart, modulo 2^32.
pub proof fn lemma_next_timestamp(client_id: ClientId, sequence: u32)
    ensures
        frame_header_of(client_id, ((sequence + 1) % 0x1_0000_0000) as u32).timestamp == (
        frame_header_of(client_id, sequence).timestamp + FRAME_SIZE) % 0x1_0000_0000,
{
}

/// Builds a datagram: the header's bytes, then the payload.
pub fn encode_audio_datagram(header: &AudioFrameHeader, opus_payload: &[u8]) -> (r: Vec<u8>)
    ensures
        r@ == header_bytes(*header) + opus_payload@,
{
    let mut buf: Vec<u8> = Vec::new();
    push_be_u64(&mut buf, header.client_id);
    push_be_u32(&mut buf, header.sequence);
    push_be_u32(&mut buf, header.timestamp);
    buf.extend_from_slice(opus_payload);
    assert(buf@ =~= header_bytes(*header) + opus_payload@);
    buf
}

/// Splits a datagram into its header and payload.
pub fn decode_audio_datagram(data: &[u8]) -> (r: Result<(AudioFrameHeader, &[u8]), VoiceError>)
    ensures
        match r {
            Ok((header, payload)) => {
                &&& data@.len() >= AudioFrameHeader::SIZE
                &&& header == header_of(data@.take(16))
                &&& payload@ == data@.skip(16)
            },
            Err(VoiceError::Protocol(text)) => data@.len() < AudioFrameHeader::SIZE && text@
                == "datagram too short for header"@,
            Err(_) => false,
        },
{
    if data.len() < AudioFrameHeader::SIZE {
        return Err(VoiceError::Protocol("datagram too short for header".to_owned()));
    }
    let header = AudioFrameHeader {
        client_id: take_be_u64(data, 0),
        sequence: take_be_u32(data, 8),
        timestamp: take_be_u32(data, 12),
    };
    proof {
        let front = data@.take(16);
        assert(front.subrange(0, 8) =~= data@.subrange(0, 8));
        assert(front.subrange(8, 12) =~= data@.subrange(8, 12));
        assert(front.subrange(12, 16) =~= data@.subrange(12, 16));
    }
    let payload = slice_subrange(data, 16, data.len());
    assert(payload@ =~= data@.skip(16));
    Ok((header, payload))
}

/// A header read from its own bytes is unchanged.
pub proof fn lemma_header_round_trip(h: AudioFrameHeader)
    ensures
        header_bytes(h).len() == AudioFrameHeader::SIZE,
        header_of(header_bytes(h)) == h,
{
    lemma_byte_room_values();
    lemma_be_bytes_len(h.client_id as nat, 8);
    lemma_be_bytes_len(h.sequence as nat, 4);
    lemma_be_bytes_len(h.timestamp as nat, 4);
    lemma_be_round_trip(h.client_id as nat, 8);
    lemma_be_round_trip(h.sequence as nat, 4);
    lemma_be_round_trip(h.timestamp as nat, 4);
    let bytes = header_bytes(h);
    assert(bytes.subrange(0, 8) =~= be_bytes(h.client_id as nat, 8));
    assert(bytes.subrange(8, 12) =~= be_bytes(h.sequence as nat, 4));
    assert(bytes.subrange(12, 16) =~= be_bytes(h.timestamp as nat, 4));
}

/// Every sixteen bytes are the bytes of the header read from them.
pub proof fn lemma_header_bytes_round_trip(bytes: Seq<u8>)
    requires
        bytes.len() == AudioFrameHeader::SIZE,
    ensures
        header_bytes(header_of(bytes)) == bytes,
{
    lemma_byte_room_values();
    lemma_be_value_round_trip(bytes.subrange(0, 8));
    lemma_be_value_round_trip(bytes.subrange(8, 12));
    lemma_be_value_round_trip(bytes.subrange(12, 16));
    assert(bytes =~= bytes.subrange(0, 8) + bytes.subrange(8, 12) + bytes.subrange(12, 16));
}

/// A datagram that was built from a header and a payload splits into them.
pub proof fn lemma_datagram_round_trip(h: AudioFrameHeader, payload: Seq<u8>)
    ensures
        ({
            let datagram = header_bytes(h) + payload;
            &&& datagram.len() == AudioFrameHeader::SIZE + payload.len()
            &&& header_of(datagram.take(16)) == h
            &&& datagram.skip(16) == payload
        }),
{
    lemma_header_round_trip(h);
    let datagram = header_bytes(h) + payload;
    assert(datagram.take(16) =~= header_bytes(h));
    assert(datagram.skip(16) =~= payload);
}

/// The layout of a header: eight bytes of client number, four of sequence number
/// and four of timestamp, each with its most significant byte first.
pub proof fn lemma_header_layout(h: &AudioFrameHeader, r: [u8; 16])
    requires
        call_ensures(AudioFrameHeader::to_bytes, (h,), r),
    ensures
        r@[0] == h.client_id as int / 0x100_0000_0000_0000 % 256,
        r@[1] == h.client_id as int / 0x1_0000_0000_0000 % 256,
        r@[2] == h.client_id as int / 0x100_0000_0000 % 256,
        r@[3] == h.client_id as int / 0x1_0000_0000 % 256,
        r@[4] == h.client_id as int / 0x100_0000 % 256,
        r@[5] == h.client_id as int / 0x1_0000 % 256,
        r@[6] == h.client_id as int / 0x100 % 256,
        r@[7] == h.client_id as int % 256,
        r@[8] == h.sequence as int / 0x100_0000 % 256,
        r@[9] == h.sequence as int / 0x1_0000 % 256,
        r@[10] == h.sequence as int / 0x100 % 256,
        r@[11] == h.sequence as int % 256,
        r@[12] == h.timestamp as int / 0x100_0000 % 256,
        r@[13] == h.timestamp as int / 0x1_0000 % 256,
        r@[14] == h.timestamp as int / 0x100 % 256,
        r@[15] == h.timestamp as int % 256,
{
    lemma_eight_bytes(h.client_id);
    lemma_four_bytes(h.sequence);
    lemma_four_bytes(h.timestamp);
    lemma_be_bytes_len(h.client_id as nat, 8);
    lemma_be_bytes_len(h.sequence as nat, 4);
    lemma_be_bytes_len(h.timestamp as nat, 4);
    let a = be_bytes(h.client_id as nat, 8);
    let b = be_bytes(h.sequence as nat, 4);
    let c = be_bytes(h.timestamp as nat, 4);
    assert(r@ == a + b + c);
    assert(forall|i: int| 0 <= i < 8 ==> r@[i] == a[i]);
    assert(r@[8] == b[0] && r@[9] == b[1] && r@[10] == b[2] && r@[11] == b[3]);
    assert(r@[12] == c[0] && r@[13] == c[1] && r@[14] == c[2] && r@[15] == c[3]);
}

/// The bytes of a 64-bit number.
pub proof fn lemma_eight_bytes(n: u64)
    ensures
        be_bytes(n as nat, 8)[0] == n as int / 0x100_0000_0000_0000 % 256,
        be_bytes(n as nat, 8)[1] == n as int / 0x1_0000_0000_0000 % 256,
        be_bytes(n as nat, 8)[2] == n as int / 0x100_0000_0000 % 256,
        be_bytes(n as nat, 8)[3] == n as int / 0x1_0000_0000 % 256,
        be_bytes(n as nat, 8)[4] == n as int / 0x100_0000 % 256,
        be_bytes(n as nat, 8)[5] == n as int / 0x1_0000 % 256,
        be_bytes(n as nat, 8)[6] == n as int / 0x100 % 256,
        be_bytes(n as nat, 8)[7] == n as int % 256,
{
    let full = be_bytes(n as nat, 8);
    let high = (n / 0x1_0000_0000) as nat;
    assert(n as nat / 256 / 256 / 256 / 256 == high);
    assert(full == be_bytes(high, 4).push((n as nat / 256 / 256 / 256 % 256) as u8).push(
        (n as nat / 256 / 256 % 256) as u8,
    ).push((n as nat / 256 % 256) as u8).push((n as nat % 256) as u8)) by {
        reveal_with_fuel(be_bytes, 5);
    }
    lemma_be_bytes_len(high, 4);
    lemma_four_bytes(high as u32);
}

/// The bytes of a 32-bit number.
pub proof fn lemma_four_bytes(n: u32)
    ensures
        be_bytes(n as nat, 4)[0] == n as int / 0x100_0000 % 256,
        be_bytes(n as nat, 4)[1] == n as int / 0x1_0000 % 256,
        be_bytes(n as nat, 4)[2] == n as int / 0x100 % 256,
        be_bytes(n as nat, 4)[3] == n as int % 256,
{
    reveal_with_fuel(be_bytes, 5);
}

/// Bytes read as a header give the header they were written from.
pub proof fn lemma_header_reads_back(
    h: &AudioFrameHeader,
    written: [u8; 16],
    bytes: &[u8; 16],
    r: AudioFrameHeader,
)
    requires
        call_ensures(AudioFrameHeader::to_bytes, (h,), written),
        call_ensures(AudioFrameHeader::from_bytes, (bytes,), r),
        bytes@ == written@,
    ensures
        r == *h,
{
    lemma_header_round_trip(*h);
}

/// A datagram is its header's sixteen bytes and then the payload, and splits into
/// exactly these.
pub proof fn lemma_datagram_splits(
    h: &AudioFrameHeader,
    payload: &[u8],
    written: [u8; 16],
    built: Vec<u8>,
    data: &[u8],
    r: Result<(AudioFrameHeader, &[u8]), VoiceError>,
)
    requires
        call_ensures(AudioFrameHeader::to_bytes, (h,), written),
        call_ensures(encode_audio_datagram, (h, payload), built),
        call_ensures(decode_audio_datagram, (data,), r),
        data@ == built@,
    ensures
        built@ == written@ + payload@,
        r is Ok,
        r->Ok_0.0 == *h,
        r->Ok_0.1@ == payload@,
{
    lemma_datagram_round_trip(*h, payload@);
}

/// Bytes are a datagram exactly if there are enough for a header.
pub proof fn lemma_short_datagrams_are_refused(
    data: &[u8],
    r: Result<(AudioFrameHeader, &[u8]), VoiceError>,
)
    requires
        call_ensures(decode_audio_datagram, (data,), r),
    ensures
        r is Ok <==> data@.len() >= 16,
        r is Ok ==> r->Ok_0.1@.len() == data@.len() - 16,
{
}

/// A stream's frame carries the stream's client number and its own number, and
/// its timestamp is the count of samples before it: 960 a frame.
pub proof fn lemma_frame_headers(client_id: ClientId, sequence: u32, r: AudioFrameHeader)
    requires
        call_ensures(frame_header, (client_id, sequence), r),
    ensures
        r.client_id == client_id,
        r.sequence == sequence,
        r.timestamp == (sequence * 960) % 0x1_0000_0000,
{
}

} // verus!
