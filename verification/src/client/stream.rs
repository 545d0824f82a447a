//! The client's two audio streams: numbering what is sent, ordering what comes.

use vstd::prelude::*;
use vstd::string::*;

use crate::common::codec::{streak_after, FailStreak, CODEC_RESET_THRESHOLD};
use crate::common::jitter::{JitterBuffer, JitterView, DEFAULT_JITTER_DEPTH};
use crate::common::protocol::{
    encode_audio_datagram, frame_header, frame_header_of, header_bytes, info_views,
    lemma_next_timestamp, AudioFrameHeader, ClientId, ClientInfo, ClientInfoView, SignalMessage,
    SignalView, FRAME_SIZE,
};

verus! {

/// What the sending side keeps.
pub struct SendStream {
    client_id: ClientId,
    sequence: u32,
    streak: FailStreak,
}

pub struct SendView {
    pub client_id: ClientId,
    /// The number of the next frame.
    pub sequence: u32,
    /// Encoder failures since it last worked.
    pub failures: nat,
}

impl View for SendStream {
    type V = SendView;

    closed spec fn view(&self) -> SendView {
        SendView {
            client_id: self.client_id,
            sequence: self.sequence,
            failures: self.streak.failures(),
        }
    }
}

impl SendView {
    /// The frame went out: the next one has the next number.
    pub open spec fn sent(self) -> Self {
        SendView { sequence: ((self.sequence + 1) % 0x1_0000_0000) as u32, ..self }
    }
}

impl SendStream {
    pub fn new(client_id: ClientId) -> (r: Self)
        ensures
            r@ == (SendView { client_id, sequence: 0, failures: 0 }),
    {
        SendStream { client_id, sequence: 0, streak: FailStreak::new() }
    }

    /// The encoder made a packet: the datagram to send.
    pub fn encoded(&mut self, packet: &[u8]) -> (r: Vec<u8>)
        ensures
            final(self)@ == (SendView { failures: 0, ..old(self)@ }),
            r@ == header_bytes(frame_header_of(old(self)@.client_id, old(self)@.sequence))
                + packet@,
    {
        self.streak.clear();
        encode_audio_datagram(&frame_header(self.client_id, self.sequence), packet)
    }

    /// The datagram went out.
    pub fn sent(&mut self)
        ensures
            final(self)@ == old(self)@.sent(),
    {
        self.sequence = self.sequence.wrapping_add(1);
    }

    /// The encoder failed; its frame is skipped and takes no number. Tells
    /// whether to replace the encoder.
    pub fn encode_failed(&mut self) -> (r: bool)
        ensures
            final(self)@ == (SendView {
                failures: streak_after(old(self)@.failures),
                ..old(self)@
            }),
            r == (final(self)@.failures >= CODEC_RESET_THRESHOLD),
    {
        self.streak.fail()
    }

    /// The encoder was replaced.
    pub fn encoder_replaced(&mut self)
        ensures
            final(self)@ == (SendView { failures: 0, ..old(self)@ }),
    {
        self.streak.clear();
    }
}

/// What plays next.
#[derive(Debug, Clone, PartialEq)]
pub enum Playout<F> {
    /// Nothing: no frame came yet.
    Idle,
    Play(F),
    /// The frame is missing: conceal it.
    Conceal,
}

/// What the receiving side keeps.
#[verifier::reject_recursive_types(F)]
pub struct ReceiveStream<F> {
    jitter_buffer: JitterBuffer<F>,
    streak: FailStreak,
}

#[verifier::reject_recursive_types(F)]
pub struct ReceiveView<F> {
    pub jitter: JitterView<F>,
    /// Decoder failures since it last worked.
    pub failures: nat,
}

impl<F> View for ReceiveStream<F> {
    type V = ReceiveView<F>;

    closed spec fn view(&self) -> ReceiveView<F> {
        ReceiveView { jitter: self.jitter_buffer@, failures: self.streak.failures() }
    }
}

impl<F> ReceiveView<F> {
    pub open spec fn empty() -> Self {
        ReceiveView { jitter: JitterView::empty(DEFAULT_JITTER_DEPTH as nat), failures: 0 }
    }

    pub open spec fn playout(self) -> Playout<F> {
        if !self.jitter.initialized {
            Playout::Idle
        } else {
            match self.jitter.next() {
                Some(frame) => Playout::Play(frame),
                None => Playout::Conceal,
            }
        }
    }
}

impl<F> ReceiveStream<F> {
    pub closed spec fn wf(self) -> bool {
        self.jitter_buffer.wf()
    }

    pub fn new() -> (r: Self)
        ensures
            r.wf(),
            r@ == ReceiveView::<F>::empty(),
    {
        ReceiveStream {
            jitter_buffer: JitterBuffer::new(DEFAULT_JITTER_DEPTH),
            streak: FailStreak::new(),
        }
    }

    /// A packet was decoded. Tells whether its frame was kept; one that comes
    /// too late is not.
    pub fn decoded(&mut self, sequence: u32, frame: F) -> (r: bool)
        requires
            old(self).wf(),
        ensures
            final(self).wf(),
            r == old(self)@.jitter.accepts(sequence),
            final(self)@ == (ReceiveView {
                jitter: old(self)@.jitter.inserted(sequence, frame),
                failures: 0,
            }),
    {
        self.streak.clear();
        self.jitter_buffer.insert(sequence, frame)
    }

    /// The decoder failed. Tells whether to replace it.
    pub fn decode_failed(&mut self) -> (r: bool)
        requires
            old(self).wf(),
        ensures
            final(self).wf(),
            final(self)@ == (ReceiveView {
                failures: streak_after(old(self)@.failures),
                ..old(self)@
            }),
            r == (final(self)@.failures >= CODEC_RESET_THRESHOLD),
    {
        self.streak.fail()
    }

    /// The decoder was replaced: what it decoded before is forgotten.
    pub fn decoder_replaced(&mut self)
        ensures
            final(self).wf(),
            final(self)@ == ReceiveView::<F>::empty(),
    {
        self.jitter_buffer = JitterBuffer::new(DEFAULT_JITTER_DEPTH);
        self.streak.clear();
    }

    /// Takes the frame that is due.
    pub fn tick(&mut self) -> (r: Playout<F>)
        requires
            old(self).wf(),
        ensures
            final(self).wf(),
            r == old(self)@.playout(),
            final(self)@ == (ReceiveView { jitter: old(self)@.jitter.popped(), ..old(self)@ }),
    {
        if !self.jitter_buffer.is_initialized() {
            return Playout::Idle;
        }
        match self.jitter_buffer.pop() {
            Some(frame) => Playout::Play(frame),
            None => Playout::Conceal,
        }
    }
}

/// What a client makes of the server's answer to its join: its number, or why
/// it was turned away. `None` stands for an answer that makes no sense.
pub fn join_reply(reply: SignalMessage) -> (r: Option<Result<ClientId, String>>)
    ensures
        match reply@ {
            SignalView::Joined { client_id } => r == Some(Ok::<ClientId, String>(client_id)),
            SignalView::Error { message } => r is Some && r->Some_0 is Err
                && (r->Some_0)->Err_0@ == message,
            _ => r is None,
        },
{
    match reply {
        SignalMessage::Joined { client_id } => Some(Ok(client_id)),
        SignalMessage::Error { message } => Some(Err(message)),
        _ => None,
    }
}

/// The roster in the message that follows a join; empty where it is none, or
/// where no message came.
pub fn initial_roster(msg: Option<SignalMessage>) -> (r: Vec<ClientInfo>)
    ensures
        info_views(r@) == (match msg {
            Some(SignalMessage::RoomInfo { clients }) => info_views(clients@),
            _ => Seq::<ClientInfoView>::empty(),
        }),
{
    match msg {
        Some(SignalMessage::RoomInfo { clients }) => clients,
        _ => {
            let none: Vec<ClientInfo> = Vec::new();
            assert(info_views(none@) =~= Seq::<ClientInfoView>::empty());
            none
        },
    }
}

/// Whatever fails in between, the frames that go out carry consecutive numbers,
/// and each timestamp is one frame's samples after the one before.
pub proof fn lemma_sent_frames_count_up(s: SendView)
    ensures
        ({
            let now = frame_header_of(s.client_id, s.sequence);
            let next = frame_header_of(s.client_id, s.sent().sequence);
            &&& next.sequence == (now.sequence + 1) % 0x1_0000_0000
            &&& next.timestamp == (now.timestamp + FRAME_SIZE) % 0x1_0000_0000
        }),
{
    lemma_next_timestamp(s.client_id, s.sequence);
}

/// A datagram carries the client's number, the number of its frame, the samples
/// before it and the packet; making one takes no number, and sending it one.
pub proof fn lemma_datagrams_carry_their_number(
    s: &mut SendStream,
    later: &mut SendStream,
    packet: &[u8],
    r: Vec<u8>,
    h: &AudioFrameHeader,
    written: [u8; 16],
)
    requires
        call_ensures(SendStream::encoded, (s, packet), r),
        call_ensures(SendStream::sent, (later,), ()),
        call_ensures(AudioFrameHeader::to_bytes, (h,), written),
        h.client_id == old(s)@.client_id,
        h.sequence == old(s)@.sequence,
        h.timestamp == (old(s)@.sequence * 960) % 0x1_0000_0000,
    ensures
        r@ == written@ + packet@,
        final(s)@.client_id == old(s)@.client_id,
        final(s)@.sequence == old(s)@.sequence,
        final(s)@.failures == 0,
        final(later)@.client_id == old(later)@.client_id,
        final(later)@.sequence == (old(later)@.sequence + 1) % 0x1_0000_0000,
        final(later)@.failures == old(later)@.failures,
{
}

/// A frame that could not be encoded takes no number; the third failure in a row
/// asks for another encoder, with which counting starts anew.
pub proof fn lemma_encoder_failures(s: &mut SendStream, replaced: &mut SendStream, r: bool)
    requires
        call_ensures(SendStream::encode_failed, (s,), r),
        call_ensures(SendStream::encoder_replaced, (replaced,), ()),
    ensures
        final(s)@.client_id == old(s)@.client_id,
        final(s)@.sequence == old(s)@.sequence,
        old(s)@.failures < 255 ==> final(s)@.failures == old(s)@.failures + 1,
        old(s)@.failures >= 255 ==> final(s)@.failures == old(s)@.failures,
        r <==> old(s)@.failures >= 2,
        final(replaced)@.client_id == old(replaced)@.client_id,
        final(replaced)@.sequence == old(replaced)@.sequence,
        final(replaced)@.failures == 0,
{
}

/// What plays: nothing before the first frame came, then the frame that is due or
/// the word that it is missing, and the read position moves on by one either way.
pub proof fn lemma_playout<F>(s: &mut ReceiveStream<F>, r: Playout<F>)
    requires
        call_ensures(ReceiveStream::<F>::tick, (s,), r),
        old(s).wf(),
    ensures
        ({
            let was = old(s)@.jitter;
            let now = final(s)@.jitter;
            &&& final(s)@.failures == old(s)@.failures
            &&& !was.initialized ==> r is Idle && now == was
            &&& was.initialized ==> {
                &&& now.initialized
                &&& now.depth == was.depth
                &&& now.read_seq == (was.read_seq + 1) % 0x1_0000_0000
                &&& now.frames == was.frames.remove(was.read_seq)
                &&& r == (if was.frames.contains_key(was.read_seq) {
                    Playout::Play(was.frames[was.read_seq])
                } else {
                    Playout::Conceal
                })
            }
        }),
{
}

/// A decoded frame goes where a jitter buffer would put it, and clears the count
/// of failures; the third failure in a row asks for another decoder, with which
/// everything starts anew.
pub proof fn lemma_receiving<F>(
    s: &mut ReceiveStream<F>,
    buffer: &mut JitterBuffer<F>,
    failed: &mut ReceiveStream<F>,
    replaced: &mut ReceiveStream<F>,
    sequence: u32,
    frame: F,
    kept: bool,
    same: bool,
    r: bool,
    k: u32,
)
    requires
        call_ensures(ReceiveStream::<F>::decoded, (s, sequence, frame), kept),
        call_ensures(JitterBuffer::<F>::insert, (buffer, sequence, frame), same),
        call_ensures(ReceiveStream::<F>::decode_failed, (failed,), r),
        call_ensures(ReceiveStream::<F>::decoder_replaced, (replaced,), ()),
        old(buffer)@ == old(s)@.jitter,
        old(s).wf(),
        old(buffer).wf(),
        old(failed).wf(),
    ensures
        kept == same,
        final(s)@.jitter == final(buffer)@,
        final(s)@.failures == 0,
        final(failed)@.jitter == old(failed)@.jitter,
        old(failed)@.failures < 255 ==> final(failed)@.failures == old(failed)@.failures + 1,
        old(failed)@.failures >= 255 ==> final(failed)@.failures == old(failed)@.failures,
        r <==> old(failed)@.failures >= 2,
        !final(replaced)@.jitter.initialized,
        !final(replaced)@.jitter.frames.contains_key(k),
        final(replaced)@.jitter.depth == 4,
        final(replaced)@.failures == 0,
{
}

/// A stream starts at number zero, with nothing received.
pub proof fn lemma_new_streams<F>(client_id: ClientId, s: SendStream, r: ReceiveStream<F>, k: u32)
    requires
        call_ensures(SendStream::new, (client_id,), s),
        call_ensures(ReceiveStream::<F>::new, (), r),
    ensures
        s@.client_id == client_id,
        s@.sequence == 0,
        s@.failures == 0,
        !r@.jitter.initialized,
        !r@.jitter.frames.contains_key(k),
        r@.jitter.depth == 4,
        r@.failures == 0,
{
}

/// The server's answer to a join is the client's number or the reason it was
/// turned away, and nothing else counts as an answer.
pub proof fn lemma_join_answers(reply: SignalMessage, r: Option<Result<ClientId, String>>)
    requires
        call_ensures(join_reply, (reply,), r),
    ensures
        reply@ is Joined ==> r == Some(Ok::<ClientId, String>(reply@->Joined_client_id)),
        reply@ is Error ==> r is Some && r->Some_0 is Err && (r->Some_0)->Err_0@
            == reply@->Error_message,
        !(reply@ is Joined) && !(reply@ is Error) ==> r is None,
{
}

/// The first roster is the one that the message carries; without a message, or with
/// another one, it is empty.
pub proof fn lemma_first_roster(
    msg: SignalMessage,
    r: Vec<ClientInfo>,
    without: Vec<ClientInfo>,
)
    requires
        call_ensures(initial_roster, (Some(msg),), r),
        call_ensures(initial_roster, (None,), without),
    ensures
        msg@ is RoomInfo ==> info_views(r@) == msg@->clients,
        !(msg@ is RoomInfo) ==> r@.len() == 0,
        without@.len() == 0,
{
    assert(info_views(r@).len() == r@.len());
    assert(info_views(without@).len() == without@.len());
}

} // verus!
