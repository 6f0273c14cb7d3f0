//! The sender: captured samples in, datagrams out.
//!
//! The capturing, the socket and the arithmetic on float samples are the caller's.
use crate::capture::CaptureFormat;
use crate::convert::{f32_bytes, f32_samples, f32_to_f32le, s16_bytes, s16_samples, s16_to_s16le};
use crate::convert::{law_f32_round_trip, law_s16_round_trip};
use crate::discovery::IpAddress;
use crate::jitter::{law_gap_keeps_timing, seq_after, seq_of, seq_verdict, Verdict};
use crate::jitter::{lemma_seq_of, RESTART_GAP_PACKETS};
use crate::playout::{counted, frames_in_ms, silence, PlayoutState};
use crate::protocol::{law_header_round_trip, lemma_header_len};
use crate::protocol::{Header, PacketType, WireFormat, HEADER_LEN};
use crate::receiver::{datagram_of, Datagram, RecvSession, MAX_GAP_MS};
use crate::ring::{room_for, SampleRing};
use crate::stats::{SenderStats, NANOS_PER_SECOND};
use crate::text::{decimal, decimal_of};
use vstd::arithmetic::div_mod::{lemma_fundamental_div_mod, lemma_fundamental_div_mod_converse};
use vstd::prelude::*;

verus! {

/// How many captured samples can wait to be sent: half a second of eight channels at 48 kHz.
pub const CAPTURE_SAMPLES: usize = 192_000;

/// Where a stream goes.
#[derive(Debug, Clone, Copy, PartialEq, Eq, Structural)]
pub struct Endpoint {
    pub ip: IpAddress,
    pub port: u16,
}

/// What a sender is started with.
#[derive(Debug)]
pub struct SendOpts {
    pub target: Endpoint,
    pub frames_per_packet: usize,
    pub wire_format: WireFormat,
    /// Part of the name of the device to capture from, if it is not the default one.
    pub device: Option<String>,
}

/// The line that tells the format of a stream and where it goes.
pub open spec fn stream_line(format: CaptureFormat, target: Seq<char>) -> Seq<char> {
    decimal(format.sample_rate as nat) + " Гц, "@ + decimal(format.channels as nat) + " кан » "@
        + target
}

/// The line that tells the format of a stream and where it goes.
pub fn status_line(format: &CaptureFormat, target: &str) -> (line: String)
    ensures
        line@ == stream_line(*format, target@),
{
    let mut line = decimal_of(format.sample_rate as u64);
    line.append(" Гц, ");
    line.append(decimal_of(format.channels as u64).as_str());
    line.append(" кан » ");
    line.append(target);
    line
}

/// The captured samples that wait to be sent.
pub struct CaptureQueue {
    pub ring: SampleRing,
    /// How many samples were lost because there was no room for them.
    pub overflow: u64,
}

impl View for CaptureQueue {
    type V = Seq<u32>;

    open spec fn view(&self) -> Seq<u32> {
        self.ring@
    }
}

/// What waits after a chunk was captured: as much of it as there is room for stands behind what
/// waited before.
pub open spec fn captured(waiting: Seq<u32>, capacity: nat, chunk: Seq<u32>) -> Seq<u32> {
    if waiting.len() + chunk.len() <= capacity {
        waiting + chunk
    } else {
        waiting + chunk.take(capacity - waiting.len())
    }
}

impl CaptureQueue {
    pub fn new() -> (queue: CaptureQueue)
        ensures
            queue@ == Seq::<u32>::empty(),
            queue.ring.capacity() == CAPTURE_SAMPLES,
            queue.overflow == 0,
    {
        CaptureQueue { ring: SampleRing::new(CAPTURE_SAMPLES), overflow: 0 }
    }

    /// Queues captured samples, as many as there is room for; the rest are lost and counted.
    pub fn push(&mut self, chunk: &[u32])
        ensures
            final(self)@ == old(self)@ + chunk@.take(room_for(old(self).ring, chunk@.len()) as int),
            final(self)@ == captured(old(self)@, old(self).ring.capacity(), chunk@),
            final(self).overflow == counted(
                old(self).overflow,
                (old(self)@.len() + chunk@.len() - final(self)@.len()) as nat,
            ),
            final(self).ring.capacity() == old(self).ring.capacity(),
            final(self).overflow == counted(
                old(self).overflow,
                (chunk@.len() - room_for(old(self).ring, chunk@.len())) as nat,
            ),
    {
        let pushed: usize = self.ring.push_slice(chunk);
        assert(chunk@.take(chunk@.len() as int) =~= chunk@);
        if pushed < chunk.len() {
            self.overflow = self.overflow.wrapping_add((chunk.len() - pushed) as u64);
        }
    }

    /// Takes the oldest `count` samples, once there are that many.
    pub fn take(&mut self, count: usize) -> (samples: Option<Vec<u32>>)
        ensures
            samples is Some <==> count <= old(self)@.len(),
            match samples {
                Some(samples) => {
                    &&& samples@ == old(self)@.take(count as int)
                    &&& final(self)@ == old(self)@.skip(count as int)
                },
                None => final(self)@ == old(self)@,
            },
            final(self).ring.capacity() == old(self).ring.capacity(),
            final(self).overflow == old(self).overflow,
    {
        if self.ring.occupied_len() < count {
            return None;
        }
        let mut samples: Vec<u32> = Vec::new();
        samples.resize(count, 0);
        let ghost before = self@;
        let taken: usize = self.ring.pop_slice(samples.as_mut_slice());
        assert(samples@ =~= before.take(count as int));
        Some(samples)
    }

    /// How much sound waits to be sent, in milliseconds.
    pub fn fill_ms(&self, channels: usize, sample_rate: u32) -> (ms: u64)
        requires
            channels > 0,
            sample_rate > 0,
            self.ring.capacity() <= CAPTURE_SAMPLES,
        ensures
            ms == self@.len() / channels as nat * 1000 / sample_rate as nat,
    {
        let occupied: usize = self.ring.occupied_len();
        let frames: usize = occupied / channels;
        proof {
            vstd::arithmetic::div_mod::lemma_div_is_ordered_by_denominator(
                occupied as int,
                1,
                channels as int,
            );
        }
        frames as u64 * 1000 / sample_rate as u64
    }
}

/// Turns blocks of samples into the packets of a stream.
#[derive(Debug)]
pub struct Packetizer {
    /// The header of the next audio packet.
    pub header: Header,
    pub frames_per_packet: usize,
    /// Packets and bytes sent since the last line of statistics.
    pub pkts_sent: u64,
    pub bytes_sent: u64,
}

impl Packetizer {
    /// The packet number and the position belong together: the number is that of the packet that
    /// begins at the position, however often it has wrapped round.
    pub open spec fn wf(&self) -> bool {
        self.frames_per_packet > 0 ==> {
            &&& self.header.sample_pos % self.frames_per_packet as u64 == 0
            &&& self.header.seq == seq_of((self.header.sample_pos / self.frames_per_packet as u64) as nat)
        }
    }

    /// The header of a packet of the given type.
    pub open spec fn header_as(&self, ptype: PacketType) -> Header {
        Header { ptype, ..self.header }
    }

    /// Whether the position after the next packet can still be counted.
    pub open spec fn can_advance(&self) -> bool {
        self.header.sample_pos + self.frames_per_packet <= u64::MAX
    }

    /// The packetizer after an audio packet.
    pub open spec fn advanced(self) -> Packetizer {
        Packetizer {
            header: Header {
                ptype: PacketType::Audio,
                seq: seq_after(self.header.seq),
                sample_pos: (self.header.sample_pos + self.frames_per_packet) as u64,
                ..self.header
            },
            ..self
        }
    }

    /// A packetizer at the start of a stream. The wire has one byte for the number of channels.
    pub fn new(format: CaptureFormat, frames_per_packet: usize, wire_format: WireFormat) -> (
        packetizer: Packetizer)
        ensures
            packetizer.wf(),
            packetizer.header == (Header {
                ptype: PacketType::Audio,
                channels: (format.channels % 256) as u8,
                format: wire_format,
                sample_rate: format.sample_rate,
                seq: 0,
                sample_pos: 0,
            }),
            packetizer.frames_per_packet == frames_per_packet,
            packetizer.pkts_sent == 0,
            packetizer.bytes_sent == 0,
    {
        proof {
            if frames_per_packet > 0 {
                lemma_fundamental_div_mod_converse(0, frames_per_packet as int, 0, 0);
            }
        }
        Packetizer {
            header: Header {
                ptype: PacketType::Audio,
                channels: (format.channels % 256) as u8,
                format: wire_format,
                sample_rate: format.sample_rate,
                seq: 0,
                sample_pos: 0,
            },
            frames_per_packet,
            pkts_sent: 0,
            bytes_sent: 0,
        }
    }

    /// How many samples a packet holds when so many channels are captured; `None` if that cannot
    /// be counted.
    pub fn samples_per_packet(&self, channels: u16) -> (count: Option<usize>)
        ensures
            count == (if self.frames_per_packet * channels <= usize::MAX {
                Some((self.frames_per_packet * channels) as usize)
            } else {
                None
            }),
    {
        self.frames_per_packet.checked_mul(channels as usize)
    }

    /// A packet that is a header alone.
    fn bare(&self, ptype: PacketType) -> (packet: Vec<u8>)
        ensures
            packet@ == self.header_as(ptype).bytes(),
    {
        let mut packet: Vec<u8> = Vec::new();
        packet.resize(HEADER_LEN, 0);
        let header = Header { ptype, ..self.header };
        header.write(packet.as_mut_slice());
        assert(packet@ =~= header.bytes());
        packet
    }

    /// The packet that tells a receiver of the stream and of its format.
    pub fn hello(&self) -> (packet: Vec<u8>)
        ensures
            packet@ == self.header_as(PacketType::Hello).bytes(),
    {
        self.bare(PacketType::Hello)
    }

    /// The packet that ends a stream.
    pub fn bye(&self) -> (packet: Vec<u8>)
        ensures
            packet@ == self.header_as(PacketType::Bye).bytes(),
    {
        self.bare(PacketType::Bye)
    }

    /// Moves on to the next audio packet.
    fn advance(&mut self)
        requires
            old(self).wf(),
            old(self).can_advance(),
        ensures
            final(self).wf(),
            *final(self) == old(self).advanced(),
    {
        proof {
            if self.frames_per_packet > 0 {
                let pos = self.header.sample_pos as int;
                let frames = self.frames_per_packet as int;
                lemma_fundamental_div_mod(pos, frames);
                assert((pos / frames + 1) * frames == frames * (pos / frames) + frames)
                    by (nonlinear_arith);
                lemma_fundamental_div_mod_converse(pos + frames, frames, pos / frames + 1, 0);
                lemma_seq_of((pos / frames) as nat, 0);
            }
        }
        self.header.ptype = PacketType::Audio;
        self.header.seq = self.header.seq.wrapping_add(1);
        self.header.sample_pos = self.header.sample_pos + self.frames_per_packet as u64;
    }

    /// The next audio packet, of 16-bit samples.
    pub fn packet_s16(&mut self, samples: &[i16]) -> (packet: Vec<u8>)
        requires
            old(self).wf(),
            old(self).can_advance(),
            HEADER_LEN + samples@.len() * 2 <= usize::MAX,
        ensures
            final(self).wf(),
            *final(self) == old(self).advanced(),
            packet@ == old(self).header_as(PacketType::Audio).bytes() + s16_bytes(samples@),
    {
        let mut packet = self.bare(PacketType::Audio);
        let mut payload: Vec<u8> = Vec::new();
        payload.resize(samples.len() * 2, 0);
        s16_to_s16le(samples, payload.as_mut_slice());
        packet.append(&mut payload);
        self.advance();
        packet
    }

    /// The next audio packet, of 32-bit samples.
    pub fn packet_f32(&mut self, samples: &[u32]) -> (packet: Vec<u8>)
        requires
            old(self).wf(),
            old(self).can_advance(),
            HEADER_LEN + samples@.len() * 4 <= usize::MAX,
        ensures
            final(self).wf(),
            *final(self) == old(self).advanced(),
            packet@ == old(self).header_as(PacketType::Audio).bytes() + f32_bytes(samples@),
    {
        let mut packet = self.bare(PacketType::Audio);
        let mut payload: Vec<u8> = Vec::new();
        payload.resize(samples.len() * 4, 0);
        f32_to_f32le(samples, payload.as_mut_slice());
        packet.append(&mut payload);
        self.advance();
        packet
    }

    /// Counts a packet of `len` bytes that was sent.
    pub fn on_sent(&mut self, stats: &mut SenderStats, len: usize)
        requires
            old(self).pkts_sent < u64::MAX,
            old(self).bytes_sent + len <= u64::MAX,
        ensures
            *final(self) == (Packetizer {
                pkts_sent: (old(self).pkts_sent + 1) as u64,
                bytes_sent: (old(self).bytes_sent + len) as u64,
                ..*old(self)
            }),
            *final(stats) == (SenderStats {
                pkts: counted(old(stats).pkts, 1),
                bytes: counted(old(stats).bytes, len as nat),
                ..*old(stats)
            }),
    {
        self.pkts_sent = self.pkts_sent + 1;
        self.bytes_sent = self.bytes_sent + len as u64;
        stats.pkts = stats.pkts.wrapping_add(1);
        stats.bytes = stats.bytes.wrapping_add(len as u64);
    }

    /// The packets and bytes sent since this was last asked; the count starts anew.
    pub fn take_window(&mut self) -> (window: (u64, u64))
        ensures
            window == (old(self).pkts_sent, old(self).bytes_sent),
            *final(self) == (Packetizer { pkts_sent: 0, bytes_sent: 0, ..*old(self) }),
    {
        let window = (self.pkts_sent, self.bytes_sent);
        self.pkts_sent = 0;
        self.bytes_sent = 0;
        window
    }
}

/// Whether a hello is owed, given how long ago the last one was.
pub open spec fn hello_owed(since_last_nanos: Option<u128>) -> bool {
    match since_last_nanos {
        Some(nanos) => nanos >= NANOS_PER_SECOND,
        None => true,
    }
}

/// Whether it is time for a hello: at once, and then a second after the one before.
pub fn hello_due(since_last_nanos: Option<u128>) -> (due: bool)
    ensures
        due == hello_owed(since_last_nanos),
        due <==> (since_last_nanos matches Some(nanos) ==> nanos >= NANOS_PER_SECOND),
{
    match since_last_nanos {
        Some(nanos) => nanos >= NANOS_PER_SECOND,
        None => true,
    }
}

/// What a recording of captured sound has come to.
#[derive(Debug)]
pub struct DumpTally {
    /// How many samples were written.
    pub written: usize,
    /// How many chunks they came in.
    pub callbacks: u64,
}

/// How a recording ended.
#[derive(Debug, Clone, Copy, PartialEq, Eq, Structural)]
pub enum DumpEnd {
    /// Not one sample was captured: capturing does not work.
    Nothing,
    /// There was nothing but silence.
    Silence,
    Sound,
}

impl DumpTally {
    pub fn new() -> (tally: DumpTally)
        ensures
            tally.written == 0,
            tally.callbacks == 0,
    {
        DumpTally { written: 0, callbacks: 0 }
    }

    /// Whether the recording goes on: as long as samples are missing and time is left.
    pub fn goes_on(&self, total_samples: usize, expired: bool) -> (yes: bool)
        ensures
            yes <==> self.written < total_samples && !expired,
    {
        self.written < total_samples && !expired
    }

    /// The bytes to write for a captured chunk, which is counted.
    pub fn on_chunk(&mut self, chunk: &[u32]) -> (bytes: Vec<u8>)
        requires
            old(self).written + chunk@.len() <= usize::MAX,
            old(self).callbacks < u64::MAX,
            chunk@.len() * 4 <= usize::MAX,
        ensures
            bytes@ == f32_bytes(chunk@),
            final(self).written == old(self).written + chunk@.len(),
            final(self).callbacks == old(self).callbacks + 1,
    {
        let mut bytes: Vec<u8> = Vec::new();
        bytes.resize(chunk.len() * 4, 0);
        f32_to_f32le(chunk, bytes.as_mut_slice());
        self.written = self.written + chunk.len();
        self.callbacks = self.callbacks + 1;
        bytes
    }

    /// How the recording ended, given whether its peak was too low to be a sound.
    pub fn end(&self, silent: bool) -> (end: DumpEnd)
        ensures
            end == (if self.written == 0 {
                DumpEnd::Nothing
            } else if silent {
                DumpEnd::Silence
            } else {
                DumpEnd::Sound
            }),
    {
        if self.written == 0 {
            DumpEnd::Nothing
        } else if silent {
            DumpEnd::Silence
        } else {
            DumpEnd::Sound
        }
    }
}

/// The position outlives the wrapping of the packet number: the two always name the same packet
/// of the stream.
pub proof fn law_position_outlives_wrapping(packetizer: Packetizer)
    requires
        packetizer.wf(),
        packetizer.frames_per_packet > 0,
    ensures
        exists|index: nat|
            packetizer.header.sample_pos == index * packetizer.frames_per_packet
                && packetizer.header.seq == #[trigger] seq_of(index),
{
    let pos = packetizer.header.sample_pos as int;
    let frames = packetizer.frames_per_packet as int;
    let index = (pos / frames) as nat;
    lemma_fundamental_div_mod(pos, frames);
    assert(frames * (pos / frames) == (pos / frames) * frames) by (nonlinear_arith);
    assert(packetizer.header.seq == seq_of(index));
}

/// One thing that a sender does.
pub enum Sending {
    Hello,
    /// A packet of audio, whether or not it could be sent.
    Audio { payload: Seq<u8> },
}

/// How many packets of audio are among some steps.
pub open spec fn audio_among(steps: Seq<Sending>) -> nat
    decreases steps.len(),
{
    if steps.len() == 0 {
        0
    } else {
        audio_among(steps.drop_last()) + if steps.last() is Audio {
            1nat
        } else {
            0nat
        }
    }
}

/// The packetizer after some steps.
pub open spec fn packetizer_after(start: Packetizer, steps: Seq<Sending>) -> Packetizer
    decreases steps.len(),
{
    if steps.len() == 0 {
        start
    } else {
        let before = packetizer_after(start, steps.drop_last());
        match steps.last() {
            Sending::Hello => before,
            Sending::Audio { .. } => before.advanced(),
        }
    }
}

/// The datagrams of a stream that ends after some steps: one for each step, and a goodbye.
pub open spec fn stream_of(start: Packetizer, steps: Seq<Sending>) -> Seq<Seq<u8>> {
    Seq::new(
        steps.len(),
        |k: int|
            {
                let packetizer = packetizer_after(start, steps.take(k));
                match steps[k] {
                    Sending::Hello => packetizer.header_as(PacketType::Hello).bytes(),
                    Sending::Audio { payload } => packetizer.header_as(PacketType::Audio).bytes()
                        + payload,
                }
            },
    ).push(packetizer_after(start, steps).header_as(PacketType::Bye).bytes())
}

/// Whether every packet of audio holds the given number of bytes.
pub open spec fn payloads_have(steps: Seq<Sending>, len: nat) -> bool {
    forall|k: int|
        0 <= k < steps.len() ==> ((#[trigger] steps[k]) matches Sending::Audio { payload }
            ==> payload.len() == len)
}

/// There is no more audio among the first steps than among all.
proof fn lemma_audio_among(steps: Seq<Sending>, k: int)
    requires
        0 <= k <= steps.len(),
    ensures
        audio_among(steps.take(k)) <= audio_among(steps),
    decreases steps.len() - k,
{
    if k < steps.len() {
        lemma_audio_among(steps, k + 1);
        assert(steps.take(k + 1).drop_last() =~= steps.take(k));
    } else {
        assert(steps.take(k) =~= steps);
    }
}

/// After some steps of a new stream the packet number and the position are those of the next
/// packet of audio.
proof fn lemma_packetizer_after(start: Packetizer, steps: Seq<Sending>)
    requires
        start.header.seq == 0,
        start.header.sample_pos == 0,
        audio_among(steps) * start.frames_per_packet <= u64::MAX,
    ensures
        packetizer_after(start, steps).frames_per_packet == start.frames_per_packet,
        packetizer_after(start, steps).header == (Header {
            ptype: packetizer_after(start, steps).header.ptype,
            seq: seq_of(audio_among(steps)),
            sample_pos: (audio_among(steps) * start.frames_per_packet) as u64,
            ..start.header
        }),
    decreases steps.len(),
{
    if steps.len() > 0 {
        let front = steps.drop_last();
        let (n, frames) = (audio_among(front) as int, start.frames_per_packet as int);
        assert((n + 1) * frames == n * frames + frames) by (nonlinear_arith);
        assert(n * frames >= 0) by (nonlinear_arith)
            requires
                n >= 0,
                frames >= 0,
        ;
        lemma_packetizer_after(start, front);
        lemma_seq_of(n as nat, 0);
    } else {
        assert(0 * start.frames_per_packet == 0) by (nonlinear_arith);
    }
}

/// The layout of all datagrams of a stream. A packet of audio bears the number of those before it,
/// wrapping round, and their frames as its position, and is as long as its header and its frames
/// in all channels. A hello and the goodbye are a header alone and use up no number; the goodbye
/// comes last.
pub proof fn law_stream_layout(
    start: Packetizer,
    steps: Seq<Sending>,
    channels: u16,
    k: int,
)
    requires
        start.header.seq == 0,
        start.header.sample_pos == 0,
        audio_among(steps) * start.frames_per_packet <= u64::MAX,
        payloads_have(
            steps,
            start.frames_per_packet as nat * channels as nat * start.header.format.width(),
        ),
        0 <= k <= steps.len(),
    ensures
        ({
            let stream = stream_of(start, steps);
            let index = audio_among(steps.take(k));
            &&& stream.len() == steps.len() + 1
            &&& Header::of_bytes(stream[k]) == Some(
                Header {
                    ptype: if k == steps.len() {
                        PacketType::Bye
                    } else if steps[k] is Audio {
                        PacketType::Audio
                    } else {
                        PacketType::Hello
                    },
                    seq: seq_of(index),
                    sample_pos: (index * start.frames_per_packet) as u64,
                    ..start.header
                },
            )
            &&& index * start.frames_per_packet <= u64::MAX
            &&& stream[k].len() == HEADER_LEN + if k < steps.len() && steps[k] is Audio {
                start.frames_per_packet * channels * start.header.format.width()
            } else {
                0
            }
        }),
{
    let index = audio_among(steps.take(k));
    lemma_audio_among(steps, k);
    assert(index * start.frames_per_packet <= audio_among(steps) * start.frames_per_packet)
        by (nonlinear_arith)
        requires
            index <= audio_among(steps),
    ;
    lemma_packetizer_after(start, steps.take(k));
    assert(steps.take(steps.len() as int) =~= steps);
    let packetizer = packetizer_after(start, steps.take(k));
    let ptype = if k == steps.len() {
        PacketType::Bye
    } else if steps[k] is Audio {
        PacketType::Audio
    } else {
        PacketType::Hello
    };
    let header = packetizer.header_as(ptype);
    let payload = if k < steps.len() && steps[k] is Audio {
        steps[k]->payload
    } else {
        Seq::empty()
    };
    lemma_header_len(header);
    law_header_round_trip(header, payload);
    assert(stream_of(start, steps)[k] =~= header.bytes() + payload);
}

/// Whole frames of samples make up the number of frames that a receiver counts.
proof fn lemma_frames_of_payload(frames: nat, channels: nat, width: nat)
    requires
        channels > 0,
        width > 0,
    ensures
        (frames * channels * width) / width / channels == frames,
{
    vstd::arithmetic::div_mod::lemma_div_by_multiple((frames * channels) as int, width as int);
    vstd::arithmetic::div_mod::lemma_div_by_multiple(frames as int, channels as int);
}

/// A packet of 16-bit samples reaches the receiver as it was sent: under its own header, with all
/// its frames, and with the same samples.
pub proof fn law_s16_packet_is_received(packetizer: Packetizer, samples: Seq<i16>)
    requires
        packetizer.header.format is S16le,
        packetizer.header.channels > 0,
        samples.len() == packetizer.frames_per_packet * packetizer.header.channels,
    ensures
        ({
            let header = packetizer.header_as(PacketType::Audio);
            &&& datagram_of(
                header.sample_rate,
                header.channels,
                true,
                header.bytes() + s16_bytes(samples),
            ) == (Datagram::Audio {
                header,
                payload: s16_bytes(samples),
                frames: packetizer.frames_per_packet as nat,
            })
            &&& s16_samples(s16_bytes(samples)) == samples
        }),
{
    let header = packetizer.header_as(PacketType::Audio);
    let bytes = header.bytes() + s16_bytes(samples);
    law_header_round_trip(header, s16_bytes(samples));
    lemma_header_len(header);
    assert(bytes.skip(HEADER_LEN as int) =~= s16_bytes(samples));
    law_s16_round_trip(samples);
    lemma_frames_of_payload(packetizer.frames_per_packet as nat, header.channels as nat, 2);
}

/// A packet of 32-bit samples reaches the receiver as it was sent: under its own header, with all
/// its frames, and with the same samples, bit for bit.
pub proof fn law_f32_packet_is_received(packetizer: Packetizer, samples: Seq<u32>)
    requires
        packetizer.header.format is F32le,
        packetizer.header.channels > 0,
        samples.len() == packetizer.frames_per_packet * packetizer.header.channels,
    ensures
        ({
            let header = packetizer.header_as(PacketType::Audio);
            &&& datagram_of(
                header.sample_rate,
                header.channels,
                true,
                header.bytes() + f32_bytes(samples),
            ) == (Datagram::Audio {
                header,
                payload: f32_bytes(samples),
                frames: packetizer.frames_per_packet as nat,
            })
            &&& f32_samples(f32_bytes(samples)) == samples
        }),
{
    let header = packetizer.header_as(PacketType::Audio);
    let bytes = header.bytes() + f32_bytes(samples);
    law_header_round_trip(header, f32_bytes(samples));
    lemma_header_len(header);
    assert(bytes.skip(HEADER_LEN as int) =~= f32_bytes(samples));
    law_f32_round_trip(samples);
    lemma_frames_of_payload(packetizer.frames_per_packet as nat, header.channels as nat, 4);
}

/// A hello tells the receiver the format and is nothing else to it; a goodbye is a goodbye.
pub proof fn law_hello_and_bye_are_received(packetizer: Packetizer)
    ensures
        ({
            let header = packetizer.header;
            let hello = packetizer.header_as(PacketType::Hello);
            let bye = packetizer.header_as(PacketType::Bye);
            &&& Header::of_bytes(hello.bytes()) == Some(hello)
            &&& datagram_of(header.sample_rate, header.channels, true, hello.bytes()) is Hello
            &&& datagram_of(header.sample_rate, header.channels, true, bye.bytes()) is Bye
        }),
{
    let hello = packetizer.header_as(PacketType::Hello);
    let bye = packetizer.header_as(PacketType::Bye);
    law_header_round_trip(hello, Seq::empty());
    law_header_round_trip(bye, Seq::empty());
    assert(hello.bytes() + Seq::empty() =~= hello.bytes());
    assert(bye.bytes() + Seq::empty() =~= bye.bytes());
}

/// The receiver keeps the sender's timing: when packet `later` of a stream is the next to arrive
/// after packet `earlier`, the silence that it puts in between is exactly the frames from the end
/// of the one to the start of the other, by the positions that the sender gave them.
pub proof fn law_receiver_keeps_the_senders_timing(earlier: Packetizer, later: Packetizer)
    requires
        earlier.wf(),
        later.wf(),
        earlier.frames_per_packet == later.frames_per_packet,
        0 < earlier.frames_per_packet <= u32::MAX,
        earlier.header.sample_pos < later.header.sample_pos,
        later.header.sample_pos - earlier.header.sample_pos <= (RESTART_GAP_PACKETS + 1)
            * earlier.frames_per_packet,
    ensures
        seq_verdict(
            Some(seq_after(earlier.header.seq)),
            later.header.seq,
            earlier.frames_per_packet as u32,
        ) == (Verdict::Accept {
            gap_frames: (later.header.sample_pos - (earlier.header.sample_pos
                + earlier.frames_per_packet)) as u64,
        }),
{
    let frames = earlier.frames_per_packet as int;
    let from = earlier.header.sample_pos as int;
    let to = later.header.sample_pos as int;
    let i = from / frames;
    let j = to / frames;
    lemma_fundamental_div_mod(from, frames);
    lemma_fundamental_div_mod(to, frames);
    assert(i < j) by (nonlinear_arith)
        requires
            frames * i < frames * j,
            frames > 0,
    ;
    assert(j - i <= 2001) by (nonlinear_arith)
        requires
            frames * j - frames * i <= 2001 * frames,
            frames > 0,
    ;
    assert((j - i - 1) * frames == frames * j - (frames * i + frames)) by (nonlinear_arith);
    law_gap_keeps_timing(i as nat, j as nat, frames as u32);
}

/// What is played stays in its place in the stream: when packet `later` arrives next after packet
/// `earlier` and there is room, its audio is queued exactly as many frames behind that of
/// `earlier` as the sender put between them, with silence for everything that was lost.
pub proof fn law_playback_keeps_its_place(
    session: RecvSession,
    playout: PlayoutState,
    earlier: Packetizer,
    later: Packetizer,
    payload: Seq<u8>,
    audio: Seq<u32>,
)
    requires
        earlier.wf(),
        later.wf(),
        earlier.frames_per_packet == later.frames_per_packet,
        0 < earlier.frames_per_packet <= u32::MAX,
        session.tracker.next == Some(seq_after(earlier.header.seq)),
        session.sample_rate == later.header.sample_rate,
        session.channels == later.header.channels,
        session.channels > 0,
        playout.channels == session.channels,
        earlier.header.sample_pos < later.header.sample_pos,
        later.header.sample_pos - earlier.header.sample_pos <= (RESTART_GAP_PACKETS + 1)
            * earlier.frames_per_packet,
        later.header.sample_pos - earlier.header.sample_pos - earlier.frames_per_packet
            <= frames_in_ms(session.sample_rate, MAX_GAP_MS),
        payload.len() == later.frames_per_packet as nat * session.channels as nat
            * later.header.format.width(),
        audio.len() == later.frames_per_packet * session.channels,
        playout.queue.len() + (later.header.sample_pos - earlier.header.sample_pos)
            * session.channels <= playout.capacity(),
    ensures
        ({
            let bytes = later.header_as(PacketType::Audio).bytes() + payload;
            let lost = later.header.sample_pos - earlier.header.sample_pos
                - earlier.frames_per_packet;
            let queue = session.playout_after(playout, true, bytes).pushed(audio).queue;
            &&& queue == playout.queue + silence((lost * session.channels) as nat) + audio
            &&& queue.len() == playout.queue.len() + (later.header.sample_pos
                - earlier.header.sample_pos) * session.channels
            &&& session.after(true, bytes).tracker.next == Some(seq_after(later.header.seq))
        }),
{
    let header = later.header_as(PacketType::Audio);
    let bytes = header.bytes() + payload;
    let frames = later.frames_per_packet as int;
    let channels = session.channels as int;
    let step = later.header.sample_pos - earlier.header.sample_pos;
    let lost = step - frames;
    law_header_round_trip(header, payload);
    lemma_header_len(header);
    assert(bytes.skip(HEADER_LEN as int) =~= payload);
    lemma_frames_of_payload(frames as nat, channels as nat, header.format.width());
    law_receiver_keeps_the_senders_timing(earlier, later);
    lemma_step_is_a_frame_or_more(earlier, later);
    assert(lost * channels >= 0) by (nonlinear_arith)
        requires
            lost >= 0,
            channels > 0,
    ;
    assert(step * channels == lost * channels + frames * channels) by (nonlinear_arith)
        requires
            step == lost + frames,
    ;
    let gap = silence((lost * channels) as nat);
    let filled = session.playout_after(playout, true, bytes);
    assert(gap.take(gap.len() as int) =~= gap);
    assert(filled.queue == playout.queue + gap);
    assert(audio.take(audio.len() as int) =~= audio);
}

/// Two packets of a stream are at least a packet apart.
proof fn lemma_step_is_a_frame_or_more(earlier: Packetizer, later: Packetizer)
    requires
        earlier.wf(),
        later.wf(),
        earlier.frames_per_packet == later.frames_per_packet,
        0 < earlier.frames_per_packet,
        earlier.header.sample_pos < later.header.sample_pos,
    ensures
        later.header.sample_pos - earlier.header.sample_pos >= earlier.frames_per_packet,
{
    let frames = earlier.frames_per_packet as int;
    let from = earlier.header.sample_pos as int;
    let to = later.header.sample_pos as int;
    lemma_fundamental_div_mod(from, frames);
    lemma_fundamental_div_mod(to, frames);
    assert(frames * (to / frames) - frames * (from / frames) >= frames) by (nonlinear_arith)
        requires
            frames * (from / frames) < frames * (to / frames),
            frames > 0,
    ;
}

/// A packet of audio moves the stream on and nothing else.
pub proof fn law_advancing_keeps_the_stream(packetizer: Packetizer)
    requires
        packetizer.can_advance(),
    ensures
        packetizer.advanced().header.seq == (packetizer.header.seq + 1) % 0x1_0000_0000,
        packetizer.advanced().header.sample_pos == packetizer.header.sample_pos
            + packetizer.frames_per_packet,
        packetizer.advanced().header.channels == packetizer.header.channels,
        packetizer.advanced().header.format == packetizer.header.format,
        packetizer.advanced().header.sample_rate == packetizer.header.sample_rate,
        packetizer.advanced().frames_per_packet == packetizer.frames_per_packet,
        packetizer.advanced().pkts_sent == packetizer.pkts_sent,
        packetizer.advanced().bytes_sent == packetizer.bytes_sent,
{
}

/// What a status line says: the sample rate, the channels and where the stream goes.
pub proof fn law_status_line_says(format: CaptureFormat, target: Seq<char>)
    ensures
        stream_line(format, target) == decimal(format.sample_rate as nat) + " Гц, "@ + decimal(
            format.channels as nat,
        ) + " кан » "@ + target,
{
}

/// Captured samples wait in the order in which they came: those that waited stay in front, as they
/// were, and the new ones stand behind them from the first on. None is left out while there is room.
pub proof fn law_captured_samples_queue_up(
    waiting: Seq<u32>,
    capacity: nat,
    chunk: Seq<u32>,
    i: int,
)
    requires
        waiting.len() <= capacity,
    ensures
        ({
            let after = captured(waiting, capacity, chunk);
            &&& after.len() <= capacity
            &&& after.len() == waiting.len() + chunk.len() || after.len() == capacity
            &&& after.len() <= waiting.len() + chunk.len()
            &&& 0 <= i < waiting.len() ==> after[i] == waiting[i]
            &&& waiting.len() <= i < after.len() ==> after[i] == chunk[i - waiting.len()]
        }),
{
}

/// A sender says hello once a second: at the start, and then when a thousand million nanoseconds
/// have gone by and not before.
pub proof fn law_hello_once_a_second(since_last_nanos: u128)
    ensures
        hello_owed(None),
        hello_owed(Some(since_last_nanos)) <==> since_last_nanos >= 1_000_000_000,
{
}

} // verus!
