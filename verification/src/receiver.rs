//! The receiver: datagrams in, a playout buffer and statistics out.
//!
//! The socket, the sound card, the volume and the measuring of clock drift are the caller's; what
//! is made of every datagram is decided here.
use crate::convert::{f32_bytes, f32_samples, f32le_to_f32, s16_bytes, s16_samples, s16le_to_s16};
use crate::convert::{law_f32_reading, law_f32_round_trip, law_s16_reading, law_s16_round_trip};
use crate::jitter::{apply_slip, DriftComp, SeqTracker, Slip, Verdict};
use crate::jitter::{law_distance_decides, law_first_packet_is_taken};
use crate::jitter::{lemma_seq_of, seq_after, seq_lost, seq_verdict, slipped, RESTART_GAP_PACKETS};
use crate::playout::{
    counted, frames_in_ms, lemma_playout_wf, silence, Playout, PlayoutState,
};
use crate::protocol::{law_header_round_trip, lemma_header_len};
use crate::protocol::{Header, PacketType, WireFormat, HEADER_LEN};
use crate::stats::ReceiverStats;
use crate::text::{decimal, decimal_of};
use vstd::prelude::*;
use vstd::slice::slice_subrange;

verus! {

/// How much silence is put in for one gap at most, in milliseconds.
pub const MAX_GAP_MS: u32 = 500;

/// How many frames of silence are queued at a time.
pub const QUIET_FRAMES: usize = 4800;

/// What a receiver is started with.
#[derive(Debug)]
pub struct RecvOpts {
    pub port: u16,
    /// How much sound gathers before any is played, in milliseconds.
    pub buffer_ms: u32,
    /// Part of the name of the output device, if it is not the default one.
    pub device: Option<String>,
    /// The volume at the start, as the bits of a 32-bit float.
    pub volume: u32,
}

/// The samples of a packet, as they came.
#[derive(Debug, PartialEq, Eq)]
pub enum Samples {
    S16(Vec<i16>),
    /// Bit patterns of 32-bit floats.
    F32(Vec<u32>),
}

impl Samples {
    /// Whether these are the samples that a payload holds in a format.
    pub open spec fn read_from(self, format: WireFormat, payload: Seq<u8>) -> bool {
        match (format, self) {
            (WireFormat::S16le, Samples::S16(samples)) => samples@ == s16_samples(payload),
            (WireFormat::F32le, Samples::F32(samples)) => samples@ == f32_samples(payload),
            _ => false,
        }
    }
}

/// Reads the samples of a payload.
pub fn decode(format: WireFormat, payload: &[u8]) -> (samples: Samples)
    ensures
        samples.read_from(format, payload@),
{
    match format {
        WireFormat::S16le => {
            let mut samples: Vec<i16> = Vec::new();
            s16le_to_s16(payload, &mut samples);
            assert(samples@ =~= s16_samples(payload@));
            Samples::S16(samples)
        },
        WireFormat::F32le => {
            let mut samples: Vec<u32> = Vec::new();
            f32le_to_f32(payload, &mut samples);
            assert(samples@ =~= f32_samples(payload@));
            Samples::F32(samples)
        },
    }
}

/// What a datagram is to a receiver that plays a stream.
pub enum Datagram {
    /// Not from the sender that is listened to.
    Foreign,
    /// Not of this protocol.
    Malformed,
    /// Of another sample rate or number of channels than the stream began with.
    OtherFormat,
    Hello,
    Bye,
    Audio { header: Header, payload: Seq<u8>, frames: nat },
}

/// What a datagram is to a receiver that plays a stream of the given format.
pub open spec fn datagram_of(
    sample_rate: u32,
    channels: u8,
    from_peer: bool,
    bytes: Seq<u8>,
) -> Datagram {
    if !from_peer {
        Datagram::Foreign
    } else {
        match Header::of_bytes(bytes) {
            None => Datagram::Malformed,
            Some(header) => if header.sample_rate != sample_rate || header.channels != channels {
                Datagram::OtherFormat
            } else {
                match header.ptype {
                    PacketType::Hello => Datagram::Hello,
                    PacketType::Bye => Datagram::Bye,
                    PacketType::Audio => {
                        let payload = bytes.skip(HEADER_LEN as int);
                        Datagram::Audio {
                            header,
                            payload,
                            frames: payload.len() / header.format.width() / channels as nat,
                        }
                    },
                }
            },
        }
    }
}

/// What became of a datagram.
#[derive(Debug, PartialEq, Eq)]
pub enum Received {
    /// Not from the sender, or not of this protocol.
    Ignored,
    /// The sender changed its format; `first` says that it is the first time this is seen.
    FormatChanged { first: bool },
    Hello,
    Bye,
    /// Audio without a single whole frame.
    Empty,
    /// Audio that came too late or twice.
    Late,
    /// Audio to play.
    Audio { frames: usize, samples: Samples },
}

/// The line that tells whose stream is played, and its format.
pub open spec fn stream_line(peer: Seq<char>, sample_rate: u32, channels: u8) -> Seq<char> {
    peer + " » "@ + decimal(sample_rate as nat) + " Гц, "@ + decimal(channels as nat) + " кан"@
}

/// The line that tells whose stream is played, and its format.
pub fn status_line(peer: &str, first: &Header) -> (line: String)
    ensures
        line@ == stream_line(peer@, first.sample_rate, first.channels),
{
    let mut line = peer.to_owned();
    line.append(" » ");
    line.append(decimal_of(first.sample_rate as u64).as_str());
    line.append(" Гц, ");
    line.append(decimal_of(first.channels as u64).as_str());
    line.append(" кан");
    line
}

/// The network side of a receiver, from the first packet on.
#[derive(Debug)]
pub struct RecvSession {
    pub sample_rate: u32,
    pub channels: u8,
    pub tracker: SeqTracker,
    pub drift: DriftComp,
    /// Audio packets and their bytes since the last line of statistics.
    pub pkts: u64,
    pub bytes: u64,
    /// Samples that the playout buffer had no room for.
    pub ring_overflow: u64,
    pub warned_format: bool,
    /// A stretch of silence.
    pub quiet: Vec<u32>,
}

/// The tracker after it decided on a packet.
pub open spec fn tracker_after(tracker: SeqTracker, seq: u32, frames: u32) -> SeqTracker {
    let late = seq_verdict(tracker.next, seq, frames) is Drop;
    SeqTracker {
        next: if late {
            tracker.next
        } else {
            Some(seq_after(seq))
        },
        lost_packets: (tracker.lost_packets + seq_lost(tracker.next, seq)) as u64,
        late_packets: if late {
            (tracker.late_packets + 1) as u64
        } else {
            tracker.late_packets
        },
    }
}

/// How many frames of silence stand for a gap of `gap_frames`.
pub open spec fn gap_to_fill(sample_rate: u32, gap_frames: u64) -> nat {
    if gap_frames <= frames_in_ms(sample_rate, MAX_GAP_MS) {
        gap_frames as nat
    } else {
        frames_in_ms(sample_rate, MAX_GAP_MS)
    }
}

impl RecvSession {
    pub open spec fn wf(&self) -> bool {
        &&& self.sample_rate > 0
        &&& self.channels > 0
        &&& self.quiet@ == silence(QUIET_FRAMES as nat * self.channels as nat)
    }

    /// Whether a playout buffer is for this session's format.
    pub open spec fn fits(&self, playout: &Playout) -> bool {
        &&& playout.wf()
        &&& playout@.sample_rate == self.sample_rate
        &&& playout@.channels == self.channels
    }

    /// What a datagram is to this session.
    pub open spec fn datagram(&self, from_peer: bool, bytes: Seq<u8>) -> Datagram {
        datagram_of(self.sample_rate, self.channels, from_peer, bytes)
    }

    /// Whether what a datagram adds to the counts fits in them.
    pub open spec fn counts_fit(&self, from_peer: bool, bytes: Seq<u8>) -> bool {
        match self.datagram(from_peer, bytes) {
            Datagram::Audio { header, frames, .. } => {
                &&& self.pkts < u64::MAX
                &&& self.bytes + bytes.len() <= u64::MAX
                &&& frames > 0 ==> {
                    &&& self.tracker.lost_packets + seq_lost(self.tracker.next, header.seq)
                        <= u64::MAX
                    &&& seq_verdict(self.tracker.next, header.seq, frames as u32) is Drop
                        ==> self.tracker.late_packets < u64::MAX
                }
            },
            _ => true,
        }
    }

    /// The session after a datagram.
    pub open spec fn after(self, from_peer: bool, bytes: Seq<u8>) -> RecvSession {
        match self.datagram(from_peer, bytes) {
            Datagram::OtherFormat => RecvSession { warned_format: true, ..self },
            Datagram::Bye => RecvSession {
                tracker: SeqTracker { next: None, ..self.tracker },
                ..self
            },
            Datagram::Audio { header, frames, .. } => RecvSession {
                pkts: (self.pkts + 1) as u64,
                bytes: (self.bytes + bytes.len()) as u64,
                tracker: if frames > 0 {
                    tracker_after(self.tracker, header.seq, frames as u32)
                } else {
                    self.tracker
                },
                ..self
            },
            _ => self,
        }
    }

    /// The playout buffer after a datagram: only a goodbye and audio that is taken touch it, the
    /// one by letting it gather anew, the other by the silence for what was lost before it.
    pub open spec fn playout_after(
        &self,
        playout: PlayoutState,
        from_peer: bool,
        bytes: Seq<u8>,
    ) -> PlayoutState {
        match self.datagram(from_peer, bytes) {
            Datagram::Bye => PlayoutState { prebuffering: true, ..playout },
            Datagram::Audio { header, frames, .. } => if frames > 0 {
                match seq_verdict(self.tracker.next, header.seq, frames as u32) {
                    Verdict::Accept { gap_frames } => playout.pushed(
                        silence(
                            gap_to_fill(self.sample_rate, gap_frames) * self.channels as nat,
                        ),
                    ),
                    Verdict::Drop => playout,
                }
            } else {
                playout
            },
            _ => playout,
        }
    }

    /// The statistics after a datagram: every audio packet counts, also one that is not played.
    pub open spec fn stats_after(
        &self,
        stats: ReceiverStats,
        from_peer: bool,
        bytes: Seq<u8>,
    ) -> ReceiverStats {
        match self.datagram(from_peer, bytes) {
            Datagram::Audio { .. } => ReceiverStats {
                pkts: counted(stats.pkts, 1),
                bytes: counted(stats.bytes, bytes.len()),
                ..stats
            },
            _ => stats,
        }
    }

    /// Whether `received` is what became of a datagram.
    pub open spec fn answers(
        &self,
        received: Received,
        from_peer: bool,
        bytes: Seq<u8>,
    ) -> bool {
        match self.datagram(from_peer, bytes) {
            Datagram::Foreign => received is Ignored,
            Datagram::Malformed => received is Ignored,
            Datagram::OtherFormat => received == (Received::FormatChanged {
                first: !self.warned_format,
            }),
            Datagram::Hello => received is Hello,
            Datagram::Bye => received is Bye,
            Datagram::Audio { header, payload, frames } => if frames == 0 {
                received is Empty
            } else if seq_verdict(self.tracker.next, header.seq, frames as u32) is Drop {
                received is Late
            } else {
                received matches Received::Audio { frames: count, samples } && count == frames
                    && samples.read_from(header.format, payload)
            },
        }
    }

    /// A session for the stream that the given first packet belongs to.
    pub fn new(first: &Header) -> (session: RecvSession)
        requires
            first.sample_rate > 0,
            first.channels > 0,
        ensures
            session.wf(),
            session.sample_rate == first.sample_rate,
            session.channels == first.channels,
            session.tracker == (SeqTracker { next: None, lost_packets: 0, late_packets: 0 }),
            session.drift == (DriftComp { dropped_frames: 0, duplicated_frames: 0 }),
            session.pkts == 0,
            session.bytes == 0,
            session.ring_overflow == 0,
            !session.warned_format,
    {
        let mut quiet: Vec<u32> = Vec::new();
        quiet.resize(QUIET_FRAMES * first.channels as usize, 0);
        assert(quiet@ =~= silence(QUIET_FRAMES as nat * first.channels as nat));
        RecvSession {
            sample_rate: first.sample_rate,
            channels: first.channels,
            tracker: SeqTracker::new(),
            drift: DriftComp::new(),
            pkts: 0,
            bytes: 0,
            ring_overflow: 0,
            warned_format: false,
            quiet,
        }
    }

    /// Whether the counts surely have room for another datagram of `len` bytes.
    pub fn has_room(&self, len: usize) -> (yes: bool)
        ensures
            yes <==> {
                &&& self.pkts < u64::MAX
                &&& self.bytes + len <= u64::MAX
                &&& self.tracker.lost_packets + RESTART_GAP_PACKETS <= u64::MAX
                &&& self.tracker.late_packets < u64::MAX
            },
            yes ==> forall|from_peer: bool, bytes: Seq<u8>|
                bytes.len() == len ==> #[trigger] self.counts_fit(from_peer, bytes),
    {
        self.pkts < u64::MAX && self.bytes <= u64::MAX - len as u64 && self.tracker.lost_packets
            <= u64::MAX - RESTART_GAP_PACKETS as u64 && self.tracker.late_packets < u64::MAX
    }

    /// Takes in a datagram: decides what it is, counts it, and puts silence into the playout buffer
    /// for what was lost before it. Audio that is to be played is handed back.
    pub fn on_datagram(
        &mut self,
        playout: &mut Playout,
        stats: &mut ReceiverStats,
        from_peer: bool,
        data: &[u8],
    ) -> (received: Received)
        requires
            old(self).wf(),
            old(self).fits(old(playout)),
            old(self).counts_fit(from_peer, data@),
        ensures
            final(self).wf(),
            final(self).fits(final(playout)),
            old(self).answers(received, from_peer, data@),
            *final(self) == old(self).after(from_peer, data@),
            final(playout)@ == old(self).playout_after(old(playout)@, from_peer, data@),
            *final(stats) == old(self).stats_after(*old(stats), from_peer, data@),
    {
        if !from_peer {
            return Received::Ignored;
        }
        let header = match Header::parse(data) {
            Some(header) => header,
            None => {
                return Received::Ignored;
            },
        };
        if header.sample_rate != self.sample_rate || header.channels != self.channels {
            let first = !self.warned_format;
            self.warned_format = true;
            return Received::FormatChanged { first };
        }
        match header.ptype {
            PacketType::Hello => Received::Hello,
            PacketType::Bye => {
                playout.hold();
                self.tracker.reset();
                Received::Bye
            },
            PacketType::Audio => {
                self.pkts = self.pkts + 1;
                self.bytes = self.bytes + data.len() as u64;
                stats.pkts = stats.pkts.wrapping_add(1);
                stats.bytes = stats.bytes.wrapping_add(data.len() as u64);
                let payload = slice_subrange(data, HEADER_LEN, data.len());
                assert(payload@ =~= data@.skip(HEADER_LEN as int));
                let frames: usize = payload.len() / header.format.bytes_per_sample()
                    / self.channels as usize;
                if frames == 0 {
                    return Received::Empty;
                }
                match self.tracker.on_audio(header.seq, frames as u32) {
                    Verdict::Drop => Received::Late,
                    Verdict::Accept { gap_frames } => {
                        self.fill_gap(playout, gap_frames);
                        Received::Audio { frames, samples: decode(header.format, payload) }
                    },
                }
            },
        }
    }

    /// Queues the silence that stands for a gap.
    fn fill_gap(&self, playout: &mut Playout, gap_frames: u64)
        requires
            self.wf(),
            self.fits(old(playout)),
        ensures
            self.fits(final(playout)),
            final(playout)@ == old(playout)@.pushed(
                silence(gap_to_fill(self.sample_rate, gap_frames) * self.channels as nat),
            ),
    {
        let most: u64 = self.sample_rate as u64 * MAX_GAP_MS as u64 / 1000;
        let gap: u64 = if gap_frames < most {
            gap_frames
        } else {
            most
        };
        proof {
            lemma_playout_wf(playout);
            let (gap, rate, channels) = (gap as int, self.sample_rate as int, self.channels as int);
            assert(gap * channels <= rate * channels) by (nonlinear_arith)
                requires
                    gap <= rate,
                    channels > 0,
            ;
            assert(gap <= gap * channels) by (nonlinear_arith)
                requires
                    gap >= 0,
                    channels > 0,
            ;
            assert(QUIET_FRAMES * self.channels > 0) by (nonlinear_arith)
                requires
                    QUIET_FRAMES == 4800,
                    self.channels > 0,
            ;
        }
        playout.enqueue_silence(gap as usize * self.channels as usize, self.quiet.as_slice());
    }

    /// Queues the samples of a packet for playing, after the slip that compensates clock drift,
    /// and counts those that there was no room for.
    pub fn queue_audio(&mut self, playout: &mut Playout, slip: Slip, samples: Vec<u32>)
        requires
            old(self).wf(),
            old(self).fits(old(playout)),
            slip != Slip::Keep ==> old(self).channels <= samples@.len(),
            old(self).ring_overflow + slipped(samples@, old(self).channels as nat, slip).len()
                <= u64::MAX,
        ensures
            final(self).wf(),
            final(self).fits(final(playout)),
            final(playout)@ == old(playout)@.pushed(
                slipped(samples@, old(self).channels as nat, slip),
            ),
            ({
                let len = slipped(samples@, old(self).channels as nat, slip).len();
                *final(self) == (RecvSession {
                    ring_overflow: (old(self).ring_overflow + len - old(playout)@.room(len)) as u64,
                    ..*old(self)
                })
            }),
    {
        let mut samples = samples;
        apply_slip(&mut samples, self.channels as usize, slip);
        let overflow: usize = playout.enqueue(samples.as_slice());
        self.ring_overflow = self.ring_overflow + overflow as u64;
    }

    /// Leaves the counts of this session and of its playout buffer in the statistics.
    pub fn publish(&self, playout: &Playout, stats: &mut ReceiverStats)
        requires
            self.fits(playout),
        ensures
            *final(stats) == (ReceiverStats {
                fill_ms: (playout@.frames() * 1000 / self.sample_rate as nat) as u64,
                lost: self.tracker.lost_packets,
                late: self.tracker.late_packets,
                underruns: playout@.underruns,
                cuts: playout@.cuts,
                slip_dropped: self.drift.dropped_frames,
                slip_duplicated: self.drift.duplicated_frames,
                ring_overflow: self.ring_overflow,
                ..*old(stats)
            }),
    {
        stats.fill_ms = playout.fill_ms();
        stats.lost = self.tracker.lost_packets;
        stats.late = self.tracker.late_packets;
        stats.underruns = playout.underruns();
        stats.cuts = playout.cuts();
        stats.slip_dropped = self.drift.dropped_frames;
        stats.slip_duplicated = self.drift.duplicated_frames;
        stats.ring_overflow = self.ring_overflow;
    }

    /// The audio packets and bytes since this was last asked; the count starts anew.
    pub fn take_window(&mut self) -> (window: (u64, u64))
        ensures
            window == (old(self).pkts, old(self).bytes),
            *final(self) == (RecvSession { pkts: 0, bytes: 0, ..*old(self) }),
    {
        let window = (self.pkts, self.bytes);
        self.pkts = 0;
        self.bytes = 0;
        window
    }
}

/// A range of configurations that an output device supports.
#[derive(Debug, Clone, Copy)]
pub struct OutputRange {
    pub channels: u16,
    /// Whether its samples are 32-bit floats.
    pub is_f32: bool,
    pub min_sample_rate: u32,
    pub max_sample_rate: u32,
}

impl OutputRange {
    /// Whether a stream can be played in this range.
    pub open spec fn plays(self, sample_rate: u32, channels: u16) -> bool {
        &&& self.channels == channels
        &&& self.is_f32
        &&& self.min_sample_rate <= sample_rate <= self.max_sample_rate
    }
}

/// The configuration that an output device has by default.
#[derive(Debug, Clone, Copy)]
pub struct OutputDefault {
    pub sample_rate: u32,
    pub channels: u16,
    /// Whether its samples are 32-bit floats.
    pub is_f32: bool,
}

/// The first range of a device in which a stream can be played, if there is one.
pub fn pick_output_config(
    supported: &Vec<OutputRange>,
    sample_rate: u32,
    channels: u16,
) -> (choice: Option<usize>)
    ensures
        match choice {
            Some(i) => {
                &&& i < supported@.len()
                &&& supported@[i as int].plays(sample_rate, channels)
                &&& forall|k: int| 0 <= k < i ==> !(#[trigger] supported@[k]).plays(sample_rate, channels)
            },
            None => forall|k: int|
                0 <= k < supported@.len() ==> !(#[trigger] supported@[k]).plays(sample_rate, channels),
        },
{
    let mut i: usize = 0;
    while i < supported.len()
        invariant
            i <= supported@.len(),
            forall|k: int| 0 <= k < i ==> !(#[trigger] supported@[k]).plays(sample_rate, channels),
        decreases supported.len() - i,
    {
        let range: &OutputRange = &supported[i];
        if range.channels == channels && range.is_f32 && range.min_sample_rate <= sample_rate
            && range.max_sample_rate >= sample_rate {
            return Some(i);
        }
        i = i + 1;
    }
    None
}

/// Whether a stream can be played in the device's default configuration: the way out where no
/// range fits.
pub fn default_output_fits(default: &OutputDefault, sample_rate: u32, channels: u16) -> (yes: bool)
    ensures
        yes <==> default.sample_rate == sample_rate && default.channels == channels
            && default.is_f32,
{
    default.sample_rate == sample_rate && default.channels == channels && default.is_f32
}

/// One gap never puts in more than half a second of silence, nor more than was lost.
pub proof fn law_gap_is_bounded(sample_rate: u32, gap_frames: u64)
    ensures
        gap_to_fill(sample_rate, gap_frames) <= gap_frames,
        gap_to_fill(sample_rate, gap_frames) * 2 <= sample_rate,
        gap_frames <= frames_in_ms(sample_rate, MAX_GAP_MS) ==> gap_to_fill(
            sample_rate,
            gap_frames,
        ) == gap_frames,
{
}

/// Datagrams of others, of another protocol or of another format change nothing of what is played
/// or counted.
pub proof fn law_strangers_change_nothing(
    session: RecvSession,
    playout: PlayoutState,
    stats: ReceiverStats,
    from_peer: bool,
    bytes: Seq<u8>,
)
    requires
        !from_peer || (match Header::of_bytes(bytes) {
            None => true,
            Some(header) => header.sample_rate != session.sample_rate || header.channels
                != session.channels,
        }),
    ensures
        session.playout_after(playout, from_peer, bytes) == playout,
        session.stats_after(stats, from_peer, bytes) == stats,
        session.after(from_peer, bytes).tracker == session.tracker,
        session.after(from_peer, bytes).pkts == session.pkts,
        session.after(from_peer, bytes).bytes == session.bytes,
{
}

/// The sender's change of format is reported as new once only.
pub proof fn law_format_change_is_reported_once(
    session: RecvSession,
    bytes: Seq<u8>,
    again: Seq<u8>,
    first: Received,
    second: Received,
)
    requires
        session.datagram(true, bytes) is OtherFormat,
        session.datagram(true, again) is OtherFormat,
        session.answers(first, true, bytes),
        session.after(true, bytes).answers(second, true, again),
    ensures
        second == (Received::FormatChanged { first: false }),
        first == (Received::FormatChanged { first: !session.warned_format }),
{
}

/// A packet that comes twice is played once: the second time it is late, and changes nothing of
/// what is played.
pub proof fn law_repeated_packets_are_not_played(
    session: RecvSession,
    playout: PlayoutState,
    bytes: Seq<u8>,
    first: Received,
    second: Received,
)
    requires
        session.answers(first, true, bytes),
        first is Audio,
        session.after(true, bytes).answers(second, true, bytes),
    ensures
        second is Late,
        session.after(true, bytes).playout_after(playout, true, bytes) == playout,
        session.after(true, bytes).after(true, bytes).tracker.next == session.after(
            true,
            bytes,
        ).tracker.next,
{
    let header = session.datagram(true, bytes)->header;
    lemma_seq_of(header.seq as nat, header.seq as nat);
    lemma_seq_of(header.seq as nat + 1, header.seq as nat);
}

/// A goodbye ends a stream: the buffer gathers anew, and whatever audio comes next is the start of
/// a stream, with no silence before it.
pub proof fn law_goodbye_starts_anew(
    session: RecvSession,
    playout: PlayoutState,
    bye: Seq<u8>,
    next: Seq<u8>,
    received: Received,
)
    requires
        playout.queue.len() <= playout.capacity(),
        session.datagram(true, bye) is Bye,
        session.datagram(true, next) matches Datagram::Audio { frames, .. } && frames > 0,
        session.after(true, bye).answers(received, true, next),
    ensures
        received is Audio,
        ({
            let held = session.playout_after(playout, true, bye);
            &&& held == (PlayoutState { prebuffering: true, ..playout })
            &&& session.after(true, bye).playout_after(held, true, next).queue == playout.queue
            &&& session.after(true, bye).playout_after(held, true, next).prebuffering
        }),
{
    let held = session.playout_after(playout, true, bye);
    assert(0nat * session.channels as nat == 0) by (nonlinear_arith);
    assert(held.queue + silence(0).take(0) =~= held.queue);
}

/// A hello changes nothing once a stream is played.
pub proof fn law_hello_changes_nothing(
    session: RecvSession,
    playout: PlayoutState,
    stats: ReceiverStats,
    bytes: Seq<u8>,
)
    requires
        session.datagram(true, bytes) is Hello,
    ensures
        session.after(true, bytes) == session,
        session.playout_after(playout, true, bytes) == playout,
        session.stats_after(stats, true, bytes) == stats,
{
}

/// Whole frames are as many as the samples make up.
proof fn lemma_whole_frames(samples: nat, channels: nat)
    requires
        channels > 0,
    ensures
        samples / channels * channels <= samples < (samples / channels + 1) * channels,
{
    let (samples, channels) = (samples as int, channels as int);
    vstd::arithmetic::div_mod::lemma_fundamental_div_mod(samples, channels);
    assert((samples / channels + 1) * channels == channels * (samples / channels) + channels)
        by (nonlinear_arith);
    assert((samples / channels) * channels == channels * (samples / channels)) by (nonlinear_arith);
}

/// What a sender put into a packet of 16-bit samples is what the receiver is handed, every sample
/// of it, and with it the number of whole frames that they make up.
pub proof fn law_sent_s16_samples_are_handed_back(
    session: RecvSession,
    header: Header,
    samples: Seq<i16>,
    received: Received,
)
    requires
        session.channels > 0,
        header.ptype is Audio,
        header.format is S16le,
        header.sample_rate == session.sample_rate,
        header.channels == session.channels,
        session.answers(received, true, header.bytes() + s16_bytes(samples)),
        received is Audio,
    ensures
        received matches Received::Audio { frames, samples: got } && {
            &&& got matches Samples::S16(read) && read@ == samples
            &&& frames * session.channels <= samples.len() < (frames + 1) * session.channels
        },
{
    let payload = s16_bytes(samples);
    let bytes = header.bytes() + payload;
    law_header_round_trip(header, payload);
    lemma_header_len(header);
    assert(bytes.skip(HEADER_LEN as int) =~= payload);
    law_s16_round_trip(samples);
    assert(payload.len() / 2 == samples.len());
    lemma_whole_frames(samples.len(), session.channels as nat);
}

/// What a sender put into a packet of 32-bit samples is what the receiver is handed, every sample
/// of it bit for bit, and with it the number of whole frames that they make up.
pub proof fn law_sent_f32_samples_are_handed_back(
    session: RecvSession,
    header: Header,
    samples: Seq<u32>,
    received: Received,
)
    requires
        session.channels > 0,
        header.ptype is Audio,
        header.format is F32le,
        header.sample_rate == session.sample_rate,
        header.channels == session.channels,
        session.answers(received, true, header.bytes() + f32_bytes(samples)),
        received is Audio,
    ensures
        received matches Received::Audio { frames, samples: got } && {
            &&& got matches Samples::F32(read) && read@ == samples
            &&& frames * session.channels <= samples.len() < (frames + 1) * session.channels
        },
{
    let payload = f32_bytes(samples);
    let bytes = header.bytes() + payload;
    law_header_round_trip(header, payload);
    lemma_header_len(header);
    assert(bytes.skip(HEADER_LEN as int) =~= payload);
    law_f32_round_trip(samples);
    assert(payload.len() / 4 == samples.len());
    lemma_whole_frames(samples.len(), session.channels as nat);
}

/// What becomes of a packet of audio that is `ahead` packet numbers ahead of the one expected.
/// Every one counts. One without a whole frame is nothing more. From half the circle of numbers on
/// it is late. Any other is handed back, and the next one is expected behind it.
pub proof fn law_audio_is_handed_back_or_late(
    session: RecvSession,
    header: Header,
    payload: Seq<u8>,
    received: Received,
    ahead: int,
)
    requires
        session.channels > 0,
        header.ptype is Audio,
        header.sample_rate == session.sample_rate,
        header.channels == session.channels,
        payload.len() <= u32::MAX,
        0 <= ahead < 0x1_0000_0000,
        session.tracker.next matches Some(next) ==> header.seq == (next + ahead) % 0x1_0000_0000,
        session.tracker.next is None ==> ahead == 0,
        session.answers(received, true, header.bytes() + payload),
        session.counts_fit(true, header.bytes() + payload),
    ensures
        ({
            let after = session.after(true, header.bytes() + payload);
            let width = if header.format is S16le {
                2nat
            } else {
                4nat
            };
            let frames = payload.len() / width / session.channels as nat;
            let (before, tracker) = (session.tracker, after.tracker);
            &&& after.pkts == session.pkts + 1
            &&& after.bytes == session.bytes + 24 + payload.len()
            &&& after == (RecvSession { pkts: after.pkts, bytes: after.bytes, tracker, ..session })
            &&& frames == 0 ==> received is Empty && tracker == before
            &&& frames > 0 && ahead >= 0x8000_0000 ==> {
                &&& received is Late
                &&& tracker.next == before.next
                &&& tracker.lost_packets == before.lost_packets
                &&& tracker.late_packets == before.late_packets + 1
            }
            &&& frames > 0 && ahead < 0x8000_0000 ==> {
                &&& received matches Received::Audio { frames: count, samples } && count == frames
                    && samples.read_from(header.format, payload)
                &&& tracker.next == Some(((header.seq + 1) % 0x1_0000_0000) as u32)
                &&& tracker.lost_packets == before.lost_packets + (if ahead <= 2000 {
                    ahead
                } else {
                    0
                })
                &&& tracker.late_packets == before.late_packets
            }
        }),
{
    lemma_audio_datagram(session, header, payload);
    lemma_expected(session.tracker.next, header.seq, ahead, payload, session.channels as nat);
}

/// A datagram of audio is read as such.
proof fn lemma_audio_datagram(session: RecvSession, header: Header, payload: Seq<u8>)
    requires
        session.channels > 0,
        header.ptype is Audio,
        header.sample_rate == session.sample_rate,
        header.channels == session.channels,
    ensures
        session.datagram(true, header.bytes() + payload) == (Datagram::Audio {
            header,
            payload,
            frames: payload.len() / header.format.width() / session.channels as nat,
        }),
        (header.bytes() + payload).len() == 24 + payload.len(),
{
    let bytes = header.bytes() + payload;
    law_header_round_trip(header, payload);
    lemma_header_len(header);
    assert(bytes.skip(HEADER_LEN as int) =~= payload);
}

/// What the tracker makes of a packet, and that its frames can be counted.
proof fn lemma_expected(next: Option<u32>, seq: u32, ahead: int, payload: Seq<u8>, channels: nat)
    requires
        channels > 0,
        payload.len() <= u32::MAX,
        0 <= ahead < 0x1_0000_0000,
        next matches Some(next) ==> seq == (next + ahead) % 0x1_0000_0000,
        next is None ==> ahead == 0,
    ensures
        payload.len() / 2 / channels <= u32::MAX,
        payload.len() / 4 / channels <= u32::MAX,
        seq_after(seq) == (seq + 1) % 0x1_0000_0000,
        seq_lost(next, seq) == (if ahead <= 2000 {
            ahead
        } else {
            0
        }),
        forall|frames: u32|
            #![trigger seq_verdict(next, seq, frames)]
            (seq_verdict(next, seq, frames) is Drop <==> ahead >= 0x8000_0000) && (ahead <= 2000
                ==> ahead * frames <= u64::MAX && seq_verdict(next, seq, frames) == (
            Verdict::Accept { gap_frames: (ahead * frames) as u64 })) && (2000 < ahead < 0x8000_0000
                ==> seq_verdict(next, seq, frames) == (Verdict::Accept { gap_frames: 0 })),
{
    vstd::arithmetic::div_mod::lemma_div_is_ordered_by_denominator(
        payload.len() as int / 2,
        1,
        channels as int,
    );
    vstd::arithmetic::div_mod::lemma_div_is_ordered_by_denominator(
        payload.len() as int / 4,
        1,
        channels as int,
    );
    assert forall|frames: u32|
        #![trigger seq_verdict(next, seq, frames)]
        (seq_verdict(next, seq, frames) is Drop <==> ahead >= 0x8000_0000) && (ahead <= 2000
            ==> ahead * frames <= u64::MAX && seq_verdict(next, seq, frames) == (Verdict::Accept {
            gap_frames: (ahead * frames) as u64,
        })) && (2000 < ahead < 0x8000_0000 ==> seq_verdict(next, seq, frames) == (Verdict::Accept {
            gap_frames: 0,
        })) by {
        match next {
            Some(next) => law_distance_decides(next, seq, ahead, frames),
            None => {
                law_first_packet_is_taken(seq, frames);
                assert(0 * frames == 0) by (nonlinear_arith);
            },
        }
    }
    match next {
        Some(next) => law_distance_decides(next, seq, ahead, 0),
        None => {
            law_first_packet_is_taken(seq, 0);
            law_distance_decides(seq, seq, 0, 0);
        },
    }
}

/// What a packet of audio puts into the buffer ahead of its own samples: zeros for the packets lost
/// before it, as many frames as they had, but half a second at most and no more than there is room
/// for. Everything that waits stays, and a packet that is late or empty changes nothing.
pub proof fn law_lost_packets_become_silence(
    session: RecvSession,
    playout: PlayoutState,
    header: Header,
    payload: Seq<u8>,
    ahead: int,
    i: int,
)
    requires
        session.channels > 0,
        playout.wf(),
        playout.sample_rate == session.sample_rate,
        playout.channels == session.channels,
        header.ptype is Audio,
        header.sample_rate == session.sample_rate,
        header.channels == session.channels,
        payload.len() <= u32::MAX,
        0 <= ahead < 0x1_0000_0000,
        session.tracker.next matches Some(next) ==> header.seq == (next + ahead) % 0x1_0000_0000,
        session.tracker.next is None ==> ahead == 0,
    ensures
        ({
            let after = session.playout_after(playout, true, header.bytes() + payload);
            let width = if header.format is S16le {
                2nat
            } else {
                4nat
            };
            let frames = payload.len() / width / session.channels as nat;
            let lost = if ahead <= 2000 {
                ahead * frames
            } else {
                0
            };
            let half = session.sample_rate as int / 2;
            let gap = (if lost <= half {
                lost
            } else {
                half
            }) * session.channels;
            let most = session.sample_rate * session.channels;
            let (old_len, len) = (playout.queue.len(), after.queue.len());
            &&& after == (PlayoutState { queue: after.queue, ..playout })
            &&& len == (if old_len + gap <= most {
                old_len + gap
            } else {
                most
            })
            &&& 0 <= i < old_len ==> after.queue[i] == playout.queue[i]
            &&& old_len <= i < len ==> after.queue[i] == 0
        }),
{
    lemma_audio_datagram(session, header, payload);
    lemma_expected(session.tracker.next, header.seq, ahead, payload, session.channels as nat);
    let width = header.format.width();
    let frames = payload.len() / width / session.channels as nat;
    let channels = session.channels as int;
    assert(session.sample_rate as int * 500 / 1000 == session.sample_rate as int / 2);
    assert(ahead * 0 == 0) by (nonlinear_arith);
    assert(0 * channels == 0) by (nonlinear_arith);
    assert(playout.queue.len() <= session.sample_rate * session.channels);
    assert(playout.queue + silence(0).take(0) =~= playout.queue);
    if frames > 0 && ahead < 0x8000_0000 {
        let verdict = seq_verdict(session.tracker.next, header.seq, frames as u32);
        let gap_frames = verdict->gap_frames;
        let fill = gap_to_fill(session.sample_rate, gap_frames) * session.channels as nat;
        crate::playout::law_queued_behind_what_waits(playout, silence(fill), i);
        crate::playout::law_silence_is_zeros(fill, i - playout.queue.len());
    }
}

/// A hello changes nothing. A goodbye makes the buffer gather anew and lets any packet come next,
/// and changes nothing else.
pub proof fn law_hello_and_goodbye(
    session: RecvSession,
    playout: PlayoutState,
    stats: ReceiverStats,
    header: Header,
    payload: Seq<u8>,
    received: Received,
)
    requires
        !(header.ptype is Audio),
        header.sample_rate == session.sample_rate,
        header.channels == session.channels,
        session.answers(received, true, header.bytes() + payload),
    ensures
        ({
            let bytes = header.bytes() + payload;
            let (after, buffer) = (
                session.after(true, bytes),
                session.playout_after(playout, true, bytes),
            );
            &&& session.stats_after(stats, true, bytes) == stats
            &&& header.ptype is Hello ==> received is Hello && after == session && buffer == playout
            &&& header.ptype is Bye ==> {
                &&& received is Bye
                &&& after.tracker.next is None
                &&& after.tracker.lost_packets == session.tracker.lost_packets
                &&& after.tracker.late_packets == session.tracker.late_packets
                &&& after == (RecvSession { tracker: after.tracker, ..session })
                &&& buffer == (PlayoutState { prebuffering: true, ..playout })
            }
        }),
{
    law_header_round_trip(header, payload);
}

/// What is not from the sender or not of this protocol is ignored, and a packet of another format
/// is reported, as new the first time only. Nothing else comes of either.
pub proof fn law_other_datagrams(
    session: RecvSession,
    playout: PlayoutState,
    stats: ReceiverStats,
    from_peer: bool,
    bytes: Seq<u8>,
    received: Received,
)
    requires
        session.answers(received, from_peer, bytes),
        from_peer && Header::of_bytes(bytes) is Some ==> Header::of_bytes(bytes)->0.sample_rate
            != session.sample_rate || Header::of_bytes(bytes)->0.channels != session.channels,
    ensures
        session.playout_after(playout, from_peer, bytes) == playout,
        session.stats_after(stats, from_peer, bytes) == stats,
        !from_peer || Header::of_bytes(bytes) is None ==> received is Ignored && session.after(
            from_peer,
            bytes,
        ) == session,
        from_peer && Header::of_bytes(bytes) is Some ==> {
            &&& received == (Received::FormatChanged { first: !session.warned_format })
            &&& session.after(from_peer, bytes) == (RecvSession { warned_format: true, ..session })
        },
{
}

/// Every packet of audio is counted in the statistics, with all its bytes, also one that is not
/// played.
pub proof fn law_audio_is_counted(
    session: RecvSession,
    stats: ReceiverStats,
    header: Header,
    payload: Seq<u8>,
)
    requires
        session.channels > 0,
        header.ptype is Audio,
        header.sample_rate == session.sample_rate,
        header.channels == session.channels,
        stats.pkts < u64::MAX,
        stats.bytes + 24 + payload.len() <= u64::MAX,
    ensures
        session.stats_after(stats, true, header.bytes() + payload) == (ReceiverStats {
            pkts: (stats.pkts + 1) as u64,
            bytes: (stats.bytes + 24 + payload.len()) as u64,
            ..stats
        }),
{
    lemma_audio_datagram(session, header, payload);
}

/// A device can play a stream in a range that has its channels, holds floats, and takes in its
/// sample rate.
pub proof fn law_ranges_that_play(range: OutputRange, sample_rate: u32, channels: u16)
    ensures
        range.plays(sample_rate, channels) <==> range.channels == channels && range.is_f32
            && range.min_sample_rate <= sample_rate && sample_rate <= range.max_sample_rate,
{
}

/// What a status line says: whose stream it is, its sample rate and its channels.
pub proof fn law_status_line_says(peer: Seq<char>, sample_rate: u32, channels: u8)
    ensures
        stream_line(peer, sample_rate, channels) == peer + " » "@ + decimal(sample_rate as nat)
            + " Гц, "@ + decimal(channels as nat) + " кан"@,
{
}

/// The samples of a payload are all that its bytes make up, in their order and in its format.
pub proof fn law_payloads_are_read_whole(format: WireFormat, payload: Seq<u8>, samples: Samples)
    requires
        samples.read_from(format, payload),
    ensures
        format is S16le ==> (samples matches Samples::S16(read) && {
            &&& read@.len() == payload.len() / 2
            &&& forall|k: int|
                0 <= k < read@.len() ==> {
                    let bits = payload[2 * k] + 0x100 * payload[2 * k + 1];
                    (#[trigger] read@[k]) == (if bits >= 0x8000 {
                        bits - 0x1_0000
                    } else {
                        bits
                    })
                }
        }),
        format is F32le ==> (samples matches Samples::F32(read) && {
            &&& read@.len() == payload.len() / 4
            &&& forall|k: int|
                0 <= k < read@.len() ==> (#[trigger] read@[k]) == payload[4 * k] + 0x100 * payload[4
                    * k + 1] + 0x1_0000 * payload[4 * k + 2] + 0x100_0000 * payload[4 * k + 3]
        }),
{
    match samples {
        Samples::S16(read) => {
            assert forall|k: int| 0 <= k < read@.len() && format is S16le implies {
                let bits = payload[2 * k] + 0x100 * payload[2 * k + 1];
                (#[trigger] read@[k]) == (if bits >= 0x8000 {
                    bits - 0x1_0000
                } else {
                    bits
                })
            } by {
                law_s16_reading(payload, k);
            }
        },
        Samples::F32(read) => {
            assert forall|k: int| 0 <= k < read@.len() && format is F32le implies (
            #[trigger] read@[k]) == payload[4 * k] + 0x100 * payload[4 * k + 1] + 0x1_0000
                * payload[4 * k + 2] + 0x100_0000 * payload[4 * k + 3] by {
                law_f32_reading(payload, k);
            }
        },
    }
}

} // verus!
