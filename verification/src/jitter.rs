//! The jitter buffer's bookkeeping: following packet numbers and compensating clock drift.
//!
//! Plain state without I/O.
use vstd::prelude::*;

verus! {

/// Above this many missing packets the sender is taken to have restarted: the tracker falls in
/// step with it and no silence is put in.
pub const RESTART_GAP_PACKETS: u32 = 2000;

/// Half the range of packet numbers: from here on a number is behind, not ahead.
pub const HALF_RANGE: u32 = 0x8000_0000;

#[derive(Debug, PartialEq, Eq, Structural)]
pub enum Verdict {
    /// Take the packet, after `gap_frames` frames of silence that stand for the packets lost
    /// before it, so that the stream keeps its timing.
    Accept { gap_frames: u64 },
    /// A late or repeated packet: leave it.
    Drop,
}

/// The packet number that follows `seq`.
pub open spec fn seq_after(seq: u32) -> u32 {
    if seq == u32::MAX {
        0
    } else {
        (seq + 1) as u32
    }
}

/// How far `seq` is ahead of `next`, counted round the circle of packet numbers.
pub open spec fn seq_ahead(next: u32, seq: u32) -> nat {
    ((seq - next) % 0x1_0000_0000) as nat
}

/// What a tracker that waits for `next` makes of a packet.
pub open spec fn seq_verdict(next: Option<u32>, seq: u32, frames_per_packet: u32) -> Verdict {
    match next {
        None => Verdict::Accept { gap_frames: 0 },
        Some(next) => {
            let ahead = seq_ahead(next, seq);
            if ahead >= HALF_RANGE {
                Verdict::Drop
            } else if ahead > RESTART_GAP_PACKETS {
                Verdict::Accept { gap_frames: 0 }
            } else {
                Verdict::Accept { gap_frames: (ahead * frames_per_packet) as u64 }
            }
        },
    }
}

/// How many packets are counted as lost when `seq` arrives.
pub open spec fn seq_lost(next: Option<u32>, seq: u32) -> nat {
    match next {
        Some(next) if seq_ahead(next, seq) <= RESTART_GAP_PACKETS => seq_ahead(next, seq),
        _ => 0,
    }
}

/// Follows the packet numbers of a stream.
#[derive(Debug)]
pub struct SeqTracker {
    /// The packet number that is expected next; `None` while any would do.
    pub next: Option<u32>,
    pub lost_packets: u64,
    pub late_packets: u64,
}

impl Default for SeqTracker {
    fn default() -> (tracker: SeqTracker)
        ensures
            tracker.next is None,
            tracker.lost_packets == 0,
            tracker.late_packets == 0,
    {
        SeqTracker { next: None, lost_packets: 0, late_packets: 0 }
    }
}

impl SeqTracker {
    pub fn new() -> (tracker: SeqTracker)
        ensures
            tracker.next is None,
            tracker.lost_packets == 0,
            tracker.late_packets == 0,
    {
        SeqTracker::default()
    }

    /// Takes whatever packet comes next as the start of a stream. The counts go on.
    pub fn reset(&mut self)
        ensures
            final(self).next is None,
            final(self).lost_packets == old(self).lost_packets,
            final(self).late_packets == old(self).late_packets,
    {
        self.next = None;
    }

    /// Decides on the audio packet with number `seq`, and counts what was lost before it or
    /// that it came late.
    pub fn on_audio(&mut self, seq: u32, frames_per_packet: u32) -> (verdict: Verdict)
        requires
            old(self).lost_packets + seq_lost(old(self).next, seq) <= u64::MAX,
            seq_verdict(old(self).next, seq, frames_per_packet) is Drop ==> old(
                self,
            ).late_packets < u64::MAX,
        ensures
            verdict == seq_verdict(old(self).next, seq, frames_per_packet),
            final(self).lost_packets == old(self).lost_packets + seq_lost(
                old(self).next,
                seq,
            ),
            final(self).late_packets == old(self).late_packets + if verdict is Drop {
                1int
            } else {
                0
            },
            final(self).next == if verdict is Drop {
                old(self).next
            } else {
                Some(seq_after(seq))
            },
    {
        match self.next {
            None => {
                self.next = Some(seq.wrapping_add(1));
                Verdict::Accept { gap_frames: 0 }
            },
            Some(next) => {
                let ahead: u32 = seq.wrapping_sub(next);
                assert(ahead == seq_ahead(next, seq));
                if ahead >= HALF_RANGE {
                    self.late_packets = self.late_packets + 1;
                    Verdict::Drop
                } else if ahead > RESTART_GAP_PACKETS {
                    self.next = Some(seq.wrapping_add(1));
                    Verdict::Accept { gap_frames: 0 }
                } else {
                    assert(ahead * frames_per_packet <= 2000 * u32::MAX) by (nonlinear_arith)
                        requires
                            ahead <= 2000,
                            frames_per_packet <= u32::MAX,
                    ;
                    self.lost_packets = self.lost_packets + ahead as u64;
                    self.next = Some(seq.wrapping_add(1));
                    Verdict::Accept { gap_frames: ahead as u64 * frames_per_packet as u64 }
                }
            },
        }
    }
}

/// The number on the wire of the packet that is number `index` of its stream.
pub open spec fn seq_of(index: nat) -> u32 {
    (index % 0x1_0000_0000) as u32
}

/// Packet numbers follow each other round the circle.
pub proof fn lemma_seq_of(i: nat, j: nat)
    ensures
        seq_after(seq_of(i)) == seq_of(i + 1),
        i <= j < i + 0x1_0000_0000 ==> seq_ahead(seq_of(i), seq_of(j)) == j - i,
        j <= i < j + 0x1_0000_0000 ==> seq_ahead(seq_of(i), seq_of(j)) == (if i == j {
            0
        } else {
            0x1_0000_0000 - (i - j)
        }),
{
}

/// Lost packets are made up for: when packet `j` of a stream is the next to arrive after packet
/// `i`, the silence before it is as long as the packets that were lost in between, even where
/// the numbers wrap round.
pub proof fn law_gap_keeps_timing(i: nat, j: nat, frames_per_packet: u32)
    requires
        i < j <= i + 1 + RESTART_GAP_PACKETS,
    ensures
        seq_verdict(Some(seq_after(seq_of(i))), seq_of(j), frames_per_packet) == (Verdict::Accept {
            gap_frames: ((j - i - 1) * frames_per_packet) as u64,
        }),
        seq_lost(Some(seq_after(seq_of(i))), seq_of(j)) == j - i - 1,
{
    lemma_seq_of(i, j);
    lemma_seq_of(i + 1, j);
}

/// Packets that arrive in order are all taken, with no silence between them.
pub proof fn law_in_order_is_seamless(i: nat, frames_per_packet: u32)
    ensures
        seq_verdict(Some(seq_after(seq_of(i))), seq_of(i + 1), frames_per_packet) == (
        Verdict::Accept { gap_frames: 0 }),
        seq_lost(Some(seq_after(seq_of(i))), seq_of(i + 1)) == 0,
{
    law_gap_keeps_timing(i, i + 1, frames_per_packet);
    assert((i + 1 - i - 1) * frames_per_packet == 0) by (nonlinear_arith);
}

/// A packet that was taken, and every one before it, is dropped when it comes again.
pub proof fn law_late_is_dropped(i: nat, j: nat, frames_per_packet: u32)
    requires
        j <= i < j + HALF_RANGE,
    ensures
        seq_verdict(Some(seq_after(seq_of(i))), seq_of(j), frames_per_packet) is Drop,
        seq_lost(Some(seq_after(seq_of(i))), seq_of(j)) == 0,
{
    lemma_seq_of(i, j);
    lemma_seq_of(i + 1, j);
}

/// A larger leap forward is a restart: the packet is taken, and nothing counts as lost.
pub proof fn law_leap_is_a_restart(i: nat, j: nat, frames_per_packet: u32)
    requires
        i + 1 + RESTART_GAP_PACKETS < j < i + 1 + HALF_RANGE,
    ensures
        seq_verdict(Some(seq_after(seq_of(i))), seq_of(j), frames_per_packet) == (Verdict::Accept {
            gap_frames: 0,
        }),
        seq_lost(Some(seq_after(seq_of(i))), seq_of(j)) == 0,
{
    lemma_seq_of(i, j);
    lemma_seq_of(i + 1, j);
}

/// What a tracker comes to over many packets.
pub struct Tally {
    /// The packet number that is expected next.
    pub next: Option<u32>,
    pub taken: nat,
    pub lost: nat,
    pub late: nat,
    /// How many frames of silence were put in.
    pub silence: nat,
}

/// What a new tracker comes to when the packets with the given numbers of their stream arrive one
/// after another.
pub open spec fn tally(arrivals: Seq<nat>, frames_per_packet: u32) -> Tally
    decreases arrivals.len(),
{
    if arrivals.len() == 0 {
        Tally { next: None, taken: 0, lost: 0, late: 0, silence: 0 }
    } else {
        let before = tally(arrivals.drop_last(), frames_per_packet);
        let seq = seq_of(arrivals.last());
        let lost = before.lost + seq_lost(before.next, seq);
        match seq_verdict(before.next, seq, frames_per_packet) {
            Verdict::Drop => Tally { lost, late: before.late + 1, ..before },
            Verdict::Accept { gap_frames } => Tally {
                next: Some(seq_after(seq)),
                taken: before.taken + 1,
                lost,
                silence: before.silence + gap_frames as nat,
                ..before
            },
        }
    }
}

/// The highest of some numbers.
pub open spec fn highest(arrivals: Seq<nat>) -> nat
    decreases arrivals.len(),
{
    if arrivals.len() == 0 {
        0
    } else if arrivals.last() > highest(arrivals.drop_last()) {
        arrivals.last()
    } else {
        highest(arrivals.drop_last())
    }
}

/// Whether every packet but the first is one that a tracker can place: not so far ahead of those
/// before it that it is a restart, nor so far behind that its number reads as one ahead.
pub open spec fn placeable(arrivals: Seq<nat>) -> bool {
    forall|k: int|
        0 < k < arrivals.len() ==> {
            let top = highest(#[trigger] arrivals.take(k));
            arrivals[k] <= top + 1 + RESTART_GAP_PACKETS && top < arrivals[k] + HALF_RANGE
        }
}

/// What can be placed can be placed without the last packet.
proof fn lemma_placeable_front(arrivals: Seq<nat>)
    requires
        arrivals.len() > 0,
        placeable(arrivals),
    ensures
        placeable(arrivals.drop_last()),
{
    let front = arrivals.drop_last();
    assert forall|k: int| 0 < k < front.len() implies {
        let top = highest(#[trigger] front.take(k));
        front[k] <= top + 1 + RESTART_GAP_PACKETS && top < front[k] + HALF_RANGE
    } by {
        assert(front.take(k) =~= arrivals.take(k));
    }
}

/// Every packet is accounted for, in whatever order they arrive and wherever the numbers wrap
/// round: those taken and those lost make up the stream from its first packet to its highest, and
/// all others came late. What is expected next is the packet after the highest.
pub proof fn law_taken_and_lost_make_up_the_stream(arrivals: Seq<nat>, frames_per_packet: u32)
    requires
        arrivals.len() > 0,
        placeable(arrivals),
    ensures
        ({
            let tally = tally(arrivals, frames_per_packet);
            &&& tally.next == Some(seq_after(seq_of(highest(arrivals))))
            &&& tally.taken + tally.lost == highest(arrivals) - arrivals[0] + 1
            &&& tally.taken + tally.late == arrivals.len()
        }),
    decreases arrivals.len(),
{
    let front = arrivals.drop_last();
    let last = arrivals.last();
    if front.len() == 0 {
        assert(tally(front, frames_per_packet).next is None);
        assert(highest(front) == 0);
    } else {
        lemma_placeable_front(arrivals);
        law_taken_and_lost_make_up_the_stream(front, frames_per_packet);
        assert(arrivals.take(front.len() as int) =~= front);
        let top = highest(front);
        if last > top {
            law_gap_keeps_timing(top, last, frames_per_packet);
        } else {
            law_late_is_dropped(top, last, frames_per_packet);
        }
    }
}

/// The stream keeps its length: the silence that is put in and the audio that is taken make up all
/// frames from the start of the first packet to the end of the highest.
pub proof fn law_silence_and_audio_make_up_the_stream(arrivals: Seq<nat>, frames_per_packet: u32)
    requires
        arrivals.len() > 0,
        placeable(arrivals),
    ensures
        ({
            let tally = tally(arrivals, frames_per_packet);
            tally.silence + tally.taken * frames_per_packet == (highest(arrivals) - arrivals[0] + 1)
                * frames_per_packet
        }),
    decreases arrivals.len(),
{
    let front = arrivals.drop_last();
    let last = arrivals.last();
    let frames = frames_per_packet as int;
    if front.len() == 0 {
        assert(tally(front, frames_per_packet).next is None);
        assert(highest(front) == 0);
    } else {
        lemma_placeable_front(arrivals);
        law_taken_and_lost_make_up_the_stream(front, frames_per_packet);
        law_silence_and_audio_make_up_the_stream(front, frames_per_packet);
        assert(arrivals.take(front.len() as int) =~= front);
        let top = highest(front) as int;
        let (taken, first) = (tally(front, frames_per_packet).taken as int, arrivals[0] as int);
        if last > top {
            law_gap_keeps_timing(top as nat, last, frames_per_packet);
            let gap = last - top - 1;
            assert(0 <= gap * frames <= 2000 * u32::MAX) by (nonlinear_arith)
                requires
                    0 <= gap <= 2000,
                    0 <= frames <= u32::MAX,
            ;
            assert((taken + 1) * frames == taken * frames + frames) by (nonlinear_arith);
            assert((last - first + 1) * frames == (top - first + 1) * frames + gap * frames
                + frames) by (nonlinear_arith)
                requires
                    gap == last - top - 1,
            ;
        } else {
            law_late_is_dropped(top as nat, last, frames_per_packet);
        }
    }
}

/// A packet that is dropped does not turn the tracker back: it counts as late, and nothing else
/// changes.
pub proof fn law_dropped_packets_do_not_rewind(
    arrivals: Seq<nat>,
    late: nat,
    frames_per_packet: u32,
)
    requires
        seq_verdict(
            tally(arrivals, frames_per_packet).next,
            seq_of(late),
            frames_per_packet,
        ) is Drop,
    ensures
        tally(arrivals.push(late), frames_per_packet) == (Tally {
            late: tally(arrivals, frames_per_packet).late + 1,
            ..tally(arrivals, frames_per_packet)
        }),
{
    assert(arrivals.push(late).drop_last() =~= arrivals);
}

/// It does not matter at which number a stream starts: the same shift of the number that is
/// expected and of the one that comes, round the circle, changes no decision.
pub proof fn law_only_the_distance_decides(
    next: u32,
    seq: u32,
    shift: nat,
    frames_per_packet: u32,
)
    ensures
        seq_verdict(
            Some(seq_of(next as nat + shift)),
            seq_of(seq as nat + shift),
            frames_per_packet,
        ) == seq_verdict(Some(next), seq, frames_per_packet),
        seq_lost(Some(seq_of(next as nat + shift)), seq_of(seq as nat + shift)) == seq_lost(
            Some(next),
            seq,
        ),
{
    assert(seq_ahead(seq_of(next as nat + shift), seq_of(seq as nat + shift)) == seq_ahead(
        next,
        seq,
    ));
}

#[derive(Debug, Clone, Copy, PartialEq, Eq, Structural)]
pub enum Slip {
    /// The buffer is near its target: play the input as it is.
    Keep,
    /// The buffer is steadily above its target: leave one frame of the input out.
    DropFrame,
    /// The buffer is steadily below its target: play one frame of the input twice.
    DupFrame,
}

/// What to do about the drift between the sender's clock and the receiver's: nothing inside the
/// dead zone, nor before a whole frame has come due; and otherwise one frame less or one more.
pub open spec fn slip_for(in_dead_zone: bool, due: bool, above_target: bool) -> Slip {
    if in_dead_zone || !due {
        Slip::Keep
    } else if above_target {
        Slip::DropFrame
    } else {
        Slip::DupFrame
    }
}

/// Counts the frames that were left out and repeated to compensate clock drift.
#[derive(Debug)]
pub struct DriftComp {
    pub dropped_frames: u64,
    pub duplicated_frames: u64,
}

impl DriftComp {
    pub fn new() -> (drift: DriftComp)
        ensures
            drift.dropped_frames == 0,
            drift.duplicated_frames == 0,
    {
        DriftComp { dropped_frames: 0, duplicated_frames: 0 }
    }

    /// Decides on the slip for one packet, and counts it.
    pub fn on_packet(&mut self, in_dead_zone: bool, due: bool, above_target: bool) -> (slip: Slip)
        requires
            slip_for(in_dead_zone, due, above_target) is DropFrame ==> old(self).dropped_frames
                < u64::MAX,
            slip_for(in_dead_zone, due, above_target) is DupFrame ==> old(self).duplicated_frames
                < u64::MAX,
        ensures
            slip == slip_for(in_dead_zone, due, above_target),
            final(self).dropped_frames == old(self).dropped_frames + if slip is DropFrame {
                1int
            } else {
                0
            },
            final(self).duplicated_frames == old(self).duplicated_frames + if slip is DupFrame {
                1int
            } else {
                0
            },
    {
        if in_dead_zone || !due {
            Slip::Keep
        } else if above_target {
            self.dropped_frames = self.dropped_frames + 1;
            Slip::DropFrame
        } else {
            self.duplicated_frames = self.duplicated_frames + 1;
            Slip::DupFrame
        }
    }
}

/// A packet's samples after the slip: the first frame left out, repeated, or neither.
pub open spec fn slipped(samples: Seq<u32>, channels: nat, slip: Slip) -> Seq<u32> {
    match slip {
        Slip::Keep => samples,
        Slip::DropFrame => samples.skip(channels as int),
        Slip::DupFrame => samples.take(channels as int) + samples,
    }
}

/// Applies a slip to the samples of a packet that holds at least one frame.
pub fn apply_slip(samples: &mut Vec<u32>, channels: usize, slip: Slip)
    requires
        slip != Slip::Keep ==> channels <= old(samples)@.len(),
    ensures
        final(samples)@ == slipped(old(samples)@, channels as nat, slip),
{
    let ghost before = samples@;
    match slip {
        Slip::Keep => {},
        Slip::DropFrame => {
            let rest = samples.split_off(channels);
            *samples = rest;
            assert(samples@ =~= before.skip(channels as int));
        },
        Slip::DupFrame => {
            let mut frame: Vec<u32> = Vec::new();
            let mut i: usize = 0;
            while i < channels
                invariant
                    i <= channels <= samples@.len(),
                    samples@ == before,
                    frame@ == before.take(i as int),
                decreases channels - i,
            {
                frame.push(samples[i]);
                assert(before.take(i + 1) =~= before.take(i as int).push(before[i as int]));
                i = i + 1;
            }
            frame.append(samples);
            *samples = frame;
        },
    }
}

/// A slip moves the stream by one frame at most, and only at the packet's start: everything after
/// the first frame is played as it came.
pub proof fn law_slip_is_one_frame(samples: Seq<u32>, channels: nat, slip: Slip)
    requires
        channels <= samples.len(),
    ensures
        slipped(samples, channels, slip).len() == samples.len() + match slip {
            Slip::Keep => 0int,
            Slip::DropFrame => -channels,
            Slip::DupFrame => channels as int,
        },
        samples.skip(channels as int).is_suffix_of(slipped(samples, channels, slip)),
{
    let rest = samples.skip(channels as int);
    let out = slipped(samples, channels, slip);
    assert(rest =~= out.subrange(out.len() - rest.len(), out.len() as int));
}

/// What is made of a packet depends on how many packet numbers it is ahead of the one expected,
/// round the circle: up to two thousand it is taken after as many packets' worth of silence, and
/// those count as lost; further ahead it is a restart; from half the circle on it is late. The next
/// one is expected behind it.
pub proof fn law_distance_decides(next: u32, seq: u32, ahead: int, frames_per_packet: u32)
    requires
        0 <= ahead < 0x1_0000_0000,
        seq == (next + ahead) % 0x1_0000_0000,
    ensures
        ({
            let verdict = seq_verdict(Some(next), seq, frames_per_packet);
            let lost = seq_lost(Some(next), seq);
            &&& ahead <= 2000 ==> verdict == (Verdict::Accept {
                gap_frames: (ahead * frames_per_packet) as u64,
            }) && ahead * frames_per_packet <= u64::MAX && lost == ahead
            &&& 2000 < ahead < 0x8000_0000 ==> verdict == (Verdict::Accept { gap_frames: 0 })
                && lost == 0
            &&& 0x8000_0000 <= ahead ==> verdict is Drop && lost == 0
        }),
        seq_after(seq) == (seq + 1) % 0x1_0000_0000,
{
    assert(seq_ahead(next, seq) == ahead);
    if ahead <= 2000 {
        assert(ahead * frames_per_packet <= 2000 * u32::MAX) by (nonlinear_arith)
            requires
                0 <= ahead <= 2000,
                frames_per_packet <= u32::MAX,
        ;
    }
}

/// The first packet is taken whatever its number, and nothing counts as lost before it.
pub proof fn law_first_packet_is_taken(seq: u32, frames_per_packet: u32)
    ensures
        seq_verdict(None, seq, frames_per_packet) == (Verdict::Accept { gap_frames: 0 }),
        seq_lost(None, seq) == 0,
{
}

/// Nothing is done about drift inside the dead zone, nor while no frame is due. Otherwise a buffer
/// above its target loses a frame, and any other gets one more.
pub proof fn law_drift_is_compensated_when_due(in_dead_zone: bool, due: bool, above_target: bool)
    ensures
        in_dead_zone ==> slip_for(in_dead_zone, due, above_target) is Keep,
        !due ==> slip_for(in_dead_zone, due, above_target) is Keep,
        !in_dead_zone && due && above_target ==> slip_for(
            in_dead_zone,
            due,
            above_target,
        ) is DropFrame,
        !in_dead_zone && due && !above_target ==> slip_for(
            in_dead_zone,
            due,
            above_target,
        ) is DupFrame,
{
}

/// Which samples are left of a packet: all of them as they came; or all behind the first frame; or
/// the first frame, and then all of them.
pub proof fn law_slip_sample_by_sample(samples: Seq<u32>, channels: nat, slip: Slip, i: int)
    requires
        channels <= samples.len(),
    ensures
        ({
            let out = slipped(samples, channels, slip);
            &&& slip is Keep ==> out == samples
            &&& slip is DropFrame ==> out.len() + channels == samples.len()
            &&& slip is DropFrame && channels <= i < samples.len() ==> out[i - channels]
                == samples[i]
            &&& slip is DupFrame ==> out.len() == samples.len() + channels
            &&& slip is DupFrame && 0 <= i < channels ==> out[i] == samples[i]
            &&& slip is DupFrame && 0 <= i < samples.len() ==> out[i + channels] == samples[i]
        }),
{
}

} // verus!
