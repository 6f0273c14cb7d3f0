//! The playout buffer: what stands between the network and the sound card.
//!
//! Received samples queue up in it, and the sound card takes them from it. It stays silent until
//! enough has gathered to ride out the jitter of the network, falls silent again when it runs
//! dry, and throws away what has piled up when it holds far too much.
use crate::ring::{ring_capacity, SampleRing};
use vstd::arithmetic::div_mod::{lemma_fundamental_div_mod, lemma_fundamental_div_mod_converse};
use vstd::arithmetic::mul::{
    lemma_mul_is_commutative, lemma_mul_is_distributive_sub_other_way,
};
use vstd::prelude::*;
use vstd::slice::slice_subrange;

verus! {

/// How far above its target the buffer may grow, in milliseconds, before it is cut.
pub const CUT_OVER_TARGET_MS: u32 = 40;

/// How many words a cut takes out at a time.
pub const SCRATCH_LEN: usize = 4096;

/// What a playout buffer holds and has counted.
pub struct PlayoutState {
    /// The samples that wait to be played, the oldest first.
    pub queue: Seq<u32>,
    pub sample_rate: u32,
    pub channels: nat,
    /// How many frames must have gathered before anything is played.
    pub target_frames: nat,
    /// Above how many frames the buffer is cut.
    pub cut_frames: nat,
    /// Whether the buffer gathers and is silent.
    pub prebuffering: bool,
    pub underruns: u64,
    pub cuts: u64,
    pub frames_played: u64,
}

/// Silence: samples that are zero.
pub open spec fn silence(len: nat) -> Seq<u32> {
    Seq::new(len, |i: int| 0u32)
}

/// A counter that wraps round.
pub open spec fn counted(counter: u64, step: nat) -> u64 {
    ((counter + step) % 0x1_0000_0000_0000_0000) as u64
}

/// A length of time in frames.
pub open spec fn frames_in_ms(sample_rate: u32, ms: u32) -> nat {
    (sample_rate * ms / 1000) as nat
}

impl PlayoutState {
    /// How many samples the buffer holds at most: one second's worth.
    pub open spec fn capacity(self) -> nat {
        self.sample_rate as nat * self.channels
    }

    pub open spec fn wf(self) -> bool {
        &&& self.sample_rate > 0
        &&& self.channels > 0
        &&& self.queue.len() <= self.capacity() <= usize::MAX
        &&& self.target_frames <= self.cut_frames
    }

    /// How many whole frames the buffer holds.
    pub open spec fn frames(self) -> nat {
        self.queue.len() / self.channels
    }

    /// How many of `wanted` further samples there is room for.
    pub open spec fn room(self, wanted: nat) -> nat {
        if self.queue.len() + wanted <= self.capacity() {
            wanted
        } else {
            (self.capacity() - self.queue.len()) as nat
        }
    }

    /// The buffer after as many of `samples` as there is room for were put at its end.
    pub open spec fn pushed(self, samples: Seq<u32>) -> PlayoutState {
        PlayoutState {
            queue: self.queue + samples.take(self.room(samples.len()) as int),
            ..self
        }
    }

    /// Whether the buffer is still gathering.
    pub open spec fn waits(self) -> bool {
        self.prebuffering && self.frames() < self.target_frames
    }

    /// The buffer after what is too much was cut from its front, down to the target.
    pub open spec fn after_cut(self) -> PlayoutState {
        if self.frames() > self.cut_frames {
            PlayoutState {
                queue: self.queue.skip((self.frames() - self.target_frames) * self.channels),
                cuts: counted(self.cuts, 1),
                ..self
            }
        } else {
            self
        }
    }

    /// How many samples are played when the sound card asks for `len`.
    pub open spec fn played(self, len: nat) -> nat {
        if self.waits() {
            0
        } else if self.after_cut().queue.len() <= len {
            self.after_cut().queue.len()
        } else {
            len
        }
    }

    /// The buffer after the sound card asked for `len` samples.
    pub open spec fn rendered(self, len: nat) -> PlayoutState {
        if self.waits() {
            self
        } else {
            let short = self.played(len) < len;
            PlayoutState {
                queue: self.after_cut().queue.skip(self.played(len) as int),
                prebuffering: short,
                underruns: if short {
                    counted(self.underruns, 1)
                } else {
                    self.underruns
                },
                cuts: self.after_cut().cuts,
                frames_played: counted(self.frames_played, self.played(len) / self.channels),
                ..self
            }
        }
    }

    /// What the sound card gets when it asks for `len` samples.
    pub open spec fn output(self, len: nat) -> Seq<u32> {
        let played = self.played(len);
        if self.waits() {
            silence(len)
        } else {
            self.after_cut().queue.take(played as int) + silence((len - played) as nat)
        }
    }
}

/// A buffer in which nothing has gathered yet.
pub open spec fn fresh_playout(sample_rate: u32, channels: u8, buffer_ms: u32) -> PlayoutState {
    PlayoutState {
        queue: Seq::empty(),
        sample_rate,
        channels: channels as nat,
        target_frames: frames_in_ms(sample_rate, buffer_ms),
        cut_frames: frames_in_ms(sample_rate, buffer_ms) + frames_in_ms(
            sample_rate,
            CUT_OVER_TARGET_MS,
        ),
        prebuffering: true,
        underruns: 0,
        cuts: 0,
        frames_played: 0,
    }
}

/// A playout buffer.
pub struct Playout {
    ring: SampleRing,
    sample_rate: u32,
    channels: usize,
    target_frames: u64,
    cut_frames: u64,
    prebuffering: bool,
    underruns: u64,
    cuts: u64,
    frames_played: u64,
}

impl View for Playout {
    type V = PlayoutState;

    closed spec fn view(&self) -> PlayoutState {
        PlayoutState {
            queue: self.ring@,
            sample_rate: self.sample_rate,
            channels: self.channels as nat,
            target_frames: self.target_frames as nat,
            cut_frames: self.cut_frames as nat,
            prebuffering: self.prebuffering,
            underruns: self.underruns,
            cuts: self.cuts,
            frames_played: self.frames_played,
        }
    }
}

/// Whether one second of sound in a format can be held: it must have a rate and channels, and
/// fit in memory.
pub open spec fn can_hold(sample_rate: u32, channels: u8) -> bool {
    sample_rate > 0 && channels > 0 && sample_rate * channels * 4 <= isize::MAX
}

/// Whether one second of sound in a format can be held.
pub fn can_play(sample_rate: u32, channels: u8) -> (yes: bool)
    ensures
        yes == can_hold(sample_rate, channels),
{
    assert(sample_rate * channels <= u32::MAX * 255) by (nonlinear_arith)
        requires
            sample_rate <= u32::MAX,
            channels <= 255,
    ;
    sample_rate > 0 && channels > 0 && sample_rate as u64 * channels as u64 * 4 <= isize::MAX as u64
}

impl Playout {
    /// The queue is the ring's, and the ring has the size that the format asks for.
    pub closed spec fn wf(&self) -> bool {
        self@.wf() && ring_capacity(self.ring) == self@.capacity()
    }

    /// An empty buffer that gathers `buffer_ms` of sound before it plays.
    pub fn new(sample_rate: u32, channels: u8, buffer_ms: u32) -> (playout: Playout)
        requires
            can_hold(sample_rate, channels),
        ensures
            playout.wf(),
            playout@ == fresh_playout(sample_rate, channels, buffer_ms),
            playout@ == (PlayoutState {
                queue: Seq::empty(),
                sample_rate,
                channels: channels as nat,
                target_frames: frames_in_ms(sample_rate, buffer_ms),
                cut_frames: frames_in_ms(sample_rate, buffer_ms) + frames_in_ms(
                    sample_rate,
                    CUT_OVER_TARGET_MS,
                ),
                prebuffering: true,
                underruns: 0,
                cuts: 0,
                frames_played: 0,
            }),
    {
        proof {
            assert(sample_rate * channels > 0) by (nonlinear_arith)
                requires
                    sample_rate > 0,
                    channels > 0,
            ;
            assert(sample_rate * buffer_ms <= u32::MAX * u32::MAX) by (nonlinear_arith)
                requires
                    sample_rate <= u32::MAX,
                    buffer_ms <= u32::MAX,
            ;
            assert(sample_rate as usize == sample_rate);
        }
        let target_frames: u64 = sample_rate as u64 * buffer_ms as u64 / 1000;
        let cut_frames: u64 = target_frames + sample_rate as u64 * CUT_OVER_TARGET_MS as u64
            / 1000;
        Playout {
            ring: SampleRing::new(sample_rate as usize * channels as usize),
            sample_rate,
            channels: channels as usize,
            target_frames,
            cut_frames,
            prebuffering: true,
            underruns: 0,
            cuts: 0,
            frames_played: 0,
        }
    }

    /// How many whole frames wait to be played.
    pub fn fill_frames(&self) -> (frames: usize)
        requires
            self.wf(),
        ensures
            frames == self@.frames(),
    {
        self.ring.occupied_len() / self.channels
    }

    /// How much sound waits to be played, in milliseconds.
    pub fn fill_ms(&self) -> (ms: u64)
        requires
            self.wf(),
        ensures
            ms == self@.frames() * 1000 / self@.sample_rate as nat,
    {
        let frames: usize = self.fill_frames();
        proof {
            lemma_frames_bound(self@);
        }
        frames as u64 * 1000 / self.sample_rate as u64
    }

    /// How often the buffer ran dry.
    pub fn underruns(&self) -> (count: u64)
        ensures
            count == self@.underruns,
    {
        self.underruns
    }

    /// How often the buffer was cut.
    pub fn cuts(&self) -> (count: u64)
        ensures
            count == self@.cuts,
    {
        self.cuts
    }

    /// How many whole seconds of sound were played.
    pub fn seconds_played(&self) -> (seconds: u64)
        requires
            self.wf(),
        ensures
            seconds == self@.frames_played / self@.sample_rate as u64,
    {
        self.frames_played / self.sample_rate as u64
    }

    /// How many frames the buffer gathers before it plays.
    pub fn target_frames(&self) -> (frames: u64)
        ensures
            frames == self@.target_frames,
    {
        self.target_frames
    }

    /// Falls silent until enough has gathered again; what is queued stays.
    pub fn hold(&mut self)
        requires
            old(self).wf(),
        ensures
            final(self).wf(),
            final(self)@ == (PlayoutState { prebuffering: true, ..old(self)@ }),
    {
        self.prebuffering = true;
    }

    /// Queues samples, as many as there is room for, and returns how many there was none for.
    pub fn enqueue(&mut self, samples: &[u32]) -> (overflow: usize)
        requires
            old(self).wf(),
        ensures
            final(self).wf(),
            final(self)@ == old(self)@.pushed(samples@),
            overflow == samples@.len() - old(self)@.room(samples@.len()),
    {
        let ghost before = self@;
        let pushed: usize = self.ring.push_slice(samples);
        assert(self@ == before.pushed(samples@));
        samples.len() - pushed
    }

    /// Queues `samples` samples of silence, as many as there is room for. `quiet` is a stretch of
    /// silence to take them from.
    pub fn enqueue_silence(&mut self, samples: usize, quiet: &[u32])
        requires
            old(self).wf(),
            quiet@.len() > 0,
            quiet@ == silence(quiet@.len()),
        ensures
            final(self).wf(),
            final(self)@ == old(self)@.pushed(silence(samples as nat)),
    {
        let ghost before = self@;
        let mut gap: usize = samples;
        assert(before.pushed(silence(0)).queue =~= before.queue);
        while gap > 0
            invariant_except_break
                self.wf(),
                gap <= samples,
                quiet@.len() > 0,
                quiet@ == silence(quiet@.len()),
                before.queue.len() + (samples - gap) <= before.capacity(),
                self@ == before.pushed(silence((samples - gap) as nat)),
            ensures
                self.wf(),
                self@ == before.pushed(silence(samples as nat)),
            decreases gap,
        {
            let chunk: usize = if gap < quiet.len() {
                gap
            } else {
                quiet.len()
            };
            let ghost prior = self@;
            let pushed: usize = self.ring.push_slice(slice_subrange(quiet, 0, chunk));
            proof {
                assert(self@.queue =~= prior.queue + silence(pushed as nat));
                assert(self@.queue =~= before.queue + silence((samples - gap + pushed) as nat));
            }
            if pushed == 0 {
                assert(before.pushed(silence(samples as nat)).queue =~= self@.queue);
                break;
            }
            gap = gap - pushed;
            assert(before.pushed(silence((samples - gap) as nat)).queue =~= self@.queue);
        }
    }

    /// Gives the sound card the next `out.len()` samples: silence while the buffer gathers, and
    /// otherwise what was queued, in order, with silence at the end where the queue runs dry.
    pub fn render(&mut self, out: &mut [u32])
        requires
            old(self).wf(),
        ensures
            final(self).wf(),
            final(self)@ == old(self)@.rendered(old(out)@.len()),
            final(out)@ == old(self)@.output(old(out)@.len()),
    {
        let ghost before = self@;
        let ghost len = out@.len();
        let occupied: usize = self.ring.occupied_len();
        let frames: usize = occupied / self.channels;
        if self.prebuffering {
            if frames as u64 >= self.target_frames {
                self.prebuffering = false;
            } else {
                fill_silence(out, 0);
                assert(out@ =~= silence(len));
                return;
            }
        }
        if frames as u64 > self.cut_frames {
            proof {
                lemma_cut(before);
            }
            let target: usize = self.target_frames as usize;
            let excess: usize = (frames - target) * self.channels;
            self.discard(excess);
            self.cuts = self.cuts.wrapping_add(1);
        }
        assert(self.ring@ == before.after_cut().queue);
        let count: usize = self.ring.pop_slice(out);
        assert(count == before.played(len));
        let short = count < out.len();
        if short {
            fill_silence(out, count);
            self.underruns = self.underruns.wrapping_add(1);
            self.prebuffering = true;
        }
        assert(out@ =~= before.output(len));
        self.frames_played = self.frames_played.wrapping_add((count / self.channels) as u64);
        assert(self@ == before.rendered(len));
    }

    /// Takes the oldest `excess` samples out of the queue.
    fn discard(&mut self, excess: usize)
        requires
            excess <= old(self)@.queue.len(),
        ensures
            final(self)@ == (PlayoutState {
                queue: old(self)@.queue.skip(excess as int),
                ..old(self)@
            }),
            ring_capacity(final(self).ring) == ring_capacity(old(self).ring),
    {
        let ghost before = self@;
        let ghost capacity = ring_capacity(self.ring);
        let mut scratch: Vec<u32> = Vec::new();
        scratch.resize(SCRATCH_LEN, 0);
        let mut left: usize = excess;
        assert(before.queue.skip(0) =~= before.queue);
        while left > 0
            invariant
                left <= excess <= before.queue.len(),
                scratch@.len() <= SCRATCH_LEN,
                left > 0 ==> scratch@.len() > 0,
                ring_capacity(self.ring) == capacity,
                self@ == (PlayoutState { queue: before.queue.skip(excess - left), ..before }),
            decreases left,
        {
            if left < scratch.len() {
                scratch.truncate(left);
            }
            let ghost prior = self@.queue;
            let count: usize = self.ring.pop_slice(scratch.as_mut_slice());
            assert(count == scratch@.len());
            assert(prior.skip(count as int) =~= before.queue.skip(excess - left + count));
            left = left - count;
        }
    }
}

/// What holds of a well-formed buffer's state.
pub proof fn lemma_playout_wf(playout: &Playout)
    requires
        playout.wf(),
    ensures
        playout@.wf(),
{
}

/// Sets the samples of `out` from position `from` on to zero.
fn fill_silence(out: &mut [u32], from: usize)
    requires
        from <= old(out)@.len(),
    ensures
        final(out)@ == old(out)@.take(from as int) + silence((old(out)@.len() - from) as nat),
{
    let ghost before = out@;
    let len: usize = out.len();
    let mut i: usize = from;
    while i < len
        invariant
            from <= i <= len == before.len() == out@.len(),
            out@.take(from as int) == before.take(from as int),
            forall|k: int| from <= k < i ==> #[trigger] out@[k] == 0,
        decreases len - i,
    {
        let ghost prior = out@;
        out[i] = 0;
        assert(out@.take(from as int) =~= prior.take(from as int));
        i = i + 1;
    }
    assert(out@ =~= before.take(from as int) + silence((before.len() - from) as nat));
}

/// A buffer never holds more than a second of sound.
pub proof fn lemma_frames_bound(state: PlayoutState)
    requires
        state.wf(),
    ensures
        state.frames() <= state.sample_rate,
        state.frames() * state.channels <= state.queue.len(),
{
    let len = state.queue.len() as int;
    let channels = state.channels as int;
    lemma_fundamental_div_mod(len, channels);
    lemma_mul_is_commutative(channels, len / channels);
    assert(state.frames() <= state.sample_rate) by (nonlinear_arith)
        requires
            state.frames() as int * channels <= len,
            len <= state.sample_rate * channels,
            channels > 0,
    ;
}

/// A cut takes out whole frames, and leaves exactly the target and what was not a whole frame.
pub proof fn lemma_cut(state: PlayoutState)
    requires
        state.wf(),
        state.frames() > state.cut_frames,
    ensures
        0 < (state.frames() - state.target_frames) * state.channels <= state.queue.len(),
        state.after_cut().queue.len() == state.target_frames * state.channels + state.queue.len()
            % state.channels,
        state.after_cut().frames() == state.target_frames,
{
    let len = state.queue.len() as int;
    let channels = state.channels as int;
    let frames = state.frames() as int;
    let target = state.target_frames as int;
    lemma_fundamental_div_mod(len, channels);
    lemma_mul_is_distributive_sub_other_way(channels, frames, target);
    assert((frames - target) * channels > 0) by (nonlinear_arith)
        requires
            frames > target,
            channels > 0,
    ;
    assert(target * channels >= 0) by (nonlinear_arith)
        requires
            target >= 0,
            channels > 0,
    ;
    lemma_fundamental_div_mod_converse(
        target * channels + len % channels,
        channels,
        target,
        len % channels,
    );
}

/// Every operation keeps the buffer within its bounds.
pub proof fn law_playout_stays_within_bounds(state: PlayoutState, samples: Seq<u32>, len: nat)
    requires
        state.wf(),
    ensures
        state.pushed(samples).wf(),
        state.rendered(len).wf(),
{
    if state.frames() > state.cut_frames {
        lemma_cut(state);
    }
}

/// While the buffer gathers it plays silence, keeps everything, and counts nothing.
pub proof fn law_gathering_is_silent(state: PlayoutState, len: nat)
    requires
        state.waits(),
    ensures
        state.output(len) == silence(len),
        state.rendered(len) == state,
{
}

/// The sound card gets the samples in the order in which they were queued: what it is given and
/// what is left, joined, are the queue as it stood after the cut, and only silence follows them.
pub proof fn law_playout_is_first_in_first_out(state: PlayoutState, len: nat)
    requires
        state.wf(),
    ensures
        state.output(len).len() == len,
        !state.waits() ==> state.output(len).take(state.played(len) as int) + state.rendered(
            len,
        ).queue == state.after_cut().queue,
        state.output(len).skip(state.played(len) as int) == silence(
            (len - state.played(len)) as nat,
        ),
{
    let played = state.played(len) as int;
    let queue = state.after_cut().queue;
    if !state.waits() {
        assert(state.output(len).take(played) + state.rendered(len).queue =~= queue);
    }
    assert(state.output(len).skip(played) =~= silence((len - played) as nat));
}

/// A buffer that is neither gathering nor overfull plays exactly what was queued first.
pub proof fn law_steady_playout(state: PlayoutState, len: nat)
    requires
        state.wf(),
        !state.waits(),
        state.frames() <= state.cut_frames,
        len <= state.queue.len(),
    ensures
        state.output(len) == state.queue.take(len as int),
        state.rendered(len).queue == state.queue.skip(len as int),
        !state.rendered(len).prebuffering,
        state.rendered(len).underruns == state.underruns,
        state.rendered(len).cuts == state.cuts,
{
    assert(state.output(len) =~= state.queue.take(len as int));
}

/// An overfull buffer is brought back to its target at once: it drops only the oldest whole
/// frames, and plays on from there.
pub proof fn law_cut_returns_to_target(state: PlayoutState)
    requires
        state.wf(),
        state.frames() > state.cut_frames,
    ensures
        state.after_cut().frames() == state.target_frames,
        state.after_cut().queue.is_suffix_of(state.queue),
        state.after_cut().cuts == counted(state.cuts, 1),
{
    lemma_cut(state);
    let queue = state.queue;
    let rest = state.after_cut().queue;
    assert(rest =~= queue.subrange(queue.len() - rest.len(), queue.len() as int));
}

/// However much has piled up, playing leaves no more of it than the cut allows.
pub proof fn law_delay_is_bounded(state: PlayoutState, len: nat)
    requires
        state.wf(),
        !state.waits(),
    ensures
        state.rendered(len).frames() <= state.cut_frames,
{
    if state.frames() > state.cut_frames {
        lemma_cut(state);
    }
    vstd::arithmetic::div_mod::lemma_div_is_ordered(
        state.rendered(len).queue.len() as int,
        state.after_cut().queue.len() as int,
        state.channels as int,
    );
}

/// A buffer that runs dry counts it once and gathers anew: it stays silent until the target is
/// reached again.
pub proof fn law_running_dry_gathers_again(state: PlayoutState, len: nat, more: nat)
    requires
        state.wf(),
        !state.waits(),
        state.after_cut().queue.len() < len,
        state.target_frames > 0,
    ensures
        state.rendered(len).underruns == counted(state.underruns, 1),
        state.rendered(len).queue.len() == 0,
        state.rendered(len).waits(),
        state.rendered(len).output(more) == silence(more),
{
    assert(0nat / state.channels == 0) by (nonlinear_arith)
        requires
            state.channels > 0,
    ;
}

/// While the buffer gathers, short of as many whole frames as its target, the sound card gets
/// nothing but zeros, and the buffer keeps everything.
pub proof fn law_nothing_plays_before_the_target(state: PlayoutState, len: nat, i: int)
    requires
        state.wf(),
        state.prebuffering,
        state.queue.len() / state.channels < state.target_frames,
    ensures
        state.output(len).len() == len,
        0 <= i < len ==> state.output(len)[i] == 0,
        state.rendered(len) == state,
{
}

/// Once the target has been reached, or as long as the buffer has not run dry since, the sound card
/// gets the queue from its front on, sample by sample; zeros follow only where the queue ends. What
/// was played leaves the queue, and the rest stays in its order. Above the cut, whole frames at the
/// front are thrown away first, down to the target.
pub proof fn law_playing_is_the_queue_from_its_front(state: PlayoutState, len: nat, i: int)
    requires
        state.wf(),
        !state.prebuffering || state.queue.len() / state.channels >= state.target_frames,
    ensures
        ({
            let frames = state.queue.len() / state.channels;
            let cut = if frames > state.cut_frames {
                (frames - state.target_frames) * state.channels
            } else {
                0
            };
            let there = state.queue.len() - cut;
            let (out, left) = (state.output(len), state.rendered(len));
            &&& 0 <= cut <= state.queue.len()
            &&& out.len() == len
            &&& 0 <= i < len && i < there ==> out[i] == state.queue[cut + i]
            &&& there <= i < len ==> out[i] == 0
            &&& left.queue.len() == (if there <= len {
                0
            } else {
                there - len
            })
            &&& 0 <= i < there - len ==> left.queue[i] == state.queue[cut + len + i]
        }),
{
    if state.queue.len() / state.channels > state.cut_frames {
        lemma_cut(state);
    }
}

/// What playing counts: a buffer that could not give all that was asked for has run dry once more
/// and gathers again, and any other plays on; a buffer that was above its cut was cut once more; and
/// the whole frames that were played are added up. The format and the limits stay.
pub proof fn law_playing_is_counted(state: PlayoutState, len: nat)
    requires
        state.wf(),
        !state.prebuffering || state.queue.len() / state.channels >= state.target_frames,
    ensures
        ({
            let frames = state.queue.len() / state.channels;
            let cut = if frames > state.cut_frames {
                (frames - state.target_frames) * state.channels
            } else {
                0
            };
            let there = state.queue.len() - cut;
            let left = state.rendered(len);
            let played = if there <= len {
                there
            } else {
                len as int
            };
            &&& left.prebuffering <==> there < len
            &&& there < len && state.underruns < u64::MAX ==> left.underruns == state.underruns + 1
            &&& there >= len ==> left.underruns == state.underruns
            &&& frames > state.cut_frames && state.cuts < u64::MAX ==> left.cuts == state.cuts + 1
            &&& frames <= state.cut_frames ==> left.cuts == state.cuts
            &&& state.frames_played + played / state.channels as int <= u64::MAX
                ==> left.frames_played == state.frames_played + played / state.channels as int
            &&& left.sample_rate == state.sample_rate
            &&& left.channels == state.channels
            &&& left.target_frames == state.target_frames
            &&& left.cut_frames == state.cut_frames
        }),
{
    if state.queue.len() / state.channels > state.cut_frames {
        lemma_cut(state);
    }
}

/// Samples are queued behind those that wait, in their order, as far as a second of sound leaves
/// room; nothing that waits is touched, and nothing else changes.
pub proof fn law_queued_behind_what_waits(state: PlayoutState, samples: Seq<u32>, i: int)
    requires
        state.wf(),
    ensures
        ({
            let (before, after) = (state.queue, state.pushed(samples).queue);
            let most = state.sample_rate * state.channels;
            &&& after.len() == (if before.len() + samples.len() <= most {
                (before.len() + samples.len()) as int
            } else {
                most
            })
            &&& 0 <= i < before.len() ==> after[i] == before[i]
            &&& before.len() <= i < after.len() ==> after[i] == samples[i - before.len()]
            &&& state.pushed(samples) == (PlayoutState { queue: after, ..state })
            &&& state.room(samples.len()) == after.len() - before.len()
        }),
{
}

/// Milliseconds become whole frames: as many as fit. The cut lies forty milliseconds above the
/// target.
pub proof fn law_frames_of_milliseconds(sample_rate: u32, ms: u32)
    ensures
        frames_in_ms(sample_rate, ms) * 1000 <= sample_rate * ms,
        sample_rate * ms < (frames_in_ms(sample_rate, ms) + 1) * 1000,
        frames_in_ms(sample_rate, CUT_OVER_TARGET_MS) == frames_in_ms(sample_rate, 40),
{
    assert(sample_rate * ms >= 0) by (nonlinear_arith);
}

/// The frames that wait are the whole frames in the queue.
pub proof fn law_whole_frames_are_counted(state: PlayoutState)
    requires
        state.wf(),
    ensures
        state.frames() * state.channels <= state.queue.len(),
        state.queue.len() < (state.frames() + 1) * state.channels,
{
    let (len, channels) = (state.queue.len() as int, state.channels as int);
    lemma_fundamental_div_mod(len, channels);
    assert((len / channels + 1) * channels == channels * (len / channels) + channels)
        by (nonlinear_arith);
    assert((len / channels) * channels == channels * (len / channels)) by (nonlinear_arith);
}

/// A counter goes up by what is counted, and starts again at zero past its end.
pub proof fn law_counters_wrap(counter: u64, step: nat)
    ensures
        counter + step <= u64::MAX ==> counted(counter, step) == counter + step,
        u64::MAX < counter + step <= 2 * u64::MAX ==> counted(counter, step) == counter + step
            - 0x1_0000_0000_0000_0000,
{
}

/// A stretch of silence has its length, and every sample of it is zero.
pub proof fn law_silence_is_zeros(len: nat, i: int)
    ensures
        silence(len).len() == len,
        0 <= i < len ==> silence(len)[i] == 0,
{
}

/// Every stream with a sample rate and channels can be played, as long as a second of it fits in
/// memory at four bytes for a sample.
pub proof fn law_streams_that_can_be_played(sample_rate: u32, channels: u8)
    ensures
        can_hold(sample_rate, channels) <==> {
            &&& sample_rate > 0
            &&& channels > 0
            &&& 4 * (sample_rate * channels) <= isize::MAX
        },
{
}

/// A new buffer gathers the sound of as many milliseconds as are set, in whole frames, and is cut
/// when it holds forty milliseconds more. It is empty, and has counted nothing.
pub proof fn law_new_buffer_gathers_as_set(sample_rate: u32, channels: u8, buffer_ms: u32)
    ensures
        ({
            let state = fresh_playout(sample_rate, channels, buffer_ms);
            let over = state.cut_frames - state.target_frames;
            &&& state.target_frames * 1000 <= sample_rate * buffer_ms
            &&& sample_rate * buffer_ms < (state.target_frames + 1) * 1000
            &&& over * 1000 <= sample_rate * 40 < (over + 1) * 1000
            &&& state.queue.len() == 0
            &&& state.prebuffering
            &&& state.sample_rate == sample_rate
            &&& state.channels == channels
            &&& state.underruns == 0 && state.cuts == 0 && state.frames_played == 0
        }),
{
    law_frames_of_milliseconds(sample_rate, buffer_ms);
    law_frames_of_milliseconds(sample_rate, 40);
}

} // verus!
