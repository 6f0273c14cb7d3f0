//! Counters and messages that the workers leave for the log and for the window, and the clocks
//! that decide when they are shown.
use std::time::Instant;
use vstd::prelude::*;

verus! {

pub const NANOS_PER_SECOND: u128 = 1_000_000_000;

/// A point in time, as the standard library measures it.
#[verifier::external_type_specification]
#[verifier::external_body]
pub struct ExInstant(std::time::Instant);

/// `std::time::Instant::now`: nothing is claimed of the time that it gives.
#[verifier::external_body]
fn now() -> Instant {
    Instant::now()
}

/// How many nanoseconds lie between two points in time; none if the second one is the earlier.
pub uninterp spec fn nanos_from(earlier: std::time::Instant, later: std::time::Instant) -> u128;

/// `std::time::Instant::duration_since`, in nanoseconds: what it gives depends on the two points
/// alone.
#[verifier::external_body]
fn nanos_between(earlier: Instant, later: Instant) -> (nanos: u128)
    ensures
        nanos == nanos_from(earlier, later),
{
    later.duration_since(earlier).as_nanos()
}

/// A clock that strikes when a second has gone by since it last struck.
pub struct EverySecond {
    pub last: Instant,
    pub period_nanos: u128,
}

impl EverySecond {
    /// A clock that first strikes a second from now.
    pub fn new() -> (clock: EverySecond)
        ensures
            clock.period_nanos == NANOS_PER_SECOND,
    {
        EverySecond { last: now(), period_nanos: NANOS_PER_SECOND }
    }

    /// True when it is time for the next line of statistics: at the time that the clock reads, a
    /// whole period has gone by since the strike before, and the next one counts from that time.
    /// Otherwise the clock does not change, and its period never does. A period of nothing has
    /// always gone by, whatever the time.
    pub fn tick(&mut self) -> (due: bool)
        ensures
            final(self).period_nanos == old(self).period_nanos,
            old(self).period_nanos == 0 ==> due,
            exists|time: std::time::Instant|
                (due <==> #[trigger] nanos_from(old(self).last, time) >= old(self).period_nanos)
                    && final(self).last == (if due {
                    time
                } else {
                    old(self).last
                }),
    {
        let time = now();
        let elapsed: u128 = nanos_between(self.last, time);
        self.tick_at(time, elapsed)
    }

    /// What the clock does at `time`, when `elapsed` nanoseconds have gone by since it struck:
    /// it strikes if that is a whole period or more.
    pub fn tick_at(&mut self, time: Instant, elapsed: u128) -> (due: bool)
        ensures
            due <==> elapsed >= old(self).period_nanos,
            final(self).period_nanos == old(self).period_nanos,
            final(self).last == if due {
                time
            } else {
                old(self).last
            },
    {
        if elapsed >= self.period_nanos {
            self.last = time;
            true
        } else {
            false
        }
    }
}

/// What a sender has counted since it started; rates follow from the differences.
#[derive(Debug)]
pub struct SenderStats {
    pub pkts: u64,
    pub bytes: u64,
    pub ring_overflow: u64,
    /// The peak level of the last packet, 0 to 1, as the bits of a 32-bit float.
    pub level: u32,
    /// The line that says what the sender is doing.
    pub status: Option<String>,
    /// The error that ended the work, for the window to show.
    pub error: Option<String>,
}

impl Default for SenderStats {
    fn default() -> (stats: SenderStats)
        ensures
            stats.pkts == 0,
            stats.bytes == 0,
            stats.ring_overflow == 0,
            stats.level == 0,
            stats.status is None,
            stats.error is None,
    {
        SenderStats { pkts: 0, bytes: 0, ring_overflow: 0, level: 0, status: None, error: None }
    }
}

/// What a receiver has counted since it started.
#[derive(Debug)]
pub struct ReceiverStats {
    pub pkts: u64,
    pub bytes: u64,
    /// The peak level of the last packet after the volume was applied, 0 to 1, as the bits of a
    /// 32-bit float.
    pub level: u32,
    /// How much sound the buffer holds, in milliseconds.
    pub fill_ms: u64,
    pub lost: u64,
    pub late: u64,
    pub underruns: u64,
    pub cuts: u64,
    pub slip_dropped: u64,
    pub slip_duplicated: u64,
    pub ring_overflow: u64,
    pub status: Option<String>,
    pub error: Option<String>,
}

impl Default for ReceiverStats {
    fn default() -> (stats: ReceiverStats)
        ensures
            stats.pkts == 0,
            stats.bytes == 0,
            stats.level == 0,
            stats.fill_ms == 0,
            stats.lost == 0,
            stats.late == 0,
            stats.underruns == 0,
            stats.cuts == 0,
            stats.slip_dropped == 0,
            stats.slip_duplicated == 0,
            stats.ring_overflow == 0,
            stats.status is None,
            stats.error is None,
    {
        ReceiverStats {
            pkts: 0,
            bytes: 0,
            level: 0,
            fill_ms: 0,
            lost: 0,
            late: 0,
            underruns: 0,
            cuts: 0,
            slip_dropped: 0,
            slip_duplicated: 0,
            ring_overflow: 0,
            status: None,
            error: None,
        }
    }
}

/// Leaves a message in a slot, in place of the one that was there.
pub fn set_msg(slot: &mut Option<String>, msg: String)
    ensures
        *final(slot) == Some(msg),
{
    *slot = Some(msg);
}

/// The message in a slot, which stays there.
pub fn get_msg(slot: &Option<String>) -> (msg: Option<String>)
    ensures
        msg == *slot,
{
    match slot {
        Some(text) => Some(text.clone()),
        None => None,
    }
}

/// The speed of a counter that only grows: what it gained (`delta`) in how much time (`nanos`).
/// Both are zero until a second has been measured.
pub struct RateMeter {
    pub last: Option<(Instant, u64)>,
    pub delta: u64,
    pub nanos: u128,
}

impl RateMeter {
    /// What the meter shows was measured over a second or more, or it shows nothing.
    pub open spec fn wf(&self) -> bool {
        self.nanos >= NANOS_PER_SECOND || (self.nanos == 0 && self.delta == 0)
    }

    pub fn new() -> (meter: RateMeter)
        ensures
            meter.wf(),
            meter.last is None,
            meter.delta == 0,
            meter.nanos == 0,
    {
        RateMeter { last: None, delta: 0, nanos: 0 }
    }

    /// Reads the counter now. The first reading after a start only sets the meter going; a later
    /// one is a measurement if a second or more has gone by since the one before at the time that
    /// is read, and changes nothing if not.
    pub fn update(&mut self, counter: u64)
        ensures
            old(self).wf() ==> final(self).wf(),
            final(self).last is Some,
            old(self).last is None ==> {
                &&& final(self).last matches Some(now_read) && now_read.1 == counter
                &&& final(self).delta == old(self).delta
                &&& final(self).nanos == old(self).nanos
            },
            old(self).last matches Some(reading) ==> exists|time: std::time::Instant|
                if #[trigger] nanos_from(reading.0, time) >= NANOS_PER_SECOND {
                    &&& final(self).last == Some((time, counter))
                    &&& final(self).nanos == nanos_from(reading.0, time)
                    &&& final(self).delta == counter_gain(reading.1, counter)
                } else {
                    *final(self) == *old(self)
                },
    {
        let time = now();
        let elapsed: u128 = match self.last {
            Some((earlier, _)) => nanos_between(earlier, time),
            None => 0,
        };
        self.update_at(time, elapsed, counter);
    }

    /// What the meter does with the reading `counter` at `time`, when `elapsed` nanoseconds have
    /// gone by since the reading before: it measures only over a second or more.
    pub fn update_at(&mut self, time: Instant, elapsed: u128, counter: u64)
        ensures
            old(self).wf() ==> final(self).wf(),
            match old(self).last {
                None => {
                    &&& final(self).last == Some((time, counter))
                    &&& final(self).delta == old(self).delta
                    &&& final(self).nanos == old(self).nanos
                },
                Some((_, before)) => if elapsed >= NANOS_PER_SECOND {
                    &&& final(self).last == Some((time, counter))
                    &&& final(self).delta == counter_gain(before, counter)
                    &&& final(self).nanos == elapsed
                } else {
                    *final(self) == *old(self)
                },
            },
    {
        match self.last {
            Some((_, before)) => {
                if elapsed >= NANOS_PER_SECOND {
                    self.delta = counter.saturating_sub(before);
                    self.nanos = elapsed;
                    self.last = Some((time, counter));
                }
            },
            None => {
                self.last = Some((time, counter));
            },
        }
    }

    /// Forgets every reading.
    pub fn reset(&mut self)
        ensures
            final(self).wf(),
            final(self).last is None,
            final(self).delta == 0,
            final(self).nanos == 0,
    {
        self.last = None;
        self.delta = 0;
        self.nanos = 0;
    }
}

/// What a counter gained between two readings; one that fell gained nothing.
pub open spec fn counter_gain(before: u64, counter: u64) -> u64 {
    if counter >= before {
        (counter - before) as u64
    } else {
        0
    }
}

/// What a counter gained is what it must be given to come from one reading to the next.
pub proof fn law_counter_gain(before: u64, counter: u64)
    ensures
        before <= counter ==> before + counter_gain(before, counter) == counter,
        counter < before ==> counter_gain(before, counter) == 0,
{
}

} // verus!
