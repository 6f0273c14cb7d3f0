use soundtransfer::stats::{
    get_msg, set_msg, EverySecond, RateMeter, ReceiverStats, SenderStats, NANOS_PER_SECOND,
};
use std::time::Instant;

#[test]
fn a_clock_strikes_after_a_whole_second() {
    let mut clock = EverySecond::new();
    let later = Instant::now();
    assert!(!clock.tick());
    assert!(!clock.tick_at(later, NANOS_PER_SECOND - 1));
    assert!(clock.tick_at(later, NANOS_PER_SECOND));
    assert_eq!(clock.last, later);
}

#[test]
fn a_clock_that_was_set_back_strikes() {
    let mut clock = EverySecond::new();
    clock.period_nanos = 0;
    assert!(clock.tick());
    let now = Instant::now();
    assert!(clock.last <= now);
}

#[test]
fn a_meter_measures_over_a_second_or_more() {
    let start = Instant::now();
    let mut meter = RateMeter::new();
    meter.update_at(start, 0, 100);
    assert_eq!((meter.delta, meter.nanos), (0, 0));
    meter.update_at(start, NANOS_PER_SECOND - 1, 400);
    assert_eq!((meter.delta, meter.nanos), (0, 0));
    meter.update_at(start, 2 * NANOS_PER_SECOND, 475);
    assert_eq!((meter.delta, meter.nanos), (375, 2 * NANOS_PER_SECOND));
    assert_eq!(meter.last, Some((start, 475)));
    meter.update_at(start, NANOS_PER_SECOND, 10);
    assert_eq!(meter.delta, 0);
    meter.reset();
    assert_eq!((meter.last, meter.delta, meter.nanos), (None, 0, 0));
}

#[test]
fn a_meter_reads_the_time_itself() {
    let before = Instant::now();
    let mut meter = RateMeter::new();
    meter.update(5);
    let (read, counter) = meter.last.unwrap();
    assert!(before <= read && read <= Instant::now());
    assert_eq!(counter, 5);
    meter.update(9);
    assert_eq!(meter.last, Some((read, 5)));
}

#[test]
fn messages_replace_each_other() {
    let mut slot = None;
    assert_eq!(get_msg(&slot), None);
    set_msg(&mut slot, "one".to_string());
    set_msg(&mut slot, "two".to_string());
    assert_eq!(get_msg(&slot), Some("two".to_string()));
    assert_eq!(slot, Some("two".to_string()));
}

#[test]
fn statistics_start_at_zero() {
    let sender = SenderStats::default();
    assert_eq!((sender.pkts, sender.bytes, sender.ring_overflow, sender.level), (0, 0, 0, 0));
    assert_eq!((sender.status, sender.error), (None, None));
    let receiver = ReceiverStats::default();
    assert_eq!((receiver.pkts, receiver.bytes, receiver.fill_ms, receiver.lost), (0, 0, 0, 0));
    assert_eq!((receiver.status, receiver.error), (None, None));
}

#[test]
fn a_clock_and_a_meter_measure_the_time_that_goes_by() {
    let mut clock = EverySecond::new();
    let mut meter = RateMeter::new();
    meter.update(10);
    let start = Instant::now();
    let mut strikes = 0;
    while start.elapsed().as_millis() < 1500 {
        if clock.tick() {
            strikes += 1;
        }
        meter.update(110);
    }
    assert_eq!(strikes, 1);
    assert_eq!(meter.delta, 100);
    assert!(meter.nanos >= NANOS_PER_SECOND);
}
