use soundtransfer::jitter::{SeqTracker, Verdict};

#[test]
fn seq_in_order() {
    let mut t = SeqTracker::new();
    assert_eq!(t.on_audio(10, 128), Verdict::Accept { gap_frames: 0 });
    assert_eq!(t.on_audio(11, 128), Verdict::Accept { gap_frames: 0 });
    assert_eq!(t.lost_packets, 0);
}

#[test]
fn seq_gap_inserts_silence() {
    let mut t = SeqTracker::new();
    t.on_audio(1, 128);
    assert_eq!(t.on_audio(4, 128), Verdict::Accept { gap_frames: 256 });
    assert_eq!(t.lost_packets, 2);
    assert_eq!(t.on_audio(5, 128), Verdict::Accept { gap_frames: 0 });
}

#[test]
fn seq_late_and_dup_dropped() {
    let mut t = SeqTracker::new();
    t.on_audio(10, 128);
    t.on_audio(11, 128);
    assert_eq!(t.on_audio(11, 128), Verdict::Drop);
    assert_eq!(t.on_audio(5, 128), Verdict::Drop);
    assert_eq!(t.late_packets, 2);
}

#[test]
fn seq_wraps_around() {
    let mut t = SeqTracker::new();
    t.on_audio(u32::MAX, 128);
    assert_eq!(t.on_audio(0, 128), Verdict::Accept { gap_frames: 0 });
    assert_eq!(t.on_audio(1, 128), Verdict::Accept { gap_frames: 0 });
}

#[test]
fn seq_huge_gap_treated_as_restart() {
    let mut t = SeqTracker::new();
    t.on_audio(1, 128);
    assert_eq!(t.on_audio(100_000, 128), Verdict::Accept { gap_frames: 0 });
    assert_eq!(t.lost_packets, 0);
}

#[test]
fn seq_gap_at_the_edge_of_a_restart() {
    let mut t = SeqTracker::new();
    t.on_audio(0, 64);
    assert_eq!(t.on_audio(2001, 64), Verdict::Accept { gap_frames: 128_000 });
    assert_eq!(t.lost_packets, 2000);
    assert_eq!(t.on_audio(4003, 64), Verdict::Accept { gap_frames: 0 });
    assert_eq!(t.lost_packets, 2000);
}

#[test]
fn seq_gap_across_the_wrap() {
    let mut t = SeqTracker::new();
    t.on_audio(u32::MAX - 1, 10);
    assert_eq!(t.on_audio(2, 10), Verdict::Accept { gap_frames: 30 });
    assert_eq!(t.on_audio(u32::MAX, 10), Verdict::Drop);
    t.reset();
    assert_eq!(t.on_audio(77, 10), Verdict::Accept { gap_frames: 0 });
    assert_eq!((t.lost_packets, t.late_packets), (3, 1));
}

#[test]
fn seq_taken_and_lost_make_up_the_stream() {
    let arrivals = [u32::MAX - 1, 2, u32::MAX, 1, 5, 5, 3, 6];
    let mut t = SeqTracker::new();
    let taken = arrivals
        .iter()
        .filter(|&&seq| t.on_audio(seq, 128) != Verdict::Drop)
        .count() as u64;
    // From the first number to the highest there are nine packets.
    assert_eq!(taken + t.lost_packets, 9);
    assert_eq!(taken + t.late_packets, arrivals.len() as u64);
    assert_eq!(t.next, Some(7));
}

#[test]
fn seq_dropped_packets_do_not_rewind() {
    let mut t = SeqTracker::new();
    t.on_audio(10, 128);
    assert_eq!(t.on_audio(4, 128), Verdict::Drop);
    assert_eq!(t.next, Some(11));
    assert_eq!(t.on_audio(11, 128), Verdict::Accept { gap_frames: 0 });
    assert_eq!((t.lost_packets, t.late_packets), (0, 1));
}

#[test]
fn seq_only_the_distance_decides() {
    for shift in [0u32, 1, 1 << 31, u32::MAX] {
        for (seq, verdict) in [
            (100u32, Verdict::Accept { gap_frames: 0 }),
            (103, Verdict::Accept { gap_frames: 384 }),
            (2101, Verdict::Accept { gap_frames: 0 }),
            (99, Verdict::Drop),
        ] {
            let mut t = SeqTracker::new();
            t.on_audio(99u32.wrapping_add(shift), 128);
            assert_eq!(t.on_audio(seq.wrapping_add(shift), 128), verdict);
        }
    }
}

#[test]
fn seq_silence_and_audio_make_up_the_stream() {
    let mut t = SeqTracker::new();
    let mut frames = 0;
    for seq in [u32::MAX - 1, 2, u32::MAX, 5, 3, 6] {
        if let Verdict::Accept { gap_frames } = t.on_audio(seq, 128) {
            frames += gap_frames + 128;
        }
    }
    assert_eq!(frames, 9 * 128);
}
