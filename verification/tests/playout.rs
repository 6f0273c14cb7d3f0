use soundtransfer::playout::{can_play, Playout};

/// A buffer of mono sound at 1000 Hz, so that a frame is a millisecond and a sample.
fn buffer(target_ms: u32) -> Playout {
    Playout::new(1000, 1, target_ms)
}

fn render(playout: &mut Playout, len: usize) -> Vec<u32> {
    let mut out = vec![u32::MAX; len];
    playout.render(&mut out);
    out
}

#[test]
fn gathers_in_silence_and_then_plays_in_order() {
    let mut playout = buffer(4);
    assert_eq!(playout.target_frames(), 4);
    assert_eq!(playout.enqueue(&[1, 2, 3]), 0);
    assert_eq!(render(&mut playout, 2), vec![0, 0]);
    assert_eq!(playout.fill_frames(), 3);
    assert_eq!(playout.enqueue(&[4, 5]), 0);
    assert_eq!(render(&mut playout, 2), vec![1, 2]);
    assert_eq!(render(&mut playout, 2), vec![3, 4]);
    assert_eq!(playout.underruns(), 0);
}

#[test]
fn running_dry_counts_once_and_gathers_again() {
    let mut playout = buffer(2);
    playout.enqueue(&[1, 2, 3]);
    assert_eq!(render(&mut playout, 5), vec![1, 2, 3, 0, 0]);
    assert_eq!(playout.underruns(), 1);
    playout.enqueue(&[4]);
    assert_eq!(render(&mut playout, 1), vec![0]);
    assert_eq!(playout.underruns(), 1);
    playout.enqueue(&[5]);
    assert_eq!(render(&mut playout, 2), vec![4, 5]);
}

#[test]
fn what_piles_up_is_cut_back_to_the_target() {
    let mut playout = buffer(10);
    let fifty: Vec<u32> = (0..50).collect();
    playout.enqueue(&fifty);
    assert_eq!(render(&mut playout, 1), vec![0]);
    assert_eq!(playout.cuts(), 0);
    playout.enqueue(&[50, 51]);
    // 51 frames wait, one more than the cut allows: the oldest 41 go.
    assert_eq!(render(&mut playout, 2), vec![42, 43]);
    assert_eq!(playout.cuts(), 1);
    assert_eq!(playout.fill_frames(), 8);
}

#[test]
fn a_long_cut_takes_more_than_one_stretch() {
    let mut playout = Playout::new(48000, 2, 20);
    let samples: Vec<u32> = (0..90_000).collect();
    assert_eq!(playout.enqueue(&samples), 0);
    assert_eq!(playout.fill_ms(), 937);
    assert_eq!(render(&mut playout, 2), vec![90_000 - 1920, 90_000 - 1919]);
    assert_eq!(playout.cuts(), 1);
    assert_eq!(playout.fill_frames(), 959);
}

#[test]
fn a_full_buffer_says_how_much_it_had_no_room_for() {
    let mut playout = buffer(0);
    let samples = vec![1u32; 990];
    assert_eq!(playout.enqueue(&samples), 0);
    assert_eq!(playout.enqueue(&vec![2u32; 30]), 20);
    assert_eq!(playout.fill_ms(), 1000);
}

#[test]
fn silence_is_queued_as_far_as_there_is_room() {
    let mut playout = buffer(0);
    playout.enqueue(&[9]);
    playout.enqueue_silence(7, &[0, 0, 0]);
    playout.enqueue(&[8]);
    assert_eq!(playout.fill_frames(), 9);
    assert_eq!(render(&mut playout, 9), vec![9, 0, 0, 0, 0, 0, 0, 0, 8]);
    playout.enqueue_silence(5000, &[0, 0, 0]);
    assert_eq!(playout.fill_frames(), 1000);
}

#[test]
fn holding_keeps_what_is_queued() {
    let mut playout = buffer(3);
    playout.enqueue(&[1, 2, 3, 4]);
    assert_eq!(render(&mut playout, 2), vec![1, 2]);
    playout.hold();
    assert_eq!(render(&mut playout, 2), vec![0, 0]);
    playout.enqueue(&[5]);
    assert_eq!(render(&mut playout, 3), vec![3, 4, 5]);
}

#[test]
fn played_seconds_are_whole() {
    let mut playout = buffer(0);
    for _ in 0..3 {
        playout.enqueue(&vec![1u32; 30]);
        render(&mut playout, 30);
    }
    assert_eq!(playout.seconds_played(), 0);
    for _ in 0..31 {
        playout.enqueue(&vec![1u32; 30]);
        render(&mut playout, 30);
    }
    assert_eq!(playout.seconds_played(), 1);
}

#[test]
fn a_stream_needs_a_rate_and_channels() {
    assert!(can_play(48000, 2));
    assert!(!can_play(0, 2));
    assert!(!can_play(48000, 0));
}
