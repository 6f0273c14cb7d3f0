use soundtransfer::jitter::{apply_slip, DriftComp, Slip};
use soundtransfer::playout::Playout;
use soundtransfer::protocol::{Header, PacketType, WireFormat, HEADER_LEN};
use soundtransfer::receiver::{
    decode, default_output_fits, pick_output_config, status_line, OutputDefault, OutputRange,
    Received, RecvSession, Samples,
};
use soundtransfer::stats::ReceiverStats;

fn header(ptype: PacketType, seq: u32) -> Header {
    Header {
        ptype,
        channels: 2,
        format: WireFormat::S16le,
        sample_rate: 1000,
        seq,
        sample_pos: 0,
    }
}

fn packet(header: &Header, payload: &[u8]) -> Vec<u8> {
    let mut bytes = vec![0u8; HEADER_LEN];
    header.write(&mut bytes);
    bytes.extend_from_slice(payload);
    bytes
}

struct Rig {
    session: RecvSession,
    playout: Playout,
    stats: ReceiverStats,
}

impl Rig {
    fn new() -> Rig {
        Rig {
            session: RecvSession::new(&header(PacketType::Hello, 0)),
            playout: Playout::new(1000, 2, 1),
            stats: ReceiverStats::default(),
        }
    }

    fn take(&mut self, from_peer: bool, bytes: &[u8]) -> Received {
        assert!(self.session.has_room(bytes.len()));
        self.session
            .on_datagram(&mut self.playout, &mut self.stats, from_peer, bytes)
    }
}

#[test]
fn audio_is_counted_and_handed_back() {
    let mut rig = Rig::new();
    let bytes = packet(&header(PacketType::Audio, 7), &[1, 0, 255, 255, 2, 0, 254, 255]);
    assert_eq!(
        rig.take(true, &bytes),
        Received::Audio {
            frames: 2,
            samples: Samples::S16(vec![1, -1, 2, -2]),
        }
    );
    assert_eq!(rig.stats.pkts, 1);
    assert_eq!(rig.stats.bytes, 32);
    assert_eq!(rig.session.take_window(), (1, 32));
    assert_eq!(rig.session.take_window(), (0, 0));
    assert_eq!(rig.playout.fill_frames(), 0);
}

#[test]
fn lost_packets_become_silence() {
    let mut rig = Rig::new();
    rig.take(true, &packet(&header(PacketType::Audio, 1), &[0; 8]));
    rig.take(true, &packet(&header(PacketType::Audio, 4), &[0; 8]));
    assert_eq!(rig.session.tracker.lost_packets, 2);
    assert_eq!(rig.playout.fill_frames(), 4);
}

#[test]
fn silence_for_one_gap_is_at_most_half_a_second() {
    let mut rig = Rig::new();
    rig.take(true, &packet(&header(PacketType::Audio, 1), &[0; 8]));
    rig.take(true, &packet(&header(PacketType::Audio, 1002), &[0; 8]));
    assert_eq!(rig.session.tracker.lost_packets, 1000);
    assert_eq!(rig.playout.fill_frames(), 500);
}

#[test]
fn strangers_and_garbage_are_ignored() {
    let mut rig = Rig::new();
    let bytes = packet(&header(PacketType::Audio, 1), &[0; 8]);
    assert_eq!(rig.take(false, &bytes), Received::Ignored);
    assert_eq!(rig.take(true, &bytes[..HEADER_LEN - 1]), Received::Ignored);
    assert_eq!(rig.take(true, b"GET / HTTP/1.1\r\nHost: somewhere\r\n"), Received::Ignored);
    assert_eq!(rig.stats.pkts, 0);
}

#[test]
fn a_change_of_format_is_told_once() {
    let mut rig = Rig::new();
    let mut other = header(PacketType::Audio, 1);
    other.sample_rate = 44100;
    let bytes = packet(&other, &[0; 8]);
    assert_eq!(rig.take(true, &bytes), Received::FormatChanged { first: true });
    assert_eq!(rig.take(true, &bytes), Received::FormatChanged { first: false });
    let mut other = header(PacketType::Bye, 1);
    other.channels = 1;
    assert_eq!(
        rig.take(true, &packet(&other, &[])),
        Received::FormatChanged { first: false }
    );
    assert_eq!(rig.stats.pkts, 0);
}

#[test]
fn hello_changes_nothing_and_goodbye_starts_anew() {
    let mut rig = Rig::new();
    rig.take(true, &packet(&header(PacketType::Audio, 1), &[0; 8]));
    assert_eq!(rig.take(true, &packet(&header(PacketType::Hello, 2), &[])), Received::Hello);
    assert_eq!(rig.session.tracker.next, Some(2));
    assert_eq!(rig.take(true, &packet(&header(PacketType::Bye, 2), &[])), Received::Bye);
    assert_eq!(rig.session.tracker.next, None);
    assert!(matches!(
        rig.take(true, &packet(&header(PacketType::Audio, 40), &[0; 8])),
        Received::Audio { .. }
    ));
    assert_eq!(rig.session.tracker.lost_packets, 0);
    assert_eq!(rig.playout.fill_frames(), 0);
}

#[test]
fn empty_and_late_audio_is_not_played() {
    let mut rig = Rig::new();
    let empty = packet(&header(PacketType::Audio, 5), &[0; 3]);
    assert_eq!(rig.take(true, &empty), Received::Empty);
    assert_eq!(rig.session.tracker.next, None);
    let bytes = packet(&header(PacketType::Audio, 5), &[0; 4]);
    rig.take(true, &bytes);
    assert_eq!(rig.take(true, &bytes), Received::Late);
    assert_eq!(rig.session.tracker.late_packets, 1);
    assert_eq!(rig.stats.pkts, 3);
}

#[test]
fn queued_audio_slips_by_one_frame() {
    let mut rig = Rig::new();
    rig.session.queue_audio(&mut rig.playout, Slip::DropFrame, vec![1, 2, 3, 4]);
    rig.session.queue_audio(&mut rig.playout, Slip::DupFrame, vec![5, 6, 7, 8]);
    rig.session.queue_audio(&mut rig.playout, Slip::Keep, vec![9, 10]);
    let mut out = vec![0u32; 10];
    rig.playout.render(&mut out);
    assert_eq!(out, vec![3, 4, 5, 6, 5, 6, 7, 8, 9, 10]);
}

#[test]
fn what_there_is_no_room_for_is_counted_and_published() {
    let mut rig = Rig::new();
    rig.take(true, &packet(&header(PacketType::Audio, 1), &[0; 8]));
    rig.take(true, &packet(&header(PacketType::Audio, 1), &[0; 8]));
    rig.take(true, &packet(&header(PacketType::Audio, 3), &[0; 8]));
    rig.session.queue_audio(&mut rig.playout, Slip::Keep, vec![1; 2006]);
    assert_eq!(rig.session.ring_overflow, 10);
    rig.session.drift.on_packet(false, true, true);
    rig.session.publish(&rig.playout, &mut rig.stats);
    assert_eq!(rig.stats.fill_ms, 1000);
    assert_eq!(rig.stats.lost, 1);
    assert_eq!(rig.stats.late, 1);
    assert_eq!(rig.stats.ring_overflow, 10);
    assert_eq!(rig.stats.slip_dropped, 1);
    assert_eq!(rig.stats.slip_duplicated, 0);
    assert_eq!(rig.stats.underruns, 0);
    assert_eq!(rig.stats.cuts, 0);
}

#[test]
fn drift_is_compensated_only_outside_the_dead_zone_and_when_due() {
    let mut drift = DriftComp::new();
    assert_eq!(drift.on_packet(true, true, true), Slip::Keep);
    assert_eq!(drift.on_packet(false, false, true), Slip::Keep);
    assert_eq!(drift.on_packet(false, true, true), Slip::DropFrame);
    assert_eq!(drift.on_packet(false, true, false), Slip::DupFrame);
    assert_eq!((drift.dropped_frames, drift.duplicated_frames), (1, 1));
}

#[test]
fn slips_move_the_first_frame_only() {
    let mut samples = vec![1, 2, 3];
    apply_slip(&mut samples, 1, Slip::DupFrame);
    assert_eq!(samples, vec![1, 1, 2, 3]);
    apply_slip(&mut samples, 2, Slip::DropFrame);
    assert_eq!(samples, vec![2, 3]);
}

#[test]
fn payloads_are_read_in_either_format() {
    assert_eq!(decode(WireFormat::S16le, &[0, 128, 1]), Samples::S16(vec![-32768]));
    assert_eq!(
        decode(WireFormat::F32le, &1.0f32.to_le_bytes()),
        Samples::F32(vec![0x3F80_0000])
    );
}

#[test]
fn the_first_fitting_configuration_is_picked() {
    let range = |channels: u16, is_f32: bool, min: u32, max: u32| OutputRange {
        channels,
        is_f32,
        min_sample_rate: min,
        max_sample_rate: max,
    };
    let ranges = vec![
        range(1, true, 8000, 96000),
        range(2, false, 8000, 96000),
        range(2, true, 8000, 44100),
        range(2, true, 48000, 48000),
        range(2, true, 8000, 96000),
    ];
    assert_eq!(pick_output_config(&ranges, 48000, 2), Some(3));
    assert_eq!(pick_output_config(&ranges, 44100, 2), Some(2));
    assert_eq!(pick_output_config(&ranges, 48000, 6), None);
}

#[test]
fn the_default_configuration_must_match_exactly() {
    let default = OutputDefault {
        sample_rate: 48000,
        channels: 2,
        is_f32: true,
    };
    assert!(default_output_fits(&default, 48000, 2));
    assert!(!default_output_fits(&default, 44100, 2));
    assert!(!default_output_fits(&default, 48000, 1));
    let default = OutputDefault {
        sample_rate: 48000,
        channels: 2,
        is_f32: false,
    };
    assert!(!default_output_fits(&default, 48000, 2));
}

#[test]
fn the_status_names_the_sender_and_the_format() {
    assert_eq!(
        status_line("192.168.1.7:5000", &header(PacketType::Hello, 0)),
        "192.168.1.7:5000 » 1000 Гц, 2 кан"
    );
}
