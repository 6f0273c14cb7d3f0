use soundtransfer::capture::{capture_path, find_device, CaptureFormat, CapturePath, SampleKind};
use soundtransfer::playout::Playout;
use soundtransfer::protocol::{Header, PacketType, WireFormat, HEADER_LEN};
use soundtransfer::receiver::{Received, RecvSession, Samples};
use soundtransfer::sender::{
    hello_due, status_line, CaptureQueue, DumpEnd, DumpTally, Packetizer, CAPTURE_SAMPLES,
};
use soundtransfer::stats::{ReceiverStats, SenderStats};

const STEREO: CaptureFormat = CaptureFormat {
    sample_rate: 48000,
    channels: 2,
};

#[test]
fn captured_samples_wait_in_order() {
    let mut queue = CaptureQueue::new();
    queue.push(&[1, 2, 3]);
    assert_eq!(queue.take(4), None);
    queue.push(&[4, 5]);
    assert_eq!(queue.take(4), Some(vec![1, 2, 3, 4]));
    assert_eq!(queue.take(1), Some(vec![5]));
    assert_eq!(queue.take(1), None);
    assert_eq!(queue.overflow, 0);
}

#[test]
fn captured_samples_that_do_not_fit_are_counted() {
    let mut queue = CaptureQueue::new();
    queue.push(&vec![1u32; CAPTURE_SAMPLES - 10]);
    queue.push(&vec![2u32; 25]);
    assert_eq!(queue.overflow, 15);
    assert_eq!(queue.fill_ms(2, 48000), 2000);
}

#[test]
fn packets_carry_number_position_and_samples() {
    let mut packetizer = Packetizer::new(STEREO, 2, WireFormat::S16le);
    let first = packetizer.packet_s16(&[1, -1, 2, -2]);
    assert_eq!(first.len(), HEADER_LEN + 8);
    assert_eq!(&first[HEADER_LEN..], &[1, 0, 255, 255, 2, 0, 254, 255]);
    let second = packetizer.packet_s16(&[0, 0, 0, 0]);
    let header = Header::parse(&second).unwrap();
    assert_eq!(header.ptype, PacketType::Audio);
    assert_eq!(header.seq, 1);
    assert_eq!(header.sample_pos, 2);
    assert_eq!(header.channels, 2);
    assert_eq!(header.sample_rate, 48000);
    assert_eq!(header.format, WireFormat::S16le);
}

#[test]
fn float_packets_carry_the_bits() {
    let mut packetizer = Packetizer::new(STEREO, 1, WireFormat::F32le);
    let packet = packetizer.packet_f32(&[1.5f32.to_bits(), (-0.25f32).to_bits()]);
    assert_eq!(&packet[HEADER_LEN..HEADER_LEN + 4], &1.5f32.to_le_bytes());
    assert_eq!(&packet[HEADER_LEN + 4..], &(-0.25f32).to_le_bytes());
}

#[test]
fn hello_and_goodbye_do_not_advance() {
    let mut packetizer = Packetizer::new(STEREO, 128, WireFormat::S16le);
    packetizer.packet_s16(&[0; 256]);
    let hello = Header::parse(&packetizer.hello()).unwrap();
    let bye = Header::parse(&packetizer.bye()).unwrap();
    assert_eq!((hello.ptype, hello.seq, hello.sample_pos), (PacketType::Hello, 1, 128));
    assert_eq!((bye.ptype, bye.seq, bye.sample_pos), (PacketType::Bye, 1, 128));
    assert_eq!(packetizer.header.seq, 1);
}

#[test]
fn the_number_wraps_and_the_position_does_not() {
    let mut packetizer = Packetizer::new(STEREO, 2, WireFormat::S16le);
    packetizer.header.seq = u32::MAX;
    packetizer.header.sample_pos = u32::MAX as u64 * 2;
    packetizer.packet_s16(&[0; 4]);
    assert_eq!(packetizer.header.seq, 0);
    assert_eq!(packetizer.header.sample_pos, 1 << 33);
}

#[test]
fn the_wire_has_one_byte_for_channels() {
    let format = CaptureFormat {
        sample_rate: 48000,
        channels: 258,
    };
    assert_eq!(Packetizer::new(format, 1, WireFormat::S16le).header.channels, 2);
}

#[test]
fn sent_packets_are_counted_by_window_and_in_all() {
    let mut packetizer = Packetizer::new(STEREO, 128, WireFormat::S16le);
    let mut stats = SenderStats::default();
    packetizer.on_sent(&mut stats, 100);
    packetizer.on_sent(&mut stats, 50);
    assert_eq!(packetizer.take_window(), (2, 150));
    packetizer.on_sent(&mut stats, 1);
    assert_eq!(packetizer.take_window(), (1, 1));
    assert_eq!((stats.pkts, stats.bytes), (3, 151));
}

#[test]
fn what_is_sent_is_what_is_received() {
    let mut packetizer = Packetizer::new(STEREO, 2, WireFormat::S16le);
    let first = Header::parse(&packetizer.hello()).unwrap();
    let mut session = RecvSession::new(&first);
    let mut playout = Playout::new(first.sample_rate, first.channels, 20);
    let mut stats = ReceiverStats::default();
    let packets: Vec<Vec<u8>> = (0..6)
        .map(|i| packetizer.packet_s16(&[i, i + 100, i + 200, -i]))
        .collect();
    // Packets 2 and 3 are lost, and packet 1 comes again at the end.
    let mut heard = Vec::new();
    for i in [0usize, 1, 4, 5, 1] {
        match session.on_datagram(&mut playout, &mut stats, true, &packets[i]) {
            Received::Audio {
                samples: Samples::S16(samples),
                frames,
            } => {
                assert_eq!(frames, 2);
                heard.push(samples);
            }
            other => assert_eq!(other, Received::Late),
        }
    }
    assert_eq!(
        heard,
        vec![
            vec![0, 100, 200, 0],
            vec![1, 101, 201, -1],
            vec![4, 104, 204, -4],
            vec![5, 105, 205, -5],
        ]
    );
    assert_eq!(playout.fill_frames(), 4);
    assert_eq!(session.tracker.lost_packets, 2);
    assert_eq!(session.tracker.late_packets, 1);
}

#[test]
fn hello_is_due_at_once_and_every_second() {
    assert!(hello_due(None));
    assert!(!hello_due(Some(999_999_999)));
    assert!(hello_due(Some(1_000_000_000)));
}

#[test]
fn a_recording_goes_on_until_it_is_long_enough_or_time_is_up() {
    let mut tally = DumpTally::new();
    assert!(tally.goes_on(3, false));
    assert!(!tally.goes_on(3, true));
    assert_eq!(tally.end(true), DumpEnd::Nothing);
    let bytes = tally.on_chunk(&[1.0f32.to_bits(), 0, 0]);
    assert_eq!(bytes[..4], 1.0f32.to_le_bytes());
    assert_eq!(bytes.len(), 12);
    assert!(!tally.goes_on(3, false));
    assert_eq!((tally.written, tally.callbacks), (3, 1));
    assert_eq!(tally.end(true), DumpEnd::Silence);
    assert_eq!(tally.end(false), DumpEnd::Sound);
}

#[test]
fn the_status_names_the_format_and_the_target() {
    assert_eq!(
        status_line(&STEREO, "192.168.1.44:48100"),
        "48000 Гц, 2 кан » 192.168.1.44:48100"
    );
}

#[test]
fn devices_are_found_by_part_of_their_name() {
    let names = vec![
        None,
        Some("Built-in Output".to_string()),
        Some("BlackHole 2ch".to_string()),
        Some("BlackHole 16ch".to_string()),
    ];
    assert_eq!(find_device(&names, "BlackHole"), Some(2));
    assert_eq!(find_device(&names, "16ch"), Some(3));
    assert_eq!(find_device(&names, ""), Some(1));
    assert_eq!(find_device(&names, "blackhole"), None);
}

#[test]
fn floats_and_sixteen_bits_can_be_captured() {
    assert_eq!(capture_path(SampleKind::F32), Some(CapturePath::AsIs));
    assert_eq!(capture_path(SampleKind::I16), Some(CapturePath::FromS16));
    assert_eq!(capture_path(SampleKind::Other), None);
}

#[test]
fn a_packet_holds_its_frames_in_all_channels() {
    let packetizer = Packetizer::new(STEREO, 128, WireFormat::S16le);
    assert_eq!(packetizer.samples_per_packet(2), Some(256));
    assert_eq!(packetizer.samples_per_packet(0), Some(0));
    let packetizer = Packetizer::new(STEREO, usize::MAX, WireFormat::S16le);
    assert_eq!(packetizer.samples_per_packet(1), Some(usize::MAX));
    assert_eq!(packetizer.samples_per_packet(2), None);
}

#[test]
fn the_datagrams_of_a_whole_stream() {
    let mut packetizer = Packetizer::new(STEREO, 64, WireFormat::F32le);
    let count = packetizer.samples_per_packet(STEREO.channels).unwrap();
    let mut stream = vec![packetizer.hello()];
    for i in 0..5 {
        if i == 3 {
            stream.push(packetizer.hello());
        }
        stream.push(packetizer.packet_f32(&vec![0u32; count]));
    }
    stream.push(packetizer.bye());
    let layout: Vec<(PacketType, u32, u64, usize)> = stream
        .iter()
        .map(|bytes| {
            let header = Header::parse(bytes).unwrap();
            (header.ptype, header.seq, header.sample_pos, bytes.len())
        })
        .collect();
    let long = HEADER_LEN + 64 * 2 * 4;
    assert_eq!(
        layout,
        vec![
            (PacketType::Hello, 0, 0, HEADER_LEN),
            (PacketType::Audio, 0, 0, long),
            (PacketType::Audio, 1, 64, long),
            (PacketType::Audio, 2, 128, long),
            (PacketType::Hello, 3, 192, HEADER_LEN),
            (PacketType::Audio, 3, 192, long),
            (PacketType::Audio, 4, 256, long),
            (PacketType::Bye, 5, 320, HEADER_LEN),
        ]
    );
}
