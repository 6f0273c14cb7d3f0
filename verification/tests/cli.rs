use soundtransfer::cli::{
    device_line, pick_receiver, send_opts, send_plan, volume_percent, FormatArg, SendPlan,
};
use soundtransfer::discovery::{Found, IpAddress};
use soundtransfer::protocol::WireFormat;
use soundtransfer::sender::Endpoint;

const TARGET: Endpoint = Endpoint {
    ip: IpAddress::V6 { bits: 1 },
    port: 48100,
};

#[test]
fn recording_takes_precedence() {
    assert_eq!(send_plan(true, true), SendPlan::Dump);
    assert_eq!(send_plan(true, false), SendPlan::Dump);
    assert_eq!(send_plan(false, true), SendPlan::Resolve);
    assert_eq!(send_plan(false, false), SendPlan::Discover);
}

#[test]
fn the_first_receiver_is_sent_to() {
    assert_eq!(pick_receiver(&vec![]), None);
    let found = vec![
        Found {
            name: "mac".to_string(),
            ip: TARGET.ip,
            port: 48100,
        },
        Found {
            name: "pc".to_string(),
            ip: TARGET.ip,
            port: 1,
        },
    ];
    assert_eq!(pick_receiver(&found), Some(TARGET));
}

#[test]
fn packets_have_sixty_four_to_four_hundred_eighty_frames() {
    for frames in [0usize, 63, 481] {
        assert_eq!(
            send_opts(TARGET, frames, FormatArg::S16, None).unwrap_err(),
            "--frames-per-packet должен быть в диапазоне 64..=480"
        );
    }
    for frames in [64usize, 128, 480] {
        let opts = send_opts(TARGET, frames, FormatArg::F32, Some("x".to_string())).unwrap();
        assert_eq!(opts.frames_per_packet, frames);
        assert_eq!(opts.wire_format, WireFormat::F32le);
        assert_eq!(opts.target, TARGET);
        assert_eq!(opts.device.as_deref(), Some("x"));
    }
    assert_eq!(FormatArg::S16.wire_format(), WireFormat::S16le);
}

#[test]
fn the_volume_has_a_limit() {
    assert_eq!(volume_percent(0), 0);
    assert_eq!(volume_percent(150), 150);
    assert_eq!(volume_percent(151), 150);
}

#[test]
fn devices_are_listed_with_what_is_known_of_them() {
    assert_eq!(
        device_line("Speakers", "Speakers", Some((48000, 2, "F32"))),
        "  Speakers [default] — 48000 Гц, 2 кан, F32"
    );
    assert_eq!(
        device_line("HDMI", "Speakers", Some((44100, 6, "I16"))),
        "  HDMI — 44100 Гц, 6 кан, I16"
    );
    assert_eq!(device_line("HDMI", "Speakers", None), "  HDMI");
}
