use soundtransfer::discovery::{Found, IpAddress};
use soundtransfer::gui::{
    recv_lines, send_lines, App, Command, Discovery, DiscoveryLine, MainButton, Mode, Settings,
    Start, UNITY_VOLUME,
};
use soundtransfer::protocol::WireFormat;
use soundtransfer::stats::{ReceiverStats, SenderStats};

fn found(name: &str, port: u16) -> Found {
    Found {
        name: name.to_string(),
        ip: IpAddress::V4 {
            a: 192,
            b: 168,
            c: 1,
            d: 44,
        },
        port,
    }
}

#[test]
fn first_settings_depend_on_the_system() {
    let windows = Settings::new(true);
    assert_eq!(windows.mode, Mode::Send);
    assert_eq!((windows.port, windows.buffer_ms), (48100, 20));
    assert_eq!((windows.target_ip.as_str(), windows.device.as_str()), ("", ""));
    assert!(!windows.can_start(true));
    let mac = Settings::new(false);
    assert_eq!(mac.mode, Mode::Recv);
    assert!(mac.can_start(false));
}

#[test]
fn sending_takes_windows_and_an_address() {
    let mut settings = Settings::new(true);
    settings.target_ip = " \t".to_string();
    assert!(!settings.can_start(true));
    settings.target_ip = " host ".to_string();
    assert!(settings.can_start(true));
    assert!(!settings.can_start(false));
}

#[test]
fn starting_to_send() {
    let mut app = App::new(None, true, vec!["Speakers".to_string()]);
    app.settings.target_ip = " 192.168.1.44 ".to_string();
    app.last_error = Some("old".to_string());
    match app.start(true) {
        Start::Send {
            target,
            frames_per_packet,
            wire_format,
            device,
        } => {
            assert_eq!(target, "192.168.1.44:48100");
            assert_eq!(frames_per_packet, 128);
            assert_eq!(wire_format, WireFormat::S16le);
            assert_eq!(device, None);
        }
        other => panic!("{other:?}"),
    }
    assert_eq!(app.last_error, None);
    assert_eq!(app.running, None);
    app.on_bad_address("192.168.1.44:48100");
    assert_eq!(
        app.last_error.as_deref(),
        Some("Некорректный адрес: 192.168.1.44:48100")
    );
}

#[test]
fn starting_to_send_elsewhere_is_refused() {
    let mut app = App::new(None, false, vec![]);
    app.settings.mode = Mode::Send;
    assert!(matches!(app.start(false), Start::Refused));
    assert_eq!(app.last_error.as_deref(), Some("Отправка работает только на Windows"));
}

#[test]
fn starting_to_receive() {
    let mut app = App::new(None, false, vec![]);
    app.settings.device = "Speakers".to_string();
    app.settings.buffer_ms = 35;
    match app.start(false) {
        Start::Recv { opts } => {
            assert_eq!((opts.port, opts.buffer_ms), (48100, 35));
            assert_eq!(opts.device.as_deref(), Some("Speakers"));
            assert_eq!(f32::from_bits(opts.volume), 1.0);
        }
        other => panic!("{other:?}"),
    }
    assert_eq!(UNITY_VOLUME, 1.0f32.to_bits());
}

#[test]
fn saved_settings_are_kept() {
    let mut saved = Settings::new(true);
    saved.port = 5000;
    let app = App::new(Some(saved), false, vec![]);
    assert_eq!(app.settings.port, 5000);
    assert_eq!(app.settings.mode, Mode::Send);
}

#[test]
fn a_worker_that_ends_leaves_its_error() {
    let mut app = App::new(None, false, vec![]);
    app.stop(Some("nothing runs".to_string()));
    assert_eq!(app.last_error, None);
    app.on_started(Mode::Recv);
    assert_eq!(app.running, Some(Mode::Recv));
    app.pkt_rate.update(3);
    app.stop(Some("bind".to_string()));
    assert_eq!(app.running, None);
    assert_eq!(app.last_error.as_deref(), Some("bind"));
    assert_eq!(app.pkt_rate.last, None);
    app.on_started(Mode::Recv);
    app.stop(None);
    assert_eq!(app.last_error, None);
}

#[test]
fn a_single_find_is_taken_over() {
    let mut app = App::new(None, true, vec![]);
    assert_eq!(app.ui_discovery(""), DiscoveryLine::Nothing);
    app.start_discovery();
    assert_eq!(app.ui_discovery(""), DiscoveryLine::Searching);
    app.on_discovered(Ok(vec![found("mac", 5001)]));
    assert_eq!(
        app.ui_discovery("unused"),
        DiscoveryLine::Single {
            line: "Найден: mac (192.168.1.44)".to_string(),
        }
    );
    assert_eq!(app.settings.target_ip, "192.168.1.44");
    assert_eq!(app.settings.port, 5001);
    assert!(matches!(app.discovery, Discovery::Idle));
    assert!(app.settings.can_start(true));
}

#[test]
fn other_ends_of_a_search() {
    let mut app = App::new(None, true, vec![]);
    app.on_discovered(Ok(vec![]));
    assert_eq!(app.ui_discovery(""), DiscoveryLine::NotFound);
    app.on_discovered(Err("no network".to_string()));
    assert_eq!(
        app.ui_discovery(""),
        DiscoveryLine::Failed {
            line: "Поиск не удался: no network".to_string(),
        }
    );
    app.on_discovered(Ok(vec![found("mac", 1), found("pc", 2)]));
    assert_eq!(app.ui_discovery(""), DiscoveryLine::Several);
    app.settings.mode = Mode::Recv;
    assert_eq!(app.ui_discovery(""), DiscoveryLine::Nothing);
    app.settings.mode = Mode::Send;
    app.choose_found(1, "");
    assert_eq!((app.settings.target_ip.as_str(), app.settings.port), ("192.168.1.44", 2));
}

#[test]
fn commands_act_as_the_button_that_is_shown() {
    let mut app = App::new(None, false, vec![]);
    assert_eq!(app.on_command(None, false), Command::Nothing);
    assert_eq!(app.on_command(Some(false), false), Command::Nothing);
    assert_eq!(app.on_command(Some(true), false), Command::Start);
    app.settings.mode = Mode::Send;
    assert_eq!(app.on_command(Some(true), false), Command::Nothing);
    app.on_started(Mode::Send);
    assert_eq!(app.on_command(Some(true), true), Command::Nothing);
    assert_eq!(app.on_command(Some(false), true), Command::Stop);
}

#[test]
fn lines_of_a_sender() {
    let mut stats = SenderStats::default();
    let lines = send_lines(&stats);
    assert_eq!((lines.status, lines.overflow), (None, None));
    stats.status = Some("48000 Гц".to_string());
    stats.ring_overflow = 12;
    let lines = send_lines(&stats);
    assert_eq!(lines.status.as_deref(), Some("▶ 48000 Гц"));
    assert_eq!(lines.overflow.as_deref(), Some("Переполнений буфера захвата: 12"));
}

#[test]
fn lines_of_a_receiver() {
    let mut stats = ReceiverStats::default();
    let lines = recv_lines(&stats);
    assert_eq!(lines.status, "Жду отправителя…");
    assert_eq!(lines.losses, "Потеряно пакетов: 0 · провалов буфера: 0 · срезов: 0");
    assert!(!lines.advise);
    stats.status = Some("host".to_string());
    stats.lost = 1;
    stats.underruns = 20;
    stats.cuts = 300;
    let lines = recv_lines(&stats);
    assert_eq!(lines.status, "▶ host");
    assert_eq!(lines.losses, "Потеряно пакетов: 1 · провалов буфера: 20 · срезов: 300");
    assert!(lines.advise);
}

#[test]
fn what_can_be_clicked() {
    let mut app = App::new(None, true, vec![]);
    assert!(app.can_edit() && app.can_search());
    assert_eq!(app.main_button(true), MainButton::Start { enabled: false });
    app.settings.target_ip = "host".to_string();
    assert_eq!(app.main_button(true), MainButton::Start { enabled: true });
    assert!(!app.warns_of_sending(true));
    assert!(app.warns_of_sending(false));
    app.start_discovery();
    assert!(app.can_edit() && !app.can_search());
    app.on_discovered(Ok(vec![]));
    assert!(app.can_search());
    app.on_started(Mode::Send);
    assert!(!app.can_edit() && !app.can_search());
    assert_eq!(app.main_button(true), MainButton::Stop);
    app.settings.mode = Mode::Recv;
    assert!(!app.warns_of_sending(false));
}

#[test]
fn devices_are_shown_by_name() {
    let mut settings = Settings::new(true);
    assert_eq!(settings.device_label(), "По умолчанию (системное)");
    settings.device = "Speakers".to_string();
    assert_eq!(settings.device_label(), "Speakers");
}

#[test]
fn a_version_6_address_reads_as_it_is_given() {
    let mut app = App::new(None, true, vec![]);
    let ip = IpAddress::V6 { bits: 1 };
    app.on_discovered(Ok(vec![Found {
        name: "mac".to_string(),
        ip,
        port: 7,
    }]));
    assert_eq!(
        app.ui_discovery("::1"),
        DiscoveryLine::Single {
            line: "Найден: mac (::1)".to_string(),
        }
    );
    assert_eq!(app.settings.target_ip, "::1");
    assert!(matches!(app.discovery, Discovery::Idle));
}
