use soundtransfer::discovery::{
    best_address, first_label, host_label, host_name, ip_text, score, Finder, Found,
    IpAddress,
};

fn v4(a: u8, b: u8, c: u8, d: u8) -> IpAddress {
    IpAddress::V4 { a, b, c, d }
}

const V6: IpAddress = IpAddress::V6 { bits: 1 };

#[test]
fn network_addresses_are_preferred() {
    assert_eq!(score(&v4(192, 168, 1, 44)), 3);
    assert_eq!(score(&v4(127, 0, 0, 1)), 2);
    assert_eq!(score(&v4(127, 255, 255, 255)), 2);
    assert_eq!(score(&V6), 1);
    assert_eq!(
        best_address(&vec![V6, v4(10, 0, 0, 1), v4(127, 0, 0, 1)]),
        Some(v4(10, 0, 0, 1))
    );
    assert_eq!(best_address(&vec![]), None);
}

#[test]
fn of_equally_good_addresses_the_last_is_taken() {
    let addresses = vec![v4(10, 0, 0, 1), v4(10, 0, 0, 2), V6];
    assert_eq!(best_address(&addresses), Some(v4(10, 0, 0, 2)));
    let both: Vec<u8> = vec![1, 2];
    let std = both.iter().max_by_key(|_| 0);
    assert_eq!(std, Some(&2));
}

#[test]
fn a_service_is_listed_once_with_its_best_address() {
    let mut finder = Finder::new();
    finder.on_resolved("mac._soundtransfer._udp.local.", &vec![V6], 48100);
    finder.on_resolved("pc._soundtransfer._udp.local.", &vec![v4(10, 0, 0, 9)], 48100);
    finder.on_resolved("mac._soundtransfer._udp.local.", &vec![v4(10, 0, 0, 8)], 48100);
    finder.on_resolved("mac._soundtransfer._udp.local.", &vec![v4(127, 0, 0, 1)], 48100);
    let found = finder.into_found();
    assert_eq!(found.len(), 2);
    assert_eq!(found[0].name, "mac");
    assert_eq!(found[0].ip, v4(10, 0, 0, 8));
    assert_eq!(found[0].port, 48100);
    assert_eq!(found[1].name, "pc");
}

#[test]
fn an_equally_good_address_does_not_replace_the_first() {
    let mut finder = Finder::new();
    finder.on_resolved("mac.x", &vec![v4(10, 0, 0, 8)], 1);
    finder.on_resolved("mac.x", &vec![v4(10, 0, 0, 9)], 1);
    assert_eq!(finder.into_found()[0].ip, v4(10, 0, 0, 8));
}

#[test]
fn another_port_is_another_service() {
    let mut finder = Finder::new();
    finder.on_resolved("mac.x", &vec![v4(10, 0, 0, 8)], 1);
    finder.on_resolved("mac.x", &vec![v4(10, 0, 0, 8)], 2);
    finder.on_resolved("nobody.x", &vec![], 2);
    let found = finder.into_found();
    assert_eq!(found.iter().map(|f| f.port).collect::<Vec<u16>>(), vec![1, 2]);
}

#[test]
fn labels_of_services() {
    assert_eq!(first_label("mac._soundtransfer._udp.local."), "mac");
    assert_eq!(first_label("mac"), "mac");
    assert_eq!(first_label(""), "");
}

#[test]
fn labels_of_hosts() {
    assert_eq!(host_label("studio.local"), "studio");
    assert_eq!(host_label("studio.local.local"), "studio");
    assert_eq!(host_label("studio.."), "studio");
    assert_eq!(host_label("studio.local."), "studio.local");
    assert_eq!(host_label(".local"), "soundtransfer");
    assert_eq!(host_label(""), "soundtransfer");
    for name in ["a.local", "a.local.", "a..local", ".", "x", "локальный.local"] {
        let std = name.trim_end_matches(".local").trim_end_matches('.');
        let std = if std.is_empty() { "soundtransfer" } else { std };
        assert_eq!(host_label(name), std);
    }
    assert_eq!(host_name("studio"), "studio.local.");
}

#[test]
fn resolving_again_changes_nothing() {
    let addresses = vec![V6, v4(10, 0, 0, 8), v4(10, 0, 0, 9)];
    let mut finder = Finder::new();
    finder.on_resolved("mac.x", &addresses, 1);
    finder.on_resolved("mac.x", &addresses, 1);
    let found = finder.into_found();
    assert_eq!(found.len(), 1);
    assert_eq!(found[0].ip, v4(10, 0, 0, 9));
}

#[test]
fn addresses_are_written_as_the_standard_library_does() {
    for [a, b, c, d] in [[0u8, 0, 0, 0], [192, 168, 1, 44], [255, 10, 100, 9]] {
        let std = format!("{a}.{b}.{c}.{d}");
        assert_eq!(ip_text(&v4(a, b, c, d), "::"), std);
    }
    assert_eq!(ip_text(&V6, "::1"), "::1");
    let found = Found {
        name: "mac".to_string(),
        ip: v4(10, 0, 0, 8),
        port: 48100,
    };
    assert_eq!(found.clone().label(""), "mac — 10.0.0.8:48100");
}
