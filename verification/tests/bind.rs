use memcrabd::server::bind::{
    eq_ignore_ascii_case, is_link_local, parse_listen_arg, BindTarget, IpAddress, NetInterface,
    SystemResolver,
};

#[test]
fn resolve_fixed_targets() {
    let r = SystemResolver;
    assert_eq!(r.resolve_fixed(&BindTarget::AnyV4), Some(vec![IpAddress::V4(0, 0, 0, 0)]));
    assert_eq!(
        r.resolve_fixed(&BindTarget::AnyV6),
        Some(vec![IpAddress::V6(0, 0, 0, 0, 0, 0, 0, 0)])
    );
    let ip = IpAddress::V4(127, 0, 0, 1);
    assert_eq!(r.resolve_fixed(&BindTarget::Ip(ip)), Some(vec![ip]));
    assert_eq!(r.resolve_fixed(&BindTarget::Interface("eth0".into())), None);
    assert_eq!(r.resolve_fixed(&BindTarget::Hostname("a.b".into())), None);
}

#[test]
fn link_local_is_fe80_slash_10() {
    assert!(is_link_local(&IpAddress::V6(0xfe80, 0, 0, 0, 0, 0, 0, 1)));
    assert!(is_link_local(&IpAddress::V6(0xfebf, 1, 2, 3, 4, 5, 6, 7)));
    assert!(!is_link_local(&IpAddress::V6(0xfec0, 0, 0, 0, 0, 0, 0, 1)));
    assert!(!is_link_local(&IpAddress::V6(0, 0, 0, 0, 0, 0, 0, 1)));
    assert!(!is_link_local(&IpAddress::V4(169, 254, 0, 1)));
}

#[test]
fn ascii_case_insensitive_names() {
    assert!(eq_ignore_ascii_case("ETH0", "eth0"));
    assert!(eq_ignore_ascii_case("Lo", "lO"));
    assert!(!eq_ignore_ascii_case("eth0", "eth1"));
    assert!(!eq_ignore_ascii_case("eth", "eth0"));
    assert!(!eq_ignore_ascii_case("É", "é"));
}

#[test]
fn interface_addresses_filter_by_name_and_drop_link_local() {
    let ifaces = vec![
        NetInterface {
            name: "lo".into(),
            addrs: vec![IpAddress::V4(127, 0, 0, 1), IpAddress::V6(0, 0, 0, 0, 0, 0, 0, 1)],
        },
        NetInterface {
            name: "ETH0".into(),
            addrs: vec![
                IpAddress::V4(10, 0, 0, 2),
                IpAddress::V6(0xfe80, 0, 0, 0, 0, 0, 0, 9),
                IpAddress::V6(0x2001, 0xdb8, 0, 0, 0, 0, 0, 1),
            ],
        },
        NetInterface { name: "eth0".into(), addrs: vec![IpAddress::V4(10, 0, 0, 3)] },
    ];
    let r = SystemResolver;
    assert_eq!(
        r.interface_addresses("eth0", &ifaces),
        vec![
            IpAddress::V4(10, 0, 0, 2),
            IpAddress::V6(0x2001, 0xdb8, 0, 0, 0, 0, 0, 1),
            IpAddress::V4(10, 0, 0, 3),
        ]
    );
    assert_eq!(r.interface_addresses("wlan0", &ifaces), vec![]);
}

#[test]
fn single_listen_arguments() {
    assert_eq!(parse_listen_arg("lo".into(), None), BindTarget::Interface("lo".into()));
    assert_eq!(parse_listen_arg("0.0.0.0".into(), None), BindTarget::AnyV4);
    assert_eq!(
        parse_listen_arg("host.local".into(), None),
        BindTarget::Hostname("host.local".into())
    );
}
