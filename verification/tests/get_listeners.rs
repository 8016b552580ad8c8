use memcrabd::server::bind::{parse_listen, BindTarget, IpAddress};

#[test]
fn test_parse_listen_wildcard() {
    let args = vec![(String::from("*"), None)];
    let input = parse_listen(args);
    let outcome = vec![BindTarget::AnyV4];
    assert_eq!(input, outcome);
}

#[test]
fn test_parse_listen_localhost_ip() {
    let ip = IpAddress::V4(127, 0, 0, 1);
    let args = vec![(String::from("127.0.0.1"), Some(ip))];
    let input = parse_listen(args);
    let outcome = vec![BindTarget::Ip(ip)];

    assert_eq!(input, outcome);
}

#[test]
fn test_parse_listen_all_interfaces() {
    let args = vec![(String::from("0.0.0.0"), Some(IpAddress::V4(0, 0, 0, 0)))];
    let input = parse_listen(args);
    let outcome = vec![BindTarget::AnyV4];

    assert_eq!(input, outcome);
}

#[test]
fn test_parse_listen_localhost() {
    let args = vec![(String::from("localhost"), None)];
    let input = parse_listen(args);
    let outcome = vec![BindTarget::Interface(String::from("localhost"))];

    assert_eq!(input, outcome);
}

#[test]
fn test_parse_listen_interface_name() {
    let args = vec![(String::from("enp7s0"), None)];
    let input = parse_listen(args);
    let outcome = vec![BindTarget::Interface(String::from("enp7s0"))];

    assert_eq!(input, outcome);
}

#[test]
fn test_parse_listen_v6_localhost() {
    let args = vec![(String::from("::"), Some(IpAddress::V6(0, 0, 0, 0, 0, 0, 0, 0)))];
    let input = parse_listen(args);
    let outcome = vec![BindTarget::AnyV6];

    assert_eq!(input, outcome);
}

#[test]
fn parse_listen_hostname_trim_and_order() {
    let args = vec![
        (String::from("cache.example.org"), None),
        (String::from("  *  "), None),
        (String::from(" ::\t"), None),
        (String::from(" 10.0.0.1"), None),
        (String::from("::1"), Some(IpAddress::V6(0, 0, 0, 0, 0, 0, 0, 1))),
    ];
    let input = parse_listen(args);
    let outcome = vec![
        BindTarget::Hostname(String::from("cache.example.org")),
        BindTarget::AnyV4,
        BindTarget::AnyV6,
        BindTarget::Hostname(String::from(" 10.0.0.1")),
        BindTarget::Ip(IpAddress::V6(0, 0, 0, 0, 0, 0, 0, 1)),
    ];
    assert_eq!(input, outcome);
}

#[test]
fn parse_listen_empty() {
    assert_eq!(parse_listen(vec![]), Vec::<BindTarget>::new());
}
