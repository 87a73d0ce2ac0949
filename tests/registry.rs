use l7_log::parser::{get_all_protocol, get_bitmap, get_parser};
use l7_log::protocol::{IpProtocol, L7Protocol};

#[test]
fn bitmap_per_transport() {
    assert_eq!(get_bitmap(IpProtocol::Tcp), 1u128 << 60);
    assert_eq!(get_bitmap(IpProtocol::Udp), 0);
    assert_eq!(get_bitmap(IpProtocol::Icmp), 0);
}

#[test]
fn skip_and_clear_bits() {
    let parser = get_parser(L7Protocol::Mysql).unwrap();
    assert_eq!(parser.protocol(), L7Protocol::Mysql);
    let mut bitmap = get_bitmap(IpProtocol::Tcp) | 1;
    assert!(!parser.is_skip_parse(bitmap));
    parser.set_bitmap_skip_parse(&mut bitmap);
    assert!(parser.is_skip_parse(bitmap));
    assert_eq!(bitmap, 1);
    parser.set_bitmap_skip_parse(&mut bitmap);
    assert!(parser.is_skip_parse(bitmap));
    assert_eq!(bitmap, 1);
}

#[test]
fn registry_contents() {
    assert!(get_parser(L7Protocol::Dns).is_none());
    let all = get_all_protocol();
    assert_eq!(all.len(), 1);
    assert_eq!(all[0].protocol(), L7Protocol::Mysql);
    assert!(all[0].parsable_on_tcp());
    assert!(!all[0].parsable_on_udp());
}

#[test]
fn protocol_numbers() {
    assert_eq!(L7Protocol::Http1.number(), 20);
    assert_eq!(L7Protocol::Http2TLS.number(), 23);
    assert_eq!(L7Protocol::Dubbo.number(), 40);
    assert_eq!(L7Protocol::Mysql.number(), 60);
    assert_eq!(L7Protocol::Kafka.number(), 100);
    assert_eq!(L7Protocol::Dns.number(), 120);
}
