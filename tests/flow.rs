use l7_log::flow::{L7Flow, MAX_IDENTIFY_FAILURES};
use l7_log::protocol::{
    CaptureMeta, EbpfParam, EbpfType, Error, IpAddress, IpProtocol, L7Protocol, LogMessageType, PacketDirection,
    ParseParam,
};

fn param(l4: IpProtocol, direction: PacketDirection, time: u64) -> ParseParam {
    ParseParam {
        l4_protocol: l4,
        ip_src: IpAddress::V4(0x0a00_0001),
        ip_dst: IpAddress::V4(0x0a00_0002),
        port_src: 40000,
        port_dst: 3306,
        direction,
        ebpf_type: EbpfType::NotEbpf,
        ebpf_param: None,
        time,
    }
}

fn frame(number: u8, body: &[u8]) -> Vec<u8> {
    let len = body.len() as u32;
    let mut v = vec![(len & 0xff) as u8, ((len >> 8) & 0xff) as u8, ((len >> 16) & 0xff) as u8, number];
    v.extend_from_slice(body);
    v
}

#[test]
fn unrecognised_flow_becomes_unknown() {
    let mut flow = L7Flow::new(IpProtocol::Tcp);
    assert_eq!(flow.bitmap(), 1u128 << 60);
    let text = [0x4e, 0x4f, 0x54, 0x48, 0x49, 0x4e, 0x47];
    let p = param(IpProtocol::Tcp, PacketDirection::ClientToServer, 0);
    for _ in 0..(MAX_IDENTIFY_FAILURES - 1) {
        assert_eq!(flow.handle(&text, &p), Err(Error::L7ProtocolUnknown));
        assert!(!flow.is_unknown());
    }
    assert_eq!(flow.handle(&text, &p), Err(Error::BitmapEmpty));
    assert!(flow.is_unknown());
    assert_eq!(flow.bitmap(), 0);
    assert_eq!(flow.protocol(), L7Protocol::Unknown);
    let query = frame(0, &[0x03, 0x53, 0x45, 0x4c, 0x45, 0x43, 0x54, 0x20, 0x31]);
    assert_eq!(flow.handle(&query, &p), Err(Error::BitmapEmpty));
}

#[test]
fn query_pins_flow_to_mysql() {
    let mut flow = L7Flow::new(IpProtocol::Tcp);
    let query = frame(0, &[0x03, 0x53, 0x45, 0x4c, 0x45, 0x43, 0x54, 0x20, 0x31]);
    let head = flow.handle(&query, &param(IpProtocol::Tcp, PacketDirection::ClientToServer, 10)).unwrap();
    assert_eq!(head.proto, L7Protocol::Mysql);
    assert_eq!(head.msg_type, LogMessageType::Request);
    assert_eq!(flow.protocol(), L7Protocol::Mysql);

    let ok = frame(1, &[0x00, 0x01, 0x00, 0x02, 0x00, 0x00, 0x00]);
    let head = flow.handle(&ok, &param(IpProtocol::Tcp, PacketDirection::ServerToClient, 20)).unwrap();
    assert_eq!(head.msg_type, LogMessageType::Response);

    let garbage = frame(1, &[0x10]);
    assert_eq!(
        flow.handle(&garbage, &param(IpProtocol::Tcp, PacketDirection::ClientToServer, 30)),
        Err(Error::MysqlLogParseFailed)
    );
    assert_eq!(flow.protocol(), L7Protocol::Mysql);
}

#[test]
fn udp_flow_has_no_mysql_candidate() {
    let mut flow = L7Flow::new(IpProtocol::Udp);
    assert_eq!(flow.bitmap(), 0);
    let query = frame(0, &[0x03, 0x53]);
    assert_eq!(
        flow.handle(&query, &param(IpProtocol::Udp, PacketDirection::ClientToServer, 0)),
        Err(Error::L7ProtocolUnknown)
    );
    assert_eq!(flow.protocol(), L7Protocol::Unknown);
}

fn meta(ebpf_type: EbpfType, from_ebpf: L7Protocol) -> CaptureMeta {
    CaptureMeta {
        l4_protocol: IpProtocol::Tcp,
        src_ip: IpAddress::V6(1),
        dst_ip: IpAddress::V4(0x7f00_0001),
        src_port: 51000,
        dst_port: 3306,
        direction: PacketDirection::ServerToClient,
        ebpf_type,
        l7_protocol_from_ebpf: from_ebpf,
        is_request_end: true,
        is_response_end: false,
        start_time_us: 1_234_567,
    }
}

#[test]
fn parse_param_from_capture() {
    let p = ParseParam::from(meta(EbpfType::NotEbpf, L7Protocol::Http1TLS));
    assert_eq!(p.ebpf_param, None);
    assert_eq!(p.time, 1_234_567);
    assert_eq!(p.port_src, 51000);
    assert_eq!(p.ip_dst, IpAddress::V4(0x7f00_0001));

    let p = ParseParam::from(meta(EbpfType::TlsUprobe, L7Protocol::Unknown));
    assert_eq!(p.ebpf_param, Some(EbpfParam { is_tls: true, is_req_end: true, is_resp_end: false }));

    let p = ParseParam::from(meta(EbpfType::SysCall, L7Protocol::Http2TLS));
    assert_eq!(p.ebpf_param.unwrap().is_tls, true);

    let p = ParseParam::from(meta(EbpfType::SysCall, L7Protocol::Mysql));
    assert_eq!(p.ebpf_param.unwrap().is_tls, false);
}
