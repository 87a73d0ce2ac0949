use l7_log::mysql::{mysql_check_protocol, mysql_string, MysqlHeader, MysqlInfo, MysqlLog};
use l7_log::protocol::{Error, IpProtocol, L7ResponseStatus, LogMessageType, PacketDirection};
use l7_log::session::{L7Record, SessionAggr};

fn frame(number: u8, body: &[u8]) -> Vec<u8> {
    let len = body.len() as u32;
    let mut v = vec![(len & 0xff) as u8, ((len >> 8) & 0xff) as u8, ((len >> 16) & 0xff) as u8, number];
    v.extend_from_slice(body);
    v
}

fn greeting_body() -> Vec<u8> {
    let mut body = vec![0x0a, 0x35, 0x2e, 0x37, 0x2e, 0x32, 0x38, 0x00, 0x0b, 0x00, 0x00, 0x00];
    body.extend_from_slice(&[0x2a, 0x2b, 0x2c, 0x2d, 0x00]);
    body
}

fn pinned_log() -> MysqlLog {
    let mut log = MysqlLog::default();
    let req = frame(0, &[0x03, 0x53, 0x45, 0x4c, 0x45, 0x43, 0x54, 0x20, 0x31]);
    log.parse(&req, IpProtocol::Tcp, PacketDirection::ClientToServer).unwrap();
    log
}

#[test]
fn greeting_query_ok_session() {
    let mut log = MysqlLog::default();

    let greeting = frame(0, &greeting_body());
    let head = log.parse(&greeting, IpProtocol::Tcp, PacketDirection::ServerToClient).unwrap();
    assert_eq!(head.msg_type, LogMessageType::Other);
    let info = log.info();
    assert_eq!(info.protocol_version, 10);
    assert_eq!(info.server_version, "5.7.28");
    assert_eq!(info.server_thread_id, 11);

    let query = frame(0, &[0x03, 0x53, 0x45, 0x4c, 0x45, 0x43, 0x54, 0x20, 0x31]);
    let head = log.parse(&query, IpProtocol::Tcp, PacketDirection::ClientToServer).unwrap();
    assert_eq!(head.msg_type, LogMessageType::Request);
    let mut request = log.info();
    assert_eq!(request.command, 3);
    assert_eq!(request.context, "SELECT 1");

    let ok = frame(1, &[0x00, 0x01, 0x00, 0x02, 0x00, 0x00, 0x00]);
    let head = log.parse(&ok, IpProtocol::Tcp, PacketDirection::ServerToClient).unwrap();
    assert_eq!(head.msg_type, LogMessageType::Response);
    assert_eq!(head.status, L7ResponseStatus::Success);
    let response = log.info();
    assert_eq!(response.response_code, 0);
    assert_eq!(response.affected_rows, 1);

    let mut aggr = SessionAggr::new(16, 64);
    assert!(aggr
        .insert(L7Record { key: 5, msg_type: LogMessageType::Request, time: 1_000, info: request.clone() })
        .is_empty());
    let out = aggr.insert(L7Record { key: 5, msg_type: LogMessageType::Response, time: 1_800, info: response.clone() });
    assert_eq!(out.len(), 1);
    assert_eq!(out[0].msg_type, LogMessageType::Session);
    assert!(out[0].rrt > 0);
    assert_eq!(out[0].info.context, "SELECT 1");
    assert_eq!(out[0].info.affected_rows, 1);

    request.merge(response);
    assert_eq!(request.context, "SELECT 1");
    assert_eq!(request.command, 3);
    assert_eq!(request.response_code, 0);
    assert_eq!(request.affected_rows, 1);
}

#[test]
fn error_response() {
    let mut log = pinned_log();
    let body = [0xff, 0x15, 0x04, 0x23, 0x48, 0x59, 0x30, 0x30, 0x30, 0x55, 0x6e, 0x6b, 0x6e, 0x6f, 0x77, 0x6e];
    let err = frame(1, &body);
    let head = log.parse(&err, IpProtocol::Tcp, PacketDirection::ServerToClient).unwrap();
    assert_eq!(head.status, L7ResponseStatus::ServerError);
    assert_eq!(head.code, 1045);
    let info = log.info();
    assert_eq!(info.response_code, 0xff);
    assert_eq!(info.error_code, 1045);
    assert_eq!(info.error_message, "Unknown");
}

#[test]
fn error_response_client_range_without_sql_state() {
    let mut log = pinned_log();
    let err = frame(1, &[0xff, 0xd0, 0x07, 0x6f, 0x6f, 0x70, 0x73]);
    let head = log.parse(&err, IpProtocol::Tcp, PacketDirection::ServerToClient).unwrap();
    assert_eq!(head.status, L7ResponseStatus::ClientError);
    assert_eq!(head.code, 2000);
    assert_eq!(log.info().error_message, "oops");
}

#[test]
fn truncated_error_response_fails() {
    let mut log = pinned_log();
    let err = frame(1, &[0xff, 0x15]);
    assert_eq!(
        log.parse(&err, IpProtocol::Tcp, PacketDirection::ServerToClient),
        Err(Error::MysqlLogParseFailed)
    );
}

#[test]
fn response_on_unidentified_flow_is_rejected() {
    let mut log = MysqlLog::default();
    let ok = frame(1, &[0x00, 0x01, 0x00, 0x02, 0x00, 0x00, 0x00]);
    assert_eq!(
        log.parse(&ok, IpProtocol::Tcp, PacketDirection::ServerToClient),
        Err(Error::MysqlLogParseFailed)
    );
}

#[test]
fn udp_payload_is_refused() {
    let mut log = MysqlLog::default();
    let query = frame(0, &[0x03, 0x53]);
    assert_eq!(
        log.parse(&query, IpProtocol::Udp, PacketDirection::ClientToServer),
        Err(Error::InvalidIpProtocol)
    );
}

#[test]
fn unsupported_command_fails() {
    let mut log = MysqlLog::default();
    let req = frame(0, &[0x16, 0x53]);
    assert_eq!(
        log.parse(&req, IpProtocol::Tcp, PacketDirection::ClientToServer),
        Err(Error::MysqlLogParseFailed)
    );
    assert_eq!(log.info(), MysqlInfo::default());
}

#[test]
fn quit_request_has_no_text() {
    let mut log = MysqlLog::default();
    let req = frame(0, &[0x01]);
    let head = log.parse(&req, IpProtocol::Tcp, PacketDirection::ClientToServer).unwrap();
    assert_eq!(head.msg_type, LogMessageType::Request);
    assert_eq!(log.info().command, 1);
    assert_eq!(log.info().context, "");
}

#[test]
fn greeting_without_thread_id_fails() {
    let mut log = MysqlLog::default();
    let greeting = frame(0, &[0x0a, 0x35, 0x2e, 0x37, 0x00, 0x0b, 0x00]);
    assert_eq!(
        log.parse(&greeting, IpProtocol::Tcp, PacketDirection::ServerToClient),
        Err(Error::MysqlLogParseFailed)
    );
}

#[test]
fn compress_int_boundaries() {
    assert_eq!(MysqlLog::decode_compress_int(&[0xfc, 0x00, 0x01]), 256);
    assert_eq!(MysqlLog::decode_compress_int(&[0xfd, 0x00, 0x00, 0x01]), 65536);
    assert_eq!(MysqlLog::decode_compress_int(&[0xfe, 0, 0, 0, 0, 0, 0, 0, 1]), 1u64 << 56);
    assert_eq!(MysqlLog::decode_compress_int(&[0x7f]), 127);
    assert_eq!(MysqlLog::decode_compress_int(&[0xfc]), 0);
    assert_eq!(MysqlLog::decode_compress_int(&[]), 0);
    assert_eq!(MysqlLog::decode_compress_int(&[0xfd, 0x01, 0x02]), 0);
    assert_eq!(MysqlLog::decode_compress_int(&[0xfe, 1, 2, 3, 4, 5, 6, 7]), 0);
}

#[test]
fn text_prefix_is_dropped() {
    assert_eq!(mysql_string(&[0x00, 0x01, 0x61, 0x62]), "ab");
    assert_eq!(mysql_string(&[0x61, 0x62]), "ab");
    assert_eq!(mysql_string(&[0x61, 0xff]), "a\u{fffd}");
    assert_eq!(mysql_string(&[0x00, 0x01]), "");
    assert_eq!(mysql_string(&[0x00, 0x02]), "\u{0}\u{2}");
}

#[test]
fn header_decode_skips_frames() {
    let mut v = frame(1, &[0x05, 0x06]);
    v.extend(frame(2, &[0x00, 0x01]));
    let mut header = MysqlHeader::default();
    assert_eq!(header.decode(&v), 10);
    assert_eq!(header.length, 2);
    assert_eq!(header.number, 2);

    let mut short = MysqlHeader::default();
    assert_eq!(short.decode(&[0x01, 0x00, 0x00]), -1);

    let mut none = MysqlHeader::default();
    assert_eq!(none.decode(&[0x01, 0x00, 0x00, 0x01, 0x05]), -1);
    assert_eq!(none.length, 0);
    assert_eq!(none.number, 0);

    let mut cut = frame(1, &[0x05, 0x06]);
    cut.extend_from_slice(&[0x02, 0x00]);
    let mut trailing = MysqlHeader::default();
    assert_eq!(trailing.decode(&cut), -1);
}

#[test]
fn header_check_classifies() {
    let payload = frame(0, &[0x03, 0x41]);
    let mut header = MysqlHeader::default();
    let offset = header.decode(&payload) as usize;
    assert_eq!(
        header.check(PacketDirection::ClientToServer, offset, &payload, l7_log::protocol::L7Protocol::Unknown),
        Some(LogMessageType::Request)
    );
    assert_eq!(
        header.check(PacketDirection::ServerToClient, offset, &payload, l7_log::protocol::L7Protocol::Unknown),
        None
    );
}

#[test]
fn numbered_frame_needs_identified_flow() {
    let payload = frame(1, &[0x00, 0x00]);
    let mut header = MysqlHeader::default();
    let offset = header.decode(&payload);
    assert_eq!(offset, 4);
    let offset = offset as usize;
    assert_eq!(
        header.check(PacketDirection::ServerToClient, offset, &payload, l7_log::protocol::L7Protocol::Other),
        None
    );
    assert_eq!(
        header.check(PacketDirection::ServerToClient, offset, &payload, l7_log::protocol::L7Protocol::Mysql),
        Some(LogMessageType::Response)
    );
}

#[test]
fn quit_after_query_clears_text() {
    let mut log = pinned_log();
    assert_eq!(log.info().context, "SELECT 1");
    let quit = frame(0, &[0x01]);
    log.parse(&quit, IpProtocol::Tcp, PacketDirection::ClientToServer).unwrap();
    assert_eq!(log.info().command, 1);
    assert_eq!(log.info().context, "");
}

#[test]
fn check_accepts_ascii_query() {
    let mut bitmap: u128 = u128::MAX;
    let query = frame(0, &[0x03, 0x53, 0x45, 0x4c, 0x45, 0x43, 0x54, 0x20, 0x31]);
    assert!(mysql_check_protocol(&mut bitmap, IpProtocol::Tcp, Some(&query)));
    assert_eq!(bitmap, u128::MAX);

    let binary = frame(0, &[0x03, 0x53, 0x80]);
    assert!(!mysql_check_protocol(&mut bitmap, IpProtocol::Tcp, Some(&binary)));
}

#[test]
fn check_accepts_version_greeting() {
    let mut bitmap: u128 = u128::MAX;
    let greeting = frame(0, &greeting_body());
    assert!(mysql_check_protocol(&mut bitmap, IpProtocol::Tcp, Some(&greeting)));
    let other = frame(0, &[0x0a, 0x35, 0x61, 0x37, 0x00]);
    assert!(!mysql_check_protocol(&mut bitmap, IpProtocol::Tcp, Some(&other)));
}

#[test]
fn check_rejects_plain_text() {
    let mut bitmap: u128 = u128::MAX;
    let text = [0x4e, 0x4f, 0x54, 0x48, 0x49, 0x4e, 0x47];
    assert!(!mysql_check_protocol(&mut bitmap, IpProtocol::Tcp, Some(&text)));
    assert_eq!(bitmap, u128::MAX);
    assert!(!mysql_check_protocol(&mut bitmap, IpProtocol::Tcp, Some(&text)));
    assert_eq!(bitmap, u128::MAX);
}

#[test]
fn check_clears_bit_on_udp_and_short_payloads() {
    let mut bitmap: u128 = u128::MAX;
    assert!(!mysql_check_protocol(&mut bitmap, IpProtocol::Udp, None));
    assert_eq!(bitmap, u128::MAX & !(1u128 << 60));
    let mut bitmap: u128 = u128::MAX;
    assert!(!mysql_check_protocol(&mut bitmap, IpProtocol::Tcp, Some(&[0x01, 0x00])));
    assert_eq!(bitmap, u128::MAX & !(1u128 << 60));
    let mut bitmap: u128 = u128::MAX;
    assert!(!mysql_check_protocol(&mut bitmap, IpProtocol::Tcp, None));
    assert_eq!(bitmap, u128::MAX);
}

#[test]
fn merge_twice_equals_merge_once() {
    let mut request = MysqlInfo::default();
    request.command = 3;
    request.context = "SELECT 1".to_string();
    let mut response = MysqlInfo::default();
    response.response_code = 0xff;
    response.error_code = 1045;
    response.error_message = "Unknown".to_string();
    let mut once = request.clone();
    once.merge(response.clone());
    let mut twice = once.clone();
    twice.merge(response);
    assert_eq!(once, twice);
    assert_eq!(once.context, "SELECT 1");
    assert_eq!(once.error_code, 1045);
}
