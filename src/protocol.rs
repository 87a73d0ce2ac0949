//! Identifiers and small value types shared by all protocol parsers.
use vstd::prelude::*;

verus! {

/// Application protocols known to the agent. Each has a persistent number
/// below 128, so that a `u128` can hold one bit per protocol.
#[derive(Clone, Copy, Debug, PartialEq, Eq, Structural)]
pub enum L7Protocol {
    Unknown,
    Other,
    Http1,
    Http2,
    Http1TLS,
    Http2TLS,
    Dubbo,
    Mysql,
    Postgresql,
    Redis,
    Kafka,
    Mqtt,
    Dns,
}

impl L7Protocol {
    /// The persistent number of the protocol.
    pub open spec fn spec_number(self) -> u8 {
        match self {
            L7Protocol::Unknown => 0,
            L7Protocol::Other => 1,
            L7Protocol::Http1 => 20,
            L7Protocol::Http2 => 21,
            L7Protocol::Http1TLS => 22,
            L7Protocol::Http2TLS => 23,
            L7Protocol::Dubbo => 40,
            L7Protocol::Mysql => 60,
            L7Protocol::Postgresql => 61,
            L7Protocol::Redis => 80,
            L7Protocol::Kafka => 100,
            L7Protocol::Mqtt => 101,
            L7Protocol::Dns => 120,
        }
    }

    #[verifier::when_used_as_spec(spec_number)]
    pub fn number(self) -> (r: u8)
        ensures
            r == self.spec_number(),
            r < 128,
    {
        match self {
            L7Protocol::Unknown => 0,
            L7Protocol::Other => 1,
            L7Protocol::Http1 => 20,
            L7Protocol::Http2 => 21,
            L7Protocol::Http1TLS => 22,
            L7Protocol::Http2TLS => 23,
            L7Protocol::Dubbo => 40,
            L7Protocol::Mysql => 60,
            L7Protocol::Postgresql => 61,
            L7Protocol::Redis => 80,
            L7Protocol::Kafka => 100,
            L7Protocol::Mqtt => 101,
            L7Protocol::Dns => 120,
        }
    }
}

/// Transport protocol carrying a payload.
#[derive(Clone, Copy, Debug, PartialEq, Eq, Structural)]
pub enum IpProtocol {
    Tcp,
    Udp,
    Icmp,
    Other,
}

/// Direction of a packet relative to the connection's initiator.
#[derive(Clone, Copy, Debug, PartialEq, Eq, Structural)]
pub enum PacketDirection {
    ClientToServer,
    ServerToClient,
}

/// Kind of a parsed message.
#[derive(Clone, Copy, Debug, PartialEq, Eq, Structural)]
pub enum LogMessageType {
    Request,
    Response,
    Session,
    Other,
    Max,
}

/// Outcome classification of a response.
#[derive(Clone, Copy, Debug, PartialEq, Eq, Structural)]
pub enum L7ResponseStatus {
    Success,
    Error,
    NotExist,
    ServerError,
    ClientError,
}

/// Kind of the capture source that delivered a payload.
#[derive(Clone, Copy, Debug, PartialEq, Eq, Structural)]
pub enum EbpfType {
    NotEbpf,
    TlsUprobe,
    SysCall,
    Other,
}

/// An IPv4 or IPv6 address, held as its big-endian integer value.
#[derive(Clone, Copy, Debug, PartialEq, Eq, Structural)]
pub enum IpAddress {
    V4(u32),
    V6(u128),
}

/// Extras supplied by a kernel capture source.
#[derive(Clone, Copy, Debug, PartialEq, Eq, Structural)]
pub struct EbpfParam {
    pub is_tls: bool,
    /// Meaningful for HTTP/2 uprobe captures only.
    pub is_req_end: bool,
    pub is_resp_end: bool,
}

/// Per-payload context handed to a parser.
#[derive(Clone, Copy, Debug, PartialEq, Eq, Structural)]
pub struct ParseParam {
    pub l4_protocol: IpProtocol,
    pub ip_src: IpAddress,
    pub ip_dst: IpAddress,
    pub port_src: u16,
    pub port_dst: u16,
    pub direction: PacketDirection,
    pub ebpf_type: EbpfType,
    /// Present when the payload came from a kernel capture source.
    pub ebpf_param: Option<EbpfParam>,
    /// Capture time in microseconds.
    pub time: u64,
}

/// What the capture source reports with one payload.
#[derive(Clone, Copy, Debug, PartialEq, Eq, Structural)]
pub struct CaptureMeta {
    pub l4_protocol: IpProtocol,
    pub src_ip: IpAddress,
    pub dst_ip: IpAddress,
    pub src_port: u16,
    pub dst_port: u16,
    pub direction: PacketDirection,
    pub ebpf_type: EbpfType,
    /// Protocol that in-kernel classification saw, if it saw one.
    pub l7_protocol_from_ebpf: L7Protocol,
    pub is_request_end: bool,
    pub is_response_end: bool,
    /// Capture time in microseconds.
    pub start_time_us: u64,
}

/// Whether the payload reported by `m` was decrypted TLS.
pub open spec fn capture_is_tls(m: CaptureMeta) -> bool {
    m.ebpf_type == EbpfType::TlsUprobe || m.l7_protocol_from_ebpf == L7Protocol::Http1TLS
        || m.l7_protocol_from_ebpf == L7Protocol::Http2TLS
}

impl From<CaptureMeta> for ParseParam {
    fn from(m: CaptureMeta) -> (r: ParseParam)
        ensures
            r == m.to_param(),
    {
        let ebpf_param = if m.ebpf_type != EbpfType::NotEbpf {
            let is_tls = match m.ebpf_type {
                EbpfType::TlsUprobe => true,
                _ => match m.l7_protocol_from_ebpf {
                    L7Protocol::Http1TLS | L7Protocol::Http2TLS => true,
                    _ => false,
                },
            };
            Some(EbpfParam { is_tls, is_req_end: m.is_request_end, is_resp_end: m.is_response_end })
        } else {
            None
        };
        ParseParam {
            l4_protocol: m.l4_protocol,
            ip_src: m.src_ip,
            ip_dst: m.dst_ip,
            port_src: m.src_port,
            port_dst: m.dst_port,
            direction: m.direction,
            ebpf_type: m.ebpf_type,
            ebpf_param,
            time: m.start_time_us,
        }
    }
}

impl vstd::std_specs::convert::FromSpecImpl<CaptureMeta> for ParseParam {
    open spec fn obeys_from_spec() -> bool {
        true
    }

    open spec fn from_spec(m: CaptureMeta) -> ParseParam {
        m.to_param()
    }
}

impl CaptureMeta {
    /// The parse context of the payload: the addresses and the time as
    /// reported, and capture extras for a kernel source only.
    pub open spec fn to_param(self) -> ParseParam {
        ParseParam {
            l4_protocol: self.l4_protocol,
            ip_src: self.src_ip,
            ip_dst: self.dst_ip,
            port_src: self.src_port,
            port_dst: self.dst_port,
            direction: self.direction,
            ebpf_type: self.ebpf_type,
            ebpf_param: if self.ebpf_type != EbpfType::NotEbpf {
                Some(EbpfParam {
                    is_tls: capture_is_tls(self),
                    is_req_end: self.is_request_end,
                    is_resp_end: self.is_response_end,
                })
            } else {
                None
            },
            time: self.start_time_us,
        }
    }
}

/// Errors of the parsers.
#[derive(Clone, Copy, Debug, PartialEq, Eq, Structural)]
pub enum Error {
    /// The parser does not run on the payload's transport.
    InvalidIpProtocol,
    /// The payload is malformed or cut short.
    MysqlLogParseFailed,
    /// No parser recognised the payload.
    L7ProtocolUnknown,
    /// Identification ran out of tries: the flow's protocol is unknown.
    BitmapEmpty,
}

/// Summary of one parsed message.
#[derive(Clone, Copy, Debug, PartialEq, Eq, Structural)]
pub struct AppProtoHead {
    pub proto: L7Protocol,
    pub msg_type: LogMessageType,
    pub status: L7ResponseStatus,
    pub code: u16,
    pub rrt: u64,
    pub version: u8,
}

} // verus!
