//! MySQL message framing, classification and field extraction.
use vstd::prelude::*;
use vstd::utf8::is_ascii_chars;

use crate::bytes::{le_u16, le_u24, le_u32, le_u64, read_u16_le, read_u24_le, read_u32_le, read_u64_le};
use crate::protocol::{AppProtoHead, Error, IpProtocol, L7Protocol, L7ResponseStatus, LogMessageType, PacketDirection};
use crate::parser::{clear_protocol_bit, without_candidate};
use crate::text::{has_version_prefix, lossy_string, regex_is_match, utf8_lossy};

verus! {

pub const HEADER_LEN: usize = 4;
pub const NUMBER_OFFSET: usize = 3;

pub const PROTOCOL_VERSION: u8 = 10;
pub const PROTOCOL_VERSION_OFFSET: usize = 0;
pub const PROTOCOL_VERSION_LEN: usize = 1;
pub const SERVER_VERSION_OFFSET: usize = 1;
pub const SERVER_VERSION_EOF: u8 = 0;
pub const THREAD_ID_LEN: usize = 4;

pub const COMMAND_OFFSET: usize = 0;
pub const COMMAND_LEN: usize = 1;
pub const MYSQL_COMMAND_QUIT: u8 = 1;
pub const MYSQL_COMMAND_USE_DATABASE: u8 = 2;
pub const MYSQL_COMMAND_QUERY: u8 = 3;
pub const MYSQL_COMMAND_SHOW_FIELD: u8 = 4;

pub const RESPONSE_CODE_OFFSET: usize = 0;
pub const RESPONSE_CODE_LEN: usize = 1;
pub const MYSQL_RESPONSE_CODE_OK: u8 = 0;
pub const MYSQL_RESPONSE_CODE_ERR: u8 = 0xff;
pub const MYSQL_RESPONSE_CODE_EOF: u8 = 0xfe;
pub const ERROR_CODE_OFFSET: usize = 1;
pub const ERROR_CODE_LEN: usize = 2;
pub const AFFECTED_ROWS_OFFSET: usize = 1;
pub const SQL_STATE_OFFSET: usize = 3;
pub const SQL_STATE_LEN: usize = 6;
pub const SQL_STATE_MARKER: u8 = 0x23;

pub const INT_FLAGS_2: u8 = 0xfc;
pub const INT_FLAGS_3: u8 = 0xfd;
pub const INT_FLAGS_8: u8 = 0xfe;
pub const INT_BASE_LEN: usize = 1;

/// Fields extracted from one MySQL message: a greeting, a request or a
/// response.
#[derive(Debug, Clone, PartialEq, Eq)]
pub struct MysqlInfo {
    pub protocol_version: u8,
    pub server_version: String,
    pub server_thread_id: u32,
    pub command: u8,
    pub context: String,
    pub response_code: u8,
    pub error_code: u16,
    pub affected_rows: u64,
    pub error_message: String,
}

/// A record with every field zero or empty.
pub open spec fn empty_info(i: MysqlInfo) -> bool {
    &&& i.protocol_version == 0
    &&& i.server_version@.len() == 0
    &&& i.server_thread_id == 0
    &&& i.command == 0
    &&& i.context@.len() == 0
    &&& i.response_code == 0
    &&& i.error_code == 0
    &&& i.affected_rows == 0
    &&& i.error_message@.len() == 0
}

impl Default for MysqlInfo {
    fn default() -> (r: MysqlInfo)
        ensures
            empty_info(r),
    {
        MysqlInfo {
            protocol_version: 0,
            server_version: String::new(),
            server_thread_id: 0,
            command: 0,
            context: String::new(),
            response_code: 0,
            error_code: 0,
            affected_rows: 0,
            error_message: String::new(),
        }
    }
}

/// The request record `r` once the response `s` has been merged into it:
/// the response-side fields come from `s`, the others stay.
pub open spec fn spec_merge(r: MysqlInfo, s: MysqlInfo) -> MysqlInfo {
    MysqlInfo {
        response_code: s.response_code,
        affected_rows: s.affected_rows,
        error_code: s.error_code,
        error_message: s.error_message,
        ..r
    }
}

impl MysqlInfo {
    /// Merges the response `other` into this request record.
    pub fn merge(&mut self, other: Self)
        ensures
            *final(self) == spec_merge(*old(self), other),
    {
        self.response_code = other.response_code;
        self.affected_rows = other.affected_rows;
        self.error_code = other.error_code;
        self.error_message = other.error_message;
    }
}

/// Merging the same response twice gives the record that merging it once
/// gives.
pub proof fn lemma_merge_idempotent(r: MysqlInfo, s: MysqlInfo)
    ensures
        spec_merge(spec_merge(r, s), s) == spec_merge(r, s),
{
}

/// The bytes of a text field: a leading `00 01`, which some server versions
/// put before the text, is dropped.
pub open spec fn text_bytes(p: Seq<u8>) -> Seq<u8> {
    if p.len() >= 2 && p[0] == 0 && p[1] == 1 {
        p.subrange(2, p.len() as int)
    } else {
        p
    }
}

/// Decodes a text field, replacing invalid UTF-8.
pub fn mysql_string(payload: &[u8]) -> (r: String)
    ensures
        r@ == utf8_lossy(text_bytes(payload@)),
{
    if payload.len() >= 2 && payload[0] == 0 && payload[1] == 1 {
        lossy_string(&payload[2..payload.len()])
    } else {
        lossy_string(payload)
    }
}

/// Value of a length-encoded integer at the start of `p`: a first byte below
/// `0xfb` is the value itself; `0xfc`, `0xfd` and `0xfe` announce two, three
/// and eight bytes that follow, least significant first, and give 0 when
/// fewer follow. An empty sequence gives 0.
pub open spec fn compress_int(p: Seq<u8>) -> int {
    if p.len() == 0 {
        0
    } else if p[0] == INT_FLAGS_2 {
        if p.len() >= 3 { le_u16(p.subrange(1, 3)) } else { 0 }
    } else if p[0] == INT_FLAGS_3 {
        if p.len() >= 4 { le_u24(p.subrange(1, 4)) } else { 0 }
    } else if p[0] == INT_FLAGS_8 {
        if p.len() >= 9 { le_u64(p.subrange(1, 9)) } else { 0 }
    } else {
        p[0] as int
    }
}

/// Status that an error code stands for: 0 is success, codes from 2000 to
/// 2999 are client errors, all others server errors.
pub open spec fn status_of(code: u16) -> L7ResponseStatus {
    if code == 0 {
        L7ResponseStatus::Success
    } else if 2000 <= code <= 2999 {
        L7ResponseStatus::ClientError
    } else {
        L7ResponseStatus::ServerError
    }
}

/// `i` is the position of the first zero byte after the leading byte of `p`.
pub open spec fn is_first_nul(p: Seq<u8>, i: int) -> bool {
    &&& 1 <= i < p.len()
    &&& p[i] == SERVER_VERSION_EOF
    &&& forall|j: int| 1 <= j < i ==> p[j] != SERVER_VERSION_EOF
}

/// A greeting body: the protocol version, a non-empty server version ended
/// by a zero byte, and four bytes of thread id right after it.
pub open spec fn greeting_parses(p: Seq<u8>) -> bool {
    exists|i: int| is_first_nul(p, i) && i >= 2 && p.len() >= i + 5
}

/// A request body: a command byte that this parser supports.
pub open spec fn request_parses(p: Seq<u8>) -> bool {
    p.len() >= 1 && (p[0] == MYSQL_COMMAND_QUIT || p[0] == MYSQL_COMMAND_USE_DATABASE
        || p[0] == MYSQL_COMMAND_QUERY || p[0] == MYSQL_COMMAND_SHOW_FIELD)
}

/// A request command that carries text after the command byte.
pub open spec fn command_has_text(c: u8) -> bool {
    c == MYSQL_COMMAND_USE_DATABASE || c == MYSQL_COMMAND_QUERY
}

/// A response body: a response code, and for an error the two bytes of its
/// error code.
pub open spec fn response_parses(p: Seq<u8>) -> bool {
    p.len() >= 1 && (p[0] == MYSQL_RESPONSE_CODE_ERR ==> p.len() >= 3)
}

/// Where the message of an error response starts: after the SQL state
/// `#XXXXX` when one follows the error code.
pub open spec fn error_message_offset(p: Seq<u8>) -> int {
    if p.len() >= 9 && p[3] == SQL_STATE_MARKER {
        9
    } else {
        3
    }
}

/// `i` is `base` with the fields of the greeting body `p`.
pub open spec fn greeting_info(p: Seq<u8>, base: MysqlInfo, i: MysqlInfo) -> bool {
    exists|n: int| {
        &&& #[trigger] is_first_nul(p, n)
        &&& i == (MysqlInfo {
            protocol_version: p[0],
            server_version: i.server_version,
            server_thread_id: le_u32(p.subrange(n + 1, n + 5)) as u32,
            ..base
        })
        &&& i.server_version@ == utf8_lossy(p.subrange(1, n))
    }
}

/// `i` is `base` with the fields of the request body `p`.
pub open spec fn request_info(p: Seq<u8>, base: MysqlInfo, i: MysqlInfo) -> bool {
    if command_has_text(p[0]) {
        &&& i == (MysqlInfo { command: p[0], context: i.context, ..base })
        &&& i.context@ == utf8_lossy(text_bytes(p.subrange(1, p.len() as int)))
    } else {
        &&& i == (MysqlInfo { command: p[0], context: i.context, ..base })
        &&& i.context@.len() == 0
    }
}

/// `i` is `base` with the fields of the response body `p`.
pub open spec fn response_info(p: Seq<u8>, base: MysqlInfo, i: MysqlInfo) -> bool {
    if p[0] == MYSQL_RESPONSE_CODE_ERR {
        &&& i == (MysqlInfo {
            response_code: MYSQL_RESPONSE_CODE_ERR,
            error_code: le_u16(p.subrange(1, 3)) as u16,
            error_message: i.error_message,
            ..base
        })
        &&& i.error_message@ == utf8_lossy(p.subrange(error_message_offset(p), p.len() as int))
    } else if p[0] == MYSQL_RESPONSE_CODE_OK {
        i == (MysqlInfo {
            response_code: MYSQL_RESPONSE_CODE_OK,
            affected_rows: compress_int(p.subrange(1, p.len() as int)) as u64,
            ..base
        })
    } else {
        i == (MysqlInfo { response_code: p[0], ..base })
    }
}

/// Status after the response body `p`, where `prior` was the status before.
pub open spec fn response_status(p: Seq<u8>, prior: L7ResponseStatus) -> L7ResponseStatus {
    if p[0] == MYSQL_RESPONSE_CODE_ERR {
        status_of(le_u16(p.subrange(1, 3)) as u16)
    } else if p[0] == MYSQL_RESPONSE_CODE_OK {
        L7ResponseStatus::Success
    } else {
        prior
    }
}

/// Position of the first zero byte after the leading one, if any.
fn first_nul(payload: &[u8]) -> (r: Option<usize>)
    ensures
        match r {
            Some(i) => is_first_nul(payload@, i as int),
            None => forall|j: int| 1 <= j < payload@.len() ==> payload@[j] != SERVER_VERSION_EOF,
        },
{
    let mut i: usize = SERVER_VERSION_OFFSET;
    while i < payload.len()
        invariant
            1 <= i,
            forall|j: int| 1 <= j < i && j < payload@.len() ==> payload@[j] != SERVER_VERSION_EOF,
        decreases payload.len() - i,
    {
        if payload[i] == SERVER_VERSION_EOF {
            return Some(i);
        }
        i = i + 1;
    }
    None
}

/// Most frames that one header decode walks over.
pub const MAX_DECODE_FRAMES: usize = 4;

/// Header of one MySQL frame: the body length and the sequence number.
#[derive(Debug, Clone, Copy, PartialEq, Eq, Structural)]
pub struct MysqlHeader {
    pub length: u32,
    pub number: u8,
}

impl Default for MysqlHeader {
    fn default() -> (r: MysqlHeader)
        ensures
            r.length == 0,
            r.number == 0,
    {
        MysqlHeader { length: 0, number: 0 }
    }
}

/// The frame that starts `p` is the one a decode stops at: its body opens
/// with OK, ERR or EOF, or its sequence number is 0.
pub open spec fn frame_selected(p: Seq<u8>) -> bool {
    p[HEADER_LEN as int] == MYSQL_RESPONSE_CODE_OK || p[HEADER_LEN as int] == MYSQL_RESPONSE_CODE_ERR
        || p[HEADER_LEN as int] == MYSQL_RESPONSE_CODE_EOF || p[NUMBER_OFFSET as int] == 0
}

/// Walks the frames of `p`, looking at `frames` of them at most, and gives
/// the position of the body of the first selected frame with its header.
/// When no frame looked at is selected (a frame is cut short, the next one
/// would start at or past the end, or the walk has looked at all the frames
/// it may) it gives -1 and no header.
pub open spec fn decode_walk(p: Seq<u8>, frames: nat) -> (int, Option<MysqlHeader>)
    decreases frames,
{
    if p.len() < 5 {
        (-1, None)
    } else if frame_selected(p) {
        (HEADER_LEN as int, Some(MysqlHeader { length: le_u24(p) as u32, number: p[NUMBER_OFFSET as int] }))
    } else {
        let next = le_u24(p) + HEADER_LEN;
        if next >= p.len() || frames <= 1 {
            (-1, None)
        } else {
            let rest = decode_walk(p.subrange(next, p.len() as int), (frames - 1) as nat);
            if rest.0 < 0 {
                (-1, None)
            } else {
                (next + rest.0, rest.1)
            }
        }
    }
}

/// A greeting body names a non-empty server version ended by a zero byte.
pub open spec fn has_version_text(b: Seq<u8>) -> bool {
    exists|i: int| is_first_nul(b, i) && i >= 2
}

/// Kind of the message whose body starts at `offset`, given its frame
/// header, the packet direction and what the flow is known to carry.
pub open spec fn classify(
    h: MysqlHeader,
    direction: PacketDirection,
    offset: int,
    p: Seq<u8>,
    l7_proto: L7Protocol,
) -> Option<LogMessageType> {
    if offset >= p.len() || h.length == 0 {
        None
    } else if h.number != 0 && l7_proto != L7Protocol::Mysql {
        None
    } else {
        match direction {
            PacketDirection::ServerToClient => {
                if h.number != 0 {
                    Some(LogMessageType::Response)
                } else {
                    let b = p.subrange(offset, p.len() as int);
                    if b[0] == PROTOCOL_VERSION && has_version_text(b) {
                        Some(LogMessageType::Other)
                    } else {
                        None
                    }
                }
            },
            PacketDirection::ClientToServer => {
                if h.number == 0 {
                    Some(LogMessageType::Request)
                } else {
                    None
                }
            },
        }
    }
}

impl MysqlHeader {
    fn decode_frames(&mut self, payload: &[u8], frames: usize) -> (r: isize)
        requires
            frames >= 1,
            payload@.len() <= isize::MAX,
        ensures
            r == decode_walk(payload@, frames as nat).0,
            match decode_walk(payload@, frames as nat).1 {
                Some(h) => *final(self) == h,
                None => *final(self) == *old(self),
            },
            -1 <= r < payload@.len(),
            r < 0 <==> decode_walk(payload@, frames as nat).1 is None,
            r < 0 ==> r == -1 && *final(self) == *old(self),
            r >= 0 ==> {
                &&& HEADER_LEN <= r
                &&& frame_selected(payload@.subrange(r - HEADER_LEN, payload@.len() as int))
                &&& final(self).number == payload@[r - 1]
                &&& final(self).length == le_u24(payload@.subrange(r - HEADER_LEN, r - 1))
            },
        decreases frames,
    {
        if payload.len() < 5 {
            return -1;
        }
        let len = read_u24_le(payload);
        let first = payload[HEADER_LEN + RESPONSE_CODE_OFFSET];
        if first == MYSQL_RESPONSE_CODE_OK || first == MYSQL_RESPONSE_CODE_ERR
            || first == MYSQL_RESPONSE_CODE_EOF || payload[NUMBER_OFFSET] == 0 {
            self.length = len;
            self.number = payload[NUMBER_OFFSET];
            return HEADER_LEN as isize;
        }
        let offset = len as usize + HEADER_LEN;
        if offset >= payload.len() || frames <= 1 {
            return -1;
        }
        let tail = &payload[offset..payload.len()];
        let rest = self.decode_frames(tail, frames - 1);
        if rest < 0 {
            return -1;
        }
        proof {
            let r = rest as int;
            assert(payload@.subrange(offset + r - HEADER_LEN, payload@.len() as int)
                =~= tail@.subrange(r - HEADER_LEN, tail@.len() as int));
            assert(payload@.subrange(offset + r - HEADER_LEN, offset + r - 1)
                =~= tail@.subrange(r - HEADER_LEN, r - 1));
        }
        offset as isize + rest
    }

    /// Finds the frame whose body the message starts at, records its header,
    /// and gives the offset of that body; gives -1, recording nothing, when
    /// no frame qualifies.
    pub fn decode(&mut self, payload: &[u8]) -> (r: isize)
        requires
            payload@.len() <= isize::MAX,
        ensures
            r == decode_walk(payload@, MAX_DECODE_FRAMES as nat).0,
            match decode_walk(payload@, MAX_DECODE_FRAMES as nat).1 {
                Some(h) => *final(self) == h,
                None => *final(self) == *old(self),
            },
            -1 <= r < payload@.len(),
            r < 0 <==> decode_walk(payload@, MAX_DECODE_FRAMES as nat).1 is None,
            r < 0 ==> r == -1 && *final(self) == *old(self),
            r >= 0 ==> {
                &&& HEADER_LEN <= r
                &&& frame_selected(payload@.subrange(r - HEADER_LEN, payload@.len() as int))
                &&& final(self).number == payload@[r - 1]
                &&& final(self).length == le_u24(payload@.subrange(r - HEADER_LEN, r - 1))
            },
    {
        self.decode_frames(payload, MAX_DECODE_FRAMES)
    }

    /// Classifies the message whose body starts at `offset`.
    pub fn check(
        &self,
        direction: PacketDirection,
        offset: usize,
        payload: &[u8],
        l7_proto: L7Protocol,
    ) -> (r: Option<LogMessageType>)
        ensures
            r == classify(*self, direction, offset as int, payload@, l7_proto),
    {
        if offset >= payload.len() || self.length == 0 {
            return None;
        }
        if self.number != 0 && l7_proto != L7Protocol::Mysql {
            return None;
        }
        match direction {
            PacketDirection::ServerToClient => {
                if self.number != 0 {
                    return Some(LogMessageType::Response);
                }
                let body = &payload[offset..payload.len()];
                let protocol_version = body[PROTOCOL_VERSION_OFFSET];
                let index = match first_nul(body) {
                    Some(i) => i,
                    None => return None,
                };
                if index >= 2 && protocol_version == PROTOCOL_VERSION {
                    Some(LogMessageType::Other)
                } else {
                    assert forall|i: int| is_first_nul(body@, i) implies i == index by {}
                    None
                }
            },
            PacketDirection::ClientToServer => {
                if self.number == 0 {
                    Some(LogMessageType::Request)
                } else {
                    None
                }
            },
        }
    }
}

/// Kind of the message that `p` carries, found by walking its frames.
pub open spec fn message_kind(
    p: Seq<u8>,
    direction: PacketDirection,
    l7_proto: L7Protocol,
) -> Option<LogMessageType> {
    let walk = decode_walk(p, MAX_DECODE_FRAMES as nat);
    if walk.0 < 0 {
        None
    } else {
        match walk.1 {
            Some(h) => classify(h, direction, walk.0, p, l7_proto),
            None => None,
        }
    }
}

/// Body of the message that `p` carries.
pub open spec fn message_body(p: Seq<u8>) -> Seq<u8> {
    p.subrange(decode_walk(p, MAX_DECODE_FRAMES as nat).0, p.len() as int)
}

/// The body `b` holds the fields that a message of kind `kind` needs.
pub open spec fn body_parses(kind: LogMessageType, b: Seq<u8>) -> bool {
    match kind {
        LogMessageType::Request => request_parses(b),
        LogMessageType::Response => response_parses(b),
        LogMessageType::Other => greeting_parses(b),
        _ => false,
    }
}

/// A TCP payload `p` parses as a MySQL message.
pub open spec fn parse_succeeds(p: Seq<u8>, direction: PacketDirection, l7_proto: L7Protocol) -> bool {
    match message_kind(p, direction, l7_proto) {
        Some(k) => body_parses(k, message_body(p)),
        None => false,
    }
}

/// `i` holds the fields of the message body `b` of kind `kind`, and every
/// other field is empty.
pub open spec fn message_info(kind: LogMessageType, b: Seq<u8>, i: MysqlInfo) -> bool {
    exists|base: MysqlInfo| {
        &&& empty_info(base)
        &&& match kind {
            LogMessageType::Request => request_info(b, base, i),
            LogMessageType::Response => response_info(b, base, i),
            _ => greeting_info(b, base, i),
        }
    }
}

/// Status of a message body `b` of kind `kind`.
pub open spec fn message_status(kind: LogMessageType, b: Seq<u8>) -> L7ResponseStatus {
    match kind {
        LogMessageType::Response => response_status(b, L7ResponseStatus::Success),
        _ => L7ResponseStatus::Success,
    }
}

/// Record handed to the collector: the summary and the protocol's fields.
#[derive(Debug, Clone)]
pub struct AppProtoLogsData {
    pub head: AppProtoHead,
    pub special_info: Option<MysqlInfo>,
}

/// Whether a TCP payload looks like the start of a MySQL conversation: a
/// first frame with sequence number 0 that fits in the payload, whose body
/// is a query in ASCII text or a greeting whose version text begins with
/// three digits or dots.
pub open spec fn looks_like_mysql(p: Seq<u8>) -> bool {
    let walk = decode_walk(p, MAX_DECODE_FRAMES as nat);
    let h = walk.1->Some_0;
    let offset = walk.0;
    if offset < 0 || h.number != 0 || offset + h.length > p.len() {
        false
    } else if p[offset] == MYSQL_COMMAND_QUERY {
        is_ascii_chars(utf8_lossy(text_bytes(p.subrange(offset + 1, p.len() as int))))
    } else if 8 <= p[offset] <= 20 {
        let end = if p.len() < offset + 8 { p.len() as int } else { offset + 8 };
        has_version_prefix(utf8_lossy(text_bytes(p.subrange(offset + 1, end))))
    } else {
        false
    }
}

/// A payload that rules MySQL out for the whole flow: it is not carried by
/// TCP, or it is too short to hold a frame header and a body byte.
pub open spec fn rules_out_mysql(l4_protocol: IpProtocol, payload: Option<&[u8]>) -> bool {
    match payload {
        _ if l4_protocol != IpProtocol::Tcp => true,
        Some(p) => p@.len() <= HEADER_LEN,
        None => false,
    }
}

/// Tells whether a payload opens a MySQL conversation; clears the MySQL
/// bit of `bitmap` when the payload rules MySQL out for the flow.
pub fn mysql_check_protocol(bitmap: &mut u128, l4_protocol: IpProtocol, payload: Option<&[u8]>) -> (r: bool)
    requires
        match payload {
            Some(p) => p@.len() <= isize::MAX,
            None => true,
        },
    ensures
        r == (l4_protocol == IpProtocol::Tcp && payload is Some && looks_like_mysql(payload->Some_0@)),
        *final(bitmap) == check_bitmap(*old(bitmap), l4_protocol, payload),
{
    if l4_protocol != IpProtocol::Tcp {
        clear_protocol_bit(bitmap, L7Protocol::Mysql);
        return false;
    }
    let payload = match payload {
        Some(p) => p,
        None => return false,
    };
    let mut header = MysqlHeader::default();
    let offset = header.decode(payload);
    if offset < 0 {
        if payload.len() <= HEADER_LEN {
            clear_protocol_bit(bitmap, L7Protocol::Mysql);
        }
        return false;
    }
    let offset = offset as usize;
    if header.number != 0 || offset as u64 + header.length as u64 > payload.len() as u64 {
        return false;
    }
    let first = payload[offset];
    if first == MYSQL_COMMAND_QUERY {
        let context = mysql_string(&payload[offset + 1..payload.len()]);
        context.as_str().is_ascii()
    } else if 8 <= first && first <= 20 {
        let end = if payload.len() < offset + 8 { payload.len() } else { offset + 8 };
        let context = mysql_string(&payload[offset + 1..end]);
        regex_is_match("^[0-9\\.]{3,}", context.as_str())
    } else {
        false
    }
}

/// The bitmap after a MySQL check of `payload` on a flow whose bitmap was
/// `bitmap`.
pub open spec fn check_bitmap(bitmap: u128, l4_protocol: IpProtocol, payload: Option<&[u8]>) -> u128 {
    if rules_out_mysql(l4_protocol, payload) {
        without_candidate(bitmap, L7Protocol::Mysql.spec_number())
    } else {
        bitmap
    }
}

/// The MySQL check is a function of its inputs, and running it again on the
/// same payload gives the same answer and leaves the bitmap as the first run
/// left it.
pub proof fn lemma_check_idempotent(bitmap: u128, l4_protocol: IpProtocol, payload: Option<&[u8]>)
    ensures
        check_bitmap(check_bitmap(bitmap, l4_protocol, payload), l4_protocol, payload)
            == check_bitmap(bitmap, l4_protocol, payload),
{
    let b = bitmap;
    let n = L7Protocol::Mysql.spec_number() as u128;
    assert((b & !(1u128 << n)) & !(1u128 << n) == b & !(1u128 << n)) by (bit_vector);
}

/// A payload that the MySQL check accepts as a query, and whose frame header
/// announces a body, parses as a request from the client.
pub proof fn lemma_accepted_query_parses(p: Seq<u8>, l7_proto: L7Protocol)
    requires
        looks_like_mysql(p),
        decode_walk(p, MAX_DECODE_FRAMES as nat).1 matches Some(h) && h.length != 0,
        p[decode_walk(p, MAX_DECODE_FRAMES as nat).0] == MYSQL_COMMAND_QUERY,
    ensures
        message_kind(p, PacketDirection::ClientToServer, l7_proto) == Some(LogMessageType::Request),
        parse_succeeds(p, PacketDirection::ClientToServer, l7_proto),
{
    let off = decode_walk(p, MAX_DECODE_FRAMES as nat).0;
    assert(message_body(p)[0] == p[off]);
}

/// What parsing the payload `p` carried by `proto` does to a parser that
/// was `before`: `after` is the parser afterwards and `r` the result.
pub open spec fn parse_outcome(
    before: MysqlLog,
    after: MysqlLog,
    p: Seq<u8>,
    proto: IpProtocol,
    direction: PacketDirection,
    r: Result<AppProtoHead, Error>,
) -> bool {
    &&& proto != IpProtocol::Tcp ==> r == Err::<AppProtoHead, Error>(Error::InvalidIpProtocol) && after == before
    &&& proto == IpProtocol::Tcp ==> (r is Ok <==> parse_succeeds(p, direction, before.spec_l7_proto()))
    &&& proto == IpProtocol::Tcp && r is Err ==> {
        &&& r == Err::<AppProtoHead, Error>(Error::MysqlLogParseFailed)
        &&& empty_info(after.spec_info())
        &&& after.spec_status() == L7ResponseStatus::Success
        &&& after.spec_l7_proto() == before.spec_l7_proto()
        &&& after.spec_msg_type() == before.spec_msg_type()
    }
    &&& r is Ok ==> {
        let kind = message_kind(p, direction, before.spec_l7_proto())->Some_0;
        let body = message_body(p);
        &&& after.spec_msg_type() == kind
        &&& message_info(kind, body, after.spec_info())
        &&& after.spec_status() == message_status(kind, body)
        &&& after.spec_l7_proto() == (if kind == LogMessageType::Response {
            before.spec_l7_proto()
        } else {
            L7Protocol::Mysql
        })
        &&& r == Ok::<AppProtoHead, Error>(AppProtoHead {
            proto: L7Protocol::Mysql,
            msg_type: kind,
            status: after.spec_status(),
            code: after.spec_info().error_code,
            rrt: 0,
            version: 0,
        })
    }
}

/// Parser state for one MySQL flow.
#[derive(Debug, Clone)]
pub struct MysqlLog {
    info: MysqlInfo,
    l7_proto: L7Protocol,
    msg_type: LogMessageType,
    status: L7ResponseStatus,
}

impl Default for MysqlLog {
    fn default() -> (r: MysqlLog)
        ensures
            empty_info(r.spec_info()),
            r.spec_l7_proto() == L7Protocol::Unknown,
            r.spec_msg_type() == LogMessageType::Other,
            r.spec_status() == L7ResponseStatus::Success,
    {
        MysqlLog {
            info: MysqlInfo::default(),
            l7_proto: L7Protocol::Unknown,
            msg_type: LogMessageType::Other,
            status: L7ResponseStatus::Success,
        }
    }
}

impl MysqlLog {
    pub closed spec fn spec_info(&self) -> MysqlInfo {
        self.info
    }

    pub closed spec fn spec_l7_proto(&self) -> L7Protocol {
        self.l7_proto
    }

    pub closed spec fn spec_msg_type(&self) -> LogMessageType {
        self.msg_type
    }

    pub closed spec fn spec_status(&self) -> L7ResponseStatus {
        self.status
    }

    fn request_string(&mut self, payload: &[u8])
        ensures
            final(self).info == (MysqlInfo { context: final(self).info.context, ..old(self).info }),
            final(self).info.context@ == utf8_lossy(text_bytes(payload@)),
            final(self).l7_proto == old(self).l7_proto,
            final(self).msg_type == old(self).msg_type,
            final(self).status == old(self).status,
    {
        self.info.context = mysql_string(payload);
    }

    fn reset_logs(&mut self)
        ensures
            empty_info(final(self).info),
            final(self).status == L7ResponseStatus::Success,
            final(self).l7_proto == old(self).l7_proto,
            final(self).msg_type == old(self).msg_type,
    {
        self.info = MysqlInfo::default();
        self.status = L7ResponseStatus::Success;
    }

    /// Decodes the length-encoded integer at the start of `payload`.
    pub fn decode_compress_int(payload: &[u8]) -> (r: u64)
        ensures
            r == compress_int(payload@),
    {
        let remain = payload.len();
        if remain == 0 {
            return 0;
        }
        let value = payload[0];
        if value == INT_FLAGS_2 {
            if remain >= INT_BASE_LEN + 2 {
                let b = &payload[INT_BASE_LEN..INT_BASE_LEN + 2];
                read_u16_le(b) as u64
            } else {
                0
            }
        } else if value == INT_FLAGS_3 {
            if remain >= INT_BASE_LEN + 3 {
                let b = &payload[INT_BASE_LEN..INT_BASE_LEN + 3];
                read_u24_le(b) as u64
            } else {
                0
            }
        } else if value == INT_FLAGS_8 {
            if remain >= INT_BASE_LEN + 8 {
                let b = &payload[INT_BASE_LEN..INT_BASE_LEN + 8];
                read_u64_le(b)
            } else {
                0
            }
        } else {
            value as u64
        }
    }

    fn set_status(&mut self, status_code: u16)
        ensures
            final(self).status == status_of(status_code),
            final(self).info == old(self).info,
            final(self).l7_proto == old(self).l7_proto,
            final(self).msg_type == old(self).msg_type,
    {
        if status_code != 0 {
            if status_code >= 2000 && status_code <= 2999 {
                self.status = L7ResponseStatus::ClientError;
            } else {
                self.status = L7ResponseStatus::ServerError;
            }
        } else {
            self.status = L7ResponseStatus::Success;
        }
    }

    fn greeting(&mut self, payload: &[u8]) -> (r: Result<(), Error>)
        ensures
            r is Ok <==> greeting_parses(payload@),
            r is Ok ==> greeting_info(payload@, old(self).info, final(self).info),
            r is Ok ==> final(self).l7_proto == L7Protocol::Mysql,
            r is Err ==> r == Err::<(), Error>(Error::MysqlLogParseFailed) && *final(self) == *old(self),
            final(self).msg_type == old(self).msg_type,
            final(self).status == old(self).status,
    {
        if payload.len() < PROTOCOL_VERSION_LEN {
            return Err(Error::MysqlLogParseFailed);
        }
        let nul = match first_nul(payload) {
            Some(i) => i,
            None => return Err(Error::MysqlLogParseFailed),
        };
        if nul < 2 || payload.len() - nul <= THREAD_ID_LEN {
            assert forall|i: int| is_first_nul(payload@, i) implies !(i >= 2 && payload@.len() >= i + 5) by {
                assert(i == nul);
            }
            return Err(Error::MysqlLogParseFailed);
        }
        self.info.protocol_version = payload[PROTOCOL_VERSION_OFFSET];
        self.info.server_version = lossy_string(&payload[SERVER_VERSION_OFFSET..nul]);
        let thread_id = &payload[nul + 1..nul + 1 + THREAD_ID_LEN];
        self.info.server_thread_id = read_u32_le(thread_id);
        self.l7_proto = L7Protocol::Mysql;
        Ok(())
    }

    fn request(&mut self, payload: &[u8]) -> (r: Result<(), Error>)
        ensures
            r is Ok <==> request_parses(payload@),
            r is Ok ==> final(self).l7_proto == L7Protocol::Mysql,
            r is Ok ==> request_info(payload@, old(self).info, final(self).info),
            r is Err ==> r == Err::<(), Error>(Error::MysqlLogParseFailed) && *final(self) == *old(self),
            final(self).msg_type == old(self).msg_type,
            final(self).status == old(self).status,
    {
        if payload.len() < COMMAND_LEN {
            return Err(Error::MysqlLogParseFailed);
        }
        let command = payload[COMMAND_OFFSET];
        if command == MYSQL_COMMAND_QUIT || command == MYSQL_COMMAND_SHOW_FIELD {
            self.info.command = command;
            self.info.context = String::new();
        } else if command == MYSQL_COMMAND_USE_DATABASE || command == MYSQL_COMMAND_QUERY {
            self.info.command = command;
            self.request_string(&payload[COMMAND_OFFSET + COMMAND_LEN..payload.len()]);
        } else {
            return Err(Error::MysqlLogParseFailed);
        }
        self.l7_proto = L7Protocol::Mysql;
        Ok(())
    }

    fn response(&mut self, payload: &[u8]) -> (r: Result<(), Error>)
        ensures
            r is Ok <==> response_parses(payload@),
            r is Err ==> r == Err::<(), Error>(Error::MysqlLogParseFailed) && *final(self) == *old(self),
            r is Ok ==> response_info(payload@, old(self).info, final(self).info),
            r is Ok ==> final(self).status == response_status(payload@, old(self).status),
            final(self).l7_proto == old(self).l7_proto,
            final(self).msg_type == old(self).msg_type,
    {
        if payload.len() < RESPONSE_CODE_LEN {
            return Err(Error::MysqlLogParseFailed);
        }
        let code = payload[RESPONSE_CODE_OFFSET];
        if code == MYSQL_RESPONSE_CODE_ERR {
            if payload.len() < SQL_STATE_OFFSET {
                return Err(Error::MysqlLogParseFailed);
            }
            self.info.response_code = code;
            self.info.error_code = read_u16_le(&payload[ERROR_CODE_OFFSET..ERROR_CODE_OFFSET + ERROR_CODE_LEN]);
            self.set_status(self.info.error_code);
            let offset = if payload.len() >= SQL_STATE_OFFSET + SQL_STATE_LEN
                && payload[SQL_STATE_OFFSET] == SQL_STATE_MARKER {
                SQL_STATE_OFFSET + SQL_STATE_LEN
            } else {
                SQL_STATE_OFFSET
            };
            self.info.error_message = lossy_string(&payload[offset..payload.len()]);
        } else if code == MYSQL_RESPONSE_CODE_OK {
            self.info.response_code = code;
            self.status = L7ResponseStatus::Success;
            self.info.affected_rows = MysqlLog::decode_compress_int(
                &payload[AFFECTED_ROWS_OFFSET..payload.len()],
            );
        } else {
            self.info.response_code = code;
        }
        Ok(())
    }


    /// Parses one TCP payload of the flow. The fields of the previous
    /// message are cleared first; the message kind and its fields are kept
    /// on success.
    pub fn parse(&mut self, payload: &[u8], proto: IpProtocol, direction: PacketDirection) -> (r: Result<AppProtoHead, Error>)
        requires
            payload@.len() <= isize::MAX,
        ensures
            parse_outcome(*old(self), *final(self), payload@, proto, direction, r),
    {
        if proto != IpProtocol::Tcp {
            return Err(Error::InvalidIpProtocol);
        }
        self.reset_logs();
        let mut header = MysqlHeader::default();
        let offset = header.decode(payload);
        if offset < 0 {
            return Err(Error::MysqlLogParseFailed);
        }
        let offset = offset as usize;
        let msg_type = match header.check(direction, offset, payload, self.l7_proto) {
            Some(t) => t,
            None => return Err(Error::MysqlLogParseFailed),
        };
        let body = &payload[offset..payload.len()];
        assert(body@ == message_body(payload@));
        match msg_type {
            LogMessageType::Request => self.request(body)?,
            LogMessageType::Response => self.response(body)?,
            LogMessageType::Other => self.greeting(body)?,
            _ => return Err(Error::MysqlLogParseFailed),
        };
        self.msg_type = msg_type;
        Ok(AppProtoHead {
            proto: L7Protocol::Mysql,
            msg_type,
            status: self.status,
            code: self.info.error_code,
            rrt: 0,
            version: 0,
        })
    }

    /// The fields of the last message parsed.
    pub fn info(&self) -> (r: MysqlInfo)
        ensures
            r == self.spec_info(),
    {
        MysqlInfo {
            protocol_version: self.info.protocol_version,
            server_version: self.info.server_version.clone(),
            server_thread_id: self.info.server_thread_id,
            command: self.info.command,
            context: self.info.context.clone(),
            response_code: self.info.response_code,
            error_code: self.info.error_code,
            affected_rows: self.info.affected_rows,
            error_message: self.info.error_message.clone(),
        }
    }

    /// Hands the fields of the last message to the collector's record; for an
    /// error response the record's code becomes the error code.
    pub fn get_log_data_special_info(self, log_data: &mut AppProtoLogsData)
        ensures
            final(log_data).special_info == Some(self.spec_info()),
            final(log_data).head == (if self.spec_msg_type() == LogMessageType::Response
                && self.spec_info().response_code == MYSQL_RESPONSE_CODE_ERR {
                AppProtoHead { code: self.spec_info().error_code, ..old(log_data).head }
            } else {
                old(log_data).head
            }),
    {
        if self.msg_type == LogMessageType::Response && self.info.response_code == MYSQL_RESPONSE_CODE_ERR {
            log_data.head.code = self.info.error_code;
        }
        log_data.special_info = Some(self.info);
    }

}

} // verus!
