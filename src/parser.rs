//! The parser registry and the per-flow candidate bitmap.
use vstd::prelude::*;

use crate::mysql::{
    check_bitmap, empty_info, looks_like_mysql, mysql_check_protocol, parse_outcome, parse_succeeds, MysqlLog,
};
use crate::protocol::{AppProtoHead, Error, IpProtocol, L7Protocol, L7ResponseStatus, LogMessageType, ParseParam};

verus! {

/// Bit `n` of `bitmap` is set: protocol number `n` is still a candidate.
pub open spec fn is_candidate(bitmap: u128, n: u8) -> bool {
    bitmap & (1u128 << (n as u128)) != 0
}

/// `bitmap` with bit `n` cleared.
pub open spec fn without_candidate(bitmap: u128, n: u8) -> u128 {
    bitmap & !(1u128 << (n as u128))
}

/// Clearing bit `n` clears that bit and keeps every other one as it was; so
/// a bit that is clear stays clear.
pub proof fn lemma_clear_monotonic(bitmap: u128, n: u8, m: u8)
    requires
        n < 128,
        m < 128,
    ensures
        is_candidate(without_candidate(bitmap, n), m) <==> (is_candidate(bitmap, m) && m != n),
        !is_candidate(bitmap, m) ==> !is_candidate(without_candidate(bitmap, n), m),
{
    let b = bitmap;
    let nn = n as u128;
    let mm = m as u128;
    assert((b & !(1u128 << nn)) & (1u128 << mm) != 0 <==> (b & (1u128 << mm) != 0 && mm != nn))
        by (bit_vector)
        requires
            nn < 128,
            mm < 128,
    ;
}

/// `bitmap` with the bits `ns` cleared in turn.
pub open spec fn without_candidates(bitmap: u128, ns: Seq<u8>) -> u128
    decreases ns.len(),
{
    if ns.len() == 0 {
        bitmap
    } else {
        without_candidates(without_candidate(bitmap, ns[0]), ns.drop_first())
    }
}

/// However many bits a flow clears afterwards, and in whatever order, a bit
/// that is clear stays clear.
pub proof fn lemma_clear_sequence(bitmap: u128, ns: Seq<u8>, m: u8)
    requires
        m < 128,
        forall|i: int| 0 <= i < ns.len() ==> #[trigger] ns[i] < 128,
        !is_candidate(bitmap, m),
    ensures
        !is_candidate(without_candidates(bitmap, ns), m),
    decreases ns.len(),
{
    if ns.len() > 0 {
        lemma_clear_monotonic(bitmap, ns[0], m);
        let rest = ns.drop_first();
        assert forall|i: int| 0 <= i < rest.len() implies #[trigger] rest[i] < 128 by {
            assert(rest[i] == ns[i + 1]);
        }
        lemma_clear_sequence(without_candidate(bitmap, ns[0]), rest, m);
    }
}

/// Clears the bit of protocol `proto` in `bitmap`.
pub fn clear_protocol_bit(bitmap: &mut u128, proto: L7Protocol)
    ensures
        *final(bitmap) == without_candidate(*old(bitmap), proto.spec_number()),
{
    let n = proto.number();
    *bitmap = *bitmap & !(1u128 << (n as u128));
}

/// Setting bit `n` sets that bit and keeps every other one as it was.
proof fn lemma_set_bit(bitmap: u128, n: u8, m: u8)
    requires
        n < 128,
        m < 128,
    ensures
        is_candidate(bitmap | (1u128 << (n as u128)), m) <==> (is_candidate(bitmap, m) || m == n),
{
    let b = bitmap;
    let nn = n as u128;
    let mm = m as u128;
    assert((b | (1u128 << nn)) & (1u128 << mm) != 0 <==> (b & (1u128 << mm) != 0 || mm == nn))
        by (bit_vector)
        requires
            nn < 128,
            mm < 128,
    ;
}

/// The empty bitmap holds no candidate.
pub proof fn lemma_empty_bitmap(m: u8)
    requires
        m < 128,
    ensures
        !is_candidate(0, m),
{
    let mm = m as u128;
    assert(0u128 & (1u128 << mm) == 0) by (bit_vector);
}

/// One parser of each protocol that the agent identifies.
#[derive(Debug, Clone)]
pub enum L7ProtocolParser {
    MysqlParser(MysqlLog),
}

/// Protocols of the registry, in the order in which identification tries
/// them.
pub open spec fn registry() -> Seq<L7Protocol> {
    seq![L7Protocol::Mysql]
}

/// Whether the parser of `proto` runs on payloads carried by `l4`.
pub open spec fn parsable_on(proto: L7Protocol, l4: IpProtocol) -> bool {
    match l4 {
        IpProtocol::Tcp => proto == L7Protocol::Mysql,
        _ => false,
    }
}

impl L7ProtocolParser {
    pub open spec fn spec_protocol(&self) -> L7Protocol {
        match self {
            L7ProtocolParser::MysqlParser(_) => L7Protocol::Mysql,
        }
    }

    /// The protocol that this parser identifies.
    pub fn protocol(&self) -> (r: L7Protocol)
        ensures
            r == self.spec_protocol(),
    {
        match self {
            L7ProtocolParser::MysqlParser(_) => L7Protocol::Mysql,
        }
    }

    /// Whether the parser runs on TCP payloads.
    pub fn parsable_on_tcp(&self) -> (r: bool)
        ensures
            r == parsable_on(self.spec_protocol(), IpProtocol::Tcp),
    {
        match self {
            L7ProtocolParser::MysqlParser(_) => true,
        }
    }

    /// Whether the parser runs on UDP payloads.
    pub fn parsable_on_udp(&self) -> (r: bool)
        ensures
            r == parsable_on(self.spec_protocol(), IpProtocol::Udp),
    {
        match self {
            L7ProtocolParser::MysqlParser(_) => false,
        }
    }

    /// Whether `bitmap` rules this parser's protocol out.
    pub fn is_skip_parse(&self, bitmap: u128) -> (r: bool)
        ensures
            r == !is_candidate(bitmap, self.spec_protocol().spec_number()),
    {
        bitmap & (1u128 << (self.protocol().number() as u128)) == 0
    }

    /// Rules this parser's protocol out in `bitmap`.
    pub fn set_bitmap_skip_parse(&self, bitmap: &mut u128)
        ensures
            *final(bitmap) == without_candidate(*old(bitmap), self.spec_protocol().spec_number()),
    {
        clear_protocol_bit(bitmap, self.protocol());
    }
}

/// Whether the parser of `proto` recognises the payload `p` carried by `l4`.
pub open spec fn accepts(proto: L7Protocol, l4: IpProtocol, p: Seq<u8>) -> bool {
    match proto {
        L7Protocol::Mysql => l4 == IpProtocol::Tcp && looks_like_mysql(p),
        _ => false,
    }
}

/// Whether `parser` parses the payload `p` with context `param`.
pub open spec fn parse_ok(parser: L7ProtocolParser, p: Seq<u8>, param: ParseParam) -> bool {
    match parser {
        L7ProtocolParser::MysqlParser(log) => param.l4_protocol == IpProtocol::Tcp
            && parse_succeeds(p, param.direction, log.spec_l7_proto()),
    }
}

impl L7ProtocolParser {
    /// Tells whether the payload belongs to this parser's protocol. The check
    /// may rule the protocol out for the flow by clearing its own bit of
    /// `bitmap`, and touches no other bit.
    pub fn check_payload(&mut self, bitmap: &mut u128, payload: &[u8], param: &ParseParam) -> (r: bool)
        requires
            payload@.len() <= isize::MAX,
        ensures
            r == accepts(old(self).spec_protocol(), param.l4_protocol, payload@),
            *final(self) == *old(self),
            *final(bitmap) == *old(bitmap) || *final(bitmap) == without_candidate(
                *old(bitmap),
                old(self).spec_protocol().spec_number(),
            ),
            r ==> *final(bitmap) == *old(bitmap),
            match *old(self) {
                L7ProtocolParser::MysqlParser(_) => *final(bitmap) == check_bitmap(
                    *old(bitmap),
                    param.l4_protocol,
                    Some(payload),
                ),
            },
    {
        match self {
            L7ProtocolParser::MysqlParser(_) => mysql_check_protocol(bitmap, param.l4_protocol, Some(payload)),
        }
    }

    /// Returns the parser to the state of a fresh one of its protocol.
    pub fn reset(&mut self)
        ensures
            final(self).spec_protocol() == old(self).spec_protocol(),
            is_fresh(*final(self)),
    {
        match self {
            L7ProtocolParser::MysqlParser(log) => {
                *log = MysqlLog::default();
            },
        }
    }

    /// Parses the payload with this parser.
    pub fn parse_payload(&mut self, payload: &[u8], param: &ParseParam) -> (r: Result<AppProtoHead, Error>)
        requires
            payload@.len() <= isize::MAX,
        ensures
            final(self).spec_protocol() == old(self).spec_protocol(),
            r is Ok <==> parse_ok(*old(self), payload@, *param),
            parser_outcome(*old(self), *final(self), payload@, *param, r),
    {
        match self {
            L7ProtocolParser::MysqlParser(log) => log.parse(payload, param.l4_protocol, param.direction),
        }
    }
}

/// A fresh parser for `p`, when the registry has one.
pub fn get_parser(p: L7Protocol) -> (r: Option<L7ProtocolParser>)
    ensures
        r is Some <==> registry().contains(p),
        r matches Some(q) ==> q.spec_protocol() == p,
{
    assert(registry()[0] == L7Protocol::Mysql);
    match p {
        L7Protocol::Mysql => Some(L7ProtocolParser::MysqlParser(MysqlLog::default())),
        _ => None,
    }
}

/// A parser that has seen no payload yet: an empty record, a success
/// status, and no protocol identified.
pub open spec fn is_fresh(p: L7ProtocolParser) -> bool {
    match p {
        L7ProtocolParser::MysqlParser(log) => {
            &&& log.spec_l7_proto() == L7Protocol::Unknown
            &&& empty_info(log.spec_info())
            &&& log.spec_status() == L7ResponseStatus::Success
            &&& log.spec_msg_type() == LogMessageType::Other
        },
    }
}

/// What parsing the payload `p` with context `param` does to a parser that
/// was `before`: `after` is the parser afterwards and `r` the result.
pub open spec fn parser_outcome(
    before: L7ProtocolParser,
    after: L7ProtocolParser,
    p: Seq<u8>,
    param: ParseParam,
    r: Result<AppProtoHead, Error>,
) -> bool {
    match (before, after) {
        (L7ProtocolParser::MysqlParser(a), L7ProtocolParser::MysqlParser(b)) => parse_outcome(
            a,
            b,
            p,
            param.l4_protocol,
            param.direction,
            r,
        ),
    }
}

/// Whether a fresh parser of `proto` parses the payload `p` with context
/// `param`.
pub open spec fn fresh_parse_ok(proto: L7Protocol, p: Seq<u8>, param: ParseParam) -> bool {
    match proto {
        L7Protocol::Mysql => param.l4_protocol == IpProtocol::Tcp
            && parse_succeeds(p, param.direction, L7Protocol::Unknown),
        _ => false,
    }
}

/// The protocols of the registry have distinct numbers.
pub proof fn lemma_registry_distinct()
    ensures
        forall|i: int, j: int| 0 <= i < registry().len() && 0 <= j < registry().len() && i != j
            ==> registry()[i].spec_number() != registry()[j].spec_number(),
{
}

/// A fresh parser of each protocol of the registry, in its order.
pub fn get_all_protocol() -> (r: Vec<L7ProtocolParser>)
    ensures
        r@.len() == registry().len(),
        forall|i: int| 0 <= i < r@.len() ==> #[trigger] r@[i].spec_protocol() == registry()[i],
        forall|i: int| 0 <= i < r@.len() ==> is_fresh(#[trigger] r@[i]),
{
    let mut v: Vec<L7ProtocolParser> = Vec::new();
    v.push(L7ProtocolParser::MysqlParser(MysqlLog::default()));
    v
}

/// The initial candidate bitmap of a flow carried by `protocol`: the bits of
/// the registry's protocols whose parsers run on it.
pub fn get_bitmap(protocol: IpProtocol) -> (r: u128)
    ensures
        forall|n: u8| n < 128 ==> (#[trigger] is_candidate(r, n) <==> exists|i: int|
            0 <= i < registry().len() && registry()[i].spec_number() == n
                && parsable_on(registry()[i], protocol)),
{
    let parsers = get_all_protocol();
    let mut bitmap: u128 = 0;
    let mut k: usize = 0;
    assert forall|n: u8| n < 128 implies !#[trigger] is_candidate(bitmap, n) by {
        lemma_empty_bitmap(n);
    }
    while k < parsers.len()
        invariant
            parsers@.len() == registry().len(),
            forall|i: int| 0 <= i < parsers@.len() ==> #[trigger] parsers@[i].spec_protocol() == registry()[i],
            k <= parsers@.len(),
            forall|n: u8| n < 128 ==> (#[trigger] is_candidate(bitmap, n) <==> exists|i: int|
                0 <= i < k && registry()[i].spec_number() == n && parsable_on(registry()[i], protocol)),
        decreases parsers.len() - k,
    {
        let p = &parsers[k];
        let on = match protocol {
            IpProtocol::Tcp => p.parsable_on_tcp(),
            IpProtocol::Udp => p.parsable_on_udp(),
            _ => false,
        };
        let ghost prev = bitmap;
        if on {
            let n = p.protocol().number();
            bitmap = bitmap | (1u128 << (n as u128));
            assert forall|m: u8| m < 128 implies (#[trigger] is_candidate(bitmap, m) <==> exists|i: int|
                0 <= i < k + 1 && registry()[i].spec_number() == m && parsable_on(registry()[i], protocol)) by {
                lemma_set_bit(prev, n, m);
                if m == n {
                    assert(registry()[k as int].spec_number() == m);
                }
                if exists|i: int| 0 <= i < k + 1 && registry()[i].spec_number() == m && parsable_on(registry()[i], protocol) {
                    let i = choose|i: int| 0 <= i < k + 1 && registry()[i].spec_number() == m && parsable_on(registry()[i], protocol);
                    if i < k {
                        assert(is_candidate(prev, m));
                    }
                }
            }
        } else {
            assert forall|m: u8| m < 128 implies (#[trigger] is_candidate(bitmap, m) <==> exists|i: int|
                0 <= i < k + 1 && registry()[i].spec_number() == m && parsable_on(registry()[i], protocol)) by {
                if exists|i: int| 0 <= i < k + 1 && registry()[i].spec_number() == m && parsable_on(registry()[i], protocol) {
                    let i = choose|i: int| 0 <= i < k + 1 && registry()[i].spec_number() == m && parsable_on(registry()[i], protocol);
                    assert(i < k);
                    assert(is_candidate(prev, m));
                }
            }
        }
        k = k + 1;
    }
    bitmap
}

} // verus!
