//! Identification of a flow's application protocol.
use vstd::prelude::*;

use crate::parser::{
    accepts, fresh_parse_ok, lemma_empty_bitmap, get_all_protocol, get_bitmap, is_candidate, lemma_clear_monotonic,
    lemma_registry_distinct, parsable_on, parse_ok, parser_outcome, registry, L7ProtocolParser, is_fresh,
};
use crate::protocol::{AppProtoHead, Error, IpProtocol, L7Protocol, ParseParam};

verus! {

/// Payloads that a flow may fail to identify before its protocol is taken
/// as unknown.
pub const MAX_IDENTIFY_FAILURES: u8 = 10;

/// The `i`-th parser of the registry is tried on the payload `p` of a flow
/// with bitmap `bitmap`, and recognises it.
pub open spec fn tried_and_accepted(i: int, bitmap: u128, l4: IpProtocol, p: Seq<u8>) -> bool {
    &&& is_candidate(bitmap, registry()[i].spec_number())
    &&& parsable_on(registry()[i], l4)
    &&& accepts(registry()[i], l4, p)
}

/// What one flow knows of its application protocol.
pub struct L7Flow {
    bitmap: u128,
    parser: Option<L7ProtocolParser>,
    failures: u8,
}

impl L7Flow {
    pub closed spec fn spec_bitmap(&self) -> u128 {
        self.bitmap
    }

    /// The protocol that the flow is pinned to, if any.
    pub closed spec fn pinned(&self) -> Option<L7Protocol> {
        match self.parser {
            Some(p) => Some(p.spec_protocol()),
            None => None,
        }
    }

    /// The parser that the flow is pinned to.
    pub closed spec fn spec_parser(&self) -> Option<L7ProtocolParser> {
        self.parser
    }

    /// Payloads that failed identification so far.
    pub closed spec fn spec_failures(&self) -> int {
        self.failures as int
    }

    /// A new flow carried by `l4`: every parser that runs on it is a
    /// candidate.
    pub fn new(l4: IpProtocol) -> (r: L7Flow)
        ensures
            forall|n: u8| n < 128 ==> (#[trigger] is_candidate(r.spec_bitmap(), n) <==> exists|i: int|
                0 <= i < registry().len() && registry()[i].spec_number() == n
                    && parsable_on(registry()[i], l4)),
            r.pinned() is None,
            r.spec_failures() == 0,
    {
        L7Flow { bitmap: get_bitmap(l4), parser: None, failures: 0 }
    }

    /// The candidate bitmap.
    pub fn bitmap(&self) -> (r: u128)
        ensures
            r == self.spec_bitmap(),
    {
        self.bitmap
    }

    /// The protocol that the flow is pinned to, or `Unknown`.
    pub fn protocol(&self) -> (r: L7Protocol)
        ensures
            r == match self.pinned() {
                Some(p) => p,
                None => L7Protocol::Unknown,
            },
    {
        match &self.parser {
            Some(p) => p.protocol(),
            None => L7Protocol::Unknown,
        }
    }

    /// Whether identification gave up on the flow.
    pub fn is_unknown(&self) -> (r: bool)
        ensures
            r == (self.spec_failures() >= MAX_IDENTIFY_FAILURES),
    {
        self.failures >= MAX_IDENTIFY_FAILURES
    }

    /// Clears the bit of every registry protocol but `own`.
    fn keep_only(&mut self, own: L7Protocol)
        ensures
            forall|m: u8| m < 128 && #[trigger] is_candidate(final(self).bitmap, m) ==> is_candidate(old(self).bitmap, m),
            is_candidate(final(self).bitmap, own.spec_number()) == is_candidate(old(self).bitmap, own.spec_number()),
            forall|i: int| 0 <= i < registry().len() && registry()[i] != own
                ==> !is_candidate(final(self).bitmap, #[trigger] registry()[i].spec_number()),
            final(self).parser == old(self).parser,
            final(self).failures == old(self).failures,
    {
        let all = get_all_protocol();
        let mut i: usize = 0;
        while i < all.len()
            invariant
                all@.len() == registry().len(),
                forall|j: int| 0 <= j < all@.len() ==> #[trigger] all@[j].spec_protocol() == registry()[j],
                i <= all@.len(),
                forall|m: u8| m < 128 && #[trigger] is_candidate(self.bitmap, m) ==> is_candidate(old(self).bitmap, m),
                is_candidate(self.bitmap, own.spec_number()) == is_candidate(old(self).bitmap, own.spec_number()),
                forall|j: int| 0 <= j < i && registry()[j] != own
                    ==> !is_candidate(self.bitmap, #[trigger] registry()[j].spec_number()),
                self.parser == old(self).parser,
                self.failures == old(self).failures,
            decreases all.len() - i,
        {
            let q = &all[i];
            if q.protocol() != own {
                let ghost before = self.bitmap;
                let qn = q.protocol().number();
                q.set_bitmap_skip_parse(&mut self.bitmap);
                proof {
                    assert forall|m: u8| m < 128 && #[trigger] is_candidate(self.bitmap, m) implies is_candidate(
                        old(self).bitmap,
                        m,
                    ) by {
                        lemma_clear_monotonic(before, qn, m);
                    }
                    lemma_clear_monotonic(before, qn, own.spec_number());
                    assert(own.spec_number() != qn);
                    assert forall|j: int| 0 <= j < i + 1 && registry()[j] != own implies !is_candidate(
                        self.bitmap,
                        #[trigger] registry()[j].spec_number(),
                    ) by {
                        lemma_clear_monotonic(before, qn, registry()[j].spec_number());
                    }
                }
            }
            i = i + 1;
        }
    }

    /// Handles one payload of the flow. A flow whose protocol is unknown
    /// ignores it. A pinned flow parses it with its parser. Otherwise the
    /// registry's parsers are tried in order, skipping those that the bitmap
    /// rules out or that do not run on the transport; the first that
    /// recognises the payload pins the flow, rules every other registry
    /// protocol out and parses the payload. When none does, the failure is
    /// counted, and at the last allowed failure the bitmap is emptied. Bits
    /// of the bitmap are only ever cleared.
    pub fn handle(&mut self, payload: &[u8], param: &ParseParam) -> (r: Result<AppProtoHead, Error>)
        requires
            payload@.len() <= isize::MAX,
        ensures
            forall|m: u8| m < 128 && #[trigger] is_candidate(final(self).spec_bitmap(), m)
                ==> is_candidate(old(self).spec_bitmap(), m),
            old(self).spec_failures() >= MAX_IDENTIFY_FAILURES ==> {
                &&& r == Err::<AppProtoHead, Error>(Error::BitmapEmpty)
                &&& *final(self) == *old(self)
            },
            old(self).spec_failures() < MAX_IDENTIFY_FAILURES && old(self).pinned() is Some ==> {
                &&& final(self).pinned() == old(self).pinned()
                &&& final(self).spec_bitmap() == old(self).spec_bitmap()
                &&& final(self).spec_failures() == old(self).spec_failures()
                &&& (r is Ok <==> parse_ok(old(self).spec_parser()->Some_0, payload@, *param))
                &&& parser_outcome(old(self).spec_parser()->Some_0, final(self).spec_parser()->Some_0, payload@, *param, r)
            },
            old(self).spec_failures() < MAX_IDENTIFY_FAILURES && old(self).pinned() is None && (exists|i: int|
                0 <= i < registry().len() && tried_and_accepted(i, old(self).spec_bitmap(), param.l4_protocol, payload@))
                ==> exists|i: int| {
                &&& 0 <= i < registry().len()
                &&& tried_and_accepted(i, old(self).spec_bitmap(), param.l4_protocol, payload@)
                &&& forall|j: int| 0 <= j < i ==> !tried_and_accepted(j, old(self).spec_bitmap(), param.l4_protocol, payload@)
                &&& final(self).pinned() == Some(registry()[i])
                &&& forall|j: int| 0 <= j < registry().len() && j != i
                    ==> !is_candidate(final(self).spec_bitmap(), #[trigger] registry()[j].spec_number())
                &&& final(self).spec_failures() == old(self).spec_failures()
                &&& (r is Ok <==> fresh_parse_ok(registry()[i], payload@, *param))
                &&& exists|q: L7ProtocolParser| {
                    &&& is_fresh(q)
                    &&& q.spec_protocol() == registry()[i]
                    &&& #[trigger] parser_outcome(q, final(self).spec_parser()->Some_0, payload@, *param, r)
                }
            },
            old(self).spec_failures() < MAX_IDENTIFY_FAILURES && old(self).pinned() is None && !(exists|i: int|
                0 <= i < registry().len() && tried_and_accepted(i, old(self).spec_bitmap(), param.l4_protocol, payload@))
                ==> {
                &&& final(self).pinned() is None
                &&& final(self).spec_failures() == old(self).spec_failures() + 1
                &&& final(self).spec_failures() >= MAX_IDENTIFY_FAILURES ==> {
                    &&& final(self).spec_bitmap() == 0
                    &&& r == Err::<AppProtoHead, Error>(Error::BitmapEmpty)
                }
                &&& final(self).spec_failures() < MAX_IDENTIFY_FAILURES ==> r == Err::<AppProtoHead, Error>(
                    Error::L7ProtocolUnknown,
                )
            },
    {
        if self.failures >= MAX_IDENTIFY_FAILURES {
            return Err(Error::BitmapEmpty);
        }
        match &mut self.parser {
            Some(p) => {
                return p.parse_payload(payload, param);
            },
            None => {},
        }
        proof {
            lemma_registry_distinct();
        }
        let mut parsers = get_all_protocol();
        let n = parsers.len();
        let mut k: usize = 0;
        while k < n
            invariant
                n == registry().len(),
                payload@.len() <= isize::MAX,
                k <= n,
                parsers@.len() == n - k,
                forall|j: int| 0 <= j < parsers@.len() ==> #[trigger] parsers@[j].spec_protocol() == registry()[k + j],
                forall|j: int| 0 <= j < parsers@.len() ==> is_fresh(#[trigger] parsers@[j]),
                forall|j: int| 0 <= j < k ==> !tried_and_accepted(j, old(self).bitmap, param.l4_protocol, payload@),
                forall|m: u8| m < 128 && #[trigger] is_candidate(self.bitmap, m) ==> is_candidate(old(self).bitmap, m),
                forall|j: int| k <= j < n ==> (is_candidate(self.bitmap, #[trigger] registry()[j].spec_number())
                    == is_candidate(old(self).bitmap, registry()[j].spec_number())),
                forall|i: int, j: int| 0 <= i < registry().len() && 0 <= j < registry().len() && i != j
                    ==> registry()[i].spec_number() != registry()[j].spec_number(),
                self.parser is None,
                old(self).parser is None,
                self.failures == old(self).failures,
                old(self).failures < MAX_IDENTIFY_FAILURES,
            decreases n - k,
        {
            let ghost before = self.bitmap;
            let mut p = parsers.remove(0);
            assert(p.spec_protocol() == registry()[k as int]);
            let runs = match param.l4_protocol {
                IpProtocol::Tcp => p.parsable_on_tcp(),
                IpProtocol::Udp => p.parsable_on_udp(),
                _ => false,
            };
            assert(runs == parsable_on(registry()[k as int], param.l4_protocol));
            if !p.is_skip_parse(self.bitmap) && runs {
                let own = p.protocol();
                if p.check_payload(&mut self.bitmap, payload, param) {
                    assert(old(self).spec_bitmap() == old(self).bitmap);
                    assert(tried_and_accepted(k as int, old(self).spec_bitmap(), param.l4_protocol, payload@));
                    self.keep_only(own);
                    let ghost fresh = p;
                    let r = p.parse_payload(payload, param);
                    self.parser = Some(p);
                    assert(parser_outcome(fresh, self.parser->Some_0, payload@, *param, r));
                    return r;
                }
                proof {
                    assert forall|m: u8| m < 128 && #[trigger] is_candidate(self.bitmap, m) implies is_candidate(
                        old(self).bitmap,
                        m,
                    ) by {
                        lemma_clear_monotonic(before, own.spec_number(), m);
                    }
                    assert forall|j: int| k + 1 <= j < n implies (is_candidate(
                        self.bitmap,
                        #[trigger] registry()[j].spec_number(),
                    ) == is_candidate(old(self).bitmap, registry()[j].spec_number())) by {
                        lemma_clear_monotonic(before, own.spec_number(), registry()[j].spec_number());
                    }
                }
            }
            k = k + 1;
        }
        self.failures = self.failures + 1;
        if self.failures >= MAX_IDENTIFY_FAILURES {
            self.bitmap = 0;
            proof {
                assert forall|m: u8| m < 128 implies !#[trigger] is_candidate(self.bitmap, m) by {
                    lemma_empty_bitmap(m);
                }
            }
            return Err(Error::BitmapEmpty);
        }
        Err(Error::L7ProtocolUnknown)
    }

}

} // verus!
