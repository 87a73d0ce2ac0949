//! Pairing of requests with responses in a ring of time buckets.
use vstd::prelude::*;

use crate::mysql::{spec_merge, MysqlInfo};
use crate::protocol::LogMessageType;

verus! {

/// Default number of buckets in the ring.
pub const DEFAULT_BUCKET_COUNT: usize = 16;
/// Default number of records that one bucket holds.
pub const DEFAULT_BUCKET_CAP: usize = 1024;
/// Time that one bucket covers, in microseconds.
pub const BUCKET_SPAN_US: u64 = 60_000_000;

/// One half of a transaction waiting for its other half.
#[derive(Debug, Clone)]
pub struct L7Record {
    /// Flow, protocol and session that the record belongs to.
    pub key: u64,
    /// `Request` or `Response`; a record of another kind is never paired.
    pub msg_type: LogMessageType,
    /// Capture time in microseconds.
    pub time: u64,
    pub info: MysqlInfo,
}

/// A record sent downstream: a whole session, or one half of it.
#[derive(Debug, Clone)]
pub struct SessionLog {
    /// `Session` for a request merged with its response; otherwise the kind
    /// of the one record that was seen.
    pub msg_type: LogMessageType,
    pub start_time: u64,
    pub end_time: u64,
    /// Response time in microseconds.
    pub rrt: u64,
    pub info: MysqlInfo,
}

/// Packs a flow id, a protocol number and a session id into one key: the
/// low 32 bits of the flow id, then 8 bits of protocol, then the low 24 bits
/// of the session id.
pub open spec fn spec_session_key(flow_id: u64, proto: u8, session_id: u32) -> int {
    (flow_id % 0x1_0000_0000) * 0x1_0000_0000 + proto * 0x100_0000 + session_id % 0x100_0000
}

/// Key under which the aggregator pairs the records of one session.
pub fn session_key(flow_id: u64, proto: u8, session_id: u32) -> (r: u64)
    ensures
        r == spec_session_key(flow_id, proto, session_id),
{
    let f = flow_id % 0x1_0000_0000;
    let s = (session_id % 0x100_0000) as u64;
    assert(f * 0x1_0000_0000 <= 0xffff_ffff * 0x1_0000_0000) by (nonlinear_arith)
        requires f <= 0xffff_ffff;
    f * 0x1_0000_0000 + proto as u64 * 0x100_0000 + s
}

/// `a` and `b` are the two halves of one transaction.
pub open spec fn pairs(a: L7Record, b: L7Record) -> bool {
    &&& a.key == b.key
    &&& (a.msg_type == LogMessageType::Request && b.msg_type == LogMessageType::Response)
        || (a.msg_type == LogMessageType::Response && b.msg_type == LogMessageType::Request)
}

/// How many records a log sent downstream accounts for.
pub open spec fn log_weight(l: SessionLog) -> int {
    if l.msg_type == LogMessageType::Session {
        2
    } else {
        1
    }
}

/// How many records the logs sent downstream account for.
pub open spec fn emitted(out: Seq<SessionLog>) -> int
    decreases out.len(),
{
    if out.len() == 0 {
        0
    } else {
        emitted(out.drop_last()) + log_weight(out.last())
    }
}

/// Number of records held in the buckets `bs`.
pub open spec fn live(bs: Seq<Vec<L7Record>>) -> int
    decreases bs.len(),
{
    if bs.len() == 0 {
        0
    } else {
        live(bs.drop_last()) + bs.last()@.len()
    }
}

proof fn lemma_emitted_push(out: Seq<SessionLog>, l: SessionLog)
    ensures
        emitted(out.push(l)) == emitted(out) + log_weight(l),
{
    assert(out.push(l).drop_last() == out);
}

proof fn lemma_live_update(bs: Seq<Vec<L7Record>>, i: int, v: Vec<L7Record>)
    requires
        0 <= i < bs.len(),
    ensures
        live(bs.update(i, v)) == live(bs) - bs[i]@.len() + v@.len(),
    decreases bs.len(),
{
    let u = bs.update(i, v);
    if i == bs.len() - 1 {
        assert(u.drop_last() == bs.drop_last());
    } else {
        assert(u.drop_last() == bs.drop_last().update(i, v));
        lemma_live_update(bs.drop_last(), i, v);
    }
}

proof fn lemma_live_bound(bs: Seq<Vec<L7Record>>, cap: int)
    requires
        cap >= 0,
        forall|i: int| 0 <= i < bs.len() ==> #[trigger] bs[i]@.len() <= cap,
    ensures
        0 <= live(bs) <= bs.len() * cap,
    decreases bs.len(),
{
    if bs.len() > 0 {
        let d = bs.drop_last();
        assert forall|i: int| 0 <= i < d.len() implies #[trigger] d[i]@.len() <= cap by {
            assert(d[i] == bs[i]);
        }
        lemma_live_bound(d, cap);
        assert(bs.last()@.len() <= cap);
        assert(d.len() * cap + cap == bs.len() * cap) by (nonlinear_arith)
            requires d.len() + 1 == bs.len();
    }
}

proof fn lemma_live_empty(bs: Seq<Vec<L7Record>>)
    requires
        forall|i: int| 0 <= i < bs.len() ==> #[trigger] bs[i]@.len() == 0,
    ensures
        live(bs) == 0,
    decreases bs.len(),
{
    if bs.len() > 0 {
        let d = bs.drop_last();
        assert forall|i: int| 0 <= i < d.len() implies #[trigger] d[i]@.len() == 0 by {
            assert(d[i] == bs[i]);
        }
        lemma_live_empty(d);
        assert(bs.last()@.len() == 0);
    }
}

/// Log sent downstream for a record whose other half was never seen.
pub open spec fn half_log(r: L7Record) -> SessionLog {
    SessionLog { msg_type: r.msg_type, start_time: r.time, end_time: r.time, rrt: 0, info: r.info }
}

/// Logs sent downstream for records whose other halves were never seen, in
/// their order.
pub open spec fn half_logs(s: Seq<L7Record>) -> Seq<SessionLog> {
    s.map_values(|r: L7Record| half_log(r))
}

/// Half-session logs of every record held in the buckets `bs`, bucket by
/// bucket, oldest first within a bucket.
pub open spec fn held_logs(bs: Seq<Vec<L7Record>>) -> Seq<SessionLog>
    decreases bs.len(),
{
    if bs.len() == 0 {
        Seq::empty()
    } else {
        held_logs(bs.drop_last()) + half_logs(bs.last()@)
    }
}

/// Log sent downstream for the two halves `a` and `b` of one transaction:
/// the response's fields merged into the request, the earlier start, the
/// later end, and their distance as response time.
pub open spec fn merged_log(a: L7Record, b: L7Record) -> SessionLog {
    let start = if a.time <= b.time { a.time } else { b.time };
    let end = if a.time <= b.time { b.time } else { a.time };
    SessionLog {
        msg_type: LogMessageType::Session,
        start_time: start,
        end_time: end,
        rrt: (end - start) as u64,
        info: if a.msg_type == LogMessageType::Request {
            spec_merge(a.info, b.info)
        } else {
            spec_merge(b.info, a.info)
        },
    }
}

/// Some record of `s` pairs with `r`.
pub open spec fn partner_in(s: Seq<L7Record>, r: L7Record) -> bool {
    exists|j: int| 0 <= j < s.len() && pairs(#[trigger] s[j], r)
}

/// Log sent downstream for a record whose other half was never seen.
fn half_session(r: L7Record) -> (l: SessionLog)
    requires
        r.msg_type != LogMessageType::Session,
    ensures
        l == half_log(r),
        log_weight(l) == 1,
{
    SessionLog { msg_type: r.msg_type, start_time: r.time, end_time: r.time, rrt: 0, info: r.info }
}

/// Log sent downstream for two halves of one transaction: the response's
/// fields merged into the request, the earlier start, the later end, and
/// their distance as response time.
fn merge_pair(a: L7Record, b: L7Record) -> (l: SessionLog)
    requires
        pairs(a, b),
    ensures
        l == merged_log(a, b),
        log_weight(l) == 2,
{
    let start = if a.time <= b.time { a.time } else { b.time };
    let end = if a.time <= b.time { b.time } else { a.time };
    let info = if a.msg_type == LogMessageType::Request {
        let mut i = a.info;
        i.merge(b.info);
        i
    } else {
        let mut i = b.info;
        i.merge(a.info);
        i
    };
    SessionLog { msg_type: LogMessageType::Session, start_time: start, end_time: end, rrt: end - start, info }
}

/// Position of a record in `bucket` that pairs with `r`, if any.
fn find_partner(bucket: &Vec<L7Record>, r: &L7Record) -> (j: Option<usize>)
    ensures
        match j {
            Some(j) => j < bucket@.len() && pairs(bucket@[j as int], *r),
            None => forall|k: int| 0 <= k < bucket@.len() ==> !pairs(#[trigger] bucket@[k], *r),
        },
{
    let mut k: usize = 0;
    while k < bucket.len()
        invariant
            k <= bucket@.len(),
            forall|m: int| 0 <= m < k ==> !pairs(#[trigger] bucket@[m], *r),
        decreases bucket.len() - k,
    {
        let c = &bucket[k];
        let opposite = (c.msg_type == LogMessageType::Request && r.msg_type == LogMessageType::Response)
            || (c.msg_type == LogMessageType::Response && r.msg_type == LogMessageType::Request);
        if c.key == r.key && opposite {
            return Some(k);
        }
        k = k + 1;
    }
    None
}

/// Ring of time buckets holding the records that wait for their other half.
pub struct SessionAggr {
    buckets: Vec<Vec<L7Record>>,
    /// Number of the current bucket, counted in bucket spans since time 0.
    head: u64,
    bucket_cap: usize,
}

impl SessionAggr {
    /// Records held in the ring.
    pub closed spec fn live_count(&self) -> int {
        live(self.buckets@)
    }

    pub closed spec fn bucket_count(&self) -> int {
        self.buckets@.len() as int
    }

    pub closed spec fn cap(&self) -> int {
        self.bucket_cap as int
    }

    /// Number of the current bucket.
    pub closed spec fn spec_head(&self) -> int {
        self.head as int
    }

    /// Half-session logs of every record held, bucket by bucket.
    pub closed spec fn held(&self) -> Seq<SessionLog> {
        held_logs(self.buckets@)
    }

    /// Records waiting in the current bucket, oldest first.
    pub closed spec fn current(&self) -> Seq<L7Record> {
        self.buckets@[(self.head % self.buckets@.len() as u64) as int]@
    }

    /// Records waiting in the current bucket once the ring has moved on to
    /// bucket number `slot`, when that is later than the current one.
    pub closed spec fn current_after(&self, slot: int) -> Seq<L7Record> {
        if slot <= self.head {
            self.current()
        } else {
            Seq::empty()
        }
    }

    /// Records waiting in the bucket before the current one once the ring
    /// has moved on to bucket number `slot`, when that is later than the
    /// current one.
    pub closed spec fn previous_after(&self, slot: int) -> Seq<L7Record> {
        if slot <= self.head {
            self.previous()
        } else if slot == self.head + 1 {
            self.current()
        } else {
            Seq::empty()
        }
    }

    /// Records waiting in the bucket before the current one, oldest first.
    pub closed spec fn previous(&self) -> Seq<L7Record> {
        let c = (self.head % self.buckets@.len() as u64) as int;
        self.buckets@[if c == 0 { self.buckets@.len() - 1 } else { c - 1 }]@
    }

    /// At least two buckets, each within the cap; no merged session waits.
    pub closed spec fn wf(&self) -> bool {
        &&& self.buckets@.len() >= 2
        &&& self.bucket_cap >= 1
        &&& self.buckets@.len() * self.bucket_cap <= usize::MAX
        &&& forall|i: int| 0 <= i < self.buckets@.len() ==> #[trigger] self.buckets@[i]@.len() <= self.bucket_cap
        &&& forall|i: int, j: int| 0 <= i < self.buckets@.len() && 0 <= j < self.buckets@[i]@.len()
            ==> #[trigger] self.buckets@[i]@[j].msg_type != LogMessageType::Session
    }

    /// An empty ring of `bucket_count` buckets of `bucket_cap` records each.
    pub fn new(bucket_count: usize, bucket_cap: usize) -> (r: SessionAggr)
        requires
            bucket_count >= 2,
            bucket_cap >= 1,
            bucket_count * bucket_cap <= usize::MAX,
        ensures
            r.wf(),
            r.live_count() == 0,
            r.bucket_count() == bucket_count,
            r.cap() == bucket_cap,
            r.spec_head() == 0,
            r.current().len() == 0,
            r.previous().len() == 0,
    {
        let mut buckets: Vec<Vec<L7Record>> = Vec::new();
        let mut i: usize = 0;
        while i < bucket_count
            invariant
                i <= bucket_count,
                buckets@.len() == i,
                forall|k: int| 0 <= k < i ==> #[trigger] buckets@[k]@.len() == 0,
            decreases bucket_count - i,
        {
            buckets.push(Vec::new());
            i = i + 1;
        }
        proof {
            lemma_live_empty(buckets@);
        }
        SessionAggr { buckets, head: 0, bucket_cap }
    }

    /// Number of records held in the ring.
    pub fn live_entries(&self) -> (r: usize)
        requires
            self.wf(),
        ensures
            r == self.live_count(),
    {
        proof {
            lemma_live_bound(self.buckets@, self.bucket_cap as int);
        }
        let mut total: usize = 0;
        let mut i: usize = 0;
        while i < self.buckets.len()
            invariant
                self.wf(),
                i <= self.buckets@.len(),
                total == live(self.buckets@.subrange(0, i as int)),
                live(self.buckets@.subrange(0, i as int)) <= live(self.buckets@),
                live(self.buckets@) <= self.buckets@.len() * self.bucket_cap,
            decreases self.buckets.len() - i,
        {
            assert(self.buckets@.subrange(0, i + 1).drop_last() == self.buckets@.subrange(0, i as int));
            proof {
                lemma_live_prefix(self.buckets@, i as int + 1);
            }
            total = total + self.buckets[i].len();
            i = i + 1;
        }
        assert(self.buckets@.subrange(0, i as int) == self.buckets@);
        total
    }

    /// Sends every record of bucket `i` downstream as a half session.
    fn evict(&mut self, i: usize, out: &mut Vec<SessionLog>)
        requires
            old(self).wf(),
            i < old(self).buckets@.len(),
        ensures
            final(self).wf(),
            final(self).buckets@.len() == old(self).buckets@.len(),
            final(self).buckets@ == old(self).buckets@.update(i as int, final(self).buckets@[i as int]),
            final(self).buckets@[i as int]@.len() == 0,
            final(self).head == old(self).head,
            final(self).bucket_cap == old(self).bucket_cap,
            live(final(self).buckets@) + emitted(final(out)@) == live(old(self).buckets@) + emitted(old(out)@),
            final(out)@.len() >= old(out)@.len(),
            final(out)@.subrange(0, old(out)@.len() as int) == old(out)@,
            forall|k: int| old(out)@.len() <= k < final(out)@.len() ==> #[trigger] final(out)@[k].msg_type
                != LogMessageType::Session,
            final(out)@ == old(out)@ + half_logs(old(self).buckets@[i as int]@),
    {
        let mut bucket: Vec<L7Record> = Vec::new();
        std::mem::swap(&mut bucket, &mut self.buckets[i]);
        proof {
            lemma_live_update(old(self).buckets@, i as int, self.buckets@[i as int]);
        }
        let ghost taken = bucket@;
        let ghost start = emitted(out@);
        while bucket.len() > 0
            invariant
                start + taken.len() == emitted(out@) + bucket@.len(),
                out@.len() >= old(out)@.len(),
                out@.subrange(0, old(out)@.len() as int) == old(out)@,
                forall|k: int| old(out)@.len() <= k < out@.len() ==> #[trigger] out@[k].msg_type
                    != LogMessageType::Session,
                forall|j: int| 0 <= j < bucket@.len() ==> #[trigger] bucket@[j].msg_type != LogMessageType::Session,
                taken == old(self).buckets@[i as int]@,
                bucket@.len() <= taken.len(),
                bucket@ == taken.subrange(taken.len() - bucket@.len(), taken.len() as int),
                out@ == old(out)@ + half_logs(taken.subrange(0, taken.len() - bucket@.len())),
            decreases bucket.len(),
        {
            let ghost before = bucket@;
            let r = bucket.remove(0);
            let l = half_session(r);
            proof {
                lemma_emitted_push(out@, l);
            }
            let ghost m = taken.len() - before.len();
            assert(r == taken[m]);
            assert(taken.subrange(0, m + 1) == taken.subrange(0, m).push(r));
            assert(half_logs(taken.subrange(0, m + 1)) =~= half_logs(taken.subrange(0, m)).push(l));
            out.push(l);
            assert(bucket@ =~= taken.subrange(taken.len() - bucket@.len(), taken.len() as int));
            assert forall|j: int| 0 <= j < bucket@.len() implies #[trigger] bucket@[j].msg_type != LogMessageType::Session by {
                assert(bucket@[j] == before[j + 1]);
            }
        }
        assert(taken.subrange(0, taken.len() as int) == taken);
        assert forall|a: int, b: int| 0 <= a < self.buckets@.len() && 0 <= b < self.buckets@[a]@.len()
            implies #[trigger] self.buckets@[a]@[b].msg_type != LogMessageType::Session by {
            assert(self.buckets@[a] == old(self).buckets@[a]);
        }
    }

    /// Takes record `j` of bucket `b`, the other half of `rec`, out of the
    /// ring and sends the merged session downstream.
    fn pair_with(&mut self, b: usize, j: usize, rec: L7Record, out: &mut Vec<SessionLog>)
        requires
            old(self).wf(),
            b < old(self).buckets@.len(),
            j < old(self).buckets@[b as int]@.len(),
            pairs(old(self).buckets@[b as int]@[j as int], rec),
        ensures
            final(self).wf(),
            final(self).buckets@.len() == old(self).buckets@.len(),
            final(self).head == old(self).head,
            final(self).bucket_cap == old(self).bucket_cap,
            live(final(self).buckets@) + emitted(final(out)@) == live(old(self).buckets@) + emitted(old(out)@) + 1,
            final(out)@ == old(out)@.push(merged_log(old(self).buckets@[b as int]@[j as int], rec)),
    {
        let ghost before = self.buckets@[b as int]@;
        let partner = self.buckets[b].remove(j);
        proof {
            lemma_live_update(old(self).buckets@, b as int, self.buckets@[b as int]);
        }
        let l = merge_pair(partner, rec);
        proof {
            lemma_emitted_push(out@, l);
        }
        out.push(l);
        assert forall|x: int, y: int| 0 <= x < self.buckets@.len() && 0 <= y < self.buckets@[x]@.len()
            implies #[trigger] self.buckets@[x]@[y].msg_type != LogMessageType::Session by {
            if x == b {
                if y < j {
                    assert(self.buckets@[x]@[y] == before[y]);
                } else {
                    assert(self.buckets@[x]@[y] == before[y + 1]);
                }
            } else {
                assert(self.buckets@[x] == old(self).buckets@[x]);
            }
        }
        assert forall|x: int| 0 <= x < self.buckets@.len() implies #[trigger] self.buckets@[x]@.len() <= self.bucket_cap by {
            assert(self.buckets@[x] == old(self).buckets@[x] || x == b);
        }
    }

    /// Puts `rec` into bucket `b` to wait for its other half; when the
    /// bucket is full its oldest record goes downstream as a half session.
    fn hold(&mut self, b: usize, rec: L7Record, out: &mut Vec<SessionLog>)
        requires
            old(self).wf(),
            b < old(self).buckets@.len(),
            rec.msg_type != LogMessageType::Session,
        ensures
            final(self).wf(),
            final(self).buckets@.len() == old(self).buckets@.len(),
            final(self).head == old(self).head,
            final(self).bucket_cap == old(self).bucket_cap,
            live(final(self).buckets@) + emitted(final(out)@) == live(old(self).buckets@) + emitted(old(out)@) + 1,
            final(out)@ == if old(self).buckets@[b as int]@.len() < old(self).bucket_cap {
                old(out)@
            } else {
                old(out)@.push(half_log(old(self).buckets@[b as int]@[0]))
            },
            final(self).buckets@[b as int]@ == (if old(self).buckets@[b as int]@.len() < old(self).bucket_cap {
                old(self).buckets@[b as int]@
            } else {
                old(self).buckets@[b as int]@.drop_first()
            }).push(rec),
            forall|i: int| 0 <= i < old(self).buckets@.len() && i != b ==> #[trigger] final(self).buckets@[i]
                == old(self).buckets@[i],
    {
        let ghost before = self.buckets@[b as int]@;
        if self.buckets[b].len() >= self.bucket_cap {
            let oldest = self.buckets[b].remove(0);
            let l = half_session(oldest);
            proof {
                lemma_emitted_push(out@, l);
            }
            out.push(l);
        }
        let ghost mid = self.buckets@[b as int]@;
        self.buckets[b].push(rec);
        assert(self.buckets@ =~= old(self).buckets@.update(b as int, self.buckets@[b as int]));
        proof {
            lemma_live_update(old(self).buckets@, b as int, self.buckets@[b as int]);
        }
        assert forall|x: int, y: int| 0 <= x < self.buckets@.len() && 0 <= y < self.buckets@[x]@.len()
            implies #[trigger] self.buckets@[x]@[y].msg_type != LogMessageType::Session by {
            if x == b {
                if y < mid.len() {
                    assert(self.buckets@[x]@[y] == mid[y]);
                    if before.len() >= self.bucket_cap {
                        assert(mid[y] == before[y + 1]);
                    } else {
                        assert(mid[y] == before[y]);
                    }
                }
            } else {
                assert(self.buckets@[x] == old(self).buckets@[x]);
            }
        }
        assert forall|x: int| 0 <= x < self.buckets@.len() implies #[trigger] self.buckets@[x]@.len() <= self.bucket_cap by {
            assert(self.buckets@[x] == old(self).buckets@[x] || x == b);
        }
    }

    /// Moves the ring forward to bucket number `slot`, sending downstream
    /// the records of every bucket that the move reuses.
    fn advance(&mut self, slot: u64, out: &mut Vec<SessionLog>)
        requires
            old(self).wf(),
            slot > old(self).head,
        ensures
            final(self).wf(),
            final(self).buckets@.len() == old(self).buckets@.len(),
            final(self).bucket_cap == old(self).bucket_cap,
            final(self).head == slot,
            live(final(self).buckets@) + emitted(final(out)@) == live(old(self).buckets@) + emitted(old(out)@),
            slot - old(self).head >= old(self).buckets@.len() ==> live(final(self).buckets@) == 0,
            final(self).current().len() == 0,
            slot == old(self).head + 1 ==> final(self).previous() == old(self).current(),
            slot > old(self).head + 1 ==> final(self).previous().len() == 0,
    {
        let n = self.buckets.len();
        let steps = slot - self.head;
        proof {
            lemma_prev_index(slot as int, n as int);
        }
        if steps >= n as u64 {
            let mut i: usize = 0;
            while i < n
                invariant
                    self.wf(),
                    self.buckets@.len() == n,
                    self.head == old(self).head,
                    self.bucket_cap == old(self).bucket_cap,
                    i <= n,
                    forall|k: int| 0 <= k < i ==> #[trigger] self.buckets@[k]@.len() == 0,
                    live(self.buckets@) + emitted(out@) == live(old(self).buckets@) + emitted(old(out)@),
                decreases n - i,
            {
                self.evict(i, out);
                i = i + 1;
            }
            proof {
                lemma_live_empty(self.buckets@);
                lemma_ring_index_bound(slot as int, n as int);
                lemma_ring_index_bound(slot as int - 1, n as int);
            }
        } else {
            let mut k: u64 = 1;
            while k <= steps
                invariant
                    self.wf(),
                    self.buckets@.len() == n,
                    self.head == old(self).head,
                    self.bucket_cap == old(self).bucket_cap,
                    steps == slot - self.head,
                    steps < n as u64,
                    1 <= k <= steps + 1,
                    live(self.buckets@) + emitted(out@) == live(old(self).buckets@) + emitted(old(out)@),
                    forall|k2: int| 1 <= k2 < k ==> self.buckets@[#[trigger] ring_index(self.head + k2, n as int)]@.len()
                        == 0,
                    self.buckets@[ring_index(self.head as int, n as int)] == old(self).buckets@[ring_index(
                        self.head as int,
                        n as int,
                    )],
                decreases steps + 1 - k,
            {
                let idx = ((self.head + k) % n as u64) as usize;
                proof {
                    lemma_ring_index_bound(self.head + k, n as int);
                    lemma_ring_index_bound(self.head as int, n as int);
                    lemma_ring_distinct(self.head as int, k as int, n as int);
                    assert(idx == ring_index(self.head + k, n as int));
                }
                let ghost before = self.buckets@;
                self.evict(idx, out);
                proof {
                    assert forall|k2: int| 1 <= k2 < k + 1 implies self.buckets@[#[trigger] ring_index(
                        self.head + k2,
                        n as int,
                    )]@.len() == 0 by {
                        lemma_ring_index_bound(self.head + k2, n as int);
                        if ring_index(self.head + k2, n as int) != idx {
                            assert(self.buckets@[ring_index(self.head + k2, n as int)] == before[ring_index(
                                self.head + k2,
                                n as int,
                            )]);
                        }
                    }
                }
                k = k + 1;
            }
            proof {
                lemma_ring_index_bound(slot as int, n as int);
                lemma_ring_index_bound(slot as int - 1, n as int);
                assert(ring_index(self.head + steps, n as int) == slot as int % n as int);
                if steps >= 2 {
                    assert(ring_index(self.head + (steps - 1), n as int) == (slot as int - 1) % n as int);
                }
            }
        }
        self.head = slot;
    }

    /// Takes one half of a transaction. When its other half waits in the
    /// current or the previous bucket the two leave the ring as one session;
    /// otherwise the record waits in the current bucket. Records of buckets
    /// that the record's time moves the ring past go downstream as half
    /// sessions. Every record that enters the ring leaves it exactly once:
    /// what is held plus what was sent grows by one.
    pub fn insert(&mut self, rec: L7Record) -> (out: Vec<SessionLog>)
        requires
            old(self).wf(),
            rec.msg_type != LogMessageType::Session,
        ensures
            final(self).wf(),
            final(self).bucket_count() == old(self).bucket_count(),
            final(self).cap() == old(self).cap(),
            final(self).spec_head() == if rec.time / BUCKET_SPAN_US > old(self).spec_head() {
                (rec.time / BUCKET_SPAN_US) as int
            } else {
                old(self).spec_head()
            },
            final(self).live_count() + emitted(out@) == old(self).live_count() + 1,
            rec.time / BUCKET_SPAN_US >= old(self).spec_head() + old(self).bucket_count() ==> {
                &&& final(self).live_count() == 1
                &&& emitted(out@) == old(self).live_count()
            },
            rec.time / BUCKET_SPAN_US <= old(self).spec_head() && (partner_in(old(self).current(), rec)
                || partner_in(old(self).previous(), rec)) ==> exists|p: L7Record| {
                &&& pairs(p, rec)
                &&& old(self).current().contains(p) || old(self).previous().contains(p)
                &&& out@ == seq![merged_log(p, rec)]
            },
            rec.time / BUCKET_SPAN_US <= old(self).spec_head() && !partner_in(old(self).current(), rec)
                && !partner_in(old(self).previous(), rec) ==> {
                &&& out@ == if old(self).current().len() < old(self).cap() {
                    Seq::<SessionLog>::empty()
                } else {
                    seq![half_log(old(self).current()[0])]
                }
                &&& final(self).current() == (if old(self).current().len() < old(self).cap() {
                    old(self).current()
                } else {
                    old(self).current().drop_first()
                }).push(rec)
                &&& final(self).previous() == old(self).previous()
            },
            ({
                let slot = (rec.time / BUCKET_SPAN_US) as int;
                let c = old(self).current_after(slot);
                let pv = old(self).previous_after(slot);
                partner_in(c, rec) || partner_in(pv, rec) ==> exists|p: L7Record| {
                    &&& pairs(p, rec)
                    &&& c.contains(p) || pv.contains(p)
                    &&& out@.len() >= 1
                    &&& out@.last() == merged_log(p, rec)
                }
            }),
            ({
                let slot = (rec.time / BUCKET_SPAN_US) as int;
                let c = old(self).current_after(slot);
                let pv = old(self).previous_after(slot);
                !partner_in(c, rec) && !partner_in(pv, rec) ==> {
                    &&& final(self).current() == (if c.len() < old(self).cap() { c } else { c.drop_first() }).push(rec)
                    &&& final(self).previous() == pv
                }
            }),
    {
        let mut out: Vec<SessionLog> = Vec::new();
        let slot = rec.time / BUCKET_SPAN_US;
        if slot > self.head {
            self.advance(slot, &mut out);
        }
        let n = self.buckets.len();
        let cur = (self.head % n as u64) as usize;
        let prev = if cur == 0 { n - 1 } else { cur - 1 };
        assert(out@.len() == 0 ==> emitted(out@) == 0);
        assert(self.current() == old(self).current_after(slot as int));
        assert(self.previous() == old(self).previous_after(slot as int));
        proof {
            if slot >= old(self).head + n {
                lemma_live_bucket(self.buckets@, cur as int);
                lemma_live_bucket(self.buckets@, prev as int);
            }
        }
        match find_partner(&self.buckets[cur], &rec) {
            Some(j) => self.pair_with(cur, j, rec, &mut out),
            None => match find_partner(&self.buckets[prev], &rec) {
                Some(j) => self.pair_with(prev, j, rec, &mut out),
                None => {
                    self.hold(cur, rec, &mut out);
                },
            },
        }
        out
    }

    /// Sends every record held downstream as a half session and leaves the
    /// ring empty.
    pub fn flush(&mut self) -> (out: Vec<SessionLog>)
        requires
            old(self).wf(),
        ensures
            final(self).wf(),
            final(self).bucket_count() == old(self).bucket_count(),
            final(self).cap() == old(self).cap(),
            final(self).spec_head() == old(self).spec_head(),
            final(self).live_count() == 0,
            emitted(out@) == old(self).live_count(),
            forall|i: int| 0 <= i < out@.len() ==> #[trigger] out@[i].msg_type != LogMessageType::Session,
            out@ == old(self).held(),
    {
        let mut out: Vec<SessionLog> = Vec::new();
        let n = self.buckets.len();
        assert(old(self).buckets@.subrange(0, 0) =~= Seq::<Vec<L7Record>>::empty());
        let mut i: usize = 0;
        while i < n
            invariant
                self.wf(),
                self.buckets@.len() == n,
                self.head == old(self).head,
                self.bucket_cap == old(self).bucket_cap,
                i <= n,
                forall|k: int| 0 <= k < i ==> #[trigger] self.buckets@[k]@.len() == 0,
                live(self.buckets@) + emitted(out@) == live(old(self).buckets@),
                forall|k: int| 0 <= k < out@.len() ==> #[trigger] out@[k].msg_type != LogMessageType::Session,
                old(self).buckets@.len() == n,
                forall|k: int| i <= k < n ==> #[trigger] self.buckets@[k] == old(self).buckets@[k],
                out@ == held_logs(old(self).buckets@.subrange(0, i as int)),
            decreases n - i,
        {
            let ghost before = out@;
            assert(old(self).buckets@.subrange(0, i + 1).drop_last() =~= old(self).buckets@.subrange(0, i as int));
            self.evict(i, &mut out);
            assert forall|k: int| 0 <= k < out@.len() implies #[trigger] out@[k].msg_type != LogMessageType::Session by {
                if k < before.len() {
                    assert(out@[k] == out@.subrange(0, before.len() as int)[k]);
                }
            }
            i = i + 1;
        }
        proof {
            lemma_live_empty(self.buckets@);
        }
        assert(old(self).buckets@.subrange(0, n as int) =~= old(self).buckets@);
        out
    }
}

/// Position in a ring of `n` buckets of bucket number `x`.
pub open spec fn ring_index(x: int, n: int) -> int {
    x % n
}

proof fn lemma_ring_index_bound(x: int, n: int)
    requires
        x >= 0,
        n >= 1,
    ensures
        0 <= ring_index(x, n) < n,
{
    vstd::arithmetic::div_mod::lemma_mod_bound(x, n);
}

/// Bucket numbers less than `n` apart fall on different positions.
proof fn lemma_ring_distinct(x: int, k: int, n: int)
    requires
        x >= 0,
        0 < k < n,
    ensures
        ring_index(x + k, n) != ring_index(x, n),
{
    vstd::arithmetic::div_mod::lemma_fundamental_div_mod(x, n);
    vstd::arithmetic::div_mod::lemma_fundamental_div_mod(x + k, n);
    let q1 = x / n;
    let q2 = (x + k) / n;
    if (x + k) % n == x % n {
        assert(k == n * (q2 - q1)) by (nonlinear_arith)
            requires
                x == n * q1 + x % n,
                x + k == n * q2 + (x + k) % n,
                (x + k) % n == x % n,
        ;
        assert(false) by (nonlinear_arith)
            requires
                k == n * (q2 - q1),
                0 < k < n,
        ;
    }
}

/// The position before that of bucket number `x` is that of bucket `x - 1`.
proof fn lemma_prev_index(x: int, n: int)
    requires
        x >= 1,
        n >= 2,
    ensures
        (if x % n == 0 { n - 1 } else { x % n - 1 }) == (x - 1) % n,
{
    vstd::arithmetic::div_mod::lemma_fundamental_div_mod(x, n);
    vstd::arithmetic::div_mod::lemma_mod_bound(x, n);
    let q = x / n;
    let r = x % n;
    if r == 0 {
        assert(x - 1 == (q - 1) * n + (n - 1)) by (nonlinear_arith)
            requires
                x == n * q + r,
                r == 0,
        ;
        vstd::arithmetic::div_mod::lemma_fundamental_div_mod_converse(x - 1, n, q - 1, n - 1);
    } else {
        assert(x - 1 == q * n + (r - 1)) by (nonlinear_arith)
            requires
                x == n * q + r,
        ;
        vstd::arithmetic::div_mod::lemma_fundamental_div_mod_converse(x - 1, n, q, r - 1);
    }
}

/// A bucket holds no more records than the whole ring.
proof fn lemma_live_bucket(bs: Seq<Vec<L7Record>>, i: int)
    requires
        0 <= i < bs.len(),
    ensures
        bs[i]@.len() <= live(bs),
    decreases bs.len(),
{
    lemma_live_nonneg(bs.drop_last());
    if i < bs.len() - 1 {
        lemma_live_bucket(bs.drop_last(), i);
        assert(bs.drop_last()[i] == bs[i]);
    }
}

proof fn lemma_live_nonneg(bs: Seq<Vec<L7Record>>)
    ensures
        live(bs) >= 0,
    decreases bs.len(),
{
    if bs.len() > 0 {
        lemma_live_nonneg(bs.drop_last());
    }
}

/// A well-formed ring never holds more than its bucket count times the cap
/// of one bucket.
pub proof fn lemma_aggregator_bound(a: &SessionAggr)
    requires
        a.wf(),
    ensures
        0 <= a.live_count() <= a.bucket_count() * a.cap(),
{
    lemma_live_bound(a.buckets@, a.bucket_cap as int);
}


proof fn lemma_live_prefix(bs: Seq<Vec<L7Record>>, n: int)
    requires
        0 <= n <= bs.len(),
    ensures
        live(bs.subrange(0, n)) <= live(bs),
        n > 0 ==> live(bs.subrange(0, n)) == live(bs.subrange(0, n - 1)) + bs[n - 1]@.len(),
    decreases bs.len() - n,
{
    if n > 0 {
        assert(bs.subrange(0, n).drop_last() == bs.subrange(0, n - 1));
    }
    if n < bs.len() {
        lemma_live_prefix(bs, n + 1);
        assert(bs.subrange(0, n + 1).drop_last() == bs.subrange(0, n));
    } else {
        assert(bs.subrange(0, n) == bs);
    }
}

} // verus!
