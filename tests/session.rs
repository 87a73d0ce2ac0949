use l7_log::mysql::MysqlInfo;
use l7_log::protocol::LogMessageType;
use l7_log::session::{session_key, L7Record, SessionAggr, BUCKET_SPAN_US, DEFAULT_BUCKET_CAP, DEFAULT_BUCKET_COUNT};

fn request(key: u64, time: u64) -> L7Record {
    let mut info = MysqlInfo::default();
    info.command = 3;
    info.context = "SELECT 1".to_string();
    L7Record { key, msg_type: LogMessageType::Request, time, info }
}

fn response(key: u64, time: u64) -> L7Record {
    let mut info = MysqlInfo::default();
    info.response_code = 0;
    info.affected_rows = 1;
    L7Record { key, msg_type: LogMessageType::Response, time, info }
}

#[test]
fn request_and_response_merge_into_one_session() {
    let mut aggr = SessionAggr::new(DEFAULT_BUCKET_COUNT, DEFAULT_BUCKET_CAP);
    assert!(aggr.insert(request(7, 1_000)).is_empty());
    assert_eq!(aggr.live_entries(), 1);
    let out = aggr.insert(response(7, 1_250));
    assert_eq!(out.len(), 1);
    assert_eq!(out[0].msg_type, LogMessageType::Session);
    assert_eq!(out[0].start_time, 1_000);
    assert_eq!(out[0].end_time, 1_250);
    assert_eq!(out[0].rrt, 250);
    assert_eq!(out[0].info.context, "SELECT 1");
    assert_eq!(out[0].info.affected_rows, 1);
    assert_eq!(aggr.live_entries(), 0);
}

#[test]
fn response_first_still_pairs() {
    let mut aggr = SessionAggr::new(DEFAULT_BUCKET_COUNT, DEFAULT_BUCKET_CAP);
    assert!(aggr.insert(response(9, 500)).is_empty());
    let out = aggr.insert(request(9, 400));
    assert_eq!(out.len(), 1);
    assert_eq!(out[0].rrt, 100);
    assert_eq!(out[0].info.command, 3);
    assert_eq!(out[0].info.affected_rows, 1);
}

#[test]
fn pairs_across_one_bucket_boundary() {
    let mut aggr = SessionAggr::new(DEFAULT_BUCKET_COUNT, DEFAULT_BUCKET_CAP);
    assert!(aggr.insert(request(3, BUCKET_SPAN_US - 10)).is_empty());
    let out = aggr.insert(response(3, BUCKET_SPAN_US + 10));
    assert_eq!(out.len(), 1);
    assert_eq!(out[0].rrt, 20);
}

#[test]
fn unanswered_request_leaves_on_ring_wrap() {
    let b = DEFAULT_BUCKET_COUNT as u64;
    let mut aggr = SessionAggr::new(DEFAULT_BUCKET_COUNT, DEFAULT_BUCKET_CAP);
    assert!(aggr.insert(request(1, 0)).is_empty());
    let out = aggr.insert(request(2, BUCKET_SPAN_US * b));
    assert_eq!(out.len(), 1);
    assert_eq!(out[0].msg_type, LogMessageType::Request);
    assert_eq!(out[0].info.context, "SELECT 1");
    assert_eq!(out[0].info.response_code, 0);
    assert_eq!(out[0].info.error_message, "");
    assert_eq!(aggr.live_entries(), 1);
}

#[test]
fn different_keys_do_not_pair() {
    let mut aggr = SessionAggr::new(DEFAULT_BUCKET_COUNT, DEFAULT_BUCKET_CAP);
    assert!(aggr.insert(request(1, 10)).is_empty());
    assert!(aggr.insert(response(2, 20)).is_empty());
    assert!(aggr.insert(request(1, 30)).is_empty());
    assert_eq!(aggr.live_entries(), 3);
}

#[test]
fn full_bucket_drops_oldest_as_half_session() {
    let mut aggr = SessionAggr::new(2, 2);
    assert!(aggr.insert(request(1, 10)).is_empty());
    assert!(aggr.insert(request(2, 20)).is_empty());
    let out = aggr.insert(request(3, 30));
    assert_eq!(out.len(), 1);
    assert_eq!(out[0].start_time, 10);
    assert_eq!(aggr.live_entries(), 2);
}

#[test]
fn live_entries_stay_within_bound() {
    let mut aggr = SessionAggr::new(2, 3);
    for i in 0..20u64 {
        aggr.insert(request(i, i * BUCKET_SPAN_US / 4));
        assert!(aggr.live_entries() <= 6);
    }
}

#[test]
fn every_record_is_sent_once() {
    let mut aggr = SessionAggr::new(4, 8);
    let mut sent = 0usize;
    for i in 0..30u64 {
        for log in aggr.insert(request(i % 5, i * 1_000_000)) {
            sent += if log.msg_type == LogMessageType::Session { 2 } else { 1 };
        }
        for log in aggr.insert(response(i % 7, i * 1_000_000 + 5)) {
            sent += if log.msg_type == LogMessageType::Session { 2 } else { 1 };
        }
    }
    for log in aggr.flush() {
        sent += if log.msg_type == LogMessageType::Session { 2 } else { 1 };
    }
    assert_eq!(sent, 60);
    assert_eq!(aggr.live_entries(), 0);
}

#[test]
fn key_packs_flow_protocol_and_session() {
    assert_eq!(session_key(0x1_2345_6789, 60, 0x0f_1234), 0x2345_6789_3c0f_1234);
    assert_eq!(session_key(1, 120, 0xff12_3456), 0x0000_0001_7812_3456);
}

#[test]
fn flush_sends_each_held_record_as_half_session() {
    let mut aggr = SessionAggr::new(4, 8);
    assert!(aggr.insert(request(1, 10)).is_empty());
    assert!(aggr.insert(response(2, BUCKET_SPAN_US + 20)).is_empty());
    let out = aggr.flush();
    assert_eq!(out.len(), 2);
    assert_eq!(out[0].msg_type, LogMessageType::Request);
    assert_eq!(out[0].start_time, 10);
    assert_eq!(out[0].end_time, 10);
    assert_eq!(out[0].rrt, 0);
    assert_eq!(out[1].msg_type, LogMessageType::Response);
    assert_eq!(out[1].start_time, BUCKET_SPAN_US + 20);
    assert_eq!(aggr.live_entries(), 0);
}

#[test]
fn pairs_after_advancing_one_bucket_but_not_two() {
    let mut aggr = SessionAggr::new(4, 8);
    assert!(aggr.insert(request(3, 10)).is_empty());
    let out = aggr.insert(response(3, BUCKET_SPAN_US + 10));
    assert_eq!(out.len(), 1);
    assert_eq!(out[0].msg_type, LogMessageType::Session);

    assert!(aggr.insert(request(4, BUCKET_SPAN_US + 20)).is_empty());
    assert!(aggr.insert(response(4, 3 * BUCKET_SPAN_US + 20)).is_empty());
    assert_eq!(aggr.live_entries(), 2);
}
