use mcquery::error::QueryError;
use mcquery::java::{java, JavaAction, JavaEvent, JavaPhase, JavaQuery, JavaResult, STATUS_TIMEOUT};
use mcquery::packet::{encode_frame, encode_ping, encode_status_request, JavaHandshake};
use mcquery::ping::PingMeasurement;

const SECOND: u64 = 1_000_000_000;

fn response(text: &str) -> Vec<u8> {
    let mut payload = vec![text.len() as u8];
    payload.extend_from_slice(text.as_bytes());
    encode_frame(0, &payload).unwrap()
}

fn pong(time: u64) -> Vec<u8> {
    encode_frame(1, &time.to_be_bytes()).unwrap()
}

fn awaiting_status(sent_at: u64) -> JavaQuery {
    let query = JavaQuery::new("example.com", 25565, None);
    let (query, action) = java(query, JavaEvent::Connected);
    assert_eq!(
        action,
        JavaAction::Send { bytes: JavaHandshake::new(None, "example.com", 25565).encode().unwrap() }
    );
    assert_eq!(query.phase, JavaPhase::HandshakeSent);
    let (query, action) = java(query, JavaEvent::Sent { at: sent_at });
    assert_eq!(action, JavaAction::Send { bytes: encode_status_request() });
    assert_eq!(query.phase, JavaPhase::StatusRequested);
    let (query, action) = java(query, JavaEvent::Sent { at: sent_at });
    assert_eq!(action, JavaAction::Receive { deadline: sent_at + STATUS_TIMEOUT });
    assert_eq!(query.phase, JavaPhase::AwaitingStatus { deadline: sent_at + STATUS_TIMEOUT });
    query
}

fn awaiting_pong(text: &str, ping_at: u64) -> JavaQuery {
    let query = awaiting_status(0);
    let (query, action) = java(query, JavaEvent::Received { bytes: response(text), at: 1 });
    assert_eq!(action, JavaAction::Send { bytes: encode_ping(0) });
    assert_eq!(query.phase, JavaPhase::PingSent { resp: text.to_string() });
    let (query, action) = java(query, JavaEvent::Sent { at: ping_at });
    assert_eq!(action, JavaAction::Receive { deadline: ping_at + STATUS_TIMEOUT });
    assert_eq!(
        query.phase,
        JavaPhase::AwaitingPong {
            resp: text.to_string(),
            sent_at: ping_at,
            deadline: ping_at + STATUS_TIMEOUT
        }
    );
    query
}

fn finished(resp: &str, ping: Option<PingMeasurement>) -> JavaAction {
    JavaAction::Finish { result: Ok(JavaResult { resp: resp.to_string(), ping }) }
}

fn failed(error: QueryError) -> JavaAction {
    JavaAction::Finish { result: Err(error) }
}

#[test]
fn a_new_query_is_connecting() {
    let query = JavaQuery::new("example.com", 25565, Some(47));
    assert_eq!(query.phase, JavaPhase::Connecting);
    assert!(query.buffer.is_empty());
    assert_eq!(query.handshake, JavaHandshake::new(Some(47), "example.com", 25565));
    assert!(!query.is_done());
}

#[test]
fn whole_exchange() {
    let query = awaiting_pong("{\"version\":{}}", 2 * SECOND);
    let (query, action) = java(query, JavaEvent::Received { bytes: pong(0), at: 2 * SECOND + 42_000_000 });
    assert_eq!(action, finished("{\"version\":{}}", Some(PingMeasurement { secs: 0, nanos: 42_000_000 })));
    assert!(query.is_done());
}

#[test]
fn status_behind_two_other_packets() {
    let query = awaiting_status(0);
    let mut bytes = encode_frame(1, &[0; 8]).unwrap();
    bytes.extend_from_slice(&encode_frame(0x30, &[1, 2, 3, 4]).unwrap());
    bytes.extend_from_slice(&response("{\"ok\":true}"));
    let (query, action) = java(query, JavaEvent::Received { bytes, at: SECOND });
    assert_eq!(action, JavaAction::Send { bytes: encode_ping(0) });
    assert_eq!(query.phase, JavaPhase::PingSent { resp: "{\"ok\":true}".to_string() });
    assert!(query.buffer.is_empty());
}

#[test]
fn other_packets_arriving_one_by_one_are_passed_over() {
    let query = awaiting_status(0);
    let deadline = STATUS_TIMEOUT;
    let (query, action) = java(query, JavaEvent::Received { bytes: encode_frame(1, &[0; 8]).unwrap(), at: 1 });
    assert_eq!(action, JavaAction::Receive { deadline });
    assert!(query.buffer.is_empty());
    let (query, action) = java(query, JavaEvent::Received { bytes: encode_frame(7, &[]).unwrap(), at: 2 });
    assert_eq!(action, JavaAction::Receive { deadline });
    let (query, action) = java(query, JavaEvent::Received { bytes: response("third"), at: 3 });
    assert_eq!(action, JavaAction::Send { bytes: encode_ping(0) });
    assert_eq!(query.phase, JavaPhase::PingSent { resp: "third".to_string() });
}

#[test]
fn a_status_response_may_arrive_in_pieces() {
    let frame = response("{\"description\":\"split\"}");
    let mut query = awaiting_status(0);
    for (i, byte) in frame.iter().enumerate() {
        let (next, action) = java(query, JavaEvent::Received { bytes: vec![*byte], at: i as u64 });
        query = next;
        if i + 1 < frame.len() {
            assert_eq!(action, JavaAction::Receive { deadline: STATUS_TIMEOUT });
            assert_eq!(query.buffer, frame[..i + 1].to_vec());
        } else {
            assert_eq!(action, JavaAction::Send { bytes: encode_ping(0) });
        }
    }
    assert_eq!(query.phase, JavaPhase::PingSent { resp: "{\"description\":\"split\"}".to_string() });
}

#[test]
fn status_timeout_fails_the_query() {
    let (query, action) = java(awaiting_status(0), JavaEvent::TimedOut);
    assert_eq!(action, failed(QueryError::TimeoutError));
    assert!(query.is_done());
}

#[test]
fn status_after_the_deadline_is_a_timeout() {
    let query = awaiting_status(SECOND);
    let (_, action) = java(query, JavaEvent::Received { bytes: response("late"), at: 6 * SECOND + 1 });
    assert_eq!(action, failed(QueryError::TimeoutError));
    let query = awaiting_status(SECOND);
    let (query, action) = java(query, JavaEvent::Received { bytes: response("in time"), at: 6 * SECOND });
    assert_eq!(action, JavaAction::Send { bytes: encode_ping(0) });
    assert_eq!(query.phase, JavaPhase::PingSent { resp: "in time".to_string() });
}

#[test]
fn half_a_status_at_the_timeout_is_no_status() {
    let frame = response("{\"description\":\"partial\"}");
    let query = awaiting_status(0);
    let (query, action) = java(query, JavaEvent::Received { bytes: frame[..10].to_vec(), at: 1 });
    assert_eq!(action, JavaAction::Receive { deadline: STATUS_TIMEOUT });
    let (_, action) = java(query, JavaEvent::TimedOut);
    assert_eq!(action, failed(QueryError::TimeoutError));
}

#[test]
fn missing_pong_keeps_the_status() {
    let (query, action) = java(awaiting_pong("{\"a\":1}", SECOND), JavaEvent::TimedOut);
    assert_eq!(action, finished("{\"a\":1}", None));
    assert!(query.is_done());
}

#[test]
fn late_pong_keeps_the_status_without_ping() {
    let query = awaiting_pong("{}", SECOND);
    let (_, action) = java(query, JavaEvent::Received { bytes: pong(0), at: 6 * SECOND + 1 });
    assert_eq!(action, finished("{}", None));
    let query = awaiting_pong("{}", SECOND);
    let (_, action) = java(query, JavaEvent::Received { bytes: pong(0), at: 6 * SECOND });
    assert_eq!(action, finished("{}", Some(PingMeasurement { secs: 5, nanos: 0 })));
}

#[test]
fn transport_failure_after_the_status_keeps_the_status() {
    let (_, action) = java(awaiting_pong("{}", SECOND), JavaEvent::Failed);
    assert_eq!(action, finished("{}", None));
    let query = awaiting_status(0);
    let (query, _) = java(query, JavaEvent::Received { bytes: response("kept"), at: 1 });
    let (_, action) = java(query, JavaEvent::Failed);
    assert_eq!(action, finished("kept", None));
}

#[test]
fn anything_but_a_pong_leaves_the_ping_unknown() {
    let (_, action) = java(awaiting_pong("s", 0), JavaEvent::Received { bytes: response("again"), at: 5 });
    assert_eq!(action, finished("s", None));
    let (_, action) = java(
        awaiting_pong("s", 0),
        JavaEvent::Received { bytes: encode_frame(1, &[0; 7]).unwrap(), at: 5 },
    );
    assert_eq!(action, finished("s", None));
    let (_, action) = java(
        awaiting_pong("s", 0),
        JavaEvent::Received { bytes: encode_frame(9, &[0; 8]).unwrap(), at: 5 },
    );
    assert_eq!(action, finished("s", None));
    let (_, action) = java(awaiting_pong("s", 0), JavaEvent::Received { bytes: vec![0], at: 5 });
    assert_eq!(action, finished("s", None));
}

#[test]
fn a_pong_may_arrive_in_pieces() {
    let frame = pong(0);
    let query = awaiting_pong("s", 100);
    let (query, action) = java(query, JavaEvent::Received { bytes: frame[..4].to_vec(), at: 200 });
    assert_eq!(action, JavaAction::Receive { deadline: 100 + STATUS_TIMEOUT });
    let (_, action) = java(query, JavaEvent::Received { bytes: frame[4..].to_vec(), at: 350 });
    assert_eq!(action, finished("s", Some(PingMeasurement { secs: 0, nanos: 250 })));
}

#[test]
fn a_pong_with_other_bytes_than_the_ping_still_counts() {
    let (_, action) = java(awaiting_pong("s", 0), JavaEvent::Received { bytes: pong(12345), at: 9 });
    assert_eq!(action, finished("s", Some(PingMeasurement { secs: 0, nanos: 9 })));
}

#[test]
fn a_packet_buffered_behind_the_status_is_the_one_packet_read() {
    let query = awaiting_status(0);
    let mut bytes = response("s");
    bytes.extend_from_slice(&response("duplicate"));
    let (query, action) = java(query, JavaEvent::Received { bytes, at: 1 });
    assert_eq!(action, JavaAction::Send { bytes: encode_ping(0) });
    assert_eq!(query.buffer, response("duplicate"));
    let (_, action) = java(query, JavaEvent::Sent { at: 2 });
    assert_eq!(action, finished("s", None));
}

#[test]
fn failures_before_the_status_are_fatal() {
    let (_, action) = java(JavaQuery::new("h", 1, None), JavaEvent::Failed);
    assert_eq!(action, failed(QueryError::TransportError));
    let (query, _) = java(JavaQuery::new("h", 1, None), JavaEvent::Connected);
    let (_, action) = java(query, JavaEvent::Failed);
    assert_eq!(action, failed(QueryError::TransportError));
    let (_, action) = java(awaiting_status(0), JavaEvent::Failed);
    assert_eq!(action, failed(QueryError::TransportError));
    let (_, action) = java(JavaQuery::new("h", 1, None), JavaEvent::TimedOut);
    assert_eq!(action, failed(QueryError::TimeoutError));
}

#[test]
fn malformed_bytes_before_the_status_are_a_decode_error() {
    let (_, action) = java(awaiting_status(0), JavaEvent::Received { bytes: vec![0], at: 1 });
    assert_eq!(action, failed(QueryError::DecodeError));
    let bad = encode_frame(0, &[2, 0xc3, 0x28]).unwrap();
    let (_, action) = java(awaiting_status(0), JavaEvent::Received { bytes: bad, at: 1 });
    assert_eq!(action, failed(QueryError::DecodeError));
}

#[test]
fn events_out_of_turn_are_a_protocol_mismatch() {
    let (_, action) = java(JavaQuery::new("h", 1, None), JavaEvent::Sent { at: 0 });
    assert_eq!(action, failed(QueryError::ProtocolMismatchError));
    let (_, action) = java(awaiting_status(0), JavaEvent::Connected);
    assert_eq!(action, failed(QueryError::ProtocolMismatchError));
    let (query, _) = java(JavaQuery::new("h", 1, None), JavaEvent::Connected);
    let (_, action) = java(query, JavaEvent::Received { bytes: vec![1, 0], at: 0 });
    assert_eq!(action, failed(QueryError::ProtocolMismatchError));
}

#[test]
fn a_finished_query_stays_finished() {
    let (query, _) = java(awaiting_status(0), JavaEvent::TimedOut);
    let (query, action) = java(query, JavaEvent::Received { bytes: response("x"), at: 1 });
    assert_eq!(action, failed(QueryError::ProtocolMismatchError));
    assert!(query.is_done());
}

#[test]
fn deadlines_stop_at_the_end_of_the_clock() {
    let query = JavaQuery::new("h", 1, None);
    let (query, _) = java(query, JavaEvent::Connected);
    let (query, _) = java(query, JavaEvent::Sent { at: 0 });
    let (query, action) = java(query, JavaEvent::Sent { at: u64::MAX - 5 });
    assert_eq!(action, JavaAction::Receive { deadline: u64::MAX });
    let (_, action) = java(query, JavaEvent::Received { bytes: response("x"), at: u64::MAX });
    assert_eq!(action, JavaAction::Send { bytes: encode_ping(0) });
}

#[test]
fn handshake_names_the_host_and_the_port_connected_to() {
    let query = JavaQuery::new("example.com", 25566, Some(5));
    let (_, action) = java(query, JavaEvent::Connected);
    let mut expected = vec![17, 0, 5, 11];
    expected.extend_from_slice(b"example.com");
    expected.extend_from_slice(&[0x63, 0xde, 1]);
    assert_eq!(action, JavaAction::Send { bytes: expected });
}
