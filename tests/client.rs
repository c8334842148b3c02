use water_client::config::ClientBuilder;
use water_client::connection::{ConnectTarget, PoolBuilder};
use water_client::errors::{ConnectionsError, GettingBodyErrors, SendingRequestError};
use water_client::exchange::{decimal_string, needs_repair, on_head_bytes, prepare_request, HeadStep};
use water_client::head::{is_content_length, parse_decimal, split_lines, split_tokens};
use water_client::pool::TcpConnectionsPool;
use water_client::request::{HttpBody, HttpRequest};
use water_client::response::{
    absorb_body_bytes, plan_body, AssembleStep, BodyAssembler, BodyPlan, DrainAction, HeadError,
    HttpResponse, ReadOutcome, StreamDrain,
};

fn ready(buffer: &[u8], config: &ClientBuilder) -> (HttpResponse, BodyPlan) {
    match on_head_bytes(buffer, config) {
        HeadStep::Ready(resp, plan) => (resp, plan),
        _ => panic!("head not ready"),
    }
}

#[test]
fn test_request() {
    let mut request = HttpRequest::post("/");
    request.set_body(HttpBody::from_bytes(b"{\"hello\":\"world\"}"));
    let head = prepare_request(&mut request);
    assert_eq!(
        head,
        b"POST / HTTP/1.1\r\nContent-Length: 17\r\n\r\n".to_vec()
    );
}

#[test]
fn round_robin_visits_each_slot_once() {
    let mut pool = TcpConnectionsPool::new(vec![10u32, 20, 30]);
    let mut seen = vec![];
    for _ in 0..3 {
        let index = pool.get_connection().unwrap();
        seen.push(*pool.slot(index));
    }
    assert_eq!(seen, vec![10, 20, 30]);
    assert_eq!(pool.get_connection(), Ok(0));
    assert_eq!(pool.get_connection(), Ok(1));
}

#[test]
fn single_slot_pool_always_gives_it() {
    let mut pool = TcpConnectionsPool::new(vec!['a']);
    for _ in 0..4 {
        assert_eq!(pool.get_connection(), Ok(0));
    }
}

#[test]
fn empty_pool_always_fails() {
    let mut pool: TcpConnectionsPool<u8> = TcpConnectionsPool::new(vec![]);
    for _ in 0..3 {
        assert_eq!(pool.get_connection(), Err(ConnectionsError::ThereIsNoTcpConnectionValid));
    }
    assert_eq!(
        ConnectionsError::ThereIsNoTcpConnectionValid.into_sending_error(),
        SendingRequestError::TcpCErrors(ConnectionsError::ThereIsNoTcpConnectionValid)
    );
}

#[test]
fn head_parse_not_found() {
    let bytes = b"HTTP/1.1 404 Not Found\r\nContent-Length: 0\r\n\r\n";
    let resp = HttpResponse::read(bytes).ok().unwrap();
    assert_eq!(resp.status_code, 404);
    assert_eq!(resp.status_label, "Not Found");
    assert_eq!(resp.http_version, "HTTP/1.1");
    assert_eq!(resp.content_length, Some(0));
    assert_eq!(resp.size_of_head, bytes.len());
    assert_eq!(resp.get("Content-Length"), Some(&"0".to_string()));
    let (_, plan) = ready(bytes, &ClientBuilder::default());
    match plan {
        BodyPlan::Complete(b) => assert!(b.is_empty()),
        _ => panic!("expected an empty complete body"),
    }
}

#[test]
fn head_parse_incomplete_and_malformed() {
    assert_eq!(HttpResponse::read(b"HTTP/1.1 200 OK\r\n").err(), Some(HeadError::Incomplete));
    assert_eq!(HttpResponse::read(b"HTTP/1.1\r\n\r\n").err(), Some(HeadError::Malformed));
    assert_eq!(HttpResponse::read(b"HTTP/1.1 70000 Big\r\n\r\n").err(), Some(HeadError::Malformed));
    assert_eq!(HttpResponse::read(b"\r\n\r\n").err(), Some(HeadError::Malformed));
    match on_head_bytes(b"HTTP/1.1 abc OK\r\n\r\n", &ClientBuilder::default()) {
        HeadStep::Fail(e) => assert_eq!(e, SendingRequestError::ReadingErrors),
        _ => panic!("expected a failure"),
    }
    match on_head_bytes(b"HTTP/1.1 200", &ClientBuilder::default()) {
        HeadStep::ReadMore => {}
        _ => panic!("expected to read more"),
    }
}

#[test]
fn head_parse_label_headers_and_case() {
    let bytes = b"HTTP/1.0  201   Created   Now\r\ncontent-LENGTH: +5\r\nX-A: 1\r\nX-A: 2\r\nbroken line\r\n\r\nhello";
    let resp = HttpResponse::read(bytes).ok().unwrap();
    assert_eq!(resp.status_code, 201);
    assert_eq!(resp.status_label, "Created Now");
    assert_eq!(resp.content_length, Some(5));
    assert_eq!(resp.get("X-A"), Some(&"2".to_string()));
    assert_eq!(resp.get("x-a"), None);
    assert_eq!(resp.headers.len(), 2);
    assert_eq!(resp.size_of_head, bytes.len() - 5);
}

#[test]
fn non_numeric_length_clears_it() {
    let resp = HttpResponse::read(b"HTTP/1.1 200 OK\r\nContent-Length: 4\r\nContent-Length: x\r\n\r\n")
        .ok()
        .unwrap();
    assert_eq!(resp.content_length, None);
    assert_eq!(resp.get("Content-Length"), Some(&"x".to_string()));
}

#[test]
fn fixed_body_round_trip() {
    let payload: Vec<u8> = (0u8..37).map(|i| i.wrapping_mul(7).wrapping_add(3)).collect();
    let mut request = HttpRequest::post("http://localhost:8084//echo");
    request.set_body(HttpBody::from_bytes(&payload));
    let head = prepare_request(&mut request);
    assert_eq!(head, b"POST /echo HTTP/1.1\r\nContent-Length: 37\r\n\r\n".to_vec());

    let mut response = b"HTTP/1.1 200 OK\r\nContent-Length: 37\r\n\r\n".to_vec();
    response.extend_from_slice(&payload);
    let (mut resp, plan) = ready(&response, &ClientBuilder::default());
    match plan {
        BodyPlan::Complete(b) => resp.body = Some(HttpBody::Bytes(b)),
        _ => panic!("expected a complete body"),
    }
    match resp.fixed_body_bytes() {
        Some(Ok(b)) => assert_eq!(b, payload),
        _ => panic!("expected the body"),
    }
}

#[test]
fn fixed_body_completed_over_several_reads() {
    let payload: Vec<u8> = (0u8..37).collect();
    let mut response = b"HTTP/1.1 200 OK\r\nContent-Length: 37\r\n\r\n".to_vec();
    response.extend_from_slice(&payload[..10]);
    let (resp, plan) = ready(&response, &ClientBuilder::default());
    let mut body = match plan {
        BodyPlan::Partial(b) => b,
        _ => panic!("expected a partial body"),
    };
    assert_eq!(body, payload[..10].to_vec());
    assert_eq!(resp.content_length, Some(37));
    assert!(!absorb_body_bytes(&mut body, &payload[10..20], 37));
    let mut tail = payload[20..].to_vec();
    tail.extend_from_slice(b"extra");
    assert!(absorb_body_bytes(&mut body, &tail, 37));
    assert_eq!(body, payload);
}

#[test]
fn oversized_body_is_refused() {
    let config = ClientBuilder { max_connections: 1, max_body_size: Some(10) };
    match on_head_bytes(b"HTTP/1.1 200 OK\r\nContent-Length: 11\r\n\r\n", &config) {
        HeadStep::Fail(e) => assert_eq!(e, SendingRequestError::BodyTooLarge),
        _ => panic!("expected a refusal"),
    }
    match plan_body(b"xx", 2, Some(8193), 8192) {
        BodyPlan::TooLarge => {}
        _ => panic!("expected a refusal"),
    }
}

#[test]
fn unknown_length_streams_or_has_no_body() {
    let (_, plan) = ready(b"HTTP/1.1 200 OK\r\n\r\n", &ClientBuilder::default());
    assert!(matches!(plan, BodyPlan::NoBody));
    let (_, plan) = ready(b"HTTP/1.1 200 OK\r\n\r\nabc", &ClientBuilder::default());
    match plan {
        BodyPlan::Stream(b) => assert_eq!(b, b"abc".to_vec()),
        _ => panic!("expected a stream"),
    }
}

#[test]
fn streamed_chunks_assemble_in_order() {
    let chunks: Vec<Vec<u8>> = (0u8..50).map(|i| vec![i; (i as usize % 7) + 1]).collect();
    let mut assembler = BodyAssembler::new();
    let mut expected = vec![];
    for c in &chunks {
        expected.extend_from_slice(c);
        assert!(matches!(assembler.receive(Some((c.clone(), false))), AssembleStep::Continue));
    }
    match assembler.receive(Some((vec![], true))) {
        AssembleStep::Finished(b) => assert_eq!(b, expected),
        _ => panic!("expected the whole body"),
    }
}

#[test]
fn early_close_reports_partial_bytes() {
    let mut assembler = BodyAssembler::new();
    assembler.receive(Some((b"par".to_vec(), false)));
    match assembler.receive(None) {
        AssembleStep::Failed(e) => {
            assert_eq!(e, GettingBodyErrors::ConnectionError(Some(b"par".to_vec())))
        }
        _ => panic!("expected a failure"),
    }
}

#[test]
fn drain_sends_one_final_chunk_then_stops() {
    let mut drain = StreamDrain::new();
    assert_eq!(drain.next_action(false), DrainAction::Read);
    assert_eq!(drain.on_read(ReadOutcome::Data(b"ab".to_vec())), (b"ab".to_vec(), false));
    assert_eq!(drain.next_action(false), DrainAction::Read);
    assert_eq!(drain.on_read(ReadOutcome::Closed), (vec![], true));
    assert_eq!(drain.next_action(false), DrainAction::Stop);
    let mut failing = StreamDrain::new();
    assert_eq!(failing.on_read(ReadOutcome::Failed), (vec![], true));
    let mut empty = StreamDrain::new();
    assert_eq!(empty.on_read(ReadOutcome::Data(vec![])), (vec![], true));
}

#[test]
fn drain_stops_when_response_dropped() {
    let drain = StreamDrain::new();
    assert_eq!(drain.next_action(true), DrainAction::Stop);
}

#[test]
fn failures_after_acquisition_repair_the_slot() {
    assert!(needs_repair(&SendingRequestError::WritingErrors));
    assert!(needs_repair(&SendingRequestError::ReadingErrors));
    assert!(needs_repair(&SendingRequestError::BodyTooLarge));
    assert!(!needs_repair(&SendingRequestError::TcpCErrors(
        ConnectionsError::ThereIsNoTcpConnectionValid
    )));
}

#[test]
fn request_head_collapses_slashes_and_keeps_header_order() {
    let mut request = HttpRequest::get("//a///b");
    request.set_header("B".to_string(), "1".to_string());
    request.set_header("A".to_string(), "2".to_string());
    request.set_header("B".to_string(), "3".to_string());
    assert_eq!(
        request.writeable_head_bytes(),
        b"GET /a//b HTTP/1.1\r\nB: 3\r\nA: 2\r\n\r\n".to_vec()
    );
}

#[test]
fn builders_set_method_and_path() {
    assert_eq!(HttpRequest::new("http://localhost:8084/test").path, "/test");
    assert_eq!(HttpRequest::new("localhost:8084").path, "/");
    assert_eq!(HttpRequest::new("http4://example.com/x").path, "http4://example.com/x");
    assert_eq!(HttpRequest::get("/x").method, "GET");
    assert_eq!(HttpRequest::post("/x").method, "POST");
    assert_eq!(HttpRequest::patch("/x").method, "PATCH");
    assert_eq!(HttpRequest::delete("/x").method, "DELETE");
    assert_eq!(HttpRequest::delete("http://h:1/y").path, "/y");
    let mut r = HttpRequest::get("/x");
    r.set_method("PUT");
    assert_eq!(r.method, "PUT");
}

#[test]
fn streamed_request_declares_its_length() {
    let (body, sender) = HttpBody::send_chunks_stream(4);
    sender.try_send((b"ab".to_vec(), false)).unwrap();
    let mut request = HttpRequest::post("/up");
    request.set_body(body);
    let head = prepare_request(&mut request);
    assert_eq!(head, b"POST /up HTTP/1.1\r\nContent-Length: 4\r\n\r\n".to_vec());
    match HttpBody::from_string("hé") {
        HttpBody::Bytes(b) => assert_eq!(b, "hé".as_bytes().to_vec()),
        _ => panic!("expected bytes"),
    }
}

#[test]
fn numbers_and_tokens() {
    assert_eq!(parse_decimal(b"+12", 100), Some(12));
    assert_eq!(parse_decimal(b"+", 100), None);
    assert_eq!(parse_decimal(b"", 100), None);
    assert_eq!(parse_decimal(b"65536", 65535), None);
    assert_eq!(parse_decimal(b"65535", 65535), Some(65535));
    assert_eq!(parse_decimal(b"1a", 100), None);
    assert!(is_content_length(b"cOnTeNt-LeNgTh"));
    assert!(!is_content_length(b"Content-Lengths"));
    let line: Vec<char> = "  a\tbb\u{a0}c\u{3000} ".chars().collect();
    assert_eq!(split_tokens(&line), vec![vec!['a'], vec!['b', 'b'], vec!['c']]);
    assert_eq!(split_lines(b"a\r\nb\nc"), vec![b"a".to_vec(), b"b".to_vec(), b"c".to_vec()]);
}

#[test]
fn config_defaults() {
    let c = ClientBuilder::default();
    assert_eq!(c.max_connections, 1);
    assert_eq!(c.max_body_size, None);
    assert_eq!(c.body_limit(), 8192);
    assert_eq!(ClientBuilder { max_connections: 2, max_body_size: Some(5) }.body_limit(), 5);
}

#[test]
fn target_prefers_numeric_address() {
    let t = ConnectTarget { ip: Some("10.0.0.1".to_string()), host: Some("example.com".to_string()), port: 80 };
    assert_eq!(t.address(), Some(("10.0.0.1".to_string(), 80)));
    let t = ConnectTarget { ip: None, host: Some("example.com".to_string()), port: 8084 };
    assert_eq!(t.address(), Some(("example.com".to_string(), 8084)));
    let t = ConnectTarget { ip: None, host: Some(String::new()), port: 1 };
    assert_eq!(t.address(), None);
}

#[test]
fn pool_builder_skips_failed_slots() {
    let mut b: PoolBuilder<u8> = PoolBuilder::new(2);
    assert_eq!(b.next_slot(), Some(0));
    b.on_attempt(None);
    b.on_attempt(None);
    assert_eq!(b.next_slot(), Some(0));
    b.on_attempt(None);
    assert_eq!(b.next_slot(), Some(1));
    b.on_attempt(None);
    b.on_attempt(Some(7));
    assert_eq!(b.next_slot(), None);
    let mut pool = b.finish();
    assert_eq!(pool.len(), 1);
    assert_eq!(pool.get_connection(), Ok(0));
    assert_eq!(*pool.slot(0), 7);
}

#[test]
fn drain_and_assemble_keep_every_chunk() {
    let reads: Vec<Vec<u8>> = (1u8..=20).map(|i| vec![i; i as usize]).collect();
    let mut drain = StreamDrain::new();
    let mut assembler = BodyAssembler::new();
    let mut expected = vec![];
    let mut finals = 0;
    let mut outcomes: Vec<ReadOutcome> = reads.iter().map(|r| ReadOutcome::Data(r.clone())).collect();
    outcomes.push(ReadOutcome::Closed);
    outcomes.push(ReadOutcome::Data(b"late".to_vec()));
    for r in &reads {
        expected.extend_from_slice(r);
    }
    let mut result = None;
    for outcome in outcomes {
        if drain.next_action(false) == DrainAction::Stop {
            break;
        }
        let msg = drain.on_read(outcome);
        if msg.1 {
            finals += 1;
        }
        if let AssembleStep::Finished(b) = assembler.receive(Some(msg)) {
            result = Some(b);
        }
    }
    assert_eq!(finals, 1);
    assert_eq!(result, Some(expected));
}

#[test]
fn head_that_is_not_utf8_is_malformed() {
    assert_eq!(HttpResponse::read(b"A 1\r\n\xff\r\n\r\n").err(), Some(HeadError::Malformed));
    assert_eq!(HttpResponse::read(b"HTTP/1.1 200 O\xffK\r\n\r\n").err(), Some(HeadError::Malformed));
}

#[test]
fn status_line_splits_at_unicode_white_space() {
    let resp = HttpResponse::read("A 1 B\u{a0}C\u{2003}D\r\n\r\n".as_bytes()).ok().unwrap();
    assert_eq!(resp.http_version, "A");
    assert_eq!(resp.status_code, 1);
    assert_eq!(resp.status_label, "B C D");
    let resp = HttpResponse::read("HTTP/1.1 200\r\n\r\n".as_bytes()).ok().unwrap();
    assert_eq!(resp.status_label, "");
    assert_eq!(HttpResponse::read("HTTP/1.1 ２00 OK\r\n\r\n".as_bytes()).err(), Some(HeadError::Malformed));
}

#[test]
fn streamed_body_channel_holds_its_length() {
    let (body, sender) = HttpBody::send_chunks_stream(3);
    assert_eq!(sender.max_capacity(), 3);
    match body {
        HttpBody::Stream(mut s) => {
            assert_eq!(s.receiver.max_capacity(), 3);
            sender.try_send((b"a".to_vec(), false)).unwrap();
            sender.try_send((b"b".to_vec(), false)).unwrap();
            sender.try_send((vec![], true)).unwrap();
            assert!(sender.try_send((b"c".to_vec(), false)).is_err());
            assert_eq!(s.receiver.try_recv().unwrap(), (b"a".to_vec(), false));
            assert_eq!(s.receiver.try_recv().unwrap(), (b"b".to_vec(), false));
            assert_eq!(s.receiver.try_recv().unwrap(), (vec![], true));
        }
        _ => panic!("expected a stream"),
    }
}

#[test]
fn header_keys_uniqueness_is_checked() {
    let mut r = HttpRequest::get("/");
    r.set_header("A".to_string(), "1".to_string());
    r.set_header("B".to_string(), "2".to_string());
    assert!(r.keys_are_unique());
    r.headers.push(("A".to_string(), "3".to_string()));
    assert!(!r.keys_are_unique());
}

#[test]
fn decimal_digits() {
    assert_eq!(decimal_string(0), "0");
    assert_eq!(decimal_string(37), "37");
    assert_eq!(decimal_string(1000), "1000");
    assert_eq!(decimal_string(usize::MAX), usize::MAX.to_string());
}
