use lsproxy::frame::{decode_frame, encode_frame, frame_body, FrameError, FrameParse};
use lsproxy::pending::PendingRequests;
use lsproxy::rpc::{build_request_json, parse_rpc_fields, response_outcome, RpcOutcome};
use lsproxy::session::{ClientState, RouteOutcome, Session, SessionAction, SessionEvent};
use lsproxy::api_types::SupportedLanguages;
use lsproxy::session::ClientMap;

fn encode_str(body: &str) -> Vec<u8> {
    let bytes: Vec<u8> = body.as_bytes().to_vec();
    encode_frame(&bytes)
}

#[test]
fn frame_has_expected_header() {
    let framed = encode_str("{\"x\":1}");
    let text = String::from_utf8(framed).unwrap();
    assert_eq!(text, "Content-Length: 7\r\n\r\n{\"x\":1}");
}

#[test]
fn frame_decodes_to_its_body() {
    let body = "{\"jsonrpc\":\"2.0\",\"id\":1,\"result\":null}";
    let framed = encode_str(body);
    match decode_frame(&framed) {
        FrameParse::Frame {
            header_len,
            body_len,
        } => {
            assert_eq!(body_len, body.len());
            let out = frame_body(&framed, header_len, body_len);
            assert_eq!(String::from_utf8(out).unwrap(), body);
        }
        _ => panic!("expected a complete frame"),
    }
}

#[test]
fn frame_decode_handles_trailing_bytes() {
    let body = "{}";
    let mut framed = encode_str(body);
    let mut next = encode_str("{\"id\":2}");
    framed.append(&mut next);
    match decode_frame(&framed) {
        FrameParse::Frame {
            header_len,
            body_len,
        } => {
            assert_eq!(body_len, 2);
            let out = frame_body(&framed, header_len, body_len);
            assert_eq!(out, b"{}".to_vec());
        }
        _ => panic!("expected a complete frame"),
    }
}

#[test]
fn incomplete_frame_asks_for_more() {
    let framed = encode_str("{\"id\":7}");
    let partial: Vec<u8> = framed[..framed.len() - 3].to_vec();
    assert_eq!(decode_frame(&partial), FrameParse::NeedMore);
    let header_only: Vec<u8> = b"Content-Length: 99\r\n".to_vec();
    assert_eq!(decode_frame(&header_only), FrameParse::NeedMore);
}

#[test]
fn missing_length_is_fatal() {
    let buf: Vec<u8> = b"Content-Type: text/plain\r\n\r\n{}".to_vec();
    assert_eq!(decode_frame(&buf), FrameParse::Bad(FrameError::MissingLength));
}

#[test]
fn non_numeric_length_is_fatal() {
    let buf: Vec<u8> = b"Content-Length: abc\r\n\r\n{}".to_vec();
    assert_eq!(decode_frame(&buf), FrameParse::Bad(FrameError::BadLength));
    let buf2: Vec<u8> = b"Content-Length: -5\r\n\r\n{}".to_vec();
    assert_eq!(decode_frame(&buf2), FrameParse::Bad(FrameError::BadLength));
}

#[test]
fn other_headers_are_ignored() {
    let buf: Vec<u8> = b"Content-Type: utf8\r\nContent-Length: 2\r\n\r\n{}".to_vec();
    match decode_frame(&buf) {
        FrameParse::Frame {
            header_len,
            body_len,
        } => {
            let out = frame_body(&buf, header_len, body_len);
            assert_eq!(out, b"{}".to_vec());
        }
        _ => panic!("expected a complete frame"),
    }
}

#[test]
fn pending_registers_and_completes_once() {
    let mut table: PendingRequests<u32> = PendingRequests::new();
    table.add_request(1, 100);
    table.add_request(2, 200);
    assert_eq!(table.len(), 2);
    assert_eq!(table.remove_request(1), Some(100));
    assert_eq!(table.remove_request(1), None);
    assert_eq!(table.remove_request(3), None);
    assert_eq!(table.remove_request(2), Some(200));
    assert_eq!(table.len(), 0);
}

#[test]
fn pending_drain_returns_all_sinks() {
    let mut table: PendingRequests<u32> = PendingRequests::new();
    table.add_request(5, 50);
    table.add_request(6, 60);
    let sinks = table.drain();
    assert_eq!(sinks, vec![50, 60]);
    assert_eq!(table.len(), 0);
}

#[test]
fn session_lifecycle_reaches_ready() {
    let mut s: Session<u32> = Session::new();
    assert_eq!(s.state, ClientState::Starting);
    assert_eq!(s.step(SessionEvent::Spawned), SessionAction::SendInitialize);
    assert_eq!(s.state, ClientState::Initializing);
    assert_eq!(
        s.step(SessionEvent::InitializeOk),
        SessionAction::SendInitialized
    );
    assert_eq!(s.state, ClientState::Ready);
    assert_eq!(
        s.step(SessionEvent::ShutdownRequested),
        SessionAction::TerminateChild
    );
    assert_eq!(s.state, ClientState::Terminated);
}

#[test]
fn session_initialize_failure_terminates() {
    let mut s: Session<u32> = Session::new();
    s.step(SessionEvent::Spawned);
    assert_eq!(
        s.step(SessionEvent::InitializeErr),
        SessionAction::ReportInitializeFailed
    );
    assert_eq!(s.state, ClientState::Terminated);
}

#[test]
fn session_ids_start_at_one_and_increase() {
    let mut s: Session<u32> = Session::new();
    s.step(SessionEvent::Spawned);
    s.step(SessionEvent::InitializeOk);
    let a = s.send_request(10);
    let b = s.send_request(20);
    let c = s.send_request(30);
    assert_eq!(a, 1);
    assert_eq!(b, 2);
    assert_eq!(c, 3);
}

#[test]
fn session_routes_hundred_concurrent_requests() {
    let mut s: Session<u64> = Session::new();
    s.step(SessionEvent::Spawned);
    s.step(SessionEvent::InitializeOk);
    let mut ids: Vec<u64> = Vec::new();
    for k in 0..100u64 {
        let id = s.send_request(1000 + k);
        ids.push(id);
    }
    // Responses arrive in an arbitrary order; every one reaches its own sink.
    for step in 0..100u64 {
        let id = ids[((step * 37) % 100) as usize];
        match s.route_incoming(Some(id)) {
            RouteOutcome::Deliver(sink) => assert_eq!(sink, 1000 + id - 1),
            _ => panic!("expected a pending sink for id {}", id),
        }
    }
    // Every id was completed exactly once; nothing is left.
    for id in ids {
        match s.route_incoming(Some(id)) {
            RouteOutcome::NoPending => {}
            _ => panic!("id {} should have no live entry", id),
        }
    }
}

#[test]
fn session_discards_notifications_and_late_responses() {
    let mut s: Session<u32> = Session::new();
    s.step(SessionEvent::Spawned);
    s.step(SessionEvent::InitializeOk);
    let id = s.send_request(7);
    assert!(matches!(s.route_incoming(None), RouteOutcome::Notification));
    assert!(matches!(s.route_incoming(Some(99)), RouteOutcome::NoPending));
    assert!(matches!(s.route_incoming(Some(id)), RouteOutcome::Deliver(7)));
}

#[test]
fn session_cancel_prevents_delivery() {
    let mut s: Session<u32> = Session::new();
    s.step(SessionEvent::Spawned);
    s.step(SessionEvent::InitializeOk);
    let id = s.send_request(11);
    assert_eq!(s.cancel(id), Some(11));
    assert!(matches!(s.route_incoming(Some(id)), RouteOutcome::NoPending));
}

#[test]
fn transport_failure_drains_every_sink() {
    let mut s: Session<u32> = Session::new();
    s.step(SessionEvent::Spawned);
    s.step(SessionEvent::InitializeOk);
    s.send_request(1);
    s.send_request(2);
    s.send_request(3);
    assert_eq!(
        s.step(SessionEvent::TransportFailed),
        SessionAction::CompletePendingTerminated
    );
    let sinks = s.drain_pending();
    assert_eq!(sinks, vec![1, 2, 3]);
}

#[test]
fn request_round_trip_through_parser() {
    // An echoing analyzer: each framed request comes back with a result
    // wrapper; the parsed fields route the response to its caller.
    let mut s: Session<String> = Session::new();
    s.step(SessionEvent::Spawned);
    s.step(SessionEvent::InitializeOk);
    let id = s.send_request("caller".to_string());
    let body = build_request_json(id, "textDocument/definition", "{\"p\":3}");
    let framed = encode_str(&body);
    match decode_frame(&framed) {
        FrameParse::Frame {
            header_len,
            body_len,
        } => {
            let echoed = frame_body(&framed, header_len, body_len);
            let echoed = String::from_utf8(echoed).unwrap();
            let reply = format!(
                "{{\"jsonrpc\":\"2.0\",\"id\":{},\"result\":{}}}",
                id, "[1,2]"
            );
            let fields = parse_rpc_fields(&reply).unwrap();
            assert_eq!(fields.id, Some(id));
            match s.route_incoming(fields.id) {
                RouteOutcome::Deliver(sink) => assert_eq!(sink, "caller"),
                _ => panic!("expected delivery"),
            }
            match response_outcome(fields) {
                RpcOutcome::Success(res) => assert_eq!(res, "[1,2]"),
                _ => panic!("expected a result"),
            }
            assert!(echoed.contains("\"id\":1"));
        }
        _ => panic!("expected a complete frame"),
    }
}

#[test]
fn client_map_skips_existing_languages() {
    let mut clients: ClientMap<u32> = ClientMap::new();
    assert!(clients.index_of(SupportedLanguages::Python).is_none());
    clients.insert(SupportedLanguages::Python, 11);
    clients.insert(SupportedLanguages::Golang, 22);
    let i = clients.index_of(SupportedLanguages::Python).unwrap();
    assert_eq!(clients.entries[i].1, 11);
    let j = clients.index_of(SupportedLanguages::Golang).unwrap();
    assert_eq!(clients.entries[j].1, 22);
    assert!(clients.index_of(SupportedLanguages::Rust).is_none());
}
