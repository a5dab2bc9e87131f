use pryx_host::classify::{classify_line, LineEvent};
use pryx_host::frames::{
    encode_notification, encode_request, encode_response, parse_frame, RpcFrame,
};

#[test]
fn test_rpc_request_deserialization() {
    let json = r#"{"jsonrpc":"2.0","method":"test.method","params":{"key":"value"},"id":1}"#;
    let req = parse_frame(json.as_bytes()).unwrap();

    match req {
        RpcFrame::Request { method, params, id } => {
            assert_eq!(method, b"test.method".to_vec());
            assert_eq!(params, b"{\"key\":\"value\"}".to_vec());
            assert_eq!(id, 1);
        }
        _ => panic!("expected a request frame"),
    }
}

#[test]
fn test_rpc_response_serialization() {
    let line = encode_response(b"{\"status\":\"ok\"}", 42);
    let json = String::from_utf8(line).unwrap();
    assert!(json.contains("\"jsonrpc\":\"2.0\""));
    assert!(json.contains("\"id\":42"));
    assert!(json.contains("\"status\":\"ok\""));
}

// Frame idempotence on a concrete value: serializing a response and
// parsing it back yields an equal frame, and the written bytes hold
// exactly one newline, at the end.
#[test]
fn test_response_round_trip() {
    let result = b"{\"ok\":true,\"nested\":{\"id\":7},\"n\":[1,2,3]}".to_vec();
    let line = encode_response(&result, 12345);
    assert_eq!(line.last(), Some(&b'\n'));
    assert_eq!(line.iter().filter(|b| **b == b'\n').count(), 1);

    let parsed = parse_frame(&line[..line.len() - 1]).unwrap();
    match parsed {
        RpcFrame::Response { result: r, id } => {
            assert_eq!(r, result);
            assert_eq!(id, 12345);
        }
        _ => panic!("expected a response frame"),
    }
}

#[test]
fn test_request_round_trip() {
    let line = encode_request(b"admin.health", b"null", 1);
    assert_eq!(
        line,
        b"{\"jsonrpc\":\"2.0\",\"method\":\"admin.health\",\"params\":null,\"id\":1}\n".to_vec()
    );
    let parsed = parse_frame(&line[..line.len() - 1]).unwrap();
    match parsed {
        RpcFrame::Request { method, params, id } => {
            assert_eq!(method, b"admin.health".to_vec());
            assert_eq!(params, b"null".to_vec());
            assert_eq!(id, 1);
        }
        _ => panic!("expected a request frame"),
    }
}

#[test]
fn test_notification_round_trip() {
    let line = encode_notification(b"log.event", b"{\"level\":\"info\"}");
    assert_eq!(
        line,
        b"{\"jsonrpc\":\"2.0\",\"method\":\"log.event\",\"params\":{\"level\":\"info\"}}\n"
            .to_vec()
    );
    let parsed = parse_frame(&line[..line.len() - 1]).unwrap();
    match parsed {
        RpcFrame::Notification { method, params } => {
            assert_eq!(method, b"log.event".to_vec());
            assert_eq!(params, b"{\"level\":\"info\"}".to_vec());
        }
        _ => panic!("expected a notification frame"),
    }
}

#[test]
fn test_method_escaping_round_trip() {
    // A method with characters that need escaping survives the trip.
    let line = encode_request(b"we\"ird\\name", b"null", 3);
    let parsed = parse_frame(&line[..line.len() - 1]).unwrap();
    match parsed {
        RpcFrame::Request { method, id, .. } => {
            assert_eq!(method, b"we\"ird\\name".to_vec());
            assert_eq!(id, 3);
        }
        _ => panic!("expected a request frame"),
    }
}

#[test]
fn test_error_response_parse() {
    let line = r#"{"jsonrpc":"2.0","error":{"code":-32601,"message":"Method not found"},"id":9}"#;
    let parsed = parse_frame(line.as_bytes()).unwrap();
    match parsed {
        RpcFrame::ErrorResponse { code, message, id } => {
            assert_eq!(code, -32601);
            assert_eq!(message, b"Method not found".to_vec());
            assert_eq!(id, 9);
        }
        _ => panic!("expected an error response frame"),
    }
}

#[test]
fn test_error_response_with_data_parse() {
    let line =
        r#"{"jsonrpc":"2.0","error":{"code":5,"message":"boom","data":{"x":1}},"id":2}"#;
    let parsed = parse_frame(line.as_bytes()).unwrap();
    match parsed {
        RpcFrame::ErrorResponse { code, message, id } => {
            assert_eq!(code, 5);
            assert_eq!(message, b"boom".to_vec());
            assert_eq!(id, 2);
        }
        _ => panic!("expected an error response frame"),
    }
}

// Our encoder agrees with the reference JSON tooling: the emitted line
// parses as the object it claims to be.
#[test]
fn test_encoder_against_serde_json() {
    let line = encode_response(b"{\"approved\":true}", 7);
    let v: serde_json::Value = serde_json::from_slice(&line).unwrap();
    assert_eq!(v.get("jsonrpc").and_then(|j| j.as_str()), Some("2.0"));
    assert_eq!(v.get("id").and_then(|j| j.as_u64()), Some(7));
    assert_eq!(
        v.get("result").and_then(|r| r.get("approved")).and_then(|b| b.as_bool()),
        Some(true)
    );

    let line = encode_request(b"a\nb\tc", b"[1,2]", 99);
    let v: serde_json::Value = serde_json::from_slice(&line).unwrap();
    assert_eq!(v.get("method").and_then(|m| m.as_str()), Some("a\nb\tc"));
    assert_eq!(v.get("params").and_then(|p| p.get(1)).and_then(|n| n.as_i64()), Some(2));
}

// The outbound RPC of the end-to-end flow: the child's reply resolves to
// the result text the caller sees.
#[test]
fn test_outbound_rpc_scenario() {
    let call = encode_request(b"admin.health", b"null", 1);
    assert!(call.ends_with(b"\n"));

    match classify_line(r#"{"jsonrpc":"2.0","result":{"ok":true},"id":1}"#) {
        LineEvent::Frame(RpcFrame::Response { result, id }) => {
            assert_eq!(id, 1);
            assert_eq!(result, b"{\"ok\":true}".to_vec());
        }
        _ => panic!("expected a response frame"),
    }
}

#[test]
fn test_classify_log_lines() {
    assert!(matches!(classify_line("plain log output"), LineEvent::Log));
    assert!(matches!(classify_line("{not json at all"), LineEvent::Log));
    assert!(matches!(
        classify_line("PRYX_CORE_LISTEN_ADDR=127.0.0.1:51515"),
        LineEvent::Port(51515)
    ));
    assert!(matches!(classify_line("Server listening on port :9090"), LineEvent::Port(9090)));
}

#[test]
fn test_classify_trims_frames() {
    match classify_line("  {\"jsonrpc\":\"2.0\",\"result\":null,\"id\":3}  ") {
        LineEvent::Frame(RpcFrame::Response { result, id }) => {
            assert_eq!(result, b"null".to_vec());
            assert_eq!(id, 3);
        }
        _ => panic!("expected a response frame"),
    }
}
