use pryx_host::classify::{classify_line, LineEvent};
use pryx_host::frames::RpcFrame;
use pryx_host::handlers::{field_or, parse_flat, plan_inbound, response_line, HostAction, HostOutcome};

// The inbound permission flow: the child's request is classified, the
// dialog question is taken from the params, and the approval is answered
// with the exact frame the child expects.
#[test]
fn test_inbound_permission_scenario() {
    let line = r#"{"jsonrpc":"2.0","method":"permission.request","params":{"description":"Read file"},"id":7}"#;
    let (method, params, id) = match classify_line(line) {
        LineEvent::Frame(RpcFrame::Request { method, params, id }) => (method, params, id),
        _ => panic!("expected an inbound request"),
    };
    assert_eq!(id, 7);

    match plan_inbound(&method, &params) {
        HostAction::AskPermission { message } => {
            assert_eq!(message, b"Read file".to_vec());
        }
        _ => panic!("expected a permission dialog"),
    }

    // Dialog returns approve: the host writes the exact response frame.
    let reply = response_line(id, &HostOutcome::Approved(true)).unwrap();
    assert_eq!(
        reply,
        b"{\"jsonrpc\":\"2.0\",\"result\":{\"approved\":true},\"id\":7}\n".to_vec()
    );

    let deny = response_line(id, &HostOutcome::Approved(false)).unwrap();
    assert_eq!(
        deny,
        b"{\"jsonrpc\":\"2.0\",\"result\":{\"approved\":false},\"id\":7}\n".to_vec()
    );
}

#[test]
fn test_plan_notification_defaults() {
    match plan_inbound(b"notification.show", b"{}") {
        HostAction::ShowNotification { title, body } => {
            assert_eq!(title, b"Pryx Notification".to_vec());
            assert_eq!(body, b"".to_vec());
        }
        _ => panic!("expected a notification action"),
    }
    match plan_inbound(b"notification.show", b"{\"title\":\"Hi\",\"body\":\"There\"}") {
        HostAction::ShowNotification { title, body } => {
            assert_eq!(title, b"Hi".to_vec());
            assert_eq!(body, b"There".to_vec());
        }
        _ => panic!("expected a notification action"),
    }
}

#[test]
fn test_plan_clipboard_and_updater() {
    match plan_inbound(b"clipboard.writeText", b"{\"text\":\"copy me\"}") {
        HostAction::WriteClipboard { text } => assert_eq!(text, b"copy me".to_vec()),
        _ => panic!("expected a clipboard write"),
    }
    assert!(matches!(plan_inbound(b"clipboard.readText", b"null"), HostAction::ReadClipboard));
    assert!(matches!(plan_inbound(b"updater.check", b"null"), HostAction::CheckUpdate));
    assert!(matches!(plan_inbound(b"updater.install", b"null"), HostAction::InstallUpdate));
    assert!(matches!(plan_inbound(b"unknown.method", b"null"), HostAction::NoHandler));
}

#[test]
fn test_response_lines_per_outcome() {
    assert_eq!(
        response_line(1, &HostOutcome::Notified(true)).unwrap(),
        b"{\"jsonrpc\":\"2.0\",\"result\":{\"status\":\"ok\"},\"id\":1}\n".to_vec()
    );
    assert_eq!(response_line(1, &HostOutcome::Notified(false)), None);
    assert_eq!(response_line(1, &HostOutcome::ClipboardWritten(false)), None);
    assert_eq!(
        response_line(2, &HostOutcome::ClipboardText(b"snippet".to_vec())).unwrap(),
        b"{\"jsonrpc\":\"2.0\",\"result\":{\"text\":\"snippet\"},\"id\":2}\n".to_vec()
    );
    assert_eq!(
        response_line(3, &HostOutcome::NoUpdate).unwrap(),
        b"{\"jsonrpc\":\"2.0\",\"result\":{\"available\":false},\"id\":3}\n".to_vec()
    );
    assert_eq!(
        response_line(
            4,
            &HostOutcome::UpdateAvailable {
                version: b"1.2.3".to_vec(),
                body: b"fixes".to_vec()
            }
        )
        .unwrap(),
        b"{\"jsonrpc\":\"2.0\",\"result\":{\"available\":true,\"version\":\"1.2.3\",\"body\":\"fixes\"},\"id\":4}\n".to_vec()
    );
    assert_eq!(
        response_line(5, &HostOutcome::Installed).unwrap(),
        b"{\"jsonrpc\":\"2.0\",\"result\":{\"status\":\"installed\",\"restart\":true},\"id\":5}\n"
            .to_vec()
    );
    assert_eq!(
        response_line(6, &HostOutcome::UpdateError(b"offline".to_vec())).unwrap(),
        b"{\"jsonrpc\":\"2.0\",\"result\":{\"error\":\"offline\"},\"id\":6}\n".to_vec()
    );
}

#[test]
fn test_parse_flat_objects() {
    let es = parse_flat(b"{}").unwrap();
    assert!(es.is_empty());

    let es = parse_flat(b"{\"a\":\"1\",\"b\":\"2\"}").unwrap();
    assert_eq!(es.len(), 2);
    assert_eq!(es[0], (b"a".to_vec(), b"1".to_vec()));
    assert_eq!(es[1], (b"b".to_vec(), b"2".to_vec()));

    // Escapes in values decode.
    let es = parse_flat(b"{\"k\":\"line\\nbreak\\\"q\\\"\"}").unwrap();
    assert_eq!(es[0].1, b"line\nbreak\"q\"".to_vec());

    // Not flat string objects.
    assert_eq!(parse_flat(b"{\"n\":5}"), None);
    assert_eq!(parse_flat(b"[]"), None);
    assert_eq!(parse_flat(b"null"), None);
}

#[test]
fn test_field_or_defaults() {
    assert_eq!(field_or(b"{\"description\":\"X\"}", "description", "d"), b"X".to_vec());
    assert_eq!(field_or(b"{\"other\":\"X\"}", "description", "d"), b"d".to_vec());
    assert_eq!(field_or(b"null", "description", "d"), b"d".to_vec());
    assert_eq!(field_or(b"{\"n\":1}", "description", "d"), b"d".to_vec());
}
