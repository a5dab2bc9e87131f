use pryx_host::server::{
    admin_cookie, auth_decision, id_params, merge_id_into_body, rpc_http_status, rpc_method_for,
    sanitize_static_path, static_access_allowed, static_path_allowed, static_target, AuthDecision,
    ServerConfig, ServerError,
};

// Any request without a valid token yields 401; the bearer header or the
// cookie both let it through.
#[test]
fn test_auth_bearer_and_cookie() {
    let token = "s3cretT0ken";
    assert_eq!(auth_decision(None, None, token), AuthDecision::Unauthorized);
    assert_eq!(
        auth_decision(Some("Bearer s3cretT0ken"), None, token),
        AuthDecision::Allow
    );
    assert_eq!(
        auth_decision(Some("Bearer wrong"), None, token),
        AuthDecision::Unauthorized
    );
    assert_eq!(
        auth_decision(Some("bearer s3cretT0ken"), None, token),
        AuthDecision::Unauthorized
    );
    assert_eq!(
        auth_decision(None, Some("a=b; pryx_admin_token=s3cretT0ken; c=d"), token),
        AuthDecision::Allow
    );
    assert_eq!(
        auth_decision(None, Some("pryx_admin_token=nope"), token),
        AuthDecision::Unauthorized
    );
    assert_eq!(
        auth_decision(Some("Basic x"), Some("other=1"), token),
        AuthDecision::Unauthorized
    );
}

#[test]
fn test_admin_cookie_attributes() {
    let c = admin_cookie("abc123");
    assert_eq!(c, "pryx_admin_token=abc123; Path=/; HttpOnly; SameSite=Strict");
}

// Paths holding `..` are rejected before any canonicalization.
#[test]
fn test_static_path_dotdot_rejected() {
    assert!(!static_path_allowed(b"/../etc/passwd"));
    assert!(!static_path_allowed(b"a/../b"));
    assert!(!static_path_allowed(b"a..b"));
    assert!(static_path_allowed(b"/assets/app.js"));
    assert!(static_path_allowed(b"."));
}

#[test]
fn test_sanitize_collapses_empty_segments() {
    assert_eq!(sanitize_static_path(b"/a//b/"), b"a/b".to_vec());
    assert_eq!(sanitize_static_path(b"///"), b"".to_vec());
    assert_eq!(sanitize_static_path(b"x"), b"x".to_vec());
}

#[test]
fn test_static_target_index() {
    assert_eq!(static_target(b""), b"index.html".to_vec());
    assert_eq!(static_target(b"index.html"), b"index.html".to_vec());
    assert_eq!(static_target(b"///"), b"index.html".to_vec());
    assert_eq!(static_target(b"/assets/app.js"), b"assets/app.js".to_vec());
}

// A canonicalized path outside the root is refused.
#[test]
fn test_static_access_prefix_check() {
    assert!(static_access_allowed(b"/srv/ui", b"/srv/ui/index.html"));
    assert!(!static_access_allowed(b"/srv/ui", b"/etc/passwd"));
    assert!(!static_access_allowed(b"/srv/ui", b"/srv"));
}

#[test]
fn test_route_table() {
    assert_eq!(rpc_method_for("GET", "/health"), Some("admin.health".to_string()));
    assert_eq!(rpc_method_for("GET", "/skills"), Some("admin.skills.list".to_string()));
    assert_eq!(rpc_method_for("POST", "/channels"), Some("admin.channels.create".to_string()));
    assert_eq!(rpc_method_for("PUT", "/mcp/:id"), Some("admin.mcp.update".to_string()));
    assert_eq!(
        rpc_method_for("DELETE", "/policies/:id"),
        Some("admin.policies.delete".to_string())
    );
    assert_eq!(
        rpc_method_for("POST", "/channels/:id/test"),
        Some("admin.channels.test".to_string())
    );
    assert_eq!(rpc_method_for("GET", "/audit/logs"), Some("admin.audit.list".to_string()));
    assert_eq!(rpc_method_for("GET", "/cost/summary"), Some("admin.cost.summary".to_string()));
    assert_eq!(rpc_method_for("PATCH", "/health"), None);
    assert_eq!(rpc_method_for("GET", "/nope"), None);
}

#[test]
fn test_rpc_http_status_codes() {
    assert_eq!(rpc_http_status(false, false), 503);
    assert_eq!(rpc_http_status(false, true), 503);
    assert_eq!(rpc_http_status(true, true), 200);
    assert_eq!(rpc_http_status(true, false), 500);
}

#[test]
fn test_id_params_and_merge() {
    assert_eq!(id_params(b"ch-1"), b"{\"id\":\"ch-1\"}".to_vec());
    assert_eq!(
        merge_id_into_body(b"{\"name\":\"x\"}", b"ch-1"),
        b"{\"name\":\"x\",\"id\":\"ch-1\"}".to_vec()
    );
    assert_eq!(merge_id_into_body(b"{}", b"ch-1"), b"{\"id\":\"ch-1\"}".to_vec());
    // A non-object body passes unchanged.
    assert_eq!(merge_id_into_body(b"[1,2]", b"ch-1"), b"[1,2]".to_vec());
}

#[test]
fn test_server_error_messages() {
    assert_eq!(
        ServerError::BindError("in use".into()).message(),
        "Failed to bind to port: in use"
    );
    assert_eq!(
        ServerError::StaticFileError("gone".into()).message(),
        "Static file error: gone"
    );
    assert_eq!(ServerError::WebSocketError("closed".into()).message(), "WebSocket error: closed");
}

#[test]
fn test_server_config_default() {
    let c = ServerConfig::default();
    assert_eq!(c.host, "127.0.0.1");
    assert_eq!(c.port, 42424);
    assert_eq!(c.static_files_path, "../../local-web/dist");
}

#[test]
fn test_fresh_admin_token_shape() {
    let t = pryx_host::strutil::fresh_admin_token();
    assert_eq!(t.len(), 32);
    assert!(t.chars().all(|c| c.is_ascii_alphanumeric()));
    // Two instances rotate: drawing twice almost surely differs.
    let u = pryx_host::strutil::fresh_admin_token();
    assert_ne!(t, u);
}
