use pryx_host::permissions::{
    dialog_message, resolve_approval, should_show_dialog, ApprovalRequest, ApprovalResponse,
    PermissionDialogConfig, PermissionManager,
};

#[test]
fn test_config_default() {
    let config = PermissionDialogConfig::default();
    assert_eq!(config.show_native_dialog, false);
    assert_eq!(config.approval_required_for_critical, false);
}

#[test]
fn test_manager_initialization() {
    let config = PermissionDialogConfig {
        show_native_dialog: true,
        dialog_timeout_ms: 5000,
        approval_required_for_critical: true,
    };
    let manager = PermissionManager::new(config);

    let pending = manager.list_pending();
    assert!(pending.is_empty());
}

#[test]
fn test_approval_request_struct() {
    let req = ApprovalRequest {
        request_id: "req-123".into(),
        tool_name: "test-tool".into(),
        tool_description: "test description".into(),
        args: "{\"foo\":\"bar\"}".into(),
        session_id: "sess-1".into(),
        is_critical: true,
    };

    assert_eq!(req.tool_name, "test-tool");
    assert!(req.is_critical);
}

#[test]
fn test_permission_manager_initial_state() {
    let config = PermissionDialogConfig::default();
    let manager = PermissionManager::new(config);

    let pending = manager.list_pending();
    assert!(pending.is_empty());
}

fn sample_request(id: &str) -> ApprovalRequest {
    ApprovalRequest {
        request_id: id.to_string(),
        tool_name: "shell".to_string(),
        tool_description: "Run a command".to_string(),
        args: "{}".to_string(),
        session_id: "s1".to_string(),
        is_critical: false,
    }
}

// Every insert is paired with exactly one removal: registering then
// cancelling leaves the pending set where it began.
#[test]
fn test_register_and_cancel() {
    let mut m = PermissionManager::new(PermissionDialogConfig::default());
    m.register(sample_request("a"));
    m.register(sample_request("b"));
    assert_eq!(m.list_pending().len(), 2);

    m.cancel_request("a");
    let left = m.list_pending();
    assert_eq!(left.len(), 1);
    assert_eq!(left[0].request_id, "b");

    m.cancel_request("b");
    assert!(m.list_pending().is_empty());
    // Cancelling an unknown id changes nothing.
    m.cancel_request("zzz");
    assert!(m.list_pending().is_empty());
}

#[test]
fn test_should_show_dialog_rules() {
    let off = PermissionDialogConfig::default();
    assert!(!should_show_dialog(&off, false));
    assert!(!should_show_dialog(&off, true));

    let critical_only = PermissionDialogConfig {
        show_native_dialog: false,
        dialog_timeout_ms: 0,
        approval_required_for_critical: true,
    };
    assert!(!should_show_dialog(&critical_only, false));
    assert!(should_show_dialog(&critical_only, true));

    let always = PermissionDialogConfig {
        show_native_dialog: true,
        dialog_timeout_ms: 0,
        approval_required_for_critical: false,
    };
    assert!(should_show_dialog(&always, false));
}

#[test]
fn test_resolve_approval_outcomes() {
    let dialogs = PermissionDialogConfig {
        show_native_dialog: true,
        dialog_timeout_ms: 0,
        approval_required_for_critical: false,
    };
    assert_eq!(resolve_approval(&dialogs, false, Some(true)), Ok(ApprovalResponse::Approved));
    assert_eq!(resolve_approval(&dialogs, false, Some(false)), Ok(ApprovalResponse::Denied));
    // Timeout or dismissal denies.
    assert_eq!(resolve_approval(&dialogs, true, None), Ok(ApprovalResponse::Denied));

    let off = PermissionDialogConfig::default();
    // Non-critical requests pass without a dialog.
    assert_eq!(resolve_approval(&off, false, None), Ok(ApprovalResponse::Approved));
    // Critical requests cannot be approved without one.
    assert_eq!(
        resolve_approval(&off, true, None),
        Err("Critical tool requires approval but native dialogs are disabled".to_string())
    );
}

#[test]
fn test_dialog_message_wording() {
    let mut req = sample_request("r");
    req.is_critical = true;
    let m = dialog_message(&req);
    assert_eq!(
        m,
        "Tool Request: shell\n\nDescription: Run a command\n\nCritical: Yes - Critical Operation\n\nDo you want to proceed?"
    );
    req.is_critical = false;
    let m = dialog_message(&req);
    assert!(m.contains("No - Standard Operation"));
}
