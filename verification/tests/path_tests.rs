use pryx_host::paths::{
    ancestor_candidates, find_pryx_core_binary, resolve_binary, search_ancestors,
};

#[test]
fn test_ancestor_candidates_order() {
    let cands = ancestor_candidates(b"/home/me/app");
    assert_eq!(cands[0], b"/home/me/app/apps/runtime/pryx-core".to_vec());
    assert_eq!(cands[1], b"/home/me/app/dist/pryx-core".to_vec());
    assert_eq!(cands[2], b"/home/me/apps/runtime/pryx-core".to_vec());
    assert_eq!(cands[3], b"/home/me/dist/pryx-core".to_vec());
}

#[test]
fn test_search_ancestors() {
    // Nothing exists: nothing found.
    let existing: Vec<Vec<u8>> = Vec::new();
    assert_eq!(search_ancestors(b"/home/me/app", &existing), None);

    // The first existing candidate in probe order wins.
    let existing = vec![
        b"/home/dist/pryx-core".to_vec(),
        b"/home/me/dist/pryx-core".to_vec(),
    ];
    assert_eq!(
        search_ancestors(b"/home/me/app", &existing),
        Some(b"/home/me/dist/pryx-core".to_vec())
    );
}

#[test]
fn test_resolve_binary_priority() {
    assert_eq!(resolve_binary("pryx-core", true, &None), "pryx-core");
    assert_eq!(
        resolve_binary("pryx-core", false, &Some("/opt/pryx-core".to_string())),
        "/opt/pryx-core"
    );
    assert_eq!(resolve_binary("pryx-core", false, &None), "pryx-core");
}

#[test]
fn test_find_pryx_core_binary_priority() {
    let env = Some("/env/pryx-core".to_string());
    let exe = Some("/exe/pryx-core".to_string());
    let cwd = Some("/cwd/pryx-core".to_string());
    assert_eq!(find_pryx_core_binary(&env, true, &exe, &cwd), env.clone());
    // An override that does not exist on disk is skipped.
    assert_eq!(find_pryx_core_binary(&env, false, &exe, &cwd), exe.clone());
    assert_eq!(find_pryx_core_binary(&None, false, &None, &cwd), cwd.clone());
    assert_eq!(
        find_pryx_core_binary(&None, false, &None, &None),
        Some("pryx-core".to_string())
    );
}
