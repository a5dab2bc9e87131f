use pryx_host::supervisor::{calculate_backoff, SidecarConfig};

#[test]
fn mod_test_test_calculate_backoff() {
    let config = SidecarConfig {
        initial_backoff_ms: 1000,
        backoff_multiplier_hundredths: 200,
        ..SidecarConfig::default()
    };

    // First attempt should use initial backoff
    assert_eq!(calculate_backoff(1, &config), 1000);

    // Second attempt should be 2x
    assert_eq!(calculate_backoff(2, &config), 2000);

    // Third attempt should be 4x
    assert_eq!(calculate_backoff(3, &config), 4000);

    // Tenth attempt should be capped (2^9 = 512, but clamped)
    let large_backoff = calculate_backoff(10, &config);
    assert!(large_backoff > 1000);
}

#[test]
fn sidecar_tests_test_calculate_backoff() {
    let config = SidecarConfig::default();

    // First attempt: no backoff
    let backoff1 = calculate_backoff(1, &config);
    assert_eq!(backoff1, config.initial_backoff_ms);

    // Second attempt: 2x
    let backoff2 = calculate_backoff(2, &config);
    assert_eq!(backoff2, 2 * config.initial_backoff_ms);

    // Third attempt: 4x
    let backoff3 = calculate_backoff(3, &config);
    assert_eq!(backoff3, 4 * config.initial_backoff_ms);

    // Tenth attempt: 2^9 = 512x
    let backoff10 = calculate_backoff(10, &config);
    assert_eq!(backoff10, 512 * config.initial_backoff_ms);

    // Should cap at the exponent limit of 2^10
    let backoff20 = calculate_backoff(20, &config);
    assert_eq!(backoff20, 1024 * config.initial_backoff_ms);
}

#[test]
fn test_backoff_calculation_variations() {
    let config = SidecarConfig {
        initial_backoff_ms: 500,
        backoff_multiplier_hundredths: 150,
        ..SidecarConfig::default()
    };

    // Test different attempt numbers
    let test_cases = vec![
        (1, 500),   // Initial
        (2, 750),   // 500 * 1.5
        (3, 1125),  // 500 * 1.5^2
        (5, 2531),  // 500 * 1.5^4
    ];

    for (attempt, expected) in test_cases {
        let backoff = calculate_backoff(attempt, &config);
        assert!(
            (backoff as i64 - expected as i64).abs() < 10,
            "Attempt {}: expected ~{}, got {}",
            attempt,
            expected,
            backoff
        );
    }
}

#[test]
fn test_backoff_monotone_values() {
    // The delay never shrinks while the multiplier is above one.
    let config = SidecarConfig {
        initial_backoff_ms: 10,
        backoff_multiplier_hundredths: 200,
        ..SidecarConfig::default()
    };
    let mut last = 0u64;
    for attempt in 1..=12u32 {
        let b = calculate_backoff(attempt, &config);
        assert!(b >= last, "attempt {}: {} < {}", attempt, b, last);
        last = b;
    }
    // The exponent clamps at ten growth steps.
    assert_eq!(calculate_backoff(11, &config), calculate_backoff(12, &config));
}

#[test]
fn test_restart_backoff_schedule() {
    assert_eq!(pryx_host::restart_backoff(0), 250);
    assert_eq!(pryx_host::restart_backoff(1), 500);
    assert_eq!(pryx_host::restart_backoff(2), 1000);
    assert_eq!(pryx_host::restart_backoff(3), 2000);
    assert_eq!(pryx_host::restart_backoff(4), 5000);
    assert_eq!(pryx_host::restart_backoff(100), 5000);
}
