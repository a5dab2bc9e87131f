use pryx_host::portline::{extract_port_check, extract_port_from_line, parse_listen_addr};

#[test]
fn test_extract_port_from_line_pryx_format() {
    let line = "PRYX_CORE_LISTEN_ADDR=127.0.0.1:8080";
    assert_eq!(extract_port_from_line(line), Some(8080));

    let line = "PRYX_CORE_LISTEN_ADDR=:3000";
    assert_eq!(extract_port_from_line(line), Some(3000));
}

#[test]
fn test_extract_port_from_line_listening_format() {
    let line = "Starting server on http://localhost:3000";
    assert_eq!(extract_port_from_line(line), Some(3000));

    let line = "Server listening on port :9090";
    assert_eq!(extract_port_from_line(line), Some(9090));
}

#[test]
fn test_extract_port_from_line_no_port() {
    assert_eq!(extract_port_from_line("No port here"), None);
    assert_eq!(extract_port_from_line(""), None);
    assert_eq!(extract_port_from_line("Just some text: but not a port"), None);
}

#[test]
fn test_extract_port_check() {
    assert!(extract_port_check("PRYX_CORE_LISTEN_ADDR=127.0.0.1:8080"));
    assert!(extract_port_check("Server listening on port 3000"));
    assert!(extract_port_check("Listening on http://localhost:8080"));
    assert!(!extract_port_check("Some random log message"));
}

#[test]
fn test_extract_port_from_listening() {
    assert_eq!(extract_port_from_line("Listening on :8080"), Some(8080));
    assert_eq!(extract_port_from_line("Server started on port 8080"), Some(8080));
    assert_eq!(extract_port_from_line("port:8080"), Some(8080));
    assert_eq!(extract_port_from_line("listening on 0.0.0.0:8080"), Some(8080));
    assert_eq!(extract_port_from_line("listening port: 8080"), Some(8080));
}

#[test]
fn test_extract_port_from_no_match() {
    assert_eq!(extract_port_from_line("Hello world"), None);
    assert_eq!(extract_port_from_line("No port here"), None);
    assert_eq!(extract_port_from_line(""), None);
}

#[test]
fn test_extract_port_out_of_range() {
    // A run that overflows u16 is no port.
    assert_eq!(extract_port_from_line("listening on x:70000"), None);
    assert_eq!(extract_port_from_line("PRYX_CORE_LISTEN_ADDR=127.0.0.1:65535"), Some(65535));
}

#[test]
fn test_extract_port_prefix_trims_whitespace() {
    assert_eq!(extract_port_from_line("PRYX_CORE_LISTEN_ADDR= 127.0.0.1:51515 "), Some(51515));
}

#[test]
fn test_parse_listen_addr_prefix() {
    let addr = parse_listen_addr("PRYX_CORE_LISTEN_ADDR=127.0.0.1:8080").unwrap();
    assert_eq!(addr, b"127.0.0.1:8080".to_vec());
}

#[test]
fn test_parse_listen_addr_listening_on() {
    let addr = parse_listen_addr("info: Listening on 0.0.0.0:9000").unwrap();
    assert_eq!(addr, b"0.0.0.0:9000".to_vec());
    assert_eq!(parse_listen_addr("nothing relevant"), None);
    assert_eq!(parse_listen_addr("PRYX_CORE_LISTEN_ADDR=   "), None);
}
