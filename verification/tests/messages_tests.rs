use cms_core::messages::MessageLog;

#[test]
fn messages_append_in_arrival_order() {
    let mut log = MessageLog::new();
    log.add(
        "Visitor".to_string(),
        "v@example.org".to_string(),
        "Hello there".to_string(),
        "203.0.113.9".to_string(),
    );
    log.add(
        "Second".to_string(),
        "s@example.org".to_string(),
        "Another".to_string(),
        "198.51.100.4".to_string(),
    );
    let entries = log.entries();
    assert_eq!(log.len(), 2);
    assert_eq!(entries.len(), 2);
    assert_eq!(entries[0].name, "Visitor");
    assert_eq!(entries[0].email, "v@example.org");
    assert_eq!(entries[0].message, "Hello there");
    assert_eq!(entries[0].ip_address, "203.0.113.9");
    assert_eq!(entries[1].name, "Second");
}
