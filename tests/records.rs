use detect_exceptions::record::LogEvent;

#[test]
fn insert_replaces_and_appends() {
    let mut le = LogEvent::from_message("hello");
    le.insert("host", "h1".to_string());
    le.insert("message", "bye".to_string());
    assert_eq!(le.get("message"), Some(&"bye".to_string()));
    assert_eq!(le.get("host"), Some(&"h1".to_string()));
    assert_eq!(le.get("missing"), None);
    assert_eq!(le.fields().len(), 2);
    assert_eq!(le.fields()[0].0, "message");
    let copy = le.duplicate();
    assert_eq!(copy.fields(), le.fields());
}
