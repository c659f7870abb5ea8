use logcore::buffer::LogBuffer;
use logcore::models::{LogEntry, LogLevel};

fn create_entry(id: &str, level: &str) -> LogEntry {
    LogEntry {
        id: id.to_string(),
        timestamp: 0,
        level: level.to_string(),
        message: format!("Message {}", id),
        user_id: None,
        device_id: "test-device".to_string(),
        source: "test".to_string(),
        metadata: Vec::new(),
        tags: Vec::new(),
        file: String::new(),
        function: String::new(),
        line: 0,
    }
}

#[test]
fn test_buffer_append_and_get() {
    let mut buffer = LogBuffer::new(3);

    buffer.append(create_entry("1", "info"));
    buffer.append(create_entry("2", "info"));

    let entries = buffer.get_all();
    assert_eq!(entries.len(), 2);
    assert_eq!(entries[0].id, "1");
    assert_eq!(entries[1].id, "2");
}

#[test]
fn test_buffer_circular_behavior() {
    let mut buffer = LogBuffer::new(3);

    buffer.append(create_entry("1", "info"));
    buffer.append(create_entry("2", "info"));
    buffer.append(create_entry("3", "info"));
    buffer.append(create_entry("4", "info")); // Should overwrite "1"

    let entries = buffer.get_all();
    assert_eq!(entries.len(), 3);
    assert_eq!(entries[0].id, "2"); // Oldest
    assert_eq!(entries[1].id, "3");
    assert_eq!(entries[2].id, "4"); // Newest
}

#[test]
fn test_buffer_clear() {
    let mut buffer = LogBuffer::new(10);

    buffer.append(create_entry("1", "info"));
    buffer.append(create_entry("2", "info"));
    assert_eq!(buffer.count(), 2);

    buffer.clear();
    assert_eq!(buffer.count(), 0);
    assert!(buffer.get_all().is_empty());
}

#[test]
fn test_buffer_level_filter() {
    let mut buffer = LogBuffer::new(10);

    buffer.append(create_entry("1", "debug"));
    buffer.append(create_entry("2", "info"));
    buffer.append(create_entry("3", "error"));

    buffer.set_minimum_level(LogLevel::Info);

    let filtered = buffer.get_filtered();
    assert_eq!(filtered.len(), 2);
    assert_eq!(filtered[0].id, "2");
    assert_eq!(filtered[1].id, "3");
}

#[test]
fn test_buffer_source_filter() {
    let mut buffer = LogBuffer::new(10);

    let mut a = create_entry("1", "info");
    a.source = "cli".to_string();
    let mut b = create_entry("2", "info");
    b.source = "ios".to_string();
    buffer.append(a);
    buffer.append(b);

    buffer.set_source_filter(Some(vec!["ios".to_string()]));
    let filtered = buffer.get_filtered();
    assert_eq!(filtered.len(), 1);
    assert_eq!(filtered[0].id, "2");

    buffer.set_source_filter(None);
    assert_eq!(buffer.get_filtered().len(), 2);
}

#[test]
fn test_buffer_receipt_order_never_exceeds_capacity() {
    let mut buffer = LogBuffer::new(3);
    for i in 0..10 {
        buffer.append(create_entry(&i.to_string(), "info"));
        assert!(buffer.count() <= 3);
        let entries = buffer.get_all();
        // always in receipt order
        for w in entries.windows(2) {
            let a: u32 = w[0].id.parse().unwrap();
            let b: u32 = w[1].id.parse().unwrap();
            assert_eq!(a + 1, b);
        }
    }
    let entries = buffer.get_all();
    assert_eq!(entries.len(), 3);
    assert_eq!(entries[0].id, "7");
    assert_eq!(entries[1].id, "8");
    assert_eq!(entries[2].id, "9");
}

#[test]
fn test_buffer_clear_then_append_appears_alone() {
    let mut buffer = LogBuffer::new(4);
    buffer.append(create_entry("1", "info"));
    buffer.append(create_entry("2", "info"));
    buffer.clear();
    assert!(buffer.get_all().is_empty());

    buffer.append(create_entry("3", "info"));
    let entries = buffer.get_all();
    assert_eq!(entries.len(), 1);
    assert_eq!(entries[0].id, "3");
}

#[test]
fn test_subscriber_sees_only_entries_after_subscription() {
    let mut buffer = LogBuffer::new(10);
    buffer.append(create_entry("1", "info"));
    buffer.append(create_entry("2", "info"));

    let sub = buffer.subscribe();
    buffer.append(create_entry("3", "info"));
    buffer.append(create_entry("4", "info"));

    let delivered = buffer.drain(sub);
    assert_eq!(delivered.len(), 2);
    assert_eq!(delivered[0].id, "3");
    assert_eq!(delivered[1].id, "4");

    // nothing is replayed
    assert!(buffer.drain(sub).is_empty());
}

#[test]
fn test_subscriber_queue_drops_oldest_when_full() {
    let mut buffer = LogBuffer::new(200);
    let sub = buffer.subscribe();
    for i in 0..105 {
        buffer.append(create_entry(&i.to_string(), "info"));
    }
    let delivered = buffer.drain(sub);
    assert_eq!(delivered.len(), 100);
    assert_eq!(delivered[0].id, "5"); // the 5 oldest were dropped
    assert_eq!(delivered[99].id, "104");
}

#[test]
fn test_unsubscribed_receives_nothing() {
    let mut buffer = LogBuffer::new(10);
    let sub = buffer.subscribe();
    buffer.append(create_entry("1", "info"));
    buffer.unsubscribe(sub);
    buffer.append(create_entry("2", "info"));
    assert!(buffer.drain(sub).is_empty());
}

#[test]
fn test_clear_does_not_affect_subscriptions() {
    let mut buffer = LogBuffer::new(10);
    let sub = buffer.subscribe();
    buffer.append(create_entry("1", "info"));
    buffer.clear();
    buffer.append(create_entry("2", "info"));
    let delivered = buffer.drain(sub);
    assert_eq!(delivered.len(), 2);
    assert_eq!(delivered[0].id, "1");
    assert_eq!(delivered[1].id, "2");
}
