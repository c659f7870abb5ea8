use logcore::models::{LogRequestStatus, RequestError};
use logcore::request_manager::{RequestManager, REQUEST_TTL_MS, RETENTION_MS};

#[test]
fn test_create_and_get_request() {
    let mut manager = RequestManager::new();
    let user_id: u128 = 7;
    let device_id = "test-device".to_string();

    let request = manager.create_request(user_id, device_id.clone());
    assert_eq!(request.status, LogRequestStatus::Pending);

    let retrieved = manager.get_pending(&device_id);
    assert!(retrieved.is_some());
    assert_eq!(retrieved.unwrap().id, request.id);
}

#[test]
fn test_fulfill_request() {
    let mut manager = RequestManager::new();
    let user_id: u128 = 7;
    let device_id = "test-device".to_string();

    let request = manager.create_request(user_id, device_id.clone());
    let result = manager.fulfill(request.id, "/path/to/logs.jsonl".to_string());

    assert!(result.is_ok());
    assert!(manager.get_pending(&device_id).is_none());
}

#[test]
fn test_replace_pending_request() {
    let mut manager = RequestManager::new();
    let user_id: u128 = 7;
    let device_id = "test-device".to_string();

    let request1 = manager.create_request(user_id, device_id.clone());
    let request2 = manager.create_request(user_id, device_id.clone());

    assert_ne!(request1.id, request2.id);

    let retrieved = manager.get_pending(&device_id);
    assert!(retrieved.is_some());
    assert_eq!(retrieved.unwrap().id, request2.id);
}

#[test]
fn test_created_request_shape() {
    let mut manager = RequestManager::new();
    let request = manager.create_request_at(9, "dev".to_string(), 42, 1_000);
    assert_eq!(request.id, 42);
    assert_eq!(request.user_id, 9);
    assert_eq!(request.device_id, "dev");
    assert_eq!(request.requested_at, 1_000);
    assert_eq!(request.expires_at, 1_000 + REQUEST_TTL_MS);
    assert_eq!(request.status, LogRequestStatus::Pending);
    assert!(request.fulfilled_at.is_none());
    assert!(request.log_file_path.is_none());
}

#[test]
fn test_expired_request_not_returned() {
    let mut manager = RequestManager::new();
    manager.create_request_at(9, "dev".to_string(), 42, 1_000);

    let past_expiry = 1_000 + REQUEST_TTL_MS + 1;
    assert!(manager.get_pending_at("dev", past_expiry).is_none());
    // still none on a later read: the lazy transition stuck
    assert!(manager.get_pending_at("dev", past_expiry + 1).is_none());
}

#[test]
fn test_request_live_until_expiry() {
    let mut manager = RequestManager::new();
    manager.create_request_at(9, "dev".to_string(), 42, 1_000);
    // at the expiry instant itself the request is still live
    let r = manager.get_pending_at("dev", 1_000 + REQUEST_TTL_MS);
    assert_eq!(r.unwrap().id, 42);
}

#[test]
fn test_fulfill_unknown_id_not_found() {
    let mut manager = RequestManager::new();
    manager.create_request_at(9, "dev".to_string(), 42, 1_000);
    let result = manager.fulfill_at(999, "p".to_string(), 2_000);
    assert!(matches!(result, Err(RequestError::NotFound)));
}

#[test]
fn test_fulfill_twice_already_processed() {
    let mut manager = RequestManager::new();
    manager.create_request_at(9, "dev".to_string(), 42, 1_000);

    let first = manager.fulfill_at(42, "p1".to_string(), 2_000);
    assert!(first.is_ok());
    assert!(manager.get_pending_at("dev", 2_500).is_none());

    let second = manager.fulfill_at(42, "p2".to_string(), 3_000);
    assert!(matches!(second, Err(RequestError::AlreadyProcessed)));
}

#[test]
fn test_cancel_request() {
    let mut manager = RequestManager::new();
    manager.create_request_at(9, "dev".to_string(), 42, 1_000);

    assert!(manager.cancel("dev").is_ok());
    assert!(manager.get_pending_at("dev", 1_500).is_none());
    assert!(matches!(manager.cancel("dev"), Err(RequestError::AlreadyProcessed)));
    assert!(matches!(manager.cancel("other"), Err(RequestError::NotFound)));
}

#[test]
fn test_cleanup_marks_and_removes() {
    let mut manager = RequestManager::new();
    manager.create_request_at(9, "dev-a".to_string(), 1, 0);
    manager.create_request_at(9, "dev-b".to_string(), 2, 0);
    let fulfilled = manager.fulfill_at(2, "p".to_string(), 10);
    assert!(fulfilled.is_ok());

    // right after creation nothing is removed
    assert_eq!(manager.cleanup_expired_at(100), 0);

    // past the retention window: dev-a's request expired long ago and was
    // created more than a retention window back; dev-b's is terminal and
    // old too, so both go
    let late = RETENTION_MS + 1;
    let removed = manager.cleanup_expired_at(late);
    assert_eq!(removed, 2);
    assert_eq!(manager.stats_at(late).total, 0);
}

#[test]
fn test_cleanup_keeps_recent_terminal_requests() {
    let mut manager = RequestManager::new();
    manager.create_request_at(9, "dev".to_string(), 1, 0);
    let fulfilled = manager.fulfill_at(1, "p".to_string(), 10);
    assert!(fulfilled.is_ok());

    // terminal but recent: retained
    assert_eq!(manager.cleanup_expired_at(1_000), 0);
    assert_eq!(manager.stats_at(1_000).fulfilled, 1);
}

#[test]
fn test_stats_by_effective_status() {
    let mut manager = RequestManager::new();
    manager.create_request_at(9, "a".to_string(), 1, 0);
    manager.create_request_at(9, "b".to_string(), 2, 0);
    manager.create_request_at(9, "c".to_string(), 3, 0);
    manager.create_request_at(9, "d".to_string(), 4, 0);
    assert!(manager.fulfill_at(2, "p".to_string(), 5).is_ok());
    assert!(manager.cancel("c").is_ok());
    // "d" expires lazily
    assert!(manager.get_pending_at("d", REQUEST_TTL_MS + 1).is_none());

    // not-yet-swept expired pending ("a") is reported as expired
    let stats = manager.stats_at(REQUEST_TTL_MS + 1);
    assert_eq!(stats.total, 4);
    assert_eq!(stats.pending, 0);
    assert_eq!(stats.fulfilled, 1);
    assert_eq!(stats.expired, 2);
    assert_eq!(stats.cancelled, 1);

    let earlier = manager.stats_at(10);
    assert_eq!(earlier.pending, 1);
    assert_eq!(earlier.expired, 1);
}
