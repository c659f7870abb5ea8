use logcore::models::{Claims, JwtError, LogEntry, LogUploadMetadata, LogUploadRequest};
use logcore::protocol::{
    claims_user_id, find_device_for_request, poll_at, upload_commit, upload_validate, ApiError,
};
use logcore::request_manager::RequestManager;

fn id_str(id: u128) -> String {
    uuid::Uuid::from_u128(id).to_string()
}

fn entry(id: &str) -> LogEntry {
    LogEntry {
        id: id.to_string(),
        timestamp: 0,
        level: "info".to_string(),
        message: "m".to_string(),
        user_id: None,
        device_id: "dev-A".to_string(),
        source: "cli".to_string(),
        metadata: Vec::new(),
        tags: Vec::new(),
        file: String::new(),
        function: String::new(),
        line: 0,
    }
}

fn upload_for(request_id: &str, device_id: &str) -> LogUploadRequest {
    LogUploadRequest {
        request_id: request_id.to_string(),
        device_id: device_id.to_string(),
        logs: vec![entry("1")],
        from_timestamp: "2024-01-15T10:30:00Z".to_string(),
        to_timestamp: "2024-01-15T10:31:00Z".to_string(),
        total_count: 1,
    }
}

#[test]
fn test_upload_mismatched_request_id_rejected() {
    let mut manager = RequestManager::new();
    let user: u128 = 7;
    manager.create_request_at(user, "dev-A".to_string(), 42, 0);
    // a stale request with another id once existed for a different device
    manager.create_request_at(user, "dev-B".to_string(), 77, 0);

    let upload = upload_for(&id_str(77), "dev-A");
    let r = upload_validate(&mut manager, &upload, user, 100);
    assert_eq!(r, Err(ApiError::BadRequest));
    // the pending request was not consumed
    assert_eq!(manager.get_pending_at("dev-A", 200).unwrap().id, 42);
}

#[test]
fn test_upload_by_non_owner_forbidden_and_not_consumed() {
    let mut manager = RequestManager::new();
    let owner: u128 = 7;
    let intruder: u128 = 8;
    manager.create_request_at(owner, "dev-A".to_string(), 42, 0);

    let upload = upload_for(&id_str(42), "dev-A");
    let r = upload_validate(&mut manager, &upload, intruder, 100);
    assert_eq!(r, Err(ApiError::Forbidden));

    // the request is still pending for its owner
    let pending = manager.get_pending_at("dev-A", 200).unwrap();
    assert_eq!(pending.id, 42);
    assert_eq!(pending.user_id, owner);
}

#[test]
fn test_upload_without_pending_request_not_found() {
    let mut manager = RequestManager::new();
    let upload = upload_for(&id_str(42), "dev-A");
    let r = upload_validate(&mut manager, &upload, 7, 100);
    assert_eq!(r, Err(ApiError::NotFound));
}

#[test]
fn test_upload_malformed_request_id_bad_request() {
    let mut manager = RequestManager::new();
    manager.create_request_at(7, "dev-A".to_string(), 42, 0);
    let upload = upload_for("not-a-valid-id", "dev-A");
    let r = upload_validate(&mut manager, &upload, 7, 100);
    assert_eq!(r, Err(ApiError::BadRequest));
}

#[test]
fn test_commit_twice_server_error() {
    let mut manager = RequestManager::new();
    manager.create_request_at(7, "dev-A".to_string(), 42, 0);
    assert!(upload_commit(&mut manager, 42, "p".to_string(), 50).is_ok());
    let again = upload_commit(&mut manager, 42, "p".to_string(), 60);
    assert_eq!(again, Err(ApiError::ServerError));
    // and an unknown identifier is a server error too
    let unknown = upload_commit(&mut manager, 999, "p".to_string(), 60);
    assert_eq!(unknown, Err(ApiError::ServerError));
}

#[test]
fn test_full_request_poll_upload_exchange() {
    let mut manager = RequestManager::new();
    let user_u: u128 = 7;
    let user_v: u128 = 8;
    let r1 = manager.create_request_at(user_u, "dev-A".to_string(), 42, 0);

    // poll by the owner returns the request
    let polled = poll_at(&mut manager, user_u, "dev-A", 100).unwrap().unwrap();
    assert_eq!(polled.request_id, id_str(r1.id));

    // poll by a different user is forbidden
    let other = poll_at(&mut manager, user_v, "dev-A", 100);
    assert_eq!(other, Err(ApiError::Forbidden));

    // upload with the right id, device and owner succeeds
    let upload = upload_for(&id_str(r1.id), "dev-A");
    let validated = upload_validate(&mut manager, &upload, user_u, 200);
    assert_eq!(validated, Ok(r1.id));
    let committed = upload_commit(&mut manager, r1.id, "7/dev-A/42.jsonl".to_string(), 300);
    assert!(committed.is_ok());

    // a later poll by the owner finds nothing
    let after = poll_at(&mut manager, user_u, "dev-A", 400);
    assert_eq!(after, Ok(None));
}

#[test]
fn test_poll_response_timestamps_rendered() {
    let mut manager = RequestManager::new();
    // 2024-01-15T10:30:00Z
    let requested_at: i64 = 1_705_314_600_000;
    manager.create_request_at(7, "dev-A".to_string(), 1, requested_at);
    let polled = poll_at(&mut manager, 7, "dev-A", requested_at).unwrap().unwrap();
    assert_eq!(polled.request_id, "00000000-0000-0000-0000-000000000001");
    assert_eq!(polled.requested_at, "2024-01-15T10:30:00+00:00");
    assert_eq!(polled.expires_at, "2024-01-16T10:30:00+00:00");
}

#[test]
fn test_claims_user_id_parsing() {
    let good = Claims {
        sub: "550e8400-e29b-41d4-a716-446655440000".to_string(),
        exp: 1_735_516_800,
        iat: 1_735_430_400,
    };
    let parsed = claims_user_id(&good).unwrap();
    assert_eq!(parsed, 0x550e8400e29b41d4a716446655440000u128);

    let bad = Claims { sub: "not-an-id".to_string(), exp: 0, iat: 0 };
    assert!(matches!(claims_user_id(&bad), Err(JwtError::InvalidUserId(_))));
}

#[test]
fn test_find_device_for_request_listing() {
    let uploads = vec![
        LogUploadMetadata {
            request_id: id_str(1),
            device_id: "dev-A".to_string(),
            uploaded_at: "2024-01-15T10:30:00+00:00".to_string(),
            log_count: 3,
            file_size_bytes: 100,
        },
        LogUploadMetadata {
            request_id: id_str(2),
            device_id: "dev-B".to_string(),
            uploaded_at: "2024-01-15T11:30:00+00:00".to_string(),
            log_count: 1,
            file_size_bytes: 40,
        },
    ];
    assert_eq!(find_device_for_request(&uploads, &id_str(2)), Some("dev-B".to_string()));
    assert_eq!(find_device_for_request(&uploads, &id_str(3)), None);
}
