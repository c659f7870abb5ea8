use logcore::models::{flag_enabled, Config, LogLevel};

#[test]
fn test_log_level_ordering() {
    assert!(LogLevel::Trace < LogLevel::Debug);
    assert!(LogLevel::Debug < LogLevel::Info);
    assert!(LogLevel::Info < LogLevel::Notice);
    assert!(LogLevel::Notice < LogLevel::Warning);
    assert!(LogLevel::Warning < LogLevel::Error);
    assert!(LogLevel::Error < LogLevel::Critical);
}

#[test]
fn test_log_level_parsing() {
    assert_eq!(LogLevel::from_str("trace"), LogLevel::Trace);
    assert_eq!(LogLevel::from_str("DEBUG"), LogLevel::Debug);
    assert_eq!(LogLevel::from_str("Info"), LogLevel::Info);
    assert_eq!(LogLevel::from_str("unknown"), LogLevel::Info); // default
}

#[test]
fn test_log_level_rank_order() {
    assert_eq!(LogLevel::Trace.rank(), 0);
    assert_eq!(LogLevel::Critical.rank(), 6);
    assert!(LogLevel::Warning.rank() > LogLevel::Notice.rank());
}

#[test]
fn test_log_level_as_str_round_trip() {
    for level in [
        LogLevel::Trace,
        LogLevel::Debug,
        LogLevel::Info,
        LogLevel::Notice,
        LogLevel::Warning,
        LogLevel::Error,
        LogLevel::Critical,
    ] {
        assert_eq!(LogLevel::from_str(level.as_str()), level);
    }
}

#[test]
fn test_default_config() {
    let config = Config::default();
    assert_eq!(config.port, 9006);
    assert_eq!(config.capacity, 10_000);
    assert!(!config.verbose);
    assert_eq!(config.upload_dir, "./uploads");
    assert!(config.jwt_public_key_path.is_none());
}

#[test]
fn test_flag_enabled_values() {
    assert!(flag_enabled("1"));
    assert!(flag_enabled("true"));
    assert!(flag_enabled("TRUE"));
    assert!(!flag_enabled("0"));
    assert!(!flag_enabled("yes"));
}
