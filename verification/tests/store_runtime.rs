use dragon_li::agent_http::health_response_ok;
use dragon_li::runtime::{runtime_root_in, runtime_subdir_names, runtime_subdirs, ApiError, RuntimeError};
use dragon_li::store::{
    busy_retry_backoff, default_db_path, should_drop_mcp_connectors, title_update_error, write_error, SqliteStore,
    StoreError,
};

#[test]
fn health_check_is_ok() {
    assert!(health_response_ok("HTTP/1.0 200 OK\r\nContent-Type: application/json\r\n\r\n{\"ok\":true}"));
}

#[test]
fn runtime_subdirs_are_listed_under_root() {
    let root = runtime_root_in("/home/u");
    assert_eq!(root, "/home/u/.dragon-li");
    assert_eq!(runtime_subdir_names(), vec!["data", "memory", "config", "logs", "backups", "run"]);
    assert_eq!(
        runtime_subdirs(&root),
        vec![
            "/home/u/.dragon-li/data",
            "/home/u/.dragon-li/memory",
            "/home/u/.dragon-li/config",
            "/home/u/.dragon-li/logs",
            "/home/u/.dragon-li/backups",
            "/home/u/.dragon-li/run",
        ]
    );
}

#[test]
fn runtime_errors_and_api_errors() {
    assert_eq!(RuntimeError::HomeDirMissing.message(), "home directory not found");
    assert_eq!(RuntimeError::AgentScriptMissing("x".to_string()).message(), "agent script is missing: x");
    assert_eq!(RuntimeError::Io("disk".to_string()).message(), "io error: disk");
    let e = ApiError::new("DB_BUSY", "busy".to_string());
    assert_eq!((e.code.as_str(), e.message.as_str()), ("DB_BUSY", "busy"));
}

#[test]
fn database_lives_under_data() {
    assert_eq!(default_db_path("/home/u/.dragon-li"), "/home/u/.dragon-li/data/dragon_li.db");
    let store = SqliteStore::new(default_db_path("/r"));
    assert_eq!(store.db_path(), "/r/data/dragon_li.db");
}

#[test]
fn busy_writes_are_retried_twice() {
    assert_eq!(busy_retry_backoff(0, true), Some(500));
    assert_eq!(busy_retry_backoff(1, true), Some(1500));
    assert_eq!(busy_retry_backoff(2, true), None);
    assert_eq!(busy_retry_backoff(0, false), None);
}

#[test]
fn write_errors_tell_busy_apart() {
    assert!(matches!(write_error(true, "locked".to_string()), StoreError::DbBusy(m) if m == "locked"));
    assert!(matches!(write_error(false, "constraint".to_string()), StoreError::DbWriteFailed(_)));
    assert_eq!(StoreError::DbBusy("database is locked".to_string()).message(), "DB_BUSY: database is locked");
    assert_eq!(StoreError::SessionNotFound("s".to_string()).message(), "SESSION_NOT_FOUND: s");
}

#[test]
fn old_connector_table_is_dropped() {
    assert!(should_drop_mcp_connectors(&vec!["id".to_string(), "endpoint".to_string()]));
    assert!(!should_drop_mcp_connectors(&vec!["id".to_string(), "mcp_type".to_string()]));
}

#[test]
fn title_updates_without_row_mean_missing_session() {
    let e = title_update_error(StoreError::DbWriteFailed("QueryReturnedNoRows".to_string()), "s9");
    assert!(matches!(e, StoreError::SessionNotFound(s) if s == "s9"));
    let e = title_update_error(StoreError::DbWriteFailed("Query returned no rows".to_string()), "s9");
    assert!(matches!(e, StoreError::DbWriteFailed(_)));
    let e = title_update_error(StoreError::DbBusy("x".to_string()), "s9");
    assert!(matches!(e, StoreError::DbBusy(_)));
}

#[test]
fn creates_runtime_subdirs() {
    let root = "/tmp/dragon-li-runtime-test";
    let dirs = runtime_subdirs(root);
    for sub in runtime_subdir_names() {
        assert!(dirs.contains(&format!("{root}/{sub}")), "missing subdir: {sub}");
    }
}
