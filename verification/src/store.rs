//! The records of the local database, its errors, where it lives, and the
//! rules by which a busy database is retried.
use vstd::prelude::*;
use vstd::string::*;
use crate::paths::{join_path, path_join};
use crate::text::{contains, owned, same_text, str_contains};

verus! {

/// Why a database operation failed.
#[derive(Debug)]
pub enum StoreError {
    DbInitFailed(String),
    DbBusy(String),
    DbWriteFailed(String),
    DbReadFailed(String),
    SessionNotFound(String),
}

/// The code and the detail of a database error.
pub open spec fn store_error_parts(e: StoreError) -> (Seq<char>, Seq<char>) {
    match e {
        StoreError::DbInitFailed(m) => ("DB_INIT_FAILED"@, m@),
        StoreError::DbBusy(m) => ("DB_BUSY"@, m@),
        StoreError::DbWriteFailed(m) => ("DB_WRITE_FAILED"@, m@),
        StoreError::DbReadFailed(m) => ("DB_READ_FAILED"@, m@),
        StoreError::SessionNotFound(m) => ("SESSION_NOT_FOUND"@, m@),
    }
}

impl StoreError {
    /// The text of the error: its code, a colon, a space and the detail.
    pub fn message(&self) -> (r: String)
        ensures
            r@ == store_error_parts(*self).0 + ": "@ + store_error_parts(*self).1,
    {
        let (code, detail) = match self {
            StoreError::DbInitFailed(m) => ("DB_INIT_FAILED", m),
            StoreError::DbBusy(m) => ("DB_BUSY", m),
            StoreError::DbWriteFailed(m) => ("DB_WRITE_FAILED", m),
            StoreError::DbReadFailed(m) => ("DB_READ_FAILED", m),
            StoreError::SessionNotFound(m) => ("SESSION_NOT_FOUND", m),
        };
        let mut r = owned(code);
        r.append(": ");
        r.append(detail.as_str());
        r
    }
}

/// A chat session as stored.
#[derive(Clone, Debug)]
pub struct SessionRecord {
    pub id: String,
    pub title: String,
    pub status: String,
    pub default_provider: Option<String>,
    pub default_model: Option<String>,
    pub created_at: String,
    pub updated_at: String,
    pub deleted_at: Option<String>,
}

/// A chat session to store.
#[derive(Clone, Debug)]
pub struct NewSession {
    pub id: String,
    pub title: String,
    pub status: String,
    pub default_provider: Option<String>,
    pub default_model: Option<String>,
    pub created_at: String,
    pub updated_at: String,
}

/// A chat message as stored.
#[derive(Clone, Debug)]
pub struct MessageRecord {
    pub id: String,
    pub session_id: String,
    pub role: String,
    pub content_md: String,
    pub reasoning_md: Option<String>,
    pub provider: Option<String>,
    pub model: Option<String>,
    pub tokens_in: Option<i64>,
    pub tokens_out: Option<i64>,
    pub latency_ms: Option<i64>,
    pub parent_message_id: Option<String>,
    pub status: String,
    pub error_code: Option<String>,
    pub error_message: Option<String>,
    pub retryable: Option<i64>,
    pub created_at: String,
    pub deleted_at: Option<String>,
    pub explicit_skill_id: Option<String>,
}

/// A chat message to store.
#[derive(Clone, Debug)]
pub struct NewMessage {
    pub id: String,
    pub session_id: String,
    pub role: String,
    pub content_md: String,
    pub reasoning_md: Option<String>,
    pub provider: Option<String>,
    pub model: Option<String>,
    pub tokens_in: Option<i64>,
    pub tokens_out: Option<i64>,
    pub latency_ms: Option<i64>,
    pub parent_message_id: Option<String>,
    pub status: String,
    pub error_code: Option<String>,
    pub error_message: Option<String>,
    pub retryable: Option<i64>,
    pub created_at: String,
    pub explicit_skill_id: Option<String>,
}

/// The log row of a chat request, as stored.
#[derive(Clone, Debug)]
pub struct RequestLogRecord {
    pub id: String,
    pub request_id: String,
    pub session_id: Option<String>,
    pub provider: Option<String>,
    pub model: Option<String>,
    pub status: String,
    pub latency_ms: Option<i64>,
    pub tokens_in: Option<i64>,
    pub tokens_out: Option<i64>,
    pub error_code: Option<String>,
    pub created_at: String,
}

/// The log row of a chat request, to store.
#[derive(Clone, Debug)]
pub struct NewRequestLog {
    pub id: String,
    pub request_id: String,
    pub session_id: Option<String>,
    pub provider: Option<String>,
    pub model: Option<String>,
    pub status: String,
    pub latency_ms: Option<i64>,
    pub tokens_in: Option<i64>,
    pub tokens_out: Option<i64>,
    pub error_code: Option<String>,
    pub created_at: String,
}

/// How many rows a soft delete or a restore of a session touched.
#[derive(Clone, Copy, Debug)]
pub struct DeleteRestoreResult {
    pub sessions_affected: usize,
    pub messages_affected: usize,
    pub memory_candidates_affected: usize,
}

/// An MCP connector as stored.
#[derive(Clone, Debug)]
pub struct McpConnectorRecord {
    pub id: String,
    pub name: String,
    pub mcp_type: String,
    pub status: String,
    pub config_content: String,
    pub created_at: String,
    pub updated_at: String,
    pub deleted_at: Option<String>,
}

/// An MCP connector to store.
#[derive(Clone, Debug)]
pub struct NewMcpConnector {
    pub id: String,
    pub name: String,
    pub mcp_type: String,
    pub status: String,
    pub config_content: String,
    pub created_at: String,
    pub updated_at: String,
}

/// A capability (a skill) as stored; `capability_type` is its `type` column.
#[derive(Clone, Debug)]
pub struct CapabilityRecord {
    pub id: String,
    pub capability_type: String,
    pub name: String,
    pub description: Option<String>,
    pub input_schema_json: Option<String>,
    pub risk_level: String,
    pub enabled: bool,
    pub created_at: String,
    pub updated_at: String,
    pub deleted_at: Option<String>,
}

/// The local database, by the path of its file.
#[derive(Clone, Debug)]
pub struct SqliteStore {
    db_path: String,
}

impl SqliteStore {
    pub fn new(db_path: String) -> (r: SqliteStore)
        ensures
            r.path_view() == db_path@,
    {
        SqliteStore { db_path }
    }

    pub closed spec fn path_view(&self) -> Seq<char> {
        self.db_path@
    }

    /// The path of the database file.
    pub fn db_path(&self) -> (r: &str)
        ensures
            r@ == self.path_view(),
    {
        self.db_path.as_str()
    }
}

/// `<runtime_root>/data/dragon_li.db`
pub open spec fn spec_default_db_path(runtime_root: Seq<char>) -> Seq<char> {
    path_join(path_join(runtime_root, "data"@), "dragon_li.db"@)
}

/// Where the database of a runtime directory lives.
pub fn default_db_path(runtime_root: &str) -> (r: String)
    ensures
        r@ == spec_default_db_path(runtime_root@),
{
    let d = join_path(runtime_root, "data");
    join_path(d.as_str(), "dragon_li.db")
}

/// How many times a write that found the database busy is tried again.
pub const MAX_DB_BUSY_RETRIES: usize = 2;

/// The wait before the next try of a write, in milliseconds, after `retries`
/// earlier retries; `None` when the write is not tried again: it did not fail for
/// a busy or locked database, or it was retried twice already.
pub open spec fn busy_retry_delay(retries: nat, busy: bool) -> Option<nat> {
    if busy && retries < MAX_DB_BUSY_RETRIES {
        Some(if retries == 0 {
            500
        } else {
            1500
        })
    } else {
        None
    }
}

pub fn busy_retry_backoff(retries: usize, busy: bool) -> (r: Option<u64>)
    ensures
        match r {
            Some(d) => busy_retry_delay(retries as nat, busy) == Some(d as nat),
            None => busy_retry_delay(retries as nat, busy) is None,
        },
{
    if busy && retries < MAX_DB_BUSY_RETRIES {
        if retries == 0 {
            Some(500)
        } else {
            Some(1500)
        }
    } else {
        None
    }
}

/// A write that keeps failing because the database is busy is tried three times
/// in all, and the waits between the tries come to two seconds.
pub proof fn law_busy_writes_are_bounded(retries: nat)
    ensures
        retries >= MAX_DB_BUSY_RETRIES ==> busy_retry_delay(retries, true) is None,
        busy_retry_delay(0, true) == Some(500nat),
        busy_retry_delay(1, true) == Some(1500nat),
        busy_retry_delay(retries, false) is None,
{
}

/// The error a failed write gives: `DbBusy` when the database was busy or
/// locked, `DbWriteFailed` otherwise, with the database's own text.
pub fn write_error(busy: bool, text: String) -> (r: StoreError)
    ensures
        busy ==> r == StoreError::DbBusy(text),
        !busy ==> r == StoreError::DbWriteFailed(text),
{
    if busy {
        StoreError::DbBusy(text)
    } else {
        StoreError::DbWriteFailed(text)
    }
}

/// The old form of the connectors table has an `endpoint` column; a table in
/// that form is dropped, to be made again in the current form.
pub fn should_drop_mcp_connectors(columns: &Vec<String>) -> (r: bool)
    ensures
        r == exists|k: int| 0 <= k < columns@.len() && #[trigger] columns@[k]@ == "endpoint"@,
{
    let mut j: usize = 0;
    while j < columns.len()
        invariant
            j <= columns.len(),
            forall|k: int| 0 <= k < j ==> #[trigger] columns@[k]@ != "endpoint"@,
        decreases columns.len() - j,
    {
        if same_text(columns[j].as_str(), "endpoint") {
            return true;
        }
        j = j + 1;
    }
    false
}

/// The error a title update gives: a write that found no row of the session
/// (its text names `QueryReturnedNoRows`) means the session is not there.
pub fn title_update_error(err: StoreError, session_id: &str) -> (r: StoreError)
    ensures
        match err {
            StoreError::DbWriteFailed(m) => if contains(m@, "QueryReturnedNoRows"@) {
                r matches StoreError::SessionNotFound(s) && s@ == session_id@
            } else {
                r == err
            },
            _ => r == err,
        },
{
    match err {
        StoreError::DbWriteFailed(m) => {
            if str_contains(m.as_str(), "QueryReturnedNoRows") {
                StoreError::SessionNotFound(owned(session_id))
            } else {
                StoreError::DbWriteFailed(m)
            }
        },
        other => other,
    }
}

} // verus!
