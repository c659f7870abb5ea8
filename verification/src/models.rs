//! Data model: log entries, severity levels, device log requests and the
//! request/response shapes of the collection protocol.
//!
//! Timestamps are milliseconds since the Unix epoch (UTC); request and user
//! identifiers are 128-bit values.

use vstd::prelude::*;
use crate::text::{eq_ic, eq_ignore_case};

verus! {

/// One key/value pair of free-form entry metadata.
pub struct MetaPair {
    pub key: String,
    pub value: String,
}

impl View for MetaPair {
    type V = (Seq<char>, Seq<char>);

    open spec fn view(&self) -> (Seq<char>, Seq<char>) {
        (self.key@, self.value@)
    }
}

impl Clone for MetaPair {
    fn clone(&self) -> (r: Self)
        ensures
            r@ == self@,
    {
        MetaPair { key: self.key.clone(), value: self.value.clone() }
    }
}

/// A received log record. Immutable once constructed.
pub struct LogEntry {
    /// Caller-supplied identifier; not validated as unique.
    pub id: String,
    /// When the log was created, in milliseconds since the Unix epoch.
    pub timestamp: i64,
    /// Severity as an open string (trace, debug, info, notice, warning,
    /// error, critical); unrecognized values rank as "info".
    pub level: String,
    /// Free-text message.
    pub message: String,
    /// Authenticated user, if any.
    pub user_id: Option<String>,
    /// Persistent device identifier.
    pub device_id: String,
    /// Source identifier, e.g. "cli".
    pub source: String,
    /// Unordered key/value metadata.
    pub metadata: Vec<MetaPair>,
    /// Ordered categorization tags.
    pub tags: Vec<String>,
    /// Source file path.
    pub file: String,
    /// Function name.
    pub function: String,
    /// Line number.
    pub line: u32,
}

/// Mathematical image of a `LogEntry`.
#[verifier::ext_equal]
pub ghost struct LogEntryV {
    pub id: Seq<char>,
    pub timestamp: i64,
    pub level: Seq<char>,
    pub message: Seq<char>,
    pub user_id: Option<Seq<char>>,
    pub device_id: Seq<char>,
    pub source: Seq<char>,
    pub metadata: Seq<(Seq<char>, Seq<char>)>,
    pub tags: Seq<Seq<char>>,
    pub file: Seq<char>,
    pub function: Seq<char>,
    pub line: u32,
}

impl View for LogEntry {
    type V = LogEntryV;

    open spec fn view(&self) -> LogEntryV {
        LogEntryV {
            id: self.id@,
            timestamp: self.timestamp,
            level: self.level@,
            message: self.message@,
            user_id: match self.user_id {
                Some(u) => Some(u@),
                None => None,
            },
            device_id: self.device_id@,
            source: self.source@,
            metadata: self.metadata@.map_values(|p: MetaPair| p@),
            tags: self.tags@.map_values(|t: String| t@),
            file: self.file@,
            function: self.function@,
            line: self.line,
        }
    }
}

fn clone_opt_string(v: &Option<String>) -> (r: Option<String>)
    ensures
        match (v, &r) {
            (Some(a), Some(b)) => a@ == b@,
            (None, None) => true,
            _ => false,
        },
{
    match v {
        Some(s) => Some(s.clone()),
        None => None,
    }
}

fn clone_meta(v: &Vec<MetaPair>) -> (r: Vec<MetaPair>)
    ensures
        r@.map_values(|p: MetaPair| p@) == v@.map_values(|p: MetaPair| p@),
{
    let mut r: Vec<MetaPair> = Vec::new();
    let mut i: usize = 0;
    while i < v.len()
        invariant
            i <= v@.len(),
            r@.len() == i,
            forall|j: int| 0 <= j < i ==> r@[j]@ == v@[j]@,
        decreases v@.len() - i,
    {
        r.push(v[i].clone());
        i = i + 1;
    }
    proof {
        assert(r@.map_values(|p: MetaPair| p@) =~= v@.map_values(|p: MetaPair| p@));
    }
    r
}

fn clone_strings(v: &Vec<String>) -> (r: Vec<String>)
    ensures
        r@.map_values(|t: String| t@) == v@.map_values(|t: String| t@),
        r@ == v@,
{
    let mut r: Vec<String> = Vec::new();
    let mut i: usize = 0;
    while i < v.len()
        invariant
            i <= v@.len(),
            r@.len() == i,
            forall|j: int| 0 <= j < i ==> r@[j] == v@[j],
        decreases v@.len() - i,
    {
        r.push(v[i].clone());
        i = i + 1;
    }
    proof {
        assert(r@ =~= v@);
    }
    r
}

impl Clone for LogEntry {
    fn clone(&self) -> (r: Self)
        ensures
            r@ == self@,
    {
        LogEntry {
            id: self.id.clone(),
            timestamp: self.timestamp,
            level: self.level.clone(),
            message: self.message.clone(),
            user_id: clone_opt_string(&self.user_id),
            device_id: self.device_id.clone(),
            source: self.source.clone(),
            metadata: clone_meta(&self.metadata),
            tags: clone_strings(&self.tags),
            file: self.file.clone(),
            function: self.function.clone(),
            line: self.line,
        }
    }
}

/// Log severity levels, from least to most severe.
#[derive(Debug, Clone, Copy, PartialEq, Eq, Structural, PartialOrd, Ord)]
pub enum LogLevel {
    Trace,
    Debug,
    Info,
    Notice,
    Warning,
    Error,
    Critical,
}

/// Numeric rank of a level; higher means more severe.
pub open spec fn spec_rank(l: LogLevel) -> u8 {
    match l {
        LogLevel::Trace => 0,
        LogLevel::Debug => 1,
        LogLevel::Info => 2,
        LogLevel::Notice => 3,
        LogLevel::Warning => 4,
        LogLevel::Error => 5,
        LogLevel::Critical => 6,
    }
}

/// The level a severity string names, up to ASCII case; anything
/// unrecognized ranks as `Info`.
pub open spec fn spec_level_of(s: Seq<char>) -> LogLevel {
    if eq_ic(s, "trace"@) {
        LogLevel::Trace
    } else if eq_ic(s, "debug"@) {
        LogLevel::Debug
    } else if eq_ic(s, "info"@) {
        LogLevel::Info
    } else if eq_ic(s, "notice"@) {
        LogLevel::Notice
    } else if eq_ic(s, "warning"@) {
        LogLevel::Warning
    } else if eq_ic(s, "error"@) {
        LogLevel::Error
    } else if eq_ic(s, "critical"@) {
        LogLevel::Critical
    } else {
        LogLevel::Info
    }
}

/// The canonical lower-case name of a level.
pub open spec fn spec_level_str(l: LogLevel) -> Seq<char> {
    match l {
        LogLevel::Trace => "trace"@,
        LogLevel::Debug => "debug"@,
        LogLevel::Info => "info"@,
        LogLevel::Notice => "notice"@,
        LogLevel::Warning => "warning"@,
        LogLevel::Error => "error"@,
        LogLevel::Critical => "critical"@,
    }
}

impl LogLevel {
    /// Numeric rank of this level; higher means more severe.
    pub fn rank(&self) -> (r: u8)
        ensures
            r == spec_rank(*self),
    {
        match self {
            LogLevel::Trace => 0,
            LogLevel::Debug => 1,
            LogLevel::Info => 2,
            LogLevel::Notice => 3,
            LogLevel::Warning => 4,
            LogLevel::Error => 5,
            LogLevel::Critical => 6,
        }
    }

    /// Parse a level from its name, ignoring ASCII case; unrecognized
    /// strings parse as `Info`.
    pub fn from_str(s: &str) -> (r: Self)
        ensures
            r == spec_level_of(s@),
    {
        if eq_ignore_case(s, "trace") {
            LogLevel::Trace
        } else if eq_ignore_case(s, "debug") {
            LogLevel::Debug
        } else if eq_ignore_case(s, "info") {
            LogLevel::Info
        } else if eq_ignore_case(s, "notice") {
            LogLevel::Notice
        } else if eq_ignore_case(s, "warning") {
            LogLevel::Warning
        } else if eq_ignore_case(s, "error") {
            LogLevel::Error
        } else if eq_ignore_case(s, "critical") {
            LogLevel::Critical
        } else {
            LogLevel::Info
        }
    }

    /// The canonical lower-case name of this level.
    pub fn as_str(&self) -> (r: &'static str)
        ensures
            r@ == spec_level_str(*self),
    {
        match self {
            LogLevel::Trace => "trace",
            LogLevel::Debug => "debug",
            LogLevel::Info => "info",
            LogLevel::Notice => "notice",
            LogLevel::Warning => "warning",
            LogLevel::Error => "error",
            LogLevel::Critical => "critical",
        }
    }
}

/// Status of a device log request.
#[derive(Debug, Clone, Copy, PartialEq, Eq, Structural)]
pub enum LogRequestStatus {
    /// Waiting for the device to upload logs.
    Pending,
    /// Logs were uploaded.
    Fulfilled,
    /// The time-to-live elapsed before fulfillment.
    Expired,
    /// The request was cancelled.
    Cancelled,
}

/// A device log request tracked by the lifecycle manager.
pub struct LogRequest {
    /// Unique request identifier.
    pub id: u128,
    /// User who owns the request.
    pub user_id: u128,
    /// Device the logs are requested from.
    pub device_id: String,
    /// Creation time, milliseconds since the Unix epoch.
    pub requested_at: i64,
    /// Expiry time: creation time plus the fixed time-to-live.
    pub expires_at: i64,
    /// Current status.
    pub status: LogRequestStatus,
    /// When the request was fulfilled, if it was.
    pub fulfilled_at: Option<i64>,
    /// Where the uploaded logs were stored, if fulfilled.
    pub log_file_path: Option<String>,
}

/// Mathematical image of a `LogRequest`.
#[verifier::ext_equal]
pub ghost struct LogRequestV {
    pub id: u128,
    pub user_id: u128,
    pub device_id: Seq<char>,
    pub requested_at: i64,
    pub expires_at: i64,
    pub status: LogRequestStatus,
    pub fulfilled_at: Option<i64>,
    pub log_file_path: Option<Seq<char>>,
}

impl View for LogRequest {
    type V = LogRequestV;

    open spec fn view(&self) -> LogRequestV {
        LogRequestV {
            id: self.id,
            user_id: self.user_id,
            device_id: self.device_id@,
            requested_at: self.requested_at,
            expires_at: self.expires_at,
            status: self.status,
            fulfilled_at: self.fulfilled_at,
            log_file_path: match self.log_file_path {
                Some(p) => Some(p@),
                None => None,
            },
        }
    }
}

impl Clone for LogRequest {
    fn clone(&self) -> (r: Self)
        ensures
            r@ == self@,
    {
        LogRequest {
            id: self.id,
            user_id: self.user_id,
            device_id: self.device_id.clone(),
            requested_at: self.requested_at,
            expires_at: self.expires_at,
            status: self.status,
            fulfilled_at: self.fulfilled_at,
            log_file_path: clone_opt_string(&self.log_file_path),
        }
    }
}

/// Answer to a device polling for a pending request.
#[derive(Debug, Clone, PartialEq, Eq)]
pub struct LogPollResponse {
    /// The pending request's identifier, in canonical hyphenated form.
    pub request_id: String,
    /// Creation time, RFC 3339.
    pub requested_at: String,
    /// Expiry time, RFC 3339.
    pub expires_at: String,
}

/// Body of a device's log upload.
pub struct LogUploadRequest {
    /// Identifier of the request this upload claims to fulfill, in
    /// canonical hyphenated form.
    pub request_id: String,
    /// The uploading device.
    pub device_id: String,
    /// The uploaded entries.
    pub logs: Vec<LogEntry>,
    /// Timestamp of the earliest uploaded entry.
    pub from_timestamp: String,
    /// Timestamp of the latest uploaded entry.
    pub to_timestamp: String,
    /// Number of uploaded entries.
    pub total_count: usize,
}

/// Description of one persisted upload.
#[derive(Debug)]
pub struct LogUploadMetadata {
    /// The fulfilled request's identifier.
    pub request_id: String,
    /// The uploading device.
    pub device_id: String,
    /// When the upload was received, RFC 3339.
    pub uploaded_at: String,
    /// Number of persisted entries.
    pub log_count: usize,
    /// Size of the persisted file in bytes.
    pub file_size_bytes: u64,
}

/// Request lifecycle errors.
#[derive(Debug, Clone, Copy, PartialEq, Eq, Structural)]
pub enum RequestError {
    /// No tracked request has the given identity.
    NotFound,
    /// The request exists but is no longer pending.
    AlreadyProcessed,
}

/// Counts of tracked requests by effective status.
#[derive(Debug, Clone, Copy, PartialEq, Eq, Structural)]
pub struct RequestStats {
    pub total: usize,
    pub pending: usize,
    pub fulfilled: usize,
    pub expired: usize,
    pub cancelled: usize,
}

impl Default for RequestStats {
    fn default() -> (r: Self)
        ensures
            r.total == 0 && r.pending == 0 && r.fulfilled == 0 && r.expired == 0
                && r.cancelled == 0,
    {
        RequestStats { total: 0, pending: 0, fulfilled: 0, expired: 0, cancelled: 0 }
    }
}

/// Storage collaborator errors.
#[derive(Debug, Clone, PartialEq, Eq)]
pub enum StorageError {
    /// An input/output failure, with a description.
    IoError(String),
    /// A serialization or parse failure, with a description.
    SerializationError(String),
    /// The requested upload file does not exist.
    NotFound,
}

/// Claims carried by an authentication token.
#[derive(Debug, Clone)]
pub struct Claims {
    /// Subject: the user identifier, in canonical hyphenated form.
    pub sub: String,
    /// Expiration time, Unix seconds.
    pub exp: i64,
    /// Issued-at time, Unix seconds.
    pub iat: i64,
}

/// Token validation errors.
#[derive(Debug)]
pub enum JwtError {
    /// The verification key could not be loaded.
    KeyLoadError(String),
    /// The token failed validation.
    InvalidToken(String),
    /// The token's subject is not a well-formed user identifier.
    InvalidUserId(String),
}

/// Body of a request-creation call.
pub struct CreateRequestBody {
    pub device_id: String,
}

/// Query of a poll call.
pub struct PollQuery {
    pub device_id: String,
}

/// Server configuration.
#[derive(Debug, Clone)]
pub struct Config {
    /// Port to listen on.
    pub port: u16,
    /// Buffer capacity in entries.
    pub capacity: usize,
    /// Whether to show file/line metadata on the terminal.
    pub verbose: bool,
    /// Directory for persisted uploads.
    pub upload_dir: String,
    /// Path to the token verification key, if authentication is enabled.
    pub jwt_public_key_path: Option<String>,
}

/// Whether a configuration string turns a flag on: `1`, or `true` in any
/// ASCII case.
pub fn flag_enabled(s: &str) -> (r: bool)
    ensures
        r == (s@ == "1"@ || eq_ic(s@, "true"@)),
{
    crate::text::str_eq(s, "1") || eq_ignore_case(s, "true")
}

impl Default for Config {
    fn default() -> (r: Self)
        ensures
            r.port == 9006,
            r.capacity == 10000,
            !r.verbose,
            r.upload_dir@ == "./uploads"@,
            r.jwt_public_key_path matches None,
    {
        Config {
            port: 9006,
            capacity: 10000,
            verbose: false,
            upload_dir: "./uploads".to_owned(),
            jwt_public_key_path: None,
        }
    }
}

} // verus!
