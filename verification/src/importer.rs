//! Type definitions for the Zed agent thread database schema.
//!
//! Storage format: Zstd-compressed JSON (compression level 3) in a SQLite `threads` table.
//! Current JSON version: `0.3.0`
//! Current Zed version: `0.225.9`
//!
//! Table schema:
//! ```sql
//! CREATE TABLE IF NOT EXISTS threads (
//!     id        TEXT PRIMARY KEY,
//!     parent_id TEXT,
//!     summary   TEXT NOT NULL,
//!     updated_at TEXT NOT NULL,
//!     data_type  TEXT NOT NULL,   -- "json" | "zstd"
//!     data       BLOB NOT NULL
//! );
//! ```
use crate::json;
use crate::json::JsonValue;
use crate::text;
use crate::timestamp::Timestamp;
use vstd::prelude::*;
use vstd::string::*;

verus! {

// ---------------------------------------------------------------------------
// Primitive / ID types
// ---------------------------------------------------------------------------
/// Opaque session identifier.
#[derive(Debug, Clone, PartialEq, Eq, Hash)]
pub struct SessionId(String);

impl View for SessionId {
    type V = Seq<char>;

    closed spec fn view(&self) -> Seq<char> {
        self.0@
    }
}

impl SessionId {
    pub fn new(id: String) -> (r: Self)
        ensures
            r@ == id@,
    {
        SessionId(id)
    }

    /// The identifier as text.
    pub fn to_string(&self) -> (r: String)
        ensures
            r@ == self@,
    {
        self.0.clone()
    }
}

/// A lower-case hexadecimal digit.
pub open spec fn is_lower_hex(c: char) -> bool {
    '0' <= c <= '9' || 'a' <= c <= 'f'
}

/// The text of a random (version 4) UUID: groups of 8, 4, 4, 4 and 12 hexadecimal digits joined by
/// hyphens, with the version and the variant in their places.
pub open spec fn is_uuid_v4(s: Seq<char>) -> bool {
    &&& s.len() == 36
    &&& s[8] == '-' && s[13] == '-' && s[18] == '-' && s[23] == '-'
    &&& forall|i: int|
        0 <= i < 36 && i != 8 && i != 13 && i != 18 && i != 23 ==> is_lower_hex(#[trigger] s[i])
    &&& s[14] == '4'
    &&& s[19] == '8' || s[19] == '9' || s[19] == 'a' || s[19] == 'b'
}

/// Calls `uuid::Uuid::new_v4` and writes the UUID down in its hyphenated form. Which UUID it is, is
/// left to chance.
#[verifier::external_body]
fn random_uuid() -> (r: String)
    ensures
        is_uuid_v4(r@),
{
    uuid::Uuid::new_v4().to_string()
}

/// ID for a user-submitted message (one per Enter press).
#[derive(Debug, Clone, PartialEq, Eq, PartialOrd, Ord, Hash)]
pub struct UserMessageId(String);

impl View for UserMessageId {
    type V = Seq<char>;

    closed spec fn view(&self) -> Seq<char> {
        self.0@
    }
}

impl UserMessageId {
    /// A fresh ID.
    pub fn new() -> (r: Self)
        ensures
            is_uuid_v4(r@),
    {
        UserMessageId(random_uuid())
    }

    /// The ID that a stored message has.
    pub fn stored(id: String) -> (r: Self)
        ensures
            r@ == id@,
    {
        UserMessageId(id)
    }

    /// The ID as text.
    pub fn as_str(&self) -> (r: &str)
        ensures
            r@ == self@,
    {
        self.0.as_str()
    }
}

impl Default for UserMessageId {
    fn default() -> (r: Self)
        ensures
            is_uuid_v4(r@),
    {
        UserMessageId::new()
    }
}

/// ID for a tool use invocation.
#[derive(Debug, Clone, PartialEq, Eq, Hash)]
pub struct LanguageModelToolUseId(String);

impl View for LanguageModelToolUseId {
    type V = Seq<char>;

    closed spec fn view(&self) -> Seq<char> {
        self.0@
    }
}

impl LanguageModelToolUseId {
    pub fn as_str(&self) -> (r: &str)
        ensures
            r@ == self@,
    {
        self.0.as_str()
    }

    /// The ID as text.
    pub fn to_string(&self) -> (r: String)
        ensures
            r@ == self@,
    {
        self.0.clone()
    }
}

impl From<String> for LanguageModelToolUseId {
    fn from(value: String) -> (r: Self)
        ensures
            r@ == value@,
    {
        LanguageModelToolUseId(value)
    }
}

impl vstd::std_specs::convert::FromSpecImpl<String> for LanguageModelToolUseId {
    open spec fn obeys_from_spec() -> bool {
        true
    }

    closed spec fn from_spec(value: String) -> Self {
        LanguageModelToolUseId(value)
    }
}

/// Profile identifier (kebab-cased string, e.g. `"write"`).
#[derive(Debug, Clone, PartialEq, Eq, Hash)]
pub struct AgentProfileId(String);

impl View for AgentProfileId {
    type V = Seq<char>;

    closed spec fn view(&self) -> Seq<char> {
        self.0@
    }
}

impl AgentProfileId {
    /// The profile that a stored thread names.
    pub fn stored(id: String) -> (r: Self)
        ensures
            r@ == id@,
    {
        AgentProfileId(id)
    }

    pub fn as_str(&self) -> (r: &str)
        ensures
            r@ == self@,
    {
        self.0.as_str()
    }

    /// The identifier as text.
    pub fn to_string(&self) -> (r: String)
        ensures
            r@ == self@,
    {
        self.0.clone()
    }
}

impl Default for AgentProfileId {
    fn default() -> (r: Self)
        ensures
            r@ == "write"@,
    {
        AgentProfileId("write".to_owned())
    }
}

// ---------------------------------------------------------------------------
// Role
// ---------------------------------------------------------------------------
/// Conversation turn role.
#[derive(Clone, Copy, Debug, PartialEq, Eq, Hash)]
pub enum Role {
    User,
    Assistant,
    System,
}

// ---------------------------------------------------------------------------
// Token usage
// ---------------------------------------------------------------------------
/// Token counts for a single LLM request/response pair.
///
/// All fields default to 0 and are omitted from JSON when zero.
#[derive(Debug, Clone, Copy, Default, PartialEq)]
pub struct TokenUsage {
    pub input_tokens: u64,
    pub output_tokens: u64,
    pub cache_creation_input_tokens: u64,
    pub cache_read_input_tokens: u64,
}

/// Whether a count may be left out of a document.
pub fn is_zero_u64(v: &u64) -> (r: bool)
    ensures
        r == (*v == 0),
{
    *v == 0
}

// ---------------------------------------------------------------------------
// Images
// ---------------------------------------------------------------------------
/// A base64-encoded PNG image, optionally annotated with its pixel dimensions.
///
/// The `source` field contains raw base64 bytes (no `data:` prefix).
#[derive(Clone, PartialEq, Eq, Hash)]
pub struct LanguageModelImage {
    /// Base64-encoded PNG bytes (no `data:image/png;base64,` prefix).
    pub source: String,
    pub size: Option<ImageSize>,
}

/// Pixel dimensions of an image (device pixels).
#[derive(Debug, Clone, Copy, PartialEq, Eq, Hash)]
pub struct ImageSize {
    pub width: i32,
    pub height: i32,
}

/// How a size is shown to a developer.
pub open spec fn size_text(size: Option<ImageSize>) -> Seq<char> {
    match size {
        Some(s) => "Some(ImageSize { width: "@ + text::signed_decimal(s.width as int)
            + ", height: "@ + text::signed_decimal(s.height as int) + " })"@,
        None => "None"@,
    }
}

impl LanguageModelImage {
    /// The image as it is shown to a developer: its size, and in place of the bytes their number.
    pub fn debug_text(&self) -> (r: String)
        ensures
            r@ == "LanguageModelImage { source: \"<"@ + text::decimal(
                text::byte_len(self.source@),
            ) + " bytes>\", size: "@ + size_text(self.size) + " }"@,
    {
        let mut out = "LanguageModelImage { source: \"<".to_owned();
        text::push_decimal(&mut out, self.source.as_str().as_bytes().len() as u64);
        out.append(" bytes>\", size: ");
        match self.size {
            Some(s) => {
                let ghost before = out@;
                out.append("Some(ImageSize { width: ");
                text::push_signed_decimal(&mut out, s.width);
                out.append(", height: ");
                text::push_signed_decimal(&mut out, s.height);
                out.append(" })");
                assert(out@ =~= before + size_text(self.size));
            },
            None => {
                out.append("None");
            },
        }
        out.append(" }");
        out
    }
}

// ---------------------------------------------------------------------------
// Tool use / results
// ---------------------------------------------------------------------------
/// A single tool invocation emitted by the model.
#[derive(Debug, PartialEq, Eq, Hash)]
pub struct LanguageModelToolUse {
    pub id: LanguageModelToolUseId,
    pub name: String,
    /// Raw JSON string as received from the model.
    pub raw_input: String,
    /// Parsed JSON input.
    pub input: JsonValue,
    pub is_input_complete: bool,
    /// Extended thinking signature (Anthropic-specific). Must be echoed back in history.
    pub thought_signature: Option<String>,
}

/// The content of a tool result, either text or an image.
#[derive(Clone, PartialEq, Eq, Hash)]
pub enum LanguageModelToolResultContent {
    Text(String),
    Image(LanguageModelImage),
}

/// The contents of a [`LanguageModelToolResultContent`].
pub enum ToolResultContent {
    Text(Seq<char>),
    Image(Seq<char>, Option<ImageSize>),
}

impl View for LanguageModelToolResultContent {
    type V = ToolResultContent;

    open spec fn view(&self) -> ToolResultContent {
        match self {
            LanguageModelToolResultContent::Text(s) => ToolResultContent::Text(s@),
            LanguageModelToolResultContent::Image(i) => ToolResultContent::Image(
                i.source@,
                i.size,
            ),
        }
    }
}

/// The low 32 bits of an integer, as a signed number.
pub open spec fn low_word(n: i64) -> i32 {
    let m = (n as int) % 0x1_0000_0000;
    if m < 0x8000_0000 {
        m as i32
    } else {
        (m - 0x1_0000_0000) as i32
    }
}

fn keep_low_word(n: i64) -> (r: i32)
    ensures
        r == low_word(n),
{
    let r: i32 = #[verifier::truncate]
    (n as i32);
    assert(n % 0x1_0000_0000i64 < 0x8000_0000 ==> r == n % 0x1_0000_0000i64) by (bit_vector)
        requires
            r == n as i32,
    ;
    assert(n % 0x1_0000_0000i64 >= 0x8000_0000 ==> r + 0x1_0000_0000 == n % 0x1_0000_0000i64)
        by (bit_vector)
        requires
            r == n as i32,
    ;
    r
}

/// The image that the fields of a JSON object describe: a `source` text, and a `size` object with
/// an integral `width` and `height`. Of several fields with the same name the last one counts.
pub open spec fn image_described(obj: Seq<(String, JsonValue)>) -> Option<(Seq<char>, ImageSize)> {
    match (
        json::as_text(json::last_named(obj, "source"@)),
        json::as_fields(json::last_named(obj, "size"@)),
    ) {
        (Some(source), Some(size)) => match (
            json::as_integer(json::last_named(size, "width"@)),
            json::as_integer(json::last_named(size, "height"@)),
        ) {
            (Some(w), Some(h)) => Some(
                (source, ImageSize { width: low_word(w), height: low_word(h) }),
            ),
            _ => None,
        },
        _ => None,
    }
}

/// The image in the one field of an object, where that field is called `image`.
pub open spec fn image_wrapped(obj: Seq<(String, JsonValue)>) -> Option<(Seq<char>, ImageSize)> {
    match json::as_fields(json::first_named(obj, "image"@)) {
        Some(inner) => if obj.len() == 1 {
            image_described(inner)
        } else {
            None
        },
        None => None,
    }
}

/// The text in an object: in `text` beside a `type` of `text`, or in `text` alone.
pub open spec fn text_in(obj: Seq<(String, JsonValue)>) -> Option<Seq<char>> {
    let txt = json::as_text(json::first_named(obj, "text"@));
    let typed = match json::as_text(json::first_named(obj, "type"@)) {
        Some(t) => json::lowercase(t) == "text"@,
        None => false,
    };
    if typed || obj.len() == 1 {
        txt
    } else {
        None
    }
}

/// The tool result content that a JSON value stands for.
///
/// Several wire formats are understood, with field names in any case:
/// - plain string
/// - `{"type": "text", "text": "..."}` (Anthropic-style)
/// - `{"text": "..."}` (single-field wrapped)
/// - wrapped image `{"image": {...}}`
/// - image object `{"source": "...", "size": {...}}`
pub open spec fn tool_result_content(value: JsonValue) -> Option<ToolResultContent> {
    match value {
        JsonValue::Text(s) => Some(ToolResultContent::Text(s@)),
        JsonValue::Object(o) => match text_in(o@) {
            Some(s) => Some(ToolResultContent::Text(s)),
            None => match image_wrapped(o@) {
                Some((source, size)) => Some(ToolResultContent::Image(source, Some(size))),
                None => match image_described(o@) {
                    Some((source, size)) => Some(ToolResultContent::Image(source, Some(size))),
                    None => None,
                },
            },
        },
        _ => None,
    }
}

/// Reads the fields of an image object.
pub fn parse_lm_image(obj: &Vec<(String, JsonValue)>) -> (r: Option<LanguageModelImage>)
    ensures
        r is Some <==> image_described(obj@) is Some,
        r matches Some(i) ==> i.size is Some && image_described(obj@) == Some(
            (i.source@, i.size->0),
        ),
{
    let source = match json::get_last(obj, "source") {
        Some(v) => match v.as_str() {
            Some(s) => s,
            None => {
                return None;
            },
        },
        None => {
            return None;
        },
    };
    let size = match json::get_last(obj, "size") {
        Some(v) => match v.as_object() {
            Some(o) => o,
            None => {
                return None;
            },
        },
        None => {
            return None;
        },
    };
    let width: i64 = match json::get_last(size, "width") {
        Some(v) => match v.as_i64() {
            Some(n) => n,
            None => {
                return None;
            },
        },
        None => {
            return None;
        },
    };
    let height: i64 = match json::get_last(size, "height") {
        Some(v) => match v.as_i64() {
            Some(n) => n,
            None => {
                return None;
            },
        },
        None => {
            return None;
        },
    };
    Some(
        LanguageModelImage {
            source: source.to_owned(),
            size: Some(
                ImageSize { width: keep_low_word(width), height: keep_low_word(height) },
            ),
        },
    )
}

/// A JSON value is not the content of a tool result.
#[derive(Debug, Clone, Copy, PartialEq, Eq)]
pub struct UnknownContent;

impl UnknownContent {
    /// The message to report, with the value's text at the end.
    pub fn message(&self, got: &str) -> (r: String)
        ensures
            r@ == "data did not match any variant of LanguageModelToolResultContent. Got: "@ + got@,
    {
        text::join("data did not match any variant of LanguageModelToolResultContent. Got: ", got)
    }
}

impl LanguageModelToolResultContent {
    /// The text in an object that wraps one.
    fn wrapped_text(obj: &Vec<(String, JsonValue)>) -> (r: Option<String>)
        ensures
            text::opt_text(r) == text_in(obj@),
    {
        let txt = match json::get_first(obj, "text") {
            Some(v) => match v.as_str() {
                Some(s) => s,
                None => {
                    return None;
                },
            },
            None => {
                return None;
            },
        };
        match json::get_first(obj, "type") {
            Some(v) => match v.as_str() {
                Some(t) => {
                    if text::same_text(t.to_lowercase().as_str(), "text") {
                        return Some(txt.to_owned());
                    }
                },
                None => {},
            },
            None => {},
        }
        if obj.len() == 1 {
            Some(txt.to_owned())
        } else {
            None
        }
    }

    /// Understands a JSON value as the content of a tool result.
    pub fn deserialize(value: &JsonValue) -> (r: Result<Self, UnknownContent>)
        ensures
            r is Ok <==> tool_result_content(*value) is Some,
            r matches Ok(c) ==> tool_result_content(*value) == Some(c@),
    {
        match value {
            JsonValue::Text(s) => Ok(LanguageModelToolResultContent::Text(s.clone())),
            JsonValue::Object(obj) => {
                match Self::wrapped_text(obj) {
                    Some(s) => {
                        return Ok(LanguageModelToolResultContent::Text(s));
                    },
                    None => {},
                }
                if obj.len() == 1 {
                    match json::get_first(obj, "image") {
                        Some(v) => match v.as_object() {
                            Some(inner) => match parse_lm_image(inner) {
                                Some(i) => {
                                    return Ok(LanguageModelToolResultContent::Image(i));
                                },
                                None => {},
                            },
                            None => {},
                        },
                        None => {},
                    }
                }
                match parse_lm_image(obj) {
                    Some(i) => Ok(LanguageModelToolResultContent::Image(i)),
                    None => Err(UnknownContent),
                }
            },
            _ => Err(UnknownContent),
        }
    }
}

/// The result of a tool invocation, associated with a specific tool use ID.
#[derive(PartialEq, Eq, Hash)]
pub struct LanguageModelToolResult {
    pub tool_use_id: LanguageModelToolUseId,
    pub tool_name: String,
    pub is_error: bool,
    pub content: LanguageModelToolResultContent,
    /// Optional structured output (debug/display purposes).
    pub output: Option<JsonValue>,
}

// ---------------------------------------------------------------------------
// Mention URIs
// ---------------------------------------------------------------------------
/// A URI that identifies context attached to a user message (@-mention).
#[allow(inconsistent_fields)]
#[derive(Debug, PartialEq, Eq, Hash)]
pub enum MentionUri {
    /// An absolute path to a file on disk.
    File { abs_path: String },
    /// A pasted image (no path; the image data is carried separately).
    PastedImage,
    /// An absolute path to a directory.
    Directory { abs_path: String },
    /// A named symbol within a file, with a line range.
    Symbol { abs_path: String, name: String, line_range: std::ops::RangeInclusive<u32> },
    /// A reference to another agent thread by session ID.
    Thread { id: SessionId, name: String },
    /// A reference to a plain-text thread stored at a local path.
    TextThread { path: String, name: String },
    /// A user-defined prompt/rule by its UUID-based ID.
    Rule { id: String, name: String },
    /// Diagnostic output (errors and/or warnings).
    Diagnostics { include_errors: bool, include_warnings: bool },
    /// A line-range selection within an optional file.
    Selection { abs_path: Option<String>, line_range: std::ops::RangeInclusive<u32> },
    /// A fetched URL, included as context.
    Fetch { url: String },
    /// A selection from a terminal buffer.
    TerminalSelection { line_count: u32 },
}

/// Diagnostics take in errors unless a document says otherwise.
pub fn default_include_errors() -> (r: bool)
    ensures
        r,
{
    true
}

// ---------------------------------------------------------------------------
// Message content
// ---------------------------------------------------------------------------
/// The content of a user message.
#[derive(PartialEq, Eq)]
pub enum UserMessageContent {
    /// Plain text typed by the user.
    Text(String),
    /// An @-mention with expanded context.
    Mention { uri: MentionUri, content: String },
    /// An image pasted or dropped into the input.
    Image(LanguageModelImage),
}

/// The content of an agent (assistant) message.
#[derive(Debug, PartialEq, Eq)]
pub enum AgentMessageContent {
    /// A prose text segment.
    Text(String),
    /// Extended thinking (visible reasoning).
    Thinking {
        text: String,
        /// Anthropic signature that must be echoed back in conversation history.
        signature: Option<String>,
    },
    /// Redacted/encrypted thinking block (Anthropic-specific).
    RedactedThinking(String),
    /// A tool invocation.
    ToolUse(LanguageModelToolUse),
}

// ---------------------------------------------------------------------------
// Messages
// ---------------------------------------------------------------------------
/// A user message, keyed by its unique ID.
#[derive(PartialEq, Eq)]
pub struct UserMessage {
    pub id: UserMessageId,
    pub content: Vec<UserMessageContent>,
}

/// An agent (assistant) message including any tool invocations and their results.
///
/// `tool_results` is an ordered map from tool use ID to result.
#[derive(Default, PartialEq, Eq)]
pub struct AgentMessage {
    pub content: Vec<AgentMessageContent>,
    /// Results keyed by tool use ID.
    pub tool_results: std::collections::BTreeMap<String, LanguageModelToolResult>,
    /// Opaque reasoning metadata (provider-specific, e.g. o1 reasoning tokens).
    pub reasoning_details: Option<JsonValue>,
}

/// A single turn in a conversation thread.
///
/// `Resume` is a synthetic user message ("Continue where you left off") injected
/// when a paused session is resumed.
#[derive(PartialEq, Eq)]
pub enum Message {
    User(UserMessage),
    Agent(AgentMessage),
    Resume,
}

// ---------------------------------------------------------------------------
// Subagent context
// ---------------------------------------------------------------------------
/// Lifecycle context carried by a subagent thread.
#[derive(Debug, Clone)]
pub struct SubagentContext {
    /// Session ID of the parent thread that spawned this subagent.
    pub parent_thread_id: SessionId,
    /// Nesting depth (0 = root agent, 1 = first-level subagent, …).
    pub depth: u8,
}

// ---------------------------------------------------------------------------
// Project snapshot
// ---------------------------------------------------------------------------
/// Snapshot of the project state at thread creation time (telemetry/context).
#[derive(Debug, Clone, PartialEq)]
pub struct ProjectSnapshot {
    pub worktree_snapshots: Vec<TelemetryWorktreeSnapshot>,
    pub timestamp: Timestamp,
}

/// Per-worktree slice of a project snapshot.
#[derive(Debug, Clone, PartialEq)]
pub struct TelemetryWorktreeSnapshot {
    pub worktree_path: String,
    pub git_state: Option<GitState>,
}

/// Git repository state captured at snapshot time.
#[derive(Debug, Clone, PartialEq)]
pub struct GitState {
    pub remote_url: Option<String>,
    pub head_sha: Option<String>,
    pub current_branch: Option<String>,
    pub diff: Option<String>,
}

// ---------------------------------------------------------------------------
// Language model identity
// ---------------------------------------------------------------------------
/// Provider + model pair recorded alongside a thread.
#[derive(Debug, Clone, PartialEq, Eq)]
pub struct SerializedLanguageModel {
    pub provider: String,
    pub model: String,
}

// ---------------------------------------------------------------------------
// Top-level DB structs
// ---------------------------------------------------------------------------
/// The full thread document stored (compressed) in the SQLite `data` column.
pub struct DbThread {
    pub title: String,
    pub messages: Vec<Message>,
    pub updated_at: Timestamp,
    /// Human-readable AI-generated detailed summary, if generated.
    pub detailed_summary: Option<String>,
    /// Snapshot of worktrees at session start.
    pub initial_project_snapshot: Option<ProjectSnapshot>,
    /// Cumulative token usage across the entire thread.
    pub cumulative_token_usage: TokenUsage,
    /// Per-user-message token usage, keyed by `UserMessageId`.
    pub request_token_usage: std::collections::HashMap<String, TokenUsage>,
    /// The language model active at save time.
    pub model: Option<SerializedLanguageModel>,
    /// The agent profile active at save time.
    pub profile: Option<AgentProfileId>,
    /// `true` when this thread was imported from an external share link.
    pub imported: bool,
    /// Present only for subagent threads.
    pub subagent_context: Option<SubagentContext>,
}

/// Lightweight row returned by `SELECT id, parent_id, summary, updated_at FROM threads`.
#[derive(Debug, Clone)]
pub struct DbThreadMetadata {
    pub id: SessionId,
    pub parent_session_id: Option<SessionId>,
    /// Displayed title / summary of the thread.
    pub title: String,
    pub updated_at: Timestamp,
}

/// The data type stored in the `data_type` SQLite column.
#[derive(Debug, Clone, PartialEq, Eq)]
pub enum DataType {
    Json,
    Zstd,
}

/// Thread document used for external sharing (exported as zstd-compressed JSON).
///
/// Versioned independently from `DbThread`.
pub struct SharedThread {
    pub title: String,
    pub messages: Vec<Message>,
    pub updated_at: Timestamp,
    pub model: Option<SerializedLanguageModel>,
    pub version: String,
}

// ---------------------------------------------------------------------------
// Legacy formats (v0.1.0 / v0.2.0) – needed to read old threads
// ---------------------------------------------------------------------------
/// Detailed-summary lifecycle state stored in legacy v0.1.0/v0.2.0 threads.
#[derive(Clone, Debug, Default, PartialEq)]
pub enum DetailedSummaryState {
    #[default]
    NotGenerated,
    Generating,
    Generated { text: String },
}

/// Sequential message ID used in legacy formats.
#[derive(Debug, Clone, Copy, PartialEq, Eq, PartialOrd, Ord, Hash)]
pub struct MessageId(pub usize);

/// A legacy message segment (text, thinking, or redacted thinking).
#[derive(Debug, Clone, PartialEq)]
pub enum SerializedMessageSegment {
    Text { text: String },
    Thinking { text: String, signature: Option<String> },
    RedactedThinking { data: String },
}

/// A legacy tool use (v0.1.0/v0.2.0).
#[derive(Debug, PartialEq)]
pub struct SerializedToolUse {
    pub id: LanguageModelToolUseId,
    pub name: String,
    pub input: JsonValue,
}

/// A legacy tool result (v0.1.0/v0.2.0).
#[derive(PartialEq)]
pub struct SerializedToolResult {
    pub tool_use_id: LanguageModelToolUseId,
    pub is_error: bool,
    pub content: LanguageModelToolResultContent,
    pub output: Option<JsonValue>,
}

/// A UI crease (collapsible section) recorded with a legacy message.
#[derive(Debug, Clone, PartialEq)]
pub struct SerializedCrease {
    pub start: usize,
    pub end: usize,
    pub icon_path: String,
    pub label: String,
}

/// A single message in the legacy (v0.1.0/v0.2.0) format.
#[derive(PartialEq)]
pub struct SerializedMessage {
    pub id: MessageId,
    pub role: Role,
    pub segments: Vec<SerializedMessageSegment>,
    pub tool_uses: Vec<SerializedToolUse>,
    pub tool_results: Vec<SerializedToolResult>,
    pub context: String,
    pub creases: Vec<SerializedCrease>,
    pub is_hidden: bool,
}

/// Complete legacy thread document (v0.2.0 / v0.1.0 after upgrade).
#[derive(PartialEq)]
pub struct SerializedThread {
    pub version: String,
    pub summary: String,
    pub updated_at: Timestamp,
    pub messages: Vec<SerializedMessage>,
    pub initial_project_snapshot: Option<ProjectSnapshot>,
    pub cumulative_token_usage: TokenUsage,
    pub request_token_usage: Vec<TokenUsage>,
    pub detailed_summary_state: DetailedSummaryState,
    pub model: Option<SerializedLanguageModel>,
    pub tool_use_limit_reached: bool,
    pub profile: Option<AgentProfileId>,
}

// ---------------------------------------------------------------------------
// Laws
// ---------------------------------------------------------------------------

/// Lower-case hexadecimal digits are 0 to 9 and a to f.
pub proof fn law_lower_hex(c: char)
    ensures
        is_lower_hex(c) <==> '0' <= c <= '9' || 'a' <= c <= 'f',
{
}

/// A random UUID has 36 characters: hexadecimal digits but for four hyphens, a 4 for its version, and
/// one of four digits for its variant.
pub proof fn law_random_uuid(s: Seq<char>, i: int)
    requires
        is_uuid_v4(s),
        0 <= i < 36,
    ensures
        s.len() == 36,
        i == 8 || i == 13 || i == 18 || i == 23 ==> s[i] == '-',
        i != 8 && i != 13 && i != 18 && i != 23 ==> '0' <= s[i] <= '9' || 'a' <= s[i] <= 'f',
        s[14] == '4',
        s[19] == '8' || s[19] == '9' || s[19] == 'a' || s[19] == 'b',
{
    if i != 8 && i != 13 && i != 18 && i != 23 {
        assert(is_lower_hex(s[i]));
    }
}

/// Keeping the low 32 bits changes a number by a multiple of 2^32, and leaves one of 32 bits alone.
pub proof fn law_low_word(n: i64)
    ensures
        (low_word(n) - n) % 0x1_0000_0000 == 0,
        -0x8000_0000 <= n < 0x8000_0000 ==> low_word(n) == n,
{
    let m = (n as int) % 0x1_0000_0000;
    assert(0 <= m < 0x1_0000_0000);
}

/// A size is shown with its width and its height.
pub proof fn law_size_text(s: ImageSize)
    ensures
        size_text(Some(s)) == "Some(ImageSize { width: "@ + text::signed_decimal(s.width as int)
            + ", height: "@ + text::signed_decimal(s.height as int) + " })"@,
        size_text(None) == "None"@,
{
}

/// What the content of a tool result holds.
pub proof fn law_content_of_a_tool_result(c: LanguageModelToolResultContent)
    ensures
        c matches LanguageModelToolResultContent::Text(s) ==> c@ == ToolResultContent::Text(s@),
        c matches LanguageModelToolResultContent::Image(i) ==> c@ == ToolResultContent::Image(
            i.source@,
            i.size,
        ),
{
}

/// A string is the text of a tool result, and values that are neither a string nor an object are no
/// tool result.
pub proof fn law_plain_tool_results(value: JsonValue)
    ensures
        value matches JsonValue::Text(s) ==> tool_result_content(value) == Some(
            ToolResultContent::Text(s@),
        ),
        !(value is Text) && !(value is Object) ==> tool_result_content(value) is None,
{
}

/// An object with a `text` is a text where that is its only field, or where its `type` says so.
pub proof fn law_text_objects(value: JsonValue, o: Vec<(String, JsonValue)>, s: String)
    requires
        value == JsonValue::Object(o),
        json::first_named(o@, "text"@) == Some(JsonValue::Text(s)),
        o@.len() == 1 || (json::first_named(o@, "type"@) matches Some(JsonValue::Text(t))
            && json::lowercase(t@) == "text"@),
    ensures
        tool_result_content(value) == Some(ToolResultContent::Text(s@)),
{
}

/// The object is no text: it has no `text`, or neither a single field nor a `type` that says so.
pub open spec fn holds_no_text(o: Seq<(String, JsonValue)>) -> bool {
    ||| !(json::first_named(o, "text"@) matches Some(JsonValue::Text(_)))
    ||| o.len() != 1 && !(json::first_named(o, "type"@) matches Some(JsonValue::Text(t))
        && json::lowercase(t@) == "text"@)
}

/// The fields describe an image: a source, and a size with a width and a height.
pub open spec fn describes(
    o: Seq<(String, JsonValue)>,
    source: Seq<char>,
    width: i64,
    height: i64,
) -> bool {
    &&& json::last_named(o, "source"@) matches Some(JsonValue::Text(s)) && s@ == source
    &&& json::last_named(o, "size"@) matches Some(JsonValue::Object(z)) && json::as_integer(
        json::last_named(z@, "width"@),
    ) == Some(width) && json::as_integer(json::last_named(z@, "height"@)) == Some(height)
}

/// An object that describes an image is one, and so is an object whose only field is such an
/// `image`. The size is kept as far as it fits.
pub proof fn law_image_objects(
    value: JsonValue,
    o: Vec<(String, JsonValue)>,
    inner: Vec<(String, JsonValue)>,
    source: Seq<char>,
    width: i64,
    height: i64,
)
    requires
        value == JsonValue::Object(o),
        holds_no_text(o@),
        describes(o@, source, width, height) && !(o@.len() == 1 && json::first_named(o@, "image"@)
            is Some) || (o@.len() == 1 && json::first_named(o@, "image"@) == Some(
            JsonValue::Object(inner),
        ) && describes(inner@, source, width, height)),
    ensures
        tool_result_content(value) == Some(
            ToolResultContent::Image(
                source,
                Some(ImageSize { width: low_word(width), height: low_word(height) }),
            ),
        ),
{
}

/// An object that holds neither a text nor an image is no tool result.
pub proof fn law_other_objects(value: JsonValue, o: Vec<(String, JsonValue)>)
    requires
        value == JsonValue::Object(o),
        holds_no_text(o@),
        forall|s: Seq<char>, w: i64, h: i64| !#[trigger] describes(o@, s, w, h),
        json::first_named(o@, "image"@) matches Some(JsonValue::Object(inner)) ==> forall|
            s: Seq<char>,
            w: i64,
            h: i64,
        | !#[trigger] describes(inner@, s, w, h),
    ensures
        tool_result_content(value) is None,
{
    match image_described(o@) {
        Some((s, z)) => {
            lemma_described(o@);
        },
        None => {},
    }
    match json::first_named(o@, "image"@) {
        Some(JsonValue::Object(inner)) => {
            if image_described(inner@) is Some {
                lemma_described(inner@);
            }
        },
        _ => {},
    }
}

proof fn lemma_described(o: Seq<(String, JsonValue)>)
    requires
        image_described(o) is Some,
    ensures
        exists|s: Seq<char>, w: i64, h: i64| #[trigger] describes(o, s, w, h),
{
    let s = json::as_text(json::last_named(o, "source"@))->0;
    let size = json::as_fields(json::last_named(o, "size"@))->0;
    let w = json::as_integer(json::last_named(size, "width"@))->0;
    let h = json::as_integer(json::last_named(size, "height"@))->0;
    assert(describes(o, s, w, h));
}

/// The fields that describe an image give its source and its size, and other fields give none.
pub proof fn law_fields_of_an_image(
    o: Seq<(String, JsonValue)>,
    source: Seq<char>,
    width: i64,
    height: i64,
)
    ensures
        describes(o, source, width, height) ==> image_described(o) == Some(
            (source, ImageSize { width: low_word(width), height: low_word(height) }),
        ),
        (forall|s: Seq<char>, w: i64, h: i64| !#[trigger] describes(o, s, w, h))
            ==> image_described(o) is None,
{
    if image_described(o) is Some {
        lemma_described(o);
    }
}

} // verus!
