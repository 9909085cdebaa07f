//! The read-only tools that a model may call: what they are asked, and how their results are told.

use vstd::prelude::*;
use vstd::string::*;

use crate::json;
use crate::json::Json;
use crate::run;
use crate::run::Cancellation;
use crate::text;

verus! {

/// How many bytes of fetched text a model is shown.
pub const MAX_TOOL_CONTENT_BYTES: usize = 24576;

/// Names a tool.
#[derive(Debug, PartialEq, Eq)]
pub enum ToolName {
    ReadFile,
    ListDirectory,
    FetchUrl,
    Unknown(String),
}

/// A `ToolName` by what it says.
pub enum ToolNameView {
    ReadFile,
    ListDirectory,
    FetchUrl,
    Unknown(Seq<char>),
}

impl View for ToolName {
    type V = ToolNameView;

    open spec fn view(&self) -> ToolNameView {
        match *self {
            ToolName::ReadFile => ToolNameView::ReadFile,
            ToolName::ListDirectory => ToolNameView::ListDirectory,
            ToolName::FetchUrl => ToolNameView::FetchUrl,
            ToolName::Unknown(name) => ToolNameView::Unknown(name@),
        }
    }
}

impl Clone for ToolName {
    fn clone(&self) -> (r: Self)
        ensures
            r@ == self@,
    {
        match self {
            ToolName::ReadFile => ToolName::ReadFile,
            ToolName::ListDirectory => ToolName::ListDirectory,
            ToolName::FetchUrl => ToolName::FetchUrl,
            ToolName::Unknown(name) => ToolName::Unknown(name.clone()),
        }
    }
}

/// Whether a tool changes anything.
#[derive(Clone, Copy, Debug, PartialEq, Eq, Structural)]
pub enum ToolKind {
    ReadOnly,
    Mutating,
}

/// Some lines of a file, counted from one.
#[derive(Clone, Copy, Debug, PartialEq, Eq, Structural)]
pub struct ReadFileRange {
    pub start_line: usize,
    pub end_line: usize,
}

/// What a tool is asked.
#[derive(Debug, PartialEq, Eq)]
pub enum ToolArguments {
    ReadFile { path: String, range: Option<ReadFileRange> },
    ListDirectory { path: String },
    FetchUrl { url: String },
}

/// `ToolArguments` by what they say.
pub enum ToolArgumentsView {
    ReadFile { path: Seq<char>, range: Option<ReadFileRange> },
    ListDirectory { path: Seq<char> },
    FetchUrl { url: Seq<char> },
}

impl View for ToolArguments {
    type V = ToolArgumentsView;

    open spec fn view(&self) -> ToolArgumentsView {
        match *self {
            ToolArguments::ReadFile { path, range } => ToolArgumentsView::ReadFile {
                path: path@,
                range,
            },
            ToolArguments::ListDirectory { path } => ToolArgumentsView::ListDirectory {
                path: path@,
            },
            ToolArguments::FetchUrl { url } => ToolArgumentsView::FetchUrl { url: url@ },
        }
    }
}

/// What is asked of which tool.
#[derive(Debug, PartialEq, Eq)]
pub struct ToolRequest {
    pub name: ToolName,
    pub arguments: ToolArguments,
}

/// A `ToolRequest` by what it says.
pub struct ToolRequestView {
    pub name: ToolNameView,
    pub arguments: ToolArgumentsView,
}

impl View for ToolRequest {
    type V = ToolRequestView;

    open spec fn view(&self) -> ToolRequestView {
        ToolRequestView { name: self.name@, arguments: self.arguments@ }
    }
}

/// What is known of an output.
#[derive(Clone, Debug, PartialEq, Eq)]
pub struct ToolMetadata {
    pub path: String,
    pub bytes: usize,
    pub range: Option<ReadFileRange>,
    pub source_bytes: Option<usize>,
    pub truncated: bool,
}

/// What a tool gave.
#[derive(Clone, Debug, PartialEq, Eq)]
pub struct ToolOutput {
    pub content: String,
    pub metadata: ToolMetadata,
}

/// Why a tool gave nothing.
#[allow(inconsistent_fields)]
#[derive(Debug, PartialEq, Eq)]
pub enum ToolError {
    UnknownTool(String),
    InvalidArguments(String),
    InvalidPath(String),
    OutsideWorkspace(String),
    NotFound(String),
    Directory(String),
    NotDirectory(String),
    UnsupportedEncoding(String),
    UnsupportedScheme(String),
    BlockedAddress(String),
    UnsupportedContentType(String),
    Network(String),
    TooManyEntries { path: String, limit: usize },
    TooLarge { path: String, bytes: u64, limit: u64 },
    InvalidRange { start_line: usize, end_line: usize },
    Io { path: String, message: String },
    HttpStatus(u16),
    InvalidUrl,
    Timeout,
    Cancelled,
    RedirectLimit,
}

/// A `ToolError` by what it says.
#[allow(inconsistent_fields)]
pub enum ToolErrorView {
    UnknownTool(Seq<char>),
    InvalidArguments(Seq<char>),
    InvalidPath(Seq<char>),
    OutsideWorkspace(Seq<char>),
    NotFound(Seq<char>),
    Directory(Seq<char>),
    NotDirectory(Seq<char>),
    UnsupportedEncoding(Seq<char>),
    UnsupportedScheme(Seq<char>),
    BlockedAddress(Seq<char>),
    UnsupportedContentType(Seq<char>),
    Network(Seq<char>),
    TooManyEntries { path: Seq<char>, limit: usize },
    TooLarge { path: Seq<char>, bytes: u64, limit: u64 },
    InvalidRange { start_line: usize, end_line: usize },
    Io { path: Seq<char>, message: Seq<char> },
    HttpStatus(u16),
    InvalidUrl,
    Timeout,
    Cancelled,
    RedirectLimit,
}

impl View for ToolError {
    type V = ToolErrorView;

    open spec fn view(&self) -> ToolErrorView {
        match *self {
            ToolError::UnknownTool(text) => ToolErrorView::UnknownTool(text@),
            ToolError::InvalidArguments(text) => ToolErrorView::InvalidArguments(text@),
            ToolError::InvalidPath(text) => ToolErrorView::InvalidPath(text@),
            ToolError::OutsideWorkspace(text) => ToolErrorView::OutsideWorkspace(text@),
            ToolError::NotFound(text) => ToolErrorView::NotFound(text@),
            ToolError::Directory(text) => ToolErrorView::Directory(text@),
            ToolError::NotDirectory(text) => ToolErrorView::NotDirectory(text@),
            ToolError::UnsupportedEncoding(text) => ToolErrorView::UnsupportedEncoding(text@),
            ToolError::UnsupportedScheme(text) => ToolErrorView::UnsupportedScheme(text@),
            ToolError::BlockedAddress(text) => ToolErrorView::BlockedAddress(text@),
            ToolError::UnsupportedContentType(text) => ToolErrorView::UnsupportedContentType(text@),
            ToolError::Network(text) => ToolErrorView::Network(text@),
            ToolError::TooManyEntries { path, limit } => ToolErrorView::TooManyEntries {
                path: path@,
                limit,
            },
            ToolError::TooLarge { path, bytes, limit } => ToolErrorView::TooLarge {
                path: path@,
                bytes,
                limit,
            },
            ToolError::InvalidRange { start_line, end_line } => ToolErrorView::InvalidRange {
                start_line,
                end_line,
            },
            ToolError::Io { path, message } => ToolErrorView::Io { path: path@, message: message@ },
            ToolError::HttpStatus(status) => ToolErrorView::HttpStatus(status),
            ToolError::InvalidUrl => ToolErrorView::InvalidUrl,
            ToolError::Timeout => ToolErrorView::Timeout,
            ToolError::Cancelled => ToolErrorView::Cancelled,
            ToolError::RedirectLimit => ToolErrorView::RedirectLimit,
        }
    }
}

/// What a tool comes to.
#[derive(Debug, PartialEq, Eq)]
pub struct ToolResult {
    pub tool: ToolName,
    pub result: Result<ToolOutput, ToolError>,
}

/// How a programmer sees a tool error.
pub open spec fn error_debug(error: ToolErrorView) -> Seq<char> {
    match error {
        ToolErrorView::UnknownTool(text) => "UnknownTool("@ + text::debug_quoted(text) + ")"@,
        ToolErrorView::InvalidArguments(text) => "InvalidArguments("@ + text::debug_quoted(text) + ")"@,
        ToolErrorView::InvalidPath(text) => "InvalidPath("@ + text::debug_quoted(text) + ")"@,
        ToolErrorView::OutsideWorkspace(text) => "OutsideWorkspace("@ + text::debug_quoted(text) + ")"@,
        ToolErrorView::NotFound(text) => "NotFound("@ + text::debug_quoted(text) + ")"@,
        ToolErrorView::Directory(text) => "Directory("@ + text::debug_quoted(text) + ")"@,
        ToolErrorView::NotDirectory(text) => "NotDirectory("@ + text::debug_quoted(text) + ")"@,
        ToolErrorView::UnsupportedEncoding(text) => "UnsupportedEncoding("@ + text::debug_quoted(text) + ")"@,
        ToolErrorView::UnsupportedScheme(text) => "UnsupportedScheme("@ + text::debug_quoted(text) + ")"@,
        ToolErrorView::BlockedAddress(text) => "BlockedAddress("@ + text::debug_quoted(text) + ")"@,
        ToolErrorView::UnsupportedContentType(text) => "UnsupportedContentType("@ + text::debug_quoted(text) + ")"@,
        ToolErrorView::Network(text) => "Network("@ + text::debug_quoted(text) + ")"@,
        ToolErrorView::TooManyEntries { path, limit } => "TooManyEntries { path: "@
            + text::debug_quoted(path) + ", limit: "@ + text::decimal(limit as nat) + " }"@,
        ToolErrorView::TooLarge { path, bytes, limit } => "TooLarge { path: "@
            + text::debug_quoted(path) + ", bytes: "@ + text::decimal(bytes as nat) + ", limit: "@
            + text::decimal(limit as nat) + " }"@,
        ToolErrorView::InvalidRange { start_line, end_line } => "InvalidRange { start_line: "@
            + text::decimal(start_line as nat) + ", end_line: "@ + text::decimal(end_line as nat)
            + " }"@,
        ToolErrorView::Io { path, message } => "Io { path: "@ + text::debug_quoted(path)
            + ", message: "@ + text::debug_quoted(message) + " }"@,
        ToolErrorView::HttpStatus(status) => "HttpStatus("@ + text::decimal(status as nat) + ")"@,
        ToolErrorView::InvalidUrl => "InvalidUrl"@,
        ToolErrorView::Timeout => "Timeout"@,
        ToolErrorView::Cancelled => "Cancelled"@,
        ToolErrorView::RedirectLimit => "RedirectLimit"@,
    }
}

/// What a model is told of a tool error.
pub open spec fn error_text(error: ToolErrorView) -> Seq<char> {
    match error {
        ToolErrorView::UnknownTool(text) => "unknown tool: "@ + text,
        ToolErrorView::InvalidArguments(text) => text,
        ToolErrorView::InvalidPath(text) => "invalid path: "@ + text,
        ToolErrorView::OutsideWorkspace(text) => "path is outside the workspace: "@ + text,
        ToolErrorView::NotFound(text) => "file not found: "@ + text,
        ToolErrorView::Directory(text) => "path is a directory: "@ + text,
        ToolErrorView::NotDirectory(text) => "path is not a directory: "@ + text,
        ToolErrorView::UnsupportedEncoding(text) => "unsupported encoding: "@ + text,
        ToolErrorView::UnsupportedScheme(text) => "unsupported URL scheme: "@ + text,
        ToolErrorView::BlockedAddress(text) => "blocked address: "@ + text,
        ToolErrorView::UnsupportedContentType(text) => "unsupported content type: "@ + text,
        ToolErrorView::Network(text) => "network error: "@ + text,
        ToolErrorView::TooManyEntries { path, .. } => "too many directory entries: "@ + path,
        ToolErrorView::TooLarge { path, .. } => "file is too large: "@ + path,
        ToolErrorView::InvalidRange { .. } => "invalid file range"@,
        ToolErrorView::Io { path, message } => "I/O error for "@ + path + ": "@ + message,
        ToolErrorView::HttpStatus(status) => "HTTP status: "@ + text::decimal(status as nat),
        ToolErrorView::InvalidUrl => "invalid URL"@,
        ToolErrorView::Timeout => "request timed out"@,
        ToolErrorView::Cancelled => "tool cancelled"@,
        ToolErrorView::RedirectLimit => "redirect limit reached"@,
    }
}

fn with_quoted(head: &str, quoted: &str, tail: &str) -> (r: String)
    ensures
        r@ == head@ + text::debug_quoted(quoted@) + tail@,
{
    let mut out = String::from_str(head);
    out.append(&text::debug_text(quoted));
    out.append(tail);
    out
}

fn with_text(head: &str, text: &str) -> (r: String)
    ensures
        r@ == head@ + text@,
{
    let mut out = String::from_str(head);
    out.append(text);
    out
}

/// How a programmer sees a tool error.
pub fn format_tool_error(error: &ToolError) -> (r: String)
    ensures
        r@ == error_debug(error@),
{
    match error {
        ToolError::UnknownTool(text) => with_quoted("UnknownTool(", text, ")"),
        ToolError::InvalidArguments(text) => with_quoted("InvalidArguments(", text, ")"),
        ToolError::InvalidPath(text) => with_quoted("InvalidPath(", text, ")"),
        ToolError::OutsideWorkspace(text) => with_quoted("OutsideWorkspace(", text, ")"),
        ToolError::NotFound(text) => with_quoted("NotFound(", text, ")"),
        ToolError::Directory(text) => with_quoted("Directory(", text, ")"),
        ToolError::NotDirectory(text) => with_quoted("NotDirectory(", text, ")"),
        ToolError::UnsupportedEncoding(text) => with_quoted("UnsupportedEncoding(", text, ")"),
        ToolError::UnsupportedScheme(text) => with_quoted("UnsupportedScheme(", text, ")"),
        ToolError::BlockedAddress(text) => with_quoted("BlockedAddress(", text, ")"),
        ToolError::UnsupportedContentType(text) => with_quoted("UnsupportedContentType(", text, ")"),
        ToolError::Network(text) => with_quoted("Network(", text, ")"),
        ToolError::TooManyEntries { path, limit } => {
            let mut out = with_quoted("TooManyEntries { path: ", path, ", limit: ");
            out.append(&text::decimal_text(*limit as u64));
            out.append(" }");
            out
        },
        ToolError::TooLarge { path, bytes, limit } => {
            let mut out = with_quoted("TooLarge { path: ", path, ", bytes: ");
            out.append(&text::decimal_text(*bytes));
            out.append(", limit: ");
            out.append(&text::decimal_text(*limit));
            out.append(" }");
            out
        },
        ToolError::InvalidRange { start_line, end_line } => {
            let mut out = String::from_str("InvalidRange { start_line: ");
            out.append(&text::decimal_text(*start_line as u64));
            out.append(", end_line: ");
            out.append(&text::decimal_text(*end_line as u64));
            out.append(" }");
            out
        },
        ToolError::Io { path, message } => {
            let mut out = with_quoted("Io { path: ", path, ", message: ");
            out.append(&text::debug_text(message));
            out.append(" }");
            out
        },
        ToolError::HttpStatus(status) => {
            let mut out = String::from_str("HttpStatus(");
            out.append(&text::decimal_text(*status as u64));
            out.append(")");
            out
        },
        ToolError::InvalidUrl => String::from_str("InvalidUrl"),
        ToolError::Timeout => String::from_str("Timeout"),
        ToolError::Cancelled => String::from_str("Cancelled"),
        ToolError::RedirectLimit => String::from_str("RedirectLimit"),
    }
}

/// What a model is told of a tool error.
pub fn tool_error_message(error: &ToolError) -> (r: String)
    ensures
        r@ == error_text(error@),
{
    match error {
        ToolError::UnknownTool(text) => with_text("unknown tool: ", text),
        ToolError::InvalidArguments(text) => text.clone(),
        ToolError::InvalidPath(text) => with_text("invalid path: ", text),
        ToolError::OutsideWorkspace(text) => with_text("path is outside the workspace: ", text),
        ToolError::NotFound(text) => with_text("file not found: ", text),
        ToolError::Directory(text) => with_text("path is a directory: ", text),
        ToolError::NotDirectory(text) => with_text("path is not a directory: ", text),
        ToolError::UnsupportedEncoding(text) => with_text("unsupported encoding: ", text),
        ToolError::UnsupportedScheme(text) => with_text("unsupported URL scheme: ", text),
        ToolError::BlockedAddress(text) => with_text("blocked address: ", text),
        ToolError::UnsupportedContentType(text) => with_text("unsupported content type: ", text),
        ToolError::Network(text) => with_text("network error: ", text),
        ToolError::TooManyEntries { path, .. } => with_text("too many directory entries: ", path),
        ToolError::TooLarge { path, .. } => with_text("file is too large: ", path),
        ToolError::InvalidRange { .. } => String::from_str("invalid file range"),
        ToolError::Io { path, message } => {
            let mut out = with_text("I/O error for ", path);
            out.append(": ");
            out.append(message);
            out
        },
        ToolError::HttpStatus(status) => with_text(
            "HTTP status: ",
            &text::decimal_text(*status as u64),
        ),
        ToolError::InvalidUrl => String::from_str("invalid URL"),
        ToolError::Timeout => String::from_str("request timed out"),
        ToolError::Cancelled => String::from_str("tool cancelled"),
        ToolError::RedirectLimit => String::from_str("redirect limit reached"),
    }
}

/// Why a file was not read.
#[derive(Debug, PartialEq, Eq)]
pub enum ReadFileError {
    InvalidPath(String),
    OutsideWorkspace(String),
    NotFound(String),
    Directory(String),
    TooLarge { path: String, bytes: u64, limit: u64 },
    InvalidRange { start_line: usize, end_line: usize },
    Io { path: String, message: String },
    UnsupportedEncoding(String),
}

/// A file, or some lines of it.
#[derive(Debug, PartialEq, Eq)]
pub struct ReadFileOutput {
    pub content: String,
    pub path: String,
    pub bytes: usize,
    pub range: Option<ReadFileRange>,
}

/// Why a directory was not listed.
#[derive(Debug, PartialEq, Eq)]
pub enum ListDirectoryError {
    InvalidPath(String),
    NotFound(String),
    NotDirectory(String),
    TooManyEntries { path: String, limit: usize },
    Io { path: String, message: String },
}

/// What an entry of a directory is.
#[derive(Clone, Copy, Debug, PartialEq, Eq, Structural)]
pub enum DirectoryEntryKind {
    File,
    Directory,
    Symlink,
    Other,
}

/// An entry of a directory.
#[derive(Debug, PartialEq, Eq)]
pub struct DirectoryEntry {
    pub name: String,
    pub kind: DirectoryEntryKind,
}

/// The entries of a directory.
#[derive(Debug, PartialEq, Eq)]
pub struct ListDirectoryOutput {
    pub path: String,
    pub entries: Vec<DirectoryEntry>,
}

/// Why a page was not fetched.
#[derive(Debug, PartialEq, Eq)]
pub enum FetchUrlError {
    InvalidUrl,
    UnsupportedScheme(String),
    BlockedAddress(String),
    Timeout,
    TooLarge { limit: usize },
    UnsupportedContentType(String),
    UnsupportedEncoding(String),
    HttpStatus(u16),
    Network(String),
    Cancelled,
    RedirectLimit,
}

/// A page.
#[derive(Debug, PartialEq, Eq)]
pub struct FetchUrlOutput {
    pub url: String,
    pub final_url: String,
    pub content_type: String,
    pub content: String,
    pub truncated: bool,
}

/// The tool error that an error of reading a file is.
pub open spec fn read_file_error(error: ReadFileError) -> ToolErrorView {
    match error {
        ReadFileError::InvalidPath(path) => ToolErrorView::InvalidPath(path@),
        ReadFileError::OutsideWorkspace(path) => ToolErrorView::OutsideWorkspace(path@),
        ReadFileError::NotFound(path) => ToolErrorView::NotFound(path@),
        ReadFileError::Directory(path) => ToolErrorView::Directory(path@),
        ReadFileError::TooLarge { path, bytes, limit } => ToolErrorView::TooLarge {
            path: path@,
            bytes,
            limit,
        },
        ReadFileError::InvalidRange { start_line, end_line } => ToolErrorView::InvalidRange {
            start_line,
            end_line,
        },
        ReadFileError::Io { path, message } => ToolErrorView::Io { path: path@, message: message@ },
        ReadFileError::UnsupportedEncoding(path) => ToolErrorView::UnsupportedEncoding(path@),
    }
}

/// Whether a result tells what the reading of a file brought.
pub open spec fn tells_file(
    outcome: Result<ReadFileOutput, ReadFileError>,
    result: ToolResult,
) -> bool {
    &&& result.tool@ is ReadFile
    &&& match (outcome, result.result) {
        (Ok(output), Ok(told)) => {
            &&& told.content == output.content
            &&& told.metadata.path == output.path
            &&& told.metadata.bytes == output.bytes
            &&& told.metadata.range == output.range
            &&& told.metadata.source_bytes is None
            &&& !told.metadata.truncated
        },
        (Err(error), Err(told)) => told@ == read_file_error(error),
        _ => false,
    }
}

/// What the reading of a file comes to.
pub fn read_file_result(outcome: Result<ReadFileOutput, ReadFileError>) -> (r: ToolResult)
    ensures
        tells_file(outcome, r),
{
    let result = match outcome {
        Ok(output) => Ok(
            ToolOutput {
                content: output.content,
                metadata: ToolMetadata {
                    path: output.path,
                    bytes: output.bytes,
                    range: output.range,
                    source_bytes: None,
                    truncated: false,
                },
            },
        ),
        Err(error) => Err(
            match error {
                ReadFileError::InvalidPath(path) => ToolError::InvalidPath(path),
                ReadFileError::OutsideWorkspace(path) => ToolError::OutsideWorkspace(path),
                ReadFileError::NotFound(path) => ToolError::NotFound(path),
                ReadFileError::Directory(path) => ToolError::Directory(path),
                ReadFileError::TooLarge { path, bytes, limit } => ToolError::TooLarge {
                    path,
                    bytes,
                    limit,
                },
                ReadFileError::InvalidRange { start_line, end_line } => ToolError::InvalidRange {
                    start_line,
                    end_line,
                },
                ReadFileError::Io { path, message } => ToolError::Io { path, message },
                ReadFileError::UnsupportedEncoding(path) => ToolError::UnsupportedEncoding(path),
            },
        ),
    };
    ToolResult { tool: ToolName::ReadFile, result }
}

/// The tool error that an error of listing a directory is.
pub open spec fn list_directory_error(error: ListDirectoryError) -> ToolErrorView {
    match error {
        ListDirectoryError::InvalidPath(path) => ToolErrorView::InvalidPath(path@),
        ListDirectoryError::NotFound(path) => ToolErrorView::NotFound(path@),
        ListDirectoryError::NotDirectory(path) => ToolErrorView::NotDirectory(path@),
        ListDirectoryError::TooManyEntries { path, limit } => ToolErrorView::TooManyEntries {
            path: path@,
            limit,
        },
        ListDirectoryError::Io { path, message } => ToolErrorView::Io {
            path: path@,
            message: message@,
        },
    }
}

/// How an entry of a directory is told.
pub open spec fn entry_json(entry: DirectoryEntry) -> Json {
    json::object_of(
        seq![
            ("name"@, Json::Text(entry.name@)),
            (
                "kind"@,
                Json::Text(
                    match entry.kind {
                        DirectoryEntryKind::File => "file"@,
                        DirectoryEntryKind::Directory => "directory"@,
                        DirectoryEntryKind::Symlink => "symlink"@,
                        DirectoryEntryKind::Other => "other"@,
                    },
                ),
            ),
        ],
    )
}

/// How a directory is told.
pub open spec fn directory_json(output: ListDirectoryOutput) -> Json {
    json::object_of(
        seq![
            ("path"@, Json::Text(output.path@)),
            (
                "entries"@,
                Json::Array(output.entries@.map_values(|e: DirectoryEntry| entry_json(e))),
            ),
        ],
    )
}

fn entry_value(entry: &DirectoryEntry) -> (r: serde_json::Value)
    ensures
        json::json(r) == entry_json(*entry),
{
    let kind = match entry.kind {
        DirectoryEntryKind::File => "file",
        DirectoryEntryKind::Directory => "directory",
        DirectoryEntryKind::Symlink => "symlink",
        DirectoryEntryKind::Other => "other",
    };
    let mut members: Vec<(String, serde_json::Value)> = Vec::new();
    members.push(json::text_entry("name", &entry.name));
    members.push(json::text_entry("kind", kind));
    assert(json::entry_views(members@) =~= seq![
        ("name"@, Json::Text(entry.name@)),
        ("kind"@, Json::Text(kind@)),
    ]);
    json::object_value(members)
}

/// Whether a result tells what the listing of the directory at a path brought.
pub open spec fn tells_directory(
    path: Seq<char>,
    outcome: Result<ListDirectoryOutput, ListDirectoryError>,
    result: ToolResult,
) -> bool {
    &&& result.tool@ is ListDirectory
    &&& match (outcome, result.result) {
        (Ok(output), Ok(told)) => {
            &&& told.content@ == json::json_text(directory_json(output))
            &&& told.metadata.path@ == path
            &&& told.metadata.bytes == output.entries@.len()
            &&& told.metadata.range is None
            &&& told.metadata.source_bytes is None
            &&& !told.metadata.truncated
        },
        (Err(error), Err(told)) => told@ == list_directory_error(error),
        _ => false,
    }
}

/// What the listing of a directory comes to.
pub fn list_directory_result(
    path: String,
    outcome: Result<ListDirectoryOutput, ListDirectoryError>,
) -> (r: ToolResult)
    ensures
        tells_directory(path@, outcome, r),
{
    let result = match outcome {
        Ok(output) => {
            let mut items: Vec<serde_json::Value> = Vec::new();
            let mut i: usize = 0;
            while i < output.entries.len()
                invariant
                    i <= output.entries@.len(),
                    items@.len() == i,
                    forall|k: int|
                        0 <= k < i ==> json::json(#[trigger] items@[k]) == entry_json(
                            output.entries@[k],
                        ),
                decreases output.entries@.len() - i,
            {
                items.push(entry_value(&output.entries[i]));
                i += 1;
            }
            let ghost told = output.entries@.map_values(|e: DirectoryEntry| entry_json(e));
            assert(json::json_seq(items@) =~= told);
            let mut members: Vec<(String, serde_json::Value)> = Vec::new();
            members.push(json::text_entry("path", &output.path));
            members.push(json::entry("entries", json::array_value(items)));
            assert(json::entry_views(members@) =~= seq![
                ("path"@, Json::Text(output.path@)),
                ("entries"@, Json::Array(told)),
            ]);
            Ok(
                ToolOutput {
                    content: json::to_text(&json::object_value(members)),
                    metadata: ToolMetadata {
                        path,
                        bytes: output.entries.len(),
                        range: None,
                        source_bytes: None,
                        truncated: false,
                    },
                },
            )
        },
        Err(error) => Err(
            match error {
                ListDirectoryError::InvalidPath(path) => ToolError::InvalidPath(path),
                ListDirectoryError::NotFound(path) => ToolError::NotFound(path),
                ListDirectoryError::NotDirectory(path) => ToolError::NotDirectory(path),
                ListDirectoryError::TooManyEntries { path, limit } => ToolError::TooManyEntries {
                    path,
                    limit,
                },
                ListDirectoryError::Io { path, message } => ToolError::Io { path, message },
            },
        ),
    };
    ToolResult { tool: ToolName::ListDirectory, result }
}

/// The tool error that an error of fetching a page is. A page that is too large is taken for one
/// byte larger than the limit.
pub open spec fn fetch_url_error(error: FetchUrlError) -> ToolErrorView {
    match error {
        FetchUrlError::InvalidUrl => ToolErrorView::InvalidUrl,
        FetchUrlError::UnsupportedScheme(scheme) => ToolErrorView::UnsupportedScheme(scheme@),
        FetchUrlError::BlockedAddress(address) => ToolErrorView::BlockedAddress(address@),
        FetchUrlError::Timeout => ToolErrorView::Timeout,
        FetchUrlError::TooLarge { limit } => ToolErrorView::TooLarge {
            path: Seq::empty(),
            bytes: if limit == u64::MAX {
                u64::MAX
            } else {
                (limit + 1) as u64
            },
            limit: limit as u64,
        },
        FetchUrlError::UnsupportedContentType(found) => ToolErrorView::UnsupportedContentType(
            found@,
        ),
        FetchUrlError::UnsupportedEncoding(encoding) => ToolErrorView::UnsupportedEncoding(
            encoding@,
        ),
        FetchUrlError::HttpStatus(status) => ToolErrorView::HttpStatus(status),
        FetchUrlError::Network(message) => ToolErrorView::Network(message@),
        FetchUrlError::Cancelled => ToolErrorView::Cancelled,
        FetchUrlError::RedirectLimit => ToolErrorView::RedirectLimit,
    }
}

/// The longest start of some content that fits, and whether that is less than all of it.
pub fn truncate_utf8_prefix(content: &str, max_bytes: usize) -> (r: (String, bool))
    ensures
        r.0@ == text::fitting_prefix(content@, max_bytes as nat),
        r.1 == (text::utf8_len(content@) > max_bytes),
        !r.1 ==> r.0@ == content@,
{
    text::truncate_utf8(content, max_bytes)
}

/// Whether less than a whole page is told.
pub open spec fn page_truncated(output: FetchUrlOutput) -> bool {
    output.truncated || text::utf8_len(output.content@) > MAX_TOOL_CONTENT_BYTES
}

/// What of a page is told.
pub open spec fn page_content(output: FetchUrlOutput) -> Seq<char> {
    text::fitting_prefix(output.content@, MAX_TOOL_CONTENT_BYTES as nat)
}

/// How a page is told.
pub open spec fn page_json(output: FetchUrlOutput) -> Json {
    json::object_of(
        seq![
            ("tool"@, Json::Text("fetch_url"@)),
            ("url"@, Json::Text(output.url@)),
            ("final_url"@, Json::Text(output.final_url@)),
            ("content_type"@, Json::Text(output.content_type@)),
            ("content"@, Json::Text(page_content(output))),
            ("truncated"@, Json::Bool(page_truncated(output))),
        ],
    )
}

/// Whether a result tells what the fetching of the page at a URL brought.
pub open spec fn tells_page(
    url: Seq<char>,
    outcome: Result<FetchUrlOutput, FetchUrlError>,
    result: ToolResult,
) -> bool {
    &&& result.tool@ is FetchUrl
    &&& match (outcome, result.result) {
        (Ok(output), Ok(told)) => {
            &&& told.content@ == json::json_text(page_json(output))
            &&& told.metadata.path@ == url
            &&& told.metadata.bytes == text::utf8_len(page_content(output))
            &&& told.metadata.range is None
            &&& told.metadata.source_bytes is Some
            &&& told.metadata.source_bytes->0 == text::utf8_len(output.content@)
            &&& told.metadata.truncated == page_truncated(output)
        },
        (Err(error), Err(told)) => told@ == fetch_url_error(error),
        _ => false,
    }
}

/// What the fetching of a page comes to.
pub fn fetch_url_result(request_url: String, outcome: Result<FetchUrlOutput, FetchUrlError>) -> (r:
    ToolResult)
    ensures
        tells_page(request_url@, outcome, r),
{
    let result = match outcome {
        Ok(output) => {
            let source_bytes: usize = text::byte_len(&output.content);
            let (content, cut) = truncate_utf8_prefix(&output.content, MAX_TOOL_CONTENT_BYTES);
            let truncated = output.truncated || cut;
            let bytes: usize = text::byte_len(&content);
            let mut members: Vec<(String, serde_json::Value)> = Vec::new();
            members.push(json::text_entry("tool", "fetch_url"));
            members.push(json::text_entry("url", &output.url));
            members.push(json::text_entry("final_url", &output.final_url));
            members.push(json::text_entry("content_type", &output.content_type));
            members.push(json::text_entry("content", &content));
            members.push(json::entry("truncated", json::bool_value(truncated)));
            assert(json::entry_views(members@) =~= seq![
                ("tool"@, Json::Text("fetch_url"@)),
                ("url"@, Json::Text(output.url@)),
                ("final_url"@, Json::Text(output.final_url@)),
                ("content_type"@, Json::Text(output.content_type@)),
                ("content"@, Json::Text(content@)),
                ("truncated"@, Json::Bool(truncated)),
            ]);
            Ok(
                ToolOutput {
                    content: json::to_text(&json::object_value(members)),
                    metadata: ToolMetadata {
                        path: request_url,
                        bytes,
                        range: None,
                        source_bytes: Some(source_bytes),
                        truncated,
                    },
                },
            )
        },
        Err(error) => Err(
            match error {
                FetchUrlError::InvalidUrl => ToolError::InvalidUrl,
                FetchUrlError::UnsupportedScheme(scheme) => ToolError::UnsupportedScheme(scheme),
                FetchUrlError::BlockedAddress(address) => ToolError::BlockedAddress(address),
                FetchUrlError::Timeout => ToolError::Timeout,
                FetchUrlError::TooLarge { limit } => ToolError::TooLarge {
                    path: String::new(),
                    bytes: (limit as u64).saturating_add(1),
                    limit: limit as u64,
                },
                FetchUrlError::UnsupportedContentType(found) => ToolError::UnsupportedContentType(
                    found,
                ),
                FetchUrlError::UnsupportedEncoding(encoding) => ToolError::UnsupportedEncoding(
                    encoding,
                ),
                FetchUrlError::HttpStatus(status) => ToolError::HttpStatus(status),
                FetchUrlError::Network(message) => ToolError::Network(message),
                FetchUrlError::Cancelled => ToolError::Cancelled,
                FetchUrlError::RedirectLimit => ToolError::RedirectLimit,
            },
        ),
    };
    ToolResult { tool: ToolName::FetchUrl, result }
}

/// Whoever reads files, lists directories and fetches pages. What they bring is not known
/// beforehand.
pub trait Capabilities {
    fn read_file(&self, path: &str, range: Option<ReadFileRange>) -> Result<
        ReadFileOutput,
        ReadFileError,
    >;

    fn list_directory(&self, path: &str) -> Result<ListDirectoryOutput, ListDirectoryError>;

    fn fetch_url(&self, url: &str, cancellation: &Cancellation) -> Result<
        FetchUrlOutput,
        FetchUrlError,
    >;
}

/// The tools that a model may call.
#[derive(Clone, Debug)]
pub struct ToolRegistry<C> {
    pub capabilities: C,
}

/// Whether a tool is known.
pub open spec fn known(name: ToolNameView) -> bool {
    !(name is Unknown)
}

/// Whether the arguments are of the tool that is named.
pub open spec fn arguments_match(request: ToolRequestView) -> bool {
    match (request.name, request.arguments) {
        (ToolNameView::ReadFile, ToolArgumentsView::ReadFile { .. }) => true,
        (ToolNameView::ListDirectory, ToolArgumentsView::ListDirectory { .. }) => true,
        (ToolNameView::FetchUrl, ToolArgumentsView::FetchUrl { .. }) => true,
        _ => false,
    }
}

/// Why a request is refused before any tool runs: its tool is not known, or its arguments are of
/// another.
pub open spec fn refusal(request: ToolRequestView) -> Option<ToolErrorView> {
    match request.name {
        ToolNameView::Unknown(name) => Some(ToolErrorView::UnknownTool(name)),
        _ => if arguments_match(request) {
            None
        } else {
            Some(ToolErrorView::InvalidArguments("tool arguments do not match the tool name"@))
        },
    }
}

/// Whether the capabilities, asked for some lines of the file at a path, gave an outcome.
pub open spec fn read_gives<C: Capabilities>(
    capabilities: &C,
    path: Seq<char>,
    range: Option<ReadFileRange>,
    outcome: Result<ReadFileOutput, ReadFileError>,
) -> bool {
    exists|at: &str|
        at@ == path && #[trigger] call_ensures(C::read_file, (capabilities, at, range), outcome)
}

/// Whether the capabilities, asked for the directory at a path, gave an outcome.
pub open spec fn list_gives<C: Capabilities>(
    capabilities: &C,
    path: Seq<char>,
    outcome: Result<ListDirectoryOutput, ListDirectoryError>,
) -> bool {
    exists|at: &str|
        at@ == path && #[trigger] call_ensures(C::list_directory, (capabilities, at), outcome)
}

/// Whether the capabilities, asked for the page at a URL, gave an outcome.
pub open spec fn fetch_gives<C: Capabilities>(
    capabilities: &C,
    url: Seq<char>,
    cancellation: &Cancellation,
    outcome: Result<FetchUrlOutput, FetchUrlError>,
) -> bool {
    exists|at: &str|
        at@ == url && #[trigger] call_ensures(
            C::fetch_url,
            (capabilities, at, cancellation),
            outcome,
        )
}

/// Whether a result tells what the capabilities gave for some lines of the file at a path.
pub open spec fn file_given<C: Capabilities>(
    capabilities: &C,
    path: Seq<char>,
    range: Option<ReadFileRange>,
    result: ToolResult,
) -> bool {
    exists|outcome: Result<ReadFileOutput, ReadFileError>|
        read_gives(capabilities, path, range, outcome) && #[trigger] tells_file(outcome, result)
}

/// Whether a result tells what the capabilities gave for the directory at a path.
pub open spec fn directory_given<C: Capabilities>(
    capabilities: &C,
    path: Seq<char>,
    result: ToolResult,
) -> bool {
    exists|outcome: Result<ListDirectoryOutput, ListDirectoryError>|
        list_gives(capabilities, path, outcome) && #[trigger] tells_directory(
            path,
            outcome,
            result,
        )
}

/// Whether a result tells what the capabilities gave for the page at a URL.
pub open spec fn page_given<C: Capabilities>(
    capabilities: &C,
    url: Seq<char>,
    cancellation: &Cancellation,
    result: ToolResult,
) -> bool {
    exists|outcome: Result<FetchUrlOutput, FetchUrlError>|
        fetch_gives(capabilities, url, cancellation, outcome) && #[trigger] tells_page(
            url,
            outcome,
            result,
        )
}

/// Whether a result is what a request comes to. A refused request comes to its refusal; any other
/// to what the capabilities gave when they were asked for just what it asks for.
pub open spec fn comes_to<C: Capabilities>(
    capabilities: &C,
    request: ToolRequestView,
    cancellation: &Cancellation,
    result: ToolResult,
) -> bool {
    &&& result.tool@ == request.name
    &&& match refusal(request) {
        Some(error) => result.result is Err && result.result->Err_0@ == error,
        None => match request.arguments {
            ToolArgumentsView::ReadFile { path, range } => file_given(
                capabilities,
                path,
                range,
                result,
            ),
            ToolArgumentsView::ListDirectory { path } => directory_given(
                capabilities,
                path,
                result,
            ),
            ToolArgumentsView::FetchUrl { url } => page_given(
                capabilities,
                url,
                cancellation,
                result,
            ),
        },
    }
}

impl<C: Capabilities> ToolRegistry<C> {
    /// Tools that work through these capabilities.
    pub fn new(capabilities: C) -> (r: Self)
        ensures
            r.capabilities == capabilities,
    {
        ToolRegistry { capabilities }
    }

    /// Whether a tool changes anything: those that are known do not.
    pub fn kind(&self, name: &ToolName) -> (r: Option<ToolKind>)
        ensures
            r == (if known(name@) {
                Some(ToolKind::ReadOnly)
            } else {
                None
            }),
    {
        match name {
            ToolName::ReadFile | ToolName::ListDirectory | ToolName::FetchUrl => Some(
                ToolKind::ReadOnly,
            ),
            ToolName::Unknown(_) => None,
        }
    }

    /// Runs a tool that nobody cancels: it is handed a handle that nobody else has.
    pub fn execute(&self, request: ToolRequest) -> (r: ToolResult)
        ensures
            exists|handle: Cancellation|
                run::fresh_handle(handle) && #[trigger] comes_to(
                    &self.capabilities,
                    request@,
                    &handle,
                    r,
                ),
    {
        let never = Cancellation::default();
        let r = self.execute_with_cancel(request, &never);
        assert(comes_to(&self.capabilities, request@, &never, r));
        r
    }

    /// Runs a tool. A request that names no known tool, or whose arguments are of another, is
    /// refused before any tool runs.
    pub fn execute_with_cancel(&self, request: ToolRequest, cancellation: &Cancellation) -> (r:
        ToolResult)
        ensures
            comes_to(&self.capabilities, request@, cancellation, r),
    {
        match (request.name, request.arguments) {
            (ToolName::Unknown(name), _) => ToolResult {
                tool: ToolName::Unknown(name.clone()),
                result: Err(ToolError::UnknownTool(name)),
            },
            (ToolName::ReadFile, ToolArguments::ReadFile { path, range }) => {
                let at = path.as_str();
                let outcome = self.capabilities.read_file(at, range);
                proof {
                    assert(call_ensures(C::read_file, (&self.capabilities, at, range), outcome));
                    assert(read_gives(&self.capabilities, path@, range, outcome));
                }
                let r = read_file_result(outcome);
                assert(file_given(&self.capabilities, path@, range, r));
                r
            },
            (ToolName::ListDirectory, ToolArguments::ListDirectory { path }) => {
                let at = path.as_str();
                let outcome = self.capabilities.list_directory(at);
                proof {
                    assert(call_ensures(C::list_directory, (&self.capabilities, at), outcome));
                    assert(list_gives(&self.capabilities, path@, outcome));
                }
                let r = list_directory_result(path, outcome);
                assert(directory_given(&self.capabilities, path@, r));
                r
            },
            (ToolName::FetchUrl, ToolArguments::FetchUrl { url }) => {
                let at = url.as_str();
                let outcome = self.capabilities.fetch_url(at, cancellation);
                proof {
                    assert(call_ensures(
                        C::fetch_url,
                        (&self.capabilities, at, cancellation),
                        outcome,
                    ));
                    assert(fetch_gives(&self.capabilities, url@, cancellation, outcome));
                }
                let r = fetch_url_result(url, outcome);
                assert(page_given(&self.capabilities, url@, cancellation, r));
                r
            },
            (name, _) => ToolResult {
                tool: name,
                result: Err(
                    ToolError::InvalidArguments(
                        String::from_str("tool arguments do not match the tool name"),
                    ),
                ),
            },
        }
    }
}

/// What a model is shown of a page fits the budget.
pub proof fn law_shown_pages_fit(output: FetchUrlOutput)
    ensures
        text::utf8_len(page_content(output)) <= MAX_TOOL_CONTENT_BYTES,
        page_content(output).is_prefix_of(output.content@),
        !page_truncated(output) ==> page_content(output) == output.content@,
{
    text::law_truncation(output.content@, MAX_TOOL_CONTENT_BYTES as nat);
}

} // verus!
