//! A chat in which the model may call read-only tools, for a bounded number of rounds.

use vstd::prelude::*;
use vstd::string::*;

use crate::chat;
use crate::chat::Chat;
use crate::chat::Done;
use crate::chat::Phase;
use crate::chat::Step;
use crate::executor;
use crate::executor::AgentExecutionError;
use crate::executor::AgentExecutionResult;
use crate::executor::Exchange;
use crate::executor::GivenView;
use crate::executor::ProviderExecutor;
use crate::executor::ReadOnlyToolPolicy;
use crate::executor::ToolExecutor;
use crate::executor::ToolInfrastructureError;
use crate::executor::ToolOutcome;
use crate::json;
use crate::json::Json;
use crate::progress;
use crate::provider;
use crate::provider::ChatRole;
use crate::provider::MessageView;
use crate::provider::ProviderChatMessage;
use crate::provider::ProviderChatRequest;
use crate::provider::ProviderChatStreamEvent;
use crate::provider::ProviderError;
use crate::provider::ProviderErrorView;
use crate::provider::ProviderToolCall;
use crate::provider::ProviderToolDefinition;
use crate::provider::RequestView;
use crate::provider::StreamEventView;
use crate::provider::ToolCallView;
use crate::provider::ToolDefinitionView;
use crate::record::ChatRecord;
use crate::record::Looks;
use crate::run::AgentRun;
use crate::run::AgentRunId;
use crate::run::Cancellation;
use crate::run::EventSink;
use crate::text;
use crate::tools;
use crate::tools::Capabilities;
use crate::tools::ReadFileRange;
use crate::tools::ToolArguments;
use crate::tools::ToolArgumentsView;
use crate::tools::ToolError;
use crate::tools::ToolErrorView;
use crate::tools::ToolName;
use crate::tools::ToolNameView;
use crate::tools::ToolRegistry;
use crate::tools::ToolRequest;
use crate::tools::ToolRequestView;
use crate::tools::ToolResult;
use crate::trace::Past;

verus! {

/// How many rounds of tool calls a chat may have: enough to walk a few directories.
pub const MAX_TOOL_ROUNDS: usize = 4;

/// How many tool calls a chat may make in all.
pub const MAX_TOOL_CALLS: usize = 16;

/// Why a chat gave no answer.
#[derive(Debug, PartialEq, Eq)]
pub enum ToolRoundTripError {
    Provider(ProviderError),
    Tool(String),
    Cancelled,
    ToolRoundLimit,
    ToolCallLimit,
}

/// A `ToolRoundTripError` by what it says.
pub enum RoundTripErrorView {
    Provider(ProviderErrorView),
    Tool(Seq<char>),
    Cancelled,
    ToolRoundLimit,
    ToolCallLimit,
}

impl View for ToolRoundTripError {
    type V = RoundTripErrorView;

    open spec fn view(&self) -> RoundTripErrorView {
        match *self {
            ToolRoundTripError::Provider(error) => RoundTripErrorView::Provider(error@),
            ToolRoundTripError::Tool(message) => RoundTripErrorView::Tool(message@),
            ToolRoundTripError::Cancelled => RoundTripErrorView::Cancelled,
            ToolRoundTripError::ToolRoundLimit => RoundTripErrorView::ToolRoundLimit,
            ToolRoundTripError::ToolCallLimit => RoundTripErrorView::ToolCallLimit,
        }
    }
}

/// What a user is told of a chat without an answer.
pub open spec fn user_text(error: RoundTripErrorView) -> Seq<char> {
    match error {
        RoundTripErrorView::Provider(error) => provider::user_text(error),
        RoundTripErrorView::Cancelled => "Generation cancelled"@,
        RoundTripErrorView::Tool(_) => "Tool request failed"@,
        RoundTripErrorView::ToolRoundLimit => "Tool round limit reached"@,
        RoundTripErrorView::ToolCallLimit => "Tool call limit reached"@,
    }
}

/// What a user is told of a chat without an answer.
pub fn user_message(error: &ToolRoundTripError) -> (r: String)
    ensures
        r@ == user_text(error@),
{
    match error {
        ToolRoundTripError::Provider(error) => String::from_str(error.user_message()),
        ToolRoundTripError::Cancelled => String::from_str("Generation cancelled"),
        ToolRoundTripError::Tool(_) => String::from_str("Tool request failed"),
        ToolRoundTripError::ToolRoundLimit => String::from_str("Tool round limit reached"),
        ToolRoundTripError::ToolCallLimit => String::from_str("Tool call limit reached"),
    }
}

/// The schema of a value of some type.
pub open spec fn typed(kind: Seq<char>) -> Json {
    json::object_of(seq![("type"@, Json::Text(kind))])
}

/// The schema of an object with these properties, of which one is required.
pub open spec fn object_schema(properties: Json, required: Seq<char>) -> Seq<(Seq<char>, Json)> {
    seq![
        ("type"@, Json::Text("object"@)),
        ("properties"@, properties),
        ("required"@, Json::Array(seq![Json::Text(required)])),
    ]
}

/// The tool that reads files.
pub open spec fn read_file_tool() -> ToolDefinitionView {
    ToolDefinitionView {
        name: "read_file"@,
        description: "Read a UTF-8 file inside the current workspace."@,
        parameters: json::object_of(
            object_schema(
                json::object_of(
                    seq![
                        ("path"@, typed("string"@)),
                        ("start_line"@, typed("integer"@)),
                        ("end_line"@, typed("integer"@)),
                    ],
                ),
                "path"@,
            ),
        ),
    }
}

/// The tool that lists directories.
pub open spec fn list_directory_tool() -> ToolDefinitionView {
    ToolDefinitionView {
        name: "list_directory"@,
        description:
            "List the immediate entries of a workspace-relative directory; this is non-recursive."@,
        parameters: json::object_of(
            object_schema(json::object_of(seq![("path"@, typed("string"@))]), "path"@),
        ),
    }
}

/// The tool that fetches pages.
pub open spec fn fetch_url_tool() -> ToolDefinitionView {
    ToolDefinitionView {
        name: "fetch_url"@,
        description:
            "Fetch the textual content of one explicit public HTTP or HTTPS URL. Does not search the web, execute JavaScript, operate a browser, log in, follow links autonomously, or download binary files."@,
        parameters: json::object_of(
            object_schema(
                json::object_of(
                    seq![
                        (
                            "url"@,
                            json::object_of(
                                seq![
                                    ("type"@, Json::Text("string"@)),
                                    (
                                        "description"@,
                                        Json::Text("Public HTTP or HTTPS URL to fetch."@),
                                    ),
                                ],
                            ),
                        ),
                    ],
                ),
                "url"@,
            ).push(("additionalProperties"@, Json::Bool(false))),
        ),
    }
}

fn typed_value(kind: &str) -> (r: serde_json::Value)
    ensures
        json::json(r) == typed(kind@),
{
    let mut members: Vec<(String, serde_json::Value)> = Vec::new();
    members.push(json::text_entry("type", kind));
    assert(json::entry_views(members@) =~= seq![("type"@, Json::Text(kind@))]);
    json::object_value(members)
}

fn schema_entries(properties: serde_json::Value, required: &str) -> (r: Vec<
    (String, serde_json::Value),
>)
    ensures
        json::entry_views(r@) == object_schema(json::json(properties), required@),
{
    let mut names: Vec<serde_json::Value> = Vec::new();
    names.push(json::text_value(String::from_str(required)));
    assert(json::json_seq(names@) =~= seq![Json::Text(required@)]);
    let mut members: Vec<(String, serde_json::Value)> = Vec::new();
    members.push(json::text_entry("type", "object"));
    members.push(json::entry("properties", properties));
    members.push(json::entry("required", json::array_value(names)));
    assert(json::entry_views(members@) =~= object_schema(json::json(properties), required@));
    members
}

/// The tool that reads files.
pub fn read_file_definition() -> (r: ProviderToolDefinition)
    ensures
        r@ == read_file_tool(),
{
    let mut properties: Vec<(String, serde_json::Value)> = Vec::new();
    properties.push(json::entry("path", typed_value("string")));
    properties.push(json::entry("start_line", typed_value("integer")));
    properties.push(json::entry("end_line", typed_value("integer")));
    assert(json::entry_views(properties@) =~= seq![
        ("path"@, typed("string"@)),
        ("start_line"@, typed("integer"@)),
        ("end_line"@, typed("integer"@)),
    ]);
    ProviderToolDefinition {
        name: String::from_str("read_file"),
        description: String::from_str("Read a UTF-8 file inside the current workspace."),
        parameters: json::object_value(schema_entries(json::object_value(properties), "path")),
    }
}

/// The tool that lists directories.
pub fn list_directory_definition() -> (r: ProviderToolDefinition)
    ensures
        r@ == list_directory_tool(),
{
    let mut properties: Vec<(String, serde_json::Value)> = Vec::new();
    properties.push(json::entry("path", typed_value("string")));
    assert(json::entry_views(properties@) =~= seq![("path"@, typed("string"@))]);
    ProviderToolDefinition {
        name: String::from_str("list_directory"),
        description: String::from_str(
            "List the immediate entries of a workspace-relative directory; this is non-recursive.",
        ),
        parameters: json::object_value(schema_entries(json::object_value(properties), "path")),
    }
}

/// The tool that fetches pages.
pub fn fetch_url_definition() -> (r: ProviderToolDefinition)
    ensures
        r@ == fetch_url_tool(),
{
    let mut url: Vec<(String, serde_json::Value)> = Vec::new();
    url.push(json::text_entry("type", "string"));
    url.push(json::text_entry("description", "Public HTTP or HTTPS URL to fetch."));
    assert(json::entry_views(url@) =~= seq![
        ("type"@, Json::Text("string"@)),
        ("description"@, Json::Text("Public HTTP or HTTPS URL to fetch."@)),
    ]);
    let ghost url_view = json::object_of(json::entry_views(url@));
    let mut properties: Vec<(String, serde_json::Value)> = Vec::new();
    properties.push(json::entry("url", json::object_value(url)));
    assert(json::entry_views(properties@) =~= seq![("url"@, url_view)]);
    let ghost properties_view = json::object_of(json::entry_views(properties@));
    let mut members = schema_entries(json::object_value(properties), "url");
    members.push(json::entry("additionalProperties", json::bool_value(false)));
    assert(json::entry_views(members@) =~= object_schema(properties_view, "url"@).push(
        ("additionalProperties"@, Json::Bool(false)),
    ));
    ProviderToolDefinition {
        name: String::from_str("fetch_url"),
        description: String::from_str(
            "Fetch the textual content of one explicit public HTTP or HTTPS URL. Does not search the web, execute JavaScript, operate a browser, log in, follow links autonomously, or download binary files.",
        ),
        parameters: json::object_value(members),
    }
}

/// The tools that an agent may call.
pub fn read_only_tool_definitions() -> (r: Vec<ProviderToolDefinition>)
    ensures
        provider::tool_views(r@) == seq![read_file_tool(), list_directory_tool(), fetch_url_tool()],
{
    let mut out: Vec<ProviderToolDefinition> = Vec::new();
    out.push(read_file_definition());
    out.push(list_directory_definition());
    out.push(fetch_url_definition());
    assert(provider::tool_views(out@) =~= seq![
        read_file_tool(),
        list_directory_tool(),
        fetch_url_tool(),
    ]);
    out
}

/// What is wrong with the arguments of a call in a chat.
pub open spec fn argument_problem(call: ToolCallView) -> Option<Seq<char>> {
    if !(call.arguments is Object) {
        Some("arguments must be an object"@)
    } else {
        match named(call.name) {
            ToolNameView::Unknown(_) => None,
            ToolNameView::FetchUrl => if json::text_member(call.arguments, "url"@) is None {
                Some("url must be a string"@)
            } else {
                None
            },
            ToolNameView::ListDirectory => if json::text_member(call.arguments, "path"@) is None {
                Some("path must be a string"@)
            } else {
                None
            },
            ToolNameView::ReadFile => if json::text_member(call.arguments, "path"@) is None {
                Some("path must be a string"@)
            } else {
                match (
                    json::member(call.arguments, "start_line"@),
                    json::member(call.arguments, "end_line"@),
                ) {
                    (None, None) => None,
                    (Some(start), Some(end)) => if json::unsigned_of(start) is Some
                        && json::unsigned_of(end) is Some {
                        None
                    } else {
                        Some("line range must be integers"@)
                    },
                    _ => Some("start_line and end_line must be provided together"@),
                }
            },
        }
    }
}

/// The lines that a call asks for.
pub open spec fn asked_range(arguments: Json) -> Option<ReadFileRange> {
    match (json::member(arguments, "start_line"@), json::member(arguments, "end_line"@)) {
        (Some(start), Some(end)) => Some(
            ReadFileRange {
                start_line: json::unsigned_of(start)->0 as usize,
                end_line: json::unsigned_of(end)->0 as usize,
            },
        ),
        _ => None,
    }
}

/// The request that a call of a known tool makes.
pub open spec fn asked(call: ToolCallView) -> ToolRequestView {
    ToolRequestView {
        name: named(call.name),
        arguments: match named(call.name) {
            ToolNameView::FetchUrl => ToolArgumentsView::FetchUrl {
                url: json::text_member(call.arguments, "url"@)->0,
            },
            ToolNameView::ListDirectory => ToolArgumentsView::ListDirectory {
                path: json::text_member(call.arguments, "path"@)->0,
            },
            _ => ToolArgumentsView::ReadFile {
                path: json::text_member(call.arguments, "path"@)->0,
                range: asked_range(call.arguments),
            },
        },
    }
}

/// Names a tool.
pub open spec fn named(name: Seq<char>) -> ToolNameView {
    if name == "fetch_url"@ {
        ToolNameView::FetchUrl
    } else if name == "list_directory"@ {
        ToolNameView::ListDirectory
    } else if name == "read_file"@ {
        ToolNameView::ReadFile
    } else {
        ToolNameView::Unknown(name)
    }
}

fn name_of(name: &str) -> (r: ToolName)
    ensures
        r@ == named(name@),
{
    if text::eq(name, "fetch_url") {
        ToolName::FetchUrl
    } else if text::eq(name, "list_directory") {
        ToolName::ListDirectory
    } else if text::eq(name, "read_file") {
        ToolName::ReadFile
    } else {
        ToolName::Unknown(String::from_str(name))
    }
}

fn read_argument(arguments: &serde_json::Value, key: &str) -> (r: Option<String>)
    ensures
        provider::optional_text(r) == json::text_member(json::json(*arguments), key@),
{
    match json::get(arguments, key) {
        Some(value) => match json::as_str(value) {
            Some(text) => Some(String::from_str(text)),
            None => None,
        },
        None => None,
    }
}

/// The request that a call in a chat makes, or what is wrong with the call. A tool that is not
/// known makes a request that the registry refuses.
pub fn call_request(call: &ProviderToolCall) -> (r: Result<ToolRequest, ToolError>)
    ensures
        match named(call@.name) {
            ToolNameView::Unknown(name) => r is Ok && r->Ok_0@.name == ToolNameView::Unknown(name),
            _ => match argument_problem(call@) {
                Some(problem) => r is Err && r->Err_0@ == ToolErrorView::InvalidArguments(problem),
                None => r is Ok && r->Ok_0@ == asked(call@),
            },
        },
{
    let name = name_of(&call.name);
    match &name {
        ToolName::Unknown(_) => {
            return Ok(
                ToolRequest {
                    name,
                    arguments: ToolArguments::ReadFile { path: String::new(), range: None },
                },
            );
        },
        _ => {},
    }
    if !json::is_object(&call.arguments) {
        return Err(
            ToolError::InvalidArguments(String::from_str("arguments must be an object")),
        );
    }
    match name {
        ToolName::FetchUrl => match read_argument(&call.arguments, "url") {
            None => Err(ToolError::InvalidArguments(String::from_str("url must be a string"))),
            Some(url) => Ok(ToolRequest { name, arguments: ToolArguments::FetchUrl { url } }),
        },
        ToolName::ListDirectory => match read_argument(&call.arguments, "path") {
            None => Err(ToolError::InvalidArguments(String::from_str("path must be a string"))),
            Some(path) => Ok(
                ToolRequest { name, arguments: ToolArguments::ListDirectory { path } },
            ),
        },
        _ => match read_argument(&call.arguments, "path") {
            None => Err(ToolError::InvalidArguments(String::from_str("path must be a string"))),
            Some(path) => {
                let range = match (
                    json::get(&call.arguments, "start_line"),
                    json::get(&call.arguments, "end_line"),
                ) {
                    (None, None) => None,
                    (Some(start), Some(end)) => match (json::as_u64(start), json::as_u64(end)) {
                        (Some(start_line), Some(end_line)) => Some(
                            ReadFileRange {
                                start_line: start_line as usize,
                                end_line: end_line as usize,
                            },
                        ),
                        _ => {
                            return Err(
                                ToolError::InvalidArguments(
                                    String::from_str("line range must be integers"),
                                ),
                            );
                        },
                    },
                    _ => {
                        return Err(
                            ToolError::InvalidArguments(
                                String::from_str(
                                    "start_line and end_line must be provided together",
                                ),
                            ),
                        );
                    },
                };
                Ok(ToolRequest { name, arguments: ToolArguments::ReadFile { path, range } })
            },
        },
    }
}

/// Why a call in a chat is refused before any tool runs.
pub open spec fn call_refusal(call: ToolCallView) -> Option<ToolErrorView> {
    match named(call.name) {
        ToolNameView::Unknown(name) => Some(ToolErrorView::UnknownTool(name)),
        _ => match argument_problem(call) {
            Some(problem) => Some(ToolErrorView::InvalidArguments(problem)),
            None => None,
        },
    }
}

/// Whether a result is what a call of a chat comes to: its refusal, or what the registry makes of
/// it.
pub open spec fn call_comes_to<C: Capabilities>(
    registry: &ToolRegistry<C>,
    cancellation: &Cancellation,
    call: ToolCallView,
    result: ToolResult,
) -> bool {
    &&& result.tool@ == named(call.name)
    &&& match call_refusal(call) {
        Some(error) => result.result is Err && result.result->Err_0@ == error,
        None => tools::comes_to(&registry.capabilities, asked(call), cancellation, result),
    }
}

/// Runs a call of a chat. A call of no known tool, or with arguments that are not in order, is
/// refused before any tool runs.
pub fn execute_call<C: Capabilities>(
    registry: &ToolRegistry<C>,
    call: &ProviderToolCall,
    cancellation: &Cancellation,
) -> (r: ToolResult)
    ensures
        call_comes_to(registry, cancellation, call@, r),
{
    match call_request(call) {
        Err(error) => ToolResult { tool: name_of(&call.name), result: Err(error) },
        Ok(request) => registry.execute_with_cancel(request, cancellation),
    }
}

/// How a range of lines is told.
pub open spec fn range_json(range: Option<ReadFileRange>) -> Json {
    match range {
        Some(range) => json::object_of(
            seq![
                ("start_line"@, json::number_of(range.start_line as u64)),
                ("end_line"@, json::number_of(range.end_line as u64)),
            ],
        ),
        None => Json::Null,
    }
}

/// How the result of a call is told to the model. A page is told as the object that it is, with
/// the tool's name; any other result in an object of its own; an error as an error.
pub open spec fn result_json(result: ToolResult, tool_name: Seq<char>) -> Json {
    match result.result {
        Ok(output) => if tool_name == "fetch_url"@ {
            match json::parsed_json(vstd::utf8::encode_utf8(output.content@)) {
                Some(Json::Object(members)) => Json::Object(
                    members.insert("tool"@, Json::Text(tool_name)),
                ),
                Some(Json::Null) => Json::Object(
                    Map::<Seq<char>, Json>::empty().insert("tool"@, Json::Text(tool_name)),
                ),
                _ => json::object_of(
                    seq![
                        ("tool"@, Json::Text(tool_name)),
                        ("path"@, Json::Text(output.metadata.path@)),
                        ("content"@, Json::Text(output.content@)),
                    ],
                ),
            }
        } else {
            json::object_of(
                seq![
                    ("tool"@, Json::Text(tool_name)),
                    ("path"@, Json::Text(output.metadata.path@)),
                    ("content"@, Json::Text(output.content@)),
                    (
                        "metadata"@,
                        json::object_of(
                            seq![
                                ("bytes"@, json::number_of(output.metadata.bytes as u64)),
                                ("range"@, range_json(output.metadata.range)),
                            ],
                        ),
                    ),
                ],
            )
        },
        Err(error) => json::object_of(
            seq![
                ("error"@, Json::Text(tools::error_debug(error@))),
                ("tool"@, Json::Text(tool_name)),
            ],
        ),
    }
}

fn range_value(range: &Option<ReadFileRange>) -> (r: serde_json::Value)
    ensures
        json::json(r) == range_json(*range),
{
    match range {
        None => json::null_value(),
        Some(range) => {
            let mut members: Vec<(String, serde_json::Value)> = Vec::new();
            members.push(json::entry("start_line", json::number_value(range.start_line as u64)));
            members.push(json::entry("end_line", json::number_value(range.end_line as u64)));
            assert(json::entry_views(members@) =~= seq![
                ("start_line"@, json::number_of(range.start_line as u64)),
                ("end_line"@, json::number_of(range.end_line as u64)),
            ]);
            json::object_value(members)
        },
    }
}

/// How the result of a call is told to the model.
pub fn tool_result_content(result: &ToolResult, tool_name: &str) -> (r: String)
    ensures
        r@ == json::json_text(result_json(*result, tool_name@)),
{
    match &result.result {
        Ok(output) => {
            let fetched = text::eq(tool_name, "fetch_url");
            if fetched {
                match json::parse_json(output.content.as_str().as_bytes()) {
                    Some(value) => {
                        let mut value = value;
                        if json::is_object(&value) || json::is_null(&value) {
                            json::set_member(
                                &mut value,
                                "tool",
                                json::text_value(String::from_str(tool_name)),
                            );
                            return json::to_text(&value);
                        }
                    },
                    None => {},
                }
            }
            let mut members: Vec<(String, serde_json::Value)> = Vec::new();
            members.push(json::text_entry("tool", tool_name));
            members.push(json::text_entry("path", &output.metadata.path));
            members.push(json::text_entry("content", &output.content));
            if fetched {
                assert(json::entry_views(members@) =~= seq![
                    ("tool"@, Json::Text(tool_name@)),
                    ("path"@, Json::Text(output.metadata.path@)),
                    ("content"@, Json::Text(output.content@)),
                ]);
                return json::to_text(&json::object_value(members));
            }
            let mut metadata: Vec<(String, serde_json::Value)> = Vec::new();
            metadata.push(json::entry("bytes", json::number_value(output.metadata.bytes as u64)));
            metadata.push(json::entry("range", range_value(&output.metadata.range)));
            let ghost known = seq![
                ("bytes"@, json::number_of(output.metadata.bytes as u64)),
                ("range"@, range_json(output.metadata.range)),
            ];
            assert(json::entry_views(metadata@) =~= known);
            members.push(json::entry("metadata", json::object_value(metadata)));
            assert(json::entry_views(members@) =~= seq![
                ("tool"@, Json::Text(tool_name@)),
                ("path"@, Json::Text(output.metadata.path@)),
                ("content"@, Json::Text(output.content@)),
                ("metadata"@, json::object_of(known)),
            ]);
            json::to_text(&json::object_value(members))
        },
        Err(error) => {
            let mut members: Vec<(String, serde_json::Value)> = Vec::new();
            members.push(
                json::entry("error", json::text_value(tools::format_tool_error(error))),
            );
            members.push(json::text_entry("tool", tool_name));
            assert(json::entry_views(members@) =~= seq![
                ("error"@, Json::Text(tools::error_debug(error@))),
                ("tool"@, Json::Text(tool_name@)),
            ]);
            json::to_text(&json::object_value(members))
        },
    }
}

/// The calls among some events, in their order.
pub open spec fn calls_in(events: Seq<StreamEventView>) -> Seq<ToolCallView>
    decreases events.len(),
{
    if events.len() == 0 {
        Seq::empty()
    } else {
        match events.last() {
            StreamEventView::ToolCall(call) => calls_in(events.drop_last()).push(call),
            _ => calls_in(events.drop_last()),
        }
    }
}

/// The calls among some events, in their order.
pub fn tool_calls(events: &Vec<ProviderChatStreamEvent>) -> (r: Vec<ProviderToolCall>)
    ensures
        provider::call_views(r@) == calls_in(provider::stream_views(events@)),
{
    let ghost all = provider::stream_views(events@);
    let mut out: Vec<ProviderToolCall> = Vec::new();
    let mut i: usize = 0;
    assert(all.take(0) =~= Seq::<StreamEventView>::empty());
    assert(provider::call_views(out@) =~= Seq::<ToolCallView>::empty());
    while i < events.len()
        invariant
            i <= events@.len(),
            all == provider::stream_views(events@),
            provider::call_views(out@) == calls_in(all.take(i as int)),
        decreases events@.len() - i,
    {
        let ghost before = provider::call_views(out@);
        assert(all.take(i + 1).drop_last() =~= all.take(i as int));
        assert(all.take(i + 1).last() == events@[i as int]@);
        match &events[i] {
            ProviderChatStreamEvent::ToolCall(call) => {
                let copy = call.clone();
                out.push(copy);
                assert(provider::call_views(out@) =~= before.push(copy@));
            },
            _ => {},
        }
        i += 1;
    }
    assert(all.take(i as int) =~= all);
    out
}

/// A chat between two turns of the model: what the model is asked next, how many rounds of tool
/// calls it has had, and how many calls.
#[derive(Debug)]
pub struct RoundTrip {
    pub request: ProviderChatRequest,
    pub round: usize,
    pub total_calls: usize,
}

/// A `RoundTrip` by what it says.
#[verifier::ext_equal]
pub struct RoundTripView {
    pub request: RequestView,
    pub round: nat,
    pub total_calls: nat,
}

impl View for RoundTrip {
    type V = RoundTripView;

    open spec fn view(&self) -> RoundTripView {
        RoundTripView {
            request: self.request@,
            round: self.round as nat,
            total_calls: self.total_calls as nat,
        }
    }
}

/// What is next in a chat.
#[derive(Debug)]
pub enum RoundStep {
    Answer,
    RunTools(Vec<ProviderToolCall>),
    Fail(ToolRoundTripError),
}

/// A `RoundStep` by what it says.
#[verifier::ext_equal]
pub enum RoundStepView {
    Answer,
    RunTools(Seq<ToolCallView>),
    Fail(RoundTripErrorView),
}

impl View for RoundStep {
    type V = RoundStepView;

    open spec fn view(&self) -> RoundStepView {
        match *self {
            RoundStep::Answer => RoundStepView::Answer,
            RoundStep::RunTools(calls) => RoundStepView::RunTools(provider::call_views(calls@)),
            RoundStep::Fail(error) => RoundStepView::Fail(error@),
        }
    }
}

/// What the model is asked next: once the rounds are used up, to answer without tools.
pub open spec fn next_request(chat: RoundTripView) -> RequestView {
    if chat.round >= MAX_TOOL_ROUNDS {
        RequestView { tools: None, ..chat.request }
    } else {
        chat.request
    }
}

/// What is next once the model has answered with these calls. Whoever calls no tool has given the
/// answer. Without tools, and beyond either limit, calls are refused.
pub open spec fn next_step(
    chat: RoundTripView,
    calls: Seq<ToolCallView>,
    tools_available: bool,
) -> RoundStepView {
    if calls.len() == 0 {
        RoundStepView::Answer
    } else if chat.round >= MAX_TOOL_ROUNDS {
        RoundStepView::Fail(RoundTripErrorView::ToolRoundLimit)
    } else if chat.total_calls + calls.len() > MAX_TOOL_CALLS {
        RoundStepView::Fail(RoundTripErrorView::ToolCallLimit)
    } else if !tools_available {
        RoundStepView::Fail(RoundTripErrorView::Tool("read-only tools unavailable"@))
    } else {
        RoundStepView::RunTools(calls)
    }
}

/// The message of the assistant that makes calls.
pub open spec fn calling_message(calls: Seq<ToolCallView>) -> MessageView {
    MessageView {
        role: ChatRole::Assistant,
        content: Seq::empty(),
        reasoning: None,
        tool_call_id: None,
        tool_calls: calls,
    }
}

/// A request with one message more.
pub open spec fn asked_with(request: RequestView, message: MessageView) -> RequestView {
    RequestView { messages: request.messages.push(message), ..request }
}

impl RoundTrip {
    /// Whether the chat has kept to its limits.
    pub open spec fn wf(&self) -> bool {
        self.round <= MAX_TOOL_ROUNDS && self.total_calls <= MAX_TOOL_CALLS
    }

    /// A chat that begins.
    pub fn new(request: ProviderChatRequest) -> (r: Self)
        ensures
            r.wf(),
            r@ == (RoundTripView { request: request@, round: 0, total_calls: 0 }),
    {
        RoundTrip { request, round: 0, total_calls: 0 }
    }

    /// What the model is asked next.
    pub fn next_request(&self) -> (r: ProviderChatRequest)
        ensures
            r@ == next_request(self@),
    {
        let mut request = self.request.clone();
        if self.round >= MAX_TOOL_ROUNDS {
            request.tools = None;
        }
        request
    }

    /// What is next once the model has said these things. Where tools are to run, the calls are
    /// counted and join the conversation.
    pub fn after_model(&mut self, events: &Vec<ProviderChatStreamEvent>, tools_available: bool) ->
        (r: RoundStep)
        requires
            old(self).wf(),
        ensures
            final(self).wf(),
            r@ == next_step(
                old(self)@,
                calls_in(provider::stream_views(events@)),
                tools_available,
            ),
            match r@ {
                RoundStepView::RunTools(calls) => final(self)@ == (RoundTripView {
                    request: asked_with(old(self)@.request, calling_message(calls)),
                    total_calls: old(self)@.total_calls + calls.len(),
                    ..old(self)@
                }),
                _ => final(self)@ == old(self)@,
            },
    {
        let calls = tool_calls(events);
        if calls.len() == 0 {
            return RoundStep::Answer;
        }
        if self.round >= MAX_TOOL_ROUNDS {
            return RoundStep::Fail(ToolRoundTripError::ToolRoundLimit);
        }
        if calls.len() > MAX_TOOL_CALLS - self.total_calls {
            return RoundStep::Fail(ToolRoundTripError::ToolCallLimit);
        }
        if !tools_available {
            return RoundStep::Fail(
                ToolRoundTripError::Tool(String::from_str("read-only tools unavailable")),
            );
        }
        self.total_calls = self.total_calls + calls.len();
        let ghost messages = self.request.messages@;
        let assistant = ProviderChatMessage {
            role: ChatRole::Assistant,
            content: String::new(),
            reasoning: None,
            tool_call_id: None,
            tool_calls: provider::clone_calls(&calls),
        };
        self.request.messages.push(assistant);
        assert(provider::message_views(self.request.messages@) =~= provider::message_views(
            messages,
        ).push(assistant@));
        RoundStep::RunTools(calls)
    }

    /// Adds what came of a call to the conversation.
    pub fn record(&mut self, call: &ProviderToolCall, content: String)
        requires
            old(self).wf(),
        ensures
            final(self).wf(),
            final(self)@ == (RoundTripView {
                request: asked_with(
                    old(self)@.request,
                    executor::tool_message_view(call@.id, content@),
                ),
                ..old(self)@
            }),
    {
        let ghost messages = self.request.messages@;
        let message = executor::tool_message(provider::clone_optional(&call.id), content);
        self.request.messages.push(message);
        assert(provider::message_views(self.request.messages@) =~= provider::message_views(
            messages,
        ).push(message@));
    }

    /// Ends a round of tool calls.
    pub fn end_round(&mut self)
        requires
            old(self).wf(),
            old(self).round < MAX_TOOL_ROUNDS,
        ensures
            final(self).wf(),
            final(self)@ == (RoundTripView { round: old(self)@.round + 1, ..old(self)@ }),
    {
        self.round = self.round + 1;
    }
}

/// A chat that begins, with a handle to look at and with what was done outside before.
pub open spec fn beginning(request: RequestView, handle: Cancellation, done: Done) -> Chat {
    Chat {
        trip: RoundTripView { request, round: 0, total_calls: 0 },
        phase: Phase::Begin,
        handle,
        done,
    }
}

/// What a provider was asked so far, and what a record tells of the calls and the looks of a chat.
pub open spec fn done_by<P: RunProvider>(provider: P, record: ChatRecord) -> Done {
    Done { asked: provider.asked(), ran: record.ran(), looked: record.looked() }
}

/// What a chat came to, by what it says.
pub open spec fn answer_view(
    result: Result<Vec<ProviderChatStreamEvent>, ToolRoundTripError>,
) -> Result<Seq<StreamEventView>, RoundTripErrorView> {
    match result {
        Ok(events) => Ok(provider::stream_views(events@)),
        Err(error) => Err(error@),
    }
}

/// A turn of a model.
pub open spec fn exchange(
    request: RequestView,
    events: Seq<ProviderChatStreamEvent>,
    outcome: Result<(), ProviderError>,
) -> Exchange {
    Exchange {
        request,
        said: provider::stream_views(events),
        error: executor::turn_error(outcome),
    }
}

/// Whoever asks a model in a chat.
pub trait RunProvider {
    /// The turns so far. A verified provider keeps them; one that leaves this as it is cannot meet
    /// what `run` promises.
    closed spec fn asked(&self) -> Seq<Exchange> {
        arbitrary()
    }

    /// Asks for one turn more. What the model says is appended to `events`, also where the turn then
    /// fails.
    fn run(
        &mut self,
        request: &ProviderChatRequest,
        events: &mut Vec<ProviderChatStreamEvent>,
    ) -> (r: Result<(), ProviderError>)
        ensures
            final(self).asked() == old(self).asked().push(exchange(request@, final(events)@, r)),
    ;
}

/// Runs the calls of a round, one after the other, and tells the model what came of them; whether
/// the chat was not asked to stop.
fn run_calls<P: RunProvider, C: Capabilities>(
    chat: &mut RoundTrip,
    calls: Vec<ProviderToolCall>,
    registry: &ToolRegistry<C>,
    cancellation: &Cancellation,
    provider: &P,
    record: &mut ChatRecord,
    Ghost(from): Ghost<Chat>,
) -> (r: bool)
    requires
        old(chat).wf(),
        chat::leads(
            Some(registry),
            cancellation,
            from,
            (Chat {
                trip: old(chat)@,
                phase: Phase::Calls(provider::call_views(calls@)),
                handle: *cancellation,
                done: done_by(*provider, *old(record)),
            }),
        ),
    ensures
        final(chat).wf(),
        final(chat).round == old(chat).round,
        r ==> chat::leads(
            Some(registry),
            cancellation,
            from,
            (Chat {
                trip: final(chat)@,
                phase: Phase::Calls(Seq::empty()),
                handle: *cancellation,
                done: done_by(*provider, *final(record)),
            }),
        ),
        !r ==> chat::comes_to_end(
            Some(registry),
            cancellation,
            from,
            done_by(*provider, *final(record)),
            Err(RoundTripErrorView::Cancelled),
        ),
{
    let ghost all = provider::call_views(calls@);
    let mut i: usize = 0;
    assert(all.skip(0) =~= all);
    while i < calls.len()
        invariant
            i <= calls@.len(),
            all == provider::call_views(calls@),
            chat.wf(),
            chat.round == old(chat).round,
            chat::leads(
                Some(registry),
                cancellation,
                from,
                (Chat {
                    trip: chat@,
                    phase: Phase::Calls(all.skip(i as int)),
                    handle: *cancellation,
                    done: done_by(*provider, *record),
                }),
            ),
        decreases calls@.len() - i,
    {
        let ghost here = Chat {
            trip: chat@,
            phase: Phase::Calls(all.skip(i as int)),
            handle: *cancellation,
            done: done_by(*provider, *record),
        };
        if record.look(cancellation, provider) {
            proof {
                let s = Step::Looked(true);
                chat::lemma_leads_step(Some(registry), cancellation, from, here, s);
                chat::lemma_end(
                    Some(registry),
                    cancellation,
                    from,
                    chat::step(here, true, s),
                    Err(RoundTripErrorView::Cancelled),
                );
            }
            return false;
        }
        let result = record.run_call(registry, &calls[i], cancellation);
        let content = tool_result_content(&result, &calls[i].name);
        chat.record(&calls[i], content);
        proof {
            let call = calls@[i as int]@;
            assert(all.skip(i as int)[0] == call);
            assert(all.skip(i as int).skip(1) =~= all.skip(i + 1));
            chat::lemma_leads_step(
                Some(registry),
                cancellation,
                from,
                here,
                Step::Looked(false),
            );
            let taken = chat::step(here, true, Step::Looked(false));
            chat::lemma_leads_step(
                Some(registry),
                cancellation,
                from,
                taken,
                Step::Ran(call, result),
            );
        }
        i += 1;
    }
    assert(all.skip(i as int) =~= Seq::<ToolCallView>::empty());
    true
}

/// Runs a chat to the model's answer: the events of a turn without tool calls. Tools run for a
/// bounded number of rounds; then the model has to answer without them. Every call and every look at
/// the handle goes through the record.
pub fn run_recorded_round_trip<P: RunProvider, C: Capabilities>(
    request: ProviderChatRequest,
    registry: Option<&ToolRegistry<C>>,
    cancellation: &Cancellation,
    provider: &mut P,
    record: &mut ChatRecord,
) -> (r: Result<Vec<ProviderChatStreamEvent>, ToolRoundTripError>)
    ensures
        chat::comes_to_end(
            registry,
            cancellation,
            beginning(request@, *cancellation, done_by(*old(provider), *old(record))),
            done_by(*final(provider), *final(record)),
            answer_view(r),
        ),
{
    let ghost from = beginning(request@, *cancellation, done_by(*provider, *record));
    proof {
        chat::lemma_leads_start(registry, cancellation, from);
    }
    if record.look(cancellation, &*provider) {
        proof {
            let s = Step::Looked(true);
            chat::lemma_leads_step(registry, cancellation, from, from, s);
            chat::lemma_end(
                registry,
                cancellation,
                from,
                chat::step(from, registry is Some, s),
                Err(RoundTripErrorView::Cancelled),
            );
        }
        return Err(ToolRoundTripError::Cancelled);
    }
    let mut chat = RoundTrip::new(request);
    proof {
        chat::lemma_leads_step(registry, cancellation, from, from, Step::Looked(false));
    }
    loop
        invariant
            chat.wf(),
            from == beginning(request@, *cancellation, done_by(*old(provider), *old(record))),
            chat::leads(
                registry,
                cancellation,
                from,
                (Chat {
                    trip: chat@,
                    phase: Phase::Next,
                    handle: *cancellation,
                    done: done_by(*provider, *record),
                }),
            ),
        decreases MAX_TOOL_ROUNDS - chat.round,
    {
        let ghost here = Chat {
            trip: chat@,
            phase: Phase::Next,
            handle: *cancellation,
            done: done_by(*provider, *record),
        };
        if record.look(cancellation, &*provider) {
            proof {
                let s = Step::Looked(true);
                chat::lemma_leads_step(registry, cancellation, from, here, s);
                chat::lemma_end(
                    registry,
                    cancellation,
                    from,
                    chat::step(here, registry is Some, s),
                    Err(RoundTripErrorView::Cancelled),
                );
            }
            return Err(ToolRoundTripError::Cancelled);
        }
        let mut events: Vec<ProviderChatStreamEvent> = Vec::new();
        let next = chat.next_request();
        let outcome = provider.run(&next, &mut events);
        let ghost turn = exchange(next@, events@, outcome);
        let ghost asking = chat::step(here, registry is Some, Step::Looked(false));
        let ghost heard = chat::step(asking, registry is Some, Step::Asked(turn));
        proof {
            chat::lemma_leads_step(registry, cancellation, from, here, Step::Looked(false));
            chat::lemma_leads_step(registry, cancellation, from, asking, Step::Asked(turn));
        }
        match outcome {
            Err(error) => {
                proof {
                    chat::lemma_end(
                        registry,
                        cancellation,
                        from,
                        heard,
                        Err(RoundTripErrorView::Provider(error@)),
                    );
                }
                return Err(ToolRoundTripError::Provider(error));
            },
            Ok(_) => {},
        }
        if record.look(cancellation, &*provider) {
            proof {
                let s = Step::Looked(true);
                chat::lemma_leads_step(registry, cancellation, from, heard, s);
                chat::lemma_end(
                    registry,
                    cancellation,
                    from,
                    chat::step(heard, registry is Some, s),
                    Err(RoundTripErrorView::Cancelled),
                );
            }
            return Err(ToolRoundTripError::Cancelled);
        }
        let ghost settled = chat::step(heard, registry is Some, Step::Looked(false));
        proof {
            chat::lemma_leads_step(registry, cancellation, from, heard, Step::Looked(false));
        }
        let calls = match chat.after_model(&events, registry.is_some()) {
            RoundStep::Answer => {
                proof {
                    chat::lemma_end(
                        registry,
                        cancellation,
                        from,
                        settled,
                        Ok(provider::stream_views(events@)),
                    );
                }
                return Ok(events);
            },
            RoundStep::Fail(error) => {
                proof {
                    chat::lemma_end(registry, cancellation, from, settled, Err(error@));
                }
                return Err(error);
            },
            RoundStep::RunTools(calls) => calls,
        };
        match registry {
            None => {
                return Err(
                    ToolRoundTripError::Tool(String::from_str("read-only tools unavailable")),
                );
            },
            Some(registry) => {
                if !run_calls(
                    &mut chat,
                    calls,
                    registry,
                    cancellation,
                    &*provider,
                    record,
                    Ghost(from),
                ) {
                    return Err(ToolRoundTripError::Cancelled);
                }
            },
        }
        let ghost done = Chat {
            trip: chat@,
            phase: Phase::Calls(Seq::empty()),
            handle: *cancellation,
            done: done_by(*provider, *record),
        };
        if record.look(cancellation, &*provider) {
            proof {
                let s = Step::Looked(true);
                chat::lemma_leads_step(registry, cancellation, from, done, s);
                chat::lemma_end(
                    registry,
                    cancellation,
                    from,
                    chat::step(done, registry is Some, s),
                    Err(RoundTripErrorView::Cancelled),
                );
            }
            return Err(ToolRoundTripError::Cancelled);
        }
        proof {
            chat::lemma_leads_step(registry, cancellation, from, done, Step::Looked(false));
        }
        chat.end_round();
    }
}

/// Runs a chat to the model's answer: the events of a turn without tool calls. Tools run for a
/// bounded number of rounds; then the model has to answer without them. The calls and the looks at
/// the handle are those of one record.
pub fn run_read_file_round_trip<P: RunProvider, C: Capabilities>(
    request: ProviderChatRequest,
    registry: Option<&ToolRegistry<C>>,
    cancellation: &Cancellation,
    provider: &mut P,
) -> (r: Result<Vec<ProviderChatStreamEvent>, ToolRoundTripError>)
    ensures
        exists|record: ChatRecord| #[trigger]
            chat::comes_to_end(
                registry,
                cancellation,
                beginning(
                    request@,
                    *cancellation,
                    Done {
                        asked: old(provider).asked(),
                        ran: Seq::empty(),
                        looked: Seq::empty(),
                    },
                ),
                done_by(*final(provider), record),
                answer_view(r),
            ),
{
    let mut record = ChatRecord::new();
    let ghost before = done_by(*provider, record);
    let r = run_recorded_round_trip(request, registry, cancellation, provider, &mut record);
    assert(chat::comes_to_end(
        registry,
        cancellation,
        beginning(request@, *cancellation, before),
        done_by(*provider, record),
        answer_view(r),
    ));
    r
}

/// A chat never has more rounds of tool calls, and never makes more calls, than it may: with the
/// rounds used up no step runs tools, and no step takes the calls beyond their limit.
pub proof fn law_tool_use_is_bounded(
    chat: RoundTripView,
    calls: Seq<ToolCallView>,
    tools_available: bool,
)
    ensures
        next_step(chat, calls, tools_available) is RunTools ==> chat.round < MAX_TOOL_ROUNDS
            && chat.total_calls + calls.len() <= MAX_TOOL_CALLS && tools_available,
        chat.round >= MAX_TOOL_ROUNDS ==> next_request(chat).tools is None,
{
}

/// An error that is about the tools or the user is never told as one of the provider.
pub proof fn law_tool_errors_are_not_provider_errors(error: RoundTripErrorView)
    requires
        !(error is Provider),
    ensures
        user_text(error) != "Ollama unavailable"@,
{
    reveal_strlit("Ollama unavailable");
    reveal_strlit("Generation cancelled");
    reveal_strlit("Tool request failed");
    reveal_strlit("Tool round limit reached");
    reveal_strlit("Tool call limit reached");
    assert("Ollama unavailable"@[0] == 'O');
    assert(user_text(error)[0] != 'O');
}

/// What is wrong with the arguments of a call of an agent.
pub open spec fn agent_argument_problem(call: ToolCallView) -> Option<Seq<char>> {
    if !(call.arguments is Object) {
        Some("arguments must be an object"@)
    } else {
        match named(call.name) {
            ToolNameView::Unknown(_) => None,
            ToolNameView::FetchUrl => if json::text_member(call.arguments, "url"@) is None {
                Some("url must be a string"@)
            } else {
                None
            },
            ToolNameView::ListDirectory => if json::text_member(call.arguments, "path"@) is None {
                Some("path must be a string"@)
            } else {
                None
            },
            ToolNameView::ReadFile => if json::text_member(call.arguments, "path"@) is None {
                Some("path must be a string"@)
            } else {
                match (
                    json::member(call.arguments, "start_line"@),
                    json::member(call.arguments, "end_line"@),
                ) {
                    (None, None) => None,
                    (Some(start), Some(end)) => if json::unsigned_of(start) is None {
                        Some("start_line must be an integer"@)
                    } else if json::unsigned_of(end) is None {
                        Some("end_line must be an integer"@)
                    } else {
                        None
                    },
                    _ => Some("start_line and end_line must be provided together"@),
                }
            },
        }
    }
}

/// The request that a call of an agent makes.
pub open spec fn agent_asked(call: ToolCallView) -> ToolRequestView {
    match named(call.name) {
        ToolNameView::Unknown(name) => ToolRequestView {
            name: ToolNameView::Unknown(name),
            arguments: ToolArgumentsView::ListDirectory { path: Seq::empty() },
        },
        _ => asked(call),
    }
}

/// The request that a call of an agent makes, or what is wrong with the call.
pub fn provider_call_to_request(call: &ProviderToolCall) -> (r: Result<ToolRequest, String>)
    ensures
        match agent_argument_problem(call@) {
            Some(problem) => r is Err && r->Err_0@ == problem,
            None => r is Ok && r->Ok_0@ == agent_asked(call@),
        },
{
    if !json::is_object(&call.arguments) {
        return Err(String::from_str("arguments must be an object"));
    }
    let name = name_of(&call.name);
    match name {
        ToolName::ReadFile => match read_argument(&call.arguments, "path") {
            None => Err(String::from_str("path must be a string")),
            Some(path) => {
                let range = match (
                    json::get(&call.arguments, "start_line"),
                    json::get(&call.arguments, "end_line"),
                ) {
                    (None, None) => None,
                    (Some(start), Some(end)) => {
                        let start_line = match json::as_u64(start) {
                            None => {
                                return Err(String::from_str("start_line must be an integer"));
                            },
                            Some(line) => line as usize,
                        };
                        let end_line = match json::as_u64(end) {
                            None => {
                                return Err(String::from_str("end_line must be an integer"));
                            },
                            Some(line) => line as usize,
                        };
                        Some(ReadFileRange { start_line, end_line })
                    },
                    _ => {
                        return Err(
                            String::from_str("start_line and end_line must be provided together"),
                        );
                    },
                };
                Ok(ToolRequest { name, arguments: ToolArguments::ReadFile { path, range } })
            },
        },
        ToolName::ListDirectory => match read_argument(&call.arguments, "path") {
            None => Err(String::from_str("path must be a string")),
            Some(path) => Ok(
                ToolRequest { name, arguments: ToolArguments::ListDirectory { path } },
            ),
        },
        ToolName::FetchUrl => match read_argument(&call.arguments, "url") {
            None => Err(String::from_str("url must be a string")),
            Some(url) => Ok(ToolRequest { name, arguments: ToolArguments::FetchUrl { url } }),
        },
        ToolName::Unknown(_) => Ok(
            ToolRequest { name, arguments: ToolArguments::ListDirectory { path: String::new() } },
        ),
    }
}

/// What an agent's model is told of a result: the content, or the error in words.
pub open spec fn told_of(result: ToolResult) -> GivenView {
    match result.result {
        Ok(output) => GivenView::Told { succeeded: true, content: output.content@ },
        Err(error) => GivenView::Told { succeeded: false, content: tools::error_text(error@) },
    }
}

/// What an agent's model is told of a result.
pub fn outcome_of(result: ToolResult) -> (r: ToolOutcome)
    ensures
        executor::given(Ok(r)) == told_of(result),
{
    match result.result {
        Ok(output) => ToolOutcome::Success(output.content),
        Err(error) => ToolOutcome::ControlledError(tools::tool_error_message(&error)),
    }
}

/// Lets an agent call the tools of a registry.
pub struct AgentToolAdapter<C> {
    pub registry: Option<ToolRegistry<C>>,
    pub cancellation: Cancellation,
    pub history: Ghost<Seq<(ToolCallView, GivenView)>>,
}

impl<C: Capabilities> AgentToolAdapter<C> {
    /// The tools of a registry.
    pub fn new(registry: ToolRegistry<C>, cancellation: Cancellation) -> (r: Self)
        ensures
            r.registry == Some(registry),
            r.cancellation == cancellation,
            r.ran() == Seq::<(ToolCallView, GivenView)>::empty(),
    {
        AgentToolAdapter { registry: Some(registry), cancellation, history: Ghost(Seq::empty()) }
    }

    /// No tools at all.
    pub fn without_tools(cancellation: Cancellation) -> (r: Self)
        ensures
            r.registry is None,
            r.cancellation == cancellation,
            r.ran() == Seq::<(ToolCallView, GivenView)>::empty(),
    {
        AgentToolAdapter { registry: None, cancellation, history: Ghost(Seq::empty()) }
    }
}

/// Whether a call of an agent may come to this. A call whose arguments are not in order comes to an
/// error that says so; without tools no other call can be run; any other comes to what the registry
/// makes of it.
pub open spec fn agent_call_comes_to<C: Capabilities>(
    registry: Option<ToolRegistry<C>>,
    cancellation: &Cancellation,
    call: ToolCallView,
    given: GivenView,
) -> bool {
    match agent_argument_problem(call) {
        Some(problem) => given == (GivenView::Told { succeeded: false, content: problem }),
        None => match registry {
            None => given == GivenView::Broken("read-only tools unavailable"@),
            Some(registry) => exists|result: ToolResult|
                given == told_of(result) && #[trigger] tools::comes_to(
                    &registry.capabilities,
                    agent_asked(call),
                    cancellation,
                    result,
                ),
        },
    }
}

/// What may come of a call of an agent that has the tools of a registry, if there is one.
pub open spec fn agent_gives<C: Capabilities>(
    registry: Option<ToolRegistry<C>>,
    cancellation: Cancellation,
) -> spec_fn(ToolCallView, GivenView) -> bool {
    |call: ToolCallView, given: GivenView|
        agent_call_comes_to(registry, &cancellation, call, given)
}

impl<C: Capabilities> ToolExecutor for AgentToolAdapter<C> {
    closed spec fn ran(&self) -> Seq<(ToolCallView, GivenView)> {
        self.history@
    }

    open spec fn gives(&self) -> spec_fn(ToolCallView, GivenView) -> bool {
        agent_gives(self.registry, self.cancellation)
    }

    fn execute(&mut self, call: &ProviderToolCall) -> (r: Result<
        ToolOutcome,
        ToolInfrastructureError,
    >)
        ensures
            final(self).registry == old(self).registry,
            final(self).cancellation == old(self).cancellation,
            agent_call_comes_to(
                old(self).registry,
                &old(self).cancellation,
                call@,
                executor::given(r),
            ),
    {
        let r = match provider_call_to_request(call) {
            Err(problem) => Ok(ToolOutcome::ControlledError(problem)),
            Ok(request) => match &self.registry {
                None => Err(
                    ToolInfrastructureError {
                        message: String::from_str("read-only tools unavailable"),
                    },
                ),
                Some(registry) => {
                    let result = registry.execute_with_cancel(request, &self.cancellation);
                    assert(tools::comes_to(
                        &registry.capabilities,
                        agent_asked(call@),
                        &self.cancellation,
                        result,
                    ));
                    Ok(outcome_of(result))
                },
            },
        };
        proof {
            self.history@ = self.history@.push((call@, executor::given(r)));
        }
        r
    }
}

/// Hands out the names of runs, each one larger than the last.
#[derive(Debug)]
pub struct RunIds {
    pub next: u64,
}

impl Default for RunIds {
    fn default() -> (r: Self)
        ensures
            r.next == 1,
    {
        RunIds { next: 1 }
    }
}

/// The name of the next run. Names start again at zero after the last 64-bit number.
pub fn next_agent_run_id(ids: &mut RunIds) -> (r: AgentRunId)
    ensures
        r@ == old(ids).next,
        final(ids).next == (if old(ids).next == u64::MAX { 0 } else { old(ids).next + 1 }),
{
    let id: u64 = ids.next;
    ids.next = id.wrapping_add(1);
    AgentRunId::new(id)
}

/// Takes a request of an agent from its beginning to the model's answer, under the read-only
/// policy and with the tools of a registry, if there is one.
pub fn execute_agent_run<P: ProviderExecutor, C: Capabilities, S: EventSink>(
    run: &mut AgentRun,
    request: ProviderChatRequest,
    provider: &mut P,
    registry: Option<ToolRegistry<C>>,
    sink: &mut S,
) -> (r: Result<AgentExecutionResult, AgentExecutionError>)
    ensures
        executor::stopped_by_handle(old(run)@, final(run)@),
        exists|past: Past, looks: Looks, waiting: Option<executor::ContinuationView>|
            {
                &&& #[trigger] executor::executed::<ReadOnlyToolPolicy>(
                    old(run)@,
                    request@,
                    old(sink).emitted(),
                    Past {
                        asked: old(provider).asked(),
                        judged: Seq::empty(),
                        ran: Seq::empty(),
                        looked: Seq::empty(),
                        gives: agent_gives(registry, old(run)@.handle),
                    },
                    None,
                    final(run)@,
                    final(sink).emitted(),
                    past,
                    waiting,
                    r,
                )
                &&& past.asked == final(provider).asked()
                &&& past.looked == #[trigger] looks.taken()
                &&& forall|k: int|
                    0 <= k < past.ran.len() ==> agent_call_comes_to(
                        registry,
                        &old(run)@.handle,
                        (#[trigger] past.ran[k]).0,
                        past.ran[k].1,
                    )
            },
{
    let cancellation = run.cancellation();
    let mut adapter = match registry {
        Some(registry) => AgentToolAdapter::new(registry, cancellation),
        None => AgentToolAdapter::without_tools(cancellation),
    };
    let policy = ReadOnlyToolPolicy::default();
    let ghost past = executor::done_by(*provider, policy, adapter, Seq::empty());
    let ghost log = sink.emitted();
    let r = executor::execute_once(provider, &mut adapter, policy, run, request, sink);
    proof {
        assert(past.gives == agent_gives(registry, old(run)@.handle));
        let (judge, looks, waiting) = choose|
            judge: ReadOnlyToolPolicy,
            looks: Looks,
            waiting: Option<executor::ContinuationView>,
        | #[trigger]
            executor::executed::<ReadOnlyToolPolicy>(
                old(run)@,
                request@,
                log,
                past,
                None,
                run@,
                sink.emitted(),
                executor::done_by(*provider, judge, adapter, looks.taken()),
                waiting,
                r,
            );
        let after = executor::done_by(*provider, judge, adapter, looks.taken());
        progress::law_executed_runs_had_what_tools_give::<ReadOnlyToolPolicy>(
            old(run)@,
            request@,
            log,
            past,
            None,
            run@,
            sink.emitted(),
            after,
            waiting,
            r,
        );
        assert forall|k: int| 0 <= k < after.ran.len() implies agent_call_comes_to(
            registry,
            &old(run)@.handle,
            (#[trigger] after.ran[k]).0,
            after.ran[k].1,
        ) by {
            assert((past.gives)(after.ran[k].0, after.ran[k].1));
        }
    }
    r
}

} // verus!
