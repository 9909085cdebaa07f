//! The tools, their results, and the rounds of a conversation that uses them.

use ide_core::executor::{ToolExecutor, ToolOutcome};
use ide_core::orchestration::{
    fetch_url_definition, next_agent_run_id, read_file_definition, read_only_tool_definitions,
    run_read_file_round_trip, run_recorded_round_trip, tool_result_content, user_message, AgentToolAdapter, RunIds, RunProvider, ToolRoundTripError, MAX_TOOL_CALLS,
    MAX_TOOL_ROUNDS,
};
use ide_core::provider::{
    ChatRole, ProviderChatMessage, ProviderChatRequest, ProviderChatStreamEvent, ProviderError,
    ProviderToolCall,
};
use ide_core::record::ChatRecord;
use ide_core::run::Cancellation;
use ide_core::tools::{
    fetch_url_result, format_tool_error, list_directory_result, read_file_result,
    tool_error_message, truncate_utf8_prefix, Capabilities, DirectoryEntry, DirectoryEntryKind,
    FetchUrlError, FetchUrlOutput, ListDirectoryError, ListDirectoryOutput, ReadFileError,
    ReadFileOutput, ReadFileRange, ToolArguments, ToolError, ToolKind, ToolMetadata, ToolName,
    ToolOutput, ToolRegistry, ToolRequest, ToolResult, MAX_TOOL_CONTENT_BYTES,
};
use serde_json::Value;

/// A project whose files are held in memory.
struct Project {
    directories: Vec<&'static str>,
    files: Vec<(&'static str, &'static str)>,
}

impl Capabilities for Project {
    fn read_file(
        &self,
        path: &str,
        range: Option<ReadFileRange>,
    ) -> Result<ReadFileOutput, ReadFileError> {
        if self.directories.contains(&path) {
            return Err(ReadFileError::Directory(path.into()));
        }
        let (_, content) = self
            .files
            .iter()
            .find(|(name, _)| *name == path)
            .ok_or_else(|| ReadFileError::NotFound(path.into()))?;
        let content: String = match range {
            Some(range) => content
                .split_inclusive('\n')
                .skip(range.start_line - 1)
                .take(range.end_line + 1 - range.start_line)
                .collect(),
            None => (*content).into(),
        };
        Ok(ReadFileOutput {
            bytes: content.len(),
            content,
            path: path.into(),
            range,
        })
    }

    fn list_directory(&self, path: &str) -> Result<ListDirectoryOutput, ListDirectoryError> {
        if path != "." && !self.directories.contains(&path) {
            return Err(ListDirectoryError::NotFound(path.into()));
        }
        let inside = |name: &&str| match path {
            "." => !name.contains('/'),
            _ => name
                .strip_prefix(path)
                .and_then(|rest| rest.strip_prefix('/'))
                .is_some_and(|rest| !rest.contains('/')),
        };
        let mut entries: Vec<(&str, DirectoryEntryKind)> = Vec::new();
        for name in self.directories.iter().filter(|name| inside(name)) {
            entries.push((name, DirectoryEntryKind::Directory));
        }
        for (name, _) in self.files.iter().filter(|(name, _)| inside(name)) {
            entries.push((name, DirectoryEntryKind::File));
        }
        entries.sort_by_key(|(name, _)| *name);
        Ok(ListDirectoryOutput {
            path: path.into(),
            entries: entries
                .into_iter()
                .map(|(name, kind)| DirectoryEntry {
                    name: name.rsplit('/').next().unwrap().into(),
                    kind,
                })
                .collect(),
        })
    }

    fn fetch_url(
        &self,
        url: &str,
        cancellation: &Cancellation,
    ) -> Result<FetchUrlOutput, FetchUrlError> {
        if cancellation.is_cancelled() {
            return Err(FetchUrlError::Cancelled);
        }
        Err(FetchUrlError::BlockedAddress(url.into()))
    }
}

fn project(
    directories: Vec<&'static str>,
    files: Vec<(&'static str, &'static str)>,
) -> ToolRegistry<Project> {
    ToolRegistry::new(Project { directories, files })
}

fn registry() -> ToolRegistry<Project> {
    project(Vec::new(), Vec::new())
}

/// A provider that is a function of the request.
struct Scripted<F>(F);

impl<F> RunProvider for Scripted<F>
where
    F: FnMut(&ProviderChatRequest, &mut Vec<ProviderChatStreamEvent>) -> Result<(), ProviderError>,
{
    fn run(
        &mut self,
        request: &ProviderChatRequest,
        events: &mut Vec<ProviderChatStreamEvent>,
    ) -> Result<(), ProviderError> {
        (self.0)(request, events)
    }
}

fn object(members: Vec<(&str, Value)>) -> Value {
    Value::Object(
        members
            .into_iter()
            .map(|(name, value)| (name.to_owned(), value))
            .collect(),
    )
}

fn text(value: &str) -> Value {
    Value::String(value.into())
}

fn call(id: Option<&str>, name: &str, argument: &str, value: &str) -> ProviderChatStreamEvent {
    ProviderChatStreamEvent::ToolCall(ProviderToolCall {
        id: id.map(str::to_owned),
        name: name.into(),
        arguments: object(vec![(argument, text(value))]),
    })
}

fn content(value: &str) -> ProviderChatStreamEvent {
    ProviderChatStreamEvent::ContentDelta(value.into())
}

fn request() -> ProviderChatRequest {
    ProviderChatRequest {
        model: "fake".into(),
        messages: vec![ProviderChatMessage {
            role: ChatRole::User,
            content: "read README".into(),
            reasoning: None,
            tool_call_id: None,
            tool_calls: Vec::new(),
        }],
        think: None,
        tools: Some(vec![read_file_definition()]),
    }
}

fn read_request(path: &str) -> ToolRequest {
    ToolRequest {
        name: ToolName::ReadFile,
        arguments: ToolArguments::ReadFile {
            path: path.into(),
            range: None,
        },
    }
}

fn list_request(path: &str) -> ToolRequest {
    ToolRequest {
        name: ToolName::ListDirectory,
        arguments: ToolArguments::ListDirectory { path: path.into() },
    }
}

#[test]
fn registry_knows_read_file_as_read_only() {
    let registry = registry();
    assert_eq!(registry.kind(&ToolName::ReadFile), Some(ToolKind::ReadOnly));
    assert_eq!(
        registry.kind(&ToolName::ListDirectory),
        Some(ToolKind::ReadOnly)
    );
    assert_eq!(registry.kind(&ToolName::FetchUrl), Some(ToolKind::ReadOnly));
}

#[test]
fn read_file_adapter_delegates_content_range_and_metadata() {
    let registry = project(vec!["src"], vec![("src/Test.php", "one\ntwo\nthree\n")]);
    let result = registry.execute(ToolRequest {
        name: ToolName::ReadFile,
        arguments: ToolArguments::ReadFile {
            path: "src/Test.php".into(),
            range: Some(ReadFileRange {
                start_line: 2,
                end_line: 3,
            }),
        },
    });
    let output = result.result.unwrap();
    assert_eq!(output.content, "two\nthree\n");
    assert_eq!(output.metadata.path, "src/Test.php");
    assert_eq!(
        output.metadata.range,
        Some(ReadFileRange {
            start_line: 2,
            end_line: 3
        })
    );
}

#[test]
fn capability_errors_are_mapped_without_collapsing_categories() {
    let registry = project(vec!["App"], Vec::new());
    let result = registry.execute(read_request("missing.txt"));
    assert!(matches!(result.result, Err(ToolError::NotFound(_))));
    let result = registry.execute(read_request("App"));
    assert!(matches!(result.result, Err(ToolError::Directory(path)) if path == "App"));
}

#[test]
fn list_directory_adapter_returns_deterministic_structured_content() {
    let registry = project(vec!["App"], vec![("App/Z.php", "z"), ("App/A.php", "a")]);
    let output = registry.execute(list_request("App")).result.unwrap();
    assert!(output.content.contains("A.php"));
    assert!(output.content.contains("Z.php"));
    assert_eq!(output.metadata.path, "App");
}

#[test]
fn list_directory_adapter_preserves_nested_path_and_root_distinction() {
    let registry = project(
        vec!["App", "src", "src/App"],
        vec![("App/Root.php", "root"), ("src/App/FileStone.php", "nested")],
    );
    let src_output = registry.execute(list_request("src")).result.unwrap();
    assert_eq!(src_output.metadata.path, "src");
    assert!(src_output.content.contains("\"name\":\"App\""));
    assert!(!src_output.content.contains("FileStone.php"));

    let nested_output = registry.execute(list_request("src/App")).result.unwrap();
    assert_eq!(nested_output.metadata.path, "src/App");
    assert!(nested_output.content.contains("FileStone.php"));
    assert!(!nested_output.content.contains("Root.php"));
}

#[test]
fn unknown_tool_is_a_typed_error() {
    let result = registry().execute(ToolRequest {
        name: ToolName::Unknown("list_files".into()),
        arguments: ToolArguments::ReadFile {
            path: "x".into(),
            range: None,
        },
    });
    assert_eq!(result.tool, ToolName::Unknown("list_files".into()));
    assert!(matches!(result.result, Err(ToolError::UnknownTool(name)) if name == "list_files"));
}

#[test]
fn fetch_url_blocked_address_is_a_controlled_tool_error() {
    let result = registry().execute(ToolRequest {
        name: ToolName::FetchUrl,
        arguments: ToolArguments::FetchUrl {
            url: "http://127.0.0.1/".into(),
        },
    });
    assert!(matches!(result.result, Err(ToolError::BlockedAddress(_))));
}

#[test]
fn small_and_exact_content_are_unchanged() {
    let small = "hello";
    assert_eq!(
        truncate_utf8_prefix(small, MAX_TOOL_CONTENT_BYTES),
        (small.to_owned(), false)
    );
    let exact = "x".repeat(MAX_TOOL_CONTENT_BYTES);
    assert_eq!(
        truncate_utf8_prefix(&exact, MAX_TOOL_CONTENT_BYTES),
        (exact.clone(), false)
    );
}

#[test]
fn oversized_content_is_utf8_safe_and_marked_truncated() {
    let content = "😀".repeat(MAX_TOOL_CONTENT_BYTES);
    let (bounded, truncated) = truncate_utf8_prefix(&content, MAX_TOOL_CONTENT_BYTES);
    assert!(truncated);
    assert!(bounded.len() <= MAX_TOOL_CONTENT_BYTES);
    assert!(std::str::from_utf8(bounded.as_bytes()).is_ok());
}

#[test]
fn fetch_result_schema_preserves_urls_type_and_truncation_flag() {
    let source = "x".repeat(MAX_TOOL_CONTENT_BYTES + 1);
    let result = fetch_url_result(
        "https://example.test".into(),
        Ok(FetchUrlOutput {
            url: "https://example.test".into(),
            final_url: "https://example.test/final".into(),
            content_type: "text/html".into(),
            content: source,
            truncated: false,
        }),
    );
    let output = result.result.unwrap();
    let value: Value = serde_json::from_str(&output.content).unwrap();
    assert_eq!(value["url"], "https://example.test");
    assert_eq!(value["final_url"], "https://example.test/final");
    assert_eq!(value["content_type"], "text/html");
    assert_eq!(value["truncated"], true);
    assert!(value["content"].as_str().unwrap().len() <= MAX_TOOL_CONTENT_BYTES);
}

#[test]
fn read_file_and_list_directory_use_the_existing_registry() {
    let mut adapter = AgentToolAdapter::new(
        project(vec!["src"], vec![("Cargo.toml", "[package]\n")]),
        Cancellation::default(),
    );
    let read = ProviderToolCall {
        id: Some("read-1".into()),
        name: "read_file".into(),
        arguments: object(vec![("path", text("Cargo.toml"))]),
    };
    assert!(
        matches!(adapter.execute(&read), Ok(ToolOutcome::Success(content)) if content.contains("[package]"))
    );
    let list = ProviderToolCall {
        id: Some("list-1".into()),
        name: "list_directory".into(),
        arguments: object(vec![("path", text("."))]),
    };
    assert!(
        matches!(adapter.execute(&list), Ok(ToolOutcome::Success(content)) if content.contains("Cargo.toml"))
    );
}

#[test]
fn malformed_call_is_a_controlled_tool_error() {
    let mut adapter = AgentToolAdapter::new(registry(), Cancellation::default());
    let call = ProviderToolCall {
        id: None,
        name: "read_file".into(),
        arguments: object(Vec::new()),
    };
    assert!(matches!(
        adapter.execute(&call),
        Ok(ToolOutcome::ControlledError(_))
    ));
}

#[test]
fn fetch_url_definition_requires_only_public_url() {
    let definition = fetch_url_definition();
    assert_eq!(definition.name, "fetch_url");
    assert_eq!(
        definition.parameters["required"],
        Value::Array(vec![text("url")])
    );
    assert_eq!(
        definition.parameters["additionalProperties"],
        Value::Bool(false)
    );
    assert!(definition.description.contains("Does not search"));
}

#[test]
fn sentinel_round_trip_puts_file_in_second_request() {
    let registry = project(Vec::new(), vec![("README.md", "AXIOM_TOOL_SENTINEL_C3_91F4")]);
    let mut requests: Vec<ProviderChatRequest> = Vec::new();
    let mut run = Scripted(
        |request: &ProviderChatRequest, events: &mut Vec<ProviderChatStreamEvent>| {
            requests.push(request.clone());
            if requests.len() == 1 {
                events.push(call(Some("1"), "read_file", "path", "README.md"));
            } else {
                events.push(content("sentinel recebido"));
            }
            events.push(ProviderChatStreamEvent::Done);
            Ok(())
        },
    );
    let events = run_read_file_round_trip(
        request(),
        Some(&registry),
        &Cancellation::default(),
        &mut run,
    )
    .unwrap();
    assert!(matches!(
        events[0],
        ProviderChatStreamEvent::ContentDelta(_)
    ));
    assert!(requests[1]
        .messages
        .iter()
        .any(|message| message.role == ChatRole::Tool
            && message.content.contains("AXIOM_TOOL_SENTINEL_C3_91F4")));
    assert_eq!(requests[1].messages[1].tool_calls.len(), 1);
}

#[test]
fn list_directory_round_trip_puts_entries_in_second_request() {
    let registry = project(vec!["App"], vec![("App/Controller.php", "<?php")]);
    let mut requests: Vec<ProviderChatRequest> = Vec::new();
    let mut run = Scripted(
        |request: &ProviderChatRequest, events: &mut Vec<ProviderChatStreamEvent>| {
            requests.push(request.clone());
            if requests.len() == 1 {
                events.push(call(Some("directory-1"), "list_directory", "path", "App"));
            } else {
                events.push(content("found Controller.php"));
            }
            events.push(ProviderChatStreamEvent::Done);
            Ok(())
        },
    );
    run_read_file_round_trip(
        request(),
        Some(&registry),
        &Cancellation::default(),
        &mut run,
    )
    .unwrap();
    assert!(requests[1].messages.iter().any(|message| {
        message.role == ChatRole::Tool && message.content.contains("Controller.php")
    }));
}

#[test]
fn multiple_tools_preserve_call_and_result_order() {
    let registry = project(
        vec!["App"],
        vec![("App/Controller.php", "controller sentinel")],
    );
    let mut requests: Vec<ProviderChatRequest> = Vec::new();
    let mut run = Scripted(
        |request: &ProviderChatRequest, events: &mut Vec<ProviderChatStreamEvent>| {
            requests.push(request.clone());
            if requests.len() == 1 {
                events.push(call(Some("list"), "list_directory", "path", "App"));
                events.push(call(Some("read"), "read_file", "path", "App/Controller.php"));
            } else {
                events.push(content("done"));
            }
            events.push(ProviderChatStreamEvent::Done);
            Ok(())
        },
    );
    run_read_file_round_trip(
        request(),
        Some(&registry),
        &Cancellation::default(),
        &mut run,
    )
    .unwrap();
    let tool_messages: Vec<_> = requests[1]
        .messages
        .iter()
        .filter(|message| message.role == ChatRole::Tool)
        .collect();
    assert_eq!(tool_messages.len(), 2);
    assert!(tool_messages[0].content.contains("Controller.php"));
    assert!(tool_messages[1].content.contains("controller sentinel"));
}

#[test]
fn nested_directory_navigation_uses_multiple_bounded_rounds() {
    let registry = project(
        vec!["src", "src/App"],
        vec![("src/App/FileStone.php", "stone")],
    );
    let mut requests: Vec<ProviderChatRequest> = Vec::new();
    let mut run = Scripted(
        |request: &ProviderChatRequest, events: &mut Vec<ProviderChatStreamEvent>| {
            requests.push(request.clone());
            events.push(match requests.len() {
                1 => call(Some("src"), "list_directory", "path", "src"),
                2 => call(Some("src-app"), "list_directory", "path", "src/App"),
                _ => content("Found src/App/FileStone.php"),
            });
            events.push(ProviderChatStreamEvent::Done);
            Ok(())
        },
    );
    let events = run_read_file_round_trip(
        request(),
        Some(&registry),
        &Cancellation::default(),
        &mut run,
    )
    .expect("nested navigation should complete");
    assert!(matches!(
        events.first(),
        Some(ProviderChatStreamEvent::ContentDelta(content))
            if content.contains("FileStone.php")
    ));
    assert_eq!(requests.len(), 3);
    assert!(requests[1].messages.iter().any(|message| {
        message.role == ChatRole::Tool
            && message.content.contains("\"tool\":\"list_directory\"")
            && message.content.contains("\\\"path\\\":\\\"src\\\"")
            && message.content.contains("App")
    }));
    assert!(requests[2].messages.iter().any(|message| {
        message.role == ChatRole::Tool
            && message.content.contains("\\\"path\\\":\\\"src/App\\\"")
            && message.content.contains("FileStone.php")
    }));
}

#[test]
fn read_file_result_keeps_read_file_tool_label() {
    let registry = project(
        vec!["src", "src/App"],
        vec![("src/App/FileStone.php", "stone")],
    );
    let mut requests: Vec<ProviderChatRequest> = Vec::new();
    let mut run = Scripted(
        |request: &ProviderChatRequest, events: &mut Vec<ProviderChatStreamEvent>| {
            requests.push(request.clone());
            if requests.len() == 1 {
                events.push(call(
                    Some("read"),
                    "read_file",
                    "path",
                    "src/App/FileStone.php",
                ));
            } else {
                events.push(content("done"));
            }
            events.push(ProviderChatStreamEvent::Done);
            Ok(())
        },
    );
    run_read_file_round_trip(
        request(),
        Some(&registry),
        &Cancellation::default(),
        &mut run,
    )
    .unwrap();
    assert!(requests[1].messages.iter().any(|message| {
        message.role == ChatRole::Tool
            && message.content.contains("\"tool\":\"read_file\"")
            && message.content.contains("FileStone.php")
    }));
}

#[test]
fn fetch_url_tool_call_returns_controlled_result_and_final_response() {
    let registry = registry();
    let mut requests: Vec<ProviderChatRequest> = Vec::new();
    let mut run = Scripted(
        |request: &ProviderChatRequest, events: &mut Vec<ProviderChatStreamEvent>| {
            requests.push(request.clone());
            if requests.len() == 1 {
                events.push(call(Some("fetch"), "fetch_url", "url", "http://127.0.0.1/"));
            } else {
                events.push(content("blocked safely"));
            }
            events.push(ProviderChatStreamEvent::Done);
            Ok(())
        },
    );
    let events = run_read_file_round_trip(
        request(),
        Some(&registry),
        &Cancellation::default(),
        &mut run,
    )
    .expect("tool failure should be returned to provider");
    assert!(matches!(
        events[0],
        ProviderChatStreamEvent::ContentDelta(_)
    ));
    assert!(requests[1].messages.iter().any(|message| {
        message.role == ChatRole::Tool
            && message.content.contains("\"tool\":\"fetch_url\"")
            && message.content.contains("BlockedAddress")
    }));
}

#[test]
fn fetch_url_tool_result_wrapper_does_not_duplicate_content() {
    let content = "x".repeat(MAX_TOOL_CONTENT_BYTES);
    let result = ToolResult {
        tool: ToolName::FetchUrl,
        result: Ok(ToolOutput {
            content: object(vec![
                ("tool", text("fetch_url")),
                ("url", text("https://example.test")),
                ("final_url", text("https://example.test")),
                ("content_type", text("text/html")),
                ("content", text(&content)),
                ("truncated", Value::Bool(false)),
            ])
            .to_string(),
            metadata: ToolMetadata {
                path: "https://example.test".into(),
                bytes: MAX_TOOL_CONTENT_BYTES,
                range: None,
                source_bytes: Some(MAX_TOOL_CONTENT_BYTES),
                truncated: false,
            },
        }),
    };
    let serialized = tool_result_content(&result, "fetch_url");
    let value: Value = serde_json::from_str(&serialized).unwrap();
    assert_eq!(
        value["content"].as_str().unwrap().len(),
        MAX_TOOL_CONTENT_BYTES
    );
    assert!(serialized.len() < MAX_TOOL_CONTENT_BYTES + 512);
}

#[test]
fn cancellation_before_second_request_does_not_call_provider_again() {
    let registry = project(Vec::new(), vec![("README.md", "sentinel")]);
    let cancelled = Cancellation::default();
    let mut calls = 0;
    let mut run = Scripted(
        |_: &ProviderChatRequest, events: &mut Vec<ProviderChatStreamEvent>| {
            calls += 1;
            events.push(call(None, "read_file", "path", "README.md"));
            events.push(ProviderChatStreamEvent::Done);
            cancelled.cancel();
            Ok(())
        },
    );
    assert_eq!(
        run_read_file_round_trip(request(), Some(&registry), &cancelled, &mut run),
        Err(ToolRoundTripError::Cancelled)
    );
    assert_eq!(calls, 1);
}

#[test]
fn unknown_tool_is_returned_as_controlled_tool_result() {
    let registry = registry();
    let mut requests: Vec<ProviderChatRequest> = Vec::new();
    let mut run = Scripted(
        |request: &ProviderChatRequest, events: &mut Vec<ProviderChatStreamEvent>| {
            requests.push(request.clone());
            if requests.len() == 1 {
                events.push(call(None, "delete_file", "path", "x"));
            } else {
                events.push(content("explained"));
            }
            events.push(ProviderChatStreamEvent::Done);
            Ok(())
        },
    );
    run_read_file_round_trip(
        request(),
        Some(&registry),
        &Cancellation::default(),
        &mut run,
    )
    .unwrap();
    assert!(requests[1]
        .messages
        .last()
        .unwrap()
        .content
        .contains("UnknownTool"));
}

#[test]
fn tool_round_budget_runs_final_synthesis() {
    let registry = project(Vec::new(), vec![("proof.txt", "round-4-result")]);
    let mut calls = 0;
    let mut requests: Vec<ProviderChatRequest> = Vec::new();
    let mut run = Scripted(
        |request: &ProviderChatRequest, events: &mut Vec<ProviderChatStreamEvent>| {
            calls += 1;
            requests.push(request.clone());
            if request.tools.is_none() {
                events.push(content("synthesized from tool results"));
                events.push(ProviderChatStreamEvent::Done);
                return Ok(());
            }
            let id = format!("call-{calls}");
            events.push(call(Some(&id), "read_file", "path", "proof.txt"));
            events.push(ProviderChatStreamEvent::Done);
            Ok(())
        },
    );
    let events = run_read_file_round_trip(
        request(),
        Some(&registry),
        &Cancellation::default(),
        &mut run,
    )
    .expect("final synthesis should consume the bounded tool budget");
    assert!(matches!(
        events.first(),
        Some(ProviderChatStreamEvent::ContentDelta(content))
            if content == "synthesized from tool results"
    ));
    assert_eq!(calls, MAX_TOOL_ROUNDS + 1);
    let synthesis = requests.last().expect("request 5 should be synthesis");
    assert!(synthesis.tools.is_none());
    assert_eq!(synthesis.messages.len(), 1 + MAX_TOOL_ROUNDS * 2);
    for (index, pair) in synthesis.messages[1..].chunks_exact(2).enumerate() {
        let expected_id = format!("call-{}", index + 1);
        assert_eq!(pair[0].role, ChatRole::Assistant);
        assert_eq!(
            pair[0].tool_calls[0].id.as_deref(),
            Some(expected_id.as_str())
        );
        assert_eq!(pair[1].role, ChatRole::Tool);
        assert_eq!(pair[1].tool_call_id.as_deref(), Some(expected_id.as_str()));
        assert!(pair[1].content.contains("round-4-result"));
    }
}

#[test]
fn final_synthesis_cannot_execute_another_tool() {
    let registry = registry();
    let mut synthesis_requests = 0;
    let mut run = Scripted(
        |request: &ProviderChatRequest, events: &mut Vec<ProviderChatStreamEvent>| {
            if request.tools.is_none() {
                synthesis_requests += 1;
            }
            events.push(call(None, "read_file", "path", "x"));
            events.push(ProviderChatStreamEvent::Done);
            Ok(())
        },
    );
    assert_eq!(
        run_read_file_round_trip(
            request(),
            Some(&registry),
            &Cancellation::default(),
            &mut run
        ),
        Err(ToolRoundTripError::ToolRoundLimit)
    );
    assert_eq!(synthesis_requests, 1);
}

#[test]
fn cancellation_after_last_tool_round_skips_final_synthesis() {
    let registry = registry();
    let cancelled = Cancellation::default();
    let mut calls = 0;
    let mut run = Scripted(
        |_: &ProviderChatRequest, events: &mut Vec<ProviderChatStreamEvent>| {
            calls += 1;
            events.push(call(None, "read_file", "path", "x"));
            events.push(ProviderChatStreamEvent::Done);
            if calls == MAX_TOOL_ROUNDS {
                cancelled.cancel();
            }
            Ok(())
        },
    );
    assert_eq!(
        run_read_file_round_trip(request(), Some(&registry), &cancelled, &mut run),
        Err(ToolRoundTripError::Cancelled)
    );
    assert_eq!(calls, MAX_TOOL_ROUNDS);
}

/// A project whose files ask the chat to stop when they are read.
struct Stopping(Cancellation);

impl Capabilities for Stopping {
    fn read_file(
        &self,
        path: &str,
        range: Option<ReadFileRange>,
    ) -> Result<ReadFileOutput, ReadFileError> {
        self.0.cancel();
        Ok(ReadFileOutput {
            bytes: 0,
            content: String::new(),
            path: path.into(),
            range,
        })
    }

    fn list_directory(&self, path: &str) -> Result<ListDirectoryOutput, ListDirectoryError> {
        Err(ListDirectoryError::NotFound(path.into()))
    }

    fn fetch_url(&self, _: &str, _: &Cancellation) -> Result<FetchUrlOutput, FetchUrlError> {
        Err(FetchUrlError::Cancelled)
    }
}

#[test]
fn a_chat_that_a_tool_asks_to_stop_asks_nothing_more() {
    let cancelled = Cancellation::default();
    let registry = ToolRegistry::new(Stopping(cancelled.clone()));
    let mut calls = 0;
    let mut run = Scripted(
        |_: &ProviderChatRequest, events: &mut Vec<ProviderChatStreamEvent>| {
            calls += 1;
            events.push(call(None, "read_file", "path", "README.md"));
            events.push(ProviderChatStreamEvent::Done);
            Ok(())
        },
    );
    assert_eq!(
        run_read_file_round_trip(request(), Some(&registry), &cancelled, &mut run),
        Err(ToolRoundTripError::Cancelled)
    );
    let mut record = ChatRecord::new();
    assert_eq!(
        run_recorded_round_trip(request(), Some(&registry), &cancelled, &mut run, &mut record),
        Err(ToolRoundTripError::Cancelled)
    );
    assert_eq!(calls, 1);
}

#[test]
fn tool_call_limit_stops_a_round_with_too_many_calls() {
    let registry = registry();
    let mut run = Scripted(
        |_: &ProviderChatRequest, events: &mut Vec<ProviderChatStreamEvent>| {
            for index in 0..=MAX_TOOL_CALLS {
                events.push(call(Some(&index.to_string()), "list_directory", "path", "."));
            }
            events.push(ProviderChatStreamEvent::Done);
            Ok(())
        },
    );
    assert_eq!(
        run_read_file_round_trip(
            request(),
            Some(&registry),
            &Cancellation::default(),
            &mut run
        ),
        Err(ToolRoundTripError::ToolCallLimit)
    );
}

#[test]
fn request_specific_tool_errors_never_use_provider_unavailable_message() {
    assert_eq!(
        user_message(&ToolRoundTripError::Cancelled),
        "Generation cancelled"
    );
    assert_eq!(
        user_message(&ToolRoundTripError::Tool("bad arguments".into())),
        "Tool request failed"
    );
    assert_eq!(
        user_message(&ToolRoundTripError::ToolRoundLimit),
        "Tool round limit reached"
    );
    assert_eq!(
        user_message(&ToolRoundTripError::ToolCallLimit),
        "Tool call limit reached"
    );
    assert_eq!(
        user_message(&ToolRoundTripError::Provider(
            ProviderError::InvalidResponse
        )),
        "Invalid Ollama response"
    );
    assert_eq!(
        user_message(&ToolRoundTripError::Provider(
            ProviderError::ConnectionRefused
        )),
        "Connection refused"
    );
}

#[test]
fn without_a_registry_a_call_of_a_tool_fails_the_request() {
    let mut run = Scripted(
        |_: &ProviderChatRequest, events: &mut Vec<ProviderChatStreamEvent>| {
            events.push(call(None, "read_file", "path", "x"));
            Ok(())
        },
    );
    assert!(matches!(
        run_read_file_round_trip::<_, Project>(
            request(),
            None,
            &Cancellation::default(),
            &mut run
        ),
        Err(ToolRoundTripError::Tool(_))
    ));
    let mut adapter = AgentToolAdapter::<Project>::without_tools(Cancellation::default());
    let read = ProviderToolCall {
        id: None,
        name: "read_file".into(),
        arguments: object(vec![("path", text("x"))]),
    };
    assert_eq!(
        adapter.execute(&read).unwrap_err().message,
        "read-only tools unavailable"
    );
}

#[test]
fn a_failing_provider_ends_the_rounds() {
    let mut run = Scripted(
        |_: &ProviderChatRequest, _: &mut Vec<ProviderChatStreamEvent>| {
            Err(ProviderError::Authentication)
        },
    );
    assert_eq!(
        run_read_file_round_trip(
            request(),
            Some(&registry()),
            &Cancellation::default(),
            &mut run
        ),
        Err(ToolRoundTripError::Provider(ProviderError::Authentication))
    );
}

#[test]
fn errors_of_capabilities_become_tool_errors_of_the_same_sort() {
    let read = |error| read_file_result(Err(error)).result.unwrap_err();
    assert_eq!(
        read(ReadFileError::OutsideWorkspace("a".into())),
        ToolError::OutsideWorkspace("a".into())
    );
    assert_eq!(
        read(ReadFileError::InvalidPath("a".into())),
        ToolError::InvalidPath("a".into())
    );
    assert_eq!(
        read(ReadFileError::UnsupportedEncoding("a".into())),
        ToolError::UnsupportedEncoding("a".into())
    );
    assert_eq!(
        read(ReadFileError::InvalidRange {
            start_line: 3,
            end_line: 2
        }),
        ToolError::InvalidRange {
            start_line: 3,
            end_line: 2
        }
    );
    let list = |error| list_directory_result("p".into(), Err(error)).result.unwrap_err();
    assert_eq!(
        list(ListDirectoryError::NotDirectory("a".into())),
        ToolError::NotDirectory("a".into())
    );
    assert_eq!(
        list(ListDirectoryError::TooManyEntries {
            path: "a".into(),
            limit: 3
        }),
        ToolError::TooManyEntries {
            path: "a".into(),
            limit: 3
        }
    );
    let fetch = |error| fetch_url_result("u".into(), Err(error)).result.unwrap_err();
    assert_eq!(fetch(FetchUrlError::Timeout), ToolError::Timeout);
    assert_eq!(fetch(FetchUrlError::InvalidUrl), ToolError::InvalidUrl);
    assert_eq!(
        fetch(FetchUrlError::HttpStatus(404)),
        ToolError::HttpStatus(404)
    );
    assert_eq!(
        fetch(FetchUrlError::TooLarge { limit: 10 }),
        ToolError::TooLarge {
            path: String::new(),
            bytes: 11,
            limit: 10
        }
    );
    assert_eq!(
        fetch(FetchUrlError::RedirectLimit),
        ToolError::RedirectLimit
    );
    assert_eq!(fetch(FetchUrlError::Cancelled), ToolError::Cancelled);
}

#[test]
fn tool_errors_are_shown_with_their_fields() {
    assert_eq!(
        format_tool_error(&ToolError::NotFound("a\"b".into())),
        "NotFound(\"a\\\"b\")"
    );
    assert_eq!(
        format_tool_error(&ToolError::TooLarge {
            path: "p".into(),
            bytes: 9,
            limit: 8
        }),
        "TooLarge { path: \"p\", bytes: 9, limit: 8 }"
    );
    assert_eq!(format_tool_error(&ToolError::Timeout), "Timeout");
    assert!(!tool_error_message(&ToolError::Timeout).is_empty());
}

#[test]
fn run_ids_differ() {
    let mut ids = RunIds::default();
    let first = next_agent_run_id(&mut ids);
    let second = next_agent_run_id(&mut ids);
    assert_ne!(first, second);
}

#[test]
fn three_tools_only_read() {
    let names: Vec<String> = read_only_tool_definitions()
        .into_iter()
        .map(|tool| tool.name)
        .collect();
    assert_eq!(names, vec!["read_file", "list_directory", "fetch_url"]);
}
