//! Providers: their requests, their answers over HTTP and the models that they list.

use ide_core::http::{parse_http_response, StreamDecoder};
use ide_core::ollama::{
    chat_request_text, endpoint, endpoint_of, read_answer, read_tags, tags_request_text, Endpoint,
    OllamaProvider,
};
use ide_core::provider::{
    is_stale, next_request_id, ChatRole, FakeProvider, ModelMetadata, ProviderChatMessage,
    ProviderChatRequest, ProviderChatStreamEvent, ProviderConnectionRequest,
    ProviderConnectionStatus, ProviderConnectivity, ProviderError, ProviderKind, ProviderModel,
    ProviderToolCall, ProviderToolDefinition, ProviderUiResponse, ProviderUiState, RequestIds,
    RequestTracker,
};

fn request() -> ProviderConnectionRequest {
    ProviderConnectionRequest {
        kind: ProviderKind::Ollama,
        base_url: "http://localhost:11434".into(),
    }
}

#[test]
fn fake_connection_success_and_models() {
    let p = FakeProvider::connected(vec![ProviderModel {
        id: "llama3".into(),
        label: "llama3".into(),
        metadata: Some(ModelMetadata {
            context_length: Some(8192),
            ..Default::default()
        }),
    }]);
    assert_eq!(
        p.test_connection(&request()),
        ProviderConnectionStatus::Connected
    );
    assert_eq!(p.list_models(&request()).unwrap().len(), 1);
}

#[test]
fn fake_failure_is_typed() {
    let p = FakeProvider::failed(ProviderError::ConnectionRefused);
    assert_eq!(
        p.test_connection(&request()),
        ProviderConnectionStatus::Failed(ProviderError::ConnectionRefused)
    );
    assert!(matches!(
        p.list_models(&request()),
        Err(ProviderError::ConnectionRefused)
    ));
}

#[test]
fn request_ids_are_monotonic_and_stale_detectable() {
    let mut ids = RequestIds::default();
    let a = next_request_id(&mut ids);
    let b = next_request_id(&mut ids);
    assert!(b.0 > a.0);
    assert!(is_stale(a, b));
    assert!(!is_stale(b, b));
}

#[test]
fn metadata_is_optional() {
    let m = ProviderModel {
        id: "x".into(),
        label: "X".into(),
        metadata: None,
    };
    assert!(m.metadata.is_none());
}

#[test]
fn ollama_model_metadata_and_capabilities_are_parsed() {
    let body = r#"{"models":[{"name":"qwen","details":{"parameter_size":"27B","quantization_level":"Q4_K_M"},"context_length":32768,"embedding_length":4096,"capabilities":["completion","thinking","tools"],"future_field":true},{"name":"old"}]}"#;
    let models = OllamaProvider::parse_models(body).unwrap();
    let metadata = models[0].metadata.as_ref().unwrap();
    assert_eq!(metadata.parameter_size.as_deref(), Some("27B"));
    assert_eq!(metadata.quantization_level.as_deref(), Some("Q4_K_M"));
    assert_eq!(metadata.context_length, Some(32768));
    assert_eq!(metadata.embedding_length, Some(4096));
    assert!(metadata.supports_thinking());
    assert!(metadata.supports("tools"));
    assert!(models[1].metadata.as_ref().unwrap().capabilities.is_empty());
}

#[test]
fn http_response_parser_handles_split_sized_and_chunked_bodies() {
    let sized = b"HTTP/1.1 200 OK\r\nContent-Length: 11\r\n\r\nhello worldEXTRA";
    assert_eq!(parse_http_response(sized).unwrap().1, b"hello world");
    let chunked = b"HTTP/1.1 200 OK\r\nTransfer-Encoding: chunked\r\n\r\n5\r\nhello\r\n6\r\n world\r\n0\r\n\r\n";
    assert_eq!(parse_http_response(chunked).unwrap().1, b"hello world");
}

#[test]
fn bridge_accepts_latest_and_rejects_stale_response() {
    let mut ids = RequestIds::default();
    let mut tracker = RequestTracker::default();
    let first = tracker.begin(&mut ids);
    let second = tracker.begin(&mut ids);
    let stale = ProviderUiResponse {
        request_id: first,
        provider: ProviderKind::Ollama,
        result: Ok(Vec::new()),
    };
    let current = ProviderUiResponse {
        request_id: second,
        provider: ProviderKind::Ollama,
        result: Ok(Vec::new()),
    };
    assert!(!tracker.accepts(&stale));
    assert!(tracker.accepts(&current));
    tracker.invalidate();
    assert!(!tracker.accepts(&current));
}

#[test]
fn ui_state_models_success_and_error_without_booleans() {
    let success = ProviderUiState::Connected { models: Vec::new() };
    assert!(matches!(success, ProviderUiState::Connected { .. }));
    let error = ProviderUiState::Error(ProviderError::Timeout);
    assert!(matches!(
        error,
        ProviderUiState::Error(ProviderError::Timeout)
    ));
}

#[test]
fn every_provider_error_has_its_own_message() {
    let messages: Vec<&str> = [
        ProviderError::ConnectionRefused,
        ProviderError::Timeout,
        ProviderError::InvalidResponse,
        ProviderError::Authentication,
        ProviderError::Unavailable("busy".into()),
    ]
    .iter()
    .map(|error| error.user_message())
    .collect();
    for (index, message) in messages.iter().enumerate() {
        assert!(!message.is_empty());
        assert!(!messages[..index].contains(message));
    }
    assert_eq!(messages[0], "Connection refused");
    assert_eq!(messages[2], "Invalid Ollama response");
}

#[test]
fn broken_responses_are_invalid() {
    for raw in [
        &b"HTTP/1.1 200 OK\r\nContent-Length: 1"[..],
        &b"nonsense\r\n\r\nbody"[..],
        &b"HTTP/1.1 200 OK\r\nTransfer-Encoding: chunked\r\n\r\nzz\r\n"[..],
        &b"HTTP/1.1 200 OK\r\nContent-Length: 50\r\n\r\nshort"[..],
    ] {
        assert_eq!(
            parse_http_response(raw).err(),
            Some(ProviderError::InvalidResponse)
        );
    }
    let (status, body) = parse_http_response(b"HTTP/1.1 404 Not Found\r\n\r\nrest").unwrap();
    assert_eq!(status, 404);
    assert_eq!(body, b"rest");
}

#[test]
fn the_address_of_a_provider_is_read_from_its_url() {
    assert_eq!(
        endpoint("http://localhost:11434/api").unwrap(),
        Endpoint {
            host: "localhost".into(),
            port: 11434
        }
    );
    assert_eq!(endpoint("http://example.test").unwrap().port, 80);
    assert!(endpoint("not a url").is_err());
    assert!(endpoint_of(None, Some(80)).is_err());
    assert_eq!(endpoint_of(Some("h"), Some(1)).unwrap().host, "h");
}

#[test]
fn requests_are_written_out_whole() {
    assert_eq!(
        tags_request_text("localhost"),
        "GET /api/tags HTTP/1.1\r\nHost: localhost\r\nConnection: close\r\n\r\n"
    );
    let chat = chat_request_text("localhost", "{}");
    assert!(chat.starts_with("POST /api/chat HTTP/1.1\r\nHost: localhost\r\n"));
    assert!(chat.contains("Content-Length: 2\r\n"));
    assert!(chat.ends_with("\r\n\r\n{}"));
}

#[test]
fn a_list_of_models_needs_a_good_answer() {
    assert_eq!(
        read_tags(b"HTTP/1.1 200 OK\r\nContent-Length: 2\r\n\r\n{}").unwrap(),
        "{}"
    );
    assert!(read_tags(b"HTTP/1.1 401 Unauthorized\r\nContent-Length: 0\r\n\r\n").is_err());
    assert_eq!(
        OllamaProvider::parse_models("[1, 2]").err(),
        Some(ProviderError::InvalidResponse)
    );
    assert_eq!(
        OllamaProvider::parse_models("{broken").err(),
        Some(ProviderError::InvalidResponse)
    );
}

#[test]
fn an_answer_holds_what_was_said_and_thought() {
    let value: serde_json::Value =
        serde_json::from_str(r#"{"message":{"content":"hi","thinking":"hm"}}"#).unwrap();
    let answer = read_answer(&value);
    assert_eq!(answer.content, "hi");
    assert_eq!(answer.thinking.as_deref(), Some("hm"));
}

const HEADER: &[u8] = b"HTTP/1.1 200 OK\r\nTransfer-Encoding: chunked\r\n\r\n";

fn chunk(text: &str) -> Vec<u8> {
    let mut out = format!("{:x}\r\n", text.len()).into_bytes();
    out.extend_from_slice(text.as_bytes());
    out.extend_from_slice(b"\r\n");
    out
}

#[test]
fn a_stream_gives_the_same_events_however_it_is_parted() {
    let mut raw = HEADER.to_vec();
    raw.extend(chunk("{\"message\":{\"thinking\":\"a\"}}\n{\"mess"));
    raw.extend(chunk("age\":{\"content\":\"b\"}}\n"));
    raw.extend(chunk("{\"done\":true}\n"));
    let mut whole = Vec::new();
    StreamDecoder::new().feed(&raw, &mut whole).unwrap();
    assert!(whole.contains(&ProviderChatStreamEvent::ThinkingDelta("a".into())));
    assert!(whole.contains(&ProviderChatStreamEvent::ContentDelta("b".into())));
    assert_eq!(whole.last(), Some(&ProviderChatStreamEvent::Done));
    for cut in 1..raw.len() {
        let mut parts = Vec::new();
        let mut decoder = StreamDecoder::new();
        decoder.feed(&raw[..cut], &mut parts).unwrap();
        decoder.feed(&raw[cut..], &mut parts).unwrap();
        assert_eq!(parts, whole);
    }
}

#[test]
fn a_stream_with_broken_framing_or_lines_is_refused() {
    let mut events = Vec::new();
    assert_eq!(
        StreamDecoder::new().feed(
            b"HTTP/1.1 200 OK\r\nTransfer-Encoding: chunked\r\n\r\nzz\r\n",
            &mut events
        ),
        Err(ProviderError::InvalidResponse)
    );
    let mut raw = HEADER.to_vec();
    raw.extend(chunk("not json\n"));
    assert_eq!(
        StreamDecoder::new().feed(&raw, &mut events),
        Err(ProviderError::InvalidResponse)
    );
    assert!(StreamDecoder::new()
        .feed(b"HTTP/1.1 500 Oops\r\n\r\n", &mut events)
        .is_err());
}

fn user_message(content: &str) -> ProviderChatMessage {
    ProviderChatMessage {
        role: ChatRole::User,
        content: content.into(),
        reasoning: None,
        tool_call_id: None,
        tool_calls: Vec::new(),
    }
}

#[test]
fn chat_request_serializes_non_streaming_and_think() {
    let request = ProviderChatRequest {
        model: "demo".into(),
        messages: vec![user_message("hi")],
        think: Some(true),
        tools: None,
    };
    let value = request.to_value();
    assert_eq!(value["model"], "demo");
    assert_eq!(value["think"], true);
    assert_eq!(value["messages"][0]["content"], "hi");
    assert!(value.get("stream").is_none());
    assert!(value.get("tools").is_none());
}

#[test]
fn chat_bodies_say_whether_they_stream() {
    let request = ProviderChatRequest {
        model: "demo".into(),
        messages: vec![user_message("hi \"you\"")],
        think: None,
        tools: None,
    };
    assert_eq!(
        request.chat_body(true),
        "{\"messages\":[{\"content\":\"hi \\\"you\\\"\",\"role\":\"User\"}],\"model\":\"demo\",\"stream\":true,\"think\":null}"
    );
    let whole: serde_json::Value =
        serde_json::from_str(&request.chat_body(false)).expect("a JSON text");
    assert_eq!(whole["stream"], false);
    assert!(whole["think"].is_null());
}

#[test]
fn chat_bodies_carry_calls_and_tools() {
    let arguments: serde_json::Value = serde_json::from_str("{\"path\":\"a.php\"}").unwrap();
    let request = ProviderChatRequest {
        model: "demo".into(),
        messages: vec![
            ProviderChatMessage {
                role: ChatRole::Assistant,
                content: String::new(),
                reasoning: Some("look first".into()),
                tool_call_id: None,
                tool_calls: vec![ProviderToolCall {
                    id: Some("1".into()),
                    name: "read_file".into(),
                    arguments: arguments.clone(),
                }],
            },
            ProviderChatMessage {
                role: ChatRole::Tool,
                content: "<?php".into(),
                reasoning: None,
                tool_call_id: Some("1".into()),
                tool_calls: Vec::new(),
            },
        ],
        think: Some(false),
        tools: Some(vec![ProviderToolDefinition {
            name: "read_file".into(),
            description: "reads".into(),
            parameters: arguments.clone(),
        }]),
    };
    let value = request.to_value();
    assert_eq!(value["messages"][0]["role"], "Assistant");
    assert_eq!(value["messages"][0]["reasoning"], "look first");
    assert_eq!(value["messages"][0]["tool_calls"][0]["id"], "1");
    assert_eq!(
        value["messages"][0]["tool_calls"][0]["arguments"],
        arguments
    );
    assert!(value["messages"][0].get("tool_call_id").is_none());
    assert_eq!(value["messages"][1]["role"], "Tool");
    assert_eq!(value["messages"][1]["tool_call_id"], "1");
    assert!(value["messages"][1].get("tool_calls").is_none());
    assert_eq!(value["tools"][0]["name"], "read_file");
    assert_eq!(value["tools"][0]["parameters"], arguments);
    assert_eq!(value["think"], false);
}

const CHUNKED: &str = "HTTP/1.1 200 OK\r\nTransfer-Encoding: chunked\r\n\r\n";

fn cut(body: &str, sizes: &[usize]) -> Vec<u8> {
    let mut raw = CHUNKED.as_bytes().to_vec();
    let mut at = 0;
    for size in sizes {
        raw.extend_from_slice(format!("{size:x}\r\n").as_bytes());
        raw.extend_from_slice(&body.as_bytes()[at..at + size]);
        raw.extend_from_slice(b"\r\n");
        at += size;
    }
    assert_eq!(at, body.len());
    raw.extend_from_slice(b"0\r\n\r\n");
    raw
}

#[test]
fn any_cutting_reads_as_the_same_response() {
    let body = "twelve bytes and more";
    let whole = parse_http_response(&cut(body, &[21])).unwrap();
    assert_eq!(whole, (200, body.as_bytes().to_vec()));
    assert_eq!(parse_http_response(&cut(body, &[1, 19, 1])).unwrap(), whole);
    assert_eq!(parse_http_response(&cut(body, &[10, 11])).unwrap(), whole);
    let broken = "a\r\n0\r\n\r\nb";
    assert_eq!(
        parse_http_response(&cut(broken, &[3, 6])).unwrap().1,
        broken.as_bytes()
    );
}

#[test]
fn streamed_objects_are_told_in_order_wherever_they_are_cut() {
    let body = "{\"message\":{\"thinking\":\"hm\",\"content\":\"a\"}}\n{\"message\":{\"content\":\"b\"},\"done\":true}\n";
    let expected = vec![
        ProviderChatStreamEvent::ThinkingDelta("hm".into()),
        ProviderChatStreamEvent::ContentDelta("a".into()),
        ProviderChatStreamEvent::ContentDelta("b".into()),
        ProviderChatStreamEvent::Done,
    ];
    for first in [1, 20, 45, body.len() - 1] {
        let mut decoder = StreamDecoder::new();
        let mut events = Vec::new();
        decoder
            .feed(&cut(body, &[first, body.len() - first]), &mut events)
            .unwrap();
        decoder.finish(&mut events).unwrap();
        assert_eq!(events, expected);
    }
    let raw = cut(body, &[20, body.len() - 20]);
    for size in [1, 2, 7, 50] {
        let mut decoder = StreamDecoder::new();
        let mut events = Vec::new();
        for part in raw.chunks(size) {
            decoder.feed(part, &mut events).unwrap();
        }
        decoder.finish(&mut events).unwrap();
        assert_eq!(events, expected);
    }
    let mut plain = b"HTTP/1.1 200 OK\r\n\r\n".to_vec();
    plain.extend_from_slice(body.as_bytes());
    let mut decoder = StreamDecoder::new();
    let mut events = Vec::new();
    decoder.feed(&plain, &mut events).unwrap();
    decoder.finish(&mut events).unwrap();
    assert_eq!(events, expected);
}
