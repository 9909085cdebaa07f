//! What the workbench says to a language model provider, and what the provider answers.

use vstd::prelude::*;
use vstd::string::*;

use crate::json;
use crate::json::Json;
use crate::text;

verus! {

/// The text of an optional string.
pub open spec fn optional_text(value: Option<String>) -> Option<Seq<char>> {
    match value {
        Some(text) => Some(text@),
        None => None,
    }
}

/// Copies an optional string.
pub fn clone_optional(value: &Option<String>) -> (r: Option<String>)
    ensures
        optional_text(r) == optional_text(*value),
{
    match value {
        Some(text) => Some(text.clone()),
        None => None,
    }
}

/// Copies a list of strings.
pub fn clone_strings(values: &Vec<String>) -> (r: Vec<String>)
    ensures
        text::texts(r@) == text::texts(values@),
{
    let mut out: Vec<String> = Vec::new();
    let mut i: usize = 0;
    while i < values.len()
        invariant
            i <= values@.len(),
            out@.len() == i,
            forall|k: int| 0 <= k < i ==> (#[trigger] out@[k])@ == values@[k]@,
        decreases values@.len() - i,
    {
        out.push(values[i].clone());
        i += 1;
    }
    assert(text::texts(out@) =~= text::texts(values@));
    out
}

/// Who serves the models.
#[derive(Clone, Debug, PartialEq, Eq, Hash)]
pub enum ProviderKind {
    Ollama,
    OpenAi,
    Anthropic,
    Other(String),
}

/// Names one request among those of a session.
#[derive(Clone, Copy, Debug, PartialEq, Eq, Hash, Structural)]
pub struct ProviderRequestId(pub u64);

/// Hands out request ids, each one larger than the last.
#[derive(Debug)]
pub struct RequestIds {
    pub next: u64,
}

impl Default for RequestIds {
    fn default() -> (r: Self)
        ensures
            r.next == 1,
    {
        RequestIds { next: 1 }
    }
}

/// The next request id. Ids start again at zero after the last 64-bit number.
pub fn next_request_id(ids: &mut RequestIds) -> (r: ProviderRequestId)
    ensures
        r.0 == old(ids).next,
        final(ids).next == (if old(ids).next == u64::MAX { 0 } else { old(ids).next + 1 }),
{
    let id: u64 = ids.next;
    ids.next = id.wrapping_add(1);
    ProviderRequestId(id)
}

/// Whether an answer to `request` comes after a newer request was made.
pub fn is_stale(request: ProviderRequestId, latest: ProviderRequestId) -> (r: bool)
    ensures
        r == (request.0 != latest.0),
{
    request != latest
}

/// Of two requests made in turn, only the later is not stale.
pub proof fn law_only_the_latest_request_is_current(ids: RequestIds)
    requires
        ids.next < u64::MAX,
    ensures
        ProviderRequestId(ids.next) != ProviderRequestId((ids.next + 1) as u64),
        ids.next < (ids.next + 1) as u64,
{
}

/// What went wrong between the workbench and a provider.
#[derive(Debug, PartialEq, Eq)]
pub enum ProviderError {
    ConnectionRefused,
    Timeout,
    InvalidResponse,
    Authentication,
    Unavailable(String),
}

/// A `ProviderError` by what it says.
pub enum ProviderErrorView {
    ConnectionRefused,
    Timeout,
    InvalidResponse,
    Authentication,
    Unavailable(Seq<char>),
}

impl View for ProviderError {
    type V = ProviderErrorView;

    open spec fn view(&self) -> ProviderErrorView {
        match *self {
            ProviderError::ConnectionRefused => ProviderErrorView::ConnectionRefused,
            ProviderError::Timeout => ProviderErrorView::Timeout,
            ProviderError::InvalidResponse => ProviderErrorView::InvalidResponse,
            ProviderError::Authentication => ProviderErrorView::Authentication,
            ProviderError::Unavailable(reason) => ProviderErrorView::Unavailable(reason@),
        }
    }
}

impl Clone for ProviderError {
    fn clone(&self) -> (r: Self)
        ensures
            r@ == self@,
    {
        match self {
            ProviderError::ConnectionRefused => ProviderError::ConnectionRefused,
            ProviderError::Timeout => ProviderError::Timeout,
            ProviderError::InvalidResponse => ProviderError::InvalidResponse,
            ProviderError::Authentication => ProviderError::Authentication,
            ProviderError::Unavailable(reason) => ProviderError::Unavailable(reason.clone()),
        }
    }
}

/// What a user is told of an error.
pub open spec fn user_text(error: ProviderErrorView) -> Seq<char> {
    match error {
        ProviderErrorView::ConnectionRefused => "Connection refused"@,
        ProviderErrorView::Timeout => "Connection timed out"@,
        ProviderErrorView::InvalidResponse => "Invalid Ollama response"@,
        ProviderErrorView::Authentication => "Authentication failed"@,
        ProviderErrorView::Unavailable(_) => "Ollama unavailable"@,
    }
}

impl ProviderError {
    /// What a user is told of the error.
    pub fn user_message(&self) -> (r: &'static str)
        ensures
            r@ == user_text(self@),
    {
        match self {
            ProviderError::ConnectionRefused => "Connection refused",
            ProviderError::Timeout => "Connection timed out",
            ProviderError::InvalidResponse => "Invalid Ollama response",
            ProviderError::Authentication => "Authentication failed",
            ProviderError::Unavailable(_) => "Ollama unavailable",
        }
    }
}

/// What is known of a model beyond its name.
#[derive(Debug, PartialEq, Eq)]
pub struct ModelMetadata {
    pub parameter_size: Option<String>,
    pub quantization_level: Option<String>,
    pub context_length: Option<u64>,
    pub embedding_length: Option<u64>,
    pub capabilities: Vec<String>,
}

/// `ModelMetadata` by what it says.
#[verifier::ext_equal]
pub struct ModelMetadataView {
    pub parameter_size: Option<Seq<char>>,
    pub quantization_level: Option<Seq<char>>,
    pub context_length: Option<u64>,
    pub embedding_length: Option<u64>,
    pub capabilities: Seq<Seq<char>>,
}

impl View for ModelMetadata {
    type V = ModelMetadataView;

    open spec fn view(&self) -> ModelMetadataView {
        ModelMetadataView {
            parameter_size: optional_text(self.parameter_size),
            quantization_level: optional_text(self.quantization_level),
            context_length: self.context_length,
            embedding_length: self.embedding_length,
            capabilities: text::texts(self.capabilities@),
        }
    }
}

impl Clone for ModelMetadata {
    fn clone(&self) -> (r: Self)
        ensures
            r@ == self@,
    {
        ModelMetadata {
            parameter_size: clone_optional(&self.parameter_size),
            quantization_level: clone_optional(&self.quantization_level),
            context_length: self.context_length,
            embedding_length: self.embedding_length,
            capabilities: clone_strings(&self.capabilities),
        }
    }
}

impl Default for ModelMetadata {
    fn default() -> (r: Self)
        ensures
            r@ == (ModelMetadataView {
                parameter_size: None,
                quantization_level: None,
                context_length: None,
                embedding_length: None,
                capabilities: Seq::empty(),
            }),
    {
        let r = ModelMetadata {
            parameter_size: None,
            quantization_level: None,
            context_length: None,
            embedding_length: None,
            capabilities: Vec::new(),
        };
        assert(text::texts(r.capabilities@) =~= Seq::<Seq<char>>::empty());
        r
    }
}

impl ModelMetadata {
    /// Whether the model offers a capability.
    pub fn supports(&self, capability: &str) -> (r: bool)
        ensures
            r == self@.capabilities.contains(capability@),
    {
        let wanted = text::chars_of(capability);
        let mut i: usize = 0;
        while i < self.capabilities.len()
            invariant
                i <= self.capabilities@.len(),
                wanted@ == capability@,
                forall|k: int| 0 <= k < i ==> self.capabilities@[k]@ != capability@,
            decreases self.capabilities@.len() - i,
        {
            if text::same(&text::chars_of(&self.capabilities[i]), &wanted) {
                assert(self@.capabilities[i as int] == capability@);
                return true;
            }
            i += 1;
        }
        assert(!self@.capabilities.contains(capability@)) by {
            if self@.capabilities.contains(capability@) {
                let k = choose|k: int|
                    0 <= k < self@.capabilities.len() && self@.capabilities[k] == capability@;
                assert(self.capabilities@[k]@ == capability@);
            }
        }
        false
    }

    /// Whether the model can show its thinking.
    pub fn supports_thinking(&self) -> (r: bool)
        ensures
            r == self@.capabilities.contains("thinking"@),
    {
        self.supports("thinking")
    }
}

/// A model that a provider offers.
#[derive(Debug, PartialEq, Eq)]
pub struct ProviderModel {
    pub id: String,
    pub label: String,
    pub metadata: Option<ModelMetadata>,
}

/// A `ProviderModel` by what it says.
#[verifier::ext_equal]
pub struct ProviderModelView {
    pub id: Seq<char>,
    pub label: Seq<char>,
    pub metadata: Option<ModelMetadataView>,
}

impl View for ProviderModel {
    type V = ProviderModelView;

    open spec fn view(&self) -> ProviderModelView {
        ProviderModelView {
            id: self.id@,
            label: self.label@,
            metadata: match self.metadata {
                Some(metadata) => Some(metadata@),
                None => None,
            },
        }
    }
}

impl Clone for ProviderModel {
    fn clone(&self) -> (r: Self)
        ensures
            r@ == self@,
    {
        ProviderModel {
            id: self.id.clone(),
            label: self.label.clone(),
            metadata: match &self.metadata {
                Some(metadata) => Some(metadata.clone()),
                None => None,
            },
        }
    }
}

/// The models of a list by what they say.
pub open spec fn model_views(models: Seq<ProviderModel>) -> Seq<ProviderModelView> {
    models.map_values(|m: ProviderModel| m@)
}

/// Copies a list of models.
pub fn clone_models(models: &Vec<ProviderModel>) -> (r: Vec<ProviderModel>)
    ensures
        model_views(r@) == model_views(models@),
{
    let mut out: Vec<ProviderModel> = Vec::new();
    let mut i: usize = 0;
    while i < models.len()
        invariant
            i <= models@.len(),
            out@.len() == i,
            forall|k: int| 0 <= k < i ==> (#[trigger] out@[k])@ == models@[k]@,
        decreases models@.len() - i,
    {
        out.push(models[i].clone());
        i += 1;
    }
    assert(model_views(out@) =~= model_views(models@));
    out
}

/// Where a provider is to be reached.
#[derive(Clone, Debug, PartialEq, Eq)]
pub struct ProviderConnectionRequest {
    pub kind: ProviderKind,
    pub base_url: String,
}

/// What the settings panel shows of a provider.
#[derive(Clone, Debug, PartialEq, Eq)]
pub enum ProviderUiState {
    Idle,
    Testing,
    Connected { models: Vec<ProviderModel> },
    Error(ProviderError),
}

/// The answer to a request of the settings panel.
#[derive(Debug, PartialEq, Eq)]
pub struct ProviderUiResponse {
    pub request_id: ProviderRequestId,
    pub provider: ProviderKind,
    pub result: Result<Vec<ProviderModel>, ProviderError>,
}

impl Clone for ProviderUiResponse {
    fn clone(&self) -> (r: Self)
        ensures
            r.request_id == self.request_id,
            match (self.result, r.result) {
                (Ok(mine), Ok(copied)) => model_views(mine@) == model_views(copied@),
                (Err(mine), Err(copied)) => mine@ == copied@,
                _ => false,
            },
    {
        ProviderUiResponse {
            request_id: self.request_id,
            provider: self.provider.clone(),
            result: match &self.result {
                Ok(models) => Ok(clone_models(models)),
                Err(error) => Err(error.clone()),
            },
        }
    }
}

/// Knows which request the panel waits for.
#[derive(Clone, Debug)]
pub struct RequestTracker {
    current: Option<ProviderRequestId>,
}

impl View for RequestTracker {
    type V = Option<ProviderRequestId>;

    closed spec fn view(&self) -> Option<ProviderRequestId> {
        self.current
    }
}

impl Default for RequestTracker {
    fn default() -> (r: Self)
        ensures
            r@ is None,
    {
        RequestTracker { current: None }
    }
}

impl RequestTracker {
    /// Starts a request: from here on only its answer is accepted.
    pub fn begin(&mut self, ids: &mut RequestIds) -> (r: ProviderRequestId)
        ensures
            r.0 == old(ids).next,
            final(ids).next == (if old(ids).next == u64::MAX { 0 } else { old(ids).next + 1 }),
            final(self)@ == Some(r),
    {
        let id = next_request_id(ids);
        self.current = Some(id);
        id
    }

    /// The request that is waited for.
    pub fn current(&self) -> (r: Option<ProviderRequestId>)
        ensures
            r == self@,
    {
        self.current
    }

    /// Whether a response answers the request that is waited for.
    pub fn accepts(&self, response: &ProviderUiResponse) -> (r: bool)
        ensures
            r == (self@ == Some(response.request_id)),
    {
        match self.current {
            Some(current) => current == response.request_id,
            None => false,
        }
    }

    /// Stops waiting: no response is accepted until the next request.
    pub fn invalidate(&mut self)
        ensures
            final(self)@ is None,
    {
        self.current = None;
    }
}

/// Who speaks in a conversation.
#[derive(Clone, Copy, Debug, PartialEq, Eq, Structural)]
pub enum ChatRole {
    User,
    Assistant,
    System,
    Tool,
}

/// A tool call that a model asks for.
#[derive(Debug, PartialEq)]
pub struct ProviderToolCall {
    pub id: Option<String>,
    pub name: String,
    pub arguments: serde_json::Value,
}

/// A `ProviderToolCall` by what it says.
#[verifier::ext_equal]
pub struct ToolCallView {
    pub id: Option<Seq<char>>,
    pub name: Seq<char>,
    pub arguments: Json,
}

impl View for ProviderToolCall {
    type V = ToolCallView;

    open spec fn view(&self) -> ToolCallView {
        ToolCallView {
            id: optional_text(self.id),
            name: self.name@,
            arguments: json::json(self.arguments),
        }
    }
}

impl Clone for ProviderToolCall {
    fn clone(&self) -> (r: Self)
        ensures
            r@ == self@,
    {
        ProviderToolCall {
            id: clone_optional(&self.id),
            name: self.name.clone(),
            arguments: self.arguments.clone(),
        }
    }
}

/// Whether two calls are the same: same id, same name, equal arguments.
pub open spec fn same_call(a: ToolCallView, b: ToolCallView) -> bool {
    a.id == b.id && a.name == b.name && (a.arguments == b.arguments || json::json_equal(
        a.arguments,
        b.arguments,
    ))
}

impl ProviderToolCall {
    /// Whether two calls are the same: same id, same name, equal arguments.
    pub fn is_same(&self, other: &ProviderToolCall) -> (r: bool)
        ensures
            r == same_call(self@, other@),
    {
        let same_id = match (&self.id, &other.id) {
            (Some(a), Some(b)) => *a == *b,
            (None, None) => true,
            _ => false,
        };
        let same_arguments = json::equal(&self.arguments, &other.arguments);
        same_id && self.name == other.name && same_arguments
    }
}

/// The calls of a list by what they say.
pub open spec fn call_views(calls: Seq<ProviderToolCall>) -> Seq<ToolCallView> {
    calls.map_values(|c: ProviderToolCall| c@)
}

/// Copies a list of calls.
pub fn clone_calls(calls: &Vec<ProviderToolCall>) -> (r: Vec<ProviderToolCall>)
    ensures
        call_views(r@) == call_views(calls@),
{
    let mut out: Vec<ProviderToolCall> = Vec::new();
    let mut i: usize = 0;
    while i < calls.len()
        invariant
            i <= calls@.len(),
            out@.len() == i,
            forall|k: int| 0 <= k < i ==> (#[trigger] out@[k])@ == calls@[k]@,
        decreases calls@.len() - i,
    {
        out.push(calls[i].clone());
        i += 1;
    }
    assert(call_views(out@) =~= call_views(calls@));
    out
}

/// One message of a conversation.
#[derive(Debug, PartialEq)]
pub struct ProviderChatMessage {
    pub role: ChatRole,
    pub content: String,
    pub reasoning: Option<String>,
    pub tool_call_id: Option<String>,
    pub tool_calls: Vec<ProviderToolCall>,
}

/// A `ProviderChatMessage` by what it says.
#[verifier::ext_equal]
pub struct MessageView {
    pub role: ChatRole,
    pub content: Seq<char>,
    pub reasoning: Option<Seq<char>>,
    pub tool_call_id: Option<Seq<char>>,
    pub tool_calls: Seq<ToolCallView>,
}

impl View for ProviderChatMessage {
    type V = MessageView;

    open spec fn view(&self) -> MessageView {
        MessageView {
            role: self.role,
            content: self.content@,
            reasoning: optional_text(self.reasoning),
            tool_call_id: optional_text(self.tool_call_id),
            tool_calls: call_views(self.tool_calls@),
        }
    }
}

impl Clone for ProviderChatMessage {
    fn clone(&self) -> (r: Self)
        ensures
            r@ == self@,
    {
        ProviderChatMessage {
            role: self.role,
            content: self.content.clone(),
            reasoning: clone_optional(&self.reasoning),
            tool_call_id: clone_optional(&self.tool_call_id),
            tool_calls: clone_calls(&self.tool_calls),
        }
    }
}

/// The messages of a list by what they say.
pub open spec fn message_views(messages: Seq<ProviderChatMessage>) -> Seq<MessageView> {
    messages.map_values(|m: ProviderChatMessage| m@)
}

/// Copies a list of messages.
pub fn clone_messages(messages: &Vec<ProviderChatMessage>) -> (r: Vec<ProviderChatMessage>)
    ensures
        message_views(r@) == message_views(messages@),
{
    let mut out: Vec<ProviderChatMessage> = Vec::new();
    let mut i: usize = 0;
    while i < messages.len()
        invariant
            i <= messages@.len(),
            out@.len() == i,
            forall|k: int| 0 <= k < i ==> (#[trigger] out@[k])@ == messages@[k]@,
        decreases messages@.len() - i,
    {
        out.push(messages[i].clone());
        i += 1;
    }
    assert(message_views(out@) =~= message_views(messages@));
    out
}

/// A tool that a model may call.
#[derive(Debug, PartialEq)]
pub struct ProviderToolDefinition {
    pub name: String,
    pub description: String,
    pub parameters: serde_json::Value,
}

/// A `ProviderToolDefinition` by what it says.
#[verifier::ext_equal]
pub struct ToolDefinitionView {
    pub name: Seq<char>,
    pub description: Seq<char>,
    pub parameters: Json,
}

impl View for ProviderToolDefinition {
    type V = ToolDefinitionView;

    open spec fn view(&self) -> ToolDefinitionView {
        ToolDefinitionView {
            name: self.name@,
            description: self.description@,
            parameters: json::json(self.parameters),
        }
    }
}

impl Clone for ProviderToolDefinition {
    fn clone(&self) -> (r: Self)
        ensures
            r@ == self@,
    {
        ProviderToolDefinition {
            name: self.name.clone(),
            description: self.description.clone(),
            parameters: self.parameters.clone(),
        }
    }
}

/// The tools of a list by what they say.
pub open spec fn tool_views(tools: Seq<ProviderToolDefinition>) -> Seq<ToolDefinitionView> {
    tools.map_values(|t: ProviderToolDefinition| t@)
}

/// Copies a list of tools.
pub fn clone_tools(tools: &Vec<ProviderToolDefinition>) -> (r: Vec<ProviderToolDefinition>)
    ensures
        tool_views(r@) == tool_views(tools@),
{
    let mut out: Vec<ProviderToolDefinition> = Vec::new();
    let mut i: usize = 0;
    while i < tools.len()
        invariant
            i <= tools@.len(),
            out@.len() == i,
            forall|k: int| 0 <= k < i ==> (#[trigger] out@[k])@ == tools@[k]@,
        decreases tools@.len() - i,
    {
        out.push(tools[i].clone());
        i += 1;
    }
    assert(tool_views(out@) =~= tool_views(tools@));
    out
}

/// What a model is asked.
#[derive(Debug, PartialEq)]
pub struct ProviderChatRequest {
    pub model: String,
    pub messages: Vec<ProviderChatMessage>,
    pub think: Option<bool>,
    pub tools: Option<Vec<ProviderToolDefinition>>,
}

/// A `ProviderChatRequest` by what it says.
#[verifier::ext_equal]
pub struct RequestView {
    pub model: Seq<char>,
    pub messages: Seq<MessageView>,
    pub think: Option<bool>,
    pub tools: Option<Seq<ToolDefinitionView>>,
}

impl View for ProviderChatRequest {
    type V = RequestView;

    open spec fn view(&self) -> RequestView {
        RequestView {
            model: self.model@,
            messages: message_views(self.messages@),
            think: self.think,
            tools: match self.tools {
                Some(tools) => Some(tool_views(tools@)),
                None => None,
            },
        }
    }
}

impl Clone for ProviderChatRequest {
    fn clone(&self) -> (r: Self)
        ensures
            r@ == self@,
    {
        ProviderChatRequest {
            model: self.model.clone(),
            messages: clone_messages(&self.messages),
            think: self.think,
            tools: match &self.tools {
                Some(tools) => Some(clone_tools(tools)),
                None => None,
            },
        }
    }
}

/// What a model answered at once.
#[derive(Clone, Debug, PartialEq, Eq)]
pub struct ProviderChatResponse {
    pub content: String,
    pub thinking: Option<String>,
}

/// One piece of an answer that a model gives bit by bit.
#[derive(Debug, PartialEq)]
pub enum ProviderChatStreamEvent {
    ThinkingDelta(String),
    ReasoningDelta(String),
    ContentDelta(String),
    ToolCall(ProviderToolCall),
    Done,
}

/// A `ProviderChatStreamEvent` by what it says.
#[verifier::ext_equal]
pub enum StreamEventView {
    ThinkingDelta(Seq<char>),
    ReasoningDelta(Seq<char>),
    ContentDelta(Seq<char>),
    ToolCall(ToolCallView),
    Done,
}

impl View for ProviderChatStreamEvent {
    type V = StreamEventView;

    open spec fn view(&self) -> StreamEventView {
        match *self {
            ProviderChatStreamEvent::ThinkingDelta(delta) => StreamEventView::ThinkingDelta(delta@),
            ProviderChatStreamEvent::ReasoningDelta(delta) => StreamEventView::ReasoningDelta(
                delta@,
            ),
            ProviderChatStreamEvent::ContentDelta(delta) => StreamEventView::ContentDelta(delta@),
            ProviderChatStreamEvent::ToolCall(call) => StreamEventView::ToolCall(call@),
            ProviderChatStreamEvent::Done => StreamEventView::Done,
        }
    }
}

impl Clone for ProviderChatStreamEvent {
    fn clone(&self) -> (r: Self)
        ensures
            r@ == self@,
    {
        match self {
            ProviderChatStreamEvent::ThinkingDelta(delta) => ProviderChatStreamEvent::ThinkingDelta(
                delta.clone(),
            ),
            ProviderChatStreamEvent::ReasoningDelta(delta) =>
            ProviderChatStreamEvent::ReasoningDelta(delta.clone()),
            ProviderChatStreamEvent::ContentDelta(delta) => ProviderChatStreamEvent::ContentDelta(
                delta.clone(),
            ),
            ProviderChatStreamEvent::ToolCall(call) => ProviderChatStreamEvent::ToolCall(
                call.clone(),
            ),
            ProviderChatStreamEvent::Done => ProviderChatStreamEvent::Done,
        }
    }
}

/// The events of a stream by what they say.
pub open spec fn stream_views(events: Seq<ProviderChatStreamEvent>) -> Seq<StreamEventView> {
    events.map_values(|e: ProviderChatStreamEvent| e@)
}

/// Whoever answers a conversation at once.
pub trait ProviderChat {
    fn chat(&self, base_url: &str, request: &ProviderChatRequest) -> Result<
        ProviderChatResponse,
        ProviderError,
    >;
}

/// What came of a connection test.
#[derive(Debug, PartialEq, Eq)]
pub enum ProviderConnectionStatus {
    Connected,
    Failed(ProviderError),
}

/// A `ProviderConnectionStatus` by what it says.
pub enum ConnectionStatusView {
    Connected,
    Failed(ProviderErrorView),
}

impl View for ProviderConnectionStatus {
    type V = ConnectionStatusView;

    open spec fn view(&self) -> ConnectionStatusView {
        match *self {
            ProviderConnectionStatus::Connected => ConnectionStatusView::Connected,
            ProviderConnectionStatus::Failed(error) => ConnectionStatusView::Failed(error@),
        }
    }
}

impl Clone for ProviderConnectionStatus {
    fn clone(&self) -> (r: Self)
        ensures
            r@ == self@,
    {
        match self {
            ProviderConnectionStatus::Connected => ProviderConnectionStatus::Connected,
            ProviderConnectionStatus::Failed(error) => ProviderConnectionStatus::Failed(
                error.clone(),
            ),
        }
    }
}

/// Whoever can be asked for a connection and for models.
pub trait ProviderConnectivity {
    fn test_connection(&self, request: &ProviderConnectionRequest) -> ProviderConnectionStatus;

    fn list_models(&self, request: &ProviderConnectionRequest) -> Result<
        Vec<ProviderModel>,
        ProviderError,
    >;
}

/// A provider that answers what it was made with.
#[derive(Clone, Debug)]
pub struct FakeProvider {
    pub status: ProviderConnectionStatus,
    pub models: Vec<ProviderModel>,
}

impl FakeProvider {
    /// A provider that connects and offers `models`.
    pub fn connected(models: Vec<ProviderModel>) -> (r: Self)
        ensures
            r.status@ is Connected,
            r.models == models,
    {
        FakeProvider { status: ProviderConnectionStatus::Connected, models }
    }

    /// A provider that fails with `error`.
    pub fn failed(error: ProviderError) -> (r: Self)
        ensures
            r.status@ == ConnectionStatusView::Failed(error@),
            r.models@.len() == 0,
    {
        FakeProvider { status: ProviderConnectionStatus::Failed(error), models: Vec::new() }
    }
}

impl ProviderConnectivity for FakeProvider {
    fn test_connection(&self, _request: &ProviderConnectionRequest) -> (r: ProviderConnectionStatus)
        ensures
            r@ == self.status@,
    {
        self.status.clone()
    }

    fn list_models(&self, _request: &ProviderConnectionRequest) -> (r: Result<
        Vec<ProviderModel>,
        ProviderError,
    >)
        ensures
            match (self.status@, r) {
                (ConnectionStatusView::Connected, Ok(models)) => model_views(models@)
                    == model_views(self.models@),
                (ConnectionStatusView::Failed(error), Err(e)) => e@ == error,
                _ => false,
            },
    {
        match &self.status {
            ProviderConnectionStatus::Connected => Ok(clone_models(&self.models)),
            ProviderConnectionStatus::Failed(error) => Err(error.clone()),
        }
    }
}

} // verus!
