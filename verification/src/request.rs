//! The JSON text in which a model is asked.

use vstd::prelude::*;
use vstd::string::*;

use crate::json;
use crate::json::Json;
use crate::provider;
use crate::provider::ChatRole;
use crate::provider::MessageView;
use crate::provider::ProviderChatMessage;
use crate::provider::ProviderChatRequest;
use crate::provider::ProviderToolCall;
use crate::provider::ProviderToolDefinition;
use crate::provider::RequestView;
use crate::provider::ToolCallView;
use crate::provider::ToolDefinitionView;

verus! {

/// How a speaker is written.
pub open spec fn role_text(role: ChatRole) -> Seq<char> {
    match role {
        ChatRole::User => "User"@,
        ChatRole::Assistant => "Assistant"@,
        ChatRole::System => "System"@,
        ChatRole::Tool => "Tool"@,
    }
}

/// A text, or null where there is none.
pub open spec fn optional_json(text: Option<Seq<char>>) -> Json {
    match text {
        Some(text) => Json::Text(text),
        None => Json::Null,
    }
}

/// How a tool call is written.
pub open spec fn call_json(call: ToolCallView) -> Json {
    json::object_of(
        seq![
            ("id"@, optional_json(call.id)),
            ("name"@, Json::Text(call.name)),
            ("arguments"@, call.arguments),
        ],
    )
}

/// How some tool calls are written.
pub open spec fn calls_json(calls: Seq<ToolCallView>) -> Json {
    Json::Array(calls.map_values(|c: ToolCallView| call_json(c)))
}

/// Entries, and one more where there is a text for it.
pub open spec fn with_text(
    entries: Seq<(Seq<char>, Json)>,
    key: Seq<char>,
    text: Option<Seq<char>>,
) -> Seq<(Seq<char>, Json)> {
    match text {
        Some(text) => entries.push((key, Json::Text(text))),
        None => entries,
    }
}

/// How a message is written: who speaks and what is said, and, as far as they are there, the
/// reasoning, the call that it answers and the calls that it asks for.
pub open spec fn message_json(message: MessageView) -> Json {
    let said = seq![
        ("role"@, Json::Text(role_text(message.role))),
        ("content"@, Json::Text(message.content)),
    ];
    let told = with_text(
        with_text(said, "reasoning"@, message.reasoning),
        "tool_call_id"@,
        message.tool_call_id,
    );
    json::object_of(
        if message.tool_calls.len() == 0 {
            told
        } else {
            told.push(("tool_calls"@, calls_json(message.tool_calls)))
        },
    )
}

/// How a tool is written.
pub open spec fn tool_json(tool: ToolDefinitionView) -> Json {
    json::object_of(
        seq![
            ("name"@, Json::Text(tool.name)),
            ("description"@, Json::Text(tool.description)),
            ("parameters"@, tool.parameters),
        ],
    )
}

/// The entries of a request: the model, the messages in their order, whether it is to think, and the
/// tools where it may call some.
pub open spec fn request_entries(request: RequestView) -> Seq<(Seq<char>, Json)> {
    let asked = seq![
        ("model"@, Json::Text(request.model)),
        ("messages"@, Json::Array(request.messages.map_values(|m: MessageView| message_json(m)))),
        (
            "think"@,
            match request.think {
                Some(think) => Json::Bool(think),
                None => Json::Null,
            },
        ),
    ];
    match request.tools {
        Some(tools) => asked.push(
            ("tools"@, Json::Array(tools.map_values(|t: ToolDefinitionView| tool_json(t)))),
        ),
        None => asked,
    }
}

/// How a request is written.
pub open spec fn request_json(request: RequestView) -> Json {
    json::object_of(request_entries(request))
}

/// What the chat of a server is sent: the request, and whether the answer is to come bit by bit.
pub open spec fn chat_json(request: RequestView, streamed: bool) -> Json {
    json::object_of(request_entries(request).push(("stream"@, Json::Bool(streamed))))
}

fn push_text(members: &mut Vec<(String, serde_json::Value)>, key: &str, text: &Option<String>)
    ensures
        json::entry_views(final(members)@) == with_text(
            json::entry_views(old(members)@),
            key@,
            provider::optional_text(*text),
        ),
{
    match text {
        Some(text) => {
            members.push(json::text_entry(key, text.as_str()));
            assert(json::entry_views(members@) =~= json::entry_views(old(members)@).push(
                (key@, Json::Text(text@)),
            ));
        },
        None => {},
    }
}

fn call_value(call: &ProviderToolCall) -> (r: serde_json::Value)
    ensures
        json::json(r) == call_json(call@),
{
    let id = match &call.id {
        Some(id) => json::text_value(String::from_str(id.as_str())),
        None => json::null_value(),
    };
    let mut members: Vec<(String, serde_json::Value)> = Vec::new();
    members.push(json::entry("id", id));
    members.push(json::text_entry("name", call.name.as_str()));
    members.push(json::entry("arguments", call.arguments.clone()));
    assert(json::entry_views(members@) =~= seq![
        ("id"@, optional_json(call@.id)),
        ("name"@, Json::Text(call@.name)),
        ("arguments"@, call@.arguments),
    ]);
    json::object_value(members)
}

fn calls_value(calls: &Vec<ProviderToolCall>) -> (r: serde_json::Value)
    ensures
        json::json(r) == calls_json(provider::call_views(calls@)),
{
    let mut items: Vec<serde_json::Value> = Vec::new();
    let mut i: usize = 0;
    while i < calls.len()
        invariant
            i <= calls@.len(),
            items@.len() == i,
            forall|k: int| 0 <= k < i ==> json::json(#[trigger] items@[k]) == call_json(calls@[k]@),
        decreases calls@.len() - i,
    {
        items.push(call_value(&calls[i]));
        i += 1;
    }
    assert(json::json_seq(items@) =~= provider::call_views(calls@).map_values(
        |c: ToolCallView| call_json(c),
    ));
    json::array_value(items)
}

fn message_value(message: &ProviderChatMessage) -> (r: serde_json::Value)
    ensures
        json::json(r) == message_json(message@),
{
    let role = match message.role {
        ChatRole::User => "User",
        ChatRole::Assistant => "Assistant",
        ChatRole::System => "System",
        ChatRole::Tool => "Tool",
    };
    let mut members: Vec<(String, serde_json::Value)> = Vec::new();
    members.push(json::text_entry("role", role));
    members.push(json::text_entry("content", message.content.as_str()));
    assert(json::entry_views(members@) =~= seq![
        ("role"@, Json::Text(role_text(message.role))),
        ("content"@, Json::Text(message.content@)),
    ]);
    push_text(&mut members, "reasoning", &message.reasoning);
    push_text(&mut members, "tool_call_id", &message.tool_call_id);
    if message.tool_calls.len() != 0 {
        let ghost told = json::entry_views(members@);
        members.push(json::entry("tool_calls", calls_value(&message.tool_calls)));
        assert(json::entry_views(members@) =~= told.push(
            ("tool_calls"@, calls_json(message@.tool_calls)),
        ));
    }
    json::object_value(members)
}

fn messages_value(messages: &Vec<ProviderChatMessage>) -> (r: serde_json::Value)
    ensures
        json::json(r) == Json::Array(
            provider::message_views(messages@).map_values(|m: MessageView| message_json(m)),
        ),
{
    let mut items: Vec<serde_json::Value> = Vec::new();
    let mut i: usize = 0;
    while i < messages.len()
        invariant
            i <= messages@.len(),
            items@.len() == i,
            forall|k: int|
                0 <= k < i ==> json::json(#[trigger] items@[k]) == message_json(messages@[k]@),
        decreases messages@.len() - i,
    {
        items.push(message_value(&messages[i]));
        i += 1;
    }
    assert(json::json_seq(items@) =~= provider::message_views(messages@).map_values(
        |m: MessageView| message_json(m),
    ));
    json::array_value(items)
}

fn tool_value(tool: &ProviderToolDefinition) -> (r: serde_json::Value)
    ensures
        json::json(r) == tool_json(tool@),
{
    let mut members: Vec<(String, serde_json::Value)> = Vec::new();
    members.push(json::text_entry("name", tool.name.as_str()));
    members.push(json::text_entry("description", tool.description.as_str()));
    members.push(json::entry("parameters", tool.parameters.clone()));
    assert(json::entry_views(members@) =~= seq![
        ("name"@, Json::Text(tool@.name)),
        ("description"@, Json::Text(tool@.description)),
        ("parameters"@, tool@.parameters),
    ]);
    json::object_value(members)
}

fn tools_value(tools: &Vec<ProviderToolDefinition>) -> (r: serde_json::Value)
    ensures
        json::json(r) == Json::Array(
            provider::tool_views(tools@).map_values(|t: ToolDefinitionView| tool_json(t)),
        ),
{
    let mut items: Vec<serde_json::Value> = Vec::new();
    let mut i: usize = 0;
    while i < tools.len()
        invariant
            i <= tools@.len(),
            items@.len() == i,
            forall|k: int| 0 <= k < i ==> json::json(#[trigger] items@[k]) == tool_json(tools@[k]@),
        decreases tools@.len() - i,
    {
        items.push(tool_value(&tools[i]));
        i += 1;
    }
    assert(json::json_seq(items@) =~= provider::tool_views(tools@).map_values(
        |t: ToolDefinitionView| tool_json(t),
    ));
    json::array_value(items)
}

fn request_members(request: &ProviderChatRequest) -> (r: Vec<(String, serde_json::Value)>)
    ensures
        json::entry_views(r@) == request_entries(request@),
{
    let think = match request.think {
        Some(think) => json::bool_value(think),
        None => json::null_value(),
    };
    let mut members: Vec<(String, serde_json::Value)> = Vec::new();
    members.push(json::text_entry("model", request.model.as_str()));
    members.push(json::entry("messages", messages_value(&request.messages)));
    members.push(json::entry("think", think));
    let ghost asked = json::entry_views(members@);
    match &request.tools {
        Some(tools) => {
            members.push(json::entry("tools", tools_value(tools)));
            assert(json::entry_views(members@) =~= asked.push(
                (
                    "tools"@,
                    Json::Array(
                        provider::tool_views(tools@).map_values(
                            |t: ToolDefinitionView| tool_json(t),
                        ),
                    ),
                ),
            ));
        },
        None => {},
    }
    assert(json::entry_views(members@) =~= request_entries(request@));
    members
}

impl ProviderChatRequest {
    /// The request as a JSON value.
    pub fn to_value(&self) -> (r: serde_json::Value)
        ensures
            json::json(r) == request_json(self@),
    {
        json::object_value(request_members(self))
    }

    /// The JSON text that the chat of a server is sent.
    pub fn chat_body(&self, streamed: bool) -> (r: String)
        ensures
            r@ == json::json_text(chat_json(self@, streamed)),
    {
        let mut members = request_members(self);
        members.push(json::entry("stream", json::bool_value(streamed)));
        assert(json::entry_views(members@) =~= request_entries(self@).push(
            ("stream"@, Json::Bool(streamed)),
        ));
        json::to_text(&json::object_value(members))
    }
}

/// A request can be read back from what is sent: its model, its messages, whether it is to think and
/// whether the answer is to come bit by bit; a request without tools says nothing of tools.
pub proof fn law_requests_say_what_is_asked(request: RequestView, streamed: bool)
    ensures
        json::text_member(chat_json(request, streamed), "model"@) == Some(request.model),
        json::member(chat_json(request, streamed), "messages"@) == Some(
            Json::Array(request.messages.map_values(|m: MessageView| message_json(m))),
        ),
        json::member(chat_json(request, streamed), "think"@) == Some(
            match request.think {
                Some(think) => Json::Bool(think),
                None => Json::Null,
            },
        ),
        json::member(chat_json(request, streamed), "stream"@) == Some(Json::Bool(streamed)),
        json::member(chat_json(request, streamed), "tools"@) == match request.tools {
            Some(tools) => Some(
                Json::Array(tools.map_values(|t: ToolDefinitionView| tool_json(t))),
            ),
            None => None,
        },
{
    reveal_strlit("model");
    reveal_strlit("messages");
    reveal_strlit("think");
    reveal_strlit("tools");
    reveal_strlit("stream");
    reveal_with_fuel(json::members_of, 6);
    let entries = request_entries(request).push(("stream"@, Json::Bool(streamed)));
    assert("model"@.len() == 5 && "think"@.len() == 5 && "tools"@.len() == 5);
    assert("model"@[0] == 'm' && "think"@[1] == 'h' && "tools"@[1] == 'o' && "think"@[0] == 't');
    assert("messages"@.len() == 8 && "stream"@.len() == 6);
    let asked = request_entries(RequestView { tools: None, ..request });
    assert(asked.drop_last().drop_last() =~= asked.take(1));
    assert(asked.take(1).drop_last() =~= Seq::<(Seq<char>, Json)>::empty());
    assert(entries.drop_last() =~= request_entries(request));
    match request.tools {
        Some(tools) => {
            assert(request_entries(request).drop_last() =~= asked);
        },
        None => {
            assert(request_entries(request) =~= asked);
        },
    }
}

} // verus!
