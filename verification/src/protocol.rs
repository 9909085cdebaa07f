//! What is said to a provider of models, and what is made of what it says, member by member.

use vstd::prelude::*;
use vstd::string::*;

use crate::calling;
use crate::framing;
use crate::http;
use crate::json;
use crate::json::Json;
use crate::ollama;
use crate::orchestration;
use crate::provider::ChatRole;
use crate::provider::MessageView;
use crate::provider::ProviderErrorView;
use crate::provider::StreamEventView;
use crate::provider::ToolCallView;
use crate::provider::ToolDefinitionView;
use crate::reply;
use crate::request;
use crate::text;

verus! {

/// The name of a speaker.
pub open spec fn speaker(role: ChatRole) -> Seq<char> {
    match role {
        ChatRole::User => "User"@,
        ChatRole::Assistant => "Assistant"@,
        ChatRole::System => "System"@,
        ChatRole::Tool => "Tool"@,
    }
}

/// Whether a value is an object without a member.
pub open spec fn object_without(value: Json, key: Seq<char>) -> bool {
    match value {
        Json::Object(members) => !members.contains_key(key),
        _ => false,
    }
}

proof fn lemma_keys()
    ensures
        "role"@.len() == 4,
        "content"@.len() == 7,
        "reasoning"@.len() == 9,
        "tool_call_id"@.len() == 12,
        "tool_calls"@.len() == 10,
        "id"@.len() == 2,
        "name"@.len() == 4,
        "arguments"@.len() == 9,
        "description"@.len() == 11,
        "parameters"@.len() == 10,
{
    reveal_strlit("role");
    reveal_strlit("content");
    reveal_strlit("reasoning");
    reveal_strlit("tool_call_id");
    reveal_strlit("tool_calls");
    reveal_strlit("id");
    reveal_strlit("name");
    reveal_strlit("arguments");
    reveal_strlit("description");
    reveal_strlit("parameters");
}

proof fn lemma_no_member(entries: Seq<(Seq<char>, Json)>, key: Seq<char>)
    requires
        forall|k: int| 0 <= k < entries.len() ==> (#[trigger] entries[k]).0 != key,
    ensures
        !json::members_of(entries).contains_key(key),
    decreases entries.len(),
{
    if entries.len() > 0 {
        assert forall|k: int| 0 <= k < entries.drop_last().len() implies (
        #[trigger] entries.drop_last()[k]).0 != key by {
            assert(entries.drop_last()[k] == entries[k]);
        }
        lemma_no_member(entries.drop_last(), key);
        assert(entries[entries.len() - 1].0 != key);
    }
}

/// A message is sent with who speaks and all that is said; and, exactly where they are there, with the
/// reasoning, the id of the call that it answers, and its calls in their order.
pub proof fn law_messages_are_sent_whole(message: MessageView)
    ensures
        ({
            let sent = request::message_json(message);
            &&& calling::object_with(sent, "role"@, Json::Text(speaker(message.role)))
            &&& calling::object_with(sent, "content"@, Json::Text(message.content))
            &&& match message.reasoning {
                Some(reasoning) => calling::object_with(sent, "reasoning"@, Json::Text(reasoning)),
                None => object_without(sent, "reasoning"@),
            }
            &&& match message.tool_call_id {
                Some(id) => calling::object_with(sent, "tool_call_id"@, Json::Text(id)),
                None => object_without(sent, "tool_call_id"@),
            }
            &&& message.tool_calls.len() == 0 ==> object_without(sent, "tool_calls"@)
            &&& message.tool_calls.len() > 0 ==> exists|calls: Seq<Json>|
                {
                    &&& #[trigger] calling::object_with(sent, "tool_calls"@, Json::Array(calls))
                    &&& calls.len() == message.tool_calls.len()
                    &&& forall|k: int|
                        0 <= k < calls.len() ==> sent_call(
                            #[trigger] calls[k],
                            message.tool_calls[k],
                        )
                }
        }),
{
    lemma_keys();
    let sent = request::message_json(message);
    let said = seq![
        ("role"@, Json::Text(request::role_text(message.role))),
        ("content"@, Json::Text(message.content)),
    ];
    let one = request::with_text(said, "reasoning"@, message.reasoning);
    let two = request::with_text(one, "tool_call_id"@, message.tool_call_id);
    let calls = message.tool_calls.map_values(|c: ToolCallView| request::call_json(c));
    let all = if message.tool_calls.len() == 0 {
        two
    } else {
        two.push(("tool_calls"@, Json::Array(calls)))
    };
    assert(sent == json::object_of(all));
    assert(all[0] == said[0] && all[1] == said[1]);
    json::lemma_member_of(all, 0);
    json::lemma_member_of(all, 1);
    match message.reasoning {
        Some(reasoning) => {
            assert(all[2] == ("reasoning"@, Json::Text(reasoning)));
            json::lemma_member_of(all, 2);
        },
        None => {
            lemma_no_member(all, "reasoning"@);
        },
    }
    match message.tool_call_id {
        Some(id) => {
            let k = two.len() - 1;
            assert(all[k] == ("tool_call_id"@, Json::Text(id)));
            json::lemma_member_of(all, k);
        },
        None => {
            lemma_no_member(all, "tool_call_id"@);
        },
    }
    if message.tool_calls.len() == 0 {
        lemma_no_member(all, "tool_calls"@);
    } else {
        json::lemma_member_of(all, all.len() - 1);
        assert(calling::object_with(sent, "tool_calls"@, Json::Array(calls)));
        assert forall|k: int| 0 <= k < calls.len() implies sent_call(
            #[trigger] calls[k],
            message.tool_calls[k],
        ) by {
            lemma_sent_call(message.tool_calls[k]);
        }
    }
}

/// Whether a value tells of a call: its id, its name and its arguments.
pub open spec fn sent_call(sent: Json, call: ToolCallView) -> bool {
    &&& calling::object_with(
        sent,
        "id"@,
        match call.id {
            Some(id) => Json::Text(id),
            None => Json::Null,
        },
    )
    &&& calling::object_with(sent, "name"@, Json::Text(call.name))
    &&& calling::object_with(sent, "arguments"@, call.arguments)
}

proof fn lemma_sent_call(call: ToolCallView)
    ensures
        sent_call(request::call_json(call), call),
{
    lemma_keys();
    let members = seq![
        ("id"@, request::optional_json(call.id)),
        ("name"@, Json::Text(call.name)),
        ("arguments"@, call.arguments),
    ];
    json::lemma_member_of(members, 0);
    json::lemma_member_of(members, 1);
    json::lemma_member_of(members, 2);
}

/// A tool is offered with its name, what it does and what it takes.
pub proof fn law_tools_are_offered_whole(tool: ToolDefinitionView)
    ensures
        calling::object_with(request::tool_json(tool), "name"@, Json::Text(tool.name)),
        calling::object_with(
            request::tool_json(tool),
            "description"@,
            Json::Text(tool.description),
        ),
        calling::object_with(request::tool_json(tool), "parameters"@, tool.parameters),
{
    lemma_keys();
    let members = seq![
        ("name"@, Json::Text(tool.name)),
        ("description"@, Json::Text(tool.description)),
        ("parameters"@, tool.parameters),
    ];
    json::lemma_member_of(members, 0);
    json::lemma_member_of(members, 1);
    json::lemma_member_of(members, 2);
}

/// Whether a schema is that of an object with a property, which is required.
pub open spec fn requires_property(schema: Json, property: Seq<char>, kind: Seq<char>) -> bool {
    &&& calling::object_with(schema, "type"@, Json::Text("object"@))
    &&& calling::object_with(schema, "required"@, Json::Array(seq![Json::Text(property)]))
    &&& exists|properties: Json, one: Json|
        {
            &&& #[trigger] calling::object_with(schema, "properties"@, properties)
            &&& #[trigger] calling::object_with(properties, property, one)
            &&& calling::object_with(one, "type"@, Json::Text(kind))
        }
}

/// The tools that a model is offered are those that a call can name, and each tells what has to be
/// given: a path to read or to list, a URL to fetch.
pub proof fn law_offered_tools_can_be_called()
    ensures
        orchestration::read_file_tool().name == "read_file"@,
        orchestration::list_directory_tool().name == "list_directory"@,
        orchestration::fetch_url_tool().name == "fetch_url"@,
        requires_property(orchestration::read_file_tool().parameters, "path"@, "string"@),
        requires_property(orchestration::list_directory_tool().parameters, "path"@, "string"@),
        requires_property(orchestration::fetch_url_tool().parameters, "url"@, "string"@),
{
    reveal_strlit("type");
    reveal_strlit("properties");
    reveal_strlit("required");
    reveal_strlit("additionalProperties");
    reveal_strlit("path");
    reveal_strlit("start_line");
    reveal_strlit("end_line");
    reveal_strlit("url");
    reveal_strlit("description");
    assert("type"@.len() == 4 && "properties"@.len() == 10 && "required"@.len() == 8);
    assert("additionalProperties"@.len() == 20 && "path"@.len() == 4);
    assert("start_line"@.len() == 10 && "end_line"@.len() == 8 && "description"@.len() == 11);
    let typed = seq![("type"@, Json::Text("string"@))];
    json::lemma_member_of(typed, 0);
    let text = orchestration::typed("string"@);
    let number = orchestration::typed("integer"@);
    let parts = seq![("path"@, text), ("start_line"@, number), ("end_line"@, number)];
    json::lemma_member_of(parts, 0);
    lemma_schema(
        orchestration::object_schema(json::object_of(parts), "path"@),
        json::object_of(parts),
        "path"@,
        text,
    );
    let parts = seq![("path"@, text)];
    json::lemma_member_of(parts, 0);
    lemma_schema(
        orchestration::object_schema(json::object_of(parts), "path"@),
        json::object_of(parts),
        "path"@,
        text,
    );
    let described = seq![
        ("type"@, Json::Text("string"@)),
        ("description"@, Json::Text("Public HTTP or HTTPS URL to fetch."@)),
    ];
    json::lemma_member_of(described, 0);
    let url = json::object_of(described);
    let parts = seq![("url"@, url)];
    json::lemma_member_of(parts, 0);
    lemma_schema(
        orchestration::object_schema(json::object_of(parts), "url"@).push(
            ("additionalProperties"@, Json::Bool(false)),
        ),
        json::object_of(parts),
        "url"@,
        url,
    );
}

proof fn lemma_schema(
    entries: Seq<(Seq<char>, Json)>,
    properties: Json,
    property: Seq<char>,
    one: Json,
)
    requires
        entries.len() == 3 || entries.len() == 4,
        entries[0] == ("type"@, Json::Text("object"@)),
        entries[1] == ("properties"@, properties),
        entries[2] == ("required"@, Json::Array(seq![Json::Text(property)])),
        entries.len() == 4 ==> entries[3].0.len() == 20,
        "type"@.len() == 4,
        "properties"@.len() == 10,
        "required"@.len() == 8,
        calling::object_with(properties, property, one),
        calling::object_with(one, "type"@, Json::Text("string"@)),
    ensures
        requires_property(json::object_of(entries), property, "string"@),
{
    json::lemma_member_of(entries, 0);
    json::lemma_member_of(entries, 1);
    json::lemma_member_of(entries, 2);
    assert(calling::object_with(json::object_of(entries), "properties"@, properties));
}

/// A request to chat names the host, tells how many bytes follow, and ends with the body.
pub proof fn law_chat_requests_carry_their_body(host: Seq<char>, body: Seq<char>)
    ensures
        ({
            let sent = ollama::chat_request(host, body);
            let size = text::decimal(text::utf8_len(body));
            &&& "POST /api/chat HTTP/1.1\r\nHost: "@.is_prefix_of(sent)
            &&& exists|at: int|
                #[trigger] text::occurs_at(sent, "\r\nHost: "@ + host + "\r\n"@, at)
            &&& exists|at: int|
                #[trigger] text::occurs_at(sent, "Content-Length: "@ + size + "\r\n"@, at)
            &&& sent.len() >= body.len() + 4
            &&& sent.skip(sent.len() - body.len() - 4) == "\r\n\r\n"@ + body
        }),
{
    let sent = ollama::chat_request(host, body);
    let size = text::decimal(text::utf8_len(body));
    reveal_strlit("POST /api/chat HTTP/1.1\r\nHost: ");
    reveal_strlit("\r\nContent-Type: application/json\r\nContent-Length: ");
    reveal_strlit("\r\nConnection: close\r\n\r\n");
    reveal_strlit("\r\nHost: ");
    reveal_strlit("\r\n");
    reveal_strlit("Content-Length: ");
    reveal_strlit("\r\n\r\n");
    let first = "POST /api/chat HTTP/1.1\r\nHost: "@;
    let second = "\r\nContent-Type: application/json\r\nContent-Length: "@;
    let third = "\r\nConnection: close\r\n\r\n"@;
    assert(first =~= sent.subrange(0, first.len() as int));
    let named = "\r\nHost: "@ + host + "\r\n"@;
    let at = first.len() - 8;
    assert(sent.subrange(at, at + named.len()) =~= named);
    assert(text::occurs_at(sent, named, at));
    let told = "Content-Length: "@ + size + "\r\n"@;
    let place = first.len() + host.len() + second.len() - 16;
    assert(sent.subrange(place, place + told.len()) =~= told);
    assert(text::occurs_at(sent, told, place));
    assert(sent.skip(sent.len() - body.len() - 4) =~= "\r\n\r\n"@ + body);
}

/// A body whose length the header gives ends there; a shorter one is no reply.
pub proof fn law_lengths_end_the_body(
    header: Seq<u8>,
    body: Seq<u8>,
    status: nat,
    k: int,
    n: nat,
)
    requires
        framing::marked(header, http::header_end()),
        vstd::utf8::valid_utf8(header),
        http::status_of(vstd::utf8::decode_utf8(header)) == Some(status),
        !http::is_chunked(vstd::utf8::decode_utf8(header)),
        ({
            let lines = text::lines(vstd::utf8::decode_utf8(header));
            &&& 0 <= k < lines.len()
            &&& lines[k] == "Content-Length: "@ + text::decimal(n)
            &&& forall|j: int|
                0 <= j < k ==> {
                    let line = #[trigger] lines[j];
                    !"Content-Length:"@.is_prefix_of(line) && !"content-length:"@.is_prefix_of(line)
                }
        }),
        n <= usize::MAX,
    ensures
        http::response(header + seq![13u8, 10u8, 13u8, 10u8] + body) == (if body.len() < n {
            None::<(nat, Seq<u8>)>
        } else {
            Some((status, body.take(n as int)))
        }),
{
    let lines = text::lines(vstd::utf8::decode_utf8(header));
    let raw = header + seq![13u8, 10u8, 13u8, 10u8] + body;
    assert(http::header_end() =~= seq![13u8, 10u8, 13u8, 10u8]);
    framing::lemma_marked(Seq::empty(), header, http::header_end(), body);
    assert(Seq::<u8>::empty() + header + http::header_end() + body =~= raw);
    assert(raw.take(header.len() as int) =~= header);
    assert(raw.skip(header.len() as int + 4) =~= body);
    lemma_length(lines, k, n, 0);
}

proof fn lemma_length(lines: Seq<Seq<char>>, k: int, n: nat, from: int)
    requires
        0 <= from <= k < lines.len(),
        lines[k] == "Content-Length: "@ + text::decimal(n),
        n <= usize::MAX,
        forall|j: int|
            0 <= j < k ==> {
                let line = #[trigger] lines[j];
                !"Content-Length:"@.is_prefix_of(line) && !"content-length:"@.is_prefix_of(line)
            },
    ensures
        http::first_length(lines, from) == Some(n),
    decreases k - from,
{
    let line = lines[from];
    reveal_strlit("Content-Length:");
    reveal_strlit("Content-Length: ");
    reveal_strlit("content-length:");
    if from < k {
        assert(!text::starts_with(line, "Content-Length:"@)) by {
            if text::starts_with(line, "Content-Length:"@) {
                assert("Content-Length:"@ =~= line.subrange(0, 15));
            }
        }
        assert(!text::starts_with(line, "content-length:"@)) by {
            if text::starts_with(line, "content-length:"@) {
                assert("content-length:"@ =~= line.subrange(0, 15));
            }
        }
        lemma_length(lines, k, n, from + 1);
    } else {
        let digits = text::decimal(n);
        reply::lemma_decimal(n);
        assert(line.subrange(0, 15) =~= "Content-Length:"@);
        assert(text::starts_with(line, "Content-Length:"@));
        let rest = line.skip(15);
        assert(rest =~= seq![' '] + digits);
        assert(text::trim_start(rest) == digits) by {
            assert(rest[0] == ' ');
            assert(rest.skip(1) =~= digits);
            assert('0' <= digits[0] <= 'z');
            assert(!text::whitespace(digits[0]));
            reveal_with_fuel(text::trim_start, 3);
        }
        assert('0' <= digits[digits.len() - 1] <= 'z');
        assert(text::trim(rest) == digits);
        assert('0' <= digits[0] <= 'z');
    }
}

/// What a line of a stream says, piece by piece: the thinking of its message, then the content, where
/// they are texts that say anything, and then that the answer is done, where it says so.
pub proof fn law_lines_are_heard_whole(
    members: Map<Seq<char>, Json>,
    message: Map<Seq<char>, Json>,
    thinking: Seq<char>,
    content: Seq<char>,
)
    requires
        members.contains_key("message"@),
        members["message"@] == Json::Object(message),
        calling::holds_text(message, "thinking"@, thinking) || (!message.contains_key("thinking"@)
            && thinking.len() == 0),
        calling::holds_text(message, "content"@, content) || (!message.contains_key("content"@)
            && content.len() == 0),
    ensures
        ({
            let done = members.contains_key("done"@) && members["done"@] == Json::Bool(true);
            let thought: Seq<StreamEventView> = if thinking.len() > 0 {
                seq![StreamEventView::ThinkingDelta(thinking)]
            } else {
                Seq::empty()
            };
            let said: Seq<StreamEventView> = if content.len() > 0 {
                seq![StreamEventView::ContentDelta(content)]
            } else {
                Seq::empty()
            };
            let ended: Seq<StreamEventView> = if done {
                seq![StreamEventView::Done]
            } else {
                Seq::empty()
            };
            http::line_events(Json::Object(members)) == thought + said + ended
        }),
{
}

/// An answer that comes at once is the content of its message, with its thinking where it has some.
pub proof fn law_answers_are_read_whole(
    members: Map<Seq<char>, Json>,
    message: Map<Seq<char>, Json>,
    content: Seq<char>,
)
    requires
        members.contains_key("message"@),
        members["message"@] == Json::Object(message),
        calling::holds_text(message, "content"@, content),
    ensures
        ollama::chat_reply(Json::Object(members)).0 == content,
        forall|thinking: Seq<char>| #[trigger]
            calling::holds_text(message, "thinking"@, thinking) ==> ollama::chat_reply(
                Json::Object(members),
            ).1 == Some(thinking),
        !message.contains_key("thinking"@) ==> ollama::chat_reply(Json::Object(members)).1 is None,
{
}

/// Whether an entry of a list of models has a name.
pub open spec fn names_model(item: Json, name: Seq<char>) -> bool {
    match item {
        Json::Object(members) => calling::holds_text(members, "name"@, name),
        _ => false,
    }
}

/// A reply lists the models of all its entries that have a name, in their order, and no others; each
/// model is called by its name and known by it, with what else its entry tells.
pub proof fn law_models_are_listed(items: Seq<Json>, item: Json)
    ensures
        ollama::models_in(Seq::empty()).len() == 0,
        (forall|name: Seq<char>| !#[trigger] names_model(item, name)) ==> ollama::models_in(
            items.push(item),
        ) == ollama::models_in(items),
        forall|name: Seq<char>| #[trigger]
            names_model(item, name) ==> {
                let after = ollama::models_in(items.push(item));
                let model = after.last();
                &&& after.len() == ollama::models_in(items).len() + 1
                &&& after.drop_last() == ollama::models_in(items)
                &&& model.id == name
                &&& model.label == name
                &&& model.metadata is Some
                &&& forall|size: Seq<char>, details: Map<Seq<char>, Json>|
                    #![trigger calling::holds_text(details, "parameter_size"@, size)]
                    calling::object_with(item, "details"@, Json::Object(details))
                        && calling::holds_text(details, "parameter_size"@, size)
                        ==> (model.metadata->0).parameter_size == Some(size)
                &&& forall|level: Seq<char>, details: Map<Seq<char>, Json>|
                    #![trigger calling::holds_text(details, "quantization_level"@, level)]
                    calling::object_with(item, "details"@, Json::Object(details))
                        && calling::holds_text(details, "quantization_level"@, level)
                        ==> (model.metadata->0).quantization_level == Some(level)
                &&& forall|n: u64| #[trigger]
                    calling::holds_number(item->Object_0, "context_length"@, n) ==> (
                    model.metadata->0).context_length == Some(n)
                &&& forall|n: u64| #[trigger]
                    calling::holds_number(item->Object_0, "embedding_length"@, n) ==> (
                    model.metadata->0).embedding_length == Some(n)
            },
{
    assert(items.push(item).drop_last() =~= items);
    assert(items.push(item).last() == item);
    match json::text_member(item, "name"@) {
        Some(name) => {
            assert(names_model(item, name));
            let after = ollama::models_in(items.push(item));
            assert(after.drop_last() =~= ollama::models_in(items));
        },
        None => {},
    }
}

/// What a model says that it can do is told as it is said: all texts of its list, in their order.
pub proof fn law_capabilities_are_told(members: Map<Seq<char>, Json>, said: Seq<Seq<char>>)
    requires
        members.contains_key("capabilities"@),
        members["capabilities"@] == Json::Array(said.map_values(|s: Seq<char>| Json::Text(s))),
    ensures
        ollama::capabilities_of(Json::Object(members)) == said,
{
    lemma_texts(said);
}

proof fn lemma_texts(said: Seq<Seq<char>>)
    ensures
        ollama::texts_in(said.map_values(|s: Seq<char>| Json::Text(s))) == said,
    decreases said.len(),
{
    let all = said.map_values(|s: Seq<char>| Json::Text(s));
    if said.len() == 0 {
        assert(ollama::texts_in(all) =~= said);
    } else {
        let before = said.drop_last().map_values(|s: Seq<char>| Json::Text(s));
        assert(all.drop_last() =~= before);
        lemma_texts(said.drop_last());
        assert(said =~= said.drop_last().push(said.last()));
    }
}

/// A reply lists its models where it has a list of them, and is no such reply where it has none.
pub proof fn law_replies_list_models(members: Map<Seq<char>, Json>, items: Seq<Json>)
    ensures
        members.contains_key("models"@) && members["models"@] == Json::Array(items)
            ==> ollama::models_of(Json::Object(members)) == Some(ollama::models_in(items)),
        !members.contains_key("models"@) ==> ollama::models_of(Json::Object(members)) is None,
{
}

/// A reply to a request for models that tells of success, and does not come in chunks, is read as its
/// body; one that tells of anything else is an error of the server.
pub proof fn law_successful_replies_are_read(header: Seq<char>, body: Seq<char>)
    requires
        framing::marked(vstd::utf8::encode_utf8(header), http::header_end()),
        vstd::utf8::valid_utf8(
            vstd::utf8::encode_utf8(header) + http::header_end() + vstd::utf8::encode_utf8(body),
        ),
    ensures
        ({
            let reply = vstd::utf8::encode_utf8(header) + http::header_end()
                + vstd::utf8::encode_utf8(body);
            let success = "HTTP/1.1 200"@.is_prefix_of(header) || "HTTP/1.0 200"@.is_prefix_of(
                header,
            );
            &&& success && !http::is_chunked(header) ==> ollama::tags_text(reply) == Ok::<
                Seq<char>,
                ProviderErrorView,
            >(body)
            &&& !success ==> ollama::tags_text(reply) is Err && ollama::tags_text(
                reply,
            )->Err_0 is Unavailable
        }),
{
    let head = vstd::utf8::encode_utf8(header);
    let told = vstd::utf8::encode_utf8(body);
    let reply = head + http::header_end() + told;
    framing::lemma_marked(Seq::empty(), head, http::header_end(), told);
    assert(Seq::<u8>::empty() + head + http::header_end() + told =~= reply);
    assert(http::header_end().len() == 4);
    assert(reply.take(head.len() as int) =~= head);
    assert(reply.skip(head.len() as int + 4) =~= told);
    vstd::utf8::encode_utf8_valid_utf8(header);
    vstd::utf8::encode_utf8_decode_utf8(header);
    vstd::utf8::encode_utf8_valid_utf8(body);
    vstd::utf8::encode_utf8_decode_utf8(body);
    reveal_strlit("HTTP/1.1 200");
    reveal_strlit("HTTP/1.0 200");
    if text::starts_with(header, "HTTP/1.1 200"@) {
        assert("HTTP/1.1 200"@ =~= header.subrange(0, 12));
    }
    if text::starts_with(header, "HTTP/1.0 200"@) {
        assert("HTTP/1.0 200"@ =~= header.subrange(0, 12));
    }
    if "HTTP/1.1 200"@.is_prefix_of(header) {
        assert(text::starts_with(header, "HTTP/1.1 200"@));
    }
    if "HTTP/1.0 200"@.is_prefix_of(header) {
        assert(text::starts_with(header, "HTTP/1.0 200"@));
    }
}

} // verus!
