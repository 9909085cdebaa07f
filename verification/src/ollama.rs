//! The requests that go to an Ollama server, and how its replies are read.

use vstd::prelude::*;
use vstd::slice::slice_subrange;
use vstd::string::*;

use crate::http;
use crate::json;
use crate::json::Json;
use crate::provider;
use crate::provider::ConnectionStatusView;
use crate::provider::ModelMetadata;
use crate::provider::ModelMetadataView;
use crate::provider::ProviderChatResponse;
use crate::provider::ProviderConnectionStatus;
use crate::provider::ProviderError;
use crate::provider::ProviderErrorView;
use crate::provider::ProviderModel;
use crate::provider::ProviderModelView;
use crate::text;

verus! {

/// How long a server may take to answer, in seconds.
#[derive(Clone, Copy, Debug, PartialEq, Eq, Structural)]
pub struct OllamaProvider {
    pub timeout: u64,
    pub chat_timeout: u64,
}

impl Default for OllamaProvider {
    fn default() -> (r: Self)
        ensures
            r.timeout == 5,
            r.chat_timeout == 300,
    {
        OllamaProvider { timeout: 5, chat_timeout: 300 }
    }
}

/// `url::Url`, a parsed URL.
#[verifier::external_type_specification]
#[verifier::external_body]
pub struct ExUrl(url::Url);

/// What is read of a URL: its host, and its port or the usual one of its scheme.
pub struct UrlView {
    pub host: Option<Seq<char>>,
    pub port: Option<u16>,
}

/// What a `url::Url` holds.
pub uninterp spec fn url_view(url: url::Url) -> UrlView;

/// What `url::Url::parse` reads from a text; nothing where it is no URL.
pub uninterp spec fn parsed_url(text: Seq<char>) -> Option<UrlView>;

/// `url::Url::parse`, as a function of the text.
#[verifier::external_body]
fn parse_url(text: &str) -> (r: Option<url::Url>)
    ensures
        match r {
            Some(url) => parsed_url(text@) == Some(url_view(url)),
            None => parsed_url(text@) is None,
        },
{
    url::Url::parse(text).ok()
}

/// `url::Url::host_str`: the host of the URL, where it has one.
#[verifier::external_body]
fn url_host(url: &url::Url) -> (r: Option<&str>)
    ensures
        match r {
            Some(host) => url_view(*url).host == Some(host@),
            None => url_view(*url).host is None,
        },
{
    url.host_str()
}

/// `url::Url::port_or_known_default`: the port of the URL, or the usual one of its scheme.
#[verifier::external_body]
fn url_port(url: &url::Url) -> (r: Option<u16>)
    ensures
        r == url_view(*url).port,
{
    url.port_or_known_default()
}

/// Where a server listens.
#[derive(Clone, Debug, PartialEq, Eq)]
pub struct Endpoint {
    pub host: String,
    pub port: u16,
}

/// Where the server of a base URL listens. A URL without host or port leads nowhere.
pub fn endpoint(base_url: &str) -> (r: Result<Endpoint, ProviderError>)
    ensures
        match (parsed_url(base_url@), r) {
            (Some(url), Ok(endpoint)) => url.host == Some(endpoint.host@) && url.port == Some(
                endpoint.port,
            ),
            (Some(url), Err(error)) => (url.host is None || url.port is None)
                && error@ is InvalidResponse,
            (None, Err(error)) => error@ is InvalidResponse,
            (None, Ok(_)) => false,
        },
{
    match parse_url(base_url) {
        None => Err(ProviderError::InvalidResponse),
        Some(url) => endpoint_of(url_host(&url), url_port(&url)),
    }
}

/// Where a server of this host and port listens.
pub fn endpoint_of(host: Option<&str>, port: Option<u16>) -> (r: Result<Endpoint, ProviderError>)
    ensures
        match (host, port, r) {
            (Some(h), Some(p), Ok(endpoint)) => endpoint.host@ == h@ && endpoint.port == p,
            (Some(_), Some(_), Err(_)) => false,
            (_, _, Ok(_)) => false,
            (_, _, Err(error)) => error@ is InvalidResponse,
        },
{
    match host {
        None => Err(ProviderError::InvalidResponse),
        Some(host) => match port {
            None => Err(ProviderError::InvalidResponse),
            Some(port) => Ok(Endpoint { host: String::from_str(host), port }),
        },
    }
}

/// The request that sends a body to the chat of a server.
pub open spec fn chat_request(host: Seq<char>, body: Seq<char>) -> Seq<char> {
    "POST /api/chat HTTP/1.1\r\nHost: "@ + host
        + "\r\nContent-Type: application/json\r\nContent-Length: "@ + text::decimal(
        text::utf8_len(body),
    ) + "\r\nConnection: close\r\n\r\n"@ + body
}

/// The request that sends a body to the chat of a server.
pub fn chat_request_text(host: &str, body: &str) -> (r: String)
    ensures
        r@ == chat_request(host@, body@),
{
    let mut out = String::from_str("POST /api/chat HTTP/1.1\r\nHost: ");
    out.append(host);
    out.append("\r\nContent-Type: application/json\r\nContent-Length: ");
    out.append(&text::decimal_text(text::byte_len(body) as u64));
    out.append("\r\nConnection: close\r\n\r\n");
    out.append(body);
    out
}

/// The request that asks a server for its models.
pub fn tags_request_text(host: &str) -> (r: String)
    ensures
        r@ == "GET /api/tags HTTP/1.1\r\nHost: "@ + host@ + "\r\nConnection: close\r\n\r\n"@,
{
    let mut out = String::from_str("GET /api/tags HTTP/1.1\r\nHost: ");
    out.append(host);
    out.append("\r\nConnection: close\r\n\r\n");
    out
}

/// Whether a header tells of success.
pub open spec fn plain_success(header: Seq<char>) -> bool {
    text::starts_with(header, "HTTP/1.1 200"@) || text::starts_with(header, "HTTP/1.0 200"@)
}

/// The text that the reply to a request for models holds.
pub open spec fn tags_text(bytes: Seq<u8>) -> Result<Seq<char>, ProviderErrorView> {
    match (vstd::utf8::valid_utf8(bytes), text::find_from(bytes, http::header_end(), 0)) {
        (true, Some(split)) => {
            let header = vstd::utf8::decode_utf8(bytes.take(split));
            let body = bytes.skip(split + 4);
            if !vstd::utf8::valid_utf8(bytes.take(split)) {
                Err(ProviderErrorView::InvalidResponse)
            } else if !plain_success(header) {
                Err(ProviderErrorView::Unavailable("http error"@))
            } else {
                let framed = if http::is_chunked(header) {
                    http::chunked_body(body)
                } else {
                    Some(body)
                };
                match framed {
                    Some(joined) => if vstd::utf8::valid_utf8(joined) {
                        Ok(vstd::utf8::decode_utf8(joined))
                    } else {
                        Err(ProviderErrorView::InvalidResponse)
                    },
                    None => Err(ProviderErrorView::InvalidResponse),
                }
            }
        },
        _ => Err(ProviderErrorView::InvalidResponse),
    }
}

/// Reads the reply to a request for models: UTF-8 throughout, a header that tells of success, and
/// a body that may come in chunks.
pub fn read_tags(bytes: &[u8]) -> (r: Result<String, ProviderError>)
    ensures
        match (tags_text(bytes@), r) {
            (Ok(expected), Ok(body)) => body@ == expected,
            (Err(expected), Err(error)) => error@ == expected,
            _ => false,
        },
{
    match text::utf8_text(bytes) {
        None => {
            return Err(ProviderError::InvalidResponse);
        },
        Some(_) => {},
    }
    let n: usize = bytes.len();
    let split: usize = match http::find_header_end(bytes) {
        None => {
            return Err(ProviderError::InvalidResponse);
        },
        Some(split) => split,
    };
    assert(bytes@.subrange(0, split as int) =~= bytes@.take(split as int));
    assert(bytes@.subrange(split + 4, bytes@.len() as int) =~= bytes@.skip(split + 4));
    let header = match text::utf8_text(slice_subrange(bytes, 0, split)) {
        None => {
            return Err(ProviderError::InvalidResponse);
        },
        Some(header) => text::chars_of(&header),
    };
    let body = slice_subrange(bytes, split + 4, n);
    if !text::is_at(&header, &text::chars_of("HTTP/1.1 200"), 0) && !text::is_at(
        &header,
        &text::chars_of("HTTP/1.0 200"),
        0,
    ) {
        return Err(ProviderError::Unavailable(String::from_str("http error")));
    }
    let decoded = if http::chunked_header(&header) {
        match http::join_chunks(body) {
            None => {
                return Err(ProviderError::InvalidResponse);
            },
            Some(joined) => text::utf8_text(&joined),
        }
    } else {
        text::utf8_text(body)
    };
    match decoded {
        None => Err(ProviderError::InvalidResponse),
        Some(text) => Ok(text),
    }
}

/// The texts among some values.
pub open spec fn texts_in(items: Seq<Json>) -> Seq<Seq<char>>
    decreases items.len(),
{
    if items.len() == 0 {
        Seq::empty()
    } else {
        match json::text_of(items.last()) {
            Some(found) => texts_in(items.drop_last()).push(found),
            None => texts_in(items.drop_last()),
        }
    }
}

/// The text at a key within a member of a value.
pub open spec fn detail(model: Json, key: Seq<char>) -> Option<Seq<char>> {
    match json::member(model, "details"@) {
        Some(details) => json::text_member(details, key),
        None => None,
    }
}

/// The unsigned integer under a key.
pub open spec fn unsigned_member(value: Json, key: Seq<char>) -> Option<u64> {
    match json::member(value, key) {
        Some(found) => json::unsigned_of(found),
        None => None,
    }
}

/// What a model says that it can do.
pub open spec fn capabilities_of(model: Json) -> Seq<Seq<char>> {
    match json::member(model, "capabilities"@) {
        Some(Json::Array(items)) => texts_in(items),
        _ => Seq::empty(),
    }
}

/// The model that an entry of a list tells of: only an entry with a name tells of one.
pub open spec fn model_of(model: Json) -> Option<ProviderModelView> {
    match json::text_member(model, "name"@) {
        None => None,
        Some(name) => Some(
            ProviderModelView {
                id: name,
                label: name,
                metadata: Some(
                    ModelMetadataView {
                        parameter_size: detail(model, "parameter_size"@),
                        quantization_level: detail(model, "quantization_level"@),
                        context_length: unsigned_member(model, "context_length"@),
                        embedding_length: unsigned_member(model, "embedding_length"@),
                        capabilities: capabilities_of(model),
                    },
                ),
            },
        ),
    }
}

/// The models that the entries of a list tell of.
pub open spec fn models_in(items: Seq<Json>) -> Seq<ProviderModelView>
    decreases items.len(),
{
    if items.len() == 0 {
        Seq::empty()
    } else {
        match model_of(items.last()) {
            Some(model) => models_in(items.drop_last()).push(model),
            None => models_in(items.drop_last()),
        }
    }
}

/// The models that a reply tells of, where it has a list of them.
pub open spec fn models_of(value: Json) -> Option<Seq<ProviderModelView>> {
    match json::member(value, "models"@) {
        Some(Json::Array(items)) => Some(models_in(items)),
        _ => None,
    }
}

fn read_text(value: Option<&serde_json::Value>, key: &str) -> (r: Option<String>)
    ensures
        provider::optional_text(r) == (match value {
            Some(found) => json::text_member(json::json(*found), key@),
            None => None,
        }),
{
    match value {
        Some(found) => match json::get(found, key) {
            Some(member) => match json::as_str(member) {
                Some(text) => Some(String::from_str(text)),
                None => None,
            },
            None => None,
        },
        None => None,
    }
}

fn read_unsigned(value: &serde_json::Value, key: &str) -> (r: Option<u64>)
    ensures
        r == unsigned_member(json::json(*value), key@),
{
    match json::get(value, key) {
        Some(member) => json::as_u64(member),
        None => None,
    }
}

fn read_capabilities(value: &serde_json::Value) -> (r: Vec<String>)
    ensures
        text::texts(r@) == capabilities_of(json::json(*value)),
{
    let mut out: Vec<String> = Vec::new();
    assert(text::texts(out@) =~= Seq::<Seq<char>>::empty());
    match json::get(value, "capabilities") {
        Some(member) => match json::as_array(member) {
            Some(items) => {
                let ghost all = json::json_seq(items@);
                let mut i: usize = 0;
                assert(all.take(0) =~= Seq::<Json>::empty());
                while i < items.len()
                    invariant
                        i <= items@.len(),
                        all == json::json_seq(items@),
                        text::texts(out@) == texts_in(all.take(i as int)),
                    decreases items@.len() - i,
                {
                    let ghost before = text::texts(out@);
                    assert(all.take(i + 1).drop_last() =~= all.take(i as int));
                    assert(all.take(i + 1).last() == json::json(items@[i as int]));
                    match json::as_str(&items[i]) {
                        Some(text) => {
                            let copy = String::from_str(text);
                            out.push(copy);
                            assert(text::texts(out@) =~= before.push(copy@));
                        },
                        None => {},
                    }
                    i += 1;
                }
                assert(all.take(i as int) =~= all);
            },
            None => {},
        },
        None => {},
    }
    out
}

fn read_model(value: &serde_json::Value) -> (r: Option<ProviderModel>)
    ensures
        match r {
            Some(model) => model_of(json::json(*value)) == Some(model@),
            None => model_of(json::json(*value)) is None,
        },
{
    let name = match read_text(Some(value), "name") {
        Some(name) => name,
        None => {
            return None;
        },
    };
    let details = json::get(value, "details");
    let metadata = ModelMetadata {
        parameter_size: read_text(details, "parameter_size"),
        quantization_level: read_text(details, "quantization_level"),
        context_length: read_unsigned(value, "context_length"),
        embedding_length: read_unsigned(value, "embedding_length"),
        capabilities: read_capabilities(value),
    };
    Some(ProviderModel { id: name.clone(), label: name, metadata: Some(metadata) })
}

/// Reads the models out of a JSON value.
pub fn read_models(value: &serde_json::Value) -> (r: Result<Vec<ProviderModel>, ProviderError>)
    ensures
        match (models_of(json::json(*value)), r) {
            (Some(expected), Ok(models)) => provider::model_views(models@) == expected,
            (None, Err(error)) => error@ is InvalidResponse,
            _ => false,
        },
{
    let items = match json::get(value, "models") {
        Some(member) => match json::as_array(member) {
            Some(items) => items,
            None => {
                return Err(ProviderError::InvalidResponse);
            },
        },
        None => {
            return Err(ProviderError::InvalidResponse);
        },
    };
    let ghost all = json::json_seq(items@);
    let mut out: Vec<ProviderModel> = Vec::new();
    let mut i: usize = 0;
    assert(all.take(0) =~= Seq::<Json>::empty());
    assert(provider::model_views(out@) =~= Seq::<ProviderModelView>::empty());
    while i < items.len()
        invariant
            i <= items@.len(),
            all == json::json_seq(items@),
            provider::model_views(out@) == models_in(all.take(i as int)),
        decreases items@.len() - i,
    {
        let ghost before = provider::model_views(out@);
        assert(all.take(i + 1).drop_last() =~= all.take(i as int));
        assert(all.take(i + 1).last() == json::json(items@[i as int]));
        match read_model(&items[i]) {
            Some(model) => {
                out.push(model);
                assert(provider::model_views(out@) =~= before.push(model@));
            },
            None => {},
        }
        i += 1;
    }
    assert(all.take(i as int) =~= all);
    Ok(out)
}

/// The JSON that a text holds.
pub open spec fn text_json(text: Seq<char>) -> Option<Json> {
    json::parsed_json(vstd::utf8::encode_utf8(text))
}

/// The reply that a chat gives at once.
pub open spec fn chat_reply(value: Json) -> (Seq<char>, Option<Seq<char>>) {
    let message = match json::member(value, "message"@) {
        Some(found) => found,
        None => value,
    };
    (
        match json::text_member(message, "content"@) {
            Some(content) => content,
            None => Seq::empty(),
        },
        json::text_member(message, "thinking"@),
    )
}

/// Reads the answer out of a JSON value: of its message, or of the value itself where it has none.
pub fn read_answer(value: &serde_json::Value) -> (r: ProviderChatResponse)
    ensures
        r.content@ == chat_reply(json::json(*value)).0,
        provider::optional_text(r.thinking) == chat_reply(json::json(*value)).1,
{
    let message = match json::get(value, "message") {
        Some(found) => found,
        None => value,
    };
    let content = match read_text(Some(message), "content") {
        Some(content) => content,
        None => String::new(),
    };
    ProviderChatResponse { content, thinking: read_text(Some(message), "thinking") }
}

impl OllamaProvider {
    /// Reads the models that a reply tells of.
    pub fn parse_models(body: &str) -> (r: Result<Vec<ProviderModel>, ProviderError>)
        ensures
            match (text_json(body@), r) {
                (Some(value), Ok(models)) => models_of(value) == Some(
                    provider::model_views(models@),
                ),
                (Some(value), Err(error)) => models_of(value) is None && error@ is InvalidResponse,
                (None, Err(error)) => error@ is InvalidResponse,
                (None, Ok(_)) => false,
            },
    {
        match json::parse_json(body.as_bytes()) {
            None => Err(ProviderError::InvalidResponse),
            Some(value) => read_models(&value),
        }
    }

    /// Reads the whole reply to a chat request.
    pub fn read_chat(raw: &[u8]) -> (r: Result<ProviderChatResponse, ProviderError>)
        ensures
            match http::response(raw@) {
                None => r is Err && r->Err_0@ is InvalidResponse,
                Some((status, body)) => if !(200 <= status < 300) {
                    r is Err && r->Err_0@ == ProviderErrorView::Unavailable(text::lossy(body))
                } else {
                    match json::parsed_json(body) {
                        None => r is Err && r->Err_0@ is InvalidResponse,
                        Some(value) => {
                            &&& r is Ok
                            &&& r->Ok_0.content@ == chat_reply(value).0
                            &&& provider::optional_text(r->Ok_0.thinking) == chat_reply(value).1
                        },
                    }
                },
            },
    {
        let (status, body) = match http::parse_http_response(raw) {
            Err(error) => {
                return Err(error);
            },
            Ok(parts) => parts,
        };
        if status < 200 || status >= 300 {
            return Err(ProviderError::Unavailable(text::lossy_text(&body)));
        }
        match json::parse_json(&body) {
            None => Err(ProviderError::InvalidResponse),
            Some(value) => Ok(read_answer(&value)),
        }
    }

    /// What a connection test comes to, from what was fetched: any JSON means connected.
    pub fn connection_status(fetched: Result<String, ProviderError>) -> (r:
        ProviderConnectionStatus)
        ensures
            r@ == (match fetched {
                Ok(body) => if text_json(body@) is Some {
                    ConnectionStatusView::Connected
                } else {
                    ConnectionStatusView::Failed(ProviderErrorView::InvalidResponse)
                },
                Err(error) => ConnectionStatusView::Failed(error@),
            }),
    {
        match fetched {
            Ok(body) => match json::parse_json(body.as_str().as_bytes()) {
                Some(_) => ProviderConnectionStatus::Connected,
                None => ProviderConnectionStatus::Failed(ProviderError::InvalidResponse),
            },
            Err(error) => ProviderConnectionStatus::Failed(error),
        }
    }

    /// The models, from what was fetched.
    pub fn models_from(fetched: Result<String, ProviderError>) -> (r: Result<
        Vec<ProviderModel>,
        ProviderError,
    >)
        ensures
            match (fetched, r) {
                (Ok(body), Ok(models)) => text_json(body@) is Some && models_of(
                    text_json(body@)->0,
                ) == Some(provider::model_views(models@)),
                (Ok(body), Err(error)) => error@ is InvalidResponse && (text_json(body@) is None
                    || models_of(text_json(body@)->0) is None),
                (Err(e), Err(error)) => error@ == e@,
                (Err(_), Ok(_)) => false,
            },
    {
        match fetched {
            Ok(body) => OllamaProvider::parse_models(&body),
            Err(error) => Err(error),
        }
    }
}

} // verus!
