//! HTTP responses: where the header ends, how the body is framed, and the lines of JSON in it.

use vstd::prelude::*;
use vstd::slice::slice_subrange;
use vstd::slice::slice_to_vec;
use vstd::string::*;

use crate::json;
use crate::json::Json;
use crate::provider;
use crate::provider::ProviderChatStreamEvent;
use crate::provider::ProviderError;
use crate::provider::ProviderErrorView;
use crate::provider::StreamEventView;
use crate::text;

verus! {

/// A carriage return and a line feed.
pub open spec fn crlf() -> Seq<u8> {
    seq![13u8, 10u8]
}

/// The empty line that ends a header.
pub open spec fn header_end() -> Seq<u8> {
    seq![13u8, 10u8, 13u8, 10u8]
}

/// The first index at or after `from` at which `pattern` stands in `bytes`.
pub fn find_bytes(bytes: &[u8], pattern: &[u8], from: usize) -> (r: Option<usize>)
    requires
        from <= bytes@.len(),
        pattern@.len() > 0,
    ensures
        match r {
            Some(i) => text::find_from(bytes@, pattern@, from as int) == Some(i as int) && from <= i
                && i + pattern@.len() <= bytes@.len(),
            None => text::find_from(bytes@, pattern@, from as int) is None,
        },
{
    let n: usize = bytes.len();
    let m: usize = pattern.len();
    let mut i: usize = from;
    while m <= n && i <= n - m
        invariant
            n == bytes@.len(),
            m == pattern@.len(),
            m > 0,
            from <= i <= n,
            text::find_from(bytes@, pattern@, from as int) == text::find_from(
                bytes@,
                pattern@,
                i as int,
            ),
        decreases n - i,
    {
        let mut k: usize = 0;
        while k < m && bytes[i + k] == pattern[k]
            invariant
                n == bytes@.len(),
                m == pattern@.len(),
                k <= m,
                i + m <= n,
                forall|j: int| 0 <= j < k ==> bytes@[i + j] == pattern@[j],
            decreases m - k,
        {
            k += 1;
        }
        if k == m {
            assert(bytes@.subrange(i as int, i + m) =~= pattern@);
            return Some(i);
        }
        assert(!text::occurs_at(bytes@, pattern@, i as int)) by {
            if text::occurs_at(bytes@, pattern@, i as int) {
                assert(bytes@.subrange(i as int, i + m)[k as int] == bytes@[i + k]);
            }
        }
        i += 1;
    }
    None
}

fn crlf_bytes() -> (r: Vec<u8>)
    ensures
        r@ == crlf(),
{
    let mut out: Vec<u8> = Vec::new();
    out.push(13);
    out.push(10);
    assert(out@ =~= crlf());
    out
}

fn header_end_bytes() -> (r: Vec<u8>)
    ensures
        r@ == header_end(),
{
    let mut out: Vec<u8> = Vec::new();
    out.push(13);
    out.push(10);
    out.push(13);
    out.push(10);
    assert(out@ =~= header_end());
    out
}

/// Where the header of a response ends.
pub fn find_header_end(raw: &[u8]) -> (r: Option<usize>)
    ensures
        match r {
            Some(i) => text::find_from(raw@, header_end(), 0) == Some(i as int) && i + 4
                <= raw@.len(),
            None => text::find_from(raw@, header_end(), 0) is None,
        },
{
    find_bytes(raw, &header_end_bytes(), 0)
}

/// The status that a header gives: its second word.
pub open spec fn status_of(header: Seq<char>) -> Option<nat> {
    let words = text::words(header);
    if words.len() > 1 {
        text::bounded_numeral(words[1], 10, 0xffff)
    } else {
        None
    }
}

/// The status that a header gives: its second word.
pub fn read_status(header: &[char]) -> (r: Option<u16>)
    ensures
        match r {
            Some(status) => status_of(header@) == Some(status as nat),
            None => status_of(header@) is None,
        },
{
    let words = text::split_words(header);
    let ghost shown = words@.map_values(|w: Vec<char>| w@);
    if words.len() > 1 {
        assert(shown[1] == words@[1]@);
        match text::parse_numeral(&words[1], 10, 0xffff) {
            Some(status) => Some(status as u16),
            None => None,
        }
    } else {
        None
    }
}

/// Whether a header says that the body comes in chunks.
pub open spec fn is_chunked(header: Seq<char>) -> bool {
    text::contains_text(text::ascii_lowercase(header), "transfer-encoding: chunked"@)
}

/// Whether a header says that the body comes in chunks.
pub fn chunked_header(header: &[char]) -> (r: bool)
    ensures
        r == is_chunked(header@),
{
    text::contains(&text::lower(header), &text::chars_of("transfer-encoding: chunked"))
}

/// The length that a header line gives.
pub open spec fn line_length(line: Seq<char>) -> Option<nat> {
    if text::starts_with(line, "Content-Length:"@) {
        text::bounded_numeral(
            text::trim(line.skip("Content-Length:"@.len() as int)),
            10,
            usize::MAX as nat,
        )
    } else if text::starts_with(line, "content-length:"@) {
        text::bounded_numeral(
            text::trim(line.skip("content-length:"@.len() as int)),
            10,
            usize::MAX as nat,
        )
    } else {
        None
    }
}

/// The first length that a line of the header gives, from line `from` on.
pub open spec fn first_length(lines: Seq<Seq<char>>, from: int) -> Option<nat>
    decreases lines.len() - from,
{
    if from >= lines.len() {
        None
    } else {
        match line_length(lines[from]) {
            Some(length) => Some(length),
            None => first_length(lines, from + 1),
        }
    }
}

fn read_line_length(line: &[char]) -> (r: Option<usize>)
    ensures
        match r {
            Some(length) => line_length(line@) == Some(length as nat),
            None => line_length(line@) is None,
        },
{
    let upper = text::chars_of("Content-Length:");
    let lower = text::chars_of("content-length:");
    let from: usize = if text::is_at(line, &upper, 0) {
        upper.len()
    } else if text::is_at(line, &lower, 0) {
        lower.len()
    } else {
        return None;
    };
    assert(line@.subrange(from as int, line@.len() as int) =~= line@.skip(from as int));
    match text::parse_numeral(
        text::trimmed(slice_subrange(line, from, line.len())),
        10,
        usize::MAX as u64,
    ) {
        Some(length) => Some(length as usize),
        None => None,
    }
}

fn read_length(header: &[char]) -> (r: Option<usize>)
    ensures
        match r {
            Some(length) => first_length(text::lines(header@), 0) == Some(length as nat),
            None => first_length(text::lines(header@), 0) is None,
        },
{
    let lines = text::split_lines(header);
    let ghost shown = lines@.map_values(|w: Vec<char>| w@);
    let mut i: usize = 0;
    while i < lines.len()
        invariant
            i <= lines@.len(),
            shown == lines@.map_values(|w: Vec<char>| w@),
            shown == text::lines(header@),
            first_length(shown, 0) == first_length(shown, i as int),
        decreases lines@.len() - i,
    {
        assert(shown[i as int] == lines@[i as int]@);
        match read_line_length(&lines[i]) {
            Some(length) => {
                return Some(length);
            },
            None => {},
        }
        i += 1;
    }
    None
}

/// The size line of a chunk in hexadecimal.
pub open spec fn chunk_size(line: Seq<char>) -> Option<nat> {
    text::bounded_numeral(text::trim(line), 16, usize::MAX as nat)
}

fn read_chunk_size(line: &str) -> (r: Option<usize>)
    ensures
        match r {
            Some(size) => chunk_size(line@) == Some(size as nat),
            None => chunk_size(line@) is None,
        },
{
    match text::parse_numeral(text::trimmed(&text::chars_of(line)), 16, usize::MAX as u64) {
        Some(size) => Some(size as usize),
        None => None,
    }
}

/// The body that chunks make up: each chunk is a line with its size, so many bytes and an end of
/// line; the body ends with a chunk of size zero.
pub open spec fn chunked_body(rest: Seq<u8>) -> Option<Seq<u8>>
    decreases rest.len(),
{
    match text::find_from(rest, crlf(), 0) {
        None => None,
        Some(end) => if end < 0 || end + 2 > rest.len() || !vstd::utf8::valid_utf8(
            rest.take(end),
        ) {
            None
        } else {
            let tail = rest.skip(end + 2);
            match chunk_size(vstd::utf8::decode_utf8(rest.take(end))) {
                None => None,
                Some(size) => if size == 0 {
                    Some(Seq::empty())
                } else if tail.len() < size + 2 {
                    None
                } else {
                    match chunked_body(tail.skip(size as int + 2)) {
                        Some(more) => Some(tail.take(size as int) + more),
                        None => None,
                    }
                },
            }
        },
    }
}

/// Puts the chunks of a body together.
pub fn join_chunks(body: &[u8]) -> (r: Option<Vec<u8>>)
    ensures
        match r {
            Some(joined) => chunked_body(body@) == Some(joined@),
            None => chunked_body(body@) is None,
        },
{
    let mark = crlf_bytes();
    let mut out: Vec<u8> = Vec::new();
    let mut rest: &[u8] = body;
    assert(chunked_body(body@) is Some ==> Seq::<u8>::empty() + chunked_body(body@)->0
        =~= chunked_body(body@)->0);
    loop
        invariant_except_break
            mark@ == crlf(),
            match chunked_body(rest@) {
                Some(more) => chunked_body(body@) == Some(out@ + more),
                None => chunked_body(body@) is None,
            },
        ensures
            chunked_body(body@) == Some(out@),
        decreases rest@.len(),
    {
        let end: usize = match find_bytes(rest, &mark, 0) {
            Some(end) => end,
            None => {
                return None;
            },
        };
        assert(rest@.subrange(0, end as int) =~= rest@.take(end as int));
        let line = match text::utf8_text(slice_subrange(rest, 0, end)) {
            Some(line) => line,
            None => {
                return None;
            },
        };
        let size: usize = match read_chunk_size(&line) {
            Some(size) => size,
            None => {
                return None;
            },
        };
        assert(rest@.subrange(end + 2, rest@.len() as int) =~= rest@.skip(end + 2));
        let ghost whole = rest@;
        let n: usize = rest.len();
        rest = slice_subrange(rest, end + 2, n);
        if size == 0 {
            assert(out@ + Seq::<u8>::empty() =~= out@);
            break;
        }
        if rest.len() < 2 || size > rest.len() - 2 {
            return None;
        }
        let ghost before = out@;
        let piece = slice_subrange(rest, 0, size);
        assert(piece@ =~= rest@.take(size as int));
        out.extend_from_slice(piece);
        assert(out@ =~= before + piece@);
        assert(rest@.subrange(size + 2, rest@.len() as int) =~= rest@.skip(size + 2));
        proof {
            match chunked_body(rest@.skip(size + 2)) {
                Some(more) => {
                    assert(before + (piece@ + more) =~= out@ + more);
                },
                None => {},
            }
        }
        rest = slice_subrange(rest, size + 2, rest.len());
    }
    Some(out)
}

/// What a response says: its status and its body, chunks put together or cut to the length given.
pub open spec fn response(raw: Seq<u8>) -> Option<(nat, Seq<u8>)> {
    match text::find_from(raw, header_end(), 0) {
        None => None,
        Some(split) => {
            let header_bytes = raw.take(split);
            let body = raw.skip(split + 4);
            if !vstd::utf8::valid_utf8(header_bytes) {
                None
            } else {
                let header = vstd::utf8::decode_utf8(header_bytes);
                match status_of(header) {
                    None => None,
                    Some(status) => if is_chunked(header) {
                        match chunked_body(body) {
                            Some(joined) => Some((status, joined)),
                            None => None,
                        }
                    } else {
                        match first_length(text::lines(header), 0) {
                            Some(length) => if body.len() < length {
                                None
                            } else {
                                Some((status, body.take(length as int)))
                            },
                            None => Some((status, body)),
                        }
                    },
                }
            }
        },
    }
}

/// Reads a whole response. What is no response is an invalid one.
pub fn parse_http_response(raw: &[u8]) -> (r: Result<(u16, Vec<u8>), ProviderError>)
    ensures
        match r {
            Ok((status, body)) => response(raw@) == Some((status as nat, body@)),
            Err(error) => response(raw@) is None && error@ is InvalidResponse,
        },
{
    let split: usize = match find_header_end(raw) {
        Some(split) => split,
        None => {
            return Err(ProviderError::InvalidResponse);
        },
    };
    assert(raw@.subrange(0, split as int) =~= raw@.take(split as int));
    assert(raw@.subrange(split + 4, raw@.len() as int) =~= raw@.skip(split + 4));
    let n: usize = raw.len();
    let body = slice_subrange(raw, split + 4, n);
    let header = match text::utf8_text(slice_subrange(raw, 0, split)) {
        Some(header) => text::chars_of(&header),
        None => {
            return Err(ProviderError::InvalidResponse);
        },
    };
    let status: u16 = match read_status(&header) {
        Some(status) => status,
        None => {
            return Err(ProviderError::InvalidResponse);
        },
    };
    if chunked_header(&header) {
        return match join_chunks(body) {
            Some(joined) => Ok((status, joined)),
            None => Err(ProviderError::InvalidResponse),
        };
    }
    match read_length(&header) {
        Some(length) => {
            if body.len() < length {
                return Err(ProviderError::InvalidResponse);
            }
            assert(body@.subrange(0, length as int) =~= body@.take(length as int));
            let cut = slice_to_vec(slice_subrange(body, 0, length));
            assert(cut@ =~= body@.take(length as int));
            Ok((status, cut))
        },
        None => {
            let all = slice_to_vec(body);
            assert(all@ =~= body@);
            Ok((status, all))
        },
    }
}

/// What a stream has brought so far: all bytes, those of the body that are not read yet, and how
/// far the framing has been followed.
#[derive(Debug)]
pub struct StreamDecoder {
    pub raw: Vec<u8>,
    pub decoded: Vec<u8>,
    pub headers_done: bool,
    pub chunked: bool,
    pub chunk_pos: usize,
}

/// A `StreamDecoder` by what it holds.
#[verifier::ext_equal]
pub struct DecoderView {
    pub raw: Seq<u8>,
    pub decoded: Seq<u8>,
    pub headers_done: bool,
    pub chunked: bool,
    pub chunk_pos: nat,
}

impl View for StreamDecoder {
    type V = DecoderView;

    open spec fn view(&self) -> DecoderView {
        DecoderView {
            raw: self.raw@,
            decoded: self.decoded@,
            headers_done: self.headers_done,
            chunked: self.chunked,
            chunk_pos: self.chunk_pos as nat,
        }
    }
}

/// What a line of a stream says.
pub open spec fn line_events(value: Json) -> Seq<StreamEventView> {
    let message = json::member(value, "message"@);
    thinking_events(message) + content_events(message) + done_events(value)
}

/// The text under a key of the message that a line holds.
pub open spec fn message_text(message: Option<Json>, key: Seq<char>) -> Option<Seq<char>> {
    match message {
        Some(found) => json::text_member(found, key),
        None => None,
    }
}

/// What a message says of the model's thinking, where that is anything.
pub open spec fn thinking_events(message: Option<Json>) -> Seq<StreamEventView> {
    match message_text(message, "thinking"@) {
        Some(delta) => if delta.len() > 0 {
            seq![StreamEventView::ThinkingDelta(delta)]
        } else {
            Seq::empty()
        },
        None => Seq::empty(),
    }
}

/// What a message says of the model's answer, where that is anything.
pub open spec fn content_events(message: Option<Json>) -> Seq<StreamEventView> {
    match message_text(message, "content"@) {
        Some(delta) => if delta.len() > 0 {
            seq![StreamEventView::ContentDelta(delta)]
        } else {
            Seq::empty()
        },
        None => Seq::empty(),
    }
}

/// Whether a line says that the answer is done.
pub open spec fn done_events(value: Json) -> Seq<StreamEventView> {
    match json::member(value, "done"@) {
        Some(done) => if json::bool_of(done) == Some(true) {
            seq![StreamEventView::Done]
        } else {
            Seq::empty()
        },
        None => Seq::empty(),
    }
}

fn read_message_text(message: Option<&serde_json::Value>, key: &str) -> (r: Option<String>)
    ensures
        ({
            let view = match message {
                Some(found) => Some(json::json(*found)),
                None => None,
            };
            match message_text(view, key@) {
                Some(found) => if found.len() > 0 {
                    r is Some && r->0@ == found
                } else {
                    r is None
                },
                None => r is None,
            }
        }),
{
    match message {
        Some(found) => match json::get(found, key) {
            Some(value) => match json::as_str(value) {
                Some(text) => if text.is_empty() {
                    None
                } else {
                    Some(String::from_str(text))
                },
                None => None,
            },
            None => None,
        },
        None => None,
    }
}

/// Appends what a line says.
pub fn push_line_events(value: &serde_json::Value, out: &mut Vec<ProviderChatStreamEvent>)
    ensures
        provider::stream_views(final(out)@) == provider::stream_views(old(out)@) + line_events(
            json::json(*value),
        ),
{
    let ghost view = json::json(*value);
    let ghost before = provider::stream_views(out@);
    let message = json::get(value, "message");
    let ghost message_view = json::member(view, "message"@);
    match read_message_text(message, "thinking") {
        Some(delta) => {
            out.push(ProviderChatStreamEvent::ThinkingDelta(delta));
        },
        None => {},
    }
    assert(provider::stream_views(out@) =~= before + thinking_events(message_view));
    let ghost thought = provider::stream_views(out@);
    match read_message_text(message, "content") {
        Some(delta) => {
            out.push(ProviderChatStreamEvent::ContentDelta(delta));
        },
        None => {},
    }
    assert(provider::stream_views(out@) =~= thought + content_events(message_view));
    let ghost said = provider::stream_views(out@);
    let done = match json::get(value, "done") {
        Some(found) => match json::as_bool(found) {
            Some(done) => done,
            None => false,
        },
        None => false,
    };
    if done {
        out.push(ProviderChatStreamEvent::Done);
    }
    assert(provider::stream_views(out@) =~= said + done_events(view));
    assert(provider::stream_views(out@) =~= before + line_events(view));
}

/// What the complete lines of some bytes say, up to the first that is no JSON; the bytes behind
/// the last line; and whether every line was JSON.
#[verifier::ext_equal]
pub struct LinesRead {
    pub events: Seq<StreamEventView>,
    pub rest: Seq<u8>,
    pub ok: bool,
}

/// Reads the complete lines of some bytes.
pub open spec fn read_lines(decoded: Seq<u8>) -> LinesRead
    decreases decoded.len(),
{
    match text::find_from(decoded, seq![10u8], 0) {
        None => LinesRead { events: Seq::empty(), rest: decoded, ok: true },
        Some(pos) => if pos < 0 || pos >= decoded.len() {
            LinesRead { events: Seq::empty(), rest: decoded, ok: true }
        } else {
            match json::parsed_json(decoded.take(pos + 1)) {
                None => LinesRead {
                    events: Seq::empty(),
                    rest: decoded.skip(pos + 1),
                    ok: false,
                },
                Some(value) => {
                    let more = read_lines(decoded.skip(pos + 1));
                    LinesRead { events: line_events(value) + more.events, ..more }
                },
            }
        },
    }
}

/// The chunks that some bytes hold whole, from a position on: what they make up, and the position
/// behind the last; nothing where a size line is no size.
pub open spec fn read_chunks(raw: Seq<u8>, pos: int) -> Option<(Seq<u8>, int)>
    decreases raw.len() - pos,
{
    match text::find_from(raw, crlf(), pos) {
        None => Some((Seq::empty(), pos)),
        Some(end) => if end < pos || end + 2 > raw.len() {
            Some((Seq::empty(), pos))
        } else {
            match chunk_size(text::lossy(raw.subrange(pos, end))) {
                None => None,
                Some(size) => if raw.len() < end + 2 + size + 2 {
                    Some((Seq::empty(), pos))
                } else if size == 0 {
                    Some((Seq::empty(), end + 2))
                } else {
                    match read_chunks(raw, end + 2 + size + 2) {
                        Some((more, behind)) => Some(
                            (raw.subrange(end + 2, end + 2 + size) + more, behind),
                        ),
                        None => None,
                    }
                },
            }
        },
    }
}

/// A header is in order when it gives a status of success.
pub open spec fn header_problem(header: Seq<char>) -> Option<ProviderErrorView> {
    match status_of(header) {
        None => Some(ProviderErrorView::InvalidResponse),
        Some(status) => if 200 <= status < 300 {
            None
        } else {
            Some(ProviderErrorView::Unavailable("http error"@))
        },
    }
}

/// What some bytes more come to.
#[verifier::ext_equal]
pub struct Fed {
    pub decoder: DecoderView,
    pub events: Seq<StreamEventView>,
    pub error: Option<ProviderErrorView>,
}

/// The decoder once the header is there, where it is.
pub open spec fn after_header(decoder: DecoderView) -> Result<DecoderView, ProviderErrorView> {
    if decoder.headers_done {
        Ok(decoder)
    } else {
        match text::find_from(decoder.raw, header_end(), 0) {
            None => Ok(decoder),
            Some(split) => {
                let header = text::lossy(decoder.raw.take(split));
                match header_problem(header) {
                    Some(error) => Err(error),
                    None => Ok(
                        DecoderView {
                            headers_done: true,
                            chunked: is_chunked(header),
                            chunk_pos: (split + 4) as nat,
                            ..decoder
                        },
                    ),
                }
            },
        }
    }
}

/// The decoder once the framing was followed as far as it goes.
pub open spec fn after_framing(decoder: DecoderView) -> Option<DecoderView> {
    if decoder.chunked {
        match read_chunks(decoder.raw, decoder.chunk_pos as int) {
            None => None,
            Some((more, behind)) => Some(
                DecoderView {
                    decoded: decoder.decoded + more,
                    chunk_pos: behind as nat,
                    ..decoder
                },
            ),
        }
    } else {
        Some(
            DecoderView {
                decoded: decoder.decoded + decoder.raw.skip(decoder.chunk_pos as int),
                chunk_pos: decoder.raw.len(),
                ..decoder
            },
        )
    }
}

/// What some bytes more come to: the header once it is whole, then the framing, then the lines.
pub open spec fn fed(before: DecoderView, bytes: Seq<u8>) -> Fed {
    match after_header(DecoderView { raw: before.raw + bytes, ..before }) {
        Err(error) => Fed { decoder: before, events: Seq::empty(), error: Some(error) },
        Ok(decoder) => if !decoder.headers_done {
            Fed { decoder, events: Seq::empty(), error: None }
        } else {
            match after_framing(decoder) {
                None => Fed {
                    decoder: before,
                    events: Seq::empty(),
                    error: Some(ProviderErrorView::InvalidResponse),
                },
                Some(decoder) => {
                    let lines = read_lines(decoder.decoded);
                    Fed {
                        decoder: DecoderView { decoded: lines.rest, ..decoder },
                        events: lines.events,
                        error: if lines.ok {
                            None
                        } else {
                            Some(ProviderErrorView::InvalidResponse)
                        },
                    }
                },
            }
        },
    }
}

impl StreamDecoder {
    /// A decoder whose framing position lies within what was received.
    pub open spec fn wf(&self) -> bool {
        self.chunk_pos <= self.raw@.len()
    }

    /// A decoder that has received nothing.
    pub fn new() -> (r: Self)
        ensures
            r.wf(),
            r@ == (DecoderView {
                raw: Seq::empty(),
                decoded: Seq::empty(),
                headers_done: false,
                chunked: false,
                chunk_pos: 0,
            }),
    {
        StreamDecoder {
            raw: Vec::new(),
            decoded: Vec::new(),
            headers_done: false,
            chunked: false,
            chunk_pos: 0,
        }
    }

    fn read_header(&mut self) -> (r: Result<(), ProviderError>)
        requires
            old(self).wf(),
        ensures
            match (after_header(old(self)@), r) {
                (Ok(decoder), Ok(_)) => final(self)@ == decoder && final(self).wf(),
                (Err(error), Err(e)) => e@ == error,
                _ => false,
            },
    {
        if self.headers_done {
            return Ok(());
        }
        let n: usize = self.raw.len();
        match find_header_end(&self.raw) {
            None => Ok(()),
            Some(split) => {
                assert(self.raw@.subrange(0, split as int) =~= self.raw@.take(split as int));
                let header = text::chars_of(
                    &text::lossy_text(slice_subrange(&self.raw, 0, split)),
                );
                let status: u16 = match read_status(&header) {
                    Some(status) => status,
                    None => {
                        return Err(ProviderError::InvalidResponse);
                    },
                };
                if status < 200 || status >= 300 {
                    return Err(ProviderError::Unavailable(String::from_str("http error")));
                }
                self.chunked = chunked_header(&header);
                self.chunk_pos = split + 4;
                self.headers_done = true;
                Ok(())
            },
        }
    }

    fn follow_chunks(&mut self) -> (r: Result<(), ProviderError>)
        requires
            old(self).wf(),
        ensures
            match (read_chunks(old(self)@.raw, old(self)@.chunk_pos as int), r) {
                (Some((more, behind)), Ok(_)) => final(self).wf() && final(self)@ == (DecoderView {
                    decoded: old(self)@.decoded + more,
                    chunk_pos: behind as nat,
                    ..old(self)@
                }),
                (None, Err(error)) => error@ is InvalidResponse,
                _ => false,
            },
    {
        let mark = crlf_bytes();
        let ghost start = self@;
        let ghost goal = read_chunks(start.raw, start.chunk_pos as int);
        let n: usize = self.raw.len();
        proof {
            match goal {
                Some((more, behind)) => {
                    assert(self.decoded@ + more =~= start.decoded + more);
                },
                None => {},
            }
        }
        loop
            invariant
                mark@ == crlf(),
                start == old(self)@,
                goal == read_chunks(start.raw, start.chunk_pos as int),
                self.wf(),
                n == self.raw@.len(),
                self@ == (DecoderView {
                    decoded: self.decoded@,
                    chunk_pos: self.chunk_pos as nat,
                    ..start
                }),
                match (goal, read_chunks(start.raw, self.chunk_pos as int)) {
                    (Some((more, behind)), Some((left, same))) => behind == same && self.decoded@
                        + left == start.decoded + more,
                    (None, None) => true,
                    _ => false,
                },
            decreases n - self.chunk_pos,
        {
            let ghost pos = self.chunk_pos as int;
            let end: usize = match find_bytes(&self.raw, &mark, self.chunk_pos) {
                None => {
                    assert(self.decoded@ + Seq::<u8>::empty() =~= self.decoded@);
                    return Ok(());
                },
                Some(end) => end,
            };
            let line = text::lossy_text(slice_subrange(&self.raw, self.chunk_pos, end));
            let size: usize = match read_chunk_size(&line) {
                None => {
                    return Err(ProviderError::InvalidResponse);
                },
                Some(size) => size,
            };
            if n - end < 4 || size > n - end - 4 {
                assert(self.decoded@ + Seq::<u8>::empty() =~= self.decoded@);
                return Ok(());
            }
            if size == 0 {
                self.chunk_pos = end + 2;
                assert(self.decoded@ + Seq::<u8>::empty() =~= self.decoded@);
                return Ok(());
            }
            let ghost before = self.decoded@;
            let piece = slice_to_vec(slice_subrange(&self.raw, end + 2, end + 2 + size));
            assert(piece@ =~= start.raw.subrange(end + 2, end + 2 + size));
            self.decoded.extend_from_slice(&piece);
            assert(self.decoded@ =~= before + piece@);
            proof {
                match read_chunks(start.raw, end + 2 + size + 2) {
                    Some((left, same)) => {
                        assert(before + (piece@ + left) =~= self.decoded@ + left);
                    },
                    None => {},
                }
            }
            self.chunk_pos = end + 2 + size + 2;
        }
    }

    fn read_lines(&mut self, out: &mut Vec<ProviderChatStreamEvent>) -> (r: Result<
        (),
        ProviderError,
    >)
        requires
            old(self).wf(),
        ensures
            final(self).wf(),
            ({
                let lines = read_lines(old(self)@.decoded);
                &&& final(self)@ == (DecoderView { decoded: lines.rest, ..old(self)@ })
                &&& provider::stream_views(final(out)@) == provider::stream_views(old(out)@)
                    + lines.events
                &&& r is Ok == lines.ok
                &&& r is Err ==> r->Err_0@ is InvalidResponse
            }),
    {
        let ghost start = self@;
        let ghost goal = read_lines(start.decoded);
        let ghost told = provider::stream_views(out@);
        let mut feed: Vec<u8> = Vec::new();
        feed.push(10);
        assert(feed@ =~= seq![10u8]);
        loop
            invariant
                feed@ == seq![10u8],
                start == old(self)@,
                self.wf(),
                goal == read_lines(start.decoded),
                told == provider::stream_views(old(out)@),
                self@ == (DecoderView { decoded: self.decoded@, ..start }),
                read_lines(self.decoded@).rest == goal.rest,
                read_lines(self.decoded@).ok == goal.ok,
                provider::stream_views(out@) + read_lines(self.decoded@).events == told
                    + goal.events,
            decreases self.decoded@.len(),
        {
            let ghost before = provider::stream_views(out@);
            let ghost decoded = self.decoded@;
            let n: usize = self.decoded.len();
            let pos: usize = match find_bytes(&self.decoded, &feed, 0) {
                None => {
                    assert(before + Seq::<StreamEventView>::empty() =~= before);
                    return Ok(());
                },
                Some(pos) => pos,
            };
            let rest = self.decoded.split_off(pos + 1);
            assert(self.decoded@ =~= decoded.take(pos + 1));
            assert(rest@ =~= decoded.skip(pos + 1));
            let parsed = json::parse_json(&self.decoded);
            self.decoded = rest;
            match parsed {
                None => {
                    assert(before + Seq::<StreamEventView>::empty() =~= before);
                    return Err(ProviderError::InvalidResponse);
                },
                Some(value) => {
                    push_line_events(&value, out);
                    proof {
                        let said = line_events(json::json(value));
                        let more = read_lines(self.decoded@).events;
                        assert(before + (said + more) =~= (before + said) + more);
                    }
                },
            }
        }
    }

    /// Takes in some bytes more and appends what the lines that are now complete say. After an
    /// error the stream is over.
    pub fn feed(&mut self, bytes: &[u8], out: &mut Vec<ProviderChatStreamEvent>) -> (r: Result<
        (),
        ProviderError,
    >)
        requires
            old(self).wf(),
        ensures
            ({
                let after = fed(old(self)@, bytes@);
                &&& provider::stream_views(final(out)@) == provider::stream_views(old(out)@)
                    + after.events
                &&& match after.error {
                    Some(error) => r is Err && r->Err_0@ == error,
                    None => r is Ok && final(self).wf() && final(self)@ == after.decoder,
                }
            }),
    {
        let ghost told = provider::stream_views(out@);
        assert(told + Seq::<StreamEventView>::empty() =~= told);
        let ghost before = self.raw@;
        self.raw.extend_from_slice(bytes);
        assert(self.raw@ =~= before + bytes@);
        match self.read_header() {
            Err(error) => {
                return Err(error);
            },
            Ok(_) => {},
        }
        if !self.headers_done {
            return Ok(());
        }
        if self.chunked {
            match self.follow_chunks() {
                Err(error) => {
                    return Err(error);
                },
                Ok(_) => {},
            }
        } else {
            let n: usize = self.raw.len();
            let rest = slice_to_vec(slice_subrange(&self.raw, self.chunk_pos, n));
            assert(rest@ =~= self.raw@.skip(self.chunk_pos as int));
            let ghost decoded = self.decoded@;
            self.decoded.extend_from_slice(&rest);
            assert(self.decoded@ =~= decoded + rest@);
            self.chunk_pos = n;
        }
        self.read_lines(out)
    }

    /// Ends the stream: what is left without a line end is a line too.
    pub fn finish(&self, out: &mut Vec<ProviderChatStreamEvent>) -> (r: Result<(), ProviderError>)
        ensures
            self@.decoded.len() == 0 ==> r is Ok && provider::stream_views(final(out)@)
                == provider::stream_views(old(out)@),
            self@.decoded.len() > 0 ==> match json::parsed_json(self@.decoded) {
                Some(value) => r is Ok && provider::stream_views(final(out)@)
                    == provider::stream_views(old(out)@) + line_events(value),
                None => r is Err && r->Err_0@ is InvalidResponse && provider::stream_views(
                    final(out)@,
                ) == provider::stream_views(old(out)@),
            },
    {
        if self.decoded.len() == 0 {
            return Ok(());
        }
        match json::parse_json(&self.decoded) {
            None => Err(ProviderError::InvalidResponse),
            Some(value) => {
                push_line_events(&value, out);
                Ok(())
            },
        }
    }
}

pub proof fn lemma_find_in_longer<A>(s: Seq<A>, more: Seq<A>, pattern: Seq<A>, from: int)
    requires
        0 <= from,
        text::find_from(s, pattern, from) is Some,
    ensures
        text::find_from(s + more, pattern, from) == text::find_from(s, pattern, from),
        from <= text::find_from(s, pattern, from)->0,
        text::find_from(s, pattern, from)->0 + pattern.len() <= s.len(),
{
    let longer = s + more;
    text::lemma_find(s, pattern, from);
    text::lemma_find(longer, pattern, from);
    let at = text::find_from(s, pattern, from)->0;
    assert(longer.subrange(at, at + pattern.len()) =~= s.subrange(at, at + pattern.len()));
    assert(text::occurs_at(longer, pattern, at));
    match text::find_from(longer, pattern, from) {
        Some(found) => {
            if found < at {
                assert(longer.subrange(found, found + pattern.len()) =~= s.subrange(
                    found,
                    found + pattern.len(),
                ));
                assert(text::occurs_at(s, pattern, found));
            }
        },
        None => {},
    }
}

proof fn lemma_lines_in_longer(decoded: Seq<u8>, more: Seq<u8>)
    requires
        read_lines(decoded).ok,
    ensures
        ({
            let first = read_lines(decoded);
            let second = read_lines(first.rest + more);
            read_lines(decoded + more) == (LinesRead {
                events: first.events + second.events,
                ..second
            })
        }),
    decreases decoded.len(),
{
    match text::find_from(decoded, seq![10u8], 0) {
        None => {
            let second = read_lines(decoded + more);
            assert(Seq::<StreamEventView>::empty() + second.events =~= second.events);
        },
        Some(pos) => {
            lemma_find_in_longer(decoded, more, seq![10u8], 0);
            let line = decoded.take(pos + 1);
            let rest = decoded.skip(pos + 1);
            assert((decoded + more).take(pos + 1) =~= line);
            assert((decoded + more).skip(pos + 1) =~= rest + more);
            match json::parsed_json(line) {
                Some(value) => {
                    lemma_lines_in_longer(rest, more);
                    let first = read_lines(rest);
                    let second = read_lines(first.rest + more);
                    assert(line_events(value) + (first.events + second.events) =~= (line_events(
                        value,
                    ) + first.events) + second.events);
                },
                None => {},
            }
        },
    }
}

/// Whether the chunks that some bytes hold whole, from a position on, come to the one that ends the
/// stream.
pub open spec fn ends_within(raw: Seq<u8>, pos: int) -> bool
    decreases raw.len() - pos,
{
    match text::find_from(raw, crlf(), pos) {
        None => false,
        Some(end) => if end < pos || end + 2 > raw.len() {
            false
        } else {
            match chunk_size(text::lossy(raw.subrange(pos, end))) {
                None => false,
                Some(size) => if raw.len() < end + 2 + size + 2 {
                    false
                } else if size == 0 {
                    true
                } else {
                    ends_within(raw, end + 2 + size + 2)
                },
            }
        },
    }
}

proof fn lemma_chunks_in_longer(raw: Seq<u8>, more: Seq<u8>, pos: int)
    requires
        0 <= pos <= raw.len(),
        read_chunks(raw, pos) is Some,
        ends_within(raw, pos) ==> text::find_from(
            raw + more,
            crlf(),
            (read_chunks(raw, pos)->0).1,
        ) is None,
    ensures
        ({
            let (first, behind) = read_chunks(raw, pos)->0;
            &&& pos <= behind <= raw.len()
            &&& read_chunks(raw + more, pos) == match read_chunks(raw + more, behind) {
                Some((second, end)) => Some((first + second, end)),
                None => None,
            }
        }),
    decreases raw.len() - pos,
{
    let longer = raw + more;
    let none = Seq::<u8>::empty();
    match read_chunks(longer, pos) {
        Some((all, _)) => {
            assert(none + all =~= all);
        },
        None => {},
    }
    match text::find_from(raw, crlf(), pos) {
        None => {},
        Some(end) => {
            lemma_find_in_longer(raw, more, crlf(), pos);
            assert(longer.subrange(pos, end) =~= raw.subrange(pos, end));
            match chunk_size(text::lossy(raw.subrange(pos, end))) {
                None => {},
                Some(size) => {
                    let next = end + 2 + size + 2;
                    if raw.len() >= next && size > 0 {
                        lemma_chunks_in_longer(raw, more, next);
                        let chunk = raw.subrange(end + 2, end + 2 + size);
                        assert(longer.subrange(end + 2, end + 2 + size) =~= chunk);
                        let (first, behind) = read_chunks(raw, next)->0;
                        match read_chunks(longer, behind) {
                            Some((second, _)) => {
                                assert(chunk + (first + second) =~= (chunk + first) + second);
                            },
                            None => {},
                        }
                    }
                },
            }
        },
    }
}

/// Whether the framing of some bytes more can be followed.
pub open spec fn framed(before: DecoderView, bytes: Seq<u8>) -> bool {
    match after_header(DecoderView { raw: before.raw + bytes, ..before }) {
        Err(_) => false,
        Ok(decoder) => !decoder.headers_done || after_framing(decoder) is Some,
    }
}

/// Whether the chunks of a decoder whose header is read come to the end of the stream, and a line
/// stands behind that end once some bytes more have arrived.
pub open spec fn goes_on_behind_end(decoder: DecoderView, more: Seq<u8>) -> bool {
    &&& decoder.chunked
    &&& ends_within(decoder.raw, decoder.chunk_pos as int)
    &&& match read_chunks(decoder.raw, decoder.chunk_pos as int) {
        Some((_, behind)) => text::find_from(decoder.raw + more, crlf(), behind) is Some,
        None => false,
    }
}

/// Whether some bytes bring a stream to its end, and a line stands behind that end once some bytes
/// more have arrived.
pub open spec fn ended_early(before: DecoderView, bytes: Seq<u8>, more: Seq<u8>) -> bool {
    match after_header(DecoderView { raw: before.raw + bytes, ..before }) {
        Err(_) => false,
        Ok(decoder) => decoder.headers_done && goes_on_behind_end(decoder, more),
    }
}

proof fn lemma_framing_in_longer(opened: DecoderView, second: Seq<u8>)
    requires
        opened.chunk_pos <= opened.raw.len(),
        after_framing(opened) is Some,
        read_lines((after_framing(opened)->0).decoded).ok,
        !goes_on_behind_end(opened, second),
    ensures
        ({
            let followed = after_framing(opened)->0;
            let lines = read_lines(followed.decoded);
            let raw = opened.raw + second;
            let one = DecoderView { decoded: lines.rest, raw, ..followed };
            let both = DecoderView { raw, ..opened };
            match after_framing(one) {
                None => after_framing(both) is None,
                Some(two) => {
                    let later = read_lines(two.decoded);
                    &&& after_framing(both) is Some
                    &&& {
                        let all = after_framing(both)->0;
                        let read = read_lines(all.decoded);
                        &&& DecoderView { decoded: two.decoded, ..all } == two
                        &&& read.events == lines.events + later.events
                        &&& read.rest == later.rest
                        &&& read.ok == later.ok
                    }
                },
            }
        }),
{
    let raw = opened.raw + second;
    let pos = opened.chunk_pos as int;
    let followed = after_framing(opened)->0;
    let lines = read_lines(followed.decoded);
    if opened.chunked {
        lemma_chunks_in_longer(opened.raw, second, pos);
        let (more, behind) = read_chunks(opened.raw, pos)->0;
        match read_chunks(raw, behind) {
            Some((later, end)) => {
                assert(opened.decoded + (more + later) =~= followed.decoded + later);
                lemma_lines_in_longer(followed.decoded, later);
            },
            None => {},
        }
    } else {
        assert(raw.skip(pos) =~= opened.raw.skip(pos) + second);
        assert(raw.skip(opened.raw.len() as int) =~= second);
        assert(opened.decoded + (opened.raw.skip(pos) + second) =~= followed.decoded + second);
        lemma_lines_in_longer(followed.decoded, second);
    }
}

proof fn lemma_header_in_longer(start: DecoderView, second: Seq<u8>)
    requires
        after_header(start) is Ok,
        (after_header(start)->Ok_0).headers_done,
    ensures
        after_header(DecoderView { raw: start.raw + second, ..start }) == Ok::<
            DecoderView,
            ProviderErrorView,
        >(DecoderView { raw: start.raw + second, ..after_header(start)->Ok_0 }),
        start.chunk_pos <= start.raw.len() ==> (after_header(start)->Ok_0).chunk_pos
            <= start.raw.len(),
        (after_header(start)->Ok_0).raw == start.raw,
{
    if !start.headers_done {
        lemma_find_in_longer(start.raw, second, header_end(), 0);
        let split = text::find_from(start.raw, header_end(), 0)->0;
        assert((start.raw + second).take(split) =~= start.raw.take(split));
    }
}

/// How the bytes of a stream are parted when they arrive does not matter: what the first part comes
/// to and then the second is what both come to at once, unless the first part holds the end of the
/// stream and something stands behind it. Only where the framing breaks in the second part are the
/// events of the first part told that both at once would not tell.
pub proof fn law_arrival_does_not_matter(before: DecoderView, first: Seq<u8>, second: Seq<u8>)
    requires
        before.chunk_pos <= before.raw.len(),
        fed(before, first).error is None,
        !ended_early(before, first, second),
    ensures
        ({
            let one = fed(before, first);
            let two = fed(one.decoder, second);
            let both = fed(before, first + second);
            &&& both.error == two.error
            &&& framed(one.decoder, second) ==> both.events == one.events + two.events
            &&& both.error is None ==> both.decoder == two.decoder
        }),
{
    let start = DecoderView { raw: before.raw + first, ..before };
    assert(before.raw + (first + second) =~= start.raw + second);
    let one = fed(before, first);
    let two = fed(one.decoder, second);
    let opened = after_header(start)->Ok_0;
    if !opened.headers_done {
        assert(Seq::<StreamEventView>::empty() + two.events =~= two.events);
    } else {
        lemma_header_in_longer(start, second);
        lemma_framing_in_longer(opened, second);
    }
}

} // verus!
