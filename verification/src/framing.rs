//! How replies are cut into chunks and lines, and that the cutting does not show in what is read.

use vstd::prelude::*;

use crate::http;
use crate::http::DecoderView;
use crate::http::Fed;
use crate::http::LinesRead;
use crate::json;
use crate::json::Json;
use crate::provider::StreamEventView;
use crate::text;

verus! {

/// A chunk of a body: the line that gives its size, and its bytes.
pub struct Chunk {
    pub line: Seq<u8>,
    pub data: Seq<u8>,
}

/// Whether a mark stands behind some bytes and not within them.
pub open spec fn marked(bytes: Seq<u8>, mark: Seq<u8>) -> bool {
    text::find_from(bytes + mark, mark, 0) == Some(bytes.len() as int)
}

/// Whether a line gives a size to a reader of whole replies.
pub open spec fn gives_size(line: Seq<u8>, size: nat) -> bool {
    &&& marked(line, http::crlf())
    &&& vstd::utf8::valid_utf8(line)
    &&& http::chunk_size(vstd::utf8::decode_utf8(line)) == Some(size)
}

/// Whether a line gives a size to a reader of replies that come in bit by bit.
pub open spec fn shows_size(line: Seq<u8>, size: nat) -> bool {
    &&& marked(line, http::crlf())
    &&& http::chunk_size(text::lossy(line)) == Some(size)
}

/// What is sent for some chunks: each line and its bytes, with an end of line behind either, and
/// then what ends the body.
pub open spec fn sent(chunks: Seq<Chunk>, end: Seq<u8>) -> Seq<u8>
    decreases chunks.len(),
{
    if chunks.len() == 0 {
        end
    } else {
        chunks[0].line + http::crlf() + (chunks[0].data + http::crlf() + sent(chunks.skip(1), end))
    }
}

/// What some chunks make up.
pub open spec fn joined(chunks: Seq<Chunk>) -> Seq<u8>
    decreases chunks.len(),
{
    if chunks.len() == 0 {
        Seq::empty()
    } else {
        chunks[0].data + joined(chunks.skip(1))
    }
}

/// Whether some chunks, none of them empty, say their sizes to a reader of whole replies, and so
/// does the line that ends the body.
pub open spec fn sized(chunks: Seq<Chunk>, last: Seq<u8>) -> bool {
    &&& gives_size(last, 0)
    &&& forall|k: int|
        0 <= k < chunks.len() ==> (#[trigger] chunks[k]).data.len() > 0 && gives_size(
            chunks[k].line,
            chunks[k].data.len(),
        )
}

/// Whether some chunks, none of them empty, say their sizes to a reader of replies that come in bit
/// by bit, and so does the line that ends the body.
pub open spec fn shown(chunks: Seq<Chunk>, last: Seq<u8>) -> bool {
    &&& shows_size(last, 0)
    &&& forall|k: int|
        0 <= k < chunks.len() ==> (#[trigger] chunks[k]).data.len() > 0 && shows_size(
            chunks[k].line,
            chunks[k].data.len(),
        )
}

pub proof fn lemma_marked(before: Seq<u8>, bytes: Seq<u8>, mark: Seq<u8>, behind: Seq<u8>)
    requires
        marked(bytes, mark),
        mark.len() > 0,
    ensures
        text::find_from(before + (bytes + mark + behind), mark, before.len() as int) == Some(
            (before.len() + bytes.len()) as int,
        ),
{
    let raw = before + (bytes + mark + behind);
    let at = (before.len() + bytes.len()) as int;
    text::lemma_find(bytes + mark, mark, 0);
    text::lemma_find(raw, mark, before.len() as int);
    assert(raw.subrange(at, at + mark.len()) =~= mark);
    assert(text::occurs_at(raw, mark, at));
    match text::find_from(raw, mark, before.len() as int) {
        Some(found) => {
            if found < at {
                let near = found - before.len();
                assert((bytes + mark).subrange(near, near + mark.len()) =~= raw.subrange(
                    found,
                    found + mark.len(),
                ));
                assert(text::occurs_at(bytes + mark, mark, near));
            }
        },
        None => {},
    }
}

proof fn lemma_whole_body(chunks: Seq<Chunk>, last: Seq<u8>, behind: Seq<u8>)
    requires
        sized(chunks, last),
    ensures
        http::chunked_body(sent(chunks, last + http::crlf() + behind)) == Some(joined(chunks)),
    decreases chunks.len(),
{
    let none = Seq::<u8>::empty();
    let end = last + http::crlf() + behind;
    let rest = sent(chunks, end);
    if chunks.len() == 0 {
        lemma_marked(none, last, http::crlf(), behind);
        assert(none + end =~= end);
        assert(rest.take(last.len() as int) =~= last);
    } else {
        let chunk = chunks[0];
        let more = sent(chunks.skip(1), end);
        let tail = chunk.data + http::crlf() + more;
        lemma_marked(none, chunk.line, http::crlf(), tail);
        assert(none + rest =~= rest);
        assert(rest.take(chunk.line.len() as int) =~= chunk.line);
        assert(rest.skip(chunk.line.len() as int + 2) =~= tail);
        assert(tail.skip(chunk.data.len() as int + 2) =~= more);
        assert(tail.take(chunk.data.len() as int) =~= chunk.data);
        assert forall|k: int| 0 <= k < chunks.skip(1).len() implies (
        #[trigger] chunks.skip(1)[k]).data.len() > 0 && gives_size(
            chunks.skip(1)[k].line,
            chunks.skip(1)[k].data.len(),
        ) by {
            assert(chunks.skip(1)[k] == chunks[k + 1]);
        }
        lemma_whole_body(chunks.skip(1), last, behind);
    }
}

/// Any cutting of a body into chunks reads as the same response.
pub proof fn law_cutting_does_not_show(
    header: Seq<u8>,
    one: Seq<Chunk>,
    one_last: Seq<u8>,
    one_behind: Seq<u8>,
    other: Seq<Chunk>,
    other_last: Seq<u8>,
    other_behind: Seq<u8>,
)
    requires
        marked(header, http::header_end()),
        http::is_chunked(vstd::utf8::decode_utf8(header)),
        sized(one, one_last),
        sized(other, other_last),
        joined(one) == joined(other),
    ensures
        http::response(
            header + http::header_end() + sent(one, one_last + http::crlf() + one_behind),
        ) == http::response(
            header + http::header_end() + sent(other, other_last + http::crlf() + other_behind),
        ),
        vstd::utf8::valid_utf8(header) ==> http::response(
            header + http::header_end() + sent(one, one_last + http::crlf() + one_behind),
        ) == match http::status_of(vstd::utf8::decode_utf8(header)) {
            Some(status) => Some((status, joined(one))),
            None => None,
        },
{
    lemma_response(header, one, one_last, one_behind);
    lemma_response(header, other, other_last, other_behind);
}

proof fn lemma_response(header: Seq<u8>, chunks: Seq<Chunk>, last: Seq<u8>, behind: Seq<u8>)
    requires
        marked(header, http::header_end()),
        http::is_chunked(vstd::utf8::decode_utf8(header)),
        sized(chunks, last),
    ensures
        http::response(header + http::header_end() + sent(chunks, last + http::crlf() + behind))
            == (if vstd::utf8::valid_utf8(header) {
            match http::status_of(vstd::utf8::decode_utf8(header)) {
                Some(status) => Some((status, joined(chunks))),
                None => None,
            }
        } else {
            None
        }),
{
    let none = Seq::<u8>::empty();
    let body = sent(chunks, last + http::crlf() + behind);
    let raw = header + http::header_end() + body;
    lemma_marked(none, header, http::header_end(), body);
    assert(none + raw =~= raw);
    assert(raw.take(header.len() as int) =~= header);
    assert(raw.skip(header.len() as int + 4) =~= body);
    lemma_whole_body(chunks, last, behind);
}

/// What some lines are together.
pub open spec fn together(lines: Seq<Seq<u8>>) -> Seq<u8>
    decreases lines.len(),
{
    if lines.len() == 0 {
        Seq::empty()
    } else {
        lines[0] + together(lines.skip(1))
    }
}

/// What some objects say, one after the other.
pub open spec fn told(objects: Seq<Json>) -> Seq<StreamEventView>
    decreases objects.len(),
{
    if objects.len() == 0 {
        Seq::empty()
    } else {
        http::line_events(objects[0]) + told(objects.skip(1))
    }
}

/// Whether some lines, each with its end, hold some objects, one each.
pub open spec fn holds(lines: Seq<Seq<u8>>, objects: Seq<Json>) -> bool {
    &&& lines.len() == objects.len()
    &&& forall|k: int|
        0 <= k < lines.len() ==> {
            &&& text::find_from(#[trigger] lines[k], seq![10u8], 0) == Some(lines[k].len() - 1)
            &&& json::parsed_json(lines[k]) == Some(objects[k])
        }
}

/// The lines of a reply tell what their objects say, in their order; what stands behind the last
/// line waits for more.
pub proof fn law_lines_tell_their_objects(
    lines: Seq<Seq<u8>>,
    objects: Seq<Json>,
    rest: Seq<u8>,
)
    requires
        holds(lines, objects),
        text::find_from(rest, seq![10u8], 0) is None,
    ensures
        http::read_lines(together(lines) + rest) == (LinesRead {
            events: told(objects),
            rest,
            ok: true,
        }),
    decreases lines.len(),
{
    let all = together(lines) + rest;
    if lines.len() == 0 {
        assert(all =~= rest);
    } else {
        let line = lines[0];
        let more = together(lines.skip(1)) + rest;
        assert(line + more =~= all);
        http::lemma_find_in_longer(line, more, seq![10u8], 0);
        assert(all.take(line.len() as int) =~= line);
        assert(all.skip(line.len() as int) =~= more);
        lemma_held_rest(lines, objects);
        law_lines_tell_their_objects(lines.skip(1), objects.skip(1), rest);
    }
}

proof fn lemma_arriving_body(before: Seq<u8>, chunks: Seq<Chunk>, last: Seq<u8>)
    requires
        shown(chunks, last),
    ensures
        match http::read_chunks(
            before + sent(chunks, last + http::crlf() + http::crlf()),
            before.len() as int,
        ) {
            Some((body, _)) => body == joined(chunks),
            None => false,
        },
    decreases chunks.len(),
{
    let end = last + http::crlf() + http::crlf();
    let rest = sent(chunks, end);
    let raw = before + rest;
    let pos = before.len() as int;
    if chunks.len() == 0 {
        lemma_marked(before, last, http::crlf(), http::crlf());
        assert(raw.subrange(pos, pos + last.len()) =~= last);
    } else {
        let chunk = chunks[0];
        let more = sent(chunks.skip(1), end);
        let tail = chunk.data + http::crlf() + more;
        lemma_marked(before, chunk.line, http::crlf(), tail);
        let behind = before + (chunk.line + http::crlf() + (chunk.data + http::crlf()));
        let from = pos + chunk.line.len() + 2;
        assert(raw.subrange(pos, pos + chunk.line.len()) =~= chunk.line);
        assert(raw.subrange(from, from + chunk.data.len()) =~= chunk.data);
        assert(raw =~= behind + more);
        assert(behind.len() == from + chunk.data.len() + 2);
        lemma_shown_rest(chunks, last);
        lemma_arriving_body(behind, chunks.skip(1), last);
    }
}

/// A decoder that has received nothing.
pub open spec fn fresh() -> DecoderView {
    DecoderView {
        raw: Seq::empty(),
        decoded: Seq::empty(),
        headers_done: false,
        chunked: false,
        chunk_pos: 0,
    }
}

/// What the parts of a reply are together.
pub open spec fn gathered(parts: Seq<Seq<u8>>) -> Seq<u8>
    decreases parts.len(),
{
    if parts.len() == 0 {
        Seq::empty()
    } else {
        gathered(parts.drop_last()) + parts.last()
    }
}

/// What a decoder comes to once some parts of a reply have come in, one after the other.
pub open spec fn arrived(decoder: DecoderView, parts: Seq<Seq<u8>>) -> Fed
    decreases parts.len(),
{
    if parts.len() == 0 {
        Fed { decoder, events: Seq::empty(), error: None }
    } else {
        let before = arrived(decoder, parts.drop_last());
        if before.error is Some {
            before
        } else {
            let now = http::fed(before.decoder, parts.last());
            Fed { events: before.events + now.events, ..now }
        }
    }
}

/// A streamed reply: a header, and a body of some lines and what stands behind the last, as it is or
/// in chunks, as the header says.
pub struct Reply {
    pub header: Seq<u8>,
    pub lines: Seq<Seq<u8>>,
    pub rest: Seq<u8>,
    pub chunks: Seq<Chunk>,
    pub last: Seq<u8>,
}

impl Reply {
    /// The body.
    pub open spec fn body(self) -> Seq<u8> {
        together(self.lines) + self.rest
    }

    /// Whether the body comes in chunks.
    pub open spec fn in_chunks(self) -> bool {
        http::is_chunked(text::lossy(self.header))
    }

    /// The bytes behind the header.
    pub open spec fn framed(self) -> Seq<u8> {
        if self.in_chunks() {
            sent(self.chunks, self.last + http::crlf() + http::crlf())
        } else {
            self.body()
        }
    }

    /// All bytes of the reply.
    pub open spec fn bytes(self) -> Seq<u8> {
        self.header + http::header_end() + self.framed()
    }

    /// Whether the reply is one of success whose lines hold some objects, one each, cut into chunks
    /// in any way.
    pub open spec fn brings(self, objects: Seq<Json>) -> bool {
        &&& marked(self.header, http::header_end())
        &&& http::header_problem(text::lossy(self.header)) is None
        &&& holds(self.lines, objects)
        &&& text::find_from(self.rest, seq![10u8], 0) is None
        &&& self.in_chunks() ==> shown(self.chunks, self.last) && joined(self.chunks)
            == self.body()
    }
}

proof fn lemma_find_in_shorter(s: Seq<u8>, pattern: Seq<u8>, from: int, n: int)
    requires
        0 <= from,
        0 <= n <= s.len(),
        match text::find_from(s, pattern, from) {
            Some(at) => n < at + pattern.len(),
            None => true,
        },
    ensures
        text::find_from(s.take(n), pattern, from) is None,
{
    text::lemma_find(s, pattern, from);
    text::lemma_find(s.take(n), pattern, from);
    match text::find_from(s.take(n), pattern, from) {
        Some(found) => {
            assert(s.subrange(found, found + pattern.len()) =~= s.take(n).subrange(
                found,
                found + pattern.len(),
            ));
            assert(text::occurs_at(s, pattern, found));
        },
        None => {},
    }
}

proof fn lemma_started_lines(lines: Seq<Seq<u8>>, objects: Seq<Json>, rest: Seq<u8>, n: int)
    requires
        holds(lines, objects),
        text::find_from(rest, seq![10u8], 0) is None,
        0 <= n <= together(lines).len() + rest.len(),
    ensures
        http::read_lines((together(lines) + rest).take(n)).ok,
    decreases lines.len(),
{
    let all = together(lines) + rest;
    let part = all.take(n);
    if lines.len() == 0 {
        assert(all =~= rest);
        lemma_find_in_shorter(rest, seq![10u8], 0, n);
    } else {
        let line = lines[0];
        let size = line.len() as int;
        let more = together(lines.skip(1)) + rest;
        assert(line + more =~= all);
        assert(text::find_from(line, seq![10u8], 0) == Some(size - 1));
        if n < size {
            assert(part =~= line.take(n));
            lemma_find_in_shorter(line, seq![10u8], 0, n);
        } else {
            assert(part =~= line + more.take(n - size));
            http::lemma_find_in_longer(line, more.take(n - size), seq![10u8], 0);
            assert(part.take(size) =~= line);
            assert(part.skip(size) =~= more.take(n - size));
            lemma_held_rest(lines, objects);
            lemma_started_lines(lines.skip(1), objects.skip(1), rest, n - size);
        }
    }
}

proof fn lemma_held_rest(lines: Seq<Seq<u8>>, objects: Seq<Json>)
    requires
        holds(lines, objects),
        lines.len() > 0,
    ensures
        holds(lines.skip(1), objects.skip(1)),
{
    assert forall|k: int| 0 <= k < lines.skip(1).len() implies {
        &&& text::find_from(#[trigger] lines.skip(1)[k], seq![10u8], 0) == Some(
            lines.skip(1)[k].len() - 1,
        )
        &&& json::parsed_json(lines.skip(1)[k]) == Some(objects.skip(1)[k])
    } by {
        assert(lines.skip(1)[k] == lines[k + 1]);
        assert(objects.skip(1)[k] == objects[k + 1]);
    }
}

proof fn lemma_shown_rest(chunks: Seq<Chunk>, last: Seq<u8>)
    requires
        shown(chunks, last),
        chunks.len() > 0,
    ensures
        shown(chunks.skip(1), last),
{
    assert forall|k: int| 0 <= k < chunks.skip(1).len() implies (
    #[trigger] chunks.skip(1)[k]).data.len() > 0 && shows_size(
        chunks.skip(1)[k].line,
        chunks.skip(1)[k].data.len(),
    ) by {
        assert(chunks.skip(1)[k] == chunks[k + 1]);
    }
}

proof fn lemma_started_chunks(before: Seq<u8>, chunks: Seq<Chunk>, last: Seq<u8>, n: int)
    requires
        shown(chunks, last),
        0 <= n <= sent(chunks, last + http::crlf() + http::crlf()).len(),
    ensures
        ({
            let all = sent(chunks, last + http::crlf() + http::crlf());
            let raw = before + all.take(n);
            let pos = before.len() as int;
            &&& match http::read_chunks(raw, pos) {
                Some((body, _)) => {
                    &&& body.len() <= joined(chunks).len()
                    &&& body == joined(chunks).take(body.len() as int)
                },
                None => false,
            }
            &&& n < all.len() ==> !http::ends_within(raw, pos)
        }),
    decreases chunks.len(),
{
    let end = last + http::crlf() + http::crlf();
    let all = sent(chunks, end);
    let pos = before.len() as int;
    let raw = before + all.take(n);
    let whole = before + all;
    let none = Seq::<u8>::empty();
    assert(raw =~= whole.take(pos + n));
    assert(joined(chunks).take(0) =~= none);
    if chunks.len() == 0 {
        lemma_marked(before, last, http::crlf(), http::crlf());
        if n < last.len() + 2 {
            lemma_find_in_shorter(whole, http::crlf(), pos, pos + n);
        } else {
            assert(all.take(n) =~= last + http::crlf() + http::crlf().take(n - last.len() - 2));
            lemma_marked(before, last, http::crlf(), http::crlf().take(n - last.len() - 2));
            assert(raw.subrange(pos, pos + last.len()) =~= last);
        }
    } else {
        let chunk = chunks[0];
        let more = sent(chunks.skip(1), end);
        let tail = chunk.data + http::crlf() + more;
        let from = chunk.line.len() as int + 2;
        lemma_marked(before, chunk.line, http::crlf(), tail);
        if n < from {
            lemma_find_in_shorter(whole, http::crlf(), pos, pos + n);
        } else {
            assert(all.take(n) =~= chunk.line + http::crlf() + tail.take(n - from));
            lemma_marked(before, chunk.line, http::crlf(), tail.take(n - from));
            assert(raw.subrange(pos, pos + chunk.line.len()) =~= chunk.line);
            let size = chunk.data.len() as int;
            if n >= from + size + 2 {
                let behind = before + (chunk.line + http::crlf() + (chunk.data + http::crlf()));
                let left = n - from - size - 2;
                assert(raw =~= behind + more.take(left));
                assert(raw.subrange(pos + from, pos + from + size) =~= chunk.data);
                lemma_shown_rest(chunks, last);
                lemma_started_chunks(behind, chunks.skip(1), last, left);
                match http::read_chunks(raw, behind.len() as int) {
                    Some((body, _)) => {
                        assert(chunk.data + body =~= joined(chunks).take(size + body.len()));
                    },
                    None => {},
                }
            }
        }
    }
}

/// A reply that has come in up to some byte is in order, and is not over before its last byte.
proof fn lemma_started_reply(reply: Reply, objects: Seq<Json>, n: int, more: Seq<u8>)
    requires
        reply.brings(objects),
        0 <= n <= reply.bytes().len(),
    ensures
        http::fed(fresh(), reply.bytes().take(n)).error is None,
        n < reply.bytes().len() ==> !http::ended_early(fresh(), reply.bytes().take(n), more),
{
    let none = Seq::<u8>::empty();
    let bytes = reply.bytes();
    let part = bytes.take(n);
    let framed = reply.framed();
    let head = reply.header + http::header_end();
    assert(none + part =~= part);
    lemma_marked(none, reply.header, http::header_end(), framed);
    assert(none + bytes =~= bytes);
    if n < head.len() {
        lemma_find_in_shorter(bytes, http::header_end(), 0, n);
    } else {
        let m = n - head.len();
        assert(part =~= head + framed.take(m));
        lemma_marked(none, reply.header, http::header_end(), framed.take(m));
        assert(none + (head + framed.take(m)) =~= part);
        assert(part.take(reply.header.len() as int) =~= reply.header);
        if reply.in_chunks() {
            lemma_started_chunks(head, reply.chunks, reply.last, m);
            match http::read_chunks(part, head.len() as int) {
                Some((body, _)) => {
                    assert(none + body =~= body);
                    lemma_started_lines(reply.lines, objects, reply.rest, body.len() as int);
                },
                None => {},
            }
        } else {
            assert(part.skip(head.len() as int) =~= framed.take(m));
            assert(none + framed.take(m) =~= framed.take(m));
            lemma_started_lines(reply.lines, objects, reply.rest, m);
        }
    }
}

proof fn lemma_arrived(reply: Reply, objects: Seq<Json>, parts: Seq<Seq<u8>>, n: int)
    requires
        reply.brings(objects),
        0 <= n <= reply.bytes().len(),
        gathered(parts) == reply.bytes().take(n),
        forall|k: int| 0 <= k < parts.len() ==> (#[trigger] parts[k]).len() > 0,
    ensures
        arrived(fresh(), parts) == http::fed(fresh(), reply.bytes().take(n)),
        arrived(fresh(), parts).error is None,
    decreases parts.len(),
{
    let bytes = reply.bytes();
    lemma_started_reply(reply, objects, n, Seq::empty());
    if parts.len() == 0 {
        assert(bytes.take(n) =~= Seq::<u8>::empty());
        assert(Seq::<u8>::empty() + bytes.take(n) =~= Seq::<u8>::empty());
    } else {
        let before = parts.drop_last();
        let part = parts.last();
        assert(part == parts[parts.len() - 1]);
        let m = n - part.len();
        assert(gathered(before) =~= bytes.take(m)) by {
            assert(gathered(parts).take(m) =~= gathered(before));
            assert(bytes.take(n).take(m) =~= bytes.take(m));
        }
        assert forall|k: int| 0 <= k < before.len() implies (#[trigger] before[k]).len() > 0 by {
            assert(before[k] == parts[k]);
        }
        lemma_arrived(reply, objects, before, m);
        lemma_started_reply(reply, objects, m, part);
        assert(bytes.take(m) + part == bytes.take(n));
        http::law_arrival_does_not_matter(fresh(), bytes.take(m), part);
    }
}

/// A streamed reply of success tells what the objects on its lines say, in their order, and nothing
/// else, whether its body comes as it is or in chunks, wherever these are cut, and however its bytes
/// come in. What stands behind the last line is left for the end of the stream.
pub proof fn law_streamed_replies_tell_their_objects(
    reply: Reply,
    objects: Seq<Json>,
    parts: Seq<Seq<u8>>,
)
    requires
        reply.brings(objects),
        gathered(parts) == reply.bytes(),
        forall|k: int| 0 <= k < parts.len() ==> (#[trigger] parts[k]).len() > 0,
    ensures
        arrived(fresh(), parts).error is None,
        arrived(fresh(), parts).events == told(objects),
        arrived(fresh(), parts).decoder.decoded == reply.rest,
{
    let none = Seq::<u8>::empty();
    let bytes = reply.bytes();
    let framed = reply.framed();
    let head = reply.header + http::header_end();
    assert(bytes.take(bytes.len() as int) =~= bytes);
    lemma_arrived(reply, objects, parts, bytes.len() as int);
    law_lines_tell_their_objects(reply.lines, objects, reply.rest);
    lemma_marked(none, reply.header, http::header_end(), framed);
    assert(none + bytes =~= bytes);
    assert(bytes.take(reply.header.len() as int) =~= reply.header);
    assert(none + reply.body() =~= reply.body());
    if reply.in_chunks() {
        lemma_arriving_body(head, reply.chunks, reply.last);
    } else {
        assert(bytes.skip(head.len() as int) =~= framed);
    }
}

} // verus!
