//! Replies in chunks as a server writes them, and what is read of them.

use vstd::prelude::*;
use vstd::string::*;

use crate::framing;
use crate::framing::Chunk;
use crate::http;
use crate::text;

verus! {

/// The character of a hexadecimal digit.
pub open spec fn hex_char(d: nat) -> char {
    if d < 10 {
        text::digit_char(d)
    } else if d == 10 {
        'a'
    } else if d == 11 {
        'b'
    } else if d == 12 {
        'c'
    } else if d == 13 {
        'd'
    } else if d == 14 {
        'e'
    } else {
        'f'
    }
}

/// A number in hexadecimal digits.
pub open spec fn hexadecimal(n: nat) -> Seq<char>
    decreases n,
{
    if n < 16 {
        seq![hex_char(n)]
    } else {
        hexadecimal(n / 16).push(hex_char(n % 16))
    }
}

/// The header of a reply in chunks with some status.
pub open spec fn chunked_header(status: u16) -> Seq<char> {
    "HTTP/1.1 "@ + text::decimal(status as nat) + " OK\r\n"@ + "Transfer-Encoding: chunked"@
}

/// A body as some chunks, each with its size in hexadecimal digits.
pub open spec fn in_chunks(pieces: Seq<Seq<u8>>) -> Seq<Chunk> {
    pieces.map_values(
        |data: Seq<u8>|
            (Chunk { line: vstd::utf8::encode_utf8(hexadecimal(data.len())), data }),
    )
}

/// The bytes of a reply in chunks with some status.
pub open spec fn chunked_reply(status: u16, pieces: Seq<Seq<u8>>) -> Seq<u8> {
    vstd::utf8::encode_utf8(chunked_header(status)) + http::header_end() + framing::sent(
        in_chunks(pieces),
        vstd::utf8::encode_utf8("0"@) + http::crlf() + http::crlf(),
    )
}

/// Whether some characters are digits or small letters.
pub open spec fn plain(s: Seq<char>) -> bool {
    forall|k: int| 0 <= k < s.len() ==> '0' <= #[trigger] s[k] <= 'z'
}

proof fn lemma_hexadecimal(n: nat)
    ensures
        hexadecimal(n).len() > 0,
        plain(hexadecimal(n)),
        text::digits_value(hexadecimal(n), 16) == Some(n),
    decreases n,
{
    reveal_with_fuel(text::digits_value, 2);
    if n < 16 {
        assert(hexadecimal(n).drop_last() =~= Seq::<char>::empty());
        assert(text::digit_of(hex_char(n)) == Some(n));
    } else {
        lemma_hexadecimal(n / 16);
        assert(hexadecimal(n).drop_last() =~= hexadecimal(n / 16));
        assert(text::digit_of(hex_char(n % 16)) == Some(n % 16));
    }
}

pub proof fn lemma_decimal(n: nat)
    ensures
        text::decimal(n).len() > 0,
        plain(text::decimal(n)),
        text::digits_value(text::decimal(n), 10) == Some(n),
    decreases n,
{
    reveal_with_fuel(text::digits_value, 2);
    if n < 10 {
        assert(text::decimal(n).drop_last() =~= Seq::<char>::empty());
        assert(text::digit_of(text::digit_char(n)) == Some(n));
    } else {
        lemma_decimal(n / 10);
        assert(text::decimal(n).drop_last() =~= text::decimal(n / 10));
        assert(text::digit_of(text::digit_char(n % 10)) == Some(n % 10));
    }
}

proof fn lemma_first(bytes: Seq<u8>, mark: Seq<u8>)
    requires
        mark.len() > 0,
        forall|k: int|
            0 <= k < bytes.len() ==> !#[trigger] text::occurs_at(bytes + mark, mark, k),
    ensures
        framing::marked(bytes, mark),
{
    let marked = bytes + mark;
    let at = bytes.len() as int;
    text::lemma_find(marked, mark, 0);
    assert(marked.subrange(at, at + mark.len()) =~= mark);
    assert(text::occurs_at(marked, mark, at));
}

proof fn lemma_unbroken(bytes: Seq<u8>)
    requires
        forall|k: int| 0 <= k < bytes.len() ==> #[trigger] bytes[k] != 13u8,
    ensures
        framing::marked(bytes, http::crlf()),
{
    let mark = http::crlf();
    assert forall|k: int| 0 <= k < bytes.len() implies !#[trigger] text::occurs_at(
        bytes + mark,
        mark,
        k,
    ) by {
        assert((bytes + mark).subrange(k, k + 2)[0] == bytes[k]);
        assert(mark[0] == 13u8);
    }
    lemma_first(bytes, mark);
}

/// Only at one place does a line end within some bytes, and no other line end follows it at once.
proof fn lemma_broken_once(bytes: Seq<u8>, place: int)
    requires
        0 <= place,
        place + 2 < bytes.len(),
        forall|k: int| 0 <= k < bytes.len() && #[trigger] bytes[k] == 13u8 ==> k == place,
    ensures
        framing::marked(bytes, http::header_end()),
{
    let mark = http::header_end();
    assert forall|k: int| 0 <= k < bytes.len() implies !#[trigger] text::occurs_at(
        bytes + mark,
        mark,
        k,
    ) by {
        let four = (bytes + mark).subrange(k, k + 4);
        assert(four[0] == bytes[k]);
        assert(mark[0] == 13u8 && mark[2] == 13u8);
        if bytes[k] == 13u8 {
            assert(four[2] == bytes[k + 2]);
        }
    }
    lemma_first(bytes, mark);
}

proof fn lemma_bytes(s: Seq<char>)
    requires
        vstd::utf8::is_ascii_chars(s),
    ensures
        vstd::utf8::encode_utf8(s).len() == s.len(),
        forall|k: int|
            0 <= k < s.len() ==> #[trigger] vstd::utf8::encode_utf8(s)[k] == s[k] as u8,
        vstd::utf8::valid_utf8(vstd::utf8::encode_utf8(s)),
        vstd::utf8::decode_utf8(vstd::utf8::encode_utf8(s)) == s,
{
    vstd::utf8::encode_utf8_valid_utf8(s);
    vstd::utf8::encode_utf8_decode_utf8(s);
    vstd::utf8::is_ascii_chars_encode_utf8(s);
}

proof fn lemma_return(c: char)
    requires
        '\0' <= c <= '\u{7f}',
    ensures
        c as u8 == 13u8 <==> c == '\r',
{
}

proof fn lemma_plain_line(line: Seq<char>, size: nat)
    requires
        plain(line),
        line.len() > 0,
        text::digits_value(line, 16) == Some(size),
        size <= usize::MAX,
    ensures
        http::chunk_size(line) == Some(size),
        vstd::utf8::is_ascii_chars(line),
{
    assert('0' <= line[0] <= 'z');
    assert('0' <= line[line.len() - 1] <= 'z');
    assert(text::trim_start(line) == line);
    assert(text::trim_end(line) == line);
    assert forall|i: int| 0 <= i < line.len() implies '\0' <= #[trigger] line[i] <= '\u{7f}' by {
        assert('0' <= line[i] <= 'z');
    }
}

proof fn lemma_plain_size(line: Seq<char>, size: nat)
    requires
        plain(line),
        line.len() > 0,
        text::digits_value(line, 16) == Some(size),
        size <= usize::MAX,
    ensures
        framing::gives_size(vstd::utf8::encode_utf8(line), size),
{
    lemma_plain_line(line, size);
    lemma_bytes(line);
    let bytes = vstd::utf8::encode_utf8(line);
    assert(framing::marked(bytes, http::crlf())) by {
        assert forall|k: int| 0 <= k < bytes.len() implies #[trigger] bytes[k] != 13u8 by {
            assert('0' <= line[k] <= 'z');
            lemma_return(line[k]);
        }
        lemma_unbroken(bytes);
    }
}

proof fn lemma_word(s: Seq<char>, n: int)
    requires
        0 < n < s.len(),
        forall|k: int| 0 <= k < n ==> !text::whitespace(#[trigger] s[k]),
        text::whitespace(s[n]),
    ensures
        text::word_len(s) == n,
        text::trim_start(s) == s,
{
    text::lemma_words(s);
    assert(!text::whitespace(s[0]));
}

proof fn lemma_status(status: u16)
    ensures
        http::status_of(chunked_header(status)) == Some(status as nat),
{
    let header = chunked_header(status);
    let digits = text::decimal(status as nat);
    lemma_decimal(status as nat);
    reveal_strlit("HTTP/1.1 ");
    reveal_strlit(" OK\r\n");
    assert forall|k: int| 0 <= k < 8 implies !text::whitespace(#[trigger] header[k]) by {
        assert(header[k] == "HTTP/1.1 "@[k]);
    }
    assert(header[8] == ' ');
    lemma_word(header, 8);
    let rest = header.skip(8);
    assert(rest[0] == ' ');
    let from = rest.skip(1);
    assert(from =~= digits + " OK\r\n"@ + "Transfer-Encoding: chunked"@);
    assert forall|k: int| 0 <= k < digits.len() implies !text::whitespace(#[trigger] from[k]) by {
        assert('0' <= digits[k] <= 'z');
        assert(from[k] == digits[k]);
    }
    assert(from[digits.len() as int] == ' ');
    lemma_word(from, digits.len() as int);
    assert(text::trim_start(rest) == from);
    assert(from.take(digits.len() as int) =~= digits);
    let words = text::words(header);
    assert(words =~= seq![header.take(8)] + text::words(rest));
    assert(text::words(rest)[0] == digits);
    assert(words[1] == digits);
    assert('0' <= digits[0] <= 'z');
}

proof fn lemma_says_chunked(status: u16)
    ensures
        http::is_chunked(chunked_header(status)),
{
    let header = chunked_header(status);
    let before = "HTTP/1.1 "@ + text::decimal(status as nat) + " OK\r\n"@;
    let said = "Transfer-Encoding: chunked"@;
    let sought = "transfer-encoding: chunked"@;
    reveal_strlit("Transfer-Encoding: chunked");
    reveal_strlit("transfer-encoding: chunked");
    let lower = text::ascii_lowercase(header);
    let at = before.len() as int;
    assert(said.len() == 26 && sought.len() == 26);
    assert(text::ascii_lower('T') == 't' && text::ascii_lower('E') == 'e');
    assert(text::ascii_lowercase(said) =~= sought);
    assert(lower.subrange(at, at + 26) =~= text::ascii_lowercase(said));
    assert(text::occurs_at(lower, sought, at));
}

/// Only the end of the first line of a header holds a carriage return.
proof fn lemma_header_chars(status: u16)
    ensures
        vstd::utf8::is_ascii_chars(chunked_header(status)),
        ({
            let header = chunked_header(status);
            let place = text::decimal(status as nat).len() + 12;
            &&& place + 2 < header.len()
            &&& forall|k: int|
                0 <= k < header.len() && #[trigger] header[k] == '\r' ==> k == place
        }),
{
    let header = chunked_header(status);
    let digits = text::decimal(status as nat);
    lemma_decimal(status as nat);
    reveal_strlit("HTTP/1.1 ");
    reveal_strlit(" OK\r\n");
    reveal_strlit("Transfer-Encoding: chunked");
    let n = digits.len() as int;
    assert forall|k: int| 0 <= k < header.len() implies '\0' <= #[trigger] header[k] <= '\u{7f}'
        && (header[k] == '\r' ==> k == n + 12) by {
        if k < 9 {
            assert(header[k] == "HTTP/1.1 "@[k]);
        } else if k < 9 + n {
            assert(header[k] == digits[k - 9]);
            assert('0' <= digits[k - 9] <= 'z');
        } else if k < 14 + n {
            assert(header[k] == " OK\r\n"@[k - 9 - n]);
        } else {
            assert(header[k] == "Transfer-Encoding: chunked"@[k - 14 - n]);
        }
    }
}

proof fn lemma_header_marked(status: u16)
    ensures
        framing::marked(vstd::utf8::encode_utf8(chunked_header(status)), http::header_end()),
        vstd::utf8::valid_utf8(vstd::utf8::encode_utf8(chunked_header(status))),
        vstd::utf8::decode_utf8(vstd::utf8::encode_utf8(chunked_header(status)))
            == chunked_header(status),
{
    let header = chunked_header(status);
    lemma_header_chars(status);
    lemma_bytes(header);
    let bytes = vstd::utf8::encode_utf8(header);
    let place = text::decimal(status as nat).len() as int + 12;
    assert(framing::marked(bytes, http::header_end())) by {
        assert forall|k: int| 0 <= k < bytes.len() && #[trigger] bytes[k] == 13u8 implies k
            == place by {
            assert('\0' <= header[k] <= '\u{7f}');
            lemma_return(header[k]);
        }
        lemma_broken_once(bytes, place);
    }
}

/// A reply in chunks reads as its status and its body, however that is cut: the pieces put together.
/// What stands within a piece is data, ends of lines among it.
pub proof fn law_chunked_replies_are_read(status: u16, pieces: Seq<Seq<u8>>)
    requires
        forall|k: int|
            0 <= k < pieces.len() ==> 0 < (#[trigger] pieces[k]).len() <= usize::MAX,
    ensures
        http::response(chunked_reply(status, pieces)) == Some(
            (status as nat, framing::together(pieces)),
        ),
{
    let header = vstd::utf8::encode_utf8(chunked_header(status));
    let chunks = in_chunks(pieces);
    let last = vstd::utf8::encode_utf8("0"@);
    lemma_header_marked(status);
    lemma_status(status);
    lemma_says_chunked(status);
    reveal_strlit("0");
    lemma_hexadecimal(0);
    assert(hexadecimal(0) =~= "0"@);
    lemma_plain_size("0"@, 0);
    assert forall|k: int| 0 <= k < chunks.len() implies (#[trigger] chunks[k]).data.len() > 0
        && framing::gives_size(chunks[k].line, chunks[k].data.len()) by {
        let size = pieces[k].len();
        lemma_hexadecimal(size);
        lemma_plain_size(hexadecimal(size), size);
    }
    framing::law_cutting_does_not_show(
        header,
        chunks,
        last,
        http::crlf(),
        chunks,
        last,
        http::crlf(),
    );
    lemma_together(pieces);
}

proof fn lemma_together(pieces: Seq<Seq<u8>>)
    ensures
        framing::joined(in_chunks(pieces)) == framing::together(pieces),
    decreases pieces.len(),
{
    if pieces.len() > 0 {
        assert(in_chunks(pieces).skip(1) =~= in_chunks(pieces.skip(1)));
        lemma_together(pieces.skip(1));
    }
}

/// Two replies in chunks whose bodies are the same, cut in different ways, read as the same.
pub proof fn law_other_pieces_read_the_same(
    status: u16,
    pieces: Seq<Seq<u8>>,
    others: Seq<Seq<u8>>,
)
    requires
        forall|k: int|
            0 <= k < pieces.len() ==> 0 < (#[trigger] pieces[k]).len() <= usize::MAX,
        forall|k: int|
            0 <= k < others.len() ==> 0 < (#[trigger] others[k]).len() <= usize::MAX,
        framing::together(pieces) == framing::together(others),
    ensures
        http::response(chunked_reply(status, pieces)) == http::response(
            chunked_reply(status, others),
        ),
{
    law_chunked_replies_are_read(status, pieces);
    law_chunked_replies_are_read(status, others);
}

} // verus!
