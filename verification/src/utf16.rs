//! Offsets by bytes and by UTF-16 units.

use std::ops::Range;

use vstd::prelude::*;
use vstd::string::*;

use crate::php;
use crate::text;

verus! {

/// How many UTF-16 units a character takes.
pub open spec fn units(c: char) -> nat {
    if c as u32 >= 0x10000 {
        2
    } else {
        1
    }
}

/// How many UTF-16 units a text takes.
pub open spec fn utf16_len(s: Seq<char>) -> nat
    decreases s.len(),
{
    if s.len() == 0 {
        0
    } else {
        utf16_len(s.drop_last()) + units(s.last())
    }
}

/// How many characters, counted from `from` on, stand before the first place that lies as far as
/// some units; all where no place does.
pub open spec fn place_from(s: Seq<char>, offset: nat, from: int) -> int
    decreases s.len() - from,
{
    if from >= s.len() || from < 0 || utf16_len(s.take(from)) >= offset {
        from
    } else {
        place_from(s, offset, from + 1)
    }
}

fn unit_count(c: char) -> (r: usize)
    ensures
        r == units(c),
{
    if c as u32 >= 0x10000 {
        2
    } else {
        1
    }
}

/// A text takes no more UTF-16 units than bytes.
pub proof fn lemma_utf16_len(s: Seq<char>)
    ensures
        utf16_len(s) <= text::utf8_len(s),
    decreases s.len(),
{
    if s.len() > 0 {
        lemma_utf16_len(s.drop_last());
    }
}

proof fn lemma_utf16_take(s: Seq<char>, n: int)
    requires
        0 <= n < s.len(),
    ensures
        utf16_len(s.take(n + 1)) == utf16_len(s.take(n)) + units(s[n]),
{
    assert(s.take(n + 1).drop_last() =~= s.take(n));
}

fn count_units(s: &[char], n: usize) -> (r: usize)
    requires
        n <= s@.len(),
        text::utf8_len(s@) <= usize::MAX,
    ensures
        r == utf16_len(s@.take(n as int)),
{
    let mut count: usize = 0;
    let mut i: usize = 0;
    assert(s@.take(0) =~= Seq::<char>::empty());
    while i < n
        invariant
            i <= n <= s@.len(),
            text::utf8_len(s@) <= usize::MAX,
            count == utf16_len(s@.take(i as int)),
        decreases n - i,
    {
        proof {
            lemma_utf16_take(s@, i as int);
            lemma_utf16_len(s@.take(i + 1));
            text::lemma_take_len(s@, i + 1);
        }
        count += unit_count(s[i]);
        i += 1;
    }
    count
}

pub proof fn lemma_place_from(s: Seq<char>, n: nat, from: int)
    requires
        0 <= from <= s.len(),
    ensures
        from <= place_from(s, n, from) <= s.len(),
    decreases s.len() - from,
{
    if from < s.len() {
        lemma_place_from(s, n, from + 1);
    }
}

/// The byte offset of the first place in a text that lies as far as some UTF-16 units; the end where
/// no place does.
pub fn utf16_offset_to_byte(source: &str, offset: usize) -> (r: usize)
    ensures
        r == text::utf8_len(source@.take(place_from(source@, offset as nat, 0))),
        text::char_boundary(source@, r as nat),
{
    let s = text::chars_of(source);
    let size: usize = text::byte_len(source);
    let n: usize = s.len();
    let mut count: usize = 0;
    let mut i: usize = 0;
    assert(s@.take(0) =~= Seq::<char>::empty());
    while i < n && count < offset
        invariant
            i <= n == s@.len(),
            size == text::utf8_len(s@),
            count == utf16_len(s@.take(i as int)),
            place_from(s@, offset as nat, 0) == place_from(s@, offset as nat, i as int),
        decreases n - i,
    {
        proof {
            lemma_utf16_take(s@, i as int);
            lemma_utf16_len(s@.take(i + 1));
            text::lemma_take_len(s@, i + 1);
        }
        count += unit_count(s[i]);
        i += 1;
    }
    proof {
        text::lemma_char_boundary(source@, i as int);
    }
    text::offset_of(&s, i)
}

/// The byte offset of a place in a document that lies as far as some UTF-16 units.
pub fn offset_from_utf16(content: &str, offset: usize) -> (r: usize)
    ensures
        r == text::utf8_len(content@.take(place_from(content@, offset as nat, 0))),
        text::char_boundary(content@, r as nat),
{
    utf16_offset_to_byte(content, offset)
}

/// How many UTF-16 units stand before a byte offset.
pub fn offset_to_utf16(content: &str, offset: usize) -> (r: usize)
    requires
        php::boundary(content@, offset as nat),
    ensures
        r == utf16_len(content@.take(text::fitting(content@, offset as int) as int)),
{
    let s = text::chars_of(content);
    let size: usize = text::byte_len(content);
    let (n, _) = text::fit(&s, offset);
    count_units(&s, n)
}

/// A range of UTF-16 units as a range of bytes.
pub fn range_from_utf16(content: &str, range: &Range<usize>) -> (r: Range<usize>)
    ensures
        r.start == text::utf8_len(content@.take(place_from(content@, range.start as nat, 0))),
        r.end == text::utf8_len(content@.take(place_from(content@, range.end as nat, 0))),
{
    Range {
        start: offset_from_utf16(content, range.start),
        end: offset_from_utf16(content, range.end),
    }
}

/// A range of bytes as a range of UTF-16 units.
pub fn byte_range_to_utf16(content: &str, range: Range<usize>) -> (r: Range<usize>)
    requires
        php::boundary(content@, range.start as nat),
        php::boundary(content@, range.end as nat),
    ensures
        r.start == utf16_len(content@.take(text::fitting(content@, range.start as int) as int)),
        r.end == utf16_len(content@.take(text::fitting(content@, range.end as int) as int)),
{
    Range {
        start: offset_to_utf16(content, range.start),
        end: offset_to_utf16(content, range.end),
    }
}

/// The column in UTF-16 units of a column in bytes; a column within a character, like one behind the
/// line, is that of its end.
pub open spec fn utf16_column(line: Seq<char>, column: nat) -> nat {
    if column < text::utf8_len(line) && text::char_boundary(line, column) {
        utf16_len(line.take(text::fitting(line, column as int) as int))
    } else {
        utf16_len(line)
    }
}

/// The column in UTF-16 units of a column in bytes.
pub fn utf8_column_to_utf16(line: &str, byte_column: usize) -> (r: usize)
    ensures
        r == utf16_column(line@, byte_column as nat),
{
    let s = text::chars_of(line);
    let size: usize = text::byte_len(line);
    let n: usize = s.len();
    if byte_column < size {
        if let Some(i) = text::char_index(&s, byte_column) {
            return count_units(&s, i);
        }
    }
    assert(line@.take(n as int) =~= line@);
    count_units(&s, n)
}

/// What columns are counted in.
#[derive(Clone, Copy, Debug, PartialEq, Eq, Structural)]
pub enum PositionEncoding {
    Utf8,
    Utf16,
    Utf32,
}

/// A column in bytes as the server counts it.
pub open spec fn encoded_column(line: Seq<char>, column: nat, encoding: PositionEncoding) -> nat {
    match encoding {
        PositionEncoding::Utf8 => column,
        PositionEncoding::Utf16 => utf16_column(line, column),
        PositionEncoding::Utf32 => if column < text::utf8_len(line) && text::char_boundary(
            line,
            column,
        ) {
            text::fitting(line, column as int)
        } else {
            line.len()
        },
    }
}

/// A column in bytes as the server counts it.
pub fn encode_column(line: &str, column: usize, encoding: PositionEncoding) -> (r: usize)
    ensures
        r == encoded_column(line@, column as nat, encoding),
{
    match encoding {
        PositionEncoding::Utf8 => column,
        PositionEncoding::Utf16 => utf8_column_to_utf16(line, column),
        PositionEncoding::Utf32 => {
            let s = text::chars_of(line);
            let size: usize = text::byte_len(line);
            let n: usize = s.len();
            if column < size {
                if let Some(i) = text::char_index(&s, column) {
                    return i;
                }
            }
            n
        },
    }
}

proof fn lemma_utf16_grows(s: Seq<char>, a: int, b: int)
    requires
        0 <= a < b <= s.len(),
    ensures
        utf16_len(s.take(a)) < utf16_len(s.take(b)),
    decreases b - a,
{
    lemma_utf16_take(s, b - 1);
    if a < b - 1 {
        lemma_utf16_grows(s, a, b - 1);
    }
}

proof fn lemma_place(s: Seq<char>, n: int, from: int)
    requires
        0 <= from <= n <= s.len(),
    ensures
        place_from(s, utf16_len(s.take(n)), from) == n,
    decreases n - from,
{
    if from < n {
        lemma_utf16_grows(s, from, n);
        lemma_place(s, n, from + 1);
    }
}

/// A place in a text that is counted in UTF-16 units is found again by them.
pub proof fn law_places_are_found_again(s: Seq<char>, n: int)
    requires
        0 <= n <= s.len(),
    ensures
        place_from(s, utf16_len(s.take(n)), 0) == n,
{
    lemma_place(s, n, 0);
}

} // verus!
