//! Pointing at text: which word lies at an offset.

use std::ops::Range;
use vstd::prelude::*;

use crate::text;

verus! {

/// Whether a character belongs to a word.
pub open spec fn word_char(c: char) -> bool {
    text::alphanumeric(c) || c == '_'
}

/// Where the word before an index begins.
pub open spec fn word_start(s: Seq<char>, at: int) -> int
    decreases at,
{
    if at > 0 && at <= s.len() && word_char(s[at - 1]) {
        word_start(s, at - 1)
    } else {
        at
    }
}

/// Where the word behind an index ends.
pub open spec fn word_end(s: Seq<char>, at: int) -> int
    decreases s.len() - at,
{
    if 0 <= at < s.len() && word_char(s[at]) {
        word_end(s, at + 1)
    } else {
        at
    }
}

/// The characters of the word around a byte offset. An offset within a character means its start,
/// one behind the text means its end.
pub open spec fn word_around(s: Seq<char>, offset: nat) -> (int, int) {
    let at = text::fitting(s, offset as int) as int;
    (word_start(s, at), word_end(s, at))
}

/// A word is a run of word characters that could not be longer at either end.
pub proof fn lemma_word(s: Seq<char>, at: int)
    requires
        0 <= at <= s.len(),
    ensures
        0 <= word_start(s, at) <= at <= word_end(s, at) <= s.len(),
        forall|k: int| word_start(s, at) <= k < word_end(s, at) ==> word_char(#[trigger] s[k]),
        word_start(s, at) > 0 ==> !word_char(s[word_start(s, at) - 1]),
        word_end(s, at) < s.len() ==> !word_char(s[word_end(s, at)]),
{
    lemma_word_start(s, at);
    lemma_word_end(s, at);
}

proof fn lemma_word_start(s: Seq<char>, at: int)
    requires
        0 <= at <= s.len(),
    ensures
        0 <= word_start(s, at) <= at,
        forall|k: int| word_start(s, at) <= k < at ==> word_char(#[trigger] s[k]),
        word_start(s, at) > 0 ==> !word_char(s[word_start(s, at) - 1]),
    decreases at,
{
    if at > 0 && word_char(s[at - 1]) {
        lemma_word_start(s, at - 1);
    }
}

proof fn lemma_word_end(s: Seq<char>, at: int)
    requires
        0 <= at <= s.len(),
    ensures
        at <= word_end(s, at) <= s.len(),
        forall|k: int| at <= k < word_end(s, at) ==> word_char(#[trigger] s[k]),
        word_end(s, at) < s.len() ==> !word_char(s[word_end(s, at)]),
    decreases s.len() - at,
{
    if at < s.len() && word_char(s[at]) {
        lemma_word_end(s, at + 1);
    }
}

/// The word around a byte offset lies around that offset, holds word characters only, and cannot
/// be extended.
pub proof fn law_words_are_maximal(s: Seq<char>, offset: nat)
    ensures
        ({
            let (start, end) = word_around(s, offset);
            let at = text::fitting(s, offset as int);
            &&& 0 <= start <= at <= end <= s.len()
            &&& forall|k: int| start <= k < end ==> word_char(#[trigger] s[k])
            &&& start > 0 ==> !word_char(s[start - 1])
            &&& end < s.len() ==> !word_char(s[end])
        }),
{
    text::lemma_fitting(s, offset as int);
    lemma_word(s, text::fitting(s, offset as int) as int);
}

fn is_word_char(c: char) -> (r: bool)
    ensures
        r == word_char(c),
{
    text::is_alphanumeric(c) || c == '_'
}

/// The bytes of the word around a byte offset.
pub fn word_range_at(text: &str, offset: usize) -> (r: Range<usize>)
    ensures
        ({
            let (start, end) = word_around(text@, offset as nat);
            &&& r.start == text::utf8_len(text@.take(start))
            &&& r.end == text::utf8_len(text@.take(end))
        }),
{
    let chars = text::chars_of(text);
    let size: usize = text::byte_len(text);
    proof {
        text::lemma_fitting(text@, offset as int);
        lemma_word(text@, text::fitting(text@, offset as int) as int);
    }
    let (at, bytes) = text::fit(&chars, offset);
    let mut first: usize = at;
    let mut start: usize = bytes;
    while first > 0 && is_word_char(chars[first - 1])
        invariant
            first <= at <= chars@.len(),
            start == text::utf8_len(chars@.take(first as int)),
            word_start(chars@, first as int) == word_start(chars@, at as int),
        decreases first,
    {
        assert(chars@.take(first as int).drop_last() =~= chars@.take(first - 1));
        start -= text::width(chars[first - 1]);
        first -= 1;
    }
    let mut last: usize = at;
    let mut end: usize = bytes;
    while last < chars.len() && is_word_char(chars[last])
        invariant
            at <= last <= chars@.len(),
            chars@ == text@,
            size == text::utf8_len(text@),
            end == text::utf8_len(chars@.take(last as int)),
            word_end(chars@, last as int) == word_end(chars@, at as int),
        decreases chars@.len() - last,
    {
        proof {
            assert(chars@.take(last + 1).drop_last() =~= chars@.take(last as int));
            assert(chars@ =~= chars@.take(last + 1) + chars@.skip(last + 1));
            text::lemma_utf8_len_add(chars@.take(last + 1), chars@.skip(last + 1));
        }
        end += text::width(chars[last]);
        last += 1;
    }
    start..end
}

} // verus!
