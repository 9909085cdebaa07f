//! Where the caret goes, and what the input method of the system reads and writes: the line of a
//! search, the line of what replaces, or the document.

use std::ops::Range;

use vstd::prelude::*;

use crate::edit;
use crate::find::TextInput;
use crate::php;
use crate::text;
use crate::utf16;

verus! {

/// The byte offset of a character of a text.
pub open spec fn offset_at(s: Seq<char>, at: int) -> nat {
    text::utf8_len(s.take(at))
}

/// The character that stands at a byte offset of a text.
pub open spec fn char_at(s: Seq<char>, offset: usize) -> int {
    text::fitting(s, offset as int) as int
}

fn offset_in(content: &str, s: &Vec<char>, at: usize) -> (r: usize)
    requires
        s@ == content@,
        at <= s@.len(),
    ensures
        r == offset_at(content@, at as int),
        text::char_boundary(content@, r as nat),
{
    let size: usize = text::byte_len(content);
    proof {
        text::lemma_char_boundary(content@, at as int);
    }
    text::offset_of(s, at)
}

/// Where the caret goes to the left: before the selection, else before the character before it.
pub fn left(content: &str, selection: Option<Range<usize>>, cursor: usize) -> (r: usize)
    requires
        php::boundary(content@, cursor as nat),
    ensures
        match selection {
            Some(selected) => r == selected.start,
            None => r == (if char_at(content@, cursor) > 0 {
                offset_at(content@, char_at(content@, cursor) - 1)
            } else {
                0
            }),
        },
{
    match selection {
        Some(selected) => selected.start,
        None => {
            let s = text::chars_of(content);
            let (at, _) = text::fit(&s, cursor);
            if at > 0 {
                offset_in(content, &s, at - 1)
            } else {
                0
            }
        },
    }
}

/// Where the caret goes to the right: behind the selection, else behind the character behind it.
pub fn right(content: &str, selection: Option<Range<usize>>, cursor: usize) -> (r: usize)
    requires
        php::boundary(content@, cursor as nat),
    ensures
        match selection {
            Some(selected) => r == selected.end,
            None => r == (if char_at(content@, cursor) < content@.len() {
                offset_at(content@, char_at(content@, cursor) + 1)
            } else {
                text::utf8_len(content@)
            }),
        },
{
    match selection {
        Some(selected) => selected.end,
        None => {
            let s = text::chars_of(content);
            let n: usize = s.len();
            let (at, _) = text::fit(&s, cursor);
            if at < n {
                offset_in(content, &s, at + 1)
            } else {
                text::byte_len(content)
            }
        },
    }
}

/// Where the line that holds the caret begins.
pub fn home(content: &str, cursor: usize) -> (r: usize)
    requires
        php::boundary(content@, cursor as nat),
    ensures
        r == offset_at(content@, edit::line_start(content@, char_at(content@, cursor))),
{
    let s = text::chars_of(content);
    let (at, _) = text::fit(&s, cursor);
    let start: usize = edit::start_of_line(&s, at);
    offset_in(content, &s, start)
}

/// Where the line that holds the caret ends, before its line break.
pub fn end(content: &str, cursor: usize) -> (r: usize)
    requires
        php::boundary(content@, cursor as nat),
    ensures
        r == offset_at(content@, edit::line_stop(content@, char_at(content@, cursor))),
{
    let s = text::chars_of(content);
    let (at, _) = text::fit(&s, cursor);
    let stop: usize = edit::end_of_text(&s, at);
    offset_in(content, &s, stop)
}

/// The caret goes from the end of a line to its start and from the start to the end: neither leaves
/// the line.
pub proof fn law_home_and_end_keep_the_line(s: Seq<char>, at: int)
    requires
        0 <= at <= s.len(),
    ensures
        0 <= edit::line_start(s, at) <= at <= edit::line_stop(s, at) <= s.len(),
        edit::line_start(s, edit::line_stop(s, at)) == edit::line_start(s, at),
        edit::line_stop(s, edit::line_start(s, at)) == edit::line_stop(s, at),
{
    lemma_line_start(s, at);
    text::lemma_char_from(s, '\n', at);
    let stop = edit::line_stop(s, at);
    assert forall|k: int| at <= k < stop implies s[k] != '\n' by {}
    lemma_start_moves(s, at, stop);
    let start = edit::line_start(s, at);
    text::lemma_char_from(s, '\n', start);
}

proof fn lemma_line_start(s: Seq<char>, at: int)
    requires
        0 <= at <= s.len(),
    ensures
        0 <= edit::line_start(s, at) <= at,
        forall|k: int| edit::line_start(s, at) <= k < at ==> s[k] != '\n',
    decreases at,
{
    if at > 0 && s[at - 1] != '\n' {
        lemma_line_start(s, at - 1);
    }
}

proof fn lemma_start_moves(s: Seq<char>, at: int, to: int)
    requires
        0 <= at <= to <= s.len(),
        forall|k: int| at <= k < to ==> s[k] != '\n',
    ensures
        edit::line_start(s, to) == edit::line_start(s, at),
    decreases to - at,
{
    if at < to {
        lemma_start_moves(s, at, to - 1);
    }
}

/// What the tab key does.
#[derive(Clone, Copy, Debug, PartialEq, Eq, Structural)]
pub enum TabAction {
    AcceptCompletion,
    IndentSelection,
    InsertSpaces,
}

/// What the tab key does: it takes the completion that is offered, else indents what is selected.
pub fn tab(completions_offered: bool, selected: bool) -> (r: TabAction)
    ensures
        r == (if completions_offered {
            TabAction::AcceptCompletion
        } else if selected {
            TabAction::IndentSelection
        } else {
            TabAction::InsertSpaces
        }),
{
    if completions_offered {
        TabAction::AcceptCompletion
    } else if selected {
        TabAction::IndentSelection
    } else {
        TabAction::InsertSpaces
    }
}

/// What the input method works on.
#[derive(Clone, Copy, Debug, PartialEq, Eq, Structural)]
pub enum InputTarget {
    FindLine,
    ReplaceLine,
    Document,
}

/// What the input method works on: a line of the search where it is open and in use.
pub fn input_target(find_visible: bool, find_focused: bool, replace_focused: bool) -> (r: InputTarget)
    ensures
        r == (if find_visible && find_focused {
            InputTarget::FindLine
        } else if find_visible && replace_focused {
            InputTarget::ReplaceLine
        } else {
            InputTarget::Document
        }),
{
    if find_visible && find_focused {
        InputTarget::FindLine
    } else if find_visible && replace_focused {
        InputTarget::ReplaceLine
    } else {
        InputTarget::Document
    }
}

/// A selection in UTF-16 units, and whether its caret is at its start.
#[derive(Debug, PartialEq, Eq)]
pub struct Utf16Selection {
    pub range: Range<usize>,
    pub reversed: bool,
}

/// The number of UTF-16 units before a byte offset.
pub open spec fn units_before(s: Seq<char>, offset: usize) -> nat {
    utf16::utf16_len(s.take(char_at(s, offset)))
}

/// The selection of a line.
pub fn selected_text_range(line: &TextInput) -> (r: Utf16Selection)
    requires
        line.wf(),
    ensures
        r.range.start == units_before(line.query@, line.first()),
        r.range.end == units_before(line.query@, line.last()),
        r.reversed == (line.selection_active < line.selection_anchor),
{
    Utf16Selection {
        range: utf16::byte_range_to_utf16(&line.query, line.selection()),
        reversed: line.selection_active < line.selection_anchor,
    }
}

/// The text on a range of UTF-16 units.
pub open spec fn text_between(s: Seq<char>, range: Range<usize>) -> Seq<char> {
    s.subrange(
        utf16::place_from(s, range.start as nat, 0),
        utf16::place_from(s, range.end as nat, 0),
    )
}

proof fn lemma_place(s: Seq<char>, offset: nat, from: int)
    requires
        0 <= from <= s.len(),
    ensures
        from <= utf16::place_from(s, offset, from) <= s.len(),
    decreases s.len() - from,
{
    if from < s.len() && utf16::utf16_len(s.take(from)) < offset {
        lemma_place(s, offset, from + 1);
    }
}

proof fn lemma_place_order(s: Seq<char>, first: nat, last: nat, from: int)
    requires
        0 <= from <= s.len(),
        first <= last,
    ensures
        utf16::place_from(s, first, from) <= utf16::place_from(s, last, from),
    decreases s.len() - from,
{
    if from < s.len() && utf16::utf16_len(s.take(from)) < last {
        if utf16::utf16_len(s.take(from)) < first {
            lemma_place_order(s, first, last, from + 1);
        } else {
            lemma_place(s, last, from + 1);
        }
    }
}

/// The text of a line or a document on a range of UTF-16 units.
pub fn text_for_range(content: &str, range: Range<usize>) -> (r: String)
    requires
        range.start <= range.end,
    ensures
        r@ == text_between(content@, range),
{
    let s = text::chars_of(content);
    let first: usize = utf16::utf16_offset_to_byte(content, range.start);
    let last: usize = utf16::utf16_offset_to_byte(content, range.end);
    let (from, _) = text::fit(&s, first);
    let (to, _) = text::fit(&s, last);
    proof {
        lemma_place(content@, range.start as nat, 0);
        lemma_place(content@, range.end as nat, 0);
        lemma_place_order(content@, range.start as nat, range.end as nat, 0);
        text::lemma_char_boundary(content@, utf16::place_from(content@, range.start as nat, 0));
        text::lemma_char_boundary(content@, utf16::place_from(content@, range.end as nat, 0));
    }
    text::string_of(&s, from, to)
}

/// Puts a text in the place of a range of UTF-16 units of a line, or of its selection. Gives whether
/// the line changed.
pub fn replace_in_line(line: &mut TextInput, range: Option<Range<usize>>, written: &str) -> (r: bool)
    requires
        old(line).wf(),
        text::utf8_len(old(line).query@) + text::utf8_len(written@) <= usize::MAX,
    ensures
        final(line).wf(),
        ({
            let selected = selected_as(*old(line), range);
            &&& final(line).query@ == selected.replaced(written@)
            &&& final(line).selection_active == selected.first() + text::utf8_len(written@)
            &&& final(line).selection_anchor == final(line).selection_active
            &&& r == (old(line).query@ != selected.replaced(written@))
        }),
{
    if let Some(range) = range {
        line.selection_anchor = utf16::utf16_offset_to_byte(&line.query, range.start);
        line.selection_active = utf16::utf16_offset_to_byte(&line.query, range.end);
    }
    assert(*line == selected_as(*old(line), range));
    assert(line.first() <= text::utf8_len(line.query@)) by {
        let s = line.query@;
        text::lemma_fitting(s, line.selection_anchor as int);
        text::lemma_take_len(s, char_at(s, line.selection_anchor));
    }
    line.replace_selection(written)
}

/// A line whose selection is a range of UTF-16 units, where one is given.
pub open spec fn selected_as(line: TextInput, range: Option<Range<usize>>) -> TextInput {
    match range {
        Some(range) => TextInput {
            query: line.query,
            selection_anchor: offset_at(
                line.query@,
                utf16::place_from(line.query@, range.start as nat, 0),
            ) as usize,
            selection_active: offset_at(
                line.query@,
                utf16::place_from(line.query@, range.end as nat, 0),
            ) as usize,
        },
        None => line,
    }
}

/// The range of a document that is written over: the one that is given in UTF-16 units, else the one
/// that is marked, else the selection.
pub fn written_range(
    content: &str,
    range: Option<Range<usize>>,
    marked: Option<Range<usize>>,
    selected: Range<usize>,
) -> (r: Range<usize>)
    ensures
        match (range, marked) {
            (Some(range), _) => {
                &&& r.start == offset_at(
                    content@,
                    utf16::place_from(content@, range.start as nat, 0),
                )
                &&& r.end == offset_at(content@, utf16::place_from(content@, range.end as nat, 0))
            },
            (None, Some(marked)) => r == marked,
            (None, None) => r == selected,
        },
{
    match range {
        Some(range) => utf16::range_from_utf16(content, &range),
        None => match marked {
            Some(marked) => marked,
            None => selected,
        },
    }
}

/// The range that stays marked when a text was written from an offset on: the text, where it is not
/// empty.
pub fn marked_range(start: usize, written: &str) -> (r: Option<Range<usize>>)
    requires
        start + text::utf8_len(written@) <= usize::MAX,
    ensures
        if written@.len() == 0 {
            r is None
        } else {
            r is Some && r->0.start == start && r->0.end == start + text::utf8_len(written@)
        },
{
    let width: usize = text::byte_len(written);
    proof {
        text::lemma_utf8_len(written@);
    }
    if width == 0 {
        None
    } else {
        Some(Range { start, end: start + width })
    }
}

/// The marked range in UTF-16 units; none while a line of a search is written.
pub fn marked_text_range(content: &str, target: InputTarget, marked: Option<Range<usize>>) -> (r:
    Option<Range<usize>>)
    requires
        marked is Some ==> php::boundary(content@, marked->0.start as nat) && php::boundary(
            content@,
            marked->0.end as nat,
        ),
    ensures
        match marked {
            Some(marked) if !(target is FindLine) => {
                &&& r is Some
                &&& r->0.start == units_before(content@, marked.start)
                &&& r->0.end == units_before(content@, marked.end)
            },
            _ => r is None,
        },
{
    match target {
        InputTarget::FindLine => None,
        _ => match marked {
            Some(marked) => Some(utf16::byte_range_to_utf16(content, marked)),
            None => None,
        },
    }
}

} // verus!
