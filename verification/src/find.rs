//! Finding and replacing in a document, and the line of text that what is looked for is typed in.

use std::ops::Range;

use vstd::prelude::*;
use vstd::slice::slice_subrange;
use vstd::string::*;

use crate::interaction;
use crate::provider;
use crate::text;

verus! {

/// A line of text with a selection, by the byte offsets where it began and where the caret is.
#[derive(Debug, PartialEq, Eq)]
pub struct TextInput {
    pub query: String,
    pub selection_anchor: usize,
    pub selection_active: usize,
}

/// The lesser of two offsets.
pub open spec fn lesser(a: usize, b: usize) -> usize {
    if a <= b {
        a
    } else {
        b
    }
}

/// The greater of two offsets.
pub open spec fn greater(a: usize, b: usize) -> usize {
    if a <= b {
        b
    } else {
        a
    }
}

/// Whether a line has a text in the place of its selection, the caret behind it; `changed` where
/// that makes it another line.
pub open spec fn overwritten(
    before: TextInput,
    by: Seq<char>,
    after: TextInput,
    changed: bool,
) -> bool {
    &&& after.query@ == before.replaced(by)
    &&& after.selection_anchor == before.first() + text::utf8_len(by)
    &&& after.selection_active == after.selection_anchor
    &&& changed == (before.query@ != before.replaced(by))
}

/// Whether a line lost its selection, else the character before the caret, if there is one.
pub open spec fn deleted_before(before: TextInput, after: TextInput, changed: bool) -> bool {
    let s = before.query@;
    let at = text::fitting(s, before.selection_active as int) as int;
    &&& changed == (before.first() < before.last() || at > 0)
    &&& after.selection_anchor == after.selection_active
    &&& if before.first() < before.last() {
        after.query@ == before.replaced(Seq::empty()) && after.selection_active == before.first()
    } else if at > 0 {
        after.query@ == s.take(at - 1) + s.skip(at) && after.selection_active == text::utf8_len(
            s.take(at - 1),
        )
    } else {
        after == before
    }
}

/// Whether a line lost its selection, else the character behind the caret, if there is one.
pub open spec fn deleted_behind(before: TextInput, after: TextInput, changed: bool) -> bool {
    let s = before.query@;
    let at = text::fitting(s, before.selection_active as int) as int;
    &&& changed == (before.first() < before.last() || at < s.len())
    &&& after.selection_anchor == after.selection_active
    &&& if before.first() < before.last() {
        after.query@ == before.replaced(Seq::empty()) && after.selection_active == before.first()
    } else if at < s.len() {
        after.query@ == s.take(at) + s.skip(at + 1) && after.selection_active
            == before.selection_active
    } else {
        after == before
    }
}

/// Whether the caret of a line went before its selection, else before the character before it.
pub open spec fn moved_left(before: TextInput, after: TextInput) -> bool {
    let s = before.query@;
    let at = text::fitting(s, before.selection_active as int) as int;
    &&& after.query == before.query
    &&& after.selection_anchor == after.selection_active
    &&& after.selection_active == (if before.first() < before.last() {
        before.first() as nat
    } else if at > 0 {
        text::utf8_len(s.take(at - 1))
    } else {
        before.selection_active as nat
    })
}

/// Whether the caret of a line went behind its selection, else behind the character behind it.
pub open spec fn moved_right(before: TextInput, after: TextInput) -> bool {
    let s = before.query@;
    let at = text::fitting(s, before.selection_active as int) as int;
    &&& after.query == before.query
    &&& after.selection_anchor == after.selection_active
    &&& after.selection_active == (if before.first() < before.last() {
        before.last() as nat
    } else if at < s.len() {
        text::utf8_len(s.take(at + 1))
    } else {
        before.selection_active as nat
    })
}

/// Whether all of a line is selected.
pub open spec fn all_selected(before: TextInput, after: TextInput) -> bool {
    &&& after.query == before.query
    &&& after.selection_anchor == 0
    &&& after.selection_active == text::utf8_len(before.query@)
}

/// Whether the selection of a line was taken out of it, if there is one.
pub open spec fn cut_out(before: TextInput, after: TextInput, taken: Option<Seq<char>>) -> bool {
    if before.first() < before.last() {
        &&& taken == Some(
            before.query@.subrange(
                text::fitting(before.query@, before.first() as int) as int,
                text::fitting(before.query@, before.last() as int) as int,
            ),
        )
        &&& after.query@ == before.replaced(Seq::empty())
        &&& after.selection_active == before.first()
        &&& after.selection_anchor == before.first()
    } else {
        taken is None && after == before
    }
}

impl TextInput {
    /// Where the selection begins.
    pub open spec fn first(&self) -> usize {
        lesser(self.selection_anchor, self.selection_active)
    }

    /// Where the selection ends.
    pub open spec fn last(&self) -> usize {
        greater(self.selection_anchor, self.selection_active)
    }

    /// Whether the selection lies between characters of the line.
    pub open spec fn wf(&self) -> bool {
        text::char_boundary(self.query@, self.selection_anchor as nat) && text::char_boundary(
            self.query@,
            self.selection_active as nat,
        )
    }

    /// The line without its selection, and a text in its place.
    pub open spec fn replaced(&self, by: Seq<char>) -> Seq<char> {
        self.query@.take(text::fitting(self.query@, self.first() as int) as int) + by
            + self.query@.skip(text::fitting(self.query@, self.last() as int) as int)
    }

    /// An empty line.
    pub fn new() -> (r: Self)
        ensures
            r.query@.len() == 0,
            r.selection_anchor == 0,
            r.selection_active == 0,
            r.wf(),
    {
        let query = String::from_str("");
        proof {
            reveal_strlit("");
            text::lemma_char_boundary(query@, 0);
            assert(query@.take(0) =~= Seq::<char>::empty());
        }
        TextInput { query, selection_anchor: 0, selection_active: 0 }
    }

    /// The selection, from its first to its last byte.
    pub fn selection(&self) -> (r: Range<usize>)
        ensures
            r.start == self.first(),
            r.end == self.last(),
    {
        if self.selection_anchor <= self.selection_active {
            Range { start: self.selection_anchor, end: self.selection_active }
        } else {
            Range { start: self.selection_active, end: self.selection_anchor }
        }
    }

    /// Selects the whole line.
    pub fn select_all(&mut self)
        ensures
            final(self).wf(),
            all_selected(*old(self), *final(self)),
    {
        self.selection_anchor = 0;
        self.selection_active = text::byte_len(&self.query);
        proof {
            let s = self.query@;
            text::lemma_char_boundary(s, 0);
            text::lemma_char_boundary(s, s.len() as int);
            assert(s.take(0) =~= Seq::<char>::empty());
            assert(s.take(s.len() as int) =~= s);
        }
    }

    /// Puts the caret somewhere; nothing is selected.
    pub fn set_caret(&mut self, caret: usize)
        ensures
            final(self).query == old(self).query,
            final(self).selection_anchor == caret,
            final(self).selection_active == caret,
    {
        self.selection_anchor = caret;
        self.selection_active = caret;
    }

    /// Replaces the selection by a text and puts the caret behind it. Gives whether the line
    /// changed.
    pub fn replace_selection(&mut self, by: &str) -> (r: bool)
        requires
            old(self).wf(),
            old(self).first() + text::utf8_len(by@) <= usize::MAX,
        ensures
            final(self).wf(),
            overwritten(*old(self), by@, *final(self), r),
    {
        let s = text::chars_of(&self.query);
        let n: usize = s.len();
        let range = self.selection();
        let (from, _) = text::fit(&s, range.start);
        let (to, _) = text::fit(&s, range.end);
        let mut out: Vec<char> = Vec::new();
        let head = slice_subrange(&s, 0, from);
        assert(head@ =~= s@.take(from as int));
        out.extend_from_slice(head);
        text::put(&mut out, by);
        let ghost start = out@;
        let tail = slice_subrange(&s, to, n);
        assert(tail@ =~= s@.skip(to as int));
        out.extend_from_slice(tail);
        assert(out@ =~= self.replaced(by@));
        let changed = !text::same(&s, &out);
        let caret: usize = range.start + text::byte_len(by);
        self.query = text::to_string(&out);
        self.selection_anchor = caret;
        self.selection_active = caret;
        proof {
            assert(start =~= s@.take(from as int) + by@);
            text::lemma_utf8_len_add(s@.take(from as int), by@);
            assert(self.query@.take(start.len() as int) =~= start);
            text::lemma_char_boundary(self.query@, start.len() as int);
        }
        changed
    }

    /// Deletes the selection, else the character before the caret. Gives whether the line changed.
    pub fn backspace(&mut self) -> (r: bool)
        requires
            old(self).wf(),
        ensures
            final(self).wf(),
            deleted_before(*old(self), *final(self), r),
    {
        proof {
            reveal_strlit("");
            assert(""@ =~= Seq::<char>::empty());
            lemma_shorter(*self);
        }
        if self.selection_anchor != self.selection_active {
            return self.replace_selection("");
        }
        let s = text::chars_of(&self.query);
        let size: usize = text::byte_len(&self.query);
        let (at, _) = text::fit(&s, self.selection_active);
        if at == 0 {
            return false;
        }
        let previous: usize = text::offset_of(&s, at - 1);
        proof {
            text::lemma_char_boundary(s@, at - 1);
            assert(s@.take(at as int).drop_last() =~= s@.take(at - 1));
        }
        self.selection_anchor = previous;
        proof {
            assert(self.replaced(Seq::empty()) =~= s@.take(at - 1) + s@.skip(at as int));
            lemma_shorter(*self);
        }
        self.replace_selection("")
    }

    /// Deletes the selection, else the character behind the caret. Gives whether the line changed.
    pub fn delete(&mut self) -> (r: bool)
        requires
            old(self).wf(),
        ensures
            final(self).wf(),
            deleted_behind(*old(self), *final(self), r),
    {
        proof {
            reveal_strlit("");
            assert(""@ =~= Seq::<char>::empty());
            lemma_shorter(*self);
        }
        if self.selection_anchor != self.selection_active {
            return self.replace_selection("");
        }
        let s = text::chars_of(&self.query);
        let n: usize = s.len();
        let size: usize = text::byte_len(&self.query);
        let (at, _) = text::fit(&s, self.selection_active);
        if at >= n {
            return false;
        }
        let next: usize = text::offset_of(&s, at + 1);
        proof {
            text::lemma_char_boundary(s@, at + 1);
            assert(s@.take(at + 1).drop_last() =~= s@.take(at as int));
        }
        self.selection_active = next;
        proof {
            assert(self.replaced(Seq::empty()) =~= s@.take(at as int) + s@.skip(at + 1));
            lemma_shorter(*self);
        }
        self.replace_selection("")
    }

    /// Moves the caret before the character that it stands behind, or to the start of the
    /// selection.
    pub fn move_left(&mut self)
        requires
            old(self).wf(),
        ensures
            final(self).wf(),
            moved_left(*old(self), *final(self)),
    {
        let range = self.selection();
        if range.start < range.end {
            self.set_caret(range.start);
            return ;
        }
        let s = text::chars_of(&self.query);
        let size: usize = text::byte_len(&self.query);
        let (at, _) = text::fit(&s, self.selection_active);
        if at > 0 {
            proof {
                text::lemma_char_boundary(s@, at - 1);
            }
            self.set_caret(text::offset_of(&s, at - 1));
        }
    }

    /// Moves the caret behind the character that it stands before, or to the end of the selection.
    pub fn move_right(&mut self)
        requires
            old(self).wf(),
        ensures
            final(self).wf(),
            moved_right(*old(self), *final(self)),
    {
        let range = self.selection();
        if range.start < range.end {
            self.set_caret(range.end);
            return ;
        }
        let s = text::chars_of(&self.query);
        let n: usize = s.len();
        let size: usize = text::byte_len(&self.query);
        let (at, _) = text::fit(&s, self.selection_active);
        if at < n {
            proof {
                text::lemma_char_boundary(s@, at + 1);
            }
            self.set_caret(text::offset_of(&s, at + 1));
        }
    }

    /// Selects the word around a byte offset.
    pub fn select_word_at(&mut self, offset: usize)
        ensures
            final(self).query == old(self).query,
            final(self).wf(),
            ({
                let (from, to) = interaction::word_around(old(self).query@, offset as nat);
                &&& final(self).selection_anchor == text::utf8_len(old(self).query@.take(from))
                &&& final(self).selection_active == text::utf8_len(old(self).query@.take(to))
            }),
    {
        proof {
            let s = self.query@;
            let at = text::fitting(s, offset as int) as int;
            text::lemma_fitting(s, offset as int);
            interaction::lemma_word(s, at);
            text::lemma_char_boundary(s, interaction::word_start(s, at));
            text::lemma_char_boundary(s, interaction::word_end(s, at));
        }
        let range = interaction::word_range_at(&self.query, offset);
        self.selection_anchor = range.start;
        self.selection_active = range.end;
    }

    /// Takes the selection out of the line; nothing where nothing is selected.
    pub fn cut_selection(&mut self) -> (r: Option<String>)
        requires
            old(self).wf(),
        ensures
            final(self).wf(),
            cut_out(*old(self), *final(self), provider::optional_text(r)),
    {
        let range = self.selection();
        if range.start >= range.end {
            return None;
        }
        let s = text::chars_of(&self.query);
        let (from, _) = text::fit(&s, range.start);
        let (to, _) = text::fit(&s, range.end);
        proof {
            reveal_strlit("");
            assert(""@ =~= Seq::<char>::empty());
            lemma_shorter(*self);
            text::lemma_fitting(self.query@, range.start as int);
            text::lemma_fitting(self.query@, range.end as int);
        }
        let taken = text::string_of(&s, from, to);
        let _ = self.replace_selection("");
        Some(taken)
    }
}

/// The selection of a line lies within it.
pub proof fn lemma_selection_within(input: TextInput)
    requires
        input.wf(),
    ensures
        input.first() <= input.last() <= text::utf8_len(input.query@),
{
    let s = input.query@;
    let anchor = text::fitting(s, input.selection_anchor as int) as int;
    let active = text::fitting(s, input.selection_active as int) as int;
    text::lemma_fitting(s, input.selection_anchor as int);
    text::lemma_fitting(s, input.selection_active as int);
    text::lemma_take_len(s, anchor);
    text::lemma_take_len(s, active);
}

/// Dropping a selection that is not empty makes a line shorter.
proof fn lemma_shorter(input: TextInput)
    requires
        input.wf(),
    ensures
        input.first() <= input.last() <= usize::MAX,
        text::utf8_len(Seq::<char>::empty()) == 0,
        input.first() < input.last() ==> input.replaced(Seq::empty()) != input.query@,
        text::fitting(input.query@, input.first() as int) <= text::fitting(
            input.query@,
            input.last() as int,
        ) <= input.query@.len(),
{
    let s = input.query@;
    let from = text::fitting(s, input.first() as int) as int;
    let to = text::fitting(s, input.last() as int) as int;
    text::lemma_fitting(s, input.first() as int);
    text::lemma_fitting(s, input.last() as int);
    if input.first() < input.last() {
        if from == to {
            assert(text::utf8_len(s.take(from)) == text::utf8_len(s.take(to)));
        }
        assert(from < to);
        assert(input.replaced(Seq::empty()).len() == from + (s.len() - to));
    }
}

impl TextInput {
    /// A click at a place of the line: the second of two selects the word there, one with shift
    /// lets the selection reach there, any other puts the caret there.
    pub fn click_at(&mut self, offset: usize, click_count: usize, shift: bool)
        requires
            old(self).wf(),
            text::char_boundary(old(self).query@, offset as nat),
        ensures
            final(self).query == old(self).query,
            final(self).wf(),
            if click_count == 2 {
                let (from, to) = interaction::word_around(old(self).query@, offset as nat);
                &&& final(self).selection_anchor == text::utf8_len(old(self).query@.take(from))
                &&& final(self).selection_active == text::utf8_len(old(self).query@.take(to))
            } else if shift {
                &&& final(self).selection_anchor == old(self).selection_anchor
                &&& final(self).selection_active == offset
            } else {
                &&& final(self).selection_anchor == offset
                &&& final(self).selection_active == offset
            },
    {
        if click_count == 2 {
            self.select_word_at(offset);
        } else if shift {
            self.selection_active = offset;
        } else {
            self.set_caret(offset);
        }
    }
}


/// What is looked for in a document, where it stands, and which of those places is current.
#[derive(Debug, PartialEq, Eq)]
pub struct FindState {
    pub visible: bool,
    pub replace_expanded: bool,
    pub input: TextInput,
    pub matches: Vec<Range<usize>>,
    pub current: Option<usize>,
}

/// Where a text stands in another, by byte offsets.
pub open spec fn places(s: Seq<char>, query: Seq<char>) -> Seq<(int, int)> {
    text::occurrences(s, query, 0).map_values(
        |i: int|
            (
                text::utf8_len(s.take(i)) as int,
                text::utf8_len(s.take(i)) as int + text::utf8_len(query) as int,
            ),
    )
}

/// The places of some ranges.
pub open spec fn range_views(ranges: Seq<Range<usize>>) -> Seq<(int, int)> {
    ranges.map_values(|r: Range<usize>| (r.start as int, r.end as int))
}

impl FindState {
    /// Whether the current place is one of those that were found.
    pub open spec fn wf(&self) -> bool {
        self.current is Some ==> self.current->0 < self.matches@.len()
    }

    /// Nothing looked for.
    pub fn new() -> (r: Self)
        ensures
            r.wf(),
            !r.visible,
            !r.replace_expanded,
            r.input.query@.len() == 0,
            r.input.selection_anchor == 0,
            r.input.selection_active == 0,
            r.input.wf(),
            r.matches@.len() == 0,
            r.current is None,
    {
        FindState {
            visible: false,
            replace_expanded: false,
            input: TextInput::new(),
            matches: Vec::new(),
            current: None,
        }
    }

    /// Opens the search. One that is open already has its line selected; else what is selected in
    /// the document is looked for, where it is on one line.
    pub fn open(&mut self, editor_selection: Option<&str>)
        ensures
            final(self).visible,
            old(self).input.wf() ==> final(self).input.wf(),
            final(self).matches == old(self).matches,
            final(self).current == old(self).current,
            final(self).replace_expanded == old(self).replace_expanded,
            match editor_selection {
                Some(selected) => if !old(self).visible && !selected@.contains('\n')
                    && !selected@.contains('\r') {
                    &&& final(self).input.query@ == selected@
                    &&& final(self).input.selection_anchor == 0
                    &&& final(self).input.selection_active == text::utf8_len(selected@)
                } else {
                    final(self).opened_unchanged(*old(self))
                },
                None => final(self).opened_unchanged(*old(self)),
            },
    {
        if self.visible {
            self.input.select_all();
        } else if let Some(selected) = editor_selection {
            let chars = text::chars_of(selected);
            if !text::holds(&chars, '\n') && !text::holds(&chars, '\r') {
                self.input.query = String::from_str(selected);
                self.input.select_all();
            }
        }
        self.visible = true;
    }

    /// Whether the line is as it was, all of it selected where the search was open already.
    pub open spec fn opened_unchanged(&self, before: FindState) -> bool {
        &&& self.input.query == before.input.query
        &&& if before.visible {
            self.input.selection_anchor == 0 && self.input.selection_active == text::utf8_len(
                before.input.query@,
            )
        } else {
            self.input == before.input
        }
    }

    /// Looks for the line in a document anew; the first place is current.
    pub fn refresh(&mut self, source: &str)
        ensures
            final(self).wf(),
            range_views(final(self).matches@) == places(source@, old(self).input.query@),
            final(self).current == (if places(source@, old(self).input.query@).len() > 0 {
                Some(0usize)
            } else {
                None
            }),
            final(self).visible == old(self).visible,
            final(self).replace_expanded == old(self).replace_expanded,
            final(self).input == old(self).input,
    {
        let s = text::chars_of(source);
        let size: usize = text::byte_len(source);
        let query = text::chars_of(&self.input.query);
        let width: usize = text::byte_len(&self.input.query);
        let found = text::find_all(&s, &query);
        let ghost all = text::numbers(found@);
        let mut matches: Vec<Range<usize>> = Vec::new();
        let mut i: usize = 0;
        proof {
            text::lemma_occurrences(s@, query@, 0);
        }
        while i < found.len()
            invariant
                i <= found@.len(),
                size == text::utf8_len(s@),
                width == text::utf8_len(query@),
                all == text::numbers(found@),
                forall|k: int|
                    0 <= k < all.len() ==> text::occurs_at(s@, query@, #[trigger] all[k]),
                matches@.len() == i,
                forall|k: int|
                    0 <= k < i ==> (#[trigger] matches@[k]).start == text::utf8_len(
                        s@.take(all[k]),
                    ) && matches@[k].end == text::utf8_len(s@.take(all[k])) + width,
            decreases found@.len() - i,
        {
            let at: usize = found[i];
            assert(all[i as int] == at as int);
            let start: usize = text::offset_of(&s, at);
            proof {
                let end = at + query@.len();
                assert(s@.take(end) =~= s@.take(at as int) + query@);
                text::lemma_utf8_len_add(s@.take(at as int), query@);
                text::lemma_take_len(s@, end);
            }
            matches.push(Range { start, end: start + width });
            i += 1;
        }
        assert(range_views(matches@) =~= places(source@, self.input.query@));
        self.current = if matches.len() > 0 {
            Some(0)
        } else {
            None
        };
        self.matches = matches;
    }

    /// Shows or hides the line of what replaces. Gives whether the line of the search has to take
    /// over from it.
    pub fn toggle_replace(&mut self, replace_focused: bool) -> (r: bool)
        ensures
            final(self).replace_expanded == !old(self).replace_expanded,
            final(self).visible == old(self).visible,
            final(self).input == old(self).input,
            final(self).matches == old(self).matches,
            final(self).current == old(self).current,
            r == (old(self).replace_expanded && replace_focused),
    {
        self.replace_expanded = !self.replace_expanded;
        !self.replace_expanded && replace_focused
    }

    /// Goes to the next place, behind the last one to the first.
    pub fn next(&mut self) -> (r: Option<Range<usize>>)
        requires
            old(self).wf(),
        ensures
            final(self).wf(),
            final(self).matches == old(self).matches,
            final(self).input == old(self).input,
            final(self).visible == old(self).visible,
            final(self).replace_expanded == old(self).replace_expanded,
            match old(self).current {
                Some(current) => {
                    let next = next_of(current as int, old(self).matches@.len() as int);
                    &&& final(self).current is Some
                    &&& final(self).current->0 == next
                    &&& r is Some
                    &&& r->0 == old(self).matches@[next]
                },
                None => final(self).current is None && r is None,
            },
    {
        let n: usize = self.matches.len();
        match self.current {
            Some(current) => {
                let next: usize = if current + 1 < n {
                    current + 1
                } else {
                    0
                };
                self.current = Some(next);
                Some(Range { start: self.matches[next].start, end: self.matches[next].end })
            },
            None => None,
        }
    }

    /// Goes to the place before, before the first one to the last.
    pub fn previous(&mut self) -> (r: Option<Range<usize>>)
        requires
            old(self).wf(),
        ensures
            final(self).wf(),
            final(self).matches == old(self).matches,
            final(self).input == old(self).input,
            final(self).visible == old(self).visible,
            final(self).replace_expanded == old(self).replace_expanded,
            match old(self).current {
                Some(current) => {
                    let previous = previous_of(current as int, old(self).matches@.len() as int);
                    &&& final(self).current is Some
                    &&& final(self).current->0 == previous
                    &&& r is Some
                    &&& r->0 == old(self).matches@[previous]
                },
                None => final(self).current is None && r is None,
            },
    {
        let n: usize = self.matches.len();
        match self.current {
            Some(current) => {
                let previous: usize = if current > 0 {
                    current - 1
                } else {
                    n - 1
                };
                self.current = Some(previous);
                Some(
                    Range { start: self.matches[previous].start, end: self.matches[previous].end },
                )
            },
            None => None,
        }
    }

    /// The current place.
    pub fn current_match(&self) -> (r: Option<Range<usize>>)
        requires
            self.wf(),
        ensures
            match self.current {
                Some(current) => r is Some && r->0 == self.matches@[current as int],
                None => r is None,
            },
    {
        match self.current {
            Some(current) => Some(
                Range { start: self.matches[current].start, end: self.matches[current].end },
            ),
            None => None,
        }
    }

    /// Makes the first place that begins at or behind an offset current, else the first of all;
    /// nothing is where there are none.
    pub fn select_behind(&mut self, offset: usize) -> (r: Option<Range<usize>>)
        requires
            old(self).wf(),
        ensures
            final(self).wf(),
            final(self).matches == old(self).matches,
            final(self).input == old(self).input,
            final(self).visible == old(self).visible,
            final(self).replace_expanded == old(self).replace_expanded,
            if old(self).matches@.len() == 0 {
                final(self).current == old(self).current && r is None
            } else {
                let next = first_behind(old(self).matches@, offset, 0);
                &&& final(self).current == Some(next as usize)
                &&& r is Some
                &&& r->0 == old(self).matches@[next]
            },
    {
        let n: usize = self.matches.len();
        if n == 0 {
            return None;
        }
        let mut i: usize = 0;
        while i < n && self.matches[i].start < offset
            invariant
                i <= n == self.matches@.len(),
                *self == *old(self),
                first_behind(self.matches@, offset, 0) == first_behind(
                    self.matches@,
                    offset,
                    i as int,
                ),
            decreases n - i,
        {
            i += 1;
        }
        let next: usize = if i < n {
            i
        } else {
            0
        };
        self.current = Some(next);
        Some(Range { start: self.matches[next].start, end: self.matches[next].end })
    }
}

/// A document in which a place that was found is replaced, and the place that is selected then.
#[derive(Debug, PartialEq, Eq)]
pub struct Replaced {
    pub document: String,
    pub selected: Option<Range<usize>>,
}

/// The number of the place that is current in a search, begun anew where it is stale.
pub open spec fn current_in(state: FindState, source: Seq<char>, stale: bool) -> Option<usize> {
    if !stale {
        state.current
    } else if places(source, state.input.query@).len() > 0 {
        Some(0usize)
    } else {
        None
    }
}

/// A document in which the `k`th place of a text holds another text instead.
pub open spec fn replaced_at(
    source: Seq<char>,
    query: Seq<char>,
    k: int,
    replacement: Seq<char>,
) -> Seq<char> {
    let at = text::occurrences(source, query, 0)[k];
    source.take(at) + replacement + source.skip(at + query.len())
}

impl FindState {
    /// Whether the places are those of a document.
    pub open spec fn of(&self, source: Seq<char>) -> bool {
        range_views(self.matches@) == places(source, self.input.query@)
    }

    /// Replaces the current place, where the search is open and in use: the next place behind what
    /// was put in becomes current. A stale search is begun anew first.
    pub fn find_replace(&mut self, source: &str, replacement: &str, focused: bool, stale: bool) -> (r:
        Option<Replaced>)
        requires
            old(self).wf(),
            !stale ==> old(self).of(source@),
        ensures
            final(self).wf(),
            final(self).visible == old(self).visible,
            final(self).replace_expanded == old(self).replace_expanded,
            final(self).input == old(self).input,
            if !old(self).visible || !focused {
                *final(self) == *old(self) && r is None
            } else {
                match current_in(*old(self), source@, stale) {
                    None => final(self).of(source@) && final(self).current is None && r is None,
                    Some(k) => {
                        let query = old(self).input.query@;
                        let document = replaced_at(source@, query, k as int, replacement@);
                        let behind = places(source@, query)[k as int].0 + text::utf8_len(
                            replacement@,
                        );
                        &&& r is Some
                        &&& (r->0).document@ == document
                        &&& final(self).of(document)
                        &&& if places(document, query).len() == 0 {
                            final(self).current is None && (r->0).selected is None
                        } else {
                            let next = first_behind(final(self).matches@, behind as usize, 0);
                            &&& behind <= usize::MAX
                            &&& final(self).current == Some(next as usize)
                            &&& (r->0).selected == Some(final(self).matches@[next])
                        }
                    },
                }
            },
    {
        if !self.visible || !focused {
            return None;
        }
        if stale {
            self.refresh(source);
        }
        let k: usize = match self.current {
            Some(k) => k,
            None => {
                return None;
            },
        };
        let s = text::chars_of(source);
        let query = text::chars_of(&self.input.query);
        let whole: usize = text::byte_len(source);
        let count: usize = s.len();
        let width: usize = text::byte_len(replacement);
        let found = text::find_all(&s, &query);
        let ghost all = text::occurrences(source@, query@, 0);
        proof {
            text::lemma_occurrences(source@, query@, 0);
            assert(range_views(self.matches@).len() == self.matches@.len());
            assert(text::numbers(found@)[k as int] == all[k as int]);
            assert(text::occurs_at(source@, query@, all[k as int]));
        }
        let at: usize = found[k];
        let end: usize = at + query.len();
        let mut document = text::string_of(&s, 0, at);
        document.append(replacement);
        let tail = text::string_of(&s, end, count);
        document.append(&tail);
        assert(document@ =~= replaced_at(source@, query@, k as int, replacement@));
        let start: usize = text::offset_of(&s, at);
        let size: usize = text::byte_len(&document);
        proof {
            let head = source@.take(at as int);
            assert(document@ =~= (head + replacement@) + source@.skip(end as int));
            text::lemma_utf8_len_add(head + replacement@, source@.skip(end as int));
            text::lemma_utf8_len_add(head, replacement@);
            assert(places(source@, query@)[k as int].0 == start);
        }
        self.refresh(&document);
        let selected = self.select_behind(start + width);
        Some(Replaced { document, selected })
    }

    /// Replaces every place, where the search is open and in use and there is one. A stale search
    /// is begun anew first; the places of the new document are found, and its first one is current.
    pub fn find_replace_all(
        &mut self,
        source: &str,
        replacement: &str,
        focused: bool,
        stale: bool,
    ) -> (r: Option<String>)
        requires
            old(self).wf(),
            !stale ==> old(self).of(source@),
        ensures
            final(self).wf(),
            final(self).visible == old(self).visible,
            final(self).replace_expanded == old(self).replace_expanded,
            final(self).input == old(self).input,
            if !old(self).visible || !focused {
                *final(self) == *old(self) && r is None
            } else {
                let query = old(self).input.query@;
                if places(source@, query).len() == 0 {
                    &&& final(self).of(source@)
                    &&& r is None
                } else {
                    let document = text::replace_all(source@, query, replacement@);
                    &&& r is Some
                    &&& (r->0)@ == document
                    &&& final(self).of(document)
                    &&& final(self).current == (if places(document, query).len() > 0 {
                        Some(0usize)
                    } else {
                        None
                    })
                }
            },
    {
        if !self.visible || !focused {
            return None;
        }
        if stale {
            self.refresh(source);
        }
        assert(range_views(self.matches@).len() == self.matches@.len());
        if self.matches.len() == 0 {
            return None;
        }
        assert(self.input.query@.len() > 0) by {
            assert(places(source@, self.input.query@).len() > 0);
        }
        let document = replace_all_text(source, &self.input.query, replacement);
        self.refresh(&document);
        Some(document)
    }
}

/// The number behind one of `n`, the first behind the last.
pub open spec fn next_of(current: int, n: int) -> int {
    if current + 1 < n {
        current + 1
    } else {
        0
    }
}

/// The number before one of `n`, the last before the first.
pub open spec fn previous_of(current: int, n: int) -> int {
    if current > 0 {
        current - 1
    } else {
        n - 1
    }
}

/// The first range, from an index on, that begins at or behind an offset; the first of all where
/// none does.
pub open spec fn first_behind(ranges: Seq<Range<usize>>, offset: usize, from: int) -> int
    decreases ranges.len() - from,
{
    if from >= ranges.len() {
        0
    } else if ranges[from].start >= offset {
        from
    } else {
        first_behind(ranges, offset, from + 1)
    }
}

/// Going on and back, or back and on, leads to where one was.
pub proof fn law_next_and_previous_undo_each_other(current: int, n: int)
    requires
        0 <= current < n,
    ensures
        previous_of(next_of(current, n), n) == current,
        next_of(previous_of(current, n), n) == current,
{
}

/// A document whose places of a text hold another text instead.
pub fn replace_all_text(source: &str, query: &str, replacement: &str) -> (r: String)
    requires
        query@.len() > 0,
    ensures
        r@ == text::replace_all(source@, query@, replacement@),
{
    text::to_string(&text::replaced(&text::chars_of(source), query, replacement))
}

/// Each place that is found lies behind the one before, and holds what is looked for.
pub proof fn law_found_places_hold_the_query(s: Seq<char>, query: Seq<char>, k: int)
    requires
        0 <= k < places(s, query).len(),
    ensures
        exists|i: int|
            text::occurs_at(s, query, i) && places(s, query)[k].0 == text::utf8_len(
                #[trigger] s.take(i),
            ) && places(s, query)[k].1 == text::utf8_len(s.take(i)) + text::utf8_len(query),
        k + 1 < places(s, query).len() ==> places(s, query)[k].1 <= places(s, query)[k + 1].0,
{
    text::lemma_occurrences(s, query, 0);
    let all = text::occurrences(s, query, 0);
    let i = all[k];
    assert(text::occurs_at(s, query, i));
    assert(places(s, query)[k].0 == text::utf8_len(s.take(i)));
    if k + 1 < all.len() {
        let j = all[k + 1];
        let end = i + query.len();
        assert(end <= j);
        assert(s.take(end) =~= s.take(i) + query);
        text::lemma_utf8_len_add(s.take(i), query);
        assert(text::occurs_at(s, query, j));
        assert(s.take(j) =~= s.take(end) + s.subrange(end, j));
        text::lemma_utf8_len_add(s.take(end), s.subrange(end, j));
    }
}

} // verus!
