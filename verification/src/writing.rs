//! What writing, deleting and moving do to a line, shifting to a selection, and a search to a document.

use std::ops::Range;

use vstd::prelude::*;
use vstd::string::*;

use crate::bar;
use crate::edit;
use crate::find;
use crate::find::TextInput;
use crate::input;
use crate::pointer::Placement;
use crate::session::EditorSession;
use crate::symbols::SymbolIndex;
use crate::text;
use crate::utf16;

verus! {

/// Whether a line is made up of what stands before its selection, the selection and what stands
/// behind it.
pub open spec fn parted(line: TextInput, left: Seq<char>, chosen: Seq<char>, right: Seq<char>) -> bool {
    &&& line.query@ == left + chosen + right
    &&& line.first() == text::utf8_len(left)
    &&& line.last() == text::utf8_len(left + chosen)
}

proof fn lemma_parted(line: TextInput, left: Seq<char>, chosen: Seq<char>, right: Seq<char>)
    requires
        parted(line, left, chosen, right),
    ensures
        text::fitting(line.query@, line.first() as int) == left.len(),
        text::fitting(line.query@, line.last() as int) == left.len() + chosen.len(),
        line.query@.take(left.len() as int) == left,
        line.query@.skip((left.len() + chosen.len()) as int) == right,
        line.first() < line.last() <==> chosen.len() > 0,
        chosen.len() == 0 ==> line.selection_active == text::utf8_len(left) && chosen
            == Seq::<char>::empty() && left + chosen == left,
{
    let s = line.query@;
    let n = left.len() as int;
    let m = (left.len() + chosen.len()) as int;
    text::lemma_char_boundary(s, n);
    text::lemma_char_boundary(s, m);
    assert(s.take(n) =~= left);
    assert(s.take(m) =~= left + chosen);
    assert(s.skip(m) =~= right);
    text::lemma_utf8_len_add(left, chosen);
    text::lemma_utf8_len(chosen);
    if chosen.len() == 0 {
        assert(chosen =~= Seq::<char>::empty());
        assert(left + chosen =~= left);
    }
}

/// What is written into a line takes the place of its selection, and the caret stands behind it.
pub proof fn law_writing_replaces_the_selection(
    before: TextInput,
    after: TextInput,
    left: Seq<char>,
    chosen: Seq<char>,
    right: Seq<char>,
    by: Seq<char>,
    changed: bool,
)
    requires
        parted(before, left, chosen, right),
        find::overwritten(before, by, after, changed),
    ensures
        after.query@ == left + by + right,
        after.selection_active == text::utf8_len(left + by),
        after.selection_anchor == after.selection_active,
        changed <==> by != chosen,
{
    lemma_parted(before, left, chosen, right);
    text::lemma_utf8_len_add(left, by);
    if left + by + right == left + chosen + right {
        let whole = left + by + right;
        assert(by.len() == chosen.len());
        assert(by =~= whole.subrange(left.len() as int, (left.len() + by.len()) as int));
        assert(chosen =~= whole.subrange(left.len() as int, (left.len() + by.len()) as int));
    }
}

/// Deleting takes away the selection of a line; where there is none, the one character before the
/// caret, or behind it. The caret stands where that was.
pub proof fn law_deleting_takes_one_thing_away(
    before: TextInput,
    after: TextInput,
    left: Seq<char>,
    chosen: Seq<char>,
    right: Seq<char>,
    changed: bool,
)
    requires
        parted(before, left, chosen, right),
    ensures
        find::deleted_before(before, after, changed) ==> if chosen.len() > 0 {
            changed && after.query@ == left + right && after.selection_active == text::utf8_len(
                left,
            )
        } else if left.len() > 0 {
            changed && after.query@ == left.drop_last() + right && after.selection_active
                == text::utf8_len(left.drop_last())
        } else {
            !changed && after == before
        },
        find::deleted_behind(before, after, changed) ==> if chosen.len() > 0 {
            changed && after.query@ == left + right && after.selection_active == text::utf8_len(
                left,
            )
        } else if right.len() > 0 {
            changed && after.query@ == left + right.skip(1) && after.selection_active
                == text::utf8_len(left)
        } else {
            !changed && after == before
        },
{
    lemma_parted(before, left, chosen, right);
    let s = before.query@;
    let none = Seq::<char>::empty();
    assert(left + none + right =~= left + right);
    if chosen.len() == 0 {
        assert(s =~= left + right);
        if left.len() > 0 {
            assert(s.take(left.len() - 1) =~= left.drop_last());
            assert(s.skip(left.len() as int) =~= right);
        }
        if right.len() > 0 {
            assert(s.skip(left.len() as int + 1) =~= right.skip(1));
        }
    }
}

/// Moving goes to the side of the selection of a line; where there is none, by one character, as far
/// as there is one. Cutting takes out exactly the selection.
pub proof fn law_moving_goes_by_one_character(
    before: TextInput,
    after: TextInput,
    left: Seq<char>,
    chosen: Seq<char>,
    right: Seq<char>,
    taken: Option<Seq<char>>,
)
    requires
        parted(before, left, chosen, right),
    ensures
        find::moved_left(before, after) ==> after.query == before.query && after.selection_active
            == (if chosen.len() > 0 || left.len() == 0 {
            text::utf8_len(left)
        } else {
            text::utf8_len(left.drop_last())
        }),
        find::moved_right(before, after) ==> after.query == before.query && after.selection_active
            == (if chosen.len() > 0 || right.len() == 0 {
            text::utf8_len(left + chosen)
        } else {
            text::utf8_len(left.push(right[0]))
        }),
        find::cut_out(before, after, taken) ==> if chosen.len() > 0 {
            taken == Some(chosen) && after.query@ == left + right && after.selection_active
                == text::utf8_len(left)
        } else {
            taken is None && after == before
        },
{
    lemma_parted(before, left, chosen, right);
    let s = before.query@;
    let none = Seq::<char>::empty();
    assert(left + none + right =~= left + right);
    assert(s.subrange(left.len() as int, (left.len() + chosen.len()) as int) =~= chosen);
    if chosen.len() == 0 {
        assert(s =~= left + right);
        if left.len() > 0 {
            assert(s.take(left.len() - 1) =~= left.drop_last());
        }
        if right.len() > 0 {
            assert(s.take(left.len() as int + 1) =~= left.push(right[0]));
        }
    }
}

/// Whether a selection touches exactly some whole lines of a document: it begins in the first of them
/// and ends in the last, or right behind its end.
pub open spec fn touches(
    head: Seq<char>,
    lines: Seq<char>,
    behind: Seq<char>,
    from: int,
    to: int,
) -> bool {
    let s = head + lines + behind;
    let end = head.len() + lines.len();
    let last = if to > from && s[to - 1] == '\n' {
        to - 1
    } else {
        to
    };
    &&& head.len() > 0 ==> head.last() == '\n'
    &&& lines.len() > 0
    &&& lines.last() == '\n' || behind.len() == 0
    &&& head.len() <= from <= to <= end
    &&& forall|k: int| head.len() <= k < from ==> #[trigger] s[k] != '\n'
    &&& last < end
    &&& forall|k: int| last <= k < end - 1 ==> #[trigger] s[k] != '\n'
}

/// Shifting a selection replaces the whole lines that it touches by the same lines shifted, and leaves
/// everything else alone; it does nothing where that changes nothing.
pub proof fn law_touched_lines_are_shifted(
    head: Seq<char>,
    lines: Seq<char>,
    behind: Seq<char>,
    from: int,
    to: int,
    indent: bool,
)
    requires
        touches(head, lines, behind, from, to),
    ensures
        ({
            let s = head + lines + behind;
            let shifted = edit::shifted(
                s,
                head.len() as int,
                (head.len() + lines.len()) as int,
                indent,
            );
            match edit::shift_edit(s, from, to, indent) {
                Some(edit) => {
                    &&& edit.start == text::utf8_len(head) as usize
                    &&& edit.end == text::utf8_len(head + lines) as usize
                    &&& edit.new_text == shifted
                    &&& shifted != lines
                },
                None => shifted == lines,
            }
        }),
{
    let s = head + lines + behind;
    let end = (head.len() + lines.len()) as int;
    let last = if to > from && s[to - 1] == '\n' {
        to - 1
    } else {
        to
    };
    lemma_start(s, head.len() as int, from);
    if head.len() > 0 {
        assert(s[head.len() - 1] == head.last());
    }
    lemma_stop(s, last, end);
    assert(s[end - 1] == lines.last());
    assert(s.subrange(head.len() as int, end) =~= lines);
    assert(s.take(head.len() as int) =~= head);
    assert(s.take(end) =~= head + lines);
}

proof fn lemma_start(s: Seq<char>, start: int, at: int)
    requires
        0 <= start <= at <= s.len(),
        start > 0 ==> s[start - 1] == '\n',
        forall|k: int| start <= k < at ==> #[trigger] s[k] != '\n',
    ensures
        edit::line_start(s, at) == start,
    decreases at,
{
    if at > start {
        assert(s[at - 1] != '\n');
        lemma_start(s, start, at - 1);
    }
}

proof fn lemma_stop(s: Seq<char>, at: int, end: int)
    requires
        0 <= at < end <= s.len(),
        s[end - 1] == '\n' || end == s.len(),
        forall|k: int| at <= k < end - 1 ==> #[trigger] s[k] != '\n',
    ensures
        edit::line_stop(s, at) == (if s[end - 1] == '\n' {
            end - 1
        } else {
            end
        }),
{
    text::lemma_char_from(s, '\n', at);
    match text::char_from(s, '\n', at) {
        Some(i) => {
            if i < end - 1 {
                assert(s[i] != '\n');
            }
        },
        None => {},
    }
}

/// A dash that is typed behind `$this` in a class becomes an arrow; one that is typed behind white
/// space, or at the start, stays a dash.
pub proof fn law_dashes_become_arrows<S: SymbolIndex>(
    index: &S,
    left: Seq<char>,
    behind: Seq<char>,
    at: int,
)
    requires
        left.len() > 0 ==> {
            let c = left.last();
            !text::alphanumeric(c) && c != '_' && c != '\\' && c != '$'
        },
        forall|k: int| 1 <= k < 5 ==> text::alphanumeric(#[trigger] "$this"@[k]),
    ensures
        text::contains_text(left, "class "@) ==> edit::dash_expands(
            index,
            left + "$this"@ + behind,
            left.len() as int + 5,
        ),
        !text::contains_text(left, "class "@) ==> !edit::dash_expands(
            index,
            left + "$this"@ + behind,
            left.len() as int + 5,
        ),
        0 <= at <= left.len() && (at == 0 || text::whitespace(left[at - 1])) ==> !edit::dash_expands(
            index,
            left,
            at,
        ),
{
    reveal_strlit("$this");
    let content = left + "$this"@ + behind;
    let n = left.len() as int + 5;
    let before = content.take(n);
    assert(before =~= left + "$this"@);
    assert(before.last() == 's');
    lemma_this(left, 5);
    assert(before.skip(left.len() as int) =~= "$this"@);
    assert(before.take(left.len() as int) =~= left);
}

proof fn lemma_this(left: Seq<char>, k: int)
    requires
        0 <= k <= 5,
        left.len() > 0 ==> {
            let c = left.last();
            !text::alphanumeric(c) && c != '_' && c != '\\' && c != '$'
        },
        forall|i: int| 1 <= i < 5 ==> text::alphanumeric(#[trigger] "$this"@[i]),
        "$this"@.len() == 5,
        "$this"@[0] == '$',
    ensures
        edit::name_start(left + "$this"@, left.len() + k) == left.len(),
    decreases k,
{
    let s = left + "$this"@;
    if k > 0 {
        assert(s[left.len() + k - 1] == "$this"@[k - 1]);
        lemma_this(left, k - 1);
    } else if left.len() > 0 {
        assert(s[left.len() - 1] == left.last());
    }
}

/// The text on a range of UTF-16 units is what stands between as many units.
pub proof fn law_ranges_hold_their_text(
    left: Seq<char>,
    mid: Seq<char>,
    right: Seq<char>,
    range: Range<usize>,
)
    requires
        range.start == utf16::utf16_len(left),
        range.end == utf16::utf16_len(left + mid),
    ensures
        input::text_between(left + mid + right, range) == mid,
{
    let s = left + mid + right;
    let n = left.len() as int;
    let m = (left.len() + mid.len()) as int;
    assert(s.take(n) =~= left);
    assert(s.take(m) =~= left + mid);
    utf16::law_places_are_found_again(s, n);
    utf16::law_places_are_found_again(s, m);
    assert(s.subrange(n, m) =~= mid);
}

/// Once another line is looked for, all its places in the document are found, and the first of them is
/// selected, where there is one.
pub proof fn law_searches_select_the_first_place(
    before: EditorSession,
    line: TextInput,
    source: Seq<char>,
    revision: u64,
    after: EditorSession,
    selected: Option<Placement>,
)
    requires
        bar::looked_for(before, line, true, source, revision, after, selected),
    ensures
        ({
            let places = find::places(source, line.query@);
            &&& after.find.input == line
            &&& after.find_revision == revision
            &&& after.find.matches@.len() == places.len()
            &&& forall|k: int|
                0 <= k < places.len() ==> (#[trigger] after.find.matches@[k]).start == places[k].0
                    && after.find.matches@[k].end == places[k].1
            &&& places.len() == 0 ==> selected is None && after.find.current is None
            &&& places.len() > 0 ==> after.find.current == Some(0usize) && selected == Some(
                Placement::Selection {
                    anchor: after.find.matches@[0].start,
                    active: after.find.matches@[0].end,
                },
            )
        }),
{
    let places = find::places(source, line.query@);
    let seen = find::range_views(after.find.matches@);
    assert(seen == places);
    assert forall|k: int| 0 <= k < places.len() implies (#[trigger] after.find.matches@[k]).start
        == places[k].0 && after.find.matches@[k].end == places[k].1 by {
        assert(seen[k] == places[k]);
    }
}

} // verus!
