//! What typing does to a document, and what a search in it finds and replaces.

use std::ops::Range;

use vstd::prelude::*;
use vstd::string::*;

use crate::edit;
use crate::edit::Typed;
use crate::find;
use crate::imports;
use crate::text;

verus! {

/// Whether a text is white space alone.
pub open spec fn blank(s: Seq<char>) -> bool {
    forall|k: int| 0 <= k < s.len() ==> text::whitespace(#[trigger] s[k])
}

/// Whether a document is made up of whole lines, a line, and what follows it.
pub open spec fn line_between(before: Seq<char>, line: Seq<char>, behind: Seq<char>) -> bool {
    &&& before.len() > 0 ==> before.last() == '\n'
    &&& forall|k: int| 0 <= k < line.len() ==> #[trigger] line[k] != '\n'
    &&& behind.len() > 0 ==> behind[0] == '\n'
}

/// Whether a line is made up of its indentation, what it says, and white space.
pub open spec fn line_of(line: Seq<char>, indent: Seq<char>, body: Seq<char>, trail: Seq<char>) -> bool {
    &&& line == indent + body + trail
    &&& blank(indent)
    &&& blank(trail)
    &&& body.len() > 0
    &&& !text::whitespace(body[0])
    &&& !text::whitespace(body.last())
}

proof fn lemma_line_start(before: Seq<char>, line: Seq<char>, behind: Seq<char>, k: int)
    requires
        line_between(before, line, behind),
        0 <= k <= line.len(),
    ensures
        edit::line_start(before + line + behind, before.len() + k) == before.len(),
    decreases k,
{
    let s = before + line + behind;
    if k > 0 {
        assert(s[before.len() + k - 1] == line[k - 1]);
        lemma_line_start(before, line, behind, k - 1);
    } else if before.len() > 0 {
        assert(s[before.len() - 1] == before.last());
    }
}

proof fn lemma_line_stop(before: Seq<char>, line: Seq<char>, behind: Seq<char>, k: int)
    requires
        line_between(before, line, behind),
        0 <= k <= line.len(),
    ensures
        edit::line_stop(before + line + behind, before.len() + k) == before.len() + line.len(),
    decreases line.len() - k,
{
    let s = before + line + behind;
    text::lemma_char_from(s, '\n', before.len() + k);
    if k < line.len() {
        assert(s[before.len() + k] == line[k]);
        lemma_line_stop(before, line, behind, k + 1);
    } else if behind.len() > 0 {
        assert(s[(before.len() + line.len()) as int] == behind[0]);
    }
}

proof fn lemma_indent(indent: Seq<char>, rest: Seq<char>)
    requires
        blank(indent),
        rest.len() > 0 ==> !text::whitespace(rest[0]),
    ensures
        edit::indent_of(indent + rest) == indent,
    decreases indent.len(),
{
    let s = indent + rest;
    lemma_indent_len(indent, rest);
    assert(s.take(indent.len() as int) =~= indent);
}

proof fn lemma_indent_len(indent: Seq<char>, rest: Seq<char>)
    requires
        blank(indent),
        rest.len() > 0 ==> !text::whitespace(rest[0]),
    ensures
        edit::indent_len(indent + rest) == indent.len(),
    decreases indent.len(),
{
    let s = indent + rest;
    if indent.len() > 0 {
        assert(s[0] == indent[0]);
        assert(s.skip(1) =~= indent.skip(1) + rest);
        assert forall|k: int| 0 <= k < indent.skip(1).len() implies text::whitespace(
            #[trigger] indent.skip(1)[k],
        ) by {
            assert(indent.skip(1)[k] == indent[k + 1]);
        }
        lemma_indent_len(indent.skip(1), rest);
    } else {
        assert(s =~= rest);
    }
}

pub proof fn lemma_trim_end(body: Seq<char>, trail: Seq<char>)
    requires
        blank(trail),
        body.len() > 0 ==> !text::whitespace(body.last()),
    ensures
        text::trim_end(body + trail) == body,
    decreases trail.len(),
{
    let s = body + trail;
    if trail.len() > 0 {
        assert(s.last() == trail[trail.len() - 1]);
        assert(s.drop_last() =~= body + trail.drop_last());
        assert forall|k: int| 0 <= k < trail.drop_last().len() implies text::whitespace(
            #[trigger] trail.drop_last()[k],
        ) by {
            assert(trail.drop_last()[k] == trail[k]);
        }
        lemma_trim_end(body, trail.drop_last());
    } else {
        assert(s =~= body);
    }
}

proof fn lemma_trim_blank(s: Seq<char>)
    requires
        blank(s),
    ensures
        text::trim(s).len() == 0,
    decreases s.len(),
{
    if s.len() > 0 {
        assert(text::whitespace(s[0]));
        assert forall|k: int| 0 <= k < s.skip(1).len() implies text::whitespace(
            #[trigger] s.skip(1)[k],
        ) by {
            assert(s.skip(1)[k] == s[k + 1]);
        }
        lemma_trim_blank(s.skip(1));
    }
}

proof fn lemma_line_at(before: Seq<char>, line: Seq<char>, behind: Seq<char>, k: int)
    requires
        line_between(before, line, behind),
        0 <= k <= line.len(),
    ensures
        edit::line_at(before + line + behind, before.len() + k) == line + behind.take(
            if behind.len() > 0 {
                1
            } else {
                0
            },
        ),
        edit::without_eol(edit::line_at(before + line + behind, before.len() + k)) == line,
{
    let s = before + line + behind;
    lemma_line_start(before, line, behind, k);
    lemma_line_stop(before, line, behind, k);
    let end: int = if behind.len() > 0 {
        1
    } else {
        0
    };
    assert(edit::line_at(s, before.len() + k) =~= line + behind.take(end));
    if behind.len() > 0 {
        assert((line + behind.take(end)).drop_last() =~= line);
    } else {
        assert(line + behind.take(end) =~= line);
        if line.len() > 0 {
            assert(line[line.len() - 1] != '\n');
        }
    }
}

/// A line break in a line puts in a line feed and the indentation of the line, four spaces deeper where
/// the line ends with an opening bracket. Between an opening brace or bracket and the one that closes
/// it, it puts in one deeper line, where the caret stays, and one line as deep as before.
pub proof fn law_new_lines_are_indented(
    before: Seq<char>,
    line: Seq<char>,
    behind: Seq<char>,
    indent: Seq<char>,
    body: Seq<char>,
    trail: Seq<char>,
    k: int,
)
    requires
        line_between(before, line, behind),
        line_of(line, indent, body, trail),
        0 <= k <= line.len(),
    ensures
        ({
            let s = before + line + behind;
            let at = before.len() + k;
            let (put, back) = edit::line_break(s, at);
            let enclosed = 0 < at < s.len() && ((s[at - 1] == '{' && s[at] == '}') || (s[at - 1]
                == '[' && s[at] == ']'));
            let last = body.last();
            if enclosed {
                &&& put == "\n"@ + indent + "    \n"@ + indent
                &&& back == text::utf8_len(indent) + 1
            } else {
                &&& back == 0
                &&& put == (if last == '{' || last == '(' || last == '[' {
                    "\n"@ + indent + "    "@
                } else {
                    "\n"@ + indent
                })
            }
        }),
{
    let s = before + line + behind;
    let at = before.len() + k;
    lemma_line_at(before, line, behind, k);
    let end = behind.take(
        if behind.len() > 0 {
            1
        } else {
            0
        },
    );
    let rest = body + trail;
    assert(line =~= indent + rest);
    assert(line + end =~= indent + (rest + end));
    lemma_indent(indent, rest);
    lemma_indent(indent, rest + end);
    assert(line =~= (indent + body) + trail);
    assert((indent + body).last() == body.last());
    lemma_trim_end(indent + body, trail);
    reveal_strlit("{");
    reveal_strlit("(");
    reveal_strlit("[");
    reveal_strlit("    ");
    reveal_strlit("    \n");
    reveal_strlit("\n");
    let trimmed = indent + body;
    assert(text::ends_with(trimmed, "{"@) == (trimmed.last() == '{')) by {
        lemma_ends_with_one(trimmed, "{"@);
    }
    assert(text::ends_with(trimmed, "("@) == (trimmed.last() == '(')) by {
        lemma_ends_with_one(trimmed, "("@);
    }
    assert(text::ends_with(trimmed, "["@) == (trimmed.last() == '[')) by {
        lemma_ends_with_one(trimmed, "["@);
    }
    assert("    "@ + "\n"@ =~= "    \n"@);
    assert("\n"@ + indent + "    "@ + "\n"@ + indent =~= "\n"@ + indent + ("    "@ + "\n"@) + indent);
    assert("\n"@ + (indent + "    "@) =~= "\n"@ + indent + "    "@);
}

pub proof fn lemma_ends_with_one(s: Seq<char>, one: Seq<char>)
    requires
        one.len() == 1,
        s.len() > 0,
    ensures
        text::ends_with(s, one) == (s.last() == one[0]),
{
    let last = s.subrange(s.len() - 1, s.len() as int);
    assert(last[0] == s.last());
    if s.last() == one[0] {
        assert(last =~= one);
    }
}

/// Typing what opens a bracket or a quote puts in what closes it too; typing what closes a bracket
/// before one that stands there already steps over it; anything else is put in as it is.
pub proof fn law_typing_keeps_brackets_closed(content: Seq<char>, at: int, written: Seq<char>)
    requires
        0 <= at <= content.len(),
    ensures
        ({
            let one = written.len() == 1;
            let c = written[0];
            let closes = one && (c == '}' || c == ']' || c == ')');
            let stepped = closes && at < content.len() && content[at] == c;
            &&& edit::typed(content, at, seq!['{']) == Typed::InsertPair('}')
            &&& edit::typed(content, at, seq!['[']) == Typed::InsertPair(']')
            &&& edit::typed(content, at, seq!['(']) == Typed::InsertPair(')')
            &&& edit::typed(content, at, seq!['"']) == Typed::InsertPair('"')
            &&& edit::typed(content, at, seq!['\'']) == Typed::InsertPair('\'')
            &&& stepped ==> edit::typed(content, at, written) == Typed::StepOver
            &&& !stepped && !(one && (c == '{' || c == '[' || c == '(' || c == '"' || c == '\''))
                ==> edit::typed(content, at, written) == Typed::Insert
        }),
{
    let behind = content.skip(at);
    if written.len() == 1 {
        if at < content.len() {
            assert(behind.subrange(0, 1)[0] == content[at]);
            if content[at] == written[0] {
                assert(behind.subrange(0, 1) =~= written);
            }
        }
    }
}

/// Deleting backwards takes both of a pair away exactly where typing the first of them would have put
/// in the second.
pub proof fn law_deleting_undoes_pairs(content: Seq<char>, at: int)
    requires
        0 < at < content.len(),
    ensures
        edit::within_pair(content, at) <==> edit::typed(content, at, seq![content[at - 1]])
            == Typed::InsertPair(content[at]),
{
}

/// A semicolon completes the statement on a line at the end of the line, where only white space
/// stands behind the caret and the line does not end with what ends a statement already; elsewhere
/// none is put in.
pub proof fn law_statements_are_completed(
    before: Seq<char>,
    line: Seq<char>,
    behind: Seq<char>,
    indent: Seq<char>,
    body: Seq<char>,
    trail: Seq<char>,
    k: int,
)
    requires
        line_between(before, line, behind),
        line_of(line, indent, body, trail),
        0 <= k <= line.len(),
    ensures
        ({
            let place = edit::semicolon_place(before + line + behind, before.len() + k);
            let last = body.last();
            let complete = last == ';' || last == '{' || last == '}' || last == ':' || last == ',';
            if blank(line.skip(k)) && !complete {
                place == Some((before.len() + line.len()) as int)
            } else {
                place is None
            }
        }),
{
    let s = before + line + behind;
    let at = before.len() + k;
    lemma_line_start(before, line, behind, k);
    lemma_line_stop(before, line, behind, k);
    let stop = (before.len() + line.len()) as int;
    assert(s.subrange(before.len() as int, stop) =~= line);
    assert(s.subrange(at, stop) =~= line.skip(k));
    assert(line =~= (indent + body) + trail);
    assert((indent + body).last() == body.last());
    lemma_trim_end(indent + body, trail);
    let rest = line.skip(k);
    if blank(rest) {
        lemma_trim_blank(rest);
    } else {
        lemma_not_blank(rest);
    }
}

proof fn lemma_not_blank(s: Seq<char>)
    requires
        !blank(s),
    ensures
        text::trim(s).len() > 0,
    decreases s.len(),
{
    let i = choose|i: int| 0 <= i < s.len() && !text::whitespace(#[trigger] s[i]);
    if text::whitespace(s[0]) {
        assert(s.skip(1)[i - 1] == s[i]);
        lemma_not_blank(s.skip(1));
    } else {
        lemma_trim_end_keeps(s, 0);
    }
}

proof fn lemma_trim_end_keeps(s: Seq<char>, i: int)
    requires
        0 <= i < s.len(),
        !text::whitespace(s[i]),
    ensures
        text::trim_end(s).len() > i,
    decreases s.len(),
{
    if text::whitespace(s.last()) {
        assert(s.drop_last()[i] == s[i]);
        lemma_trim_end_keeps(s.drop_last(), i);
    }
}

/// Shifting lines in puts four spaces before each of them; shifting them out takes away the spaces at
/// the start of each, but no more than four. The first line is shifted by itself, and the others
/// behind it.
pub proof fn law_lines_are_shifted_one_by_one(
    head: Seq<char>,
    line: Seq<char>,
    more: Seq<char>,
    behind: Seq<char>,
    n: nat,
    rest: Seq<char>,
)
    requires
        line.len() > 0,
        line.last() == '\n',
        forall|k: int| 0 <= k < line.len() - 1 ==> #[trigger] line[k] != '\n',
        line == Seq::new(n, |i: int| ' ') + rest,
        rest.len() > 0,
        rest[0] != ' ',
    ensures
        ({
            let s = head + line + more + behind;
            let at = head.len() as int;
            let mid = (head.len() + line.len()) as int;
            let to = (head.len() + line.len() + more.len()) as int;
            let left = if n > 4 {
                (n - 4) as nat
            } else {
                0
            };
            &&& edit::shifted(s, at, to, true) == "    "@ + line + edit::shifted(s, mid, to, true)
            &&& edit::shifted(s, at, to, false) == Seq::new(left, |i: int| ' ') + rest
                + edit::shifted(s, mid, to, false)
        }),
{
    let s = head + line + more + behind;
    let at = head.len() as int;
    let mid = (head.len() + line.len()) as int;
    let to = (head.len() + line.len() + more.len()) as int;
    lemma_line_end(head, line, more + behind, 0);
    assert(s =~= head + line + (more + behind));
    assert(s.subrange(at, mid) =~= line);
    let left = if n > 4 {
        (n - 4) as nat
    } else {
        0
    };
    lemma_outdent(n, rest, 4);
    let taken: int = if n > 4 {
        4
    } else {
        n as int
    };
    assert(line.skip(taken) =~= Seq::new(left, |i: int| ' ') + rest);
}

proof fn lemma_outdent(n: nat, rest: Seq<char>, most: nat)
    requires
        rest.len() > 0,
        rest[0] != ' ',
    ensures
        edit::outdent_len(Seq::new(n, |i: int| ' ') + rest, most) == (if n > most {
            most
        } else {
            n
        }),
    decreases most,
{
    let line = Seq::new(n, |i: int| ' ') + rest;
    if most > 0 && n > 0 {
        assert(line[0] == ' ');
        assert(line.skip(1) =~= Seq::new((n - 1) as nat, |i: int| ' ') + rest);
        lemma_outdent((n - 1) as nat, rest, (most - 1) as nat);
    } else if n == 0 {
        assert(line =~= rest);
    }
}

proof fn lemma_line_end(head: Seq<char>, line: Seq<char>, behind: Seq<char>, k: int)
    requires
        line.len() > 0,
        line.last() == '\n',
        forall|j: int| 0 <= j < line.len() - 1 ==> #[trigger] line[j] != '\n',
        0 <= k < line.len(),
    ensures
        imports::line_end(head + line + behind, head.len() + k) == head.len() + line.len(),
    decreases line.len() - k,
{
    let s = head + line + behind;
    text::lemma_char_from(s, '\n', head.len() + k);
    assert(s[head.len() + k] == line[k]);
    if k < line.len() - 1 {
        lemma_line_end(head, line, behind, k + 1);
    }
}

/// Whether a text stands at an index of another, and nowhere before that from an index on.
pub open spec fn stands_first(s: Seq<char>, query: Seq<char>, from: int, at: int) -> bool {
    &&& 0 <= from <= at
    &&& at + query.len() <= s.len()
    &&& s.subrange(at, at + query.len()) == query
    &&& forall|k: int| from <= k < at ==> #[trigger] s.subrange(k, k + query.len()) != query
}

/// Whether a text stands nowhere in another from an index on.
pub open spec fn stands_nowhere(s: Seq<char>, query: Seq<char>, from: int) -> bool {
    forall|k: int|
        from <= k <= s.len() - query.len() ==> #[trigger] s.subrange(k, k + query.len()) != query
}

proof fn lemma_first(s: Seq<char>, query: Seq<char>, from: int, at: int)
    requires
        stands_first(s, query, from, at),
    ensures
        text::find_from(s, query, from) == Some(at),
{
    text::lemma_find(s, query, from);
    assert(text::occurs_at(s, query, at));
    let found = text::find_from(s, query, from)->0;
    if found < at {
        assert(s.subrange(found, found + query.len()) == query);
    }
}

proof fn lemma_nowhere(s: Seq<char>, query: Seq<char>, from: int)
    requires
        0 <= from,
        stands_nowhere(s, query, from),
    ensures
        text::find_from(s, query, from) is None,
{
    text::lemma_find(s, query, from);
    if text::find_from(s, query, from) is Some {
        let found = text::find_from(s, query, from)->0;
        assert(text::occurs_at(s, query, found));
        assert(s.subrange(found, found + query.len()) == query);
    }
}

/// A search finds the first place of a text, and then every other behind it; it finds nothing where
/// there is none.
pub proof fn law_every_place_is_found(s: Seq<char>, query: Seq<char>, from: int, at: int)
    requires
        query.len() > 0,
        0 <= from,
    ensures
        stands_first(s, query, from, at) ==> text::occurrences(s, query, from) == seq![at]
            + text::occurrences(s, query, at + query.len()),
        stands_nowhere(s, query, from) ==> text::occurrences(s, query, from).len() == 0,
        find::places(s, query).len() == text::occurrences(s, query, 0).len(),
        forall|k: int|
            0 <= k < find::places(s, query).len() ==> #[trigger] find::places(s, query)[k] == (
                text::utf8_len(s.take(text::occurrences(s, query, 0)[k])) as int,
                text::utf8_len(s.take(text::occurrences(s, query, 0)[k])) as int + text::utf8_len(
                    query,
                ) as int,
            ),
{
    if stands_first(s, query, from, at) {
        lemma_first(s, query, from, at);
    }
    if stands_nowhere(s, query, from) {
        lemma_nowhere(s, query, from);
    }
}

/// Replacing every place of a text leaves everything between the places as it is: what stands before
/// the first one, then the replacement, then what becomes of the rest; and all of it where there is
/// no place.
pub proof fn law_replacing_leaves_the_rest(
    s: Seq<char>,
    query: Seq<char>,
    replacement: Seq<char>,
    at: int,
)
    requires
        query.len() > 0,
    ensures
        stands_first(s, query, 0, at) ==> text::replace_all(s, query, replacement) == s.take(at)
            + replacement + text::replace_all(s.skip(at + query.len()), query, replacement),
        stands_nowhere(s, query, 0) ==> text::replace_all(s, query, replacement) == s,
{
    if stands_first(s, query, 0, at) {
        lemma_first(s, query, 0, at);
    }
    if stands_nowhere(s, query, 0) {
        lemma_nowhere(s, query, 0);
    }
}

/// Replacing one place puts the replacement there and leaves the rest as it is; a text replaced by
/// itself stays as it is.
pub proof fn law_one_place_is_replaced(
    s: Seq<char>,
    query: Seq<char>,
    k: int,
    replacement: Seq<char>,
)
    requires
        query.len() > 0,
        0 <= k < text::occurrences(s, query, 0).len(),
    ensures
        ({
            let at = text::occurrences(s, query, 0)[k];
            let after = find::replaced_at(s, query, k, replacement);
            &&& 0 <= at
            &&& at + query.len() <= s.len()
            &&& s.subrange(at, at + query.len()) == query
            &&& after.take(at) == s.take(at)
            &&& after.subrange(at, at + replacement.len()) == replacement
            &&& after.skip(at + replacement.len()) == s.skip(at + query.len())
            &&& find::replaced_at(s, query, k, query) == s
        }),
{
    text::lemma_occurrences(s, query, 0);
    let at = text::occurrences(s, query, 0)[k];
    assert(text::occurs_at(s, query, at));
    let after = find::replaced_at(s, query, k, replacement);
    assert(after.take(at) =~= s.take(at));
    assert(after.subrange(at, at + replacement.len()) =~= replacement);
    assert(after.skip(at + replacement.len()) =~= s.skip(at + query.len()));
    assert(find::replaced_at(s, query, k, query) =~= s) by {
        assert(s =~= s.take(at) + s.subrange(at, at + query.len()) + s.skip(at + query.len()));
    }
}

/// Going on from a place leads to the one behind it, and from the last one to the first.
pub proof fn law_searches_go_round(current: int, n: int)
    requires
        0 <= current < n,
    ensures
        current + 1 < n ==> find::next_of(current, n) == current + 1,
        find::next_of(n - 1, n) == 0,
        current > 0 ==> find::previous_of(current, n) == current - 1,
        find::previous_of(0, n) == n - 1,
{
}

/// Behind a replacement the first place that begins at or behind it is next, else the first of all.
pub proof fn law_next_place_lies_behind(ranges: Seq<Range<usize>>, offset: usize, k: int)
    requires
        0 <= k < ranges.len(),
        ranges[k].start >= offset,
        forall|j: int| 0 <= j < k ==> (#[trigger] ranges[j]).start < offset,
    ensures
        find::first_behind(ranges, offset, 0) == k,
{
    lemma_first_behind(ranges, offset, k, 0);
}

proof fn lemma_first_behind(ranges: Seq<Range<usize>>, offset: usize, k: int, from: int)
    requires
        0 <= from <= k < ranges.len(),
        ranges[k].start >= offset,
        forall|j: int| 0 <= j < k ==> (#[trigger] ranges[j]).start < offset,
    ensures
        find::first_behind(ranges, offset, from) == k,
    decreases k - from,
{
    if from < k {
        assert(ranges[from].start < offset);
        lemma_first_behind(ranges, offset, k, from + 1);
    }
}

} // verus!
