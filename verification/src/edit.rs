//! What typing does to the text around the caret.

use std::ops::Range;

use vstd::prelude::*;
use vstd::slice::slice_subrange;
use vstd::string::*;

use crate::completion;
use crate::completion::TextEdit;
use crate::completion::TextEditView;
use crate::imports;
use crate::php;
use crate::receiver;
use crate::symbols::SymbolIndex;
use crate::text;

verus! {

/// A line without the line break at its end.
pub open spec fn without_eol(line: Seq<char>) -> Seq<char> {
    if line.len() > 0 && line.last() == '\n' {
        line.drop_last()
    } else {
        line
    }
}

/// A line without the line break at its end.
pub fn trim_eol(line: &str) -> (r: String)
    ensures
        r@ == without_eol(line@),
{
    let s = text::chars_of(line);
    let n: usize = s.len();
    if n > 0 && s[n - 1] == '\n' {
        let r = text::string_of(&s, 0, n - 1);
        assert(r@ =~= line@.drop_last());
        r
    } else {
        text::to_string(&s)
    }
}

/// How many characters of white space stand at the start of `s`.
pub open spec fn indent_len(s: Seq<char>) -> nat
    decreases s.len(),
{
    if s.len() > 0 && text::whitespace(s[0]) {
        1 + indent_len(s.skip(1))
    } else {
        0
    }
}

/// The white space at the start of `s`.
pub open spec fn indent_of(s: Seq<char>) -> Seq<char> {
    s.take(indent_len(s) as int)
}

fn read_indent(s: &[char]) -> (r: Vec<char>)
    ensures
        r@ == indent_of(s@),
{
    let n: usize = s.len();
    let mut k: usize = 0;
    assert(s@.skip(0) =~= s@);
    while k < n && text::is_whitespace(s[k])
        invariant
            k <= n == s@.len(),
            indent_len(s@) == k + indent_len(s@.skip(k as int)),
        decreases n - k,
    {
        assert(s@.skip(k as int)[0] == s@[k as int]);
        assert(s@.skip(k as int).skip(1) =~= s@.skip(k + 1));
        k += 1;
    }
    proof {
        if k < n {
            assert(s@.skip(k as int)[0] == s@[k as int]);
        }
    }
    let mut out: Vec<char> = Vec::new();
    out.extend_from_slice(slice_subrange(s, 0, k));
    assert(out@ =~= s@.take(k as int));
    out
}

/// The indentation of a line that follows another: that of the line, and one level more behind an
/// opening brace, parenthesis or bracket.
pub open spec fn next_indent(line: Seq<char>) -> Seq<char> {
    let current = without_eol(line);
    let trimmed = text::trim_end(current);
    if text::ends_with(trimmed, "{"@) || text::ends_with(trimmed, "("@) || text::ends_with(
        trimmed,
        "["@,
    ) {
        indent_of(current) + "    "@
    } else {
        indent_of(current)
    }
}

/// The indentation of the line that follows a line.
pub fn auto_indent(line: &str) -> (r: String)
    ensures
        r@ == next_indent(line@),
{
    let current = text::chars_of(&trim_eol(line));
    let mut indent = read_indent(&current);
    let trimmed = text::trimmed_end(&current);
    if text::ends(trimmed, "{") || text::ends(trimmed, "(") || text::ends(trimmed, "[") {
        text::put(&mut indent, "    ");
    }
    text::to_string(&indent)
}

/// Whether two characters enclose what is typed between them.
pub open spec fn pair(previous: char, next: char) -> bool {
    (previous == '{' && next == '}') || (previous == '[' && next == ']') || (previous == '(' && next
        == ')') || (previous == '"' && next == '"') || (previous == '\'' && next == '\'')
}

/// Whether the caret stands between two characters that enclose what is typed between them.
pub open spec fn within_pair(content: Seq<char>, at: int) -> bool {
    0 < at < content.len() && pair(content[at - 1], content[at])
}

/// Whether deleting the character before the caret deletes the one behind it too.
pub fn backspace_deletes_pair(content: &str, offset: usize) -> (r: bool)
    requires
        php::boundary(content@, offset as nat),
    ensures
        r == within_pair(content@, text::fitting(content@, offset as int) as int),
{
    let s = text::chars_of(content);
    let (at, _) = text::fit(&s, offset);
    if at == 0 || at >= s.len() {
        return false;
    }
    let previous: char = s[at - 1];
    let next: char = s[at];
    (previous == '{' && next == '}') || (previous == '[' && next == ']') || (previous == '('
        && next == ')') || (previous == '"' && next == '"') || (previous == '\'' && next == '\'')
}

/// What is put into a document at the caret, and how many bytes before its end the caret stands
/// then.
#[derive(Debug, PartialEq, Eq)]
pub struct Insertion {
    pub text: String,
    pub caret_back: usize,
}

/// Where the line that holds an index begins.
pub open spec fn line_start(s: Seq<char>, at: int) -> int
    decreases at,
{
    if 0 < at <= s.len() && s[at - 1] != '\n' {
        line_start(s, at - 1)
    } else {
        at
    }
}

/// Where the line that holds an index begins.
pub fn start_of_line(s: &[char], at: usize) -> (r: usize)
    requires
        at <= s@.len(),
    ensures
        r == line_start(s@, at as int),
        r <= at,
{
    let mut start: usize = at;
    while start > 0 && s[start - 1] != '\n'
        invariant
            start <= at <= s@.len(),
            line_start(s@, at as int) == line_start(s@, start as int),
        decreases start,
    {
        start -= 1;
    }
    start
}

/// Where the line that holds an index ends, without its line break.
pub open spec fn line_stop(s: Seq<char>, at: int) -> int {
    match text::char_from(s, '\n', at) {
        Some(i) => i,
        None => s.len() as int,
    }
}

/// Where the line that holds an index ends, without its line break.
pub fn end_of_text(s: &[char], at: usize) -> (r: usize)
    requires
        at <= s@.len(),
    ensures
        r == line_stop(s@, at as int),
        at <= r <= s@.len(),
{
    proof {
        text::lemma_char_from(s@, '\n', at as int);
    }
    match text::find_char(s, '\n', at) {
        Some(i) => i,
        None => s.len(),
    }
}

/// Whether a line break between two characters opens them up.
pub open spec fn opens_up(content: Seq<char>, at: int) -> bool {
    0 < at < content.len() && ((content[at - 1] == '{' && content[at] == '}') || (content[at - 1]
        == '[' && content[at] == ']'))
}

/// The line that holds an index, its line break counted in.
pub open spec fn line_at(s: Seq<char>, at: int) -> Seq<char> {
    let stop = line_stop(s, at);
    s.subrange(
        line_start(s, at),
        if stop < s.len() {
            stop + 1
        } else {
            stop
        },
    )
}

/// What a line break puts into a document. Between braces or brackets it is an indented line and
/// another for what closes them, with the caret on the first; else the indentation of the line
/// follows it.
pub open spec fn line_break(content: Seq<char>, at: int) -> (Seq<char>, nat) {
    let line = line_at(content, at);
    if opens_up(content, at) {
        let base = indent_of(line);
        ("\n"@ + base + "    "@ + "\n"@ + base, text::utf8_len(base) + 1)
    } else {
        ("\n"@ + next_indent(line), 0)
    }
}

/// What a line break puts into a document.
pub fn enter(content: &str, offset: usize) -> (r: Insertion)
    requires
        php::boundary(content@, offset as nat),
    ensures
        ({
            let (text, back) = line_break(
                content@,
                text::fitting(content@, offset as int) as int,
            );
            &&& r.text@ == text
            &&& r.caret_back == back
        }),
{
    let s = text::chars_of(content);
    let n: usize = s.len();
    let size: usize = text::byte_len(content);
    let (at, _) = text::fit(&s, offset);
    let start: usize = start_of_line(&s, at);
    let stop: usize = end_of_text(&s, at);
    let end: usize = if stop < n {
        stop + 1
    } else {
        stop
    };
    let line = text::string_of(&s, start, end);
    assert(line@ =~= line_at(content@, at as int));
    if at > 0 && at < n && ((s[at - 1] == '{' && s[at] == '}') || (s[at - 1] == '[' && s[at]
        == ']')) {
        let line_chars = text::chars_of(&line);
        let base = read_indent(&line_chars);
        let base_text = text::to_string(&base);
        let mut out = text::chars_of("\n");
        out.extend_from_slice(&base);
        text::put(&mut out, "    ");
        text::put(&mut out, "\n");
        out.extend_from_slice(&base);
        assert(out@ =~= line_break(content@, at as int).0);
        let width: usize = text::byte_len(&base_text);
        proof {
            lemma_indent_smaller(content@, start as int, end as int, at as int, base@);
        }
        return Insertion { text: text::to_string(&out), caret_back: width + 1 };
    }
    let mut out = text::chars_of("\n");
    text::put(&mut out, &auto_indent(&line));
    Insertion { text: text::to_string(&out), caret_back: 0 }
}

/// The indentation of a line that also holds a brace takes fewer bytes than the text.
proof fn lemma_indent_smaller(s: Seq<char>, start: int, end: int, at: int, base: Seq<char>)
    requires
        0 <= start <= at < end <= s.len(),
        base == indent_of(s.subrange(start, end)),
        at > 0,
        s[at] == '}' || s[at] == ']',
        text::utf8_len(s) <= usize::MAX,
    ensures
        text::utf8_len(base) + 1 <= usize::MAX,
{
    let line = s.subrange(start, end);
    lemma_indent_stops(line, at - start);
    let n = indent_len(line) as int;
    assert(s.take(start + n) =~= s.take(start) + base);
    text::lemma_utf8_len_add(s.take(start), base);
    assert(s.take(start + n + 1).drop_last() =~= s.take(start + n));
    text::lemma_take_len(s, start + n + 1);
}

proof fn lemma_indent_stops(line: Seq<char>, at: int)
    requires
        0 <= at < line.len(),
        !text::whitespace(line[at]),
    ensures
        indent_len(line) <= at,
    decreases at,
{
    if at > 0 && text::whitespace(line[0]) {
        assert(line.skip(1)[at - 1] == line[at]);
        lemma_indent_stops(line.skip(1), at - 1);
    }
}

/// How many spaces an outdented line loses: those at its start, four at most.
pub open spec fn outdent_len(line: Seq<char>, most: nat) -> nat
    decreases most,
{
    if most > 0 && line.len() > 0 && line[0] == ' ' {
        1 + outdent_len(line.skip(1), (most - 1) as nat)
    } else {
        0
    }
}

/// A line one level further in, or out.
pub open spec fn shifted_line(line: Seq<char>, indent: bool) -> Seq<char> {
    if indent {
        "    "@ + line
    } else {
        line.skip(outdent_len(line, 4) as int)
    }
}

/// The lines from an index up to another, each one level further in, or out.
pub open spec fn shifted(s: Seq<char>, at: int, to: int, indent: bool) -> Seq<char>
    decreases to - at,
{
    if at < 0 || at >= to || to > s.len() || imports::piece_end(s, at, to) <= at {
        Seq::empty()
    } else {
        shifted_line(s.subrange(at, imports::piece_end(s, at, to)), indent) + shifted(
            s,
            imports::piece_end(s, at, to),
            to,
            indent,
        )
    }
}

/// Where the lines that a selection touches end: a selection that ends at the start of a line does
/// not touch that line.
pub open spec fn touched_end(s: Seq<char>, from: int, to: int) -> int {
    let last = if to > from && to <= s.len() && s[to - 1] == '\n' {
        to - 1
    } else {
        to
    };
    let stop = line_stop(s, last);
    if stop < s.len() {
        stop + 1
    } else {
        stop
    }
}

/// The edit that shifts the lines that a selection touches; none where it changes nothing.
pub open spec fn shift_edit(s: Seq<char>, from: int, to: int, indent: bool) -> Option<
    TextEditView,
> {
    let first = line_start(s, from);
    let last = touched_end(s, from, to);
    let new_text = shifted(s, first, last, indent);
    if new_text == s.subrange(first, last) {
        None
    } else {
        Some(
            TextEditView {
                start: text::utf8_len(s.take(first)) as usize,
                end: text::utf8_len(s.take(last)) as usize,
                new_text,
            },
        )
    }
}

fn shift_line(line: &[char], indent: bool, out: &mut Vec<char>)
    ensures
        final(out)@ == old(out)@ + shifted_line(line@, indent),
{
    if indent {
        text::put(out, "    ");
        out.extend_from_slice(line);
        assert(out@ =~= old(out)@ + ("    "@ + line@));
        return ;
    }
    let n: usize = line.len();
    let mut k: usize = 0;
    assert(line@.skip(0) =~= line@);
    while k < n && k < 4 && line[k] == ' '
        invariant
            k <= n == line@.len(),
            k <= 4,
            outdent_len(line@, 4) == k + outdent_len(line@.skip(k as int), (4 - k) as nat),
        decreases n - k,
    {
        assert(line@.skip(k as int)[0] == line@[k as int]);
        assert(line@.skip(k as int).skip(1) =~= line@.skip(k + 1));
        k += 1;
    }
    proof {
        if k < n {
            assert(line@.skip(k as int)[0] == line@[k as int]);
        }
    }
    let rest = slice_subrange(line, k, n);
    assert(rest@ =~= line@.skip(k as int));
    out.extend_from_slice(rest);
    assert(out@ =~= old(out)@ + rest@);
}

fn shift_lines(s: &[char], from: usize, to: usize, indent: bool) -> (r: Vec<char>)
    requires
        from <= to <= s@.len(),
    ensures
        r@ == shifted(s@, from as int, to as int, indent),
{
    let mut out: Vec<char> = Vec::new();
    let mut at: usize = from;
    let ghost goal = shifted(s@, from as int, to as int, indent);
    assert(out@ + goal =~= goal);
    while at < to
        invariant
            from <= at <= to <= s@.len(),
            goal == out@ + shifted(s@, at as int, to as int, indent),
        decreases to - at,
    {
        let ghost held = out@;
        let whole: usize = imports::end_of_line(s, at);
        let end: usize = if whole <= to {
            whole
        } else {
            to
        };
        let line = slice_subrange(s, at, end);
        shift_line(line, indent, &mut out);
        proof {
            let here = shifted_line(line@, indent);
            let more = shifted(s@, end as int, to as int, indent);
            assert(held + (here + more) =~= (held + here) + more);
        }
        at = end;
    }
    assert(out@ + Seq::<char>::empty() =~= out@);
    out
}

/// The edit that shifts the lines that a selection touches one level further in, or out; none where
/// it changes nothing.
pub fn transform_selected_lines(content: &str, selection: Range<usize>, indent: bool) -> (r: Option<
    TextEdit,
>)
    requires
        selection.start <= selection.end,
        php::boundary(content@, selection.start as nat),
        php::boundary(content@, selection.end as nat),
    ensures
        completion::edit_view(r) == shift_edit(
            content@,
            text::fitting(content@, selection.start as int) as int,
            text::fitting(content@, selection.end as int) as int,
            indent,
        ),
{
    let s = text::chars_of(content);
    let n: usize = s.len();
    let size: usize = text::byte_len(content);
    let (from, _) = text::fit(&s, selection.start);
    let (to, _) = text::fit(&s, selection.end);
    proof {
        text::lemma_fitting(content@, selection.start as int);
        text::lemma_fitting(content@, selection.end as int);
    }
    let first: usize = start_of_line(&s, from);
    let last: usize = if to > from && s[to - 1] == '\n' {
        to - 1
    } else {
        to
    };
    let stop: usize = end_of_text(&s, last);
    let end: usize = if stop < n {
        stop + 1
    } else {
        stop
    };
    let new_text = shift_lines(&s, first, end, indent);
    if text::same(&new_text, slice_subrange(&s, first, end)) {
        return None;
    }
    Some(
        TextEdit {
            start: text::offset_of(&s, first),
            end: text::offset_of(&s, end),
            new_text: text::to_string(&new_text),
        },
    )
}

/// Shifting a line in and then out gives the line again.
pub proof fn law_indenting_is_undone_by_outdenting(line: Seq<char>)
    ensures
        shifted_line(shifted_line(line, true), false) == line,
{
    let further = "    "@ + line;
    reveal_strlit("    ");
    reveal_with_fuel(outdent_len, 5);
    assert(further.skip(1).skip(1) =~= further.skip(2));
    assert(further.skip(2).skip(1) =~= further.skip(3));
    assert(further.skip(3).skip(1) =~= further.skip(4));
    assert(outdent_len(further, 4) == 4);
    assert(further.skip(4) =~= line);
}

/// Whether a statement on a line is complete: it is blank, or ends with what ends one.
pub open spec fn statement_complete(trimmed: Seq<char>) -> bool {
    trimmed.len() == 0 || trimmed.last() == ';' || trimmed.last() == '{' || trimmed.last() == '}'
        || trimmed.last() == ':' || trimmed.last() == ','
}

/// Where a semicolon completes the statement at the caret: at the end of its line, where only white
/// space stands behind the caret and the statement is not complete.
pub open spec fn semicolon_place(s: Seq<char>, at: int) -> Option<int> {
    let stop = line_stop(s, at);
    let line = s.subrange(line_start(s, at), stop);
    if !statement_complete(text::trim_end(line)) && text::trim(s.subrange(at, stop)).len() == 0 {
        Some(stop)
    } else {
        None
    }
}

/// The byte offset at which a semicolon completes the statement at the caret.
pub fn complete_statement(content: &str, cursor: usize) -> (r: Option<usize>)
    requires
        php::boundary(content@, cursor as nat),
    ensures
        match semicolon_place(content@, text::fitting(content@, cursor as int) as int) {
            Some(place) => r is Some && r->0 == text::utf8_len(content@.take(place)),
            None => r is None,
        },
{
    let s = text::chars_of(content);
    let size: usize = text::byte_len(content);
    let (at, _) = text::fit(&s, cursor);
    let start: usize = start_of_line(&s, at);
    let stop: usize = end_of_text(&s, at);
    let trimmed = text::trimmed_end(slice_subrange(&s, start, stop));
    let n: usize = trimmed.len();
    if n == 0 {
        return None;
    }
    let last: char = trimmed[n - 1];
    if last == ';' || last == '{' || last == '}' || last == ':' || last == ',' {
        return None;
    }
    if text::trimmed(slice_subrange(&s, at, stop)).len() == 0 {
        Some(text::offset_of(&s, stop))
    } else {
        None
    }
}

/// What a typed text does.
#[derive(Debug, PartialEq, Eq)]
pub enum Typed {
    /// The text is put in.
    Insert,
    /// The text is put in together with what closes it, and the caret stands between them.
    InsertPair(char),
    /// The caret steps over the text, which stands there already.
    StepOver,
}

/// What closes a typed character.
pub open spec fn closing(c: char) -> Option<char> {
    if c == '{' {
        Some('}')
    } else if c == '[' {
        Some(']')
    } else if c == '(' {
        Some(')')
    } else if c == '"' {
        Some('"')
    } else if c == '\'' {
        Some('\'')
    } else {
        None
    }
}

/// What a typed text does: a character that opens something brings along what closes it, and one
/// that closes something is stepped over where it stands there already.
pub open spec fn typed(content: Seq<char>, at: int, written: Seq<char>) -> Typed {
    if written.len() == 1 && closing(written[0]) is Some {
        Typed::InsertPair(closing(written[0])->0)
    } else if written.len() == 1 && (written[0] == '}' || written[0] == ']' || written[0] == ')')
        && text::starts_with(content.skip(at), written) {
        Typed::StepOver
    } else {
        Typed::Insert
    }
}

/// What a typed text does.
pub fn insert_text_with_pairs(content: &str, cursor: usize, written: &str) -> (r: Typed)
    requires
        php::boundary(content@, cursor as nat),
    ensures
        r == typed(content@, text::fitting(content@, cursor as int) as int, written@),
{
    let s = text::chars_of(content);
    let n: usize = s.len();
    let typed_chars = text::chars_of(written);
    if typed_chars.len() == 1 {
        let c: char = typed_chars[0];
        if c == '{' {
            return Typed::InsertPair('}');
        }
        if c == '[' {
            return Typed::InsertPair(']');
        }
        if c == '(' {
            return Typed::InsertPair(')');
        }
        if c == '"' {
            return Typed::InsertPair('"');
        }
        if c == '\'' {
            return Typed::InsertPair('\'');
        }
        if c == '}' || c == ']' || c == ')' {
            let (at, _) = text::fit(&s, cursor);
            let behind = slice_subrange(&s, at, n);
            assert(behind@ =~= content@.skip(at as int));
            if text::begins(behind, written) {
                return Typed::StepOver;
            }
        }
    }
    Typed::Insert
}

/// Where the name that ends at an index begins.
pub open spec fn name_start(s: Seq<char>, end: int) -> int
    decreases end,
{
    if 0 < end <= s.len() && (php::name_char(s[end - 1]) || s[end - 1] == '$') {
        name_start(s, end - 1)
    } else {
        end
    }
}

/// Whether a dash that is typed at the caret becomes an arrow: where what stands right before it is
/// an object. `$this` is one behind the beginning of a class; anything else is where its class is
/// found.
pub open spec fn dash_expands<S: SymbolIndex>(index: &S, content: Seq<char>, at: int) -> bool {
    let before = content.take(at);
    if before.len() == 0 || text::whitespace(before.last()) {
        false
    } else {
        let start = name_start(before, at);
        let owner = before.skip(start);
        if owner == "$this"@ {
            text::contains_text(before.take(start), "class "@)
        } else {
            receiver::native_type(index, owner, before, content) is Some
        }
    }
}

/// Whether a dash that is typed at the caret becomes an arrow.
pub fn should_expand_member_dash<S: SymbolIndex>(index: &S, content: &str, cursor: usize) -> (r:
    bool)
    requires
        php::boundary(content@, cursor as nat),
    ensures
        r == dash_expands(index, content@, text::fitting(content@, cursor as int) as int),
{
    let s = text::chars_of(content);
    let (at, _) = text::fit(&s, cursor);
    let before = slice_subrange(&s, 0, at);
    assert(before@ =~= content@.take(at as int));
    if at == 0 || text::is_whitespace(before[at - 1]) {
        return false;
    }
    let mut start: usize = at;
    while start > 0 && (php::is_name_char(before[start - 1], true) || before[start - 1] == '$')
        invariant
            start <= at == before@.len(),
            name_start(before@, at as int) == name_start(before@, start as int),
        decreases start,
    {
        start -= 1;
    }
    let owner = text::string_of(before, start, at);
    assert(owner@ =~= before@.skip(start as int));
    if text::eq(&owner, "$this") {
        let head = slice_subrange(before, 0, start);
        assert(head@ =~= before@.take(start as int));
        return text::contains(head, &text::chars_of("class "));
    }
    receiver::resolve_native_type(index, &owner, &text::to_string(before), content).is_some()
}

/// What is put in for a typed text: an arrow for a dash that becomes one where nothing is selected.
pub fn typed_insertion<S: SymbolIndex>(
    index: &S,
    content: &str,
    cursor: usize,
    range: &Range<usize>,
    written: &str,
) -> (r: String)
    requires
        php::boundary(content@, cursor as nat),
    ensures
        r@ == (if written@ == "-"@ && range.start == range.end && dash_expands(
            index,
            content@,
            text::fitting(content@, cursor as int) as int,
        ) {
            "->"@
        } else {
            written@
        }),
{
    if text::eq(written, "-") && range.start == range.end && should_expand_member_dash(
        index,
        content,
        cursor,
    ) {
        String::from_str("->")
    } else {
        String::from_str(written)
    }
}

} // verus!
