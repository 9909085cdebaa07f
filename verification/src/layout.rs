//! What formatting does to a source: how deep its lines stand, and what it leaves alone.

use vstd::prelude::*;
use vstd::string::*;

use crate::formatter;
use crate::formatter::Formatting;
use crate::formatter::Scan;
use crate::text;

verus! {

/// Whether a line is read for brackets from its start: no heredoc and no quote is open.
pub open spec fn in_code(state: Formatting) -> bool {
    state.heredoc is None && state.quote is None
}

/// So many spaces.
pub open spec fn spaces(n: int) -> Seq<char> {
    Seq::new(n as nat, |i: int| ' ')
}

/// How deep a line is written: one less than the depth before it where it begins with a closing
/// bracket.
pub open spec fn written_depth(depth: nat, line: Seq<char>) -> int {
    if line[0] == '}' || line[0] == ']' || line[0] == ')' {
        if depth > 0 {
            depth - 1
        } else {
            0
        }
    } else {
        depth as int
    }
}

/// A line of code that is not blank is written, in its normal form, behind four spaces for each step
/// of its depth; one that begins with a closing bracket stands one step less deep than what comes
/// before it.
pub proof fn law_lines_stand_as_deep_as_they_lie(state: Formatting, raw: Seq<char>, first: bool)
    requires
        in_code(state),
        text::trim(raw).len() > 0,
    ensures
        ({
            let line = text::trim(raw);
            let before = if first {
                state.out
            } else {
                state.out.push('\n')
            };
            formatter::format_line(state, raw, first).out == before + spaces(
                4 * written_depth(state.indent, line),
            ) + formatter::normalized(line)
        }),
{
    let line = text::trim(raw);
    let before = if first {
        state.out
    } else {
        state.out.push('\n')
    };
    let depth = written_depth(state.indent, line) as nat;
    assert(before =~= state.out + formatter::line_break(first));
    assert(formatter::indentation(depth) =~= spaces(4 * depth as int));
}

/// A blank line of code is written as an empty line.
pub proof fn law_blank_lines_are_emptied(state: Formatting, raw: Seq<char>, first: bool)
    requires
        in_code(state),
        text::trim(raw).len() == 0,
    ensures
        formatter::format_line(state, raw, first).out == (if first {
            state.out
        } else {
            state.out.push('\n')
        }),
        formatter::format_line(state, raw, first).indent == state.indent,
        in_code(formatter::format_line(state, raw, first)),
{
    assert(formatter::format_line(state, raw, first).out =~= (if first {
        state.out
    } else {
        state.out.push('\n')
    }));
}

/// Whether a character opens a block, a list or a call.
pub open spec fn opens(c: char) -> bool {
    c == '{' || c == '[' || c == '('
}

/// Whether a character closes a block, a list or a call.
pub open spec fn closes(c: char) -> bool {
    c == '}' || c == ']' || c == ')'
}

/// How many brackets of a line are open at its end, over those that it closes; negative where it
/// closes more.
pub open spec fn balance(line: Seq<char>) -> int
    decreases line.len(),
{
    if line.len() == 0 {
        0
    } else {
        balance(line.drop_last()) + (if opens(line.last()) {
            1int
        } else if closes(line.last()) {
            -1
        } else {
            0
        })
    }
}

/// Whether a line is plain code: it holds no quote, no comment and no heredoc.
pub open spec fn plain(line: Seq<char>) -> bool {
    forall|k: int|
        0 <= k < line.len() ==> {
            let c = #[trigger] line[k];
            c != '\'' && c != '"' && c != '`' && c != '/' && c != '#' && c != '<'
        }
}

proof fn lemma_scan(s: Seq<char>, at: int, opened: nat, closed: nat)
    requires
        0 <= at <= s.len(),
        plain(s),
        opened - closed == balance(s.take(at)),
        opened <= at,
        closed <= at,
    ensures
        ({
            let read = formatter::scan(
                s,
                at,
                Scan { block_comment: false, quote: None, opens: opened, closes: closed },
            );
            &&& read.opens - read.closes == balance(s)
            &&& read.opens <= s.len()
            &&& read.closes <= s.len()
            &&& !read.block_comment
            &&& read.quote is None
            &&& read.closes >= closed
            &&& at < s.len() && closes(s[at]) ==> read.closes >= closed + 1
        }),
    decreases s.len() - at,
{
    if at < s.len() {
        assert(s.take(at + 1).drop_last() =~= s.take(at));
        let c = s[at];
        let next_opened = if opens(c) {
            opened + 1
        } else {
            opened
        };
        let next_closed = if closes(c) {
            closed + 1
        } else {
            closed
        };
        lemma_scan(s, at + 1, next_opened, next_closed);
    } else {
        assert(s.take(at) =~= s);
    }
}

proof fn lemma_no_heredoc(s: Seq<char>)
    requires
        plain(s),
    ensures
        formatter::heredoc_delimiter(s) is None,
{
    reveal_strlit("<<<");
    text::lemma_find(s, "<<<"@, 0);
    if text::find_from(s, "<<<"@, 0) is Some {
        let at = text::find_from(s, "<<<"@, 0)->0;
        assert(text::occurs_at(s, "<<<"@, at));
        assert(s.subrange(at, at + 3)[0] == s[at]);
    }
}

/// A line of plain code changes the depth by exactly the brackets that it opens over those that it
/// closes, as long as it closes none that was never opened.
pub proof fn law_brackets_make_depth(state: Formatting, raw: Seq<char>, first: bool)
    requires
        in_code(state),
        !state.block_comment,
        plain(text::trim(raw)),
        0 <= state.indent + balance(text::trim(raw)),
        state.indent + text::trim(raw).len() <= usize::MAX,
        text::trim(raw).len() > 0 && closes(text::trim(raw)[0]) ==> state.indent > 0,
    ensures
        formatter::format_line(state, raw, first).indent == state.indent + balance(text::trim(raw)),
        in_code(formatter::format_line(state, raw, first)),
        !formatter::format_line(state, raw, first).block_comment,
{
    let line = text::trim(raw);
    if line.len() > 0 {
        assert(line.take(0) =~= Seq::<char>::empty());
        lemma_scan(line, 0, 0, 0);
        lemma_no_heredoc(line);
    }
}

/// A text with more lines formatted, one after the other.
pub open spec fn formatted_on(state: Formatting, lines: Seq<Seq<char>>) -> Formatting
    decreases lines.len(),
{
    if lines.len() == 0 {
        state
    } else {
        formatter::format_line(formatted_on(state, lines.drop_last()), lines.last(), false)
    }
}

/// Whether lines of plain code stay inside a block that is open before them, and close within it all
/// that they open.
pub open spec fn stays_inside(depth: nat, lines: Seq<Seq<char>>) -> bool {
    &&& forall|k: int| 0 <= k < lines.len() ==> plain(text::trim(#[trigger] lines[k]))
    &&& forall|k: int| 0 <= k <= lines.len() ==> #[trigger] total(lines.take(k)) >= 0
    &&& total(lines) == 0
    &&& forall|k: int|
        0 <= k < lines.len() ==> depth + 1 + total(lines.take(k)) + text::trim(
            #[trigger] lines[k],
        ).len() <= usize::MAX
}

/// How many brackets some lines open over those that they close.
pub open spec fn total(lines: Seq<Seq<char>>) -> int
    decreases lines.len(),
{
    if lines.len() == 0 {
        0
    } else {
        total(lines.drop_last()) + balance(text::trim(lines.last()))
    }
}

proof fn lemma_inside(state: Formatting, lines: Seq<Seq<char>>, depth: nat, n: int)
    requires
        in_code(state),
        !state.block_comment,
        state.indent == depth + 1,
        stays_inside(depth, lines),
        0 <= n <= lines.len(),
    ensures
        ({
            let after = formatted_on(state, lines.take(n));
            &&& in_code(after)
            &&& !after.block_comment
            &&& after.indent == depth + 1 + total(lines.take(n))
        }),
    decreases n,
{
    if n > 0 {
        lemma_inside(state, lines, depth, n - 1);
        assert(lines.take(n).drop_last() =~= lines.take(n - 1));
        assert(lines.take(n).last() == lines[n - 1]);
        assert(total(lines.take(n)) >= 0);
        assert(total(lines.take(n - 1)) >= 0);
        assert(plain(text::trim(lines[n - 1])));
        assert(depth + 1 + total(lines.take(n - 1)) + text::trim(lines[n - 1]).len() <= usize::MAX);
        law_brackets_make_depth(
            formatted_on(state, lines.take(n - 1)),
            lines[n - 1],
            false,
        );
    } else {
        assert(lines.take(0) =~= Seq::<Seq<char>>::empty());
    }
}

/// The line that closes a block stands as deep as the line that opened it, whatever lies between them,
/// and the first line between them stands one step deeper, unless it closes something itself.
pub proof fn law_blocks_close_where_they_open(
    state: Formatting,
    open: Seq<char>,
    inside: Seq<Seq<char>>,
    close: Seq<char>,
)
    requires
        in_code(state),
        !state.block_comment,
        plain(text::trim(open)),
        text::trim(open).len() > 0,
        !closes(text::trim(open)[0]),
        balance(text::trim(open)) == 1,
        state.indent + text::trim(open).len() <= usize::MAX,
        stays_inside(state.indent, inside),
        text::trim(close).len() > 0,
        closes(text::trim(close)[0]),
    ensures
        ({
            let opened = formatter::format_line(state, open, false);
            let before = formatted_on(opened, inside);
            let after = formatter::format_line(before, close, false);
            let depth = state.indent as int;
            &&& opened.out == state.out.push('\n') + spaces(4 * depth) + formatter::normalized(
                text::trim(open),
            )
            &&& after.out == before.out.push('\n') + spaces(4 * depth) + formatter::normalized(
                text::trim(close),
            )
            &&& inside.len() > 0 && text::trim(inside[0]).len() > 0 && !closes(
                text::trim(inside[0])[0],
            ) ==> formatter::format_line(opened, inside[0], false).out == opened.out.push('\n')
                + spaces(4 * (depth + 1)) + formatter::normalized(text::trim(inside[0]))
        }),
{
    law_lines_stand_as_deep_as_they_lie(state, open, false);
    law_brackets_make_depth(state, open, false);
    let opened = formatter::format_line(state, open, false);
    lemma_inside(opened, inside, state.indent, inside.len() as int);
    assert(inside.take(inside.len() as int) =~= inside);
    law_lines_stand_as_deep_as_they_lie(formatted_on(opened, inside), close, false);
    if inside.len() > 0 && text::trim(inside[0]).len() > 0 {
        law_lines_stand_as_deep_as_they_lie(opened, inside[0], false);
    }
}

/// Formatting begins with nothing written, at no depth and in code, and goes on line by line.
pub proof fn law_formatting_goes_line_by_line(before: Seq<Seq<char>>, more: Seq<Seq<char>>)
    ensures
        ({
            let start = formatter::format_lines(Seq::empty());
            start.out.len() == 0 && start.indent == 0 && in_code(start) && !start.block_comment
        }),
        before.len() > 0 ==> formatter::format_lines(before + more) == formatted_on(
            formatter::format_lines(before),
            more,
        ),
    decreases more.len(),
{
    if before.len() > 0 {
        if more.len() == 0 {
            assert(before + more =~= before);
        } else {
            law_formatting_goes_line_by_line(before, more.drop_last());
            assert((before + more).drop_last() =~= before + more.drop_last());
            assert((before + more).last() == more.last());
        }
    }
}

/// The characters of a text that are no white space, in their order.
pub open spec fn ink(s: Seq<char>) -> Seq<char>
    decreases s.len(),
{
    if s.len() == 0 {
        Seq::empty()
    } else if text::whitespace(s.last()) {
        ink(s.drop_last())
    } else {
        ink(s.drop_last()).push(s.last())
    }
}

/// The characters of some texts that are no white space, in their order.
pub open spec fn ink_all(parts: Seq<Seq<char>>) -> Seq<char>
    decreases parts.len(),
{
    if parts.len() == 0 {
        Seq::empty()
    } else {
        ink_all(parts.drop_last()) + ink(parts.last())
    }
}

proof fn lemma_ink_add(a: Seq<char>, b: Seq<char>)
    ensures
        ink(a + b) == ink(a) + ink(b),
    decreases b.len(),
{
    if b.len() == 0 {
        assert(a + b =~= a);
        assert(ink(a) + ink(b) =~= ink(a));
    } else {
        lemma_ink_add(a, b.drop_last());
        assert((a + b).drop_last() =~= a + b.drop_last());
        assert(ink(a + b) =~= ink(a) + ink(b));
    }
}

proof fn lemma_ink_parts(s: Seq<char>, i: int)
    requires
        0 <= i <= s.len(),
    ensures
        ink(s) == ink(s.take(i)) + ink(s.skip(i)),
{
    lemma_ink_add(s.take(i), s.skip(i));
    assert(s =~= s.take(i) + s.skip(i));
}

proof fn lemma_ink_blank(s: Seq<char>)
    requires
        forall|k: int| 0 <= k < s.len() ==> text::whitespace(#[trigger] s[k]),
    ensures
        ink(s) == Seq::<char>::empty(),
    decreases s.len(),
{
    if s.len() > 0 {
        assert(text::whitespace(s[s.len() - 1]));
        assert forall|k: int| 0 <= k < s.drop_last().len() implies text::whitespace(
            #[trigger] s.drop_last()[k],
        ) by {
            assert(s.drop_last()[k] == s[k]);
        }
        lemma_ink_blank(s.drop_last());
    }
}

proof fn lemma_ink_trim_start(s: Seq<char>)
    ensures
        ink(text::trim_start(s)) == ink(s),
    decreases s.len(),
{
    if s.len() > 0 && text::whitespace(s[0]) {
        lemma_ink_trim_start(s.skip(1));
        lemma_ink_parts(s, 1);
        assert(s.take(1)[0] == s[0]);
        lemma_ink_blank(s.take(1));
        assert(ink(s) =~= ink(s.skip(1)));
    }
}

proof fn lemma_ink_trim_end(s: Seq<char>)
    ensures
        ink(text::trim_end(s)) == ink(s),
    decreases s.len(),
{
    if s.len() > 0 && text::whitespace(s.last()) {
        lemma_ink_trim_end(s.drop_last());
    }
}

proof fn lemma_ink_trim(s: Seq<char>)
    ensures
        ink(text::trim(s)) == ink(s),
{
    lemma_ink_trim_start(s);
    lemma_ink_trim_end(text::trim_start(s));
}

proof fn lemma_ink_all_front(first: Seq<char>, rest: Seq<Seq<char>>)
    ensures
        ink_all(seq![first] + rest) == ink(first) + ink_all(rest),
    decreases rest.len(),
{
    let all = seq![first] + rest;
    if rest.len() == 0 {
        assert(all.drop_last() =~= Seq::<Seq<char>>::empty());
        assert(all.last() == first);
        assert(ink_all(all.drop_last()) =~= Seq::<char>::empty());
        assert(ink_all(all) =~= ink(first) + ink_all(rest));
    } else {
        assert(all.drop_last() =~= seq![first] + rest.drop_last());
        lemma_ink_all_front(first, rest.drop_last());
        assert(ink_all(all) =~= ink(first) + ink_all(rest));
    }
}

proof fn lemma_ink_join(parts: Seq<Seq<char>>, separator: Seq<char>)
    requires
        ink(separator) == Seq::<char>::empty(),
    ensures
        ink(text::join(parts, separator)) == ink_all(parts),
    decreases parts.len(),
{
    if parts.len() == 0 {
    } else if parts.len() == 1 {
        assert(parts.drop_last() =~= Seq::<Seq<char>>::empty());
        assert(ink_all(parts.drop_last()) =~= Seq::<char>::empty());
        assert(ink_all(parts) =~= ink(parts[0]));
    } else {
        lemma_ink_join(parts.drop_last(), separator);
        let head = text::join(parts.drop_last(), separator);
        lemma_ink_add(head + separator, parts.last());
        lemma_ink_add(head, separator);
        assert(ink(head + separator) =~= ink(head));
    }
}

proof fn lemma_ink_words(s: Seq<char>)
    ensures
        ink_all(text::words(s)) == ink(s),
    decreases s.len(),
{
    let rest = text::trim_start(s);
    text::lemma_words(s);
    text::lemma_words(text::trim_start(s));
    lemma_ink_trim_start(s);
    if rest.len() == 0 || text::word_len(rest) == 0 {
        assert(rest.len() == 0);
    } else {
        let n = text::word_len(rest) as int;
        lemma_ink_words(rest.skip(n));
        lemma_ink_all_front(rest.take(n), text::words(rest.skip(n)));
        lemma_ink_parts(rest, n);
    }
}

proof fn lemma_ink_replace(s: Seq<char>, pattern: Seq<char>, by: Seq<char>)
    requires
        ink(pattern) == ink(by),
    ensures
        ink(text::replace_all(s, pattern, by)) == ink(s),
    decreases s.len(),
{
    text::lemma_find(s, pattern, 0);
    match text::find_from(s, pattern, 0) {
        Some(i) => if 0 <= i && pattern.len() > 0 && i + pattern.len() <= s.len() {
            let n = i + pattern.len();
            let rest = s.skip(n);
            lemma_ink_replace(rest, pattern, by);
            let tail = text::replace_all(rest, pattern, by);
            lemma_ink_add(s.take(i) + by, tail);
            lemma_ink_add(s.take(i), by);
            assert(text::occurs_at(s, pattern, i));
            assert(s.take(n) =~= s.take(i) + pattern);
            lemma_ink_add(s.take(i), pattern);
            lemma_ink_parts(s, n);
        },
        None => {},
    }
}

proof fn lemma_ink_spaced(s: Seq<char>, operator: Seq<char>)
    ensures
        ink(formatter::spaced(s, operator)) == ink(s),
{
    let wide = seq![' '] + operator + seq![' '];
    let wider = seq![' ', ' '] + operator + seq![' ', ' '];
    lemma_ink_blank(seq![' ']);
    lemma_ink_blank(seq![' ', ' ']);
    lemma_ink_add(seq![' '] + operator, seq![' ']);
    lemma_ink_add(seq![' '], operator);
    lemma_ink_add(seq![' ', ' '] + operator, seq![' ', ' ']);
    lemma_ink_add(seq![' ', ' '], operator);
    assert(ink(wide) =~= ink(operator));
    assert(ink(wider) =~= ink(operator));
    lemma_ink_replace(s, operator, wide);
    lemma_ink_replace(text::replace_all(s, operator, wide), wider, wide);
}

proof fn lemma_ink_patterns()
    ensures
        ink(" ? - > "@) == ink("?->"@),
        ink(" ?-> "@) == ink("?->"@),
        ink(" -> "@) == ink("->"@),
        ink(" :: "@) == ink("::"@),
        ink(" - > "@) == ink("->"@),
        ink(" : : "@) == ink("::"@),
        ink(" ( "@) == ink("("@),
        ink(" )"@) == ink(")"@),
        ink(" ,"@) == ink(","@),
        ink(",  "@) == ink(", "@),
{
    reveal_strlit(" ? - > ");
    reveal_strlit("?->");
    reveal_strlit(" ?-> ");
    reveal_strlit(" -> ");
    reveal_strlit("->");
    reveal_strlit(" :: ");
    reveal_strlit("::");
    reveal_strlit(" - > ");
    reveal_strlit(" : : ");
    reveal_strlit(" ( ");
    reveal_strlit("(");
    reveal_strlit(" )");
    reveal_strlit(")");
    reveal_strlit(" ,");
    reveal_strlit(",");
    reveal_strlit(",  ");
    reveal_strlit(", ");
    reveal_with_fuel(ink, 8);
    assert(ink(" ? - > "@) =~= seq!['?', '-', '>']);
    assert(ink("?->"@) =~= seq!['?', '-', '>']);
    assert(ink(" ?-> "@) =~= seq!['?', '-', '>']);
    assert(ink(" -> "@) =~= seq!['-', '>']);
    assert(ink("->"@) =~= seq!['-', '>']);
    assert(ink(" :: "@) =~= seq![':', ':']);
    assert(ink("::"@) =~= seq![':', ':']);
    assert(ink(" - > "@) =~= seq!['-', '>']);
    assert(ink(" : : "@) =~= seq![':', ':']);
    assert(ink(" ( "@) =~= seq!['(']);
    assert(ink("("@) =~= seq!['(']);
    assert(ink(" )"@) =~= seq![')']);
    assert(ink(")"@) =~= seq![')']);
    assert(ink(" ,"@) =~= seq![',']);
    assert(ink(","@) =~= seq![',']);
    assert(ink(",  "@) =~= seq![',']);
    assert(ink(", "@) =~= seq![',']);
}

proof fn lemma_ink_tidied(s: Seq<char>)
    ensures
        ink(formatter::tidied(s)) == ink(s),
{
    lemma_ink_patterns();
    lemma_ink_blank(seq![' ']);
    lemma_ink_words(s);
    lemma_ink_join(text::words(s), seq![' ']);
    let s0 = text::join(text::words(s), seq![' ']);
    lemma_ink_spaced(s0, "==="@);
    let s1 = formatter::spaced(s0, "==="@);
    lemma_ink_spaced(s1, "??"@);
    let s2 = formatter::spaced(s1, "??"@);
    lemma_ink_spaced(s2, "="@);
    let s3 = formatter::spaced(s2, "="@);
    lemma_ink_spaced(s3, "+"@);
    let s4 = formatter::spaced(s3, "+"@);
    lemma_ink_replace(s4, " ? - > "@, "?->"@);
    let s5 = text::replace_all(s4, " ? - > "@, "?->"@);
    lemma_ink_replace(s5, " ?-> "@, "?->"@);
    let s6 = text::replace_all(s5, " ?-> "@, "?->"@);
    lemma_ink_replace(s6, " -> "@, "->"@);
    let s7 = text::replace_all(s6, " -> "@, "->"@);
    lemma_ink_replace(s7, " :: "@, "::"@);
    let s8 = text::replace_all(s7, " :: "@, "::"@);
    lemma_ink_replace(s8, " - > "@, "->"@);
    let s9 = text::replace_all(s8, " - > "@, "->"@);
    lemma_ink_replace(s9, " : : "@, "::"@);
    let s10 = text::replace_all(s9, " : : "@, "::"@);
    lemma_ink_replace(s10, " ( "@, "("@);
    let s11 = text::replace_all(s10, " ( "@, "("@);
    lemma_ink_replace(s11, " )"@, ")"@);
    let s12 = text::replace_all(s11, " )"@, ")"@);
    lemma_ink_replace(s12, " ,"@, ","@);
    let s13 = text::replace_all(s12, " ,"@, ","@);
    lemma_ink_replace(s13, ",  "@, ", "@);
}

/// The normal form of a line holds the same characters in the same order, but for white space; a line
/// that holds a quote or a comment is left as it is.
pub proof fn law_lines_keep_their_characters(line: Seq<char>)
    ensures
        ink(formatter::normalized(line)) == ink(line),
        line.contains('\'') || line.contains('"') || line.contains('`') ==> formatter::normalized(
            line,
        ) == line,
        (exists|k: int|
            0 <= k < line.len() - 1 && #[trigger] line[k] == '/' && (line[k + 1] == '/' || line[k
                + 1] == '*')) ==> formatter::normalized(line) == line,
{
    lemma_ink_tidied(line);
    if exists|k: int|
        0 <= k < line.len() - 1 && #[trigger] line[k] == '/' && (line[k + 1] == '/' || line[k + 1]
            == '*') {
        let k = choose|k: int|
            0 <= k < line.len() - 1 && #[trigger] line[k] == '/' && (line[k + 1] == '/' || line[k
                + 1] == '*');
        reveal_strlit("//");
        reveal_strlit("/*");
        if line[k + 1] == '/' {
            assert(line.subrange(k, k + 2) =~= "//"@);
            assert(text::occurs_at(line, "//"@, k));
        } else {
            assert(line.subrange(k, k + 2) =~= "/*"@);
            assert(text::occurs_at(line, "/*"@, k));
        }
    }
}

proof fn lemma_ink_lines(s: Seq<char>)
    ensures
        ink_all(text::lines(s)) == ink(s),
    decreases s.len(),
{
    if s.len() > 0 {
        text::lemma_find(s, seq!['\n'], 0);
        match text::find_from(s, seq!['\n'], 0) {
            Some(i) => {
                assert(text::occurs_at(s, seq!['\n'], i));
                assert(s.subrange(i, i + 1)[0] == '\n');
                let rest = s.skip(i + 1);
                lemma_ink_lines(rest);
                let line = text::without_cr(s.take(i));
                lemma_ink_all_front(line, text::lines(rest));
                lemma_ink_parts(s, i + 1);
                assert(s.take(i + 1).drop_last() =~= s.take(i));
                assert(s.take(i + 1).last() == '\n');
                if s.take(i).len() > 0 && s.take(i).last() == '\r' {
                    assert(ink(s.take(i)) == ink(line));
                }
                assert(ink(s.take(i + 1)) == ink(line));
            },
            None => {
                lemma_ink_all_front(s, Seq::empty());
                assert(seq![s] + Seq::<Seq<char>>::empty() =~= seq![s]);
                assert(ink(s) + ink_all(Seq::empty()) =~= ink(s));
            },
        }
    }
}

proof fn lemma_ink_format_line(state: Formatting, raw: Seq<char>, first: bool)
    ensures
        ink(formatter::format_line(state, raw, first).out) == ink(state.out) + ink(raw),
{
    let line = text::trim(raw);
    let broken = state.out + formatter::line_break(first);
    lemma_ink_blank(formatter::line_break(first));
    lemma_ink_add(state.out, formatter::line_break(first));
    assert(ink(broken) =~= ink(state.out));
    lemma_ink_trim(raw);
    lemma_ink_add(broken, raw);
    if state.heredoc is None && line.len() == 0 {
        assert(ink(state.out) + ink(raw) =~= ink(state.out));
    }
    if state.heredoc is None && state.quote is None && line.len() > 0 {
        let depth = if formatter::begins_closing(line) {
            formatter::minus(state.indent, 1)
        } else {
            state.indent
        };
        let indented = broken + formatter::indentation(depth);
        lemma_ink_blank(formatter::indentation(depth));
        lemma_ink_add(broken, formatter::indentation(depth));
        assert(ink(indented) =~= ink(broken));
        lemma_ink_add(indented, formatter::normalized(line));
        law_lines_keep_their_characters(line);
    }
}

proof fn lemma_ink_format_lines(lines: Seq<Seq<char>>)
    ensures
        ink(formatter::format_lines(lines).out) == ink_all(lines),
    decreases lines.len(),
{
    if lines.len() > 0 {
        lemma_ink_format_lines(lines.drop_last());
        lemma_ink_format_line(
            formatter::format_lines(lines.drop_last()),
            lines.last(),
            lines.len() == 1,
        );
    }
}

/// Formatting keeps every character of a source in its order, but for white space.
pub proof fn law_formatting_keeps_the_code(source: Seq<char>)
    ensures
        ink(formatter::formatted(source)) == ink(source),
        source.len() > 0 && source.last() == '\n' ==> formatter::formatted(source).len() > 0
            && formatter::formatted(source).last() == '\n',
{
    lemma_ink_lines(source);
    lemma_ink_format_lines(text::lines(source));
    let out = formatter::format_lines(text::lines(source)).out;
    assert(out.push('\n').drop_last() =~= out);
}

/// Whether a text holds no white space, no operator, no bracket, no comma and no quote.
pub open spec fn word(s: Seq<char>) -> bool {
    &&& s.len() > 0
    &&& forall|k: int| 0 <= k < s.len() ==> word_char(#[trigger] s[k])
}

/// Whether a character may stand in such a text.
pub open spec fn word_char(c: char) -> bool {
    !text::whitespace(c) && c != '=' && c != '+' && c != '?' && c != '-' && c != '>' && c != ':' && c
        != '(' && c != ')' && c != ',' && c != '\'' && c != '"' && c != '`' && c != '/' && c != '*'
}

proof fn lemma_untouched(s: Seq<char>, pattern: Seq<char>, by: Seq<char>, k: int)
    requires
        0 <= k < pattern.len(),
        forall|i: int| 0 <= i < s.len() ==> #[trigger] s[i] != pattern[k],
    ensures
        text::replace_all(s, pattern, by) == s,
{
    text::lemma_find(s, pattern, 0);
    if text::find_from(s, pattern, 0) is Some {
        let at = text::find_from(s, pattern, 0)->0;
        assert(text::occurs_at(s, pattern, at));
        assert(s.subrange(at, at + pattern.len())[k] == s[at + k]);
    }
}

proof fn lemma_spaced_untouched(s: Seq<char>, operator: Seq<char>)
    requires
        operator.len() > 0,
        forall|i: int| 0 <= i < s.len() ==> #[trigger] s[i] != operator[0],
    ensures
        formatter::spaced(s, operator) == s,
{
    let wide = seq![' '] + operator + seq![' '];
    let wider = seq![' ', ' '] + operator + seq![' ', ' '];
    lemma_untouched(s, operator, wide, 0);
    assert(wider[2] == operator[0]);
    lemma_untouched(s, wider, wide, 2);
}

proof fn lemma_no_brackets(s: Seq<char>)
    requires
        forall|i: int|
            0 <= i < s.len() ==> {
                let c = #[trigger] s[i];
                c != '>' && c != ':' && c != '(' && c != ')' && c != ','
            },
    ensures
        ({
            let s = text::replace_all(s, " ? - > "@, "?->"@);
            let s = text::replace_all(s, " ?-> "@, "?->"@);
            let s = text::replace_all(s, " -> "@, "->"@);
            let s = text::replace_all(s, " :: "@, "::"@);
            let s = text::replace_all(s, " - > "@, "->"@);
            let s = text::replace_all(s, " : : "@, "::"@);
            let s = text::replace_all(s, " ( "@, "("@);
            let s = text::replace_all(s, " )"@, ")"@);
            let s = text::replace_all(s, " ,"@, ","@);
            text::replace_all(s, ",  "@, ", "@)
        }) == s,
{
    reveal_strlit(" ? - > ");
    reveal_strlit(" ?-> ");
    reveal_strlit(" -> ");
    reveal_strlit(" :: ");
    reveal_strlit(" - > ");
    reveal_strlit(" : : ");
    reveal_strlit(" ( ");
    reveal_strlit(" )");
    reveal_strlit(" ,");
    reveal_strlit(",  ");
    lemma_untouched(s, " ? - > "@, "?->"@, 5);
    lemma_untouched(s, " ?-> "@, "?->"@, 3);
    lemma_untouched(s, " -> "@, "->"@, 2);
    lemma_untouched(s, " :: "@, "::"@, 1);
    lemma_untouched(s, " - > "@, "->"@, 3);
    lemma_untouched(s, " : : "@, "::"@, 1);
    lemma_untouched(s, " ( "@, "("@, 1);
    lemma_untouched(s, " )"@, ")"@, 1);
    lemma_untouched(s, " ,"@, ","@, 1);
    lemma_untouched(s, ",  "@, ", "@, 0);
}

proof fn lemma_one_word(s: Seq<char>)
    requires
        s.len() > 0,
        forall|i: int| 0 <= i < s.len() ==> !text::whitespace(#[trigger] s[i]),
    ensures
        text::join(text::words(s), seq![' ']) == s,
{
    text::lemma_words(s);
    assert(!text::whitespace(s[0]));
    assert(text::trim_start(s) == s);
    if text::word_len(s) < s.len() {
        assert(!text::whitespace(s[text::word_len(s) as int]));
    }
    let rest = s.skip(s.len() as int);
    assert(rest =~= Seq::<char>::empty());
    assert(text::words(rest) =~= Seq::<Seq<char>>::empty());
    assert(s.take(s.len() as int) =~= s);
    assert(text::words(s) =~= seq![s]);
}

proof fn lemma_spaced_once(a: Seq<char>, operator: Seq<char>, b: Seq<char>)
    requires
        word(a),
        word(b),
        operator.len() > 0,
        !word_char(operator[0]),
        !text::whitespace(operator[0]),
        forall|i: int| 0 <= i < operator.len() ==> #[trigger] operator[i] == operator[0],
    ensures
        formatter::spaced(a + operator + b, operator) == a + (seq![' '] + operator + seq![' ']) + b,
{
    let s = a + operator + b;
    let wide = seq![' '] + operator + seq![' '];
    let wider = seq![' ', ' '] + operator + seq![' ', ' '];
    let n = a.len() as int;
    text::lemma_find(s, operator, 0);
    assert(s.subrange(n, n + operator.len()) =~= operator);
    assert(text::occurs_at(s, operator, n));
    let at = text::find_from(s, operator, 0)->0;
    assert(at == n) by {
        if at < n {
            assert(s.subrange(at, at + operator.len())[0] == s[at]);
            assert(s[at] == a[at]);
        }
    }
    assert(s.take(n) =~= a);
    assert(s.skip(n + operator.len()) =~= b);
    assert forall|i: int| 0 <= i < b.len() implies #[trigger] b[i] != operator[0] by {
        assert(word_char(b[i]));
    }
    lemma_untouched(b, operator, wide, 0);
    let once = a + wide + b;
    assert(text::replace_all(s, operator, wide) == once);
    text::lemma_find(once, wider, 0);
    if text::find_from(once, wider, 0) is Some {
        let k = text::find_from(once, wider, 0)->0;
        assert(text::occurs_at(once, wider, k));
        let part = once.subrange(k, k + wider.len());
        assert(part[0] == ' ' && part[1] == ' ');
        assert(once[k] == ' ' && once[k + 1] == ' ');
        lemma_single_spaces(a, operator, b, k);
    }
}

proof fn lemma_single_spaces(a: Seq<char>, operator: Seq<char>, b: Seq<char>, k: int)
    requires
        word(a),
        word(b),
        operator.len() > 0,
        forall|i: int| 0 <= i < operator.len() ==> !text::whitespace(#[trigger] operator[i]),
        0 <= k,
        k + 1 < (a + (seq![' '] + operator + seq![' ']) + b).len(),
    ensures
        !((a + (seq![' '] + operator + seq![' ']) + b)[k] == ' ' && (a + (seq![' '] + operator
            + seq![' ']) + b)[k + 1] == ' '),
{
    let wide = seq![' '] + operator + seq![' '];
    let once = a + wide + b;
    let n = a.len() as int;
    let m = operator.len() as int;
    if k < n {
        assert(once[k] == a[k]);
        assert(word_char(a[k]));
    } else if k == n {
        assert(once[k + 1] == operator[0]);
    } else if k <= n + m {
        assert(once[k] == operator[k - n - 1]);
    } else {
        assert(once[k + 1] == b[k + 1 - n - m - 2]);
        assert(word_char(b[k + 1 - n - m - 2]));
    }
}

/// A line of words, however many spaces stand between them, is written with one space between each
/// two; and one space is put on either side of an assignment, an addition and a default for nothing
/// that is written without.
pub proof fn law_spaces_are_tidied(line: Seq<char>, a: Seq<char>, b: Seq<char>)
    requires
        word(a),
        word(b),
        forall|i: int|
            0 <= i < line.len() ==> word_char(#[trigger] line[i]) || text::whitespace(line[i]),
    ensures
        formatter::normalized(line) == text::join(text::words(line), seq![' ']),
        formatter::normalized(a + "="@ + b) == a + " = "@ + b,
        formatter::normalized(a + "+"@ + b) == a + " + "@ + b,
        formatter::normalized(a + "??"@ + b) == a + " ?? "@ + b,
{
    reveal_strlit("===");
    reveal_strlit("??");
    reveal_strlit("=");
    reveal_strlit("+");
    reveal_strlit(" = ");
    reveal_strlit(" + ");
    reveal_strlit(" ?? ");
    lemma_plain_line(line);
    let s = text::join(text::words(line), seq![' ']);
    lemma_joined_chars(line);
    lemma_spaced_untouched(s, "==="@);
    lemma_spaced_untouched(s, "??"@);
    lemma_spaced_untouched(s, "="@);
    lemma_spaced_untouched(s, "+"@);
    lemma_no_brackets(s);
    lemma_operator(a, "="@, b);
    assert(seq![' '] + "="@ + seq![' '] =~= " = "@);
    lemma_operator(a, "+"@, b);
    assert(seq![' '] + "+"@ + seq![' '] =~= " + "@);
    lemma_operator(a, "??"@, b);
    assert(seq![' '] + "??"@ + seq![' '] =~= " ?? "@);
}

proof fn lemma_plain_line(line: Seq<char>)
    requires
        forall|i: int|
            0 <= i < line.len() ==> {
                let c = #[trigger] line[i];
                c != '\'' && c != '"' && c != '`' && c != '/'
            },
    ensures
        !formatter::left_alone(line),
{
    reveal_strlit("//");
    reveal_strlit("/*");
    if text::contains_text(line, "//"@) {
        let k = choose|k: int| text::occurs_at(line, "//"@, k);
        assert(line.subrange(k, k + 2)[0] == line[k]);
    }
    if text::contains_text(line, "/*"@) {
        let k = choose|k: int| text::occurs_at(line, "/*"@, k);
        assert(line.subrange(k, k + 2)[0] == line[k]);
    }
}

proof fn lemma_joined_chars(line: Seq<char>)
    requires
        forall|i: int|
            0 <= i < line.len() ==> word_char(#[trigger] line[i]) || text::whitespace(line[i]),
    ensures
        forall|i: int|
            0 <= i < text::join(text::words(line), seq![' ']).len() ==> {
                let c = #[trigger] text::join(text::words(line), seq![' '])[i];
                word_char(c) || c == ' '
            },
{
    lemma_words_chars(line);
    lemma_join_chars(text::words(line));
}

proof fn lemma_words_chars(line: Seq<char>)
    requires
        forall|i: int|
            0 <= i < line.len() ==> word_char(#[trigger] line[i]) || text::whitespace(line[i]),
    ensures
        forall|k: int| 0 <= k < text::words(line).len() ==> word(#[trigger] text::words(line)[k]),
    decreases line.len(),
{
    text::lemma_words(line);
    let rest = text::trim_start(line);
    text::lemma_words(rest);
    lemma_trimmed_chars(line);
    if rest.len() > 0 {
        let n = text::word_len(rest) as int;
        let first = rest.take(n);
        let more = rest.skip(n);
        assert forall|i: int| 0 <= i < first.len() implies word_char(#[trigger] first[i]) by {
            assert(first[i] == rest[i]);
        }
        assert forall|i: int| 0 <= i < more.len() implies word_char(#[trigger] more[i])
            || text::whitespace(more[i]) by {
            assert(more[i] == rest[i + n]);
        }
        lemma_words_chars(more);
        assert forall|k: int| 0 <= k < text::words(line).len() implies word(
            #[trigger] text::words(line)[k],
        ) by {
            if k == 0 {
                assert(text::words(line)[0] == first);
            } else {
                assert(text::words(line)[k] == text::words(more)[k - 1]);
            }
        }
    }
}

proof fn lemma_trimmed_chars(line: Seq<char>)
    requires
        forall|i: int|
            0 <= i < line.len() ==> word_char(#[trigger] line[i]) || text::whitespace(line[i]),
    ensures
        forall|i: int|
            0 <= i < text::trim_start(line).len() ==> word_char(
                #[trigger] text::trim_start(line)[i],
            ) || text::whitespace(text::trim_start(line)[i]),
    decreases line.len(),
{
    if line.len() > 0 && text::whitespace(line[0]) {
        assert forall|i: int| 0 <= i < line.skip(1).len() implies word_char(
            #[trigger] line.skip(1)[i],
        ) || text::whitespace(line.skip(1)[i]) by {
            assert(line.skip(1)[i] == line[i + 1]);
        }
        lemma_trimmed_chars(line.skip(1));
        assert(text::trim_start(line) == text::trim_start(line.skip(1)));
    } else {
        assert(text::trim_start(line) == line);
    }
}

proof fn lemma_join_chars(parts: Seq<Seq<char>>)
    requires
        forall|k: int| 0 <= k < parts.len() ==> word(#[trigger] parts[k]),
    ensures
        forall|i: int|
            0 <= i < text::join(parts, seq![' ']).len() ==> {
                let c = #[trigger] text::join(parts, seq![' '])[i];
                word_char(c) || c == ' '
            },
    decreases parts.len(),
{
    if parts.len() == 1 {
        assert(word(parts[0]));
    } else if parts.len() > 1 {
        let before = parts.drop_last();
        assert forall|k: int| 0 <= k < before.len() implies word(#[trigger] before[k]) by {
            assert(before[k] == parts[k]);
        }
        lemma_join_chars(before);
        assert(word(parts[parts.len() - 1]));
        let head = text::join(before, seq![' ']);
        let all = text::join(parts, seq![' ']);
        assert forall|i: int| 0 <= i < all.len() implies {
            let c = #[trigger] all[i];
            word_char(c) || c == ' '
        } by {
            if i < head.len() {
                assert(all[i] == head[i]);
            } else if i > head.len() {
                assert(all[i] == parts.last()[i - head.len() - 1]);
            }
        }
    }
}

proof fn lemma_operator(a: Seq<char>, operator: Seq<char>, b: Seq<char>)
    requires
        word(a),
        word(b),
        operator == "="@ || operator == "+"@ || operator == "??"@,
    ensures
        formatter::normalized(a + operator + b) == a + (seq![' '] + operator + seq![' ']) + b,
{
    reveal_strlit("===");
    reveal_strlit("??");
    reveal_strlit("=");
    reveal_strlit("+");
    let s = a + operator + b;
    let done = a + (seq![' '] + operator + seq![' ']) + b;
    assert forall|i: int| 0 <= i < s.len() implies word_char(#[trigger] s[i]) || s[i]
        == operator[0] by {
        if i < a.len() {
            assert(s[i] == a[i]);
        } else if i >= a.len() + operator.len() {
            assert(s[i] == b[i - a.len() - operator.len()]);
        }
    }
    assert forall|i: int| 0 <= i < done.len() implies word_char(#[trigger] done[i]) || done[i]
        == operator[0] || done[i] == ' ' by {
        let n = a.len() as int;
        let m = operator.len() as int;
        if i < n {
            assert(done[i] == a[i]);
        } else if i >= n + m + 2 {
            assert(done[i] == b[i - n - m - 2]);
        }
    }
    lemma_plain_line(s);
    lemma_one_word(s);
    lemma_spaced_once(a, operator, b);
    lemma_no_triple(s, operator, a, b);
    if operator == "="@ {
        lemma_spaced_untouched(s, "??"@);
        lemma_spaced_untouched(done, "+"@);
    } else if operator == "+"@ {
        lemma_spaced_untouched(s, "??"@);
        lemma_spaced_untouched(s, "="@);
    } else {
        lemma_spaced_untouched(done, "="@);
        lemma_spaced_untouched(done, "+"@);
    }
    lemma_no_brackets(done);
}

proof fn lemma_no_triple(s: Seq<char>, operator: Seq<char>, a: Seq<char>, b: Seq<char>)
    requires
        s == a + operator + b,
        word(a),
        word(b),
        operator == "="@ || operator == "+"@ || operator == "??"@,
    ensures
        formatter::spaced(s, "==="@) == s,
{
    reveal_strlit("===");
    reveal_strlit("??");
    reveal_strlit("=");
    reveal_strlit("+");
    let wide = seq![' '] + "==="@ + seq![' '];
    let wider = seq![' ', ' '] + "==="@ + seq![' ', ' '];
    text::lemma_find(s, "==="@, 0);
    if text::find_from(s, "==="@, 0) is Some {
        let k = text::find_from(s, "==="@, 0)->0;
        assert(text::occurs_at(s, "==="@, k));
        let part = s.subrange(k, k + 3);
        assert(part[0] == s[k] && part[1] == s[k + 1]);
        lemma_only_operator(s, operator, a, b, k);
        lemma_only_operator(s, operator, a, b, k + 1);
    }
    text::lemma_find(s, wider, 0);
    if text::find_from(s, wider, 0) is Some {
        let k = text::find_from(s, wider, 0)->0;
        assert(text::occurs_at(s, wider, k));
        assert(s.subrange(k, k + wider.len())[0] == s[k]);
        lemma_only_operator(s, operator, a, b, k);
    }
}

proof fn lemma_only_operator(
    s: Seq<char>,
    operator: Seq<char>,
    a: Seq<char>,
    b: Seq<char>,
    k: int,
)
    requires
        s == a + operator + b,
        word(a),
        word(b),
        0 <= k < s.len(),
    ensures
        k < a.len() || k >= a.len() + operator.len() ==> word_char(s[k]),
        a.len() <= k < a.len() + operator.len() ==> s[k] == operator[k - a.len()],
{
    if k < a.len() {
        assert(s[k] == a[k]);
    } else if k >= a.len() + operator.len() {
        assert(s[k] == b[k - a.len() - operator.len()]);
    }
}

/// Where the reading of a line stands in code.
pub open spec fn reading(opened: nat, closed: nat) -> Scan {
    Scan { block_comment: false, quote: None, opens: opened, closes: closed }
}

proof fn lemma_balance_add(a: Seq<char>, b: Seq<char>)
    ensures
        balance(a + b) == balance(a) + balance(b),
    decreases b.len(),
{
    if b.len() == 0 {
        assert(a + b =~= a);
    } else {
        assert((a + b).drop_last() =~= a + b.drop_last());
        lemma_balance_add(a, b.drop_last());
    }
}

proof fn lemma_scan_to(s: Seq<char>, at: int, to: int, opened: nat, closed: nat) -> (r: (nat, nat))
    requires
        0 <= at <= to <= s.len(),
        plain(s.subrange(at, to)),
    ensures
        formatter::scan(s, at, reading(opened, closed)) == formatter::scan(s, to, reading(r.0, r.1)),
        r.0 - r.1 == opened - closed + balance(s.subrange(at, to)),
        opened <= r.0 <= opened + (to - at),
        closed <= r.1 <= closed + (to - at),
        at < to && closes(s[at]) ==> r.1 > closed,
    decreases to - at,
{
    let part = s.subrange(at, to);
    if at == to {
        assert(part =~= Seq::<char>::empty());
        (opened, closed)
    } else {
        let c = s[at];
        assert(part[0] == c);
        let more = s.subrange(at + 1, to);
        assert(part =~= seq![c] + more);
        lemma_balance_add(seq![c], more);
        assert(seq![c].drop_last() =~= Seq::<char>::empty());
        assert(balance(seq![c]) == (if opens(c) {
            1int
        } else if closes(c) {
            -1
        } else {
            0
        })) by {
            reveal_with_fuel(balance, 2);
        }
        assert forall|k: int| 0 <= k < more.len() implies {
            let d = #[trigger] more[k];
            d != '\'' && d != '"' && d != '`' && d != '/' && d != '#' && d != '<'
        } by {
            assert(more[k] == part[k + 1]);
        }
        lemma_scan_to(
            s,
            at + 1,
            to,
            if opens(c) {
                opened + 1
            } else {
                opened
            },
            if closes(c) {
                closed + 1
            } else {
                closed
            },
        )
    }
}

/// What stands in a comment counts for nothing: a line whose rest is a comment changes the depth by
/// the brackets before that alone, as long as they close none that was never opened.
pub proof fn law_comments_hold_no_brackets(
    state: Formatting,
    raw: Seq<char>,
    first: bool,
    code: Seq<char>,
    comment: Seq<char>,
)
    requires
        in_code(state),
        !state.block_comment,
        text::trim(raw) == code + comment,
        plain(code),
        comment.len() > 0,
        comment[0] == '#' || (comment.len() > 1 && comment[0] == '/' && comment[1] == '/'),
        forall|k: int| 0 <= k < comment.len() ==> #[trigger] comment[k] != '<',
        0 <= state.indent + balance(code),
        state.indent + text::trim(raw).len() <= usize::MAX,
        code.len() > 0 && closes(code[0]) ==> state.indent > 0,
    ensures
        formatter::format_line(state, raw, first).indent == state.indent + balance(code),
        in_code(formatter::format_line(state, raw, first)),
        !formatter::format_line(state, raw, first).block_comment,
{
    let line = text::trim(raw);
    let n = code.len() as int;
    assert(line.subrange(0, n) =~= code);
    let (o, c) = lemma_scan_to(line, 0, n, 0, 0);
    assert(line[n] == comment[0]);
    if comment.len() > 1 {
        assert(line[n + 1] == comment[1]);
    }
    assert(formatter::scan(line, n, reading(o, c)) == reading(o, c));
    if n > 0 {
        assert(line[0] == code[0]);
    }
    assert forall|k: int| 0 <= k < line.len() implies #[trigger] line[k] != '<' by {
        if k < n {
            assert(line[k] == code[k]);
        } else {
            assert(line[k] == comment[k - n]);
        }
    }
    lemma_no_angle(line);
}

proof fn lemma_no_angle(s: Seq<char>)
    requires
        forall|k: int| 0 <= k < s.len() ==> #[trigger] s[k] != '<',
    ensures
        formatter::heredoc_delimiter(s) is None,
{
    reveal_strlit("<<<");
    text::lemma_find(s, "<<<"@, 0);
    if text::find_from(s, "<<<"@, 0) is Some {
        let at = text::find_from(s, "<<<"@, 0)->0;
        assert(text::occurs_at(s, "<<<"@, at));
        assert(s.subrange(at, at + 3)[0] == s[at]);
    }
}

proof fn lemma_scan_quoted(
    s: Seq<char>,
    at: int,
    to: int,
    quote: char,
    opened: nat,
    closed: nat,
)
    requires
        0 <= at <= to < s.len(),
        s[to] == quote,
        quote != '\\',
        forall|k: int| at <= k < to ==> #[trigger] s[k] != quote && s[k] != '\\',
    ensures
        formatter::scan(
            s,
            at,
            Scan { block_comment: false, quote: Some(quote), opens: opened, closes: closed },
        ) == formatter::scan(s, to + 1, reading(opened, closed)),
    decreases to - at,
{
    if at < to {
        assert(s[at] != quote);
        lemma_scan_quoted(s, at + 1, to, quote, opened, closed);
    }
}

/// What stands in quotes counts for nothing: a line changes the depth by the brackets before and
/// behind them alone, as long as they close none that was never opened.
pub proof fn law_quotes_hold_no_brackets(
    state: Formatting,
    raw: Seq<char>,
    first: bool,
    left: Seq<char>,
    quote: char,
    inner: Seq<char>,
    right: Seq<char>,
)
    requires
        in_code(state),
        !state.block_comment,
        quote == '\'' || quote == '"' || quote == '`',
        text::trim(raw) == left + seq![quote] + inner + seq![quote] + right,
        plain(left),
        plain(right),
        forall|k: int|
            0 <= k < inner.len() ==> #[trigger] inner[k] != quote && inner[k] != '\\' && inner[k]
                != '<',
        0 <= state.indent + balance(left) + balance(right),
        state.indent + text::trim(raw).len() <= usize::MAX,
        left.len() > 0 && closes(left[0]) ==> state.indent > 0,
    ensures
        formatter::format_line(state, raw, first).indent == state.indent + balance(left) + balance(
            right,
        ),
        in_code(formatter::format_line(state, raw, first)),
        !formatter::format_line(state, raw, first).block_comment,
{
    let line = text::trim(raw);
    let n = left.len() as int;
    let m = n + 1 + inner.len() as int;
    assert(line.subrange(0, n) =~= left);
    let (o, c) = lemma_scan_to(line, 0, n, 0, 0);
    assert(line[n] == quote);
    assert(line[m] == quote);
    assert forall|k: int| n + 1 <= k < m implies #[trigger] line[k] != quote && line[k] != '\\' by {
        assert(line[k] == inner[k - n - 1]);
    }
    lemma_scan_quoted(line, n + 1, m, quote, o, c);
    let end = line.len() as int;
    assert(line.subrange(m + 1, end) =~= right);
    let (o2, c2) = lemma_scan_to(line, m + 1, end, o, c);
    assert(formatter::scan(line, end, reading(o2, c2)) == reading(o2, c2));
    if n > 0 {
        assert(line[0] == left[0]);
    } else {
        assert(line[0] == quote);
    }
    assert forall|k: int| 0 <= k < line.len() implies #[trigger] line[k] != '<' by {
        if k < n {
            assert(line[k] == left[k]);
        } else if k > n && k < m {
            assert(line[k] == inner[k - n - 1]);
        } else if k > m {
            assert(line[k] == right[k - m - 1]);
        }
    }
    lemma_no_angle(line);
}

/// A heredoc begins with the line that names its end, and goes on to the first line that is just that
/// name, alone or with a semicolon.
pub proof fn law_heredocs_end_with_their_name(
    state: Formatting,
    raw: Seq<char>,
    first: bool,
    code: Seq<char>,
    name: Seq<char>,
)
    requires
        name.len() > 0,
        forall|k: int|
            0 <= k < name.len() ==> {
                let c = #[trigger] name[k];
                ('0' <= c && c <= '9') || ('A' <= c && c <= 'Z') || ('a' <= c && c <= 'z') || c
                    == '_'
            },
        forall|k: int| 0 <= k < code.len() ==> #[trigger] code[k] != '<',
    ensures
        in_code(state) && text::trim(raw) == code + "<<<"@ + name ==> formatter::format_line(
            state,
            raw,
            first,
        ).heredoc == Some(name),
        state.heredoc == Some(name) && (text::trim(raw) == name || text::trim(raw) == name + ";"@)
            ==> formatter::format_line(state, raw, first).heredoc is None,
        state.heredoc == Some(name) && text::trim(raw) != name && text::trim(raw) != name + ";"@
            ==> formatter::format_line(state, raw, first).heredoc == Some(name),
{
    reveal_strlit("<<<");
    reveal_strlit(";");
    assert(name.push(';') =~= name + ";"@);
    let line = text::trim(raw);
    if in_code(state) && line == code + "<<<"@ + name {
        let n = code.len() as int;
        text::lemma_find(line, "<<<"@, 0);
        assert(line.subrange(n, n + 3) =~= "<<<"@);
        assert(text::occurs_at(line, "<<<"@, n));
        let at = text::find_from(line, "<<<"@, 0)->0;
        assert(at == n) by {
            if at < n {
                assert(line.subrange(at, at + 3)[0] == code[at]);
            }
        }
        assert(line.skip(n + 3) =~= name);
        assert(!text::whitespace(name[0]));
        assert(text::trim_start(name) == name);
        lemma_delimiter(name, 0);
        assert(name.skip(0) =~= name);
        assert(name.take(name.len() as int) =~= name);
        let rest = name.skip(name.len() as int);
        assert(rest =~= Seq::<char>::empty());
        assert(text::trim(rest).len() == 0);
        assert(formatter::all_delimiter(name));
        assert(formatter::heredoc_delimiter(line) == Some(name));
    }
}

proof fn lemma_delimiter(name: Seq<char>, k: int)
    requires
        0 <= k <= name.len(),
        forall|i: int| 0 <= i < name.len() ==> formatter::delimiter_char(#[trigger] name[i]),
    ensures
        formatter::delimiter_len(name.skip(k)) == name.len() - k,
    decreases name.len() - k,
{
    if k < name.len() {
        assert(name.skip(k)[0] == name[k]);
        assert(name.skip(k).skip(1) =~= name.skip(k + 1));
        lemma_delimiter(name, k + 1);
    }
}

proof fn lemma_scan_commented(s: Seq<char>, at: int, to: int, opened: nat, closed: nat)
    requires
        0 <= at <= to <= s.len(),
        to == s.len() || (to + 1 < s.len() && s[to] == '*' && s[to + 1] == '/'),
        forall|k: int|
            at <= k < to ==> !(#[trigger] s[k] == '*' && k + 1 < s.len() && s[k + 1] == '/'),
    ensures
        formatter::scan(
            s,
            at,
            Scan { block_comment: true, quote: None, opens: opened, closes: closed },
        ) == if to == s.len() {
            Scan { block_comment: true, quote: None, opens: opened, closes: closed }
        } else {
            formatter::scan(s, to + 2, reading(opened, closed))
        },
    decreases to - at,
{
    if at < to {
        assert(!(s[at] == '*' && at + 1 < s.len() && s[at + 1] == '/'));
        lemma_scan_commented(s, at + 1, to, opened, closed);
    }
}

/// What stands between the marks of a comment counts for nothing, and a comment that is not closed on
/// its line goes on in the next.
pub proof fn law_marked_comments_hold_no_brackets(
    state: Formatting,
    raw: Seq<char>,
    first: bool,
    left: Seq<char>,
    inner: Seq<char>,
    right: Option<Seq<char>>,
)
    requires
        in_code(state),
        !state.block_comment,
        text::trim(raw) == left + seq!['/', '*'] + inner + match right {
            Some(more) => seq!['*', '/'] + more,
            None => Seq::empty(),
        },
        plain(left),
        right is Some ==> plain(right->0),
        forall|k: int| 0 <= k < inner.len() ==> #[trigger] inner[k] != '<' && inner[k] != '*',
        0 <= state.indent + balance(left) + match right {
            Some(more) => balance(more),
            None => 0,
        },
        state.indent + text::trim(raw).len() <= usize::MAX,
        left.len() > 0 && closes(left[0]) ==> state.indent > 0,
    ensures
        formatter::format_line(state, raw, first).indent == state.indent + balance(left)
            + match right {
            Some(more) => balance(more),
            None => 0,
        },
        in_code(formatter::format_line(state, raw, first)),
        formatter::format_line(state, raw, first).block_comment == (right is None),
{
    let line = text::trim(raw);
    let n = left.len() as int;
    let m = n + 2 + inner.len() as int;
    let end = line.len() as int;
    assert(line.subrange(0, n) =~= left);
    let (o, c) = lemma_scan_to(line, 0, n, 0, 0);
    assert(line[n] == '/' && line[n + 1] == '*');
    assert forall|k: int| n + 2 <= k < m implies #[trigger] line[k] == inner[k - n - 2] by {}
    if right is Some {
        assert(line[m] == '*' && line[m + 1] == '/');
    }
    assert forall|k: int| n + 2 <= k < m implies !(#[trigger] line[k] == '*' && k + 1 < line.len()
        && line[k + 1] == '/') by {
        assert(line[k] == inner[k - n - 2]);
    }
    lemma_scan_commented(line, n + 2, m, o, c);
    if right is Some {
        let more = right->0;
        assert(line.subrange(m + 2, end) =~= more);
        let (o2, c2) = lemma_scan_to(line, m + 2, end, o, c);
        assert(formatter::scan(line, end, reading(o2, c2)) == reading(o2, c2));
    }
    if n > 0 {
        assert(line[0] == left[0]);
    }
    assert forall|k: int| 0 <= k < line.len() implies #[trigger] line[k] != '<' by {
        if k < n {
            assert(line[k] == left[k]);
        } else if n + 2 <= k && k < m {
            assert(line[k] == inner[k - n - 2]);
        } else if right is Some && k >= m + 2 {
            assert(line[k] == right->0[k - m - 2]);
        }
    }
    lemma_no_angle(line);
}

/// A quote behind a backslash closes nothing: what follows it is still quoted.
pub proof fn law_escaped_quotes_close_nothing(
    state: Formatting,
    raw: Seq<char>,
    first: bool,
    left: Seq<char>,
    quote: char,
    inner: Seq<char>,
    right: Seq<char>,
)
    requires
        in_code(state),
        !state.block_comment,
        quote == '\'' || quote == '"' || quote == '`',
        text::trim(raw) == left + seq![quote, '\\', quote] + inner + seq![quote] + right,
        plain(left),
        plain(right),
        forall|k: int|
            0 <= k < inner.len() ==> #[trigger] inner[k] != quote && inner[k] != '\\' && inner[k]
                != '<',
        0 <= state.indent + balance(left) + balance(right),
        state.indent + text::trim(raw).len() <= usize::MAX,
        left.len() > 0 && closes(left[0]) ==> state.indent > 0,
    ensures
        formatter::format_line(state, raw, first).indent == state.indent + balance(left) + balance(
            right,
        ),
        in_code(formatter::format_line(state, raw, first)),
{
    let line = text::trim(raw);
    let n = left.len() as int;
    let m = n + 3 + inner.len() as int;
    let end = line.len() as int;
    assert(line.subrange(0, n) =~= left);
    let (o, c) = lemma_scan_to(line, 0, n, 0, 0);
    assert(line[n] == quote && line[n + 1] == '\\' && line[n + 2] == quote && line[m] == quote);
    assert forall|k: int| n + 3 <= k < m implies #[trigger] line[k] != quote && line[k] != '\\' by {
        assert(line[k] == inner[k - n - 3]);
    }
    let inside = Scan { block_comment: false, quote: Some(quote), opens: o, closes: c };
    assert(formatter::scan(line, n, reading(o, c)) == formatter::scan(line, n + 1, inside));
    assert(formatter::scan(line, n + 1, inside) == formatter::scan(line, n + 3, inside));
    lemma_scan_quoted(line, n + 3, m, quote, o, c);
    assert(line.subrange(m + 1, end) =~= right);
    let (o2, c2) = lemma_scan_to(line, m + 1, end, o, c);
    assert(formatter::scan(line, end, reading(o2, c2)) == reading(o2, c2));
    if n > 0 {
        assert(line[0] == left[0]);
    }
    assert forall|k: int| 0 <= k < line.len() implies #[trigger] line[k] != '<' by {
        if k < n {
            assert(line[k] == left[k]);
        } else if n + 3 <= k && k < m {
            assert(line[k] == inner[k - n - 3]);
        } else if k > m {
            assert(line[k] == right[k - m - 1]);
        }
    }
    lemma_no_angle(line);
}

} // verus!
