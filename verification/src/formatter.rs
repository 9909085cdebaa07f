//! Formats PHP source: indents by brackets and tidies the spaces of plain lines.

use vstd::prelude::*;
use vstd::slice::slice_subrange;
use vstd::slice::slice_to_vec;
use vstd::string::*;

use crate::text;

verus! {

/// Whether a line is left as it is: it holds a quote or a comment.
pub open spec fn left_alone(line: Seq<char>) -> bool {
    ||| line.contains('\'')
    ||| line.contains('"')
    ||| line.contains('`')
    ||| text::contains_text(line, "//"@)
    ||| text::contains_text(line, "/*"@)
}

/// `s` with one space at either side of each `operator`.
pub open spec fn spaced(s: Seq<char>, operator: Seq<char>) -> Seq<char> {
    let wide = seq![' '] + operator + seq![' '];
    text::replace_all(
        text::replace_all(s, operator, wide),
        seq![' ', ' '] + operator + seq![' ', ' '],
        wide,
    )
}

/// `s` with one space between its words, spaces around its operators and none around its brackets
/// and member accesses.
pub open spec fn tidied(s: Seq<char>) -> Seq<char> {
    let s = text::join(text::words(s), seq![' ']);
    let s = spaced(s, "==="@);
    let s = spaced(s, "??"@);
    let s = spaced(s, "="@);
    let s = spaced(s, "+"@);
    let s = text::replace_all(s, " ? - > "@, "?->"@);
    let s = text::replace_all(s, " ?-> "@, "?->"@);
    let s = text::replace_all(s, " -> "@, "->"@);
    let s = text::replace_all(s, " :: "@, "::"@);
    let s = text::replace_all(s, " - > "@, "->"@);
    let s = text::replace_all(s, " : : "@, "::"@);
    let s = text::replace_all(s, " ( "@, "("@);
    let s = text::replace_all(s, " )"@, ")"@);
    let s = text::replace_all(s, " ,"@, ","@);
    text::replace_all(s, ",  "@, ", "@)
}

/// A line in its normal form.
pub open spec fn normalized(line: Seq<char>) -> Seq<char> {
    if left_alone(line) {
        line
    } else {
        tidied(line)
    }
}

fn is_left_alone(line: &[char]) -> (r: bool)
    ensures
        r == left_alone(line@),
{
    text::holds(line, '\'') || text::holds(line, '"') || text::holds(line, '`') || text::contains(
        line,
        &text::chars_of("//"),
    ) || text::contains(line, &text::chars_of("/*"))
}

fn space_out(s: Vec<char>, operator: &str) -> (r: Vec<char>)
    requires
        operator@.len() > 0,
    ensures
        r@ == spaced(s@, operator@),
{
    let mut wide = String::new();
    wide.push(' ');
    wide.append(operator);
    wide.push(' ');
    let mut wider = String::new();
    wider.push(' ');
    wider.push(' ');
    wider.append(operator);
    wider.push(' ');
    wider.push(' ');
    assert(wide@ =~= seq![' '] + operator@ + seq![' ']);
    assert(wider@ =~= seq![' ', ' '] + operator@ + seq![' ', ' ']);
    let once = text::replaced(&s, operator, &wide);
    text::replaced(&once, &wider, &wide)
}

/// The words of `s` with one space between each two.
pub fn join_words(s: &[char]) -> (r: Vec<char>)
    ensures
        r@ == text::join(text::words(s@), seq![' ']),
{
    let words = text::split_words(s);
    let ghost all = text::runs(words@);
    let mut out: Vec<char> = Vec::new();
    let mut i: usize = 0;
    assert(all.take(0) =~= Seq::<Seq<char>>::empty());
    while i < words.len()
        invariant
            i <= words@.len(),
            all == text::runs(words@),
            out@ == text::join(all.take(i as int), seq![' ']),
        decreases words@.len() - i,
    {
        let ghost before = out@;
        assert(all.take(i + 1).drop_last() =~= all.take(i as int));
        assert(all.take(i + 1).last() == words@[i as int]@);
        if i > 0 {
            out.push(' ');
        }
        out.extend_from_slice(&words[i]);
        assert(out@ =~= text::join(all.take(i + 1), seq![' ']));
        i += 1;
    }
    assert(all.take(i as int) =~= all);
    out
}

fn tidy(line: &[char]) -> (r: Vec<char>)
    ensures
        r@ == tidied(line@),
{
    proof {
        reveal_strlit("===");
        reveal_strlit("??");
        reveal_strlit("=");
        reveal_strlit("+");
        reveal_strlit(" ? - > ");
        reveal_strlit(" ?-> ");
        reveal_strlit(" -> ");
        reveal_strlit(" :: ");
        reveal_strlit(" - > ");
        reveal_strlit(" : : ");
        reveal_strlit(" ( ");
        reveal_strlit(" )");
        reveal_strlit(" ,");
        reveal_strlit(",  ");
    }
    let s = join_words(line);
    let s = space_out(s, "===");
    let s = space_out(s, "??");
    let s = space_out(s, "=");
    let s = space_out(s, "+");
    let s = text::replaced(&s, " ? - > ", "?->");
    let s = text::replaced(&s, " ?-> ", "?->");
    let s = text::replaced(&s, " -> ", "->");
    let s = text::replaced(&s, " :: ", "::");
    let s = text::replaced(&s, " - > ", "->");
    let s = text::replaced(&s, " : : ", "::");
    let s = text::replaced(&s, " ( ", "(");
    let s = text::replaced(&s, " )", ")");
    let s = text::replaced(&s, " ,", ",");
    text::replaced(&s, ",  ", ", ")
}

fn normalize(line: &[char]) -> (r: Vec<char>)
    ensures
        r@ == normalized(line@),
{
    if is_left_alone(line) {
        slice_to_vec(line)
    } else {
        tidy(line)
    }
}

/// A line in its normal form. A line with a quote or a comment is left as it is.
pub fn normalize_php_line(line: &str) -> (r: String)
    ensures
        r@ == normalized(line@),
{
    text::to_string(&normalize(&text::chars_of(line)))
}

/// Whether a character may stand in a heredoc's delimiter.
pub open spec fn delimiter_char(c: char) -> bool {
    ('0' <= c && c <= '9') || ('A' <= c && c <= 'Z') || ('a' <= c && c <= 'z') || c == '_'
}

/// How many characters of `s`, from its start, may stand in a delimiter.
pub open spec fn delimiter_len(s: Seq<char>) -> nat
    decreases s.len(),
{
    if s.len() > 0 && delimiter_char(s[0]) {
        1 + delimiter_len(s.skip(1))
    } else {
        0
    }
}

/// Whether all characters of `s` may stand in a delimiter.
pub open spec fn all_delimiter(s: Seq<char>) -> bool {
    forall|k: int| 0 <= k < s.len() ==> delimiter_char(#[trigger] s[k])
}

/// A delimiter that is one, with nothing behind it.
pub open spec fn delimiter_alone(delimiter: Seq<char>, rest: Seq<char>) -> Option<Seq<char>> {
    if delimiter.len() > 0 && all_delimiter(delimiter) && text::trim(rest).len() == 0 {
        Some(delimiter)
    } else {
        None
    }
}

/// The delimiter of the heredoc that a line begins: the name at its end behind `<<<`, which may
/// stand in quotes.
pub open spec fn heredoc_delimiter(line: Seq<char>) -> Option<Seq<char>> {
    match text::split_at_first(line, "<<<"@) {
        None => None,
        Some((_, behind)) => {
            let value = text::trim_start(behind);
            if value.len() == 0 {
                None
            } else if value[0] == '\'' || value[0] == '"' {
                let quoted = value.skip(1);
                match text::char_from(quoted, value[0], 0) {
                    None => None,
                    Some(end) => delimiter_alone(quoted.take(end), quoted.skip(end + 1)),
                }
            } else {
                let end = delimiter_len(value) as int;
                delimiter_alone(value.take(end), value.skip(end))
            }
        },
    }
}

fn is_delimiter_char(c: char) -> (r: bool)
    ensures
        r == delimiter_char(c),
{
    ('0' <= c && c <= '9') || ('A' <= c && c <= 'Z') || ('a' <= c && c <= 'z') || c == '_'
}

fn check_delimiter(delimiter: &[char], rest: &[char]) -> (r: Option<Vec<char>>)
    ensures
        match r {
            Some(found) => delimiter_alone(delimiter@, rest@) == Some(found@),
            None => delimiter_alone(delimiter@, rest@) is None,
        },
{
    if delimiter.len() == 0 || text::trimmed(rest).len() != 0 {
        return None;
    }
    let mut i: usize = 0;
    while i < delimiter.len()
        invariant
            i <= delimiter@.len(),
            forall|k: int| 0 <= k < i ==> delimiter_char(#[trigger] delimiter@[k]),
        decreases delimiter@.len() - i,
    {
        if !is_delimiter_char(delimiter[i]) {
            return None;
        }
        i += 1;
    }
    Some(slice_to_vec(delimiter))
}

proof fn lemma_delimiter_len(s: Seq<char>)
    ensures
        delimiter_len(s) <= s.len(),
    decreases s.len(),
{
    if s.len() > 0 {
        lemma_delimiter_len(s.skip(1));
    }
}

fn find_heredoc(line: &[char]) -> (r: Option<Vec<char>>)
    ensures
        match r {
            Some(found) => heredoc_delimiter(line@) == Some(found@),
            None => heredoc_delimiter(line@) is None,
        },
{
    let behind = match text::cut(line, "<<<") {
        None => {
            return None;
        },
        Some((_, behind)) => behind,
    };
    let value = text::trimmed_start(behind);
    let n: usize = value.len();
    if n == 0 {
        return None;
    }
    let quote: char = value[0];
    if quote == '\'' || quote == '"' {
        assert(value@.subrange(1, n as int) =~= value@.skip(1));
        let quoted = slice_subrange(value, 1, n);
        match text::find_char(quoted, quote, 0) {
            None => None,
            Some(end) => {
                assert(quoted@.subrange(0, end as int) =~= quoted@.take(end as int));
                assert(quoted@.subrange(end + 1, quoted@.len() as int) =~= quoted@.skip(end + 1));
                check_delimiter(
                    slice_subrange(quoted, 0, end),
                    slice_subrange(quoted, end + 1, n - 1),
                )
            },
        }
    } else {
        let mut end: usize = 0;
        assert(value@.skip(0) =~= value@);
        while end < n && is_delimiter_char(value[end])
            invariant
                end <= n,
                n == value@.len(),
                delimiter_len(value@) == end + delimiter_len(value@.skip(end as int)),
            decreases n - end,
        {
            assert(value@.skip(end as int).skip(1) =~= value@.skip(end + 1));
            end += 1;
        }
        assert(value@.subrange(0, end as int) =~= value@.take(end as int));
        assert(value@.subrange(end as int, n as int) =~= value@.skip(end as int));
        check_delimiter(slice_subrange(value, 0, end), slice_subrange(value, end, n))
    }
}

/// The delimiter of the heredoc that a line begins.
pub fn php_heredoc_delimiter(line: &str) -> (r: Option<String>)
    ensures
        match r {
            Some(found) => heredoc_delimiter(line@) == Some(found@),
            None => heredoc_delimiter(line@) is None,
        },
{
    match find_heredoc(&text::chars_of(line)) {
        Some(found) => Some(text::to_string(&found)),
        None => None,
    }
}

/// Where the reading of a line stands: within a block comment, within a quote, and how many
/// brackets were opened and closed outside of both.
pub struct Scan {
    pub block_comment: bool,
    pub quote: Option<char>,
    pub opens: nat,
    pub closes: nat,
}

/// Whether a character stands at an index.
pub open spec fn stands(s: Seq<char>, at: int, c: char) -> bool {
    0 <= at < s.len() && s[at] == c
}

/// Reads a line from an index on, up to a line comment or its end.
pub open spec fn scan(s: Seq<char>, at: int, state: Scan) -> Scan
    decreases s.len() + 1 - at,
{
    if at >= s.len() || at < 0 {
        state
    } else {
        let c = s[at];
        if state.block_comment {
            if c == '*' && stands(s, at + 1, '/') {
                scan(s, at + 2, Scan { block_comment: false, ..state })
            } else {
                scan(s, at + 1, state)
            }
        } else if state.quote is Some {
            if c == '\\' {
                scan(s, at + 2, state)
            } else if Some(c) == state.quote {
                scan(s, at + 1, Scan { quote: None, ..state })
            } else {
                scan(s, at + 1, state)
            }
        } else if c == '/' && stands(s, at + 1, '*') {
            scan(s, at + 2, Scan { block_comment: true, ..state })
        } else if (c == '/' && stands(s, at + 1, '/')) || c == '#' {
            state
        } else if c == '\'' || c == '"' || c == '`' {
            scan(s, at + 1, Scan { quote: Some(c), ..state })
        } else if c == '{' || c == '[' || c == '(' {
            scan(s, at + 1, Scan { opens: state.opens + 1, ..state })
        } else if c == '}' || c == ']' || c == ')' {
            scan(s, at + 1, Scan { closes: state.closes + 1, ..state })
        } else {
            scan(s, at + 1, state)
        }
    }
}

struct ScanState {
    block_comment: bool,
    quote: Option<char>,
    opens: usize,
    closes: usize,
}

impl ScanState {
    spec fn shown(&self) -> Scan {
        Scan {
            block_comment: self.block_comment,
            quote: self.quote,
            opens: self.opens as nat,
            closes: self.closes as nat,
        }
    }
}

fn scan_line(s: &[char], block_comment: bool, quote: Option<char>) -> (r: ScanState)
    ensures
        r.shown() == scan(s@, 0, Scan { block_comment, quote, opens: 0, closes: 0 }),
{
    let mut state = ScanState { block_comment, quote, opens: 0, closes: 0 };
    let n: usize = s.len();
    let mut at: usize = 0;
    let ghost goal = scan(s@, 0, state.shown());
    while at < n
        invariant
            n == s@.len(),
            at <= n,
            state.opens <= at,
            state.closes <= at,
            goal == scan(s@, 0, Scan { block_comment, quote, opens: 0, closes: 0 }),
            goal == scan(s@, at as int, state.shown()),
        decreases n - at,
    {
        let c: char = s[at];
        let slash_next: bool = n - at > 1 && s[at + 1] == '/';
        let star_next: bool = n - at > 1 && s[at + 1] == '*';
        let mut skip: bool = false;
        if state.block_comment {
            if c == '*' && slash_next {
                state.block_comment = false;
                skip = true;
            }
        } else if let Some(active) = state.quote {
            if c == '\\' {
                skip = true;
            } else if c == active {
                state.quote = None;
            }
        } else if c == '/' && star_next {
            state.block_comment = true;
            skip = true;
        } else if (c == '/' && slash_next) || c == '#' {
            return state;
        } else if c == '\'' || c == '"' || c == '`' {
            state.quote = Some(c);
        } else if c == '{' || c == '[' || c == '(' {
            state.opens = state.opens + 1;
        } else if c == '}' || c == ']' || c == ')' {
            state.closes = state.closes + 1;
        }
        at += 1;
        if skip {
            if at < n {
                at += 1;
            } else {
                assert(scan(s@, n + 1, state.shown()) == state.shown());
                assert(scan(s@, n as int, state.shown()) == state.shown());
            }
        }
    }
    state
}

/// Where the formatting of a text stands: what is written, how deep the next line lies, and what
/// the last line left open.
#[verifier::ext_equal]
pub struct Formatting {
    pub out: Seq<char>,
    pub indent: nat,
    pub block_comment: bool,
    pub quote: Option<char>,
    pub heredoc: Option<Seq<char>>,
}

/// So many steps of indentation.
pub open spec fn indentation(n: nat) -> Seq<char> {
    Seq::new(4 * n, |i: int| ' ')
}

/// The sum, or the largest machine integer.
pub open spec fn plus(a: nat, b: nat) -> nat {
    if a + b > usize::MAX {
        usize::MAX as nat
    } else {
        a + b
    }
}

/// The difference, or zero.
pub open spec fn minus(a: nat, b: nat) -> nat {
    if a < b {
        0
    } else {
        (a - b) as nat
    }
}

/// Whether a line begins with a closing bracket.
pub open spec fn begins_closing(line: Seq<char>) -> bool {
    line.len() > 0 && (line[0] == '}' || line[0] == ']' || line[0] == ')')
}

/// What is written between a line and the one before it.
pub open spec fn line_break(first: bool) -> Seq<char> {
    if first {
        Seq::empty()
    } else {
        seq!['\n']
    }
}

/// A text with one line more formatted. Lines of a heredoc, and lines that begin within a quote,
/// are kept as they are.
pub open spec fn format_line(state: Formatting, raw: Seq<char>, first: bool) -> Formatting {
    let trimmed = text::trim(raw);
    let out = state.out + line_break(first);
    if state.heredoc is Some {
        let delimiter = state.heredoc->0;
        Formatting {
            out: out + raw,
            heredoc: if trimmed == delimiter || trimmed == delimiter.push(';') {
                None
            } else {
                state.heredoc
            },
            ..state
        }
    } else if trimmed.len() == 0 && state.quote is None {
        Formatting { out, ..state }
    } else {
        let quoted = state.quote is Some;
        let closes = !quoted && begins_closing(trimmed);
        let indent = if closes {
            minus(state.indent, 1)
        } else {
            state.indent
        };
        let written = if quoted {
            out + raw
        } else {
            out + indentation(indent) + normalized(trimmed)
        };
        if !quoted && heredoc_delimiter(trimmed) is Some {
            Formatting {
                out: written,
                indent,
                heredoc: heredoc_delimiter(trimmed),
                ..state
            }
        } else {
            let read = scan(
                if quoted {
                    raw
                } else {
                    trimmed
                },
                0,
                Scan {
                    block_comment: state.block_comment,
                    quote: state.quote,
                    opens: 0,
                    closes: 0,
                },
            );
            Formatting {
                out: written,
                indent: minus(
                    plus(indent, read.opens),
                    minus(
                        read.closes,
                        if closes {
                            1
                        } else {
                            0
                        },
                    ),
                ),
                block_comment: read.block_comment,
                quote: read.quote,
                heredoc: None,
            }
        }
    }
}

/// A text whose lines are formatted one after the other.
pub open spec fn format_lines(lines: Seq<Seq<char>>) -> Formatting
    decreases lines.len(),
{
    if lines.len() == 0 {
        Formatting {
            out: Seq::empty(),
            indent: 0,
            block_comment: false,
            quote: None,
            heredoc: None,
        }
    } else {
        format_line(format_lines(lines.drop_last()), lines.last(), lines.len() == 1)
    }
}

/// A formatted text: it ends with a line feed where the text does.
pub open spec fn formatted(source: Seq<char>) -> Seq<char> {
    let out = format_lines(text::lines(source)).out;
    if source.len() > 0 && source.last() == '\n' {
        out.push('\n')
    } else {
        out
    }
}

struct FormatState {
    out: Vec<char>,
    indent: usize,
    block_comment: bool,
    quote: Option<char>,
    heredoc: Option<Vec<char>>,
}

impl FormatState {
    spec fn shown(&self) -> Formatting {
        Formatting {
            out: self.out@,
            indent: self.indent as nat,
            block_comment: self.block_comment,
            quote: self.quote,
            heredoc: match self.heredoc {
                Some(delimiter) => Some(delimiter@),
                None => None,
            },
        }
    }
}

fn push_indentation(out: &mut Vec<char>, n: usize)
    ensures
        final(out)@ == old(out)@ + indentation(n as nat),
{
    let ghost before = out@;
    let mut i: usize = 0;
    assert(out@ =~= before + indentation(0));
    while i < n
        invariant
            i <= n,
            out@ == before + indentation(i as nat),
        decreases n - i,
    {
        out.push(' ');
        out.push(' ');
        out.push(' ');
        out.push(' ');
        i += 1;
        assert(out@ =~= before + indentation(i as nat));
    }
}

fn ends_heredoc(trimmed: &[char], delimiter: &Vec<char>) -> (r: bool)
    ensures
        r == (trimmed@ == delimiter@ || trimmed@ == delimiter@.push(';')),
{
    if text::same(trimmed, delimiter) {
        return true;
    }
    let mut closed: Vec<char> = Vec::new();
    closed.extend_from_slice(delimiter);
    closed.push(';');
    assert(closed@ =~= delimiter@.push(';'));
    text::same(trimmed, &closed)
}

fn format_one(state: FormatState, raw: &[char], first: bool) -> (r: FormatState)
    ensures
        r.shown() == format_line(state.shown(), raw@, first),
{
    let ghost before = state.shown();
    let FormatState { out, indent, block_comment, quote, heredoc } = state;
    let mut out = out;
    let trimmed = text::trimmed(raw);
    if !first {
        out.push('\n');
    }
    assert(out@ =~= before.out + line_break(first));
    let ghost broken = out@;
    if let Some(delimiter) = heredoc {
        out.extend_from_slice(raw);
        assert(out@ =~= broken + raw@);
        let heredoc = if ends_heredoc(trimmed, &delimiter) {
            None
        } else {
            Some(delimiter)
        };
        return FormatState { out, indent, block_comment, quote, heredoc };
    }
    let quoted = quote.is_some();
    if trimmed.len() == 0 && !quoted {
        return FormatState { out, indent, block_comment, quote, heredoc: None };
    }
    let closes = !quoted && trimmed.len() > 0 && (trimmed[0] == '}' || trimmed[0] == ']'
        || trimmed[0] == ')');
    let indent: usize = if closes {
        indent.saturating_sub(1)
    } else {
        indent
    };
    if quoted {
        out.extend_from_slice(raw);
        assert(out@ =~= broken + raw@);
    } else {
        push_indentation(&mut out, indent);
        let ghost indented = out@;
        let line = normalize(trimmed);
        out.extend_from_slice(&line);
        assert(out@ =~= indented + line@);
        if let Some(delimiter) = find_heredoc(trimmed) {
            return FormatState { out, indent, block_comment, quote, heredoc: Some(delimiter) };
        }
    }
    let read = scan_line(
        if quoted {
            raw
        } else {
            trimmed
        },
        block_comment,
        quote,
    );
    let kept: usize = if closes {
        read.closes.saturating_sub(1)
    } else {
        read.closes
    };
    let indent: usize = indent.saturating_add(read.opens).saturating_sub(kept);
    FormatState { out, indent, block_comment: read.block_comment, quote: read.quote, heredoc: None }
}

/// Formats PHP source.
pub fn native_format_php(source: &str) -> (r: String)
    ensures
        r@ == formatted(source@),
{
    let chars = text::chars_of(source);
    let lines = text::split_lines(&chars);
    let ghost all = text::runs(lines@);
    let mut state = FormatState {
        out: Vec::new(),
        indent: 0,
        block_comment: false,
        quote: None,
        heredoc: None,
    };
    let mut i: usize = 0;
    assert(all.take(0) =~= Seq::<Seq<char>>::empty());
    while i < lines.len()
        invariant
            i <= lines@.len(),
            all == text::runs(lines@),
            state.shown() == format_lines(all.take(i as int)),
        decreases lines@.len() - i,
    {
        assert(all.take(i + 1).drop_last() =~= all.take(i as int));
        assert(all.take(i + 1).last() == lines@[i as int]@);
        state = format_one(state, &lines[i], i == 0);
        i += 1;
    }
    assert(all.take(i as int) =~= all);
    let mut out = state.out;
    let n: usize = chars.len();
    if n > 0 && chars[n - 1] == '\n' {
        out.push('\n');
    }
    text::to_string(&out)
}

/// The lines of a heredoc are kept as they are, whatever stands in them, and leave the indentation
/// alone.
pub proof fn law_heredoc_lines_are_kept(state: Formatting, raw: Seq<char>, first: bool)
    requires
        state.heredoc is Some,
    ensures
        format_line(state, raw, first).out == state.out + line_break(first) + raw,
        format_line(state, raw, first).indent == state.indent,
{
}

/// Lines that begin within a quote are kept as they are.
pub proof fn law_quoted_lines_are_kept(state: Formatting, raw: Seq<char>, first: bool)
    requires
        state.quote is Some,
    ensures
        format_line(state, raw, first).out == state.out + line_break(first) + raw,
{
}

/// What is written of a line is never taken back: formatting goes on behind it.
pub proof fn law_formatting_only_appends(state: Formatting, raw: Seq<char>, first: bool)
    ensures
        state.out.is_prefix_of(format_line(state, raw, first).out),
{
    let after = format_line(state, raw, first).out;
    assert(state.out =~= after.subrange(0, state.out.len() as int));
}

} // verus!
