//! Completion items: how they are shown, ranked, merged and accepted.

use vstd::prelude::*;
use vstd::slice::slice_subrange;
use vstd::string::*;

use crate::provider;
use crate::signature;
use crate::text;

verus! {

/// What a completion stands for.
#[derive(Clone, Copy, Debug, PartialEq, Eq, Structural)]
pub enum CompletionItemKind {
    Method,
    Function,
    Constructor,
    Class,
    Interface,
    Enum,
    Struct,
    Property,
    Field,
    Constant,
    EnumMember,
    Variable,
    Value,
    Keyword,
    Other,
}

/// A part of a document, by byte offsets, and the text that takes its place.
#[derive(Debug, PartialEq, Eq)]
pub struct TextEdit {
    pub start: usize,
    pub end: usize,
    pub new_text: String,
}

/// What an edit holds.
#[verifier::ext_equal]
pub struct TextEditView {
    pub start: usize,
    pub end: usize,
    pub new_text: Seq<char>,
}

impl View for TextEdit {
    type V = TextEditView;

    open spec fn view(&self) -> TextEditView {
        TextEditView { start: self.start, end: self.end, new_text: self.new_text@ }
    }
}

impl Clone for TextEdit {
    fn clone(&self) -> (r: Self)
        ensures
            r@ == self@,
    {
        TextEdit { start: self.start, end: self.end, new_text: self.new_text.clone() }
    }
}

/// What an optional edit holds.
pub open spec fn edit_view(edit: Option<TextEdit>) -> Option<TextEditView> {
    match edit {
        Some(edit) => Some(edit@),
        None => None,
    }
}

/// What a list of edits holds.
pub open spec fn edit_views(edits: Seq<TextEdit>) -> Seq<TextEditView> {
    edits.map_values(|e: TextEdit| e@)
}

fn clone_edits(edits: &Vec<TextEdit>) -> (r: Vec<TextEdit>)
    ensures
        edit_views(r@) == edit_views(edits@),
{
    let mut out: Vec<TextEdit> = Vec::new();
    let mut i: usize = 0;
    while i < edits.len()
        invariant
            i <= edits@.len(),
            out@.len() == i,
            forall|k: int| 0 <= k < i ==> (#[trigger] out@[k])@ == edits@[k]@,
        decreases edits@.len() - i,
    {
        out.push(edits[i].clone());
        i += 1;
    }
    assert(edit_views(out@) =~= edit_views(edits@));
    out
}

/// A completion that is offered. What it inserts is its edit's text where it has one, else its
/// insertion text, else its label; `snippet` says whether that text has placeholders.
#[derive(Debug, PartialEq, Eq)]
pub struct CompletionItem {
    pub label: String,
    pub detail: Option<String>,
    pub kind: Option<CompletionItemKind>,
    pub insert_text: Option<String>,
    pub snippet: bool,
    pub text_edit: Option<TextEdit>,
    pub additional_text_edits: Vec<TextEdit>,
}

/// What a completion holds.
#[verifier::ext_equal]
pub struct CompletionItemView {
    pub label: Seq<char>,
    pub detail: Option<Seq<char>>,
    pub kind: Option<CompletionItemKind>,
    pub insert_text: Option<Seq<char>>,
    pub snippet: bool,
    pub text_edit: Option<TextEditView>,
    pub additional_text_edits: Seq<TextEditView>,
}

impl View for CompletionItem {
    type V = CompletionItemView;

    open spec fn view(&self) -> CompletionItemView {
        CompletionItemView {
            label: self.label@,
            detail: provider::optional_text(self.detail),
            kind: self.kind,
            insert_text: provider::optional_text(self.insert_text),
            snippet: self.snippet,
            text_edit: edit_view(self.text_edit),
            additional_text_edits: edit_views(self.additional_text_edits@),
        }
    }
}

impl Clone for CompletionItem {
    fn clone(&self) -> (r: Self)
        ensures
            r@ == self@,
    {
        CompletionItem {
            label: self.label.clone(),
            detail: provider::clone_optional(&self.detail),
            kind: self.kind,
            insert_text: provider::clone_optional(&self.insert_text),
            snippet: self.snippet,
            text_edit: match &self.text_edit {
                Some(edit) => Some(edit.clone()),
                None => None,
            },
            additional_text_edits: clone_edits(&self.additional_text_edits),
        }
    }
}

/// What a list of completions holds.
pub open spec fn item_views(items: Seq<CompletionItem>) -> Seq<CompletionItemView> {
    items.map_values(|i: CompletionItem| i@)
}

/// A completion of a label and a kind, with what is shown and inserted for it.
pub open spec fn plain_item(
    label: Seq<char>,
    detail: Option<Seq<char>>,
    kind: CompletionItemKind,
    insert_text: Option<Seq<char>>,
    additional_text_edits: Seq<TextEditView>,
) -> CompletionItemView {
    CompletionItemView {
        label,
        detail,
        kind: Some(kind),
        insert_text,
        snippet: false,
        text_edit: None,
        additional_text_edits,
    }
}

/// How a completion is shown: what it writes, what that gives, and where it comes from.
#[derive(Debug, PartialEq, Eq)]
pub struct CompletionPresentation {
    pub primary: String,
    pub return_type: Option<String>,
    pub source: Option<String>,
}

/// What a presentation holds.
#[verifier::ext_equal]
pub struct CompletionPresentationView {
    pub primary: Seq<char>,
    pub return_type: Option<Seq<char>>,
    pub source: Option<Seq<char>>,
}

impl View for CompletionPresentation {
    type V = CompletionPresentationView;

    open spec fn view(&self) -> CompletionPresentationView {
        CompletionPresentationView {
            primary: self.primary@,
            return_type: provider::optional_text(self.return_type),
            source: provider::optional_text(self.source),
        }
    }
}

/// Whether a character is a quote.
pub open spec fn quote(c: char) -> bool {
    c == '"' || c == '\''
}

/// `s` without the quotes at its start.
pub open spec fn strip_quotes_start(s: Seq<char>) -> Seq<char>
    decreases s.len(),
{
    if s.len() > 0 && quote(s[0]) {
        strip_quotes_start(s.skip(1))
    } else {
        s
    }
}

/// `s` without the quotes at its end.
pub open spec fn strip_quotes_end(s: Seq<char>) -> Seq<char>
    decreases s.len(),
{
    if s.len() > 0 && quote(s.last()) {
        strip_quotes_end(s.drop_last())
    } else {
        s
    }
}

/// How a source is named: both the runtime and the package manager as the runtime, any other as
/// it is written.
pub open spec fn shown_source(written: Seq<char>) -> Seq<char> {
    let source = strip_quotes_end(strip_quotes_start(written));
    if source == "PhpRuntime"@ || source == "Composer"@ {
        "Runtime"@
    } else {
        source
    }
}

fn without_quotes(s: &[char]) -> (r: &[char])
    ensures
        r@ == strip_quotes_end(strip_quotes_start(s@)),
{
    let n: usize = s.len();
    let mut from: usize = 0;
    assert(s@.skip(0) =~= s@);
    while from < n && (s[from] == '"' || s[from] == '\'')
        invariant
            from <= n == s@.len(),
            strip_quotes_start(s@) == strip_quotes_start(s@.skip(from as int)),
        decreases n - from,
    {
        assert(s@.skip(from as int).skip(1) =~= s@.skip(from + 1));
        assert(s@.skip(from as int)[0] == s@[from as int]);
        from += 1;
    }
    let ghost rest = s@.skip(from as int);
    assert(strip_quotes_start(s@) == rest) by {
        if from < n {
            assert(rest[0] == s@[from as int]);
        }
    }
    let mut to: usize = n;
    assert(s@.subrange(from as int, n as int) =~= rest);
    while to > from && (s[to - 1] == '"' || s[to - 1] == '\'')
        invariant
            from <= to <= n == s@.len(),
            strip_quotes_end(rest) == strip_quotes_end(s@.subrange(from as int, to as int)),
        decreases to,
    {
        let ghost part = s@.subrange(from as int, to as int);
        assert(part.last() == s@[to - 1]);
        assert(part.drop_last() =~= s@.subrange(from as int, to - 1));
        to -= 1;
    }
    proof {
        let part = s@.subrange(from as int, to as int);
        if to > from {
            assert(part.last() == s@[to - 1]);
        }
    }
    slice_subrange(s, from, to)
}

/// A parameter without its type, its default and the marks before it.
pub open spec fn compressed(parameter: Seq<char>) -> Seq<char> {
    let unmarked = text::trim(text::strip_start(text::trim(parameter), '&'));
    let single = match text::after_prefix(unmarked, "..."@) {
        Some(rest) => rest,
        None => unmarked,
    };
    let value = text::trim(text::before_first(single, '='));
    match text::char_before(value, '$', value.len() as int) {
        Some(at) => "$"@ + text::trim(value.skip(at + 1)),
        None => value,
    }
}

fn compress(parameter: &[char]) -> (r: Vec<char>)
    ensures
        r@ == compressed(parameter@),
{
    let unmarked = text::trimmed(text::stripped_start(text::trimmed(parameter), '&'));
    let single = match text::behind_prefix(unmarked, "...") {
        Some(rest) => rest,
        None => unmarked,
    };
    let value = text::trimmed(text::up_to(single, '='));
    match text::rfind_char(value, '$') {
        Some(at) => {
            let n: usize = value.len();
            let mut out = text::chars_of("$");
            let rest = slice_subrange(value, at + 1, n);
            assert(rest@ =~= value@.skip(at + 1));
            out.extend_from_slice(text::trimmed(rest));
            assert(out@ =~= compressed(parameter@));
            out
        },
        None => {
            let mut out: Vec<char> = Vec::new();
            out.extend_from_slice(value);
            assert(out@ =~= value@);
            out
        },
    }
}

/// A parameter without its type, its default and the marks before it.
pub fn compress_completion_parameter(parameter: &str) -> (r: String)
    ensures
        r@ == compressed(parameter@),
{
    text::to_string(&compress(&text::chars_of(parameter)))
}

/// `s` without the empty parentheses at its end.
pub open spec fn without_call(s: Seq<char>) -> Seq<char>
    decreases s.len(),
{
    if text::ends_with(s, "()"@) && "()"@.len() > 0 {
        without_call(s.take(s.len() - "()"@.len()))
    } else {
        s
    }
}

fn strip_call(s: &[char]) -> (r: &[char])
    ensures
        r@ == without_call(s@),
{
    let mut n: usize = s.len();
    proof {
        reveal_strlit("()");
    }
    let pair = text::chars_of("()");
    assert(s@.take(n as int) =~= s@);
    while n >= 2 && text::is_at(slice_subrange(s, 0, n), &pair, n - 2)
        invariant
            n <= s@.len(),
            pair@ == "()"@,
            pair@.len() == 2,
            without_call(s@) == without_call(s@.take(n as int)),
        decreases n,
    {
        assert(s@.subrange(0, n as int) =~= s@.take(n as int));
        assert(s@.take(n as int).take(n - 2) =~= s@.take(n - 2));
        n -= 2;
    }
    assert(s@.subrange(0, n as int) =~= s@.take(n as int));
    slice_subrange(s, 0, n)
}

/// The parameters that a list of parts shows; blank parts show none.
pub open spec fn compressed_list(parts: Seq<Seq<char>>) -> Seq<Seq<char>>
    decreases parts.len(),
{
    if parts.len() == 0 {
        Seq::empty()
    } else {
        let before = compressed_list(parts.drop_last());
        let part = text::trim(parts.last());
        if part.len() == 0 {
            before
        } else {
            before.push(compressed(part))
        }
    }
}

fn compress_list(parameters: &[char]) -> (r: Vec<char>)
    ensures
        r@ == text::join(compressed_list(text::split(parameters@, ',')), ", "@),
{
    let parts = text::split_char(parameters, ',');
    let ghost all = text::runs(parts@);
    let mut out: Vec<Vec<char>> = Vec::new();
    let mut i: usize = 0;
    assert(all.take(0) =~= Seq::<Seq<char>>::empty());
    assert(text::runs(out@) =~= Seq::<Seq<char>>::empty());
    while i < parts.len()
        invariant
            i <= parts@.len(),
            all == text::runs(parts@),
            text::runs(out@) == compressed_list(all.take(i as int)),
        decreases parts@.len() - i,
    {
        assert(all.take(i + 1).drop_last() =~= all.take(i as int));
        assert(all.take(i + 1).last() == parts@[i as int]@);
        let part = text::trimmed(&parts[i]);
        if part.len() > 0 {
            let ghost before = text::runs(out@);
            let shown = compress(part);
            out.push(shown);
            assert(text::runs(out@) =~= before.push(shown@));
        }
        i += 1;
    }
    assert(all.take(i as int) =~= all);
    text::joined(&out, ", ")
}

/// A detail and the source behind its last bullet.
pub open spec fn split_source(detail: Seq<char>) -> (Seq<char>, Option<Seq<char>>) {
    match text::rfind(detail, " • "@) {
        Some(at) => (
            detail.take(at),
            Some(shown_source(detail.skip(at + " • "@.len()))),
        ),
        None => (detail, None),
    }
}

/// The parts of a shown signature: between its first opening and its last closing parenthesis,
/// and behind that.
pub open spec fn split_signature(detail: Seq<char>) -> Option<(Seq<char>, Seq<char>)> {
    match (
        text::char_from(detail, '(', 0),
        text::char_before(detail, ')', detail.len() as int),
    ) {
        (Some(open), Some(close)) => if close >= open {
            Some((detail.subrange(open + 1, close), text::trim(detail.skip(close + 1))))
        } else {
            None
        },
        _ => None,
    }
}

/// The return type that stands behind a signature.
pub open spec fn return_behind(suffix: Seq<char>) -> Option<Seq<char>> {
    match text::after_prefix(suffix, ":"@) {
        Some(rest) => if text::trim(rest).len() > 0 {
            Some(text::trim(rest))
        } else {
            None
        },
        None => None,
    }
}

/// How a completion is shown. A signature in its detail gives the parameters behind its label, and
/// what it gives; without one only the label is shown.
pub open spec fn presented(item: CompletionItemView) -> CompletionPresentationView {
    let (detail, source) = split_source(signature::or_empty(item.detail));
    let label = text::trim(item.label);
    match split_signature(detail) {
        Some((parameters, suffix)) => CompletionPresentationView {
            primary: without_call(label) + "("@ + text::join(
                compressed_list(text::split(parameters, ',')),
                ", "@,
            ) + ")"@,
            return_type: return_behind(suffix),
            source,
        },
        None => CompletionPresentationView { primary: label, return_type: None, source },
    }
}

fn name_source(written: &[char]) -> (r: String)
    ensures
        r@ == shown_source(written@),
{
    let source = without_quotes(written);
    if text::same(source, &text::chars_of("PhpRuntime")) || text::same(
        source,
        &text::chars_of("Composer"),
    ) {
        String::from_str("Runtime")
    } else {
        text::to_string(source)
    }
}

/// How a completion is shown.
pub fn completion_presentation(item: &CompletionItem) -> (r: CompletionPresentation)
    ensures
        r@ == presented(item@),
{
    let whole: Vec<char> = match &item.detail {
        Some(detail) => text::chars_of(detail),
        None => Vec::new(),
    };
    assert(whole@ =~= signature::or_empty(item@.detail));
    let n: usize = whole.len();
    let bullet = text::chars_of(" • ");
    let (size, source): (usize, Option<String>) = match text::find_last(&whole, &bullet) {
        Some(at) => {
            let behind = slice_subrange(&whole, at + bullet.len(), n);
            assert(behind@ =~= whole@.skip(at + bullet@.len()));
            (at, Some(name_source(behind)))
        },
        None => (n, None),
    };
    let detail = slice_subrange(&whole, 0, size);
    proof {
        assert(whole@.take(n as int) =~= whole@);
        assert(detail@ =~= whole@.take(size as int));
        assert(split_source(whole@) == (detail@, provider::optional_text(source)));
    }
    let label_chars = text::chars_of(&item.label);
    let label = text::trimmed(&label_chars);
    let found: Option<(usize, usize)> = match (
        text::find_char(detail, '(', 0),
        text::rfind_char(detail, ')'),
    ) {
        (Some(open), Some(close)) => if close >= open {
            proof {
                text::lemma_char_from(detail@, '(', 0);
                text::lemma_char_before(detail@, ')', detail@.len() as int);
            }
            Some((open, close))
        } else {
            None
        },
        _ => None,
    };
    match found {
        Some((open, close)) => {
            let parameters = slice_subrange(detail, open + 1, close);
            let rest = slice_subrange(detail, close + 1, size);
            assert(rest@ =~= detail@.skip(close + 1));
            let suffix = text::trimmed(rest);
            let mut primary: Vec<char> = Vec::new();
            primary.extend_from_slice(strip_call(label));
            text::put(&mut primary, "(");
            primary.extend_from_slice(&compress_list(parameters));
            text::put(&mut primary, ")");
            assert(primary@ =~= presented(item@).primary);
            let return_type: Option<String> = match text::behind_prefix(suffix, ":") {
                Some(behind) => {
                    let value = text::trimmed(behind);
                    if value.len() > 0 {
                        Some(text::to_string(value))
                    } else {
                        None
                    }
                },
                None => None,
            };
            CompletionPresentation { primary: text::to_string(&primary), return_type, source }
        },
        None => CompletionPresentation {
            primary: text::to_string(label),
            return_type: None,
            source,
        },
    }
}

/// The letter that stands for a kind of completion.
pub open spec fn icon(kind: Option<CompletionItemKind>) -> Seq<char> {
    match kind {
        Some(CompletionItemKind::Method) => "M"@,
        Some(CompletionItemKind::Function) => "F"@,
        Some(CompletionItemKind::Class) | Some(CompletionItemKind::Constructor) => "C"@,
        Some(CompletionItemKind::Interface) => "I"@,
        Some(CompletionItemKind::Enum) => "E"@,
        Some(CompletionItemKind::Struct) => "S"@,
        Some(CompletionItemKind::Property) | Some(CompletionItemKind::Field) => "P"@,
        Some(CompletionItemKind::Constant) | Some(CompletionItemKind::EnumMember) => "#"@,
        _ => "."@,
    }
}

/// The letter that stands for a kind of completion.
pub fn completion_icon(kind: Option<CompletionItemKind>) -> (r: &'static str)
    ensures
        r@ == icon(kind),
{
    match kind {
        Some(CompletionItemKind::Method) => "M",
        Some(CompletionItemKind::Function) => "F",
        Some(CompletionItemKind::Class) | Some(CompletionItemKind::Constructor) => "C",
        Some(CompletionItemKind::Interface) => "I",
        Some(CompletionItemKind::Enum) => "E",
        Some(CompletionItemKind::Struct) => "S",
        Some(CompletionItemKind::Property) | Some(CompletionItemKind::Field) => "P",
        Some(CompletionItemKind::Constant) | Some(CompletionItemKind::EnumMember) => "#",
        _ => ".",
    }
}

/// Whether a text starts with a prefix, where the case of ASCII letters does not matter.
pub fn starts_with_ascii_case_insensitive(value: &str, prefix: &str) -> (r: bool)
    ensures
        r == text::starts_with(text::ascii_lowercase(value@), text::ascii_lowercase(prefix@)),
{
    text::is_at(&text::lower(&text::chars_of(value)), &text::lower(&text::chars_of(prefix)), 0)
}

/// How well a label fits a prefix: exactly, as its start, or neither.
pub open spec fn text_rank(label: Seq<char>, prefix: Seq<char>) -> nat {
    let label = text::ascii_lowercase(label);
    let prefix = text::ascii_lowercase(prefix);
    if prefix.len() > 0 && label == prefix {
        0
    } else if prefix.len() > 0 && text::starts_with(label, prefix) {
        1
    } else {
        2
    }
}

/// How near the source of a completion is: the project, a package or an unknown one, the runtime.
pub open spec fn source_rank(detail: Option<Seq<char>>) -> nat {
    match detail {
        Some(detail) => if text::contains_text(detail, "Project"@) {
            0
        } else if text::contains_text(detail, "Vendor"@) {
            1
        } else if text::contains_text(detail, "Runtime"@) {
            2
        } else {
            1
        },
        None => 1,
    }
}

/// Whether a completion is a type, which come first.
pub open spec fn kind_rank(kind: Option<CompletionItemKind>) -> nat {
    match kind {
        Some(CompletionItemKind::Class) | Some(CompletionItemKind::Constructor) | Some(
            CompletionItemKind::Interface,
        ) | Some(CompletionItemKind::Enum) => 0,
        _ => 1,
    }
}

/// The rank of a completion behind `new`: by its text, then its source, then its kind.
pub open spec fn new_rank(item: CompletionItemView, prefix: Seq<char>) -> nat {
    text_rank(item.label, prefix) * 6 + source_rank(item.detail) * 2 + kind_rank(item.kind)
}

/// The completions of a rank, in their order.
pub open spec fn of_rank(
    items: Seq<CompletionItemView>,
    prefix: Seq<char>,
    rank: nat,
) -> Seq<CompletionItemView> {
    items.filter(|item: CompletionItemView| new_rank(item, prefix) == rank)
}

/// The completions of the ranks below `rank`, by rank, those of one rank in their order.
pub open spec fn ranked_below(
    items: Seq<CompletionItemView>,
    prefix: Seq<char>,
    rank: nat,
) -> Seq<CompletionItemView>
    decreases rank,
{
    if rank == 0 {
        Seq::empty()
    } else {
        ranked_below(items, prefix, (rank - 1) as nat) + of_rank(items, prefix, (rank - 1) as nat)
    }
}

/// How many ranks there are.
pub open spec fn rank_count() -> nat {
    18
}

/// The completions by rank, those of one rank in their order.
pub open spec fn ranked(items: Seq<CompletionItemView>, prefix: Seq<char>) -> Seq<
    CompletionItemView,
> {
    ranked_below(items, prefix, rank_count())
}

fn rank_of(item: &CompletionItem, prefix: &str) -> (r: u8)
    ensures
        r == new_rank(item@, prefix@),
        r < rank_count(),
{
    let wanted = text::lower(&text::chars_of(prefix));
    let label = text::lower(&text::chars_of(&item.label));
    let by_text: u8 = if wanted.len() > 0 && text::same(&label, &wanted) {
        0
    } else if wanted.len() > 0 && text::is_at(&label, &wanted, 0) {
        1
    } else {
        2
    };
    let by_source: u8 = match &item.detail {
        Some(detail) => if text::has(detail, "Project") {
            0
        } else if text::has(detail, "Vendor") {
            1
        } else if text::has(detail, "Runtime") {
            2
        } else {
            1
        },
        None => 1,
    };
    let by_kind: u8 = match item.kind {
        Some(CompletionItemKind::Class) | Some(CompletionItemKind::Constructor) | Some(
            CompletionItemKind::Interface,
        ) | Some(CompletionItemKind::Enum) => 0,
        _ => 1,
    };
    by_text * 6 + by_source * 2 + by_kind
}

/// Orders completions behind `new` by their rank; those of one rank keep their order.
pub fn rank_new_completion_items(items: &mut Vec<CompletionItem>, prefix: &str)
    ensures
        item_views(final(items)@) == ranked(item_views(old(items)@), prefix@),
{
    let ghost all = item_views(items@);
    let mut out: Vec<CompletionItem> = Vec::new();
    let mut rank: u8 = 0;
    assert(item_views(out@) =~= Seq::<CompletionItemView>::empty());
    while rank < 18
        invariant
            rank <= 18,
            all == item_views(items@),
            item_views(out@) == ranked_below(all, prefix@, rank as nat),
        decreases 18 - rank,
    {
        let ghost before = item_views(out@);
        let ghost keep = |item: CompletionItemView| new_rank(item, prefix@) == rank as nat;
        let mut i: usize = 0;
        assert(all.take(0).filter(keep) =~= Seq::<CompletionItemView>::empty()) by {
            reveal(Seq::filter);
        }
        assert(before + Seq::<CompletionItemView>::empty() =~= before);
        while i < items.len()
            invariant
                i <= items@.len(),
                all == item_views(items@),
                keep == (|item: CompletionItemView| new_rank(item, prefix@) == rank as nat),
                item_views(out@) == before + all.take(i as int).filter(keep),
            decreases items@.len() - i,
        {
            proof {
                text::lemma_filter_step(all, keep, i as int);
            }
            if rank_of(&items[i], prefix) == rank {
                let ghost held = item_views(out@);
                let item = items[i].clone();
                out.push(item);
                assert(item_views(out@) =~= held.push(item@));
                assert(all[i as int] == item@);
            }
            i += 1;
            assert(item_views(out@) =~= before + all.take(i as int).filter(keep));
        }
        assert(all.take(i as int) =~= all);
        assert(of_rank(all, prefix@, rank as nat) == all.filter(keep));
        rank += 1;
    }
    *items = out;
}

/// Whether a label fits the prefix behind `new`.
pub open spec fn fits(item: CompletionItemView, prefix: Seq<char>) -> bool {
    text::starts_with(text::ascii_lowercase(item.label), text::ascii_lowercase(prefix))
}

/// Keeps the completions behind `new` whose labels start with the prefix, where the case of ASCII
/// letters does not matter.
pub fn filter_new_completion_items(items: &mut Vec<CompletionItem>, prefix: &str)
    ensures
        item_views(final(items)@) == item_views(old(items)@).filter(
            |item: CompletionItemView| fits(item, prefix@),
        ),
{
    let ghost all = item_views(items@);
    let ghost keep = |item: CompletionItemView| fits(item, prefix@);
    let mut out: Vec<CompletionItem> = Vec::new();
    let mut i: usize = 0;
    assert(item_views(out@) =~= all.take(0).filter(keep)) by {
        reveal(Seq::filter);
    }
    while i < items.len()
        invariant
            i <= items@.len(),
            all == item_views(items@),
            keep == (|item: CompletionItemView| fits(item, prefix@)),
            item_views(out@) == all.take(i as int).filter(keep),
        decreases items@.len() - i,
    {
        proof {
            text::lemma_filter_step(all, keep, i as int);
        }
        if starts_with_ascii_case_insensitive(&items[i].label, prefix) {
            let ghost held = item_views(out@);
            let item = items[i].clone();
            out.push(item);
            assert(item_views(out@) =~= held.push(item@));
            assert(all[i as int] == item@);
        }
        i += 1;
    }
    assert(all.take(i as int) =~= all);
    *items = out;
}

/// By what completions that are one are told: the label alone, or with the detail too.
pub open spec fn item_key(item: CompletionItemView, with_detail: bool) -> Seq<char> {
    if with_detail {
        text::ascii_lowercase(item.label) + ":"@ + signature::or_empty(item.detail)
    } else {
        text::ascii_lowercase(item.label)
    }
}

/// The completions without those that an earlier one stands for already.
pub open spec fn distinct(items: Seq<CompletionItemView>, with_detail: bool) -> Seq<
    CompletionItemView,
>
    decreases items.len(),
{
    if items.len() == 0 {
        Seq::empty()
    } else {
        let before = items.drop_last();
        if exists|k: int|
            0 <= k < before.len() && #[trigger] item_key(before[k], with_detail) == item_key(
                items.last(),
                with_detail,
            ) {
            distinct(before, with_detail)
        } else {
            distinct(before, with_detail).push(items.last())
        }
    }
}

fn key_of(item: &CompletionItem, with_detail: bool) -> (r: Vec<char>)
    ensures
        r@ == item_key(item@, with_detail),
{
    let mut out = text::lower(&text::chars_of(&item.label));
    if with_detail {
        text::put(&mut out, ":");
        match &item.detail {
            Some(detail) => text::put(&mut out, detail),
            None => {
                assert(out@ + Seq::<char>::empty() =~= out@);
            },
        }
    }
    out
}

/// Drops the completions that an earlier one stands for already.
pub fn keep_distinct(items: Vec<CompletionItem>, with_detail: bool) -> (r: Vec<CompletionItem>)
    ensures
        item_views(r@) == distinct(item_views(items@), with_detail),
{
    let ghost all = item_views(items@);
    let mut seen: Vec<Vec<char>> = Vec::new();
    let mut out: Vec<CompletionItem> = Vec::new();
    let mut i: usize = 0;
    assert(all.take(0) =~= Seq::<CompletionItemView>::empty());
    assert(item_views(out@) =~= Seq::<CompletionItemView>::empty());
    while i < items.len()
        invariant
            i <= items@.len(),
            all == item_views(items@),
            seen@.len() == i,
            forall|k: int|
                0 <= k < i ==> (#[trigger] seen@[k])@ == item_key(items@[k]@, with_detail),
            item_views(out@) == distinct(all.take(i as int), with_detail),
        decreases items@.len() - i,
    {
        let key = key_of(&items[i], with_detail);
        let mut found = false;
        let mut j: usize = 0;
        while j < seen.len()
            invariant
                j <= seen@.len(),
                found == exists|k: int| 0 <= k < j && (#[trigger] seen@[k])@ == key@,
            decreases seen@.len() - j,
        {
            if text::same(&seen[j], &key) {
                assert(seen@[j as int]@ == key@);
                found = true;
            }
            j += 1;
        }
        let ghost part = all.take(i + 1);
        proof {
            assert(part.drop_last() =~= all.take(i as int));
            assert(part.last() == items@[i as int]@);
            if found {
                let k = choose|k: int| 0 <= k < i && (#[trigger] seen@[k])@ == key@;
                assert(item_key(part.drop_last()[k], with_detail) == key@);
            }
            if exists|k: int|
                0 <= k < part.drop_last().len() && #[trigger] item_key(
                    part.drop_last()[k],
                    with_detail,
                ) == key@ {
                let k = choose|k: int|
                    0 <= k < part.drop_last().len() && #[trigger] item_key(
                        part.drop_last()[k],
                        with_detail,
                    ) == key@;
                assert(seen@[k]@ == key@);
            }
        }
        if !found {
            let ghost held = item_views(out@);
            let item = items[i].clone();
            out.push(item);
            assert(item_views(out@) =~= held.push(item@));
        }
        seen.push(key);
        i += 1;
    }
    assert(all.take(i as int) =~= all);
    out
}

/// The completions that are offered, and the one that is selected.
#[derive(Debug, PartialEq, Eq)]
pub struct Completions {
    pub items: Vec<CompletionItem>,
    pub selected: usize,
}

impl Completions {
    /// Adds completions behind those that are offered. Of those with one label the first stays;
    /// the first of all is selected.
    pub fn set_completions(&mut self, items: Vec<CompletionItem>)
        ensures
            item_views(final(self).items@) == distinct(
                item_views(old(self).items@) + item_views(items@),
                false,
            ),
            final(self).selected == 0,
    {
        let mut merged: Vec<CompletionItem> = Vec::new();
        let ghost first = item_views(self.items@);
        let ghost second = item_views(items@);
        let mut i: usize = 0;
        while i < self.items.len()
            invariant
                i <= self.items@.len(),
                first == item_views(self.items@),
                first == item_views(old(self).items@),
                item_views(merged@) == first.take(i as int),
            decreases self.items@.len() - i,
        {
            let ghost held = item_views(merged@);
            let item = self.items[i].clone();
            merged.push(item);
            assert(item_views(merged@) =~= held.push(item@));
            assert(first.take(i + 1) =~= first.take(i as int).push(first[i as int]));
            i += 1;
        }
        assert(first.take(i as int) =~= first);
        let mut j: usize = 0;
        assert(second.take(0) =~= Seq::<CompletionItemView>::empty());
        assert(first + second.take(0) =~= first);
        while j < items.len()
            invariant
                j <= items@.len(),
                second == item_views(items@),
                item_views(merged@) == first + second.take(j as int),
            decreases items@.len() - j,
        {
            let ghost held = item_views(merged@);
            let item = items[j].clone();
            merged.push(item);
            assert(item_views(merged@) =~= held.push(item@));
            assert(first + second.take(j + 1) =~= (first + second.take(j as int)).push(
                second[j as int],
            ));
            j += 1;
        }
        assert(second.take(j as int) =~= second);
        self.items = keep_distinct(merged, false);
        self.selected = 0;
    }
}

proof fn lemma_ranked_push(
    items: Seq<CompletionItemView>,
    item: CompletionItemView,
    prefix: Seq<char>,
    rank: nat,
)
    ensures
        ranked_below(items.push(item), prefix, rank).to_multiset() == (if new_rank(item, prefix)
            < rank {
            ranked_below(items, prefix, rank).to_multiset().insert(item)
        } else {
            ranked_below(items, prefix, rank).to_multiset()
        }),
    decreases rank,
{
    broadcast use {vstd::multiset::group_multiset_axioms, vstd::seq_lib::group_to_multiset_ensures};

    if rank > 0 {
        let below = (rank - 1) as nat;
        let keep = |i: CompletionItemView| new_rank(i, prefix) == below;
        lemma_ranked_push(items, item, prefix, below);
        items.lemma_filter_push(item, keep);
        vstd::seq_lib::lemma_multiset_commutative(
            ranked_below(items.push(item), prefix, below),
            items.push(item).filter(keep),
        );
        vstd::seq_lib::lemma_multiset_commutative(
            ranked_below(items, prefix, below),
            items.filter(keep),
        );
        assert(ranked_below(items.push(item), prefix, rank).to_multiset() =~= (if new_rank(
            item,
            prefix,
        ) < rank {
            ranked_below(items, prefix, rank).to_multiset().insert(item)
        } else {
            ranked_below(items, prefix, rank).to_multiset()
        }));
    }
}

/// Ranking drops no completion and adds none.
pub proof fn law_ranking_keeps_every_completion(items: Seq<CompletionItemView>, prefix: Seq<char>)
    ensures
        ranked(items, prefix).to_multiset() == items.to_multiset(),
    decreases items.len(),
{
    broadcast use vstd::seq_lib::group_to_multiset_ensures;

    if items.len() == 0 {
        lemma_ranked_none(items, prefix, rank_count());
        assert(ranked(items, prefix) =~= items);
    } else {
        let before = items.drop_last();
        assert(before.push(items.last()) =~= items);
        law_ranking_keeps_every_completion(before, prefix);
        lemma_ranked_push(before, items.last(), prefix, rank_count());
    }
}

proof fn lemma_ranked_none(items: Seq<CompletionItemView>, prefix: Seq<char>, rank: nat)
    requires
        items.len() == 0,
    ensures
        ranked_below(items, prefix, rank).len() == 0,
    decreases rank,
{
    reveal(Seq::filter);
    if rank > 0 {
        lemma_ranked_none(items, prefix, (rank - 1) as nat);
    }
}

proof fn lemma_ranked_order(items: Seq<CompletionItemView>, prefix: Seq<char>, rank: nat)
    ensures
        forall|i: int|
            0 <= i < ranked_below(items, prefix, rank).len() ==> new_rank(
                #[trigger] ranked_below(items, prefix, rank)[i],
                prefix,
            ) < rank,
        forall|i: int, j: int|
            0 <= i <= j < ranked_below(items, prefix, rank).len() ==> new_rank(
                #[trigger] ranked_below(items, prefix, rank)[i],
                prefix,
            ) <= new_rank(#[trigger] ranked_below(items, prefix, rank)[j], prefix),
    decreases rank,
{
    broadcast use vstd::seq_lib::group_filter_ensures;

    if rank > 0 {
        let below = (rank - 1) as nat;
        let keep = |i: CompletionItemView| new_rank(i, prefix) == below;
        lemma_ranked_order(items, prefix, below);
        let first = ranked_below(items, prefix, below);
        let last = items.filter(keep);
        assert(ranked_below(items, prefix, rank) == first + last);
        assert forall|i: int| 0 <= i < (first + last).len() implies new_rank(
            #[trigger] (first + last)[i],
            prefix,
        ) < rank && (i >= first.len() ==> new_rank((first + last)[i], prefix) == below) by {
            if i >= first.len() {
                assert(keep(last[i - first.len()]));
            }
        }
    }
}

/// Behind `new`, a completion of a better rank comes first.
pub proof fn law_better_ranks_come_first(
    items: Seq<CompletionItemView>,
    prefix: Seq<char>,
    i: int,
    j: int,
)
    requires
        0 <= i <= j < ranked(items, prefix).len(),
    ensures
        new_rank(ranked(items, prefix)[i], prefix) <= new_rank(ranked(items, prefix)[j], prefix),
{
    lemma_ranked_order(items, prefix, rank_count());
}

/// No two completions that are kept are one.
pub proof fn law_kept_completions_differ(
    items: Seq<CompletionItemView>,
    with_detail: bool,
    i: int,
    j: int,
)
    requires
        0 <= i < j < distinct(items, with_detail).len(),
    ensures
        item_key(distinct(items, with_detail)[i], with_detail) != item_key(
            distinct(items, with_detail)[j],
            with_detail,
        ),
    decreases items.len(),
{
    let before = items.drop_last();
    let kept = distinct(before, with_detail);
    if j < kept.len() {
        law_kept_completions_differ(before, with_detail, i, j);
    } else {
        lemma_distinct_from(before, with_detail, i);
    }
}

proof fn lemma_distinct_from(items: Seq<CompletionItemView>, with_detail: bool, i: int)
    requires
        0 <= i < distinct(items, with_detail).len(),
    ensures
        exists|k: int| 0 <= k < items.len() && items[k] == distinct(items, with_detail)[i],
    decreases items.len(),
{
    let before = items.drop_last();
    let kept = distinct(before, with_detail);
    if i < kept.len() {
        lemma_distinct_from(before, with_detail, i);
        let k = choose|k: int| 0 <= k < before.len() && before[k] == kept[i];
        assert(items[k] == kept[i]);
    } else {
        assert(items[items.len() - 1] == distinct(items, with_detail)[i]);
    }
}

/// Whatever is offered, something that is one with it is kept.
pub proof fn law_every_completion_is_stood_for(
    items: Seq<CompletionItemView>,
    with_detail: bool,
    i: int,
)
    requires
        0 <= i < items.len(),
    ensures
        exists|k: int|
            0 <= k < distinct(items, with_detail).len() && #[trigger] item_key(
                distinct(items, with_detail)[k],
                with_detail,
            ) == item_key(items[i], with_detail),
    decreases items.len(),
{
    let before = items.drop_last();
    let kept = distinct(before, with_detail);
    let all = distinct(items, with_detail);
    if i < before.len() {
        law_every_completion_is_stood_for(before, with_detail, i);
        let k = choose|k: int|
            0 <= k < kept.len() && #[trigger] item_key(kept[k], with_detail) == item_key(
                before[i],
                with_detail,
            );
        assert(all[k] == kept[k]);
    } else if exists|k: int|
        0 <= k < before.len() && #[trigger] item_key(before[k], with_detail) == item_key(
            items.last(),
            with_detail,
        ) {
        let k = choose|k: int|
            0 <= k < before.len() && #[trigger] item_key(before[k], with_detail) == item_key(
                items.last(),
                with_detail,
            );
        law_every_completion_is_stood_for(before, with_detail, k);
    } else {
        assert(all[all.len() - 1] == items.last());
    }
}

} // verus!
