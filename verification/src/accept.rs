//! What accepting a completion does to a document.

use std::ops::Range;

use vstd::prelude::*;
use vstd::slice::slice_subrange;
use vstd::string::*;

use crate::completion;
use crate::completion::CompletionItem;
use crate::completion::CompletionItemKind;
use crate::completion::CompletionItemView;
use crate::completion::TextEdit;
use crate::completion::TextEditView;
use crate::php;
use crate::signature;
use crate::text;

verus! {

/// Whether a character may stand in a name that a completion replaces.
pub open spec fn replaced_char(c: char) -> bool {
    php::name_char(c) || c == '$'
}

/// Where the name that ends at an index begins.
pub open spec fn replaced_start(s: Seq<char>, end: int) -> int
    decreases end,
{
    if 0 < end <= s.len() && replaced_char(s[end - 1]) {
        replaced_start(s, end - 1)
    } else {
        end
    }
}

/// A byte range.
pub struct Span {
    pub start: nat,
    pub end: nat,
}

/// The bytes that a completion replaces: the selection, else the name that ends at the cursor.
pub open spec fn replaced_span(
    content: Seq<char>,
    selection: Option<Range<usize>>,
    cursor: usize,
) -> Span {
    match selection {
        Some(range) => Span { start: range.start as nat, end: range.end as nat },
        None => {
            let end = text::fitting(content, cursor as int) as int;
            Span {
                start: text::utf8_len(content.take(replaced_start(content, end))),
                end: text::utf8_len(content.take(end)),
            }
        },
    }
}

/// The bytes that a completion replaces.
pub fn completion_replacement_range(
    content: &str,
    selection: Option<Range<usize>>,
    cursor: usize,
) -> (r: Range<usize>)
    requires
        php::boundary(content@, cursor as nat),
    ensures
        r.start == replaced_span(content@, selection, cursor).start,
        r.end == replaced_span(content@, selection, cursor).end,
        selection is None ==> text::char_boundary(content@, r.start as nat) && text::char_boundary(
            content@,
            r.end as nat,
        ),
{
    if let Some(range) = selection {
        return range;
    }
    let chars = text::chars_of(content);
    let size: usize = text::byte_len(content);
    let (end, offset) = text::fit(&chars, cursor);
    let mut start: usize = end;
    while start > 0 && (php::is_name_char(chars[start - 1], true) || chars[start - 1] == '$')
        invariant
            start <= end <= chars@.len(),
            replaced_start(chars@, end as int) == replaced_start(chars@, start as int),
        decreases start,
    {
        start -= 1;
    }
    proof {
        text::lemma_char_boundary(content@, start as int);
        text::lemma_char_boundary(content@, end as int);
    }
    Range { start: text::offset_of(&chars, start), end: offset }
}

/// What accepting a completion writes.
#[derive(Debug, PartialEq, Eq)]
pub struct AcceptedCompletion {
    pub edit: TextEdit,
    pub call_like: bool,
}

/// What an accepted completion holds.
#[verifier::ext_equal]
pub struct AcceptedCompletionView {
    pub edit: TextEditView,
    pub call_like: bool,
}

impl View for AcceptedCompletion {
    type V = AcceptedCompletionView;

    open spec fn view(&self) -> AcceptedCompletionView {
        AcceptedCompletionView { edit: self.edit@, call_like: self.call_like }
    }
}

/// Whether a kind of completion is called.
pub open spec fn callable(kind: Option<CompletionItemKind>) -> bool {
    match kind {
        Some(CompletionItemKind::Function)
        | Some(CompletionItemKind::Method)
        | Some(CompletionItemKind::Constructor) => true,
        _ => false,
    }
}

/// The edit that a completion asks for by itself, its placeholders replaced.
pub open spec fn asked_edit(item: CompletionItemView, replaced: Span) -> TextEditView {
    let edit = match item.text_edit {
        Some(edit) => edit,
        None => TextEditView {
            start: replaced.start as usize,
            end: replaced.end as usize,
            new_text: match item.insert_text {
                Some(insert) => insert,
                None => item.label,
            },
        },
    };
    if item.snippet {
        TextEditView { new_text: signature::plain_snippet(edit.new_text), ..edit }
    } else {
        edit
    }
}

/// Whether a call stands there already: in the text that is written, or right behind it.
pub open spec fn called_already(content: Seq<char>, edit: TextEditView) -> bool {
    let behind = content.skip(text::fitting(content, edit.end as int) as int);
    text::starts_with(behind, "("@) || text::ends_with(edit.new_text, "("@) || text::ends_with(
        edit.new_text,
        ")"@,
    ) || text::contains_text(edit.new_text, "()"@)
}

/// What accepting a completion writes. What is called, or is made by `new`, gets parentheses where
/// none stand there already.
pub open spec fn accepted(
    content: Seq<char>,
    item: CompletionItemView,
    replaced: Span,
) -> AcceptedCompletionView {
    let edit = asked_edit(item, replaced);
    let head = content.take(text::fitting(content, edit.start as int) as int);
    let call_like = callable(item.kind) || (item.kind == Some(CompletionItemKind::Class)
        && text::ends_with(text::trim_end(head), "new"@));
    AcceptedCompletionView {
        edit: if call_like && !called_already(content, edit) {
            TextEditView { new_text: edit.new_text + "()"@, ..edit }
        } else {
            edit
        },
        call_like,
    }
}

/// What accepting a completion writes, where it replaces a range of bytes unless it has an edit of
/// its own.
pub fn accept_completion(content: &str, item: &CompletionItem, replaced: Range<usize>) -> (r:
    AcceptedCompletion)
    requires
        text::char_boundary(content@, asked_edit(
            item@,
            (Span { start: replaced.start as nat, end: replaced.end as nat }),
        ).start as nat),
        text::char_boundary(content@, asked_edit(
            item@,
            (Span { start: replaced.start as nat, end: replaced.end as nat }),
        ).end as nat),
    ensures
        r@ == accepted(
            content@,
            item@,
            (Span { start: replaced.start as nat, end: replaced.end as nat }),
        ),
{
    let chars = text::chars_of(content);
    let (start, end, written): (usize, usize, String) = match &item.text_edit {
        Some(edit) => (edit.start, edit.end, edit.new_text.clone()),
        None => (
            replaced.start,
            replaced.end,
            match &item.insert_text {
                Some(insert) => insert.clone(),
                None => item.label.clone(),
            },
        ),
    };
    let plain = if item.snippet {
        signature::strip_snippet_placeholders(&written)
    } else {
        written
    };
    let ghost span = Span { start: replaced.start as nat, end: replaced.end as nat };
    assert(asked_edit(item@, span) =~= (TextEditView { start, end, new_text: plain@ }));
    let n: usize = chars.len();
    let (first, _) = text::fit(&chars, start);
    let (last, _) = text::fit(&chars, end);
    let head = slice_subrange(&chars, 0, first);
    assert(head@ =~= content@.take(first as int));
    let behind = slice_subrange(&chars, last, n);
    assert(behind@ =~= content@.skip(last as int));
    let call_like = match item.kind {
        Some(CompletionItemKind::Function)
        | Some(CompletionItemKind::Method)
        | Some(CompletionItemKind::Constructor) => true,
        Some(CompletionItemKind::Class) => text::ends(text::trimmed_end(head), "new"),
        _ => false,
    };
    let mut new_text = text::chars_of(&plain);
    let called = text::begins(behind, "(") || text::ends(&new_text, "(") || text::ends(
        &new_text,
        ")",
    ) || text::has(&plain, "()");
    if call_like && !called {
        text::put(&mut new_text, "()");
    }
    let r = AcceptedCompletion {
        edit: TextEdit { start, end, new_text: text::to_string(&new_text) },
        call_like,
    };
    assert(r@ =~= accepted(content@, item@, span));
    r
}

/// The edits that accepting a completion makes: those that it brings along, then its own.
pub fn completion_edits(item: CompletionItem, accepted: &AcceptedCompletion) -> (r: Vec<TextEdit>)
    ensures
        completion::edit_views(r@) == item@.additional_text_edits.push(accepted@.edit),
{
    let ghost brought = item@.additional_text_edits;
    let mut edits = item.additional_text_edits;
    edits.push(accepted.edit.clone());
    assert(completion::edit_views(edits@) =~= brought.push(accepted@.edit));
    edits
}

/// Where the caret stands behind what was written: within its empty parentheses where it is called,
/// else behind it. What was written is looked for from where the edit began.
pub open spec fn caret_behind(
    updated: Seq<char>,
    start: usize,
    written: Seq<char>,
    call_like: bool,
) -> Option<nat> {
    let wanted = if call_like {
        text::strip_end(written, ')')
    } else {
        written
    };
    match text::find_from(updated, wanted, text::fitting(updated, start as int) as int) {
        Some(at) => {
            let caret = text::utf8_len(updated.take(at)) + text::utf8_len(written) - if call_like
                && text::ends_with(written, "()"@) {
                1int
            } else {
                0
            };
            Some(
                if caret <= text::utf8_len(updated) {
                    caret as nat
                } else {
                    text::utf8_len(updated)
                },
            )
        },
        None => None,
    }
}

/// Where the caret stands behind what was written; it stays where that is not found.
pub fn caret_after_completion(updated: &str, start: usize, written: &str, call_like: bool) -> (r:
    Option<usize>)
    requires
        php::boundary(updated@, start as nat),
    ensures
        match r {
            Some(caret) => caret_behind(updated@, start, written@, call_like) == Some(
                caret as nat,
            ),
            None => caret_behind(updated@, start, written@, call_like) is None,
        },
{
    let chars = text::chars_of(updated);
    let size: usize = text::byte_len(updated);
    let length: usize = text::byte_len(written);
    let written_chars = text::chars_of(written);
    let wanted = if call_like {
        text::stripped_end(&written_chars, ')')
    } else {
        slice_subrange(&written_chars, 0, written_chars.len())
    };
    proof {
        assert(!call_like ==> wanted@ =~= written@);
        text::lemma_find(updated@, wanted@, text::fitting(updated@, start as int) as int);
        reveal_strlit("()");
        text::lemma_utf8_len(written@);
    }
    let (from, _) = text::fit(&chars, start);
    match text::find(&chars, wanted, from) {
        Some(at) => {
            let position: usize = text::offset_of(&chars, at);
            let within = call_like && text::ends(&written_chars, "()");
            proof {
                if within {
                    assert(written@.len() >= 2);
                    lemma_not_empty(written@);
                }
            }
            let advance: usize = if within {
                length - 1
            } else {
                length
            };
            let room: usize = size - position;
            if advance <= room {
                Some(position + advance)
            } else {
                Some(size)
            }
        },
        None => None,
    }
}

proof fn lemma_not_empty(s: Seq<char>)
    requires
        s.len() > 0,
    ensures
        text::utf8_len(s) > 0,
{
}

/// Behind what is called, a call stands once the completion is accepted.
pub proof fn law_accepted_calls_are_called(
    content: Seq<char>,
    item: CompletionItemView,
    replaced: Span,
)
    requires
        accepted(content, item, replaced).call_like,
    ensures
        called_already(content, accepted(content, item, replaced).edit),
{
    let edit = asked_edit(item, replaced);
    if !called_already(content, edit) {
        let longer = edit.new_text + "()"@;
        reveal_strlit("()");
        reveal_strlit(")");
        assert(longer.subrange(longer.len() - 1, longer.len() as int) =~= ")"@);
    }
}

} // verus!
