//! What of a conversation, and of the files around it, a model is shown.

use vstd::prelude::*;
use vstd::string::*;

use crate::text;

verus! {

/// How many messages of a conversation are kept.
pub const MAX_CONTEXT_MESSAGES: usize = 64;

/// How many sources go with a request.
pub const MAX_CONTEXT_SOURCES: usize = 8;

/// How many bytes of a source are kept.
pub const MAX_CONTEXT_SOURCE_BYTES: usize = 32768;

/// Who wrote a message.
#[derive(Clone, Copy, Debug, PartialEq, Eq, Structural)]
pub enum ContextRole {
    User,
    Assistant,
    System,
}

/// One message of a conversation.
#[derive(Clone, Debug, PartialEq, Eq)]
pub struct ContextMessage {
    pub role: ContextRole,
    pub content: String,
}

impl ContextMessage {
    /// A message of someone.
    pub fn new(role: ContextRole, content: String) -> (r: Self)
        ensures
            r.role == role,
            r.content == content,
    {
        ContextMessage { role, content }
    }
}

/// Where a source comes from.
#[derive(Clone, Copy, Debug, PartialEq, Eq, Structural)]
pub enum ContextSourceKind {
    ActiveFile,
    Selection,
}

/// A piece of text that the user adds to a request.
#[derive(Debug, PartialEq, Eq)]
pub struct ContextSource {
    pub kind: ContextSourceKind,
    pub label: String,
    pub content: String,
    pub truncated: bool,
}

/// A `ContextSource` by what it says.
#[verifier::ext_equal]
pub struct SourceView {
    pub kind: ContextSourceKind,
    pub label: Seq<char>,
    pub content: Seq<char>,
    pub truncated: bool,
}

impl View for ContextSource {
    type V = SourceView;

    open spec fn view(&self) -> SourceView {
        SourceView {
            kind: self.kind,
            label: self.label@,
            content: self.content@,
            truncated: self.truncated,
        }
    }
}

impl Clone for ContextSource {
    fn clone(&self) -> (r: Self)
        ensures
            r@ == self@,
    {
        ContextSource {
            kind: self.kind,
            label: self.label.clone(),
            content: self.content.clone(),
            truncated: self.truncated,
        }
    }
}

impl ContextSource {
    /// A source whose content is cut, between characters, to what fits.
    pub fn new(kind: ContextSourceKind, label: String, content: String) -> (r: Self)
        ensures
            r.kind == kind,
            r.label == label,
            r.content@ == text::fitting_prefix(content@, MAX_CONTEXT_SOURCE_BYTES as nat),
            r.truncated == (text::utf8_len(content@) > MAX_CONTEXT_SOURCE_BYTES),
            !r.truncated ==> r.content@ == content@,
    {
        let (content, truncated) = text::truncate_utf8(&content, MAX_CONTEXT_SOURCE_BYTES);
        ContextSource { kind, label, content, truncated }
    }
}

/// What a model is shown.
#[derive(Debug, PartialEq, Eq)]
pub struct ContextSnapshot {
    pub messages: Vec<ContextMessage>,
    pub sources: Vec<ContextSource>,
}

impl Default for ContextSnapshot {
    fn default() -> (r: Self)
        ensures
            r.messages@.len() == 0,
            r.sources@.len() == 0,
    {
        ContextSnapshot { messages: Vec::new(), sources: Vec::new() }
    }
}

/// The last elements of a sequence, at most so many.
pub open spec fn newest<A>(s: Seq<A>, limit: nat) -> Seq<A> {
    if s.len() > limit {
        s.skip(s.len() - limit)
    } else {
        s
    }
}

/// The sources of a list by what they say.
pub open spec fn source_views(sources: Seq<ContextSource>) -> Seq<SourceView> {
    sources.map_values(|s: ContextSource| s@)
}

/// The sources that go with a request: all where they are few; else the selections first, then
/// the others, each in their order, as many as may go.
pub open spec fn bounded(sources: Seq<SourceView>) -> Seq<SourceView> {
    if sources.len() > MAX_CONTEXT_SOURCES {
        (sources.filter(|s: SourceView| s.kind is Selection) + sources.filter(
            |s: SourceView| !(s.kind is Selection),
        )).take(MAX_CONTEXT_SOURCES as int)
    } else {
        sources
    }
}

proof fn lemma_partition_len(sources: Seq<SourceView>)
    ensures
        sources.filter(|s: SourceView| s.kind is Selection).len() + sources.filter(
            |s: SourceView| !(s.kind is Selection),
        ).len() == sources.len(),
    decreases sources.len(),
{
    reveal(Seq::filter);
    if sources.len() > 0 {
        lemma_partition_len(sources.drop_last());
    }
}

/// The sources that go with a request.
pub fn bounded_sources(sources: Vec<ContextSource>) -> (r: Vec<ContextSource>)
    ensures
        source_views(r@) == bounded(source_views(sources@)),
{
    if sources.len() <= MAX_CONTEXT_SOURCES {
        return sources;
    }
    let ghost all = source_views(sources@);
    let ghost is_selection = |s: SourceView| s.kind is Selection;
    let ghost is_other = |s: SourceView| !(s.kind is Selection);
    let mut selections: Vec<ContextSource> = Vec::new();
    let mut others: Vec<ContextSource> = Vec::new();
    let mut i: usize = 0;
    assert(source_views(selections@) =~= all.take(0).filter(is_selection)) by {
        reveal(Seq::filter);
    }
    assert(source_views(others@) =~= all.take(0).filter(is_other)) by {
        reveal(Seq::filter);
    }
    while i < sources.len()
        invariant
            i <= sources@.len(),
            all == source_views(sources@),
            is_selection == (|s: SourceView| s.kind is Selection),
            is_other == (|s: SourceView| !(s.kind is Selection)),
            source_views(selections@) == all.take(i as int).filter(is_selection),
            source_views(others@) == all.take(i as int).filter(is_other),
        decreases sources@.len() - i,
    {
        proof {
            text::lemma_filter_step(all, is_selection, i as int);
            text::lemma_filter_step(all, is_other, i as int);
            assert(all[i as int] == sources@[i as int]@);
        }
        let source = sources[i].clone();
        if source.kind == ContextSourceKind::Selection {
            let ghost before = source_views(selections@);
            selections.push(source);
            assert(source_views(selections@) =~= before.push(source@));
        } else {
            let ghost before = source_views(others@);
            others.push(source);
            assert(source_views(others@) =~= before.push(source@));
        }
        i += 1;
    }
    assert(all.take(i as int) =~= all);
    let ghost chosen = source_views(selections@);
    let ghost rest = source_views(others@);
    proof {
        lemma_partition_len(all);
    }
    selections.append(&mut others);
    assert(source_views(selections@) =~= chosen + rest);
    selections.truncate(MAX_CONTEXT_SOURCES);
    assert(source_views(selections@) =~= (chosen + rest).take(MAX_CONTEXT_SOURCES as int));
    selections
}

/// How a source is shown.
pub open spec fn source_text(source: SourceView) -> Seq<char> {
    "Source: "@ + source.label + "\nKind: "@ + (match source.kind {
        ContextSourceKind::ActiveFile => "ActiveFile"@,
        ContextSourceKind::Selection => "Selection"@,
    }) + "\n"@ + (if source.truncated {
        "Truncated: true\n"@
    } else {
        Seq::empty()
    }) + "\n"@ + source.content + "\n\n"@
}

/// How sources are shown, one behind the other.
pub open spec fn sources_text(sources: Seq<SourceView>) -> Seq<char>
    decreases sources.len(),
{
    if sources.len() == 0 {
        Seq::empty()
    } else {
        sources_text(sources.drop_last()) + source_text(sources.last())
    }
}

/// A request of the user together with its sources.
pub open spec fn request_text(sources: Seq<SourceView>, user_request: Seq<char>) -> Seq<char> {
    "<axiom_explicit_context>\nThe user explicitly selected the following context for this request.\n\n"@
        + sources_text(sources) + "</axiom_explicit_context>\n\n<axiom_user_request>\n"@
        + user_request + "\n</axiom_user_request>"@
}

fn append_source(out: &mut String, source: &ContextSource)
    ensures
        final(out)@ == old(out)@ + source_text(source@),
{
    let ghost before = out@;
    out.append("Source: ");
    out.append(&source.label);
    out.append("\nKind: ");
    out.append(
        match source.kind {
            ContextSourceKind::ActiveFile => "ActiveFile",
            ContextSourceKind::Selection => "Selection",
        },
    );
    out.append("\n");
    if source.truncated {
        out.append("Truncated: true\n");
    }
    out.append("\n");
    out.append(&source.content);
    out.append("\n\n");
    assert(out@ =~= before + source_text(source@));
}

impl ContextSnapshot {
    /// Keeps the newest messages, each of them whole.
    pub fn from_messages(messages: Vec<ContextMessage>) -> (r: Self)
        ensures
            r.messages@ == newest(messages@, MAX_CONTEXT_MESSAGES as nat),
            r.sources@.len() == 0,
    {
        let mut messages = messages;
        if messages.len() > MAX_CONTEXT_MESSAGES {
            let first: usize = messages.len() - MAX_CONTEXT_MESSAGES;
            let ghost all = messages@;
            messages = messages.split_off(first);
            assert(messages@ =~= all.skip(first as int));
        }
        ContextSnapshot { messages, sources: Vec::new() }
    }

    /// The same messages with these sources.
    pub fn with_sources(self, sources: Vec<ContextSource>) -> (r: Self)
        ensures
            r.messages == self.messages,
            source_views(r.sources@) == bounded(source_views(sources@)),
    {
        ContextSnapshot { messages: self.messages, sources: bounded_sources(sources) }
    }

    /// A request of the user together with the sources, where there are any.
    pub fn user_request_with_sources(&self, user_request: &str) -> (r: Option<String>)
        ensures
            self.sources@.len() == 0 ==> r is None,
            self.sources@.len() > 0 ==> r is Some && r->0@ == request_text(
                source_views(self.sources@),
                user_request@,
            ),
    {
        if self.sources.len() == 0 {
            return None;
        }
        let mut out = String::from_str(
            "<axiom_explicit_context>\nThe user explicitly selected the following context for this request.\n\n",
        );
        let ghost head = out@;
        let ghost all = source_views(self.sources@);
        let mut i: usize = 0;
        assert(all.take(0) =~= Seq::<SourceView>::empty());
        assert(head + Seq::<char>::empty() =~= head);
        while i < self.sources.len()
            invariant
                i <= self.sources@.len(),
                all == source_views(self.sources@),
                out@ == head + sources_text(all.take(i as int)),
            decreases self.sources@.len() - i,
        {
            append_source(&mut out, &self.sources[i]);
            proof {
                assert(all.take(i + 1).drop_last() =~= all.take(i as int));
                assert(all.take(i + 1).last() == self.sources@[i as int]@);
                assert(out@ =~= head + sources_text(all.take(i + 1)));
            }
            i += 1;
        }
        assert(all.take(i as int) =~= all);
        out.append("</axiom_explicit_context>\n\n<axiom_user_request>\n");
        out.append(user_request);
        out.append("\n</axiom_user_request>");
        Some(out)
    }
}

/// Of a long conversation exactly the newest messages stay, whole and in their order; a short one
/// stays as it is.
pub proof fn law_newest_messages_stay<A>(messages: Seq<A>, limit: nat)
    ensures
        newest(messages, limit).len() <= limit,
        messages.len() <= limit ==> newest(messages, limit) == messages,
        messages.len() > limit ==> newest(messages, limit).len() == limit,
        forall|k: int|
            0 <= k < newest(messages, limit).len() ==> (#[trigger] newest(messages, limit)[k])
                == messages[messages.len() - newest(messages, limit).len() + k],
{
}

/// No more sources go with a request than may, and a selection goes before any file: it is left
/// out only where as many selections go.
pub proof fn law_selections_come_first(sources: Seq<SourceView>)
    ensures
        bounded(sources).len() <= MAX_CONTEXT_SOURCES,
        sources.len() <= MAX_CONTEXT_SOURCES ==> bounded(sources) == sources,
        sources.len() > MAX_CONTEXT_SOURCES ==> (forall|i: int, j: int|
            0 <= i < j < bounded(sources).len() && (#[trigger] bounded(
                sources,
            )[j]).kind is Selection ==> (#[trigger] bounded(sources)[i]).kind is Selection),
        forall|k: int|
            0 <= k < sources.len() && (#[trigger] sources[k]).kind is Selection ==> bounded(
                sources,
            ).contains(sources[k]) || (forall|j: int|
                0 <= j < bounded(sources).len() ==> (#[trigger] bounded(
                    sources,
                )[j]).kind is Selection),
{
    let is_selection = |s: SourceView| s.kind is Selection;
    let is_other = |s: SourceView| !(s.kind is Selection);
    let chosen = sources.filter(is_selection);
    let rest = sources.filter(is_other);
    lemma_partition_len(sources);
    assert forall|k: int| 0 <= k < chosen.len() implies (#[trigger] chosen[k]).kind is Selection by {
        sources.lemma_filter_pred(is_selection, k);
        assert(is_selection(chosen[k]));
    }
    assert forall|k: int| 0 <= k < rest.len() implies !((
    #[trigger] rest[k]).kind is Selection) by {
        sources.lemma_filter_pred(is_other, k);
        assert(is_other(rest[k]));
    }
    if sources.len() > MAX_CONTEXT_SOURCES {
        let taken = bounded(sources);
        assert(forall|i: int|
            0 <= i < taken.len() ==> #[trigger] taken[i] == (if i < chosen.len() {
                chosen[i]
            } else {
                rest[i - chosen.len()]
            }));
        assert forall|k: int|
            0 <= k < sources.len() && (#[trigger] sources[k]).kind is Selection implies taken.contains(
            sources[k],
        ) || (forall|j: int|
            0 <= j < taken.len() ==> (#[trigger] taken[j]).kind is Selection) by {
            sources.lemma_filter_contains(is_selection, k);
            let at = choose|at: int| 0 <= at < chosen.len() && chosen[at] == sources[k];
            if at < MAX_CONTEXT_SOURCES {
                assert(taken[at] == sources[k]);
            }
        }
    } else {
        assert forall|k: int|
            0 <= k < sources.len() && (#[trigger] sources[k]).kind is Selection implies bounded(
            sources,
        ).contains(sources[k]) by {
            assert(bounded(sources)[k] == sources[k]);
        }
    }
}

/// Where a source is shown in a text: its label, and behind that its content.
pub open spec fn shown_at(text: Seq<char>, source: SourceView, label: int, content: int) -> bool {
    &&& text::occurs_at(text, "Source: "@ + source.label + "\n"@, label)
    &&& text::occurs_at(text, source.content, content)
    &&& label + source.label.len() < content
    &&& source.truncated ==> text::occurs_at(
        text,
        "Truncated: true\n\n"@ + source.content,
        content - "Truncated: true\n\n"@.len(),
    )
}

/// Whether all sources are shown in a text, one behind the other, and before an index.
pub open spec fn all_shown(
    text: Seq<char>,
    sources: Seq<SourceView>,
    labels: Seq<int>,
    contents: Seq<int>,
    before: int,
) -> bool {
    &&& labels.len() == sources.len()
    &&& contents.len() == sources.len()
    &&& forall|k: int|
        0 <= k < sources.len() ==> #[trigger] shown_at(text, sources[k], labels[k], contents[k])
            && contents[k] + sources[k].content.len() <= before
    &&& forall|i: int, j: int|
        0 <= i < j < sources.len() ==> #[trigger] contents[i] + sources[i].content.len()
            <= #[trigger] labels[j]
}

proof fn lemma_occurs_in(whole: Seq<char>, pattern: Seq<char>, at: int, head: Seq<char>, tail: Seq<char>)
    requires
        text::occurs_at(whole, pattern, at),
    ensures
        text::occurs_at(head + whole + tail, pattern, at + head.len()),
{
    assert((head + whole + tail).subrange(
        at + head.len(),
        at + head.len() + pattern.len(),
    ) =~= whole.subrange(at, at + pattern.len()));
}

proof fn lemma_one_shown(source: SourceView) -> (r: (int, int))
    ensures
        shown_at(source_text(source), source, r.0, r.1),
        r.0 == 0,
        r.1 + source.content.len() <= source_text(source).len(),
{
    let kind = match source.kind {
        ContextSourceKind::ActiveFile => "ActiveFile"@,
        ContextSourceKind::Selection => "Selection"@,
    };
    reveal_strlit("Source: ");
    reveal_strlit("\nKind: ");
    reveal_strlit("\n");
    reveal_strlit("Truncated: true\n");
    reveal_strlit("Truncated: true\n\n");
    let whole = source_text(source);
    let cut: Seq<char> = if source.truncated {
        "Truncated: true\n"@
    } else {
        Seq::empty()
    };
    let before = "Source: "@ + source.label + "\nKind: "@ + kind + "\n"@ + cut + "\n"@;
    assert(whole =~= before + source.content + "\n\n"@);
    let label = "Source: "@ + source.label + "\n"@;
    assert(whole.subrange(0, label.len() as int) =~= label) by {
        assert("\nKind: "@[0] == "\n"@[0]);
    }
    let at = before.len() as int;
    assert(whole.subrange(at, at + source.content.len()) =~= source.content);
    if source.truncated {
        let told = "Truncated: true\n\n"@ + source.content;
        let from = at - "Truncated: true\n\n"@.len();
        assert(before =~= "Source: "@ + source.label + "\nKind: "@ + kind + "\n"@
            + "Truncated: true\n\n"@) by {
            assert("Truncated: true\n"@ + "\n"@ =~= "Truncated: true\n\n"@);
        }
        assert(whole.subrange(from, from + told.len()) =~= told);
    }
    (0, at)
}

proof fn lemma_sources_shown(sources: Seq<SourceView>) -> (r: (Seq<int>, Seq<int>))
    ensures
        all_shown(
            sources_text(sources),
            sources,
            r.0,
            r.1,
            sources_text(sources).len() as int,
        ),
    decreases sources.len(),
{
    if sources.len() == 0 {
        (Seq::empty(), Seq::empty())
    } else {
        let rest = sources.drop_last();
        let (labels, contents) = lemma_sources_shown(rest);
        let head = sources_text(rest);
        let last = sources.last();
        let whole = sources_text(sources);
        let one = source_text(last);
        let (label, content) = lemma_one_shown(last);
        let n = rest.len() as int;
        let none = Seq::<char>::empty();
        let r = (labels.push(label + head.len()), contents.push(content + head.len()));
        assert forall|k: int| 0 <= k < sources.len() implies #[trigger] shown_at(
            whole,
            sources[k],
            r.0[k],
            r.1[k],
        ) && r.1[k] + sources[k].content.len() <= whole.len() by {
            let (text, before, behind) = if k < n {
                assert(shown_at(head, rest[k], labels[k], contents[k]));
                (head, none, one)
            } else {
                (one, head, none)
            };
            let source = sources[k];
            let from = r.0[k] - before.len();
            let at = r.1[k] - before.len();
            assert(shown_at(text, source, from, at));
            assert(whole =~= before + text + behind);
            lemma_occurs_in(text, "Source: "@ + source.label + "\n"@, from, before, behind);
            lemma_occurs_in(text, source.content, at, before, behind);
            if source.truncated {
                lemma_occurs_in(
                    text,
                    "Truncated: true\n\n"@ + source.content,
                    at - "Truncated: true\n\n"@.len(),
                    before,
                    behind,
                );
            }
        }
        assert forall|i: int, j: int| 0 <= i < j < sources.len() implies #[trigger] r.1[i]
            + sources[i].content.len() <= #[trigger] r.0[j] by {
            assert(shown_at(head, rest[i], labels[i], contents[i]));
            if j < n {
                assert(contents[i] + rest[i].content.len() <= labels[j]);
            }
        }
        r
    }
}

/// What a model is sent ends with the whole request of the user, between its two tags; before it
/// stand the label and the content of every source, in their order.
pub proof fn law_requests_are_sent_whole(sources: Seq<SourceView>, user_request: Seq<char>)
    ensures
        ({
            let sent = request_text(sources, user_request);
            let asked = "<axiom_user_request>\n"@ + user_request + "\n</axiom_user_request>"@;
            let before = sent.len() - asked.len();
            &&& before >= 0
            &&& sent.skip(before) == asked
            &&& exists|labels: Seq<int>, contents: Seq<int>|
                #[trigger] all_shown(sent, sources, labels, contents, before)
        }),
{
    let sent = request_text(sources, user_request);
    let asked = "<axiom_user_request>\n"@ + user_request + "\n</axiom_user_request>"@;
    let head =
        "<axiom_explicit_context>\nThe user explicitly selected the following context for this request.\n\n"@;
    let shown = sources_text(sources);
    reveal_strlit("</axiom_explicit_context>\n\n<axiom_user_request>\n");
    reveal_strlit("</axiom_explicit_context>\n\n");
    reveal_strlit("<axiom_user_request>\n");
    let close = "</axiom_explicit_context>\n\n"@;
    assert("</axiom_explicit_context>\n\n<axiom_user_request>\n"@ =~= close
        + "<axiom_user_request>\n"@);
    assert(sent =~= head + shown + (close + asked));
    let before = sent.len() - asked.len();
    assert(sent.skip(before) =~= asked);
    let (labels, contents) = lemma_sources_shown(sources);
    let moved = labels.map_values(|at: int| at + head.len());
    let moved_contents = contents.map_values(|at: int| at + head.len());
    assert forall|k: int| 0 <= k < sources.len() implies #[trigger] shown_at(
        sent,
        sources[k],
        moved[k],
        moved_contents[k],
    ) && moved_contents[k] + sources[k].content.len() <= before by {
        let source = sources[k];
        assert(shown_at(shown, source, labels[k], contents[k]));
        lemma_occurs_in(
            shown,
            "Source: "@ + source.label + "\n"@,
            labels[k],
            head,
            close + asked,
        );
        lemma_occurs_in(shown, source.content, contents[k], head, close + asked);
        if source.truncated {
            lemma_occurs_in(
                shown,
                "Truncated: true\n\n"@ + source.content,
                contents[k] - "Truncated: true\n\n"@.len(),
                head,
                close + asked,
            );
        }
    }
    assert forall|i: int, j: int| 0 <= i < j < sources.len() implies #[trigger] moved_contents[i]
        + sources[i].content.len() <= #[trigger] moved[j] by {
        assert(contents[i] + sources[i].content.len() <= labels[j]);
    }
    assert(all_shown(sent, sources, moved, moved_contents, before));
}

/// Two different requests with the same sources are sent as different texts.
pub proof fn law_different_requests_are_sent_differently(
    sources: Seq<SourceView>,
    first: Seq<char>,
    second: Seq<char>,
)
    requires
        request_text(sources, first) == request_text(sources, second),
    ensures
        first == second,
{
    let open = "<axiom_user_request>\n"@;
    let close = "\n</axiom_user_request>"@;
    law_requests_are_sent_whole(sources, first);
    law_requests_are_sent_whole(sources, second);
    let sent = request_text(sources, first);
    assert(request_text(sources, first).len() - first.len() == request_text(
        sources,
        second,
    ).len() - second.len());
    let before = sent.len() - (open + first + close).len();
    assert(sent.skip(before) == open + first + close);
    assert(sent.skip(before) == open + second + close);
    assert(first =~= (open + first + close).subrange(
        open.len() as int,
        (open.len() + first.len()) as int,
    ));
    assert(second =~= (open + second + close).subrange(
        open.len() as int,
        (open.len() + second.len()) as int,
    ));
}

/// Of many sources exactly as many go with a request as may, each of them one that was given and none
/// twice; selections among themselves, and files among themselves, keep their order, and of either
/// those that were given first go.
pub proof fn law_first_sources_go(sources: Seq<SourceView>)
    requires
        sources.len() > MAX_CONTEXT_SOURCES,
    ensures
        bounded(sources).len() == MAX_CONTEXT_SOURCES,
        exists|from: Seq<int>| #[trigger] taken_from(sources, bounded(sources), from),
{
    let is_selection = |s: SourceView| s.kind is Selection;
    let is_other = |s: SourceView| !(s.kind is Selection);
    let a = text::lemma_filter_positions(sources, is_selection);
    let b = text::lemma_filter_positions(sources, is_other);
    lemma_partition_len(sources);
    let chosen = sources.filter(is_selection);
    let rest = sources.filter(is_other);
    let all = a + b;
    let from = all.take(MAX_CONTEXT_SOURCES as int);
    let went = bounded(sources);
    assert(went =~= (chosen + rest).take(MAX_CONTEXT_SOURCES as int));
    assert forall|k: int| 0 <= k < from.len() implies 0 <= #[trigger] from[k] < sources.len()
        && went[k] == sources[from[k]] && (sources[from[k]].kind is Selection <==> k < a.len()) by {
        if k < a.len() {
            assert(from[k] == a[k]);
            assert(is_selection(sources[a[k]]));
        } else {
            assert(from[k] == b[k - a.len()]);
            assert(is_other(sources[b[k - a.len()]]));
        }
    }
    assert forall|i: int, j: int|
        0 <= i < j < from.len() && (sources[from[i]].kind is Selection == sources[from[j]].kind is Selection) implies
        #[trigger] from[i] < #[trigger] from[j] by {
        if j < a.len() {
            assert(from[i] == a[i] && from[j] == a[j]);
        } else {
            assert(from[i] == b[i - a.len()] && from[j] == b[j - a.len()]);
        }
    }
    assert forall|i: int, j: int|
        0 <= i < j < from.len() implies #[trigger] from[i] != #[trigger] from[j] by {
        if sources[from[i]].kind is Selection == sources[from[j]].kind is Selection {
            assert(from[i] < from[j]);
        }
    }
    assert forall|k: int, i: int|
        0 <= k < from.len() && 0 <= i < from[k] && (#[trigger] sources[i]).kind is Selection
            == sources[#[trigger] from[k]].kind is Selection implies from.contains(i) by {
        if k < a.len() {
            assert(is_selection(sources[i]));
            let m = choose|m: int| 0 <= m < a.len() && a[m] == i;
            if m > k {
                assert(a[k] < a[m]);
            }
            assert(from[m] == i);
        } else {
            assert(is_other(sources[i]));
            let m = choose|m: int| 0 <= m < b.len() && b[m] == i;
            if m > k - a.len() {
                assert(b[k - a.len()] < b[m]);
            }
            assert(from[m + a.len()] == i);
        }
    }
    assert(taken_from(sources, went, from));
}

/// Whether some sources are those at some positions among others: none twice, those of one kind in
/// their order, and with none left out before one of its kind.
pub open spec fn taken_from(sources: Seq<SourceView>, went: Seq<SourceView>, from: Seq<int>) -> bool {
    &&& from.len() == went.len()
    &&& forall|k: int|
        0 <= k < from.len() ==> 0 <= #[trigger] from[k] < sources.len() && went[k]
            == sources[from[k]]
    &&& forall|i: int, j: int|
        0 <= i < j < from.len() ==> #[trigger] from[i] != #[trigger] from[j]
    &&& forall|i: int, j: int|
        0 <= i < j < from.len() && (sources[from[i]].kind is Selection
            == sources[from[j]].kind is Selection) ==> #[trigger] from[i] < #[trigger] from[j]
    &&& forall|k: int, i: int|
        0 <= k < from.len() && 0 <= i < from[k] && (#[trigger] sources[i]).kind is Selection
            == sources[#[trigger] from[k]].kind is Selection ==> from.contains(i)
}

} // verus!
