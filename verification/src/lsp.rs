//! What passes between the editor and a language server: changes that wait to be sent, requests
//! and their answers, and the sessions of documents.

use vstd::prelude::*;
use vstd::string::*;

use crate::completion::CompletionItem;
use crate::completion::TextEdit;
use crate::text;
use crate::utf16;
use crate::utf16::PositionEncoding;

verus! {

/// A position by its line and its column.
#[derive(Clone, Copy, Debug, PartialEq, Eq, Structural)]
pub struct Position {
    pub line: u32,
    pub character: u32,
}

/// What lies between two positions.
#[derive(Clone, Copy, Debug, PartialEq, Eq, Structural)]
pub struct PositionRange {
    pub start: Position,
    pub end: Position,
}

/// An edit of a document: from where to where the text was that it took out, by lines, with their
/// texts and the columns in bytes, and what it put in.
#[derive(Debug, PartialEq, Eq)]
pub struct DocumentEdit {
    pub old_start_line: usize,
    pub old_start_line_text: String,
    pub old_start_column_bytes: usize,
    pub old_end_line: usize,
    pub old_end_line_text: String,
    pub old_end_column_bytes: usize,
    pub inserted_text: String,
}

/// A line and a column of it as the server counts them, in 32 bits.
pub open spec fn encoded_position(
    line: usize,
    line_text: Seq<char>,
    column: usize,
    encoding: PositionEncoding,
) -> Position {
    Position {
        line: line as u32,
        character: utf16::encoded_column(line_text, column as nat, encoding) as u32,
    }
}

/// The range that a change tells the server: that which an edit took out, or none where the whole
/// text is told.
pub open spec fn changed_range(
    edit: Option<&DocumentEdit>,
    encoding: PositionEncoding,
) -> Option<PositionRange> {
    match edit {
        Some(edit) => Some(
            PositionRange {
                start: encoded_position(
                    edit.old_start_line,
                    edit.old_start_line_text@,
                    edit.old_start_column_bytes,
                    encoding,
                ),
                end: encoded_position(
                    edit.old_end_line,
                    edit.old_end_line_text@,
                    edit.old_end_column_bytes,
                    encoding,
                ),
            },
        ),
        None => None,
    }
}

/// The text that a change tells the server: what an edit put in, or the whole text.
pub open spec fn changed_text(edit: Option<&DocumentEdit>, source: Seq<char>) -> Seq<char> {
    match edit {
        Some(edit) => edit.inserted_text@,
        None => source,
    }
}

fn encode_position(
    line: usize,
    line_text: &str,
    column: usize,
    encoding: PositionEncoding,
) -> (r: Position)
    ensures
        r == encoded_position(line, line_text@, column, encoding),
{
    let character: usize = utf16::encode_column(line_text, column, encoding);
    Position {
        line: #[verifier::truncate]
        (line as u32),
        character: #[verifier::truncate]
        (character as u32),
    }
}

/// What the server is told of an edit that left a document with a text: the range and the text that
/// it holds now, or the whole text where no edit is known.
pub fn document_change(edit: Option<&DocumentEdit>, source: &str, encoding: PositionEncoding) -> (r:
    (Option<PositionRange>, String))
    ensures
        r.0 == changed_range(edit, encoding),
        r.1@ == changed_text(edit, source@),
{
    match edit {
        Some(edit) => {
            let start = encode_position(
                edit.old_start_line,
                edit.old_start_line_text.as_str(),
                edit.old_start_column_bytes,
                encoding,
            );
            let end = encode_position(
                edit.old_end_line,
                edit.old_end_line_text.as_str(),
                edit.old_end_column_bytes,
                encoding,
            );
            (Some(PositionRange { start, end }), edit.inserted_text.clone())
        },
        None => (None, String::from_str(source)),
    }
}

/// A range of a document.
#[derive(Debug, PartialEq, Eq)]
pub struct Location {
    pub uri: String,
    pub range: PositionRange,
}

/// A report of the server.
#[derive(Debug, PartialEq, Eq)]
pub struct ServerDiagnostic {
    pub range: PositionRange,
    pub severity: Option<u32>,
    pub message: String,
}

/// The reports of the server on a version of a document.
#[derive(Debug, PartialEq, Eq)]
pub struct PublishedDiagnostics {
    pub uri: String,
    pub version: Option<i32>,
    pub diagnostics: Vec<ServerDiagnostic>,
}

/// What a request asks for.
#[derive(Clone, Copy, Debug, PartialEq, Eq, Hash, Structural)]
pub enum LspRequestKind {
    Completion,
    Hover,
    Definition,
    References,
    Formatting,
    SignatureHelp,
}

/// What the editor is told.
#[derive(Debug, PartialEq, Eq)]
#[allow(inconsistent_fields)]
pub enum IdeLspEvent {
    Diagnostics { params: PublishedDiagnostics, session: u64 },
    Completion { uri: String, items: Vec<CompletionItem>, generation: u64 },
    Formatting { uri: String, edits: Vec<TextEdit>, generation: u64 },
    SignatureHelp { uri: String, text: Option<String>, generation: u64 },
    Hover { uri: String, text: Option<String>, generation: u64 },
    Definition { uri: String, locations: Vec<Location>, generation: u64 },
    References { uri: String, locations: Vec<Location>, generation: u64 },
    Error(String),
    Stopped,
}

/// What a request is answered with.
#[derive(Debug, PartialEq, Eq)]
pub enum LspReply {
    Completion(Vec<CompletionItem>),
    Formatting(Vec<TextEdit>),
    SignatureHelp(Option<String>),
    Hover(Option<String>),
    Definition(Vec<Location>),
    References(Vec<Location>),
}

/// What the server says by itself.
#[derive(Debug, PartialEq, Eq)]
pub enum ServerEvent {
    Diagnostics(PublishedDiagnostics),
    Stopped,
    Log(String),
}

/// How the server fares.
#[derive(Clone, Copy, Debug, PartialEq, Eq, Structural)]
pub enum ServerStatus {
    Ready,
    Stopped,
    NotFound,
}

/// A change of a document that waits to be sent: the text of a range, or of the whole document.
#[derive(Debug, PartialEq, Eq)]
pub struct QueuedDidChange {
    pub session: u64,
    pub uri: String,
    pub version: i32,
    pub text: String,
    pub range: Option<PositionRange>,
}

/// The changes that wait to be sent, the oldest first; a closed queue takes no more.
#[derive(Debug, PartialEq, Eq)]
pub struct DidChangeQueue {
    pub items: Vec<QueuedDidChange>,
    pub closed: bool,
}

/// Whether two changes are of the same document in the same session.
pub open spec fn same_document(a: QueuedDidChange, b: QueuedDidChange) -> bool {
    a.session == b.session && a.uri@ == b.uri@
}

/// The first change, from an index on, of the same document.
pub open spec fn waiting_for(
    items: Seq<QueuedDidChange>,
    change: QueuedDidChange,
    from: int,
) -> Option<int>
    decreases items.len() - from,
{
    if from >= items.len() {
        None
    } else if same_document(items[from], change) {
        Some(from)
    } else {
        waiting_for(items, change, from + 1)
    }
}

/// The place of the change that a change takes over: that of the first of the same document, where
/// it brings the whole text. A change of a range takes over none.
pub open spec fn superseded(items: Seq<QueuedDidChange>, change: QueuedDidChange) -> Option<int> {
    if change.range is None {
        waiting_for(items, change, 0)
    } else {
        None
    }
}

/// The changes that wait behind one more.
pub open spec fn enqueued(items: Seq<QueuedDidChange>, change: QueuedDidChange) -> Seq<
    QueuedDidChange,
> {
    match superseded(items, change) {
        Some(at) => items.update(at, change),
        None => items.push(change),
    }
}

impl DidChangeQueue {
    /// No changes.
    pub fn new() -> (r: Self)
        ensures
            r.items@.len() == 0,
            !r.closed,
    {
        DidChangeQueue { items: Vec::new(), closed: false }
    }

    /// Puts a change into the queue. Gives how many wait, and whether it took the place of another.
    pub fn enqueue(&mut self, change: QueuedDidChange) -> (r: (usize, bool))
        requires
            old(self).items@.len() < usize::MAX,
        ensures
            final(self).closed == old(self).closed,
            final(self).items@ == (if old(self).closed {
                old(self).items@
            } else {
                enqueued(old(self).items@, change)
            }),
            r.0 == final(self).items@.len(),
            r.1 == (!old(self).closed && superseded(old(self).items@, change) is Some),
    {
        if self.closed {
            return (self.items.len(), false);
        }
        if change.range.is_none() {
            let n: usize = self.items.len();
            let mut i: usize = 0;
            while i < n
                invariant
                    i <= n == self.items@.len(),
                    self.items@ == old(self).items@,
                    self.closed == old(self).closed,
                    !old(self).closed,
                    change.range is None,
                    waiting_for(self.items@, change, 0) == waiting_for(
                        self.items@,
                        change,
                        i as int,
                    ),
                decreases n - i,
            {
                if self.items[i].session == change.session && text::eq(
                    &self.items[i].uri,
                    &change.uri,
                ) {
                    self.items.set(i, change);
                    return (self.items.len(), true);
                }
                i += 1;
            }
        }
        self.items.push(change);
        (self.items.len(), false)
    }

    /// Takes the oldest change; nothing where none waits.
    pub fn next(&mut self) -> (r: Option<QueuedDidChange>)
        ensures
            final(self).closed == old(self).closed,
            match r {
                Some(change) => old(self).items@.len() > 0 && change == old(self).items@[0]
                    && final(self).items@ == old(self).items@.skip(1),
                None => old(self).items@.len() == 0 && final(self).items@ == old(self).items@,
            },
    {
        if self.items.len() == 0 {
            return None;
        }
        let change = self.items.remove(0);
        assert(self.items@ =~= old(self).items@.skip(1));
        Some(change)
    }

    /// Drops every change and takes no more.
    pub fn close(&mut self)
        ensures
            final(self).closed,
            final(self).items@.len() == 0,
    {
        self.closed = true;
        self.items.clear();
    }

    /// Drops the changes of a document in a session.
    pub fn discard(&mut self, uri: &str, session: u64)
        ensures
            final(self).closed == old(self).closed,
            final(self).items@ == old(self).items@.filter(
                |c: QueuedDidChange| !(c.session == session && c.uri@ == uri@),
            ),
    {
        let ghost all = self.items@;
        let ghost keep = |c: QueuedDidChange| !(c.session == session && c.uri@ == uri@);
        let ghost mut j: int = 0;
        let mut i: usize = 0;
        proof {
            assert(all.take(0).filter(keep) =~= Seq::<QueuedDidChange>::empty()) by {
                reveal(Seq::filter);
            }
            assert(Seq::<QueuedDidChange>::empty() + all.skip(0) =~= all);
        }
        while i < self.items.len()
            invariant
                0 <= j <= all.len(),
                i <= self.items@.len(),
                self.closed == old(self).closed,
                keep == (|c: QueuedDidChange| !(c.session == session && c.uri@ == uri@)),
                i == all.take(j).filter(keep).len(),
                self.items@ == all.take(j).filter(keep) + all.skip(j),
            decreases self.items@.len() - i,
        {
            proof {
                text::lemma_filter_step(all, keep, j);
                assert(self.items@[i as int] == all[j]);
            }
            let ghost done = all.take(j).filter(keep);
            if self.items[i].session == session && text::eq(&self.items[i].uri, uri) {
                self.items.remove(i);
                assert(self.items@ =~= done + all.skip(j + 1));
            } else {
                i += 1;
                assert(self.items@ =~= done.push(all[j]) + all.skip(j + 1));
            }
            proof {
                j = j + 1;
            }
        }
        proof {
            assert(all.take(j) =~= all);
            assert(all.filter(keep) + all.skip(j) =~= all.filter(keep));
        }
    }
}

/// A change of a range takes the place of no change that waits: it waits behind all of them.
pub proof fn law_range_changes_wait_behind_all(
    items: Seq<QueuedDidChange>,
    change: QueuedDidChange,
)
    requires
        change.range is Some,
    ensures
        enqueued(items, change) == items.push(change),
{
}

/// A whole text takes the place of one change that waits, the first of the same document, be that of
/// a range or a whole text too; all others wait as they did. Where none of the document waits, it
/// waits behind all.
pub proof fn law_whole_texts_take_one_place(items: Seq<QueuedDidChange>, change: QueuedDidChange)
    requires
        change.range is None,
    ensures
        match superseded(items, change) {
            Some(at) => {
                &&& 0 <= at < items.len()
                &&& same_document(items[at], change)
                &&& forall|k: int| 0 <= k < at ==> !same_document(#[trigger] items[k], change)
                &&& enqueued(items, change).len() == items.len()
                &&& enqueued(items, change)[at] == change
                &&& forall|k: int|
                    0 <= k < items.len() && k != at ==> #[trigger] enqueued(items, change)[k]
                        == items[k]
            },
            None => {
                &&& forall|k: int|
                    0 <= k < items.len() ==> !same_document(#[trigger] items[k], change)
                &&& enqueued(items, change) == items.push(change)
            },
        },
{
    lemma_waiting_for(items, change, 0);
}

/// Whatever is put into the queue, the changes of other documents wait as they did.
pub proof fn law_other_documents_wait_on(
    items: Seq<QueuedDidChange>,
    change: QueuedDidChange,
    i: int,
)
    requires
        0 <= i < items.len(),
        !same_document(items[i], change),
    ensures
        i < enqueued(items, change).len(),
        enqueued(items, change)[i] == items[i],
{
    lemma_waiting_for(items, change, 0);
}

proof fn lemma_waiting_for(items: Seq<QueuedDidChange>, change: QueuedDidChange, from: int)
    requires
        0 <= from,
    ensures
        match waiting_for(items, change, from) {
            Some(at) => from <= at < items.len() && same_document(items[at], change) && forall|
                k: int,
            |
                from <= k < at ==> !same_document(#[trigger] items[k], change),
            None => forall|k: int|
                from <= k < items.len() ==> !same_document(#[trigger] items[k], change),
        },
    decreases items.len() - from,
{
    if from < items.len() && !same_document(items[from], change) {
        lemma_waiting_for(items, change, from + 1);
    }
}

/// The newest text of a document is never lost: it waits once it is put into an open queue.
pub proof fn law_newest_text_waits(items: Seq<QueuedDidChange>, change: QueuedDidChange)
    ensures
        enqueued(items, change).contains(change),
{
    lemma_waiting_for(items, change, 0);
    match superseded(items, change) {
        Some(at) => {
            assert(enqueued(items, change)[at] == change);
        },
        None => {
            assert(enqueued(items, change)[items.len() as int] == change);
        },
    }
}

/// Whether an answer of a generation is taken, where one of `last` was the newest so far.
pub fn accept_generation(last: &mut u64, generation: u64) -> (r: bool)
    ensures
        r == (generation >= *old(last)),
        *final(last) == (if generation >= *old(last) {
            generation
        } else {
            *old(last)
        }),
{
    if generation < *last {
        return false;
    }
    *last = generation;
    true
}

/// How many requests of a kind were made for a document.
#[derive(Debug, PartialEq, Eq)]
pub struct Generation {
    pub uri: String,
    pub kind: LspRequestKind,
    pub number: u64,
}

/// The session that a document is open in.
#[derive(Debug, PartialEq, Eq)]
pub struct DocumentSession {
    pub uri: String,
    pub session: u64,
}

/// The number of requests of a kind for a document, from an index on; none where there were none.
pub open spec fn generation_of(
    generations: Seq<Generation>,
    uri: Seq<char>,
    kind: LspRequestKind,
    from: int,
) -> u64
    decreases generations.len() - from,
{
    if from >= generations.len() {
        0
    } else if generations[from].uri@ == uri && generations[from].kind == kind {
        generations[from].number
    } else {
        generation_of(generations, uri, kind, from + 1)
    }
}

/// The session of a document, from an index on.
pub open spec fn session_of(sessions: Seq<DocumentSession>, uri: Seq<char>, from: int) -> Option<
    u64,
>
    decreases sessions.len() - from,
{
    if from >= sessions.len() {
        None
    } else if sessions[from].uri@ == uri {
        Some(sessions[from].session)
    } else {
        session_of(sessions, uri, from + 1)
    }
}

/// Whether every document has one session at most.
pub open spec fn sessions_distinct(sessions: Seq<DocumentSession>) -> bool {
    forall|i: int, j: int|
        0 <= i < j < sessions.len() ==> (#[trigger] sessions[i]).uri@ != (
        #[trigger] sessions[j]).uri@
}

/// The editor's side of a language server.
#[derive(Debug, PartialEq, Eq)]
pub struct LspBridge {
    pub status: ServerStatus,
    pub pending_events: Vec<IdeLspEvent>,
    pub generations: Vec<Generation>,
    pub document_sessions: Vec<DocumentSession>,
    pub did_change_queue: Option<DidChangeQueue>,
}

/// How the start of a server went.
#[derive(Debug, PartialEq, Eq)]
pub enum ServerStart {
    Started,
    NotFound,
    Failed(String),
}

/// Whether an event reports on a document in a session.
pub open spec fn reports_on(event: IdeLspEvent, uri: Seq<char>, session: u64) -> bool {
    match event {
        IdeLspEvent::Diagnostics { params, session: reported } => params.uri@ == uri && reported
            == session,
        _ => false,
    }
}

/// The event that an answer to a request of a generation makes.
pub open spec fn reply_event(
    event: IdeLspEvent,
    uri: Seq<char>,
    generation: u64,
    reply: Result<LspReply, String>,
) -> bool {
    match reply {
        Err(error) => event == IdeLspEvent::Error(error),
        Ok(LspReply::Completion(items)) => event matches IdeLspEvent::Completion {
            uri: u,
            items: i,
            generation: g,
        } && u@ == uri && i == items && g == generation,
        Ok(LspReply::Formatting(edits)) => event matches IdeLspEvent::Formatting {
            uri: u,
            edits: e,
            generation: g,
        } && u@ == uri && e == edits && g == generation,
        Ok(LspReply::SignatureHelp(shown)) => event matches IdeLspEvent::SignatureHelp {
            uri: u,
            text: t,
            generation: g,
        } && u@ == uri && t == shown && g == generation,
        Ok(LspReply::Hover(shown)) => event matches IdeLspEvent::Hover {
            uri: u,
            text: t,
            generation: g,
        } && u@ == uri && t == shown && g == generation,
        Ok(LspReply::Definition(locations)) => event matches IdeLspEvent::Definition {
            uri: u,
            locations: l,
            generation: g,
        } && u@ == uri && l == locations && g == generation,
        Ok(LspReply::References(locations)) => event matches IdeLspEvent::References {
            uri: u,
            locations: l,
            generation: g,
        } && u@ == uri && l == locations && g == generation,
    }
}

/// What the editor is told of what the server says by itself: a report with the session of its
/// document, that the server stopped, and nothing of its log.
pub open spec fn told(sessions: Seq<DocumentSession>, event: ServerEvent) -> Seq<IdeLspEvent> {
    match event {
        ServerEvent::Diagnostics(params) => seq![
            IdeLspEvent::Diagnostics {
                params,
                session: match session_of(sessions, params.uri@, 0) {
                    Some(session) => session,
                    None => 0,
                },
            },
        ],
        ServerEvent::Stopped => seq![IdeLspEvent::Stopped],
        ServerEvent::Log(_) => Seq::empty(),
    }
}

/// What the editor is told of all that the server says by itself.
pub open spec fn told_all(sessions: Seq<DocumentSession>, events: Seq<ServerEvent>) -> Seq<
    IdeLspEvent,
>
    decreases events.len(),
{
    if events.len() == 0 {
        Seq::empty()
    } else {
        told(sessions, events[0]) + told_all(sessions, events.skip(1))
    }
}

impl LspBridge {
    /// Whether every document has one session at most.
    pub open spec fn wf(&self) -> bool {
        sessions_distinct(self.document_sessions@)
    }

    /// The bridge to a server as its start went.
    pub fn start(outcome: ServerStart) -> (r: Self)
        ensures
            r.wf(),
            r.generations@.len() == 0,
            r.document_sessions@.len() == 0,
            match outcome {
                ServerStart::Started => {
                    &&& r.status == ServerStatus::Ready
                    &&& r.pending_events@.len() == 0
                    &&& r.did_change_queue is Some
                    &&& r.did_change_queue->0.items@.len() == 0
                    &&& !r.did_change_queue->0.closed
                },
                ServerStart::NotFound => {
                    &&& r.status == ServerStatus::NotFound
                    &&& r.pending_events@.len() == 0
                    &&& r.did_change_queue is None
                },
                ServerStart::Failed(error) => {
                    &&& r.status == ServerStatus::Stopped
                    &&& r.pending_events@ == seq![IdeLspEvent::Error(error)]
                    &&& r.did_change_queue is None
                },
            },
    {
        let mut pending_events: Vec<IdeLspEvent> = Vec::new();
        let (status, did_change_queue) = match outcome {
            ServerStart::Started => (ServerStatus::Ready, Some(DidChangeQueue::new())),
            ServerStart::NotFound => (ServerStatus::NotFound, None),
            ServerStart::Failed(error) => {
                pending_events.push(IdeLspEvent::Error(error));
                (ServerStatus::Stopped, None)
            },
        };
        LspBridge {
            status,
            pending_events,
            generations: Vec::new(),
            document_sessions: Vec::new(),
            did_change_queue,
        }
    }

    /// The state of the server: what a server that runs says of itself, else how its start went.
    pub fn status(&self, server: Option<ServerStatus>) -> (r: ServerStatus)
        ensures
            r == match server {
                Some(status) => status,
                None => self.status,
            },
    {
        match server {
            Some(status) => status,
            None => self.status,
        }
    }

    /// The number of a new request of a kind for a document: one more than that of the last.
    pub fn next_generation(&mut self, uri: &str, kind: LspRequestKind) -> (r: u64)
        requires
            generation_of(old(self).generations@, uri@, kind, 0) < u64::MAX,
        ensures
            r == generation_of(old(self).generations@, uri@, kind, 0) + 1,
            generation_of(final(self).generations@, uri@, kind, 0) == r,
            forall|other: Seq<char>, of: LspRequestKind|
                (other != uri@ || of != kind) ==> #[trigger] generation_of(
                    final(self).generations@,
                    other,
                    of,
                    0,
                ) == generation_of(old(self).generations@, other, of, 0),
            final(self).status == old(self).status,
            final(self).pending_events == old(self).pending_events,
            final(self).document_sessions == old(self).document_sessions,
            final(self).did_change_queue == old(self).did_change_queue,
    {
        let ghost all = self.generations@;
        let n: usize = self.generations.len();
        let mut i: usize = 0;
        while i < n
            invariant
                i <= n == self.generations@.len(),
                *self == *old(self),
                all == self.generations@,
                generation_of(all, uri@, kind, 0) < u64::MAX,
                generation_of(all, uri@, kind, 0) == generation_of(all, uri@, kind, i as int),
                forall|k: int|
                    0 <= k < i ==> (#[trigger] all[k]).uri@ != uri@ || all[k].kind != kind,
            decreases n - i,
        {
            if text::eq(&self.generations[i].uri, uri) && self.generations[i].kind == kind {
                let number: u64 = self.generations[i].number + 1;
                let entry = Generation { uri: String::from_str(uri), kind, number };
                self.generations.set(i, entry);
                proof {
                    lemma_generation_set(all, i as int, entry, 0);
                    assert forall|other: Seq<char>, of: LspRequestKind|
                        (other != uri@ || of != kind) implies #[trigger] generation_of(
                        self.generations@,
                        other,
                        of,
                        0,
                    ) == generation_of(all, other, of, 0) by {
                        lemma_generation_other(all, i as int, entry, other, of, 0);
                    }
                }
                return number;
            }
            i += 1;
        }
        let entry = Generation { uri: String::from_str(uri), kind, number: 1 };
        self.generations.push(entry);
        proof {
            lemma_generation_push(all, entry, uri@, kind, 0);
            assert forall|other: Seq<char>, of: LspRequestKind|
                (other != uri@ || of != kind) implies #[trigger] generation_of(
                self.generations@,
                other,
                of,
                0,
            ) == generation_of(all, other, of, 0) by {
                lemma_generation_push(all, entry, other, of, 0);
            }
        }
        1
    }

    /// Begins a request of a kind for a document. Gives its number where a server is there to
    /// answer it; the number counts on either way.
    pub fn begin_request(&mut self, uri: &str, kind: LspRequestKind) -> (r: Option<u64>)
        requires
            generation_of(old(self).generations@, uri@, kind, 0) < u64::MAX,
        ensures
            generation_of(final(self).generations@, uri@, kind, 0) == generation_of(
                old(self).generations@,
                uri@,
                kind,
                0,
            ) + 1,
            r == (if old(self).did_change_queue is Some {
                Some(generation_of(final(self).generations@, uri@, kind, 0))
            } else {
                None
            }),
            forall|other: Seq<char>, of: LspRequestKind|
                (other != uri@ || of != kind) ==> #[trigger] generation_of(
                    final(self).generations@,
                    other,
                    of,
                    0,
                ) == generation_of(old(self).generations@, other, of, 0),
            final(self).status == old(self).status,
            final(self).pending_events == old(self).pending_events,
            final(self).document_sessions == old(self).document_sessions,
            final(self).did_change_queue == old(self).did_change_queue,
    {
        let generation: u64 = self.next_generation(uri, kind);
        if self.did_change_queue.is_some() {
            Some(generation)
        } else {
            None
        }
    }

    /// Tells the editor something.
    pub fn push(&mut self, event: IdeLspEvent)
        ensures
            final(self).pending_events@ == old(self).pending_events@.push(event),
            final(self).status == old(self).status,
            final(self).generations == old(self).generations,
            final(self).document_sessions == old(self).document_sessions,
            final(self).did_change_queue == old(self).did_change_queue,
    {
        self.pending_events.push(event);
    }

    /// Tells the editor what a request of a generation was answered with, or why it was not.
    pub fn finish_request(
        &mut self,
        uri: &str,
        generation: u64,
        reply: Result<LspReply, String>,
    )
        ensures
            final(self).pending_events@.len() == old(self).pending_events@.len() + 1,
            final(self).pending_events@.drop_last() == old(self).pending_events@,
            reply_event(final(self).pending_events@.last(), uri@, generation, reply),
            final(self).status == old(self).status,
            final(self).generations == old(self).generations,
            final(self).document_sessions == old(self).document_sessions,
            final(self).did_change_queue == old(self).did_change_queue,
    {
        let uri = String::from_str(uri);
        let event = match reply {
            Err(error) => IdeLspEvent::Error(error),
            Ok(LspReply::Completion(items)) => IdeLspEvent::Completion { uri, items, generation },
            Ok(LspReply::Formatting(edits)) => IdeLspEvent::Formatting { uri, edits, generation },
            Ok(LspReply::SignatureHelp(shown)) => IdeLspEvent::SignatureHelp {
                uri,
                text: shown,
                generation,
            },
            Ok(LspReply::Hover(shown)) => IdeLspEvent::Hover { uri, text: shown, generation },
            Ok(LspReply::Definition(locations)) => IdeLspEvent::Definition {
                uri,
                locations,
                generation,
            },
            Ok(LspReply::References(locations)) => IdeLspEvent::References {
                uri,
                locations,
                generation,
            },
        };
        self.pending_events.push(event);
        assert(self.pending_events@.drop_last() =~= old(self).pending_events@);
    }

    /// Puts a change of a document into the queue, where there is one that is open.
    pub fn queue_did_change_range(
        &mut self,
        session: u64,
        uri: String,
        version: i32,
        range: Option<PositionRange>,
        text: String,
    )
        requires
            old(self).did_change_queue is Some ==> old(self).did_change_queue->0.items@.len()
                < usize::MAX,
        ensures
            final(self).status == old(self).status,
            final(self).pending_events == old(self).pending_events,
            final(self).generations == old(self).generations,
            final(self).document_sessions == old(self).document_sessions,
            match old(self).did_change_queue {
                Some(queue) => {
                    &&& final(self).did_change_queue is Some
                    &&& final(self).did_change_queue->0.closed == queue.closed
                    &&& final(self).did_change_queue->0.items@ == (if queue.closed {
                        queue.items@
                    } else {
                        enqueued(
                            queue.items@,
                            (QueuedDidChange { session, uri, version, text, range }),
                        )
                    })
                },
                None => final(self).did_change_queue is None,
            },
    {
        match self.did_change_queue.take() {
            Some(mut queue) => {
                let _ = queue.enqueue(QueuedDidChange { session, uri, version, text, range });
                self.did_change_queue = Some(queue);
            },
            None => {},
        }
    }

    /// Opens a document in a session.
    pub fn register_document_session(&mut self, uri: &str, session: u64)
        requires
            old(self).wf(),
        ensures
            final(self).wf(),
            session_of(final(self).document_sessions@, uri@, 0) == Some(session),
            forall|other: Seq<char>|
                other != uri@ ==> #[trigger] session_of(
                    final(self).document_sessions@,
                    other,
                    0,
                ) == session_of(old(self).document_sessions@, other, 0),
            final(self).status == old(self).status,
            final(self).pending_events == old(self).pending_events,
            final(self).generations == old(self).generations,
            final(self).did_change_queue == old(self).did_change_queue,
    {
        let ghost all = self.document_sessions@;
        let n: usize = self.document_sessions.len();
        let mut i: usize = 0;
        while i < n
            invariant
                i <= n == self.document_sessions@.len(),
                *self == *old(self),
                all == self.document_sessions@,
                sessions_distinct(all),
                forall|k: int| 0 <= k < i ==> (#[trigger] all[k]).uri@ != uri@,
            decreases n - i,
        {
            if text::eq(&self.document_sessions[i].uri, uri) {
                let entry = DocumentSession { uri: String::from_str(uri), session };
                self.document_sessions.set(i, entry);
                proof {
                    assert(sessions_distinct(self.document_sessions@)) by {
                        assert forall|a: int, b: int|
                            0 <= a < b < self.document_sessions@.len() implies (
                        #[trigger] self.document_sessions@[a]).uri@ != (
                        #[trigger] self.document_sessions@[b]).uri@ by {
                            assert(all[a].uri@ != all[b].uri@);
                        }
                    }
                    lemma_session_set(all, i as int, entry, uri@, 0);
                    assert forall|other: Seq<char>| other != uri@ implies #[trigger] session_of(
                        self.document_sessions@,
                        other,
                        0,
                    ) == session_of(all, other, 0) by {
                        lemma_session_set(all, i as int, entry, other, 0);
                    }
                }
                return ;
            }
            i += 1;
        }
        let entry = DocumentSession { uri: String::from_str(uri), session };
        self.document_sessions.push(entry);
        proof {
            lemma_session_push(all, entry, uri@, 0);
            assert forall|other: Seq<char>| other != uri@ implies #[trigger] session_of(
                self.document_sessions@,
                other,
                0,
            ) == session_of(all, other, 0) by {
                lemma_session_push(all, entry, other, 0);
            }
        }
    }

    /// Whether a change is still of the session that its document is open in, so that it is sent.
    pub fn is_current(&self, change: &QueuedDidChange) -> (r: bool)
        ensures
            r == (session_of(self.document_sessions@, change.uri@, 0) == Some(change.session)),
    {
        match self.find_session(&change.uri) {
            Some(session) => session == change.session,
            None => false,
        }
    }

    fn find_session(&self, uri: &str) -> (r: Option<u64>)
        ensures
            r == session_of(self.document_sessions@, uri@, 0),
    {
        let mut i: usize = 0;
        while i < self.document_sessions.len()
            invariant
                i <= self.document_sessions@.len(),
                session_of(self.document_sessions@, uri@, 0) == session_of(
                    self.document_sessions@,
                    uri@,
                    i as int,
                ),
            decreases self.document_sessions@.len() - i,
        {
            if text::eq(&self.document_sessions[i].uri, uri) {
                return Some(self.document_sessions[i].session);
            }
            i += 1;
        }
        None
    }

    /// Ends a session of a document: it is no longer open in it, and what waits of that session is
    /// dropped, reports and changes alike.
    pub fn invalidate_document_session(&mut self, uri: &str, session: u64)
        requires
            old(self).wf(),
        ensures
            final(self).wf(),
            session_of(final(self).document_sessions@, uri@, 0) != Some(session),
            session_of(final(self).document_sessions@, uri@, 0) == (if session_of(
                old(self).document_sessions@,
                uri@,
                0,
            ) == Some(session) {
                None
            } else {
                session_of(old(self).document_sessions@, uri@, 0)
            }),
            forall|other: Seq<char>|
                other != uri@ ==> #[trigger] session_of(
                    final(self).document_sessions@,
                    other,
                    0,
                ) == session_of(old(self).document_sessions@, other, 0),
            final(self).pending_events@ == old(self).pending_events@.filter(
                |e: IdeLspEvent| !reports_on(e, uri@, session),
            ),
            match old(self).did_change_queue {
                Some(queue) => {
                    &&& final(self).did_change_queue is Some
                    &&& final(self).did_change_queue->0.closed == queue.closed
                    &&& final(self).did_change_queue->0.items@ == queue.items@.filter(
                        |c: QueuedDidChange| !(c.session == session && c.uri@ == uri@),
                    )
                },
                None => final(self).did_change_queue is None,
            },
            final(self).status == old(self).status,
            final(self).generations == old(self).generations,
    {
        end_session(&mut self.document_sessions, uri, session);
        drop_reports(&mut self.pending_events, uri, session);
        match self.did_change_queue.take() {
            Some(mut queue) => {
                queue.discard(uri, session);
                self.did_change_queue = Some(queue);
            },
            None => {},
        }
    }

    /// Drops every change that waits and takes no more.
    pub fn close_did_change_queue(&mut self)
        ensures
            match old(self).did_change_queue {
                Some(_) => {
                    &&& final(self).did_change_queue is Some
                    &&& final(self).did_change_queue->0.closed
                    &&& final(self).did_change_queue->0.items@.len() == 0
                },
                None => final(self).did_change_queue is None,
            },
            final(self).status == old(self).status,
            final(self).pending_events == old(self).pending_events,
            final(self).generations == old(self).generations,
            final(self).document_sessions == old(self).document_sessions,
    {
        match self.did_change_queue.take() {
            Some(mut queue) => {
                queue.close();
                self.did_change_queue = Some(queue);
            },
            None => {},
        }
    }

    /// Hands the editor all that it is to be told, what the server said by itself last.
    pub fn drain_events(&mut self, events: Vec<ServerEvent>) -> (r: Vec<IdeLspEvent>)
        ensures
            r@ == old(self).pending_events@ + told_all(old(self).document_sessions@, events@),
            final(self).pending_events@.len() == 0,
            final(self).status == old(self).status,
            final(self).generations == old(self).generations,
            final(self).document_sessions == old(self).document_sessions,
            final(self).did_change_queue == old(self).did_change_queue,
    {
        let ghost sessions = self.document_sessions@;
        let ghost all = events@;
        let ghost first = self.pending_events@;
        let mut events = events;
        assert(all.skip(0) =~= all);
        while events.len() > 0
            invariant
                sessions == self.document_sessions@,
                self.status == old(self).status,
                self.generations == old(self).generations,
                self.document_sessions == old(self).document_sessions,
                self.did_change_queue == old(self).did_change_queue,
                first + told_all(sessions, all) == self.pending_events@ + told_all(
                    sessions,
                    events@,
                ),
            decreases events@.len(),
        {
            let ghost left = events@;
            let ghost held = self.pending_events@;
            let event = events.remove(0);
            assert(events@ =~= left.skip(1));
            match event {
                ServerEvent::Diagnostics(params) => {
                    let session: u64 = match self.find_session(&params.uri) {
                        Some(session) => session,
                        None => 0,
                    };
                    self.pending_events.push(IdeLspEvent::Diagnostics { params, session });
                },
                ServerEvent::Stopped => {
                    self.pending_events.push(IdeLspEvent::Stopped);
                },
                ServerEvent::Log(_) => {},
            }
            proof {
                let now = told(sessions, left[0]);
                assert(self.pending_events@ =~= held + now);
                assert(held + (now + told_all(sessions, events@)) =~= (held + now) + told_all(
                    sessions,
                    events@,
                ));
            }
        }
        assert(self.pending_events@ + told_all(sessions, events@) =~= self.pending_events@);
        let mut out: Vec<IdeLspEvent> = Vec::new();
        out.append(&mut self.pending_events);
        assert(out@ =~= first + told_all(sessions, all));
        out
    }
}

fn end_session(sessions: &mut Vec<DocumentSession>, uri: &str, session: u64)
    requires
        sessions_distinct(old(sessions)@),
    ensures
        sessions_distinct(final(sessions)@),
        session_of(final(sessions)@, uri@, 0) == (if session_of(old(sessions)@, uri@, 0) == Some(
            session,
        ) {
            None
        } else {
            session_of(old(sessions)@, uri@, 0)
        }),
        forall|other: Seq<char>|
            other != uri@ ==> #[trigger] session_of(final(sessions)@, other, 0) == session_of(
                old(sessions)@,
                other,
                0,
            ),
{
    let ghost all = sessions@;
    let n: usize = sessions.len();
    let mut i: usize = 0;
    while i < n
        invariant
            i <= n == sessions@.len(),
            sessions@ == all,
            all == old(sessions)@,
            sessions_distinct(all),
            session_of(all, uri@, 0) == session_of(all, uri@, i as int),
            forall|k: int| 0 <= k < i ==> (#[trigger] all[k]).uri@ != uri@,
        decreases n - i,
    {
        if text::eq(&sessions[i].uri, uri) {
            if sessions[i].session == session {
                sessions.remove(i);
                proof {
                    let left = sessions@;
                    assert(left =~= all.remove(i as int));
                    assert forall|a: int, b: int| 0 <= a < b < left.len() implies (
                    #[trigger] left[a]).uri@ != (#[trigger] left[b]).uri@ by {
                        let x = if a < i {
                            a
                        } else {
                            a + 1
                        };
                        let y = if b < i {
                            b
                        } else {
                            b + 1
                        };
                        assert(all[x].uri@ != all[y].uri@);
                    }
                    assert forall|k: int| 0 <= k < left.len() implies (
                    #[trigger] left[k]).uri@ != uri@ by {
                        if k >= i {
                            assert(all[i as int].uri@ != all[k + 1].uri@);
                        } else {
                            assert(all[k].uri@ != uri@);
                        }
                    }
                    lemma_session_none(left, uri@, 0);
                    assert forall|other: Seq<char>| other != uri@ implies #[trigger] session_of(
                        left,
                        other,
                        0,
                    ) == session_of(all, other, 0) by {
                        lemma_session_remove(all, i as int, other, 0);
                    }
                }
            }
            return ;
        }
        i += 1;
    }
}

fn drop_reports(events: &mut Vec<IdeLspEvent>, uri: &str, session: u64)
    ensures
        final(events)@ == old(events)@.filter(|e: IdeLspEvent| !reports_on(e, uri@, session)),
{
    let ghost all = events@;
    let ghost keep = |e: IdeLspEvent| !reports_on(e, uri@, session);
    let ghost mut j: int = 0;
    let mut i: usize = 0;
    proof {
        assert(all.take(0).filter(keep) =~= Seq::<IdeLspEvent>::empty()) by {
            reveal(Seq::filter);
        }
        assert(Seq::<IdeLspEvent>::empty() + all.skip(0) =~= all);
    }
    while i < events.len()
        invariant
            0 <= j <= all.len(),
            i <= events@.len(),
            keep == (|e: IdeLspEvent| !reports_on(e, uri@, session)),
            i == all.take(j).filter(keep).len(),
            events@ == all.take(j).filter(keep) + all.skip(j),
        decreases events@.len() - i,
    {
        proof {
            text::lemma_filter_step(all, keep, j);
            assert(events@[i as int] == all[j]);
        }
        let ghost done = all.take(j).filter(keep);
        let drops = match &events[i] {
            IdeLspEvent::Diagnostics { params, session: reported } => text::eq(&params.uri, uri)
                && *reported == session,
            _ => false,
        };
        if drops {
            events.remove(i);
            assert(events@ =~= done + all.skip(j + 1));
        } else {
            i += 1;
            assert(events@ =~= done.push(all[j]) + all.skip(j + 1));
        }
        proof {
            j = j + 1;
        }
    }
    proof {
        assert(all.take(j) =~= all);
        assert(all.filter(keep) + all.skip(j) =~= all.filter(keep));
    }
}

proof fn lemma_generation_set(all: Seq<Generation>, at: int, entry: Generation, from: int)
    requires
        0 <= from <= at < all.len(),
        forall|k: int|
            0 <= k < at ==> (#[trigger] all[k]).uri@ != entry.uri@ || all[k].kind != entry.kind,
    ensures
        generation_of(all.update(at, entry), entry.uri@, entry.kind, from) == entry.number,
    decreases at - from,
{
    if from < at {
        assert(all.update(at, entry)[from] == all[from]);
        lemma_generation_set(all, at, entry, from + 1);
    }
}

proof fn lemma_generation_other(
    all: Seq<Generation>,
    at: int,
    entry: Generation,
    uri: Seq<char>,
    kind: LspRequestKind,
    from: int,
)
    requires
        0 <= from <= all.len(),
        0 <= at < all.len(),
        uri != entry.uri@ || kind != entry.kind,
        all[at].uri@ == entry.uri@,
        all[at].kind == entry.kind,
    ensures
        generation_of(all.update(at, entry), uri, kind, from) == generation_of(
            all,
            uri,
            kind,
            from,
        ),
    decreases all.len() - from,
{
    if from < all.len() {
        lemma_generation_other(all, at, entry, uri, kind, from + 1);
    }
}

proof fn lemma_generation_push(
    all: Seq<Generation>,
    entry: Generation,
    uri: Seq<char>,
    kind: LspRequestKind,
    from: int,
)
    requires
        0 <= from <= all.len(),
    ensures
        (uri != entry.uri@ || kind != entry.kind) ==> generation_of(
            all.push(entry),
            uri,
            kind,
            from,
        ) == generation_of(all, uri, kind, from),
        (uri == entry.uri@ && kind == entry.kind && forall|k: int|
            from <= k < all.len() ==> (#[trigger] all[k]).uri@ != uri || all[k].kind != kind)
            ==> generation_of(all.push(entry), uri, kind, from) == entry.number,
    decreases all.len() - from,
{
    if from < all.len() {
        assert(all.push(entry)[from] == all[from]);
        lemma_generation_push(all, entry, uri, kind, from + 1);
    } else {
        assert(all.push(entry)[from] == entry);
        reveal_with_fuel(generation_of, 2);
    }
}

proof fn lemma_session_set(
    all: Seq<DocumentSession>,
    at: int,
    entry: DocumentSession,
    uri: Seq<char>,
    from: int,
)
    requires
        0 <= from <= all.len(),
        0 <= at < all.len(),
        all[at].uri@ == entry.uri@,
        sessions_distinct(all),
    ensures
        uri != entry.uri@ ==> session_of(all.update(at, entry), uri, from) == session_of(
            all,
            uri,
            from,
        ),
        uri == entry.uri@ && from <= at ==> session_of(all.update(at, entry), uri, from) == Some(
            entry.session,
        ),
    decreases all.len() - from,
{
    if from < all.len() {
        lemma_session_set(all, at, entry, uri, from + 1);
        if from < at {
            assert(all[from].uri@ != all[at].uri@);
        }
    }
}

proof fn lemma_session_push(
    all: Seq<DocumentSession>,
    entry: DocumentSession,
    uri: Seq<char>,
    from: int,
)
    requires
        0 <= from <= all.len(),
    ensures
        uri != entry.uri@ ==> session_of(all.push(entry), uri, from) == session_of(
            all,
            uri,
            from,
        ),
        (uri == entry.uri@ && forall|k: int| from <= k < all.len() ==> (#[trigger] all[k]).uri@
            != uri) ==> session_of(all.push(entry), uri, from) == Some(entry.session),
    decreases all.len() - from,
{
    if from < all.len() {
        assert(all.push(entry)[from] == all[from]);
        lemma_session_push(all, entry, uri, from + 1);
    } else {
        assert(all.push(entry)[from] == entry);
        reveal_with_fuel(session_of, 2);
    }
}

proof fn lemma_session_none(all: Seq<DocumentSession>, uri: Seq<char>, from: int)
    requires
        0 <= from <= all.len(),
        forall|k: int| 0 <= k < all.len() ==> (#[trigger] all[k]).uri@ != uri,
    ensures
        session_of(all, uri, from) is None,
    decreases all.len() - from,
{
    if from < all.len() {
        lemma_session_none(all, uri, from + 1);
    }
}

proof fn lemma_session_remove(all: Seq<DocumentSession>, at: int, uri: Seq<char>, from: int)
    requires
        0 <= at < all.len(),
        0 <= from < all.len(),
        all[at].uri@ != uri,
    ensures
        session_of(all.remove(at), uri, from) == session_of(
            all,
            uri,
            if from <= at {
                from
            } else {
                from + 1
            },
        ),
    decreases all.len() - from,
{
    let left = all.remove(at);
    if from < left.len() {
        if from < at {
            assert(left[from] == all[from]);
            lemma_session_remove(all, at, uri, from + 1);
            if from + 1 == at {
            }
        } else {
            assert(left[from] == all[from + 1]);
            lemma_session_remove(all, at, uri, from + 1);
            if from == at {
                assert(session_of(all, uri, at) == session_of(all, uri, at + 1));
            }
        }
    } else {
        if from == at {
            reveal_with_fuel(session_of, 2);
        }
    }
}

/// What documents a signature: plain text, or text of a kind of markup.
#[derive(Debug, PartialEq, Eq)]
pub enum Documentation {
    Plain(String),
    Markup { markdown: bool, value: String },
}

/// A signature that the server offers.
#[derive(Debug, PartialEq, Eq)]
pub struct SignatureInformation {
    pub label: String,
    pub documentation: Option<Documentation>,
}

/// The signatures that the server offers, and which of them is meant.
#[derive(Debug, PartialEq, Eq)]
pub struct SignatureHelp {
    pub signatures: Vec<SignatureInformation>,
    pub active_signature: Option<u32>,
}

/// How documentation of a kind of markup is written out for debugging: plain text without a kind,
/// else as markdown or not.
pub uninterp spec fn debug_documentation(markdown: Option<bool>, value: Seq<char>) -> Seq<char>;

/// Calls the `Debug` formatting of `lsp_types::Documentation`: what comes out is named
/// `debug_documentation` of the kind of markup and the text, on which alone it depends.
#[verifier::external_body]
fn documentation_text(markdown: Option<bool>, value: &str) -> (r: String)
    ensures
        r@ == debug_documentation(markdown, value@),
{
    let value = value.to_owned();
    let documentation = match markdown {
        None => lsp_types::Documentation::String(value),
        Some(true) => lsp_types::Documentation::MarkupContent(
            lsp_types::MarkupContent { kind: lsp_types::MarkupKind::Markdown, value },
        ),
        Some(false) => lsp_types::Documentation::MarkupContent(
            lsp_types::MarkupContent { kind: lsp_types::MarkupKind::PlainText, value },
        ),
    };
    format!("{documentation:?}")
}

/// How documentation is shown.
pub open spec fn shown_documentation(documentation: Option<Documentation>) -> Seq<char> {
    match documentation {
        Some(Documentation::Plain(value)) => debug_documentation(None, value@),
        Some(Documentation::Markup { markdown, value }) => debug_documentation(
            Some(markdown),
            value@,
        ),
        None => Seq::empty(),
    }
}

/// What is shown of the signatures that the server offers: the label of the one that is meant, its
/// documentation where it has no label, and nothing where there is none.
pub open spec fn shown_help(help: SignatureHelp) -> Seq<char> {
    let active = match help.active_signature {
        Some(active) => active as int,
        None => 0,
    };
    if active < help.signatures@.len() {
        let signature = help.signatures@[active];
        if signature.label@.len() == 0 {
            shown_documentation(signature.documentation)
        } else {
            signature.label@
        }
    } else {
        Seq::empty()
    }
}

/// What is shown of the signatures that the server offers.
pub fn signature_help_text(help: &SignatureHelp) -> (r: String)
    ensures
        r@ == shown_help(*help),
{
    let active: usize = match help.active_signature {
        Some(active) => active as usize,
        None => 0,
    };
    if active >= help.signatures.len() {
        let none = String::from_str("");
        proof {
            reveal_strlit("");
            assert(none@ =~= Seq::<char>::empty());
        }
        return none;
    }
    let signature = &help.signatures[active];
    if text::chars_of(&signature.label).len() > 0 {
        return signature.label.clone();
    }
    match &signature.documentation {
        Some(Documentation::Plain(value)) => documentation_text(None, value),
        Some(Documentation::Markup { markdown, value }) => documentation_text(
            Some(*markdown),
            value,
        ),
        None => {
            let none = String::from_str("");
            proof {
                reveal_strlit("");
                assert(none@ =~= Seq::<char>::empty());
            }
            none
        },
    }
}

} // verus!
