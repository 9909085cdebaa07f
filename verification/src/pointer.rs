//! The caret, the selection and the mouse in an open document.

use std::ops::Range;

use vstd::prelude::*;
use vstd::string::*;

use crate::diagnostics;
use crate::diagnostics::ByteDiagnostic;
use crate::input;
use crate::interaction;
use crate::php;
use crate::provider;
use crate::session;
use crate::session::EditorSession;
use crate::text;
use crate::view;
use crate::view::Click;

verus! {

/// What goes with the caret: where a selection that grows began, whether the column is kept from
/// line to line, whether the mouse selects, the line that is highlighted since one was led there,
/// whether the menu is open, the name under the mouse that leads somewhere, and what is marked.
#[derive(Debug, PartialEq, Eq)]
pub struct Pointer {
    pub selection_anchor: Option<usize>,
    pub column_kept: bool,
    pub selecting: bool,
    pub highlighted_line: Option<usize>,
    pub menu_open: bool,
    pub link: Option<Range<usize>>,
    pub marked: Option<Range<usize>>,
}

/// A pointer that nothing has happened to.
pub open spec fn resting() -> Pointer {
    Pointer {
        selection_anchor: None,
        column_kept: false,
        selecting: false,
        highlighted_line: None,
        menu_open: false,
        link: None,
        marked: None,
    }
}

impl Pointer {
    /// A pointer that nothing has happened to.
    pub fn new() -> (r: Self)
        ensures
            r == resting(),
    {
        Pointer {
            selection_anchor: None,
            column_kept: false,
            selecting: false,
            highlighted_line: None,
            menu_open: false,
            link: None,
            marked: None,
        }
    }

    /// Forgets what an edit makes stale.
    pub fn after_edit(&mut self)
        ensures
            *final(self) == (Pointer {
                selection_anchor: None,
                column_kept: false,
                marked: None,
                link: None,
                ..*old(self)
            }),
    {
        self.selection_anchor = None;
        self.column_kept = false;
        self.marked = None;
        self.link = None;
    }
}

/// Where the document has its caret put, by byte offsets.
#[derive(Clone, Copy, Debug, PartialEq, Eq, Structural)]
pub enum Placement {
    /// The caret, with nothing selected.
    Caret(usize),
    /// A selection, from where it began to where the caret is.
    Selection { anchor: usize, active: usize },
}

/// A document whose caret was shown anew, with another pointer.
pub open spec fn shown_with(before: EditorSession, pointer: Pointer) -> EditorSession {
    EditorSession {
        caret_visible: true,
        caret_blink_generation: session::counted_on(before.caret_blink_generation),
        pointer,
        ..before
    }
}

/// The pointer once the caret was put somewhere.
pub open spec fn put(before: Pointer) -> Pointer {
    Pointer { highlighted_line: None, selection_anchor: None, column_kept: false, ..before }
}

/// Where a selection that grows begins: where it began, else where the caret is.
pub open spec fn growing_from(before: Pointer, cursor: usize) -> usize {
    match before.selection_anchor {
        Some(anchor) => anchor,
        None => cursor,
    }
}

/// The pointer once the selection grew.
pub open spec fn grown(before: Pointer, cursor: usize) -> Pointer {
    Pointer { selection_anchor: Some(growing_from(before, cursor)), ..before }
}

/// How many lines of a text end before an index.
pub open spec fn lines_before(s: Seq<char>, at: int) -> nat
    decreases at,
{
    if at <= 0 || at > s.len() {
        0
    } else if s[at - 1] == '\n' {
        lines_before(s, at - 1) + 1
    } else {
        lines_before(s, at - 1)
    }
}

/// How many lines a text has; an empty one has one.
pub open spec fn line_count(s: Seq<char>) -> nat {
    lines_before(s, s.len() as int) + 1
}

/// How many lines a text has, as far as a machine word can tell.
pub fn count_lines(content: &str) -> (r: usize)
    ensures
        r == (if line_count(content@) <= usize::MAX {
            line_count(content@)
        } else {
            usize::MAX as nat
        }),
{
    let size: usize = text::byte_len(content);
    proof {
        text::lemma_fitting(content@, size as int);
    }
    line_of_offset(content, size).saturating_add(1)
}

/// The number of the line that a byte offset lies in.
pub fn line_of_offset(content: &str, offset: usize) -> (r: usize)
    ensures
        r == lines_before(content@, text::fitting(content@, offset as int) as int),
{
    let s = text::chars_of(content);
    let (at, _) = text::fit(&s, offset);
    let mut i: usize = 0;
    let mut lines: usize = 0;
    while i < at
        invariant
            i <= at <= s@.len(),
            lines <= i,
            lines == lines_before(s@, i as int),
        decreases at - i,
    {
        if s[i] == '\n' {
            lines += 1;
        }
        i += 1;
    }
    lines
}

/// A token under the mouse.
#[derive(Debug, PartialEq, Eq)]
pub struct HoverToken {
    pub kind: String,
    pub text: String,
    pub range: Range<usize>,
}

/// The name that leads somewhere, where a token is one.
pub open spec fn link_of(token: Option<HoverToken>) -> Option<Range<usize>> {
    match token {
        Some(token) => if view::leads_somewhere(token.kind@, token.text@) {
            Some(token.range)
        } else {
            None
        },
        None => None,
    }
}

/// What a press of the mouse sets going: where the caret is put, and whether the definition of what
/// stands there is looked for.
#[derive(Debug, PartialEq, Eq)]
pub struct Press {
    pub placement: Placement,
    pub definition: bool,
}

/// Where the mouse is while it moves: whether it is over the text, at which byte offset, and whether
/// the control key is held.
#[derive(Clone, Copy, Debug, PartialEq, Eq, Structural)]
pub struct MouseAt {
    pub in_text: bool,
    pub offset: usize,
    pub control: bool,
}

impl EditorSession {
    /// Puts the caret somewhere.
    pub fn move_to(&mut self, offset: usize) -> (r: Placement)
        ensures
            r == Placement::Caret(offset),
            *final(self) == shown_with(*old(self), put(old(self).pointer)),
    {
        self.pointer.highlighted_line = None;
        self.reset_caret_blink();
        self.pointer.selection_anchor = None;
        self.pointer.column_kept = false;
        Placement::Caret(offset)
    }

    /// Puts the caret at a byte offset, or at the end of the text.
    pub fn set_cursor_offset(&mut self, content: &str, offset: usize) -> (r: Placement)
        ensures
            r == Placement::Caret(
                if offset <= text::utf8_len(content@) {
                    offset
                } else {
                    text::utf8_len(content@) as usize
                },
            ),
            *final(self) == shown_with(*old(self), put(old(self).pointer)),
    {
        let size: usize = text::byte_len(content);
        if offset <= size {
            self.move_to(offset)
        } else {
            self.move_to(size)
        }
    }

    /// Lets the selection reach somewhere, from where it began or from where the caret is.
    pub fn select_to(&mut self, offset: usize, cursor: usize) -> (r: Placement)
        ensures
            r == (Placement::Selection {
                anchor: growing_from(old(self).pointer, cursor),
                active: offset,
            }),
            *final(self) == shown_with(*old(self), grown(old(self).pointer, cursor)),
    {
        self.reset_caret_blink();
        let anchor: usize = match self.pointer.selection_anchor {
            Some(anchor) => anchor,
            None => cursor,
        };
        self.pointer.selection_anchor = Some(anchor);
        Placement::Selection { anchor, active: offset }
    }

    /// Lets the selection reach the character before the caret.
    pub fn select_left(&mut self, content: &str, cursor: usize) -> (r: Placement)
        requires
            php::boundary(content@, cursor as nat),
        ensures
            r matches Placement::Selection { anchor, active } && anchor == growing_from(
                old(self).pointer,
                cursor,
            ) && active == (if input::char_at(content@, cursor) > 0 {
                input::offset_at(content@, input::char_at(content@, cursor) - 1)
            } else {
                0
            }),
            *final(self) == shown_with(*old(self), grown(old(self).pointer, cursor)),
    {
        let offset: usize = input::left(content, None, cursor);
        self.select_to(offset, cursor)
    }

    /// Lets the selection reach behind the character behind the caret.
    pub fn select_right(&mut self, content: &str, cursor: usize) -> (r: Placement)
        requires
            php::boundary(content@, cursor as nat),
        ensures
            r matches Placement::Selection { anchor, active } && anchor == growing_from(
                old(self).pointer,
                cursor,
            ) && active == (if input::char_at(content@, cursor) < content@.len() {
                input::offset_at(content@, input::char_at(content@, cursor) + 1)
            } else {
                text::utf8_len(content@)
            }),
            *final(self) == shown_with(*old(self), grown(old(self).pointer, cursor)),
    {
        let offset: usize = input::right(content, None, cursor);
        self.select_to(offset, cursor)
    }

    /// Goes to another line at a place there, or to another completion while some are offered: the
    /// one before where the way is up, else the one behind.
    pub fn move_vertically(&mut self, target: usize, up: bool) -> (r: Option<Placement>)
        ensures
            if old(self).completions.items@.len() > 0 {
                &&& r is None
                &&& final(self).completions.items == old(self).completions.items
                &&& final(self).completions.selected == (if up {
                    if old(self).completions.selected > 0 {
                        old(self).completions.selected - 1
                    } else {
                        0
                    }
                } else if old(self).completions.selected + 1 < old(self).completions.items@.len() {
                    old(self).completions.selected + 1
                } else {
                    old(self).completions.items@.len() - 1
                })
                &&& *final(self) == (EditorSession {
                    completions: final(self).completions,
                    ..*old(self)
                })
            } else {
                &&& r == Some(Placement::Caret(target))
                &&& *final(self) == shown_with(*old(self), put(old(self).pointer))
            },
    {
        if self.completions.items.len() > 0 {
            if up {
                let _ = self.select_previous_completion();
            } else {
                let _ = self.select_next_completion();
            }
            return None;
        }
        Some(self.move_to(target))
    }

    /// Lets the selection reach a place in another line; the column is kept.
    pub fn select_vertically(&mut self, target: usize, cursor: usize) -> (r: Placement)
        ensures
            r == (Placement::Selection {
                anchor: growing_from(old(self).pointer, cursor),
                active: target,
            }),
            *final(self) == shown_with(
                *old(self),
                (Pointer { column_kept: true, ..grown(old(self).pointer, cursor) }),
            ),
    {
        self.pointer.column_kept = true;
        self.select_to(target, cursor)
    }

    /// Leads to a byte offset: the caret is put there, or at the end of the text, and its line is
    /// highlighted.
    pub fn navigate_to_offset(&mut self, content: &str, offset: usize) -> (r: Placement)
        ensures
            ({
                let size = text::utf8_len(content@);
                let reached = if offset <= size {
                    offset
                } else {
                    size as usize
                };
                &&& r == Placement::Caret(reached)
                &&& final(self).pointer.highlighted_line is Some
                &&& final(self).pointer.highlighted_line->0 == lines_before(
                    content@,
                    text::fitting(content@, reached as int) as int,
                )
                &&& *final(self) == shown_with(
                    *old(self),
                    (Pointer {
                        marked: None,
                        highlighted_line: final(self).pointer.highlighted_line,
                        ..put(old(self).pointer)
                    }),
                )
            }),
    {
        self.pointer.marked = None;
        let size: usize = text::byte_len(content);
        let reached: usize = if offset <= size {
            offset
        } else {
            size
        };
        let r = self.move_to(reached);
        self.pointer.highlighted_line = Some(line_of_offset(content, reached));
        r
    }

    /// Shows a range of bytes: the caret is put at its start, or at the end of the text, and it is
    /// marked.
    pub fn reveal_byte_range(&mut self, content: &str, range: Range<usize>) -> (r: Placement)
        ensures
            r == Placement::Caret(
                if range.start <= text::utf8_len(content@) {
                    range.start
                } else {
                    text::utf8_len(content@) as usize
                },
            ),
            *final(self) == shown_with(
                *old(self),
                (Pointer { marked: Some(range), ..put(old(self).pointer) }),
            ),
    {
        let size: usize = text::byte_len(content);
        let reached: usize = if range.start <= size {
            range.start
        } else {
            size
        };
        let r = self.move_to(reached);
        self.pointer.marked = Some(range);
        r
    }

    /// Takes a press of the mouse at a byte offset of the text, on a line of some bytes. One that
    /// misses the text does nothing. With the control key held the definition is looked for; else
    /// what is open over the text is closed, and the line, the word or what lies up to the place is
    /// selected, or the caret is put there.
    pub fn mouse_down(
        &mut self,
        content: &str,
        line: Range<usize>,
        at: MouseAt,
        cursor: usize,
        shift: bool,
        click_count: usize,
    ) -> (r: Option<Press>)
        ensures
            if !at.in_text {
                r is None && *final(self) == *old(self)
            } else if at.control {
                &&& r == Some(
                    Press { placement: Placement::Caret(at.offset), definition: true },
                )
                &&& *final(self) == shown_with(
                    *old(self),
                    (Pointer { link: None, selecting: false, ..put(old(self).pointer) }),
                )
            } else {
                let pressed = Pointer {
                    link: None,
                    selecting: true,
                    menu_open: false,
                    ..old(self).pointer
                };
                let closed = EditorSession {
                    completions: final(self).completions,
                    hover_popup: None,
                    ..*old(self)
                };
                let (from, to) = interaction::word_around(content@, at.offset as nat);
                &&& r is Some
                &&& !(r->0).definition
                &&& final(self).completions.items@.len() == 0
                &&& final(self).completions.selected == old(self).completions.selected
                &&& if click_count >= 3 {
                    &&& (r->0).placement == (Placement::Selection {
                        anchor: line.start,
                        active: line.end,
                    })
                    &&& *final(self) == (EditorSession {
                        pointer: Pointer { selection_anchor: Some(line.start), ..pressed },
                        ..closed
                    })
                } else if click_count == 2 {
                    &&& (r->0).placement matches Placement::Selection { anchor, active } && anchor
                        == text::utf8_len(content@.take(from)) && active == text::utf8_len(
                        content@.take(to),
                    ) && *final(self) == (EditorSession {
                        pointer: Pointer { selection_anchor: Some(anchor), ..pressed },
                        ..closed
                    })
                } else if shift {
                    &&& (r->0).placement == (Placement::Selection {
                        anchor: growing_from(old(self).pointer, cursor),
                        active: at.offset,
                    })
                    &&& *final(self) == shown_with(closed, grown(pressed, cursor))
                } else {
                    &&& (r->0).placement == Placement::Caret(at.offset)
                    &&& *final(self) == shown_with(
                        closed,
                        (Pointer { selection_anchor: Some(at.offset), ..put(pressed) }),
                    )
                }
            },
    {
        if !at.in_text {
            return None;
        }
        self.pointer.link = None;
        let pressed = view::click(content, at.offset, at.control, shift, click_count);
        if at.control {
            let placement = self.move_to(at.offset);
            self.pointer.selecting = false;
            return Some(Press { placement, definition: true });
        }
        self.pointer.selecting = true;
        self.pointer.menu_open = false;
        self.completions.items.clear();
        self.hover_popup = None;
        let placement = match pressed {
            Click::SelectLine => {
                self.pointer.selection_anchor = Some(line.start);
                Placement::Selection { anchor: line.start, active: line.end }
            },
            Click::SelectWord(word) => {
                self.pointer.selection_anchor = Some(word.start);
                Placement::Selection { anchor: word.start, active: word.end }
            },
            Click::ExtendSelection => self.select_to(at.offset, cursor),
            _ => {
                let placement = self.move_to(at.offset);
                self.pointer.selection_anchor = Some(at.offset);
                placement
            },
        };
        Some(Press { placement, definition: false })
    }

    /// Takes the release of the mouse.
    pub fn mouse_up(&mut self)
        ensures
            *final(self) == (EditorSession {
                pointer: Pointer { selecting: false, ..old(self).pointer },
                ..*old(self)
            }),
    {
        self.pointer.selecting = false;
    }

    /// Takes a move of the mouse. While a scroll bar is dragged it does nothing; while the mouse
    /// selects, the selection reaches the place. Else the reports on the place are shown, or, with
    /// the control key held, the name there that leads somewhere.
    pub fn mouse_move(
        &mut self,
        at: MouseAt,
        cursor: usize,
        scrolling: bool,
        reports: &Vec<ByteDiagnostic>,
        token: Option<HoverToken>,
    ) -> (r: Option<Placement>)
        ensures
            if scrolling {
                r is None && *final(self) == *old(self)
            } else if old(self).pointer.selecting {
                &&& r == Some(
                    Placement::Selection {
                        anchor: growing_from(old(self).pointer, cursor),
                        active: at.offset,
                    },
                )
                &&& *final(self) == shown_with(
                    *old(self),
                    (Pointer { link: None, ..grown(old(self).pointer, cursor) }),
                )
            } else if !at.control || !at.in_text {
                &&& r is None
                &&& provider::optional_text(final(self).hover_popup) == (if at.in_text {
                    match view::report_on(
                        diagnostics::diagnostic_views(reports@),
                        at.offset,
                        0,
                    ) {
                        Some(report) => Some(report.message + "\nAxiom PHP Parser"@),
                        None => None,
                    }
                } else {
                    provider::optional_text(old(self).hover_popup)
                })
                &&& *final(self) == (EditorSession {
                    hover_popup: final(self).hover_popup,
                    pointer: Pointer { link: None, ..old(self).pointer },
                    ..*old(self)
                })
            } else {
                &&& r is None
                &&& *final(self) == (EditorSession {
                    hover_popup: None,
                    pointer: Pointer { link: link_of(token), ..old(self).pointer },
                    ..*old(self)
                })
            },
    {
        if scrolling {
            return None;
        }
        if self.pointer.selecting {
            self.pointer.link = None;
            return Some(self.select_to(at.offset, cursor));
        }
        if !at.control || !at.in_text {
            self.pointer.link = None;
            if at.in_text {
                self.hover_popup = view::hover_message(reports, at.offset);
            }
            return None;
        }
        self.hover_popup = None;
        self.pointer.link = match token {
            Some(token) => if view::is_link(&token.kind, &token.text) {
                Some(token.range)
            } else {
                None
            },
            None => None,
        };
        None
    }

    /// Takes a press of the right button: the menu opens, and what else is open over the text is
    /// closed. The caret is put there unless the press hits the selection.
    pub fn right_mouse_down(
        &mut self,
        in_text: bool,
        offset: usize,
        selection: Option<Range<usize>>,
    ) -> (r: Option<Placement>)
        ensures
            if !in_text {
                r is None && *final(self) == *old(self)
            } else {
                let hit = selection is Some && selection->0.start <= offset && offset
                    < selection->0.end;
                &&& r == (if hit {
                    None
                } else {
                    Some(Placement::Caret(offset))
                })
                &&& final(self).completions.items@.len() == 0
                &&& final(self).completions.selected == old(self).completions.selected
                &&& *final(self) == (EditorSession {
                    completions: final(self).completions,
                    hover_popup: None,
                    pointer: Pointer {
                        selection_anchor: if hit {
                            old(self).pointer.selection_anchor
                        } else {
                            None
                        },
                        menu_open: true,
                        link: None,
                        ..old(self).pointer
                    },
                    ..*old(self)
                })
            },
    {
        if !in_text {
            return None;
        }
        let mut r: Option<Placement> = None;
        if view::menu_moves_caret(selection, offset) {
            self.pointer.selection_anchor = None;
            r = Some(Placement::Caret(offset));
        }
        self.pointer.menu_open = true;
        self.completions.items.clear();
        self.hover_popup = None;
        self.pointer.link = None;
        r
    }

    /// Closes what is open over the text.
    pub fn escape(&mut self)
        ensures
            final(self).completions.items@.len() == 0,
            final(self).completions.selected == old(self).completions.selected,
            *final(self) == (EditorSession {
                completions: final(self).completions,
                hover_popup: None,
                pointer: Pointer { menu_open: false, link: None, ..old(self).pointer },
                ..*old(self)
            }),
    {
        self.completions.items.clear();
        self.hover_popup = None;
        self.pointer.menu_open = false;
        self.pointer.link = None;
    }
}

/// A selection that grows keeps to where it began, however often it grows.
pub proof fn law_growing_selections_keep_their_start(
    before: Pointer,
    first_cursor: usize,
    next_cursor: usize,
)
    ensures
        growing_from(grown(before, first_cursor), next_cursor) == growing_from(
            before,
            first_cursor,
        ),
{
}

} // verus!
