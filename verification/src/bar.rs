//! The bar that what is looked for, and what replaces it, are written in.

use std::ops::Range;

use vstd::prelude::*;

use crate::find;
use crate::find::TextInput;
use crate::pointer;
use crate::pointer::Placement;
use crate::pointer::Pointer;
use crate::provider;
use crate::session::EditorSession;
use crate::text;

verus! {

/// Whether a search was begun anew on a document: the first place is current and selected, and the
/// caret shown anew.
pub open spec fn searched(
    before: EditorSession,
    source: Seq<char>,
    revision: u64,
    after: EditorSession,
    selected: Option<Placement>,
) -> bool {
    &&& after.find.wf()
    &&& after.find.of(source)
    &&& after.find.input == before.find.input
    &&& after.find.visible == before.find.visible
    &&& after.find.replace_expanded == before.find.replace_expanded
    &&& after.find.current == (if after.find.matches@.len() > 0 {
        Some(0usize)
    } else {
        None
    })
    &&& after == (EditorSession {
        find: after.find,
        find_revision: revision,
        ..pointer::shown_with(
            before,
            if after.find.matches@.len() > 0 {
                found_at(before.pointer, after.find.matches@[0])
            } else {
                before.pointer
            },
        )
    })
    &&& selected == (if after.find.matches@.len() > 0 {
        Some(selection_of(after.find.matches@[0]))
    } else {
        None
    })
}

/// The pointer once a place that was found is selected.
pub open spec fn found_at(before: Pointer, place: Range<usize>) -> Pointer {
    Pointer { selection_anchor: Some(place.start), column_kept: false, ..before }
}

/// The selection of a place.
pub open spec fn selection_of(place: Range<usize>) -> Placement {
    Placement::Selection { anchor: place.start, active: place.end }
}

/// The document with another line to look for.
pub open spec fn with_line(before: EditorSession, line: TextInput) -> EditorSession {
    EditorSession { find: find::FindState { input: line, ..before.find }, ..before }
}

impl EditorSession {
    /// Selects a place that was found.
    pub fn select_find_match(&mut self, place: Range<usize>) -> (r: Placement)
        ensures
            r == selection_of(place),
            *final(self) == (EditorSession {
                pointer: found_at(old(self).pointer, place),
                ..*old(self)
            }),
    {
        self.pointer.selection_anchor = Some(place.start);
        self.pointer.column_kept = false;
        Placement::Selection { anchor: place.start, active: place.end }
    }

    /// Begins the search anew once what is looked for has changed.
    pub fn refresh_find_after_query_change(&mut self, source: &str, revision: u64) -> (r: Option<
        Placement,
    >)
        ensures
            searched(*old(self), source@, revision, *final(self), r),
    {
        self.find.refresh(source);
        assert(find::range_views(self.find.matches@).len() == self.find.matches@.len());
        self.find_revision = revision;
        self.reset_caret_blink();
        match self.find.current_match() {
            Some(place) => Some(self.select_find_match(place)),
            None => None,
        }
    }

    /// Opens the search, for what is selected in the document.
    pub fn open_find(&mut self, selected: Option<&str>, source: &str, revision: u64) -> (r: Option<
        Placement,
    >)
        requires
            old(self).wf(),
        ensures
            final(self).wf(),
            final(self).find.visible,
            final(self).find_focus_pending,
            final(self).find.of(source@),
            match selected {
                Some(selected) => if !old(self).find.visible && !selected@.contains('\n')
                    && !selected@.contains('\r') {
                    &&& final(self).find.input.query@ == selected@
                    &&& final(self).find.input.selection_anchor == 0
                    &&& final(self).find.input.selection_active == text::utf8_len(selected@)
                } else {
                    final(self).find.opened_unchanged(old(self).find)
                },
                None => final(self).find.opened_unchanged(old(self).find),
            },
            ({
                let opened = EditorSession {
                    find: find::FindState {
                        input: final(self).find.input,
                        visible: true,
                        ..old(self).find
                    },
                    find_focus_pending: true,
                    ..*old(self)
                };
                searched(opened, source@, revision, *final(self), r)
            }),
    {
        self.find.open(selected);
        self.find_focus_pending = true;
        self.refresh_find_after_query_change(source, revision)
    }

    /// Goes to the next place.
    pub fn find_next(&mut self) -> (r: Option<Placement>)
        requires
            old(self).find.wf(),
        ensures
            final(self).find.wf(),
            final(self).find.matches == old(self).find.matches,
            final(self).find.input == old(self).find.input,
            final(self).find.visible == old(self).find.visible,
            final(self).find.replace_expanded == old(self).find.replace_expanded,
            ({
                let places = old(self).find.matches@;
                match old(self).find.current {
                    Some(current) => {
                        let reached = find::next_of(current as int, places.len() as int);
                        &&& final(self).find.current is Some
                        &&& final(self).find.current->0 == reached
                        &&& r == Some(selection_of(places[reached]))
                        &&& *final(self) == (EditorSession {
                            find: final(self).find,
                            pointer: found_at(old(self).pointer, places[reached]),
                            ..*old(self)
                        })
                    },
                    None => r is None && *final(self) == *old(self),
                }
            }),
    {
        match self.find.next() {
            Some(place) => Some(self.select_find_match(place)),
            None => None,
        }
    }

    /// Goes to the place before.
    pub fn find_previous(&mut self) -> (r: Option<Placement>)
        requires
            old(self).find.wf(),
        ensures
            final(self).find.wf(),
            final(self).find.matches == old(self).find.matches,
            final(self).find.input == old(self).find.input,
            final(self).find.visible == old(self).find.visible,
            final(self).find.replace_expanded == old(self).find.replace_expanded,
            ({
                let places = old(self).find.matches@;
                match old(self).find.current {
                    Some(current) => {
                        let reached = find::previous_of(current as int, places.len() as int);
                        &&& final(self).find.current is Some
                        &&& final(self).find.current->0 == reached
                        &&& r == Some(selection_of(places[reached]))
                        &&& *final(self) == (EditorSession {
                            find: final(self).find,
                            pointer: found_at(old(self).pointer, places[reached]),
                            ..*old(self)
                        })
                    },
                    None => r is None && *final(self) == *old(self),
                }
            }),
    {
        match self.find.previous() {
            Some(place) => Some(self.select_find_match(place)),
            None => None,
        }
    }

    /// Closes the search.
    pub fn close_find(&mut self)
        ensures
            *final(self) == (EditorSession {
                find: find::FindState { visible: false, ..old(self).find },
                find_focus_pending: false,
                ..*old(self)
            }),
    {
        self.find.visible = false;
        self.find_focus_pending = false;
    }

    /// Deletes before the caret: in the line that replaces, where it is in use, else in the line
    /// that is looked for, which is then looked for anew.
    pub fn find_backspace(&mut self, replacing: bool, source: &str, revision: u64) -> (r: Option<
        Placement,
    >)
        requires
            old(self).wf(),
        ensures
            final(self).wf(),
            if replacing {
                exists|changed: bool|
                    {
                        &&& #[trigger] find::deleted_before(
                            old(self).replace,
                            final(self).replace,
                            changed,
                        )
                        &&& rewritten(*old(self), *final(self), changed)
                        &&& r is None
                    }
            } else {
                exists|line: TextInput, changed: bool|
                    {
                        &&& #[trigger] find::deleted_before(old(self).find.input, line, changed)
                        &&& looked_for(*old(self), line, changed, source@, revision, *final(self), r)
                    }
            },
    {
        if replacing {
            let changed = self.replace.backspace();
            if changed {
                self.reset_caret_blink();
            }
            assert(find::deleted_before(old(self).replace, self.replace, changed));
            return None;
        }
        let changed = self.find.input.backspace();
        let ghost line = self.find.input;
        assert(find::deleted_before(old(self).find.input, line, changed));
        if changed {
            self.refresh_find_after_query_change(source, revision)
        } else {
            None
        }
    }

    /// Deletes behind the caret: in the line that replaces, where it is in use, else in the line
    /// that is looked for, which is then looked for anew.
    pub fn find_delete(&mut self, replacing: bool, source: &str, revision: u64) -> (r: Option<
        Placement,
    >)
        requires
            old(self).wf(),
        ensures
            final(self).wf(),
            if replacing {
                exists|changed: bool|
                    {
                        &&& #[trigger] find::deleted_behind(
                            old(self).replace,
                            final(self).replace,
                            changed,
                        )
                        &&& rewritten(*old(self), *final(self), changed)
                        &&& r is None
                    }
            } else {
                exists|line: TextInput, changed: bool|
                    {
                        &&& #[trigger] find::deleted_behind(old(self).find.input, line, changed)
                        &&& looked_for(*old(self), line, changed, source@, revision, *final(self), r)
                    }
            },
    {
        if replacing {
            let changed = self.replace.delete();
            if changed {
                self.reset_caret_blink();
            }
            assert(find::deleted_behind(old(self).replace, self.replace, changed));
            return None;
        }
        let changed = self.find.input.delete();
        let ghost line = self.find.input;
        assert(find::deleted_behind(old(self).find.input, line, changed));
        if changed {
            self.refresh_find_after_query_change(source, revision)
        } else {
            None
        }
    }

    /// Moves the caret of the line that is in use to the left.
    pub fn find_left(&mut self, replacing: bool)
        requires
            old(self).wf(),
        ensures
            final(self).wf(),
            if replacing {
                find::moved_left(old(self).replace, final(self).replace) && rewritten(
                    *old(self),
                    *final(self),
                    true,
                )
            } else {
                find::moved_left(old(self).find.input, final(self).find.input) && caret_moved(
                    *old(self),
                    *final(self),
                )
            },
    {
        if replacing {
            self.replace.move_left();
        } else {
            self.find.input.move_left();
        }
        self.reset_caret_blink();
    }

    /// Moves the caret of the line that is in use to the right.
    pub fn find_right(&mut self, replacing: bool)
        requires
            old(self).wf(),
        ensures
            final(self).wf(),
            if replacing {
                find::moved_right(old(self).replace, final(self).replace) && rewritten(
                    *old(self),
                    *final(self),
                    true,
                )
            } else {
                find::moved_right(old(self).find.input, final(self).find.input) && caret_moved(
                    *old(self),
                    *final(self),
                )
            },
    {
        if replacing {
            self.replace.move_right();
        } else {
            self.find.input.move_right();
        }
        self.reset_caret_blink();
    }

    /// Selects all of the line that is in use.
    pub fn find_select_all(&mut self, replacing: bool)
        requires
            old(self).wf(),
        ensures
            final(self).wf(),
            if replacing {
                find::all_selected(old(self).replace, final(self).replace) && rewritten(
                    *old(self),
                    *final(self),
                    true,
                )
            } else {
                find::all_selected(old(self).find.input, final(self).find.input) && caret_moved(
                    *old(self),
                    *final(self),
                )
            },
    {
        if replacing {
            self.replace.select_all();
        } else {
            self.find.input.select_all();
        }
        self.reset_caret_blink();
    }

    /// Puts a text, where there is one, in the place of the selection of the line that is in use.
    pub fn find_paste(
        &mut self,
        replacing: bool,
        pasted: Option<&str>,
        source: &str,
        revision: u64,
    ) -> (r: Option<Placement>)
        requires
            old(self).wf(),
            pasted is Some ==> text::utf8_len(old(self).replace.query@) + text::utf8_len(
                pasted->0@,
            ) <= usize::MAX && text::utf8_len(old(self).find.input.query@) + text::utf8_len(
                pasted->0@,
            ) <= usize::MAX,
        ensures
            final(self).wf(),
            match pasted {
                None => r is None && *final(self) == *old(self),
                Some(pasted) => if replacing {
                    exists|changed: bool|
                        {
                            &&& #[trigger] find::overwritten(
                                old(self).replace,
                                pasted@,
                                final(self).replace,
                                changed,
                            )
                            &&& rewritten(*old(self), *final(self), true)
                            &&& r is None
                        }
                } else {
                    exists|line: TextInput, changed: bool|
                        {
                            &&& #[trigger] find::overwritten(
                                old(self).find.input,
                                pasted@,
                                line,
                                changed,
                            )
                            &&& looked_for(
                                *old(self),
                                line,
                                changed,
                                source@,
                                revision,
                                *final(self),
                                r,
                            )
                        }
                },
            },
    {
        let pasted = match pasted {
            Some(pasted) => pasted,
            None => {
                return None;
            },
        };
        proof {
            find::lemma_selection_within(self.replace);
            find::lemma_selection_within(self.find.input);
        }
        if replacing {
            let changed = self.replace.replace_selection(pasted);
            self.reset_caret_blink();
            assert(find::overwritten(old(self).replace, pasted@, self.replace, changed));
            return None;
        }
        let changed = self.find.input.replace_selection(pasted);
        let ghost line = self.find.input;
        assert(find::overwritten(old(self).find.input, pasted@, line, changed));
        if changed {
            self.refresh_find_after_query_change(source, revision)
        } else {
            None
        }
    }

    /// Cuts the selection of the line that is in use out of it: of the one that replaces, where it
    /// is in use, else of the one that is looked for, where the search is open and in use. Gives
    /// what was cut, and the place that is selected then.
    pub fn find_cut(&mut self, finding: bool, replacing: bool, source: &str, revision: u64) -> (r: (
        Option<String>,
        Option<Placement>,
    ))
        requires
            old(self).wf(),
        ensures
            final(self).wf(),
            if replacing {
                &&& find::cut_out(
                    old(self).replace,
                    final(self).replace,
                    provider::optional_text(r.0),
                )
                &&& rewritten(*old(self), *final(self), r.0 is Some)
                &&& r.1 is None
            } else if !old(self).find.visible || !finding {
                r.0 is None && r.1 is None && *final(self) == *old(self)
            } else {
                exists|line: TextInput|
                    {
                        &&& #[trigger] find::cut_out(
                            old(self).find.input,
                            line,
                            provider::optional_text(r.0),
                        )
                        &&& looked_for(
                            *old(self),
                            line,
                            r.0 is Some,
                            source@,
                            revision,
                            *final(self),
                            r.1,
                        )
                    }
            },
    {
        if replacing {
            let taken = self.replace.cut_selection();
            if taken.is_some() {
                self.reset_caret_blink();
            }
            return (taken, None);
        }
        if !self.find.visible || !finding {
            return (None, None);
        }
        let taken = self.find.input.cut_selection();
        let ghost line = self.find.input;
        assert(find::cut_out(old(self).find.input, line, provider::optional_text(taken)));
        if taken.is_some() {
            let selected = self.refresh_find_after_query_change(source, revision);
            (taken, selected)
        } else {
            (taken, None)
        }
    }
}

/// Whether nothing but the line that replaces is another, and the caret shown anew where `shown`.
pub open spec fn rewritten(before: EditorSession, after: EditorSession, shown: bool) -> bool {
    after == (if shown {
        EditorSession {
            replace: after.replace,
            ..pointer::shown_with(before, before.pointer)
        }
    } else {
        EditorSession { replace: after.replace, ..before }
    })
}

/// Whether nothing but the line that is looked for is another, and the caret shown anew.
pub open spec fn caret_moved(before: EditorSession, after: EditorSession) -> bool {
    after == pointer::shown_with(with_line(before, after.find.input), before.pointer)
}

/// Whether another line is looked for, anew where it has changed.
pub open spec fn looked_for(
    before: EditorSession,
    line: TextInput,
    changed: bool,
    source: Seq<char>,
    revision: u64,
    after: EditorSession,
    selected: Option<Placement>,
) -> bool {
    if changed {
        searched(with_line(before, line), source, revision, after, selected)
    } else {
        after == with_line(before, line) && selected is None
    }
}

} // verus!
