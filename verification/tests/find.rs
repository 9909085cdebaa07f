//! Finding and replacing in a document.

use ide_core::find::{replace_all_text, FindState, TextInput};
use ide_core::pointer::Placement;
use ide_core::session::EditorSession;
use ide_core::view::find_counter;

fn input(query: &str, selection_anchor: usize, selection_active: usize) -> TextInput {
    TextInput {
        query: query.into(),
        selection_anchor,
        selection_active,
    }
}

fn search(query: &str) -> FindState {
    let mut find = FindState::new();
    find.input = input(query, 0, 0);
    find
}

#[test]
fn document_find_covers_single_multiple_zero_and_boundary_matches() {
    let mut find = search("one");
    find.refresh("one two one");
    assert_eq!(find.matches, vec![0..3, 8..11]);
    assert_eq!(find.current_match(), Some(0..3));

    find.input.query = "missing".into();
    find.refresh("one two one");
    assert!(find.matches.is_empty());
    assert_eq!(find.current_match(), None);

    find.input.query = "end".into();
    find.refresh("start end");
    assert_eq!(find.matches, vec![6..9]);

    find.input.query = "Start".into();
    find.refresh("start Start");
    assert_eq!(find.matches, vec![6..11]);
}

#[test]
fn document_find_next_previous_wrap() {
    let mut find = search("x");
    find.refresh("x x x");
    assert_eq!(find.next(), Some(2..3));
    assert_eq!(find.next(), Some(4..5));
    assert_eq!(find.next(), Some(0..1));
    assert_eq!(find.previous(), Some(4..5));
}

#[test]
fn document_find_uses_utf8_byte_ranges_for_unicode() {
    let mut find = search("ação");
    find.refresh("ação e ação");
    assert_eq!(find.matches, vec![0..6, 9..15]);
    assert_eq!(&"ação e ação"[find.matches[1].clone()], "ação");
}

#[test]
fn document_find_refreshes_after_edit_and_is_document_local() {
    let mut first = search("needle");
    let mut second = search("needle");
    first.refresh("needle");
    second.refresh("other document");
    assert_eq!(first.matches, vec![0..6]);
    assert!(second.matches.is_empty());

    first.refresh("edited without the term");
    assert!(first.matches.is_empty());
}

#[test]
fn closing_document_find_preserves_content() {
    let content = "unchanged".to_owned();
    let mut find = search("change");
    find.visible = true;
    find.refresh(&content);
    find.visible = false;
    assert_eq!(content, "unchanged");
}

#[test]
fn find_open_uses_only_single_line_editor_selection() {
    let mut find = FindState::new();
    find.open(Some("selected"));
    assert_eq!(find.input.query, "selected");
    assert_eq!(find.input.selection(), 0..8);

    let mut multiline = FindState::new();
    multiline.open(Some("first\nsecond"));
    assert!(multiline.input.query.is_empty());
    assert_eq!(multiline.input.selection(), 0..0);
}

#[test]
fn reopening_find_and_select_all_cover_the_entire_term() {
    let mut find = FindState::new();
    find.visible = true;
    find.input = input("search term", 3, 3);
    find.open(None);
    assert_eq!(find.input.selection(), 0..11);
    find.input.set_caret(4);
    find.input.select_all();
    assert_eq!(find.input.selection(), 0..11);
}

#[test]
fn find_paste_and_typing_replace_selection_with_unicode() {
    let mut find = FindState::new();
    find.input = input("old value", 0, 3);
    find.input.replace_selection("ação");
    assert_eq!(find.input.query, "ação value");
    assert_eq!(find.input.selection(), 6..6);

    find.input.selection_anchor = 0;
    find.input.selection_active = find.input.query.len();
    find.input.replace_selection("novo");
    assert_eq!(find.input.query, "novo");
}

#[test]
fn find_double_click_selects_a_unicode_word() {
    let mut find = search("uma ação aqui");
    find.input.select_word_at("uma a".len());
    assert_eq!(&find.input.query[find.input.selection()], "ação");
}

#[test]
fn moving_find_caret_does_not_recalculate_matches() {
    let mut find = search("term");
    find.refresh("term term");
    let query_len = find.input.query.len();
    find.input.set_caret(query_len);
    let matches = find.matches.clone();
    let current = find.current;
    find.input.move_left();
    find.input.move_right();
    assert_eq!(find.matches, matches);
    assert_eq!(find.current, current);
}

#[test]
fn a_line_is_edited_by_whole_characters() {
    let mut line = input("aé", 3, 3);
    assert!(line.backspace());
    assert_eq!(line.query, "a");
    assert!(!line.delete());
    line.set_caret(0);
    assert!(!line.backspace());
    assert!(line.delete());
    assert_eq!(line.query, "");
    let mut line = input("ação tail", 0, 6);
    assert_eq!(line.cut_selection().as_deref(), Some("ação"));
    assert_eq!(line.query, " tail");
    assert_eq!(line.cut_selection(), None);
}

#[test]
fn going_on_and_back_leads_to_where_one_was() {
    let mut find = search("x");
    find.refresh("x x x");
    for _ in 0..4 {
        let here = find.current_match();
        find.next();
        find.previous();
        assert_eq!(find.current_match(), here);
        find.next();
    }
    assert_eq!(find.next(), Some(4..5));
}

#[test]
fn replacing_goes_on_behind_what_was_put_in() {
    let mut find = search("foo");
    find.visible = true;
    find.refresh("foo foo foo");
    let replaced = find.find_replace("foo foo foo", "foofoo", true, false).unwrap();
    assert_eq!(replaced.document, "foofoo foo foo");
    assert_eq!(replaced.selected, Some(7..10));
    assert_eq!(find.current, Some(2));
    assert_eq!(find.find_replace("foofoo foo foo", "x", false, false), None);
    find.visible = false;
    assert_eq!(find.find_replace("foofoo foo foo", "x", true, false), None);
}

#[test]
fn a_stale_search_is_begun_anew_before_it_replaces() {
    let mut find = search("foo");
    find.visible = true;
    find.refresh("foo");
    let source = "foo ".repeat(1000);
    let document = find.find_replace_all(&source, "bar", true, true).unwrap();
    assert_eq!(document, "bar ".repeat(1000));
    assert!(find.matches.is_empty());
    assert_eq!(find.find_replace_all(&document, "baz", true, false), None);
    assert_eq!(replace_all_text("aaa", "aa", "b"), "ba");
}

#[test]
fn the_counter_tells_which_place_is_current() {
    let mut find = search("x");
    find.refresh("x x x");
    find.next();
    assert_eq!(find_counter(&find), "2/3");
    find.refresh("none");
    assert_eq!(find_counter(&find), "0/0");
}

#[test]
fn replacement_input_does_not_recompute_find_and_no_match_is_noop() {
    let mut editor = EditorSession::from_document(1, "abc", None);
    editor.find.visible = true;
    editor.find.input.query = "missing".into();
    editor.find.refresh("abc");
    let matches = editor.find.matches.clone();
    editor.replace.query = "new".into();
    assert_eq!(editor.find.matches, matches);
    let replaced = editor.find.find_replace_all("abc", &editor.replace.query, true, false);
    assert_eq!(replaced, None);
}

#[test]
fn every_place_is_replaced_at_once() {
    for (source, query, replacement, expected) in [
        ("foo foo foo foo", "foo", "bar", "bar bar bar bar"),
        ("foofoofoo", "foo", "x", "xxx"),
        ("ação🙂ação", "ação", "🌍", "🌍🙂🌍"),
        ("foofoo", "foo", "", ""),
        ("foo foo", "foo", "longer", "longer longer"),
        ("foofoo", "foo", "foo!", "foo!foo!"),
        ("none", "foo", "bar", "none"),
    ] {
        let mut find = search(query);
        find.visible = true;
        find.refresh(source);
        let replaced = find.find_replace_all(source, replacement, true, false);
        assert_eq!(replaced.as_deref().unwrap_or(source), expected);
        assert_eq!(replaced.is_some(), source != expected);
        assert_eq!(find.matches.len(), expected.match_indices(query).count());
        assert_eq!(find.current, (!find.matches.is_empty()).then_some(0));
    }
}

#[test]
fn the_replacement_is_toggled_and_goes_from_place_to_place() {
    let mut find = search("foo");
    find.visible = true;
    find.refresh("foo foo foo");
    find.toggle_replace(false);
    assert!(find.replace_expanded);
    assert_eq!(find.matches, vec![0..3, 4..7, 8..11]);
    let mut document = String::from("foo foo foo");
    for (expected, next) in [
        ("bar foo foo", Some(4..7)),
        ("bar bar foo", Some(8..11)),
        ("bar bar bar", None),
    ] {
        let replaced = find.find_replace(&document, "bar", true, false).unwrap();
        document = replaced.document;
        assert_eq!(document, expected);
        assert_eq!(find.current_match(), next);
    }
    find.toggle_replace(false);
    assert!(!find.replace_expanded);
    assert_eq!(find.input.query, "foo");
}

#[test]
fn only_a_line_in_use_is_cut() {
    let source = "ação tail";
    let mut editor = EditorSession::from_document(1, source, None);
    editor.find.visible = true;
    editor.find.input = input("ação tail", 0, 6);
    editor.find.refresh(source);
    assert_eq!(editor.find_cut(false, false, source, 1), (None, None));
    assert_eq!(editor.find.input.query, "ação tail");
    let (cut, selected) = editor.find_cut(true, false, source, 2);
    assert_eq!(cut.as_deref(), Some("ação"));
    assert_eq!(selected, Some(Placement::Selection { anchor: 6, active: 11 }));
    assert_eq!(editor.find.input.query, " tail");
    assert_eq!(editor.find.input.selection(), 0..0);
    assert_eq!(editor.find.matches, vec![6..11]);
    assert_eq!(editor.find_revision, 2);
    assert_eq!(editor.find_cut(true, false, source, 3), (None, None));
    assert_eq!(editor.find.matches, vec![6..11]);
    assert_eq!(editor.find_revision, 2);
    editor.replace = input("word", 1, 3);
    let (cut, selected) = editor.find_cut(true, true, source, 4);
    assert_eq!(cut.as_deref(), Some("or"));
    assert_eq!(selected, None);
    assert_eq!(editor.replace, input("wd", 1, 1));
}

#[test]
fn the_line_in_use_is_written_and_looked_for() {
    let source = "ab abc";
    let mut editor = EditorSession::from_document(1, source, None);
    let opened = editor.open_find(Some("ab"), source, 7);
    assert_eq!(opened, Some(Placement::Selection { anchor: 0, active: 2 }));
    assert!(editor.find.visible && editor.find_focus_pending);
    assert_eq!(editor.pointer.selection_anchor, Some(0));
    assert_eq!(editor.find_next(), Some(Placement::Selection { anchor: 3, active: 5 }));
    assert_eq!(editor.find_previous(), Some(Placement::Selection { anchor: 0, active: 2 }));
    editor.find_right(false);
    let pasted = editor.find_paste(false, Some("c"), source, 8);
    assert_eq!(pasted, Some(Placement::Selection { anchor: 3, active: 6 }));
    assert_eq!(editor.find.input, input("abc", 3, 3));
    assert_eq!(editor.find_backspace(false, source, 9), Some(Placement::Selection { anchor: 0, active: 2 }));
    editor.find_left(false);
    assert_eq!(editor.find_delete(false, source, 10), Some(Placement::Selection { anchor: 0, active: 1 }));
    assert_eq!(editor.find.input, input("a", 1, 1));
    assert_eq!(editor.find_delete(false, source, 11), None);
    assert_eq!(editor.find_revision, 10);
    assert_eq!(editor.find_paste(true, Some("xy"), source, 12), None);
    assert_eq!(editor.replace, input("xy", 2, 2));
    editor.find_select_all(true);
    assert_eq!(editor.find_backspace(true, source, 13), None);
    assert_eq!(editor.replace, input("", 0, 0));
    assert_eq!(editor.find_revision, 10);
    assert_eq!(editor.find_paste(false, None, source, 14), None);
    editor.close_find();
    assert!(!editor.find.visible && !editor.find_focus_pending);
}
