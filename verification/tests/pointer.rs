//! The caret, the selection and the mouse in an open document.

use ide_core::diagnostics::{ByteDiagnostic, DiagnosticSeverity};
use ide_core::pointer::{line_of_offset, HoverToken, MouseAt, Placement, Pointer, Press};
use ide_core::session::EditorSession;

const SOURCE: &str = "<?php\n$first = 1;\n$second = 2;\n";

fn editor() -> EditorSession {
    EditorSession::from_document(1, SOURCE, None)
}

fn at(offset: usize) -> MouseAt {
    MouseAt { in_text: true, offset, control: false }
}

fn selection(anchor: usize, active: usize) -> Placement {
    Placement::Selection { anchor, active }
}

#[test]
fn growing_selections_keep_their_start() {
    let mut editor = editor();
    assert_eq!(editor.select_right(SOURCE, 6), selection(6, 7));
    assert_eq!(editor.select_right(SOURCE, 7), selection(6, 8));
    assert_eq!(editor.select_left(SOURCE, 8), selection(6, 7));
    assert_eq!(editor.select_vertically(20, 7), selection(6, 20));
    assert!(editor.pointer.column_kept);
    assert_eq!(editor.caret_blink_generation, 4);
    assert_eq!(editor.move_to(3), Placement::Caret(3));
    assert_eq!(editor.pointer, Pointer::new());
    assert_eq!(editor.select_left(SOURCE, 0), selection(0, 0));
    let end = SOURCE.len();
    let mut editor = EditorSession::from_document(1, SOURCE, None);
    assert_eq!(editor.select_right(SOURCE, end), selection(end, end));
}

#[test]
fn clicks_place_the_caret_and_select() {
    let mut editor = editor();
    editor.pointer.menu_open = true;
    editor.hover_popup = Some("report".into());
    let line = 6..18;
    let outside = MouseAt { in_text: false, ..at(8) };
    assert_eq!(editor.mouse_down(SOURCE, line.clone(), outside, 0, false, 1), None);
    assert!(editor.pointer.menu_open);

    let pressed = editor.mouse_down(SOURCE, line.clone(), at(8), 0, false, 1);
    assert_eq!(pressed, Some(Press { placement: Placement::Caret(8), definition: false }));
    assert!(editor.pointer.selecting && !editor.pointer.menu_open);
    assert_eq!(editor.pointer.selection_anchor, Some(8));
    assert_eq!(editor.hover_popup, None);

    let moved = editor.mouse_move(at(11), 8, false, &Vec::new(), None);
    assert_eq!(moved, Some(selection(8, 11)));
    editor.mouse_up();
    assert!(!editor.pointer.selecting);

    let pressed = editor.mouse_down(SOURCE, line.clone(), at(16), 11, true, 1);
    assert_eq!(pressed.unwrap().placement, selection(8, 16));
    let pressed = editor.mouse_down(SOURCE, line.clone(), at(9), 16, false, 2);
    assert_eq!(pressed.unwrap().placement, selection(7, 12));
    assert_eq!(editor.pointer.selection_anchor, Some(7));
    let pressed = editor.mouse_down(SOURCE, line.clone(), at(9), 12, false, 3);
    assert_eq!(pressed.unwrap().placement, selection(6, 18));

    let control = MouseAt { control: true, ..at(9) };
    let pressed = editor.mouse_down(SOURCE, line, control, 18, false, 1);
    assert_eq!(pressed, Some(Press { placement: Placement::Caret(9), definition: true }));
    assert!(!editor.pointer.selecting);
    assert_eq!(editor.pointer.selection_anchor, None);
}

#[test]
fn the_mouse_shows_reports_and_links() {
    let mut editor = editor();
    let reports = vec![ByteDiagnostic {
        range: 6..12,
        severity: Some(DiagnosticSeverity::Error),
        message: "Unused".into(),
    }];
    assert_eq!(editor.mouse_move(at(7), 0, true, &reports, None), None);
    assert_eq!(editor.hover_popup, None);
    assert_eq!(editor.mouse_move(at(7), 0, false, &reports, None), None);
    assert_eq!(editor.hover_popup.as_deref(), Some("Unused\nAxiom PHP Parser"));
    assert_eq!(editor.mouse_move(MouseAt { in_text: false, ..at(7) }, 0, false, &reports, None), None);
    assert_eq!(editor.hover_popup.as_deref(), Some("Unused\nAxiom PHP Parser"));

    let control = MouseAt { control: true, ..at(7) };
    let name = HoverToken { kind: "variable_name".into(), text: "$first".into(), range: 6..12 };
    editor.mouse_move(control, 0, false, &reports, Some(name));
    assert_eq!(editor.hover_popup, None);
    assert_eq!(editor.pointer.link, Some(6..12));
    let sign = HoverToken { kind: "=".into(), text: "=".into(), range: 13..14 };
    editor.mouse_move(control, 0, false, &reports, Some(sign));
    assert_eq!(editor.pointer.link, None);
}

#[test]
fn the_menu_opens_where_the_right_button_is_pressed() {
    let mut editor = editor();
    assert_eq!(editor.right_mouse_down(false, 8, None), None);
    assert!(!editor.pointer.menu_open);
    editor.pointer.selection_anchor = Some(6);
    assert_eq!(editor.right_mouse_down(true, 8, Some(6..12)), None);
    assert_eq!(editor.pointer.selection_anchor, Some(6));
    assert!(editor.pointer.menu_open);
    assert_eq!(editor.right_mouse_down(true, 12, Some(6..12)), Some(Placement::Caret(12)));
    assert_eq!(editor.pointer.selection_anchor, None);
    editor.hover_popup = Some("shown".into());
    editor.escape();
    assert!(!editor.pointer.menu_open);
    assert_eq!(editor.hover_popup, None);
}

#[test]
fn one_is_led_to_a_line_that_is_highlighted() {
    let mut editor = editor();
    assert_eq!(line_of_offset(SOURCE, 5), 0);
    assert_eq!(line_of_offset(SOURCE, 6), 1);
    assert_eq!(editor.navigate_to_offset(SOURCE, 20), Placement::Caret(20));
    assert_eq!(editor.pointer.highlighted_line, Some(2));
    assert_eq!(editor.navigate_to_offset(SOURCE, 999), Placement::Caret(SOURCE.len()));
    assert_eq!(editor.pointer.highlighted_line, Some(3));
    assert_eq!(editor.reveal_byte_range(SOURCE, 6..12), Placement::Caret(6));
    assert_eq!(editor.pointer.marked, Some(6..12));
    assert_eq!(editor.pointer.highlighted_line, None);
    assert_eq!(editor.set_cursor_offset(SOURCE, 999), Placement::Caret(SOURCE.len()));
    assert_eq!(editor.move_vertically(2, true), Some(Placement::Caret(2)));
}
