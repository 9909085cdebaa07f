//! The commands and their shortcuts.

use ide_core::commands::{Keymap, KeymapFile};

#[test]
fn registry_ids_are_unique_and_search_uses_description() {
    let keymap = Keymap::default();
    let mut ids = std::collections::HashSet::new();
    assert!(keymap
        .commands()
        .iter()
        .all(|command| ids.insert(&command.id)));
    assert!(keymap
        .search("declaration")
        .iter()
        .any(|command| command.id == "navigate.definition"));
}

#[test]
fn overrides_conflicts_and_reset_are_deterministic() {
    let mut keymap = Keymap::default();
    assert!(keymap
        .set_shortcut("editor.reformat", Some("ctrl-shift-l".into()))
        .is_ok());
    assert!(keymap
        .set_shortcut("editor.copy", Some("ctrl-shift-l".into()))
        .is_err());
    keymap.reset("editor.reformat");
    assert_eq!(keymap.shortcut("editor.reformat"), Some("ctrl-alt-l"));
}

#[test]
fn project_open_commands_are_distinct_and_explicit() {
    let keymap = Keymap::default();
    let project = keymap
        .commands()
        .iter()
        .find(|command| command.id == "project.open_project")
        .expect("project command");
    let file = keymap
        .commands()
        .iter()
        .find(|command| command.id == "project.open_file")
        .expect("file command");
    assert_ne!(project.id, file.id);
    assert!(project
        .description
        .to_ascii_lowercase()
        .contains("directory"));
    assert!(file.description.to_ascii_lowercase().contains("file"));
}

#[test]
fn set_keys_are_read_back_and_conflicts_name_the_other_command() {
    let mut keymap = Keymap::default();
    keymap
        .set_shortcut("editor.reformat", Some("ctrl-shift-l".into()))
        .unwrap();
    assert_eq!(keymap.shortcut("editor.reformat"), Some("ctrl-shift-l"));
    let other = keymap
        .set_shortcut("editor.copy", Some("ctrl-shift-l".into()))
        .unwrap_err();
    assert_eq!(
        other,
        "ctrl-shift-l is already assigned to Reformat Code"
    );
    keymap.replace_shortcut("editor.copy", Some("ctrl-shift-l".into()));
    assert_eq!(keymap.shortcut("editor.copy"), Some("ctrl-shift-l"));
    assert_eq!(keymap.shortcut("editor.reformat"), Some("ctrl-alt-l"));
}

#[test]
fn a_saved_keymap_is_loaded_again() {
    let mut keymap = Keymap::default();
    keymap
        .set_shortcut("editor.reformat", Some("ctrl-shift-l".into()))
        .unwrap();
    keymap.set_shortcut("editor.copy", None).unwrap();
    let file = keymap.save();
    assert_eq!(file.bindings.len(), 2);
    let loaded = Keymap::load(Some(file));
    assert_eq!(loaded.shortcut("editor.reformat"), Some("ctrl-shift-l"));
    assert_eq!(loaded.shortcut("editor.copy"), Some("ctrl-c"));
    assert_eq!(
        Keymap::load(None).shortcut("editor.reformat"),
        Some("ctrl-alt-l")
    );
}

#[test]
fn of_two_bindings_of_a_command_the_later_counts() {
    let keymap = Keymap::load(Some(KeymapFile {
        bindings: vec![
            ("editor.copy".into(), Some("f1".into())),
            ("editor.copy".into(), Some("f2".into())),
        ],
    }));
    assert_eq!(keymap.shortcut("editor.copy"), Some("f2"));
}
