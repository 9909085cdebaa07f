//! What a request takes along of a conversation and of the documents at hand.

use ide_core::context::{
    ContextMessage, ContextRole, ContextSnapshot, ContextSource, ContextSourceKind,
    MAX_CONTEXT_MESSAGES, MAX_CONTEXT_SOURCES, MAX_CONTEXT_SOURCE_BYTES,
};
use ide_core::interaction::word_range_at;

fn user(content: &str) -> ContextMessage {
    ContextMessage::new(ContextRole::User, content.into())
}

#[test]
fn empty_snapshot_is_empty() {
    assert_eq!(
        ContextSnapshot::from_messages(Vec::new()),
        ContextSnapshot::default()
    );
}

#[test]
fn roles_order_unicode_and_multiline_are_preserved() {
    let snapshot = ContextSnapshot::from_messages(vec![
        user("Olá, João 👋"),
        ContextMessage::new(ContextRole::Assistant, "linha 1\nlinha 2".into()),
    ]);
    assert_eq!(snapshot.messages[0].role, ContextRole::User);
    assert_eq!(snapshot.messages[0].content, "Olá, João 👋");
    assert_eq!(snapshot.messages[1].role, ContextRole::Assistant);
    assert_eq!(snapshot.messages[1].content, "linha 1\nlinha 2");
}

#[test]
fn each_snapshot_isolated_and_limit_keeps_newest_complete_messages() {
    let first = ContextSnapshot::from_messages(vec![user("chat A")]);
    let second = ContextSnapshot::from_messages(vec![user("chat B")]);
    assert_eq!(first.messages[0].content, "chat A");
    assert_eq!(second.messages[0].content, "chat B");

    let messages = (0..MAX_CONTEXT_MESSAGES + 2)
        .map(|index| user(&format!("message {index}")))
        .collect::<Vec<_>>();
    let bounded = ContextSnapshot::from_messages(messages);
    assert_eq!(bounded.messages.len(), MAX_CONTEXT_MESSAGES);
    assert_eq!(bounded.messages[0].content, "message 2");
    assert_eq!(bounded.messages.last().unwrap().content, "message 65");
}

#[test]
fn a_large_single_message_is_preserved_without_utf8_truncation() {
    let content = "😀".repeat(1024);
    let snapshot = ContextSnapshot::from_messages(vec![user(&content)]);
    assert_eq!(snapshot.messages[0].content, content);
}

#[test]
fn sources_are_bounded_and_serialized_deterministically() {
    let snapshot = ContextSnapshot::from_messages(vec![user("question")]).with_sources(vec![
        ContextSource::new(
            ContextSourceKind::ActiveFile,
            "src/main.rs".into(),
            "fn main() {}".into(),
        ),
        ContextSource::new(
            ContextSourceKind::Selection,
            "src/main.rs:1-1".into(),
            "fn main() {}".into(),
        ),
    ]);
    assert_eq!(snapshot.sources.len(), 2);
    let text = snapshot.user_request_with_sources("question").unwrap();
    assert!(text.contains("Source: src/main.rs"));
    assert!(text.contains("Source: src/main.rs:1-1"));
    assert!(text.contains("fn main() {}"));
}

#[test]
fn large_source_truncates_on_utf8_boundary_and_marks_metadata() {
    let source = ContextSource::new(
        ContextSourceKind::ActiveFile,
        "large.php".into(),
        "😀".repeat(MAX_CONTEXT_SOURCE_BYTES),
    );
    assert!(source.truncated);
    assert!(source.content.len() <= MAX_CONTEXT_SOURCE_BYTES);
    assert!(source.content.is_char_boundary(source.content.len()));
    assert!(user_request_contains_truncated(&source));
}

fn user_request_contains_truncated(source: &ContextSource) -> bool {
    ContextSnapshot::default()
        .with_sources(vec![source.clone()])
        .user_request_with_sources("question")
        .unwrap()
        .contains("Truncated: true")
}

#[test]
fn selection_sources_have_priority_when_source_count_exceeds_limit() {
    let mut sources = (0..MAX_CONTEXT_SOURCES)
        .map(|index| {
            ContextSource::new(
                ContextSourceKind::ActiveFile,
                format!("{index}.php"),
                "x".into(),
            )
        })
        .collect::<Vec<_>>();
    sources.push(ContextSource::new(
        ContextSourceKind::Selection,
        "selected.php".into(),
        "y".into(),
    ));
    let snapshot = ContextSnapshot::default().with_sources(sources);
    assert_eq!(snapshot.sources.len(), MAX_CONTEXT_SOURCES);
    assert!(snapshot
        .sources
        .iter()
        .any(|source| source.kind == ContextSourceKind::Selection));
}

#[test]
fn a_request_without_sources_stays_as_it_is() {
    assert_eq!(
        ContextSnapshot::default().user_request_with_sources("question"),
        None
    );
}

#[test]
fn selects_ascii_and_unicode_words_at_byte_offsets() {
    assert_eq!(word_range_at("hello world", 2), 0..5);
    assert_eq!(word_range_at("ação Olá 👋", 3), 0..6);
    assert_eq!(word_range_at("ação Olá 👋", 8), 7..11);
}

#[test]
fn punctuation_empty_lines_and_end_are_safe() {
    assert_eq!(word_range_at("", 0), 0..0);
    assert_eq!(word_range_at("foo bar", 3), 0..3);
    assert_eq!(word_range_at("foo bar", 7), 4..7);
}
