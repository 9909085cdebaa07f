//! The bridge to a language server: its queue, its sessions and its replies.

use ide_core::lsp::{
    accept_generation, DidChangeQueue, Documentation, IdeLspEvent, LspBridge, LspReply,
    LspRequestKind, Position, PositionRange, PublishedDiagnostics, QueuedDidChange, ServerEvent,
    ServerStart, ServerStatus, SignatureHelp, SignatureInformation, signature_help_text,
};

fn published(uri: &str) -> PublishedDiagnostics {
    PublishedDiagnostics {
        uri: uri.into(),
        version: None,
        diagnostics: Vec::new(),
    }
}

fn change(session: u64, uri: &str, version: i32, text: &str) -> QueuedDidChange {
    QueuedDidChange {
        session,
        uri: uri.into(),
        version,
        text: text.into(),
        range: None,
    }
}

fn empty_range() -> PositionRange {
    let start = Position {
        line: 0,
        character: 0,
    };
    PositionRange { start, end: start }
}

#[test]
fn document_session_invalidation_rejects_old_diagnostics() {
    let uri = "file:///A.php";
    let mut bridge = LspBridge::start(ServerStart::NotFound);
    bridge.drain_events(Vec::new());
    bridge.register_document_session(uri, 10);
    bridge.push(IdeLspEvent::Diagnostics {
        params: published(uri),
        session: 10,
    });
    bridge.invalidate_document_session(uri, 10);
    bridge.register_document_session(uri, 11);
    assert!(bridge.drain_events(Vec::new()).is_empty());
    bridge.push(IdeLspEvent::Diagnostics {
        params: published(uri),
        session: 11,
    });
    assert_eq!(bridge.drain_events(Vec::new()).len(), 1);
}

#[test]
fn newer_lsp_response_wins_over_out_of_order_older_response() {
    let mut last = 0;
    assert!(accept_generation(&mut last, 2));
    assert!(!accept_generation(&mut last, 1));
    assert_eq!(last, 2);
    assert!(accept_generation(&mut last, 3));
    assert_eq!(last, 3);
}

#[test]
fn did_change_queue_coalesces_per_document_and_preserves_order() {
    let mut queue = DidChangeQueue::new();
    assert_eq!(queue.enqueue(change(1, "file:///A.php", 1, "a1")), (1, false));
    assert_eq!(queue.enqueue(change(1, "file:///B.php", 1, "b1")), (2, false));
    assert_eq!(queue.enqueue(change(1, "file:///A.php", 3, "a3")), (2, true));
    let first = queue.next().unwrap();
    let second = queue.next().unwrap();
    assert_eq!((first.version, first.text), (3, "a3".to_owned()));
    assert_eq!((second.version, second.text), (1, "b1".to_owned()));
}

#[test]
fn did_change_queue_discards_pending_session_on_invalidation() {
    let mut queue = DidChangeQueue::new();
    queue.enqueue(change(10, "file:///A.php", 2, "old"));
    queue.discard("file:///A.php", 10);
    assert!(queue.items.is_empty());
}

#[test]
fn incremental_changes_are_not_coalesced() {
    let mut queue = DidChangeQueue::new();
    assert_eq!(
        queue.enqueue(QueuedDidChange {
            range: Some(empty_range()),
            ..change(1, "file:///A.php", 1, "a")
        }),
        (1, false)
    );
    assert_eq!(
        queue.enqueue(QueuedDidChange {
            range: Some(empty_range()),
            ..change(1, "file:///A.php", 2, "b")
        }),
        (2, false)
    );
}

#[test]
fn a_bridge_tells_how_its_server_started() {
    assert_eq!(
        LspBridge::start(ServerStart::Started).status(None),
        ServerStatus::Ready
    );
    assert_eq!(
        LspBridge::start(ServerStart::NotFound).status(None),
        ServerStatus::NotFound
    );
    assert_eq!(
        LspBridge::start(ServerStart::Failed("no".into())).status(None),
        ServerStatus::Stopped
    );
    assert_eq!(
        LspBridge::start(ServerStart::Started).status(Some(ServerStatus::Stopped)),
        ServerStatus::Stopped
    );
}

#[test]
fn replies_come_out_with_the_generation_of_their_request() {
    let uri = "file:///A.php";
    let mut bridge = LspBridge::start(ServerStart::Started);
    let first = bridge.begin_request(uri, LspRequestKind::Hover).unwrap();
    let second = bridge.begin_request(uri, LspRequestKind::Hover).unwrap();
    assert!(second > first);
    bridge.finish_request(uri, second, Ok(LspReply::Hover(Some("text".into()))));
    bridge.finish_request(uri, first, Err("gone".into()));
    let events = bridge.drain_events(vec![ServerEvent::Stopped]);
    assert!(events.contains(&IdeLspEvent::Hover {
        uri: uri.into(),
        text: Some("text".into()),
        generation: second
    }));
    assert!(events
        .iter()
        .any(|event| matches!(event, IdeLspEvent::Error(message) if message.contains("gone"))));
    assert!(events.contains(&IdeLspEvent::Stopped));
    let mut missing = LspBridge::start(ServerStart::NotFound);
    assert_eq!(missing.begin_request(uri, LspRequestKind::Hover), None);
}

#[test]
fn changes_of_closed_documents_are_not_sent() {
    let uri = "file:///A.php";
    let mut bridge = LspBridge::start(ServerStart::Started);
    bridge.register_document_session(uri, 4);
    assert!(bridge.is_current(&change(4, uri, 2, "x")));
    assert!(!bridge.is_current(&change(3, uri, 2, "x")));
    bridge.queue_did_change_range(4, uri.into(), 2, None, "x".into());
    bridge.invalidate_document_session(uri, 4);
    assert!(!bridge.is_current(&change(4, uri, 2, "x")));
    assert!(bridge.did_change_queue.as_mut().unwrap().next().is_none());
    bridge.close_did_change_queue();
}

#[test]
fn the_help_of_a_server_is_its_label_or_its_documentation() {
    let help = |label: &str, documentation| SignatureHelp {
        signatures: vec![SignatureInformation {
            label: label.into(),
            documentation,
        }],
        active_signature: None,
    };
    assert_eq!(signature_help_text(&help("run(int $a)", None)), "run(int $a)");
    assert_eq!(
        signature_help_text(&help("", Some(Documentation::Plain("doc \"x\"".into())))),
        "String(\"doc \\\"x\\\"\")"
    );
    assert_eq!(
        signature_help_text(&SignatureHelp {
            active_signature: Some(3),
            ..help("a", None)
        }),
        ""
    );
}

#[test]
fn a_whole_text_takes_the_first_place_of_its_document() {
    let mut queue = DidChangeQueue::new();
    let of_range = |version: i32, text: &str| QueuedDidChange {
        range: Some(empty_range()),
        ..change(1, "file:///A.php", version, text)
    };
    queue.enqueue(of_range(1, "a"));
    queue.enqueue(change(1, "file:///B.php", 1, "b"));
    assert_eq!(queue.enqueue(of_range(2, "c")), (3, false));
    assert_eq!(
        queue.enqueue(change(1, "file:///A.php", 3, "whole")),
        (3, true)
    );
    let versions: Vec<(i32, String)> = std::iter::from_fn(|| queue.next())
        .map(|change| (change.version, change.text))
        .collect();
    assert_eq!(
        versions,
        vec![(3, "whole".into()), (1, "b".into()), (2, "c".into())]
    );
}
