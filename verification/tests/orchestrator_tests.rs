//! Scenario tests for the orchestrator's scheduling.

use tuit::events::{ConflictResolution, TransferCommand, TransferLimits, TransferProgress};
use tuit::orchestrator::{Action, Orchestrator};

fn limits(sends: usize, receives: usize) -> TransferLimits {
    TransferLimits { max_concurrent_sends: sends, max_concurrent_receives: receives }
}

/// A well-formed ticket for tests: a real blob ticket built from a fixed
/// key and hash.
fn sample_ticket() -> String {
    let key = iroh::SecretKey::from_bytes(&[7u8; 32]);
    let addr = iroh::EndpointAddr::new(key.public());
    let hash = iroh_blobs::Hash::new(b"sample");
    iroh_blobs::ticket::BlobTicket::new(addr, hash, iroh_blobs::BlobFormat::HashSeq).to_string()
}

fn send_cmd(id: &str) -> TransferCommand {
    TransferCommand::Send {
        id: id.to_string(),
        paths: vec!["/tmp/f.bin".to_string()],
        follow_symlinks: false,
    }
}

#[test]
fn test_empty_send_rejected_without_events() {
    let mut orch = Orchestrator::new(limits(1, 1));
    let (events, actions) = orch.handle_command(TransferCommand::Send {
        id: "a".to_string(),
        paths: vec![],
        follow_symlinks: false,
    });
    assert!(events.is_empty());
    assert!(actions.is_empty());
    assert!(orch.active_sends.is_empty());
    assert!(orch.send_queue.is_empty());
}

#[test]
fn test_queue_overflow_positions() {
    // One send slot; five sends back to back. The first starts, the other
    // four queue at positions two through five (reported one-based against
    // the queue, so 1..=4 in the waiting line).
    let mut orch = Orchestrator::new(limits(1, 50));
    let (events, actions) = orch.handle_command(send_cmd("t1"));
    assert!(events.is_empty());
    assert!(matches!(&actions[0], Action::StartSend { id, .. } if id == "t1"));

    let mut positions = Vec::new();
    for name in ["t2", "t3", "t4", "t5"] {
        let (events, actions) = orch.handle_command(send_cmd(name));
        assert!(actions.is_empty());
        assert_eq!(events.len(), 1);
        match &events[0] {
            TransferProgress::Queued { id, position } => {
                assert_eq!(id, name);
                positions.push(*position);
            },
            other => panic!("expected Queued, got {:?}", other),
        }
    }
    assert_eq!(positions, vec![1, 2, 3, 4]);

    // The first completes; the next promotion starts t2 and renumbers the
    // remaining three.
    orch.reap(&vec!["t1".to_string()]);
    let (events, actions) = orch.promote_sends();
    assert_eq!(actions.len(), 1);
    assert!(matches!(&actions[0], Action::StartSend { id, .. } if id == "t2"));
    let queued: Vec<(String, usize)> = events
        .iter()
        .map(|e| match e {
            TransferProgress::Queued { id, position } => (id.clone(), *position),
            other => panic!("expected Queued, got {:?}", other),
        })
        .collect();
    assert_eq!(
        queued,
        vec![("t3".to_string(), 1), ("t4".to_string(), 2), ("t5".to_string(), 3)]
    );
    assert_eq!(orch.active_sends, vec!["t2".to_string()]);
    assert_eq!(orch.send_queue.len(), 3);
}

#[test]
fn test_cancel_queued_emits_only_cancelled() {
    let mut orch = Orchestrator::new(limits(1, 50));
    let _ = orch.handle_command(send_cmd("t1"));
    let _ = orch.handle_command(send_cmd("t2"));
    let (events, actions) = orch.handle_command(TransferCommand::Cancel { id: "t2".to_string() });
    assert_eq!(events.len(), 1);
    assert!(matches!(&events[0], TransferProgress::Cancelled { id } if id == "t2"));
    assert!(actions.is_empty());
    assert!(orch.send_queue.is_empty());
}

#[test]
fn test_cancel_active_fires_token() {
    let mut orch = Orchestrator::new(limits(1, 50));
    let _ = orch.handle_command(send_cmd("t1"));
    let (events, actions) = orch.handle_command(TransferCommand::Cancel { id: "t1".to_string() });
    assert!(events.is_empty());
    assert_eq!(actions.len(), 1);
    assert!(matches!(&actions[0], Action::CancelTask { id } if id == "t1"));
    assert!(orch.active_sends.is_empty());
}

#[test]
fn test_promotion_fills_every_free_slot() {
    let mut orch = Orchestrator::new(limits(2, 50));
    for name in ["a", "b", "c", "d"] {
        let _ = orch.handle_command(send_cmd(name));
    }
    assert_eq!(orch.active_sends.len(), 2);
    assert_eq!(orch.send_queue.len(), 2);

    orch.reap(&vec!["a".to_string(), "b".to_string()]);
    let (_events, actions) = orch.promote_sends();
    assert_eq!(actions.len(), 2);
    assert_eq!(orch.active_sends, vec!["c".to_string(), "d".to_string()]);
    assert!(orch.send_queue.is_empty());
}

#[test]
fn test_receive_registers_resolver() {
    let mut orch = Orchestrator::new(limits(50, 50));
    let (events, actions) = orch.handle_command(TransferCommand::Receive {
        id: "r1".to_string(),
        ticket: sample_ticket(),
        output_dir: "/downloads".to_string(),
    });
    assert!(events.is_empty());
    assert!(matches!(&actions[0], Action::StartReceive { id, .. } if id == "r1"));
    assert_eq!(orch.resolvers, vec!["r1".to_string()]);

    let (_, actions) = orch.handle_command(TransferCommand::ResolveConflict {
        id: "r1".to_string(),
        resolution: ConflictResolution::Skip,
    });
    assert!(matches!(
        &actions[0],
        Action::SendResolution { id, resolution: ConflictResolution::Skip } if id == "r1"
    ));
    assert!(orch.resolvers.is_empty());

    // A second resolution finds no resolver and does nothing.
    let (events, actions) = orch.handle_command(TransferCommand::ResolveConflict {
        id: "r1".to_string(),
        resolution: ConflictResolution::Rename,
    });
    assert!(events.is_empty());
    assert!(actions.is_empty());
}

#[test]
fn test_shutdown_cancels_everything() {
    let mut orch = Orchestrator::new(limits(50, 50));
    let _ = orch.handle_command(send_cmd("s1"));
    let _ = orch.handle_command(TransferCommand::Receive {
        id: "r1".to_string(),
        ticket: sample_ticket(),
        output_dir: "/downloads".to_string(),
    });
    let (events, actions) = orch.handle_command(TransferCommand::Shutdown);
    assert!(events.is_empty());
    assert_eq!(actions.len(), 3);
    assert!(matches!(&actions[0], Action::CancelTask { id } if id == "s1"));
    assert!(matches!(&actions[1], Action::CancelTask { id } if id == "r1"));
    assert!(matches!(&actions[2], Action::Stop));
    assert!(orch.active_sends.is_empty());
    assert!(orch.active_receives.is_empty());
}

#[test]
fn test_duplicate_send_id_ignored() {
    // One task per id: the first registration wins, a duplicate changes
    // nothing and starts nothing, even with a free slot.
    let mut orch = Orchestrator::new(limits(5, 5));
    let (_, actions) = orch.handle_command(send_cmd("dup"));
    assert_eq!(actions.len(), 1);
    let (events, actions) = orch.handle_command(send_cmd("dup"));
    assert!(events.is_empty());
    assert!(actions.is_empty());
    assert_eq!(orch.active_sends, vec!["dup".to_string()]);

    // The same holds against a queued entry.
    let mut orch = Orchestrator::new(limits(1, 1));
    let _ = orch.handle_command(send_cmd("a"));
    let _ = orch.handle_command(send_cmd("b"));
    let (events, actions) = orch.handle_command(send_cmd("b"));
    assert!(events.is_empty());
    assert!(actions.is_empty());
    assert_eq!(orch.send_queue.len(), 1);
}

#[test]
fn test_duplicate_receive_id_ignored() {
    let mut orch = Orchestrator::new(limits(5, 5));
    let recv = |id: &str| TransferCommand::Receive {
        id: id.to_string(),
        ticket: sample_ticket(),
        output_dir: "/downloads".to_string(),
    };
    let (_, actions) = orch.handle_command(recv("r"));
    assert_eq!(actions.len(), 1);
    let (events, actions) = orch.handle_command(recv("r"));
    assert!(events.is_empty());
    assert!(actions.is_empty());
    assert_eq!(orch.active_receives, vec!["r".to_string()]);
    assert_eq!(orch.resolvers, vec!["r".to_string()]);
}

#[test]
fn test_malformed_ticket_rejected_before_start() {
    // A receive with a ticket that does not parse yields exactly one
    // synthetic Failed record; no task starts and no slot is taken.
    let mut orch = Orchestrator::new(limits(5, 5));
    let (events, actions) = orch.handle_command(TransferCommand::Receive {
        id: "bad".to_string(),
        ticket: "not-a-ticket".to_string(),
        output_dir: "/downloads".to_string(),
    });
    assert!(actions.is_empty());
    assert_eq!(events.len(), 1);
    assert!(matches!(&events[0], TransferProgress::Failed { id, error }
        if id == "bad" && error == "invalid ticket"));
    assert!(orch.active_receives.is_empty());
    assert!(orch.receive_queue.is_empty());
    assert!(orch.resolvers.is_empty());
}
