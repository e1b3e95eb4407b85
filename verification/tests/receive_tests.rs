//! Scenario tests for the receive task.

use tuit::events::{ConflictResolution, TransferProgress};
use tuit::receive::{ExportItem, ExportStep, ReceiveTask, MIN_FREE_SPACE};

fn fresh(output_dir: &str) -> ReceiveTask {
    let (mut task, events) =
        ReceiveTask::new("r1".to_string(), "blob-ticket".to_string(), output_dir.to_string());
    assert!(matches!(&events[0], TransferProgress::Preparing { status, .. }
        if status == "Creating endpoint..."));
    let events = task.on_endpoint_ready();
    assert!(matches!(&events[0], TransferProgress::Connecting { .. }));
    task
}

#[test]
fn test_disk_space_threshold_exact() {
    // Payload 10: one byte under payload + buffer fails, the exact
    // threshold proceeds.
    let mut task = fresh("/out");
    let _ = task.on_connected(Some(false));
    let sizes = vec![100u64, 10u64];
    let events = task.on_sizes(&sizes, 10 + MIN_FREE_SPACE - 1);
    assert_eq!(events.len(), 1);
    match &events[0] {
        TransferProgress::Failed { error, .. } => {
            assert!(error.starts_with("insufficient disk space"));
        },
        other => panic!("expected Failed, got {:?}", other),
    }

    let mut task = fresh("/out");
    let _ = task.on_connected(Some(false));
    let events = task.on_sizes(&sizes, 10 + MIN_FREE_SPACE);
    assert!(events.is_empty());
}

#[test]
fn test_path_traversal_rejected() {
    let mut task = fresh("/out");
    let _ = task.on_connected(None);
    let sizes = vec![100u64, 5u64];
    let _ = task.on_sizes(&sizes, u64::MAX);
    let events = task.on_collection(vec!["../evil".to_string()], &sizes);
    let last = events.last().unwrap();
    match last {
        TransferProgress::Failed { error, .. } => {
            assert_eq!(error, "invalid file name: path traversal attempt");
        },
        other => panic!("expected Failed, got {:?}", other),
    }
}

#[test]
fn test_single_file_event_order() {
    // A one-file transfer with an empty output directory: file list,
    // start, progress, completion, in that order.
    let mut task = fresh("/out");
    let events = task.on_connected(Some(false));
    assert!(matches!(&events[0], TransferProgress::Connected { is_relay: false, .. }));

    let sizes = vec![64u64, 1048576u64];
    let events = task.on_sizes(&sizes, u64::MAX);
    assert!(events.is_empty());

    let events = task.on_collection(vec!["f.bin".to_string()], &sizes);
    assert_eq!(events.len(), 1);
    match &events[0] {
        TransferProgress::FileList { files, .. } => {
            assert_eq!(files.len(), 1);
            assert_eq!(files[0].0, "f.bin");
            assert_eq!(files[0].1, 1048576);
        },
        other => panic!("expected FileList, got {:?}", other),
    }

    let events = task.on_existing(&vec![false]);
    assert_eq!(events.len(), 1);
    match &events[0] {
        TransferProgress::Started { name, total_bytes, .. } => {
            assert_eq!(name, "f.bin");
            assert_eq!(*total_bytes, 1048576);
        },
        other => panic!("expected Started, got {:?}", other),
    }

    let step = task.next_entry(&vec![]);
    let target = match step {
        ExportStep::Export { index, target, overwrite } => {
            assert_eq!(index, 0);
            assert_eq!(target, "/out/f.bin");
            assert!(!overwrite);
            target
        },
        other => panic!("expected Export, got {:?}", other),
    };
    let _ = target;

    let (events, done) = task.on_export_item(ExportItem::Size(1048576), 0);
    assert!(events.is_empty());
    assert!(!done);
    let (events, done) = task.on_export_item(ExportItem::CopyProgress(524288), 500);
    assert!(!done);
    assert!(matches!(&events[0],
        TransferProgress::Progress { transferred_bytes: 524288, .. }));
    let (events, done) = task.on_export_item(ExportItem::Done, 900);
    assert!(events.is_empty());
    assert!(done);

    let step = task.next_entry(&vec![]);
    assert!(matches!(step, ExportStep::Finished));
    let events = task.finish(1234);
    assert_eq!(events.len(), 1);
    match &events[0] {
        TransferProgress::Completed { total_bytes, duration_millis, .. } => {
            assert_eq!(*total_bytes, 1048576);
            assert_eq!(*duration_millis, 1234);
        },
        other => panic!("expected Completed, got {:?}", other),
    }
}

#[test]
fn test_rename_on_conflict() {
    // The destination already holds f.bin; the user picks rename; the
    // file lands as "f (1).bin" and the original path is not written.
    let mut task = fresh("/out");
    let _ = task.on_connected(Some(true));
    let sizes = vec![64u64, 10u64];
    let _ = task.on_sizes(&sizes, u64::MAX);
    let _ = task.on_collection(vec!["f.bin".to_string()], &sizes);

    let events = task.on_existing(&vec![true]);
    match &events[0] {
        TransferProgress::FileConflicts { conflicts, total_bytes, .. } => {
            assert_eq!(conflicts.len(), 1);
            assert_eq!(conflicts[0].0, "f.bin");
            assert_eq!(conflicts[0].1, "/out/f.bin");
            assert_eq!(*total_bytes, 10);
        },
        other => panic!("expected FileConflicts, got {:?}", other),
    }

    let events = task.on_resolution(Some(ConflictResolution::Rename));
    assert!(matches!(&events[0], TransferProgress::Started { .. }));

    let occupied = vec!["/out/f.bin".to_string()];
    let step = task.next_entry(&occupied);
    match step {
        ExportStep::Export { target, overwrite, .. } => {
            assert_eq!(target, "/out/f (1).bin");
            assert!(!overwrite);
        },
        other => panic!("expected Export, got {:?}", other),
    }
}

#[test]
fn test_skip_on_conflict_multi_file() {
    // a.txt, b.txt, c.txt of one byte each; b.txt exists; skip leaves it
    // untouched and the reported total stays the payload size.
    let mut task = fresh("/dst");
    let _ = task.on_connected(Some(false));
    let sizes = vec![64u64, 1, 1, 1];
    let _ = task.on_sizes(&sizes, u64::MAX);
    let names = vec!["a.txt".to_string(), "b.txt".to_string(), "c.txt".to_string()];
    let _ = task.on_collection(names, &sizes);
    let _ = task.on_existing(&vec![false, true, false]);
    let events = task.on_resolution(Some(ConflictResolution::Skip));
    match &events[0] {
        TransferProgress::Started { total_bytes, name, .. } => {
            assert_eq!(*total_bytes, 3);
            assert_eq!(name, "3 files");
        },
        other => panic!("expected Started, got {:?}", other),
    }

    let occupied = vec!["/dst/b.txt".to_string()];
    let step = task.next_entry(&occupied);
    assert!(matches!(step, ExportStep::Export { index: 0, .. }));
    let (_, done) = task.on_export_item(ExportItem::Size(1), 0);
    assert!(!done);
    let (_, done) = task.on_export_item(ExportItem::Done, 1);
    assert!(done);

    // b.txt is skipped entirely.
    let step = task.next_entry(&occupied);
    assert!(matches!(step, ExportStep::SkipEntry));

    let step = task.next_entry(&occupied);
    assert!(matches!(step, ExportStep::Export { index: 2, .. }));
    let (_, done) = task.on_export_item(ExportItem::Done, 2);
    assert!(done);

    let step = task.next_entry(&occupied);
    assert!(matches!(step, ExportStep::Finished));
    let events = task.finish(10);
    assert!(matches!(&events[0], TransferProgress::Completed { total_bytes: 3, .. }));
}

#[test]
fn test_overwrite_deletes_first() {
    let mut task = fresh("/dst");
    let _ = task.on_connected(Some(false));
    let sizes = vec![64u64, 4];
    let _ = task.on_sizes(&sizes, u64::MAX);
    let _ = task.on_collection(vec!["x".to_string()], &sizes);
    let _ = task.on_existing(&vec![true]);
    let _ = task.on_resolution(Some(ConflictResolution::Overwrite));
    let step = task.next_entry(&vec!["/dst/x".to_string()]);
    match step {
        ExportStep::Export { target, overwrite, .. } => {
            assert_eq!(target, "/dst/x");
            assert!(overwrite);
        },
        other => panic!("expected Export, got {:?}", other),
    }
}

#[test]
fn test_cancel_mid_transfer_cleans_up() {
    // During progress the task is cancelled: the partial file is handed
    // back for deletion and exactly one Cancelled is emitted.
    let mut task = fresh("/out");
    let _ = task.on_connected(Some(false));
    let sizes = vec![64u64, 100];
    let _ = task.on_sizes(&sizes, u64::MAX);
    let _ = task.on_collection(vec!["p.bin".to_string()], &sizes);
    let _ = task.on_existing(&vec![false]);
    let _ = task.next_entry(&vec![]);
    let _ = task.on_export_item(ExportItem::CopyProgress(42), 10);

    let (cleanup, events) = task.cancel();
    assert_eq!(cleanup, vec!["/out/p.bin".to_string()]);
    assert_eq!(events.len(), 1);
    assert!(matches!(&events[0], TransferProgress::Cancelled { .. }));
}

#[test]
fn test_resolution_cancel_ends_task() {
    let mut task = fresh("/out");
    let _ = task.on_connected(Some(false));
    let sizes = vec![64u64, 10];
    let _ = task.on_sizes(&sizes, u64::MAX);
    let _ = task.on_collection(vec!["f".to_string()], &sizes);
    let _ = task.on_existing(&vec![true]);
    let events = task.on_resolution(Some(ConflictResolution::Cancel));
    assert_eq!(events.len(), 1);
    assert!(matches!(&events[0], TransferProgress::Cancelled { .. }));
}

#[test]
fn test_closed_resolver_ends_silently() {
    let mut task = fresh("/out");
    let _ = task.on_connected(Some(false));
    let sizes = vec![64u64, 10];
    let _ = task.on_sizes(&sizes, u64::MAX);
    let _ = task.on_collection(vec!["f".to_string()], &sizes);
    let _ = task.on_existing(&vec![true]);
    let events = task.on_resolution(None);
    assert!(events.is_empty());
}

#[test]
fn test_connect_failure_fails_task() {
    let (mut task, _) =
        ReceiveTask::new("r9".to_string(), "t".to_string(), "/out".to_string());
    let _ = task.on_endpoint_ready();
    let events = task.on_connect_failed("connection timed out after 30 seconds".to_string());
    assert_eq!(events.len(), 1);
    assert!(matches!(&events[0], TransferProgress::Failed { error, .. }
        if error.contains("timed out")));
}

#[test]
fn test_unknown_transport_reported_as_relay() {
    let mut task = fresh("/out");
    let events = task.on_connected(None);
    assert!(matches!(&events[0], TransferProgress::Connected { is_relay: true, .. }));
}

#[test]
fn test_export_error_fails_task() {
    let mut task = fresh("/out");
    let _ = task.on_connected(Some(false));
    let sizes = vec![64u64, 10];
    let _ = task.on_sizes(&sizes, u64::MAX);
    let _ = task.on_collection(vec!["f".to_string()], &sizes);
    let _ = task.on_existing(&vec![false]);
    let _ = task.next_entry(&vec![]);
    let (events, done) = task.on_export_item(ExportItem::Error("verify failed".to_string()), 5);
    assert!(done);
    assert_eq!(events.len(), 1);
    assert!(matches!(&events[0], TransferProgress::Failed { error, .. }
        if error == "error exporting f: verify failed"));
}
