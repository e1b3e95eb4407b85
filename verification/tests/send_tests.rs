//! Scenario tests for the send task.

use tuit::events::TransferProgress;
use tuit::send::{assemble_collection, send_label, ImportedFile, SendOptions, SendTask};

fn file(name: &str, size: u64, tag: usize) -> ImportedFile {
    ImportedFile { name: name.to_string(), size, tag }
}

#[test]
fn test_assemble_sorts_by_name() {
    let files = vec![file("c.txt", 3, 0), file("a.txt", 1, 1), file("b.txt", 2, 2)];
    let (sorted, total) = assemble_collection(files);
    let names: Vec<&str> = sorted.iter().map(|f| f.name.as_str()).collect();
    assert_eq!(names, vec!["a.txt", "b.txt", "c.txt"]);
    let tags: Vec<usize> = sorted.iter().map(|f| f.tag).collect();
    assert_eq!(tags, vec![1, 2, 0]);
    assert_eq!(total, 6);
}

#[test]
fn test_assemble_keeps_every_file() {
    let files = vec![file("x", 10, 0), file("x", 20, 1)];
    let (sorted, total) = assemble_collection(files);
    assert_eq!(sorted.len(), 2);
    assert_eq!(total, 30);
}

#[test]
fn test_send_label_single_path() {
    assert_eq!(send_label(&vec!["/home/u/report.pdf".to_string()]), "report.pdf");
    assert_eq!(send_label(&vec!["/home/u/dir/".to_string()]), "dir");
    assert_eq!(send_label(&vec!["/".to_string()]), "files");
}

#[test]
fn test_send_label_many_paths() {
    assert_eq!(
        send_label(&vec!["/a".to_string(), "/b".to_string(), "/c".to_string()]),
        "3 items"
    );
}

#[test]
fn test_send_happy_path_events() {
    let (mut task, events) = SendTask::new(
        "s1".to_string(),
        vec!["/home/u/f.bin".to_string()],
        SendOptions::default(),
    );
    assert!(matches!(&events[0], TransferProgress::Preparing { status, .. }
        if status == "Importing files..."));

    let events = task.on_imported(vec![file("f.bin", 1048576, 0)]);
    assert!(matches!(&events[0], TransferProgress::Preparing { status, .. }
        if status == "Creating endpoint..."));
    assert_eq!(task.total_size, 1048576);
    assert_eq!(task.expected_blobs, 2);

    let events = task.on_endpoint_ready();
    assert!(matches!(&events[0], TransferProgress::Preparing { status, .. }
        if status == "Joining relay network..."));

    let events = task.on_ticket("blob-ticket-text".to_string());
    assert_eq!(events.len(), 3);
    assert!(matches!(&events[0], TransferProgress::TicketReady { ticket, .. }
        if ticket == "blob-ticket-text"));
    assert!(matches!(&events[1], TransferProgress::Started { name, total_bytes, .. }
        if name == "f.bin" && *total_bytes == 1048576));
    assert!(matches!(&events[2], TransferProgress::Connecting { .. }));

    let events = task.on_client_connected();
    assert_eq!(events.len(), 1);
    assert!(matches!(&events[0], TransferProgress::Connected { is_relay: false, .. }));
    // The connection is reported once only.
    let events = task.on_client_connected();
    assert!(events.is_empty());

    // Metadata blob and payload blob complete.
    let (events, done) = task.on_blob_progress(0, 64, true, 0);
    assert!(!done);
    assert!(matches!(&events[0], TransferProgress::Progress { transferred_bytes: 64, .. }));
    let (events, done) = task.on_blob_progress(1, 524288, false, 100);
    assert!(!done);
    assert!(matches!(&events[0],
        TransferProgress::Progress { transferred_bytes: 524352, .. }));
    let (_events, done) = task.on_blob_progress(1, 1048576, true, 200);
    assert!(done);

    let events = task.finish(2000);
    assert!(matches!(&events[0],
        TransferProgress::Completed { total_bytes: 1048576, duration_millis: 2000, .. }));
}

#[test]
fn test_blob_progress_replaces_offsets() {
    let (mut task, _) =
        SendTask::new("s2".to_string(), vec!["/x".to_string()], SendOptions::default());
    let _ = task.on_imported(vec![file("x", 100, 0)]);
    let _ = task.on_endpoint_ready();
    let _ = task.on_ticket("t".to_string());
    let _ = task.on_client_connected();
    let (_, _) = task.on_blob_progress(1, 10, false, 0);
    let (events, _) = task.on_blob_progress(1, 30, false, 10);
    // The newer offset replaces the older one instead of adding to it.
    assert!(matches!(&events[0], TransferProgress::Progress { transferred_bytes: 30, .. }));
}

#[test]
fn test_connection_closed_rules() {
    let (mut task, _) =
        SendTask::new("s3".to_string(), vec!["/x".to_string()], SendOptions::default());
    let _ = task.on_imported(vec![file("x", 100, 0)]);
    let _ = task.on_endpoint_ready();
    let _ = task.on_ticket("t".to_string());
    // No client ever connected and nothing finished: keep serving.
    assert!(!task.on_connection_closed());
    let _ = task.on_client_connected();
    // A client had connected: a closed connection ends the task.
    assert!(task.on_connection_closed());
}

#[test]
fn test_send_cancel() {
    let (mut task, _) =
        SendTask::new("s4".to_string(), vec!["/x".to_string()], SendOptions::default());
    let events = task.cancel();
    assert_eq!(events.len(), 1);
    assert!(matches!(&events[0], TransferProgress::Cancelled { .. }));
}

#[test]
fn test_send_failure_is_terminal() {
    let (mut task, _) =
        SendTask::new("s5".to_string(), vec!["/gone".to_string()], SendOptions::default());
    let events = task.fail("cannot read /gone: no such file".to_string());
    assert_eq!(events.len(), 1);
    assert!(matches!(&events[0], TransferProgress::Failed { error, .. }
        if error.contains("cannot read")));
}

#[test]
fn test_send_label_dot_components() {
    // A path ending in `..` names no file; trailing `.` is skipped.
    assert_eq!(send_label(&vec!["/home/u/..".to_string()]), "files");
    assert_eq!(send_label(&vec!["/home/u/.".to_string()]), "u");
}
