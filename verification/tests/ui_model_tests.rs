//! Tests for tabs, statuses, and per-transfer arithmetic.

use tuit::events::ConflictResolution;
use tuit::ui_model::{
    ConnectionStatus, Mode, Transfer, TransferDirection, TransferFile, TransferStatus,
};

fn test_transfer(total: u64, transferred: u64, speed: u64) -> Transfer {
    Transfer {
        id: "test".to_string(),
        direction: TransferDirection::Upload,
        name: "test.txt".to_string(),
        total_bytes: total,
        transferred_bytes: transferred,
        speed_bps: speed,
        status: TransferStatus::Active,
        ticket: None,
        connection: ConnectionStatus::P2P,
        error_message: None,
        conflict_resolution: None,
        duration_millis: None,
        files: vec![],
        additional_file_count: 0,
        source_paths: None,
    }
}

#[test]
fn test_mode_all_has_four() {
    assert_eq!(Mode::all().len(), 4);
}

#[test]
fn test_mode_all_contains_all_variants() {
    assert_eq!(Mode::all()[0], Mode::Send);
    assert_eq!(Mode::all()[1], Mode::Receive);
    assert_eq!(Mode::all()[2], Mode::Active);
    assert_eq!(Mode::all()[3], Mode::History);
}

#[test]
fn test_mode_labels_non_empty() {
    for mode in Mode::all().iter() {
        assert!(!mode.label().is_empty());
    }
}

#[test]
fn test_mode_labels_correct() {
    assert_eq!(Mode::Send.label(), "Send");
    assert_eq!(Mode::Receive.label(), "Receive");
    assert_eq!(Mode::Active.label(), "Active");
    assert_eq!(Mode::History.label(), "History");
}

#[test]
fn test_mode_index_unique() {
    let indices: Vec<usize> = Mode::all().iter().map(|m| m.index()).collect();
    assert_eq!(indices, vec![0, 1, 2, 3]);
}

#[test]
fn test_mode_index_values() {
    assert_eq!(Mode::Send.index(), 0);
    assert_eq!(Mode::Receive.index(), 1);
    assert_eq!(Mode::Active.index(), 2);
    assert_eq!(Mode::History.index(), 3);
}

#[test]
fn test_mode_from_index_valid() {
    assert_eq!(Mode::from_index(0), Mode::Send);
    assert_eq!(Mode::from_index(1), Mode::Receive);
    assert_eq!(Mode::from_index(2), Mode::Active);
    assert_eq!(Mode::from_index(3), Mode::History);
}

#[test]
fn test_mode_from_index_wraps() {
    assert_eq!(Mode::from_index(4), Mode::Send);
    assert_eq!(Mode::from_index(5), Mode::Receive);
    assert_eq!(Mode::from_index(100), Mode::Send);
    assert_eq!(Mode::from_index(101), Mode::Receive);
}

#[test]
fn test_mode_next_cycles() {
    assert_eq!(Mode::Send.next(), Mode::Receive);
    assert_eq!(Mode::Receive.next(), Mode::Active);
    assert_eq!(Mode::Active.next(), Mode::History);
    assert_eq!(Mode::History.next(), Mode::Send);
}

#[test]
fn test_mode_prev_cycles() {
    assert_eq!(Mode::Send.prev(), Mode::History);
    assert_eq!(Mode::History.prev(), Mode::Active);
    assert_eq!(Mode::Active.prev(), Mode::Receive);
    assert_eq!(Mode::Receive.prev(), Mode::Send);
}

#[test]
fn test_mode_next_prev_roundtrip() {
    for mode in Mode::all().iter() {
        assert_eq!(mode.next().prev(), *mode);
        assert_eq!(mode.prev().next(), *mode);
    }
}

#[test]
fn test_connection_status_labels() {
    assert!(!ConnectionStatus::Ready.label().is_empty());
    assert!(!ConnectionStatus::Connecting.label().is_empty());
    assert!(!ConnectionStatus::P2P.label().is_empty());
    assert!(!ConnectionStatus::Relay.label().is_empty());
}

#[test]
fn test_connection_status_labels_correct() {
    assert_eq!(ConnectionStatus::Ready.label(), "Ready");
    assert_eq!(ConnectionStatus::Connecting.label(), "Connecting");
    assert_eq!(ConnectionStatus::P2P.label(), "P2P");
    assert_eq!(ConnectionStatus::Relay.label(), "Relay");
}

#[test]
fn test_connection_status_symbols() {
    assert!(!ConnectionStatus::Ready.symbol().is_empty());
    assert!(!ConnectionStatus::Connecting.symbol().is_empty());
    assert!(!ConnectionStatus::P2P.symbol().is_empty());
    assert!(!ConnectionStatus::Relay.symbol().is_empty());
}

#[test]
fn test_connection_status_symbols_correct() {
    assert_eq!(ConnectionStatus::Ready.symbol(), "○");
    assert_eq!(ConnectionStatus::Connecting.symbol(), "◐");
    assert_eq!(ConnectionStatus::P2P.symbol(), "●");
    assert_eq!(ConnectionStatus::Relay.symbol(), "◑");
}

#[test]
fn test_connection_status_symbols_unique() {
    let symbols = [
        ConnectionStatus::Ready.symbol(),
        ConnectionStatus::Connecting.symbol(),
        ConnectionStatus::P2P.symbol(),
        ConnectionStatus::Relay.symbol(),
    ];
    let unique_count = symbols.iter().collect::<std::collections::HashSet<_>>().len();
    assert_eq!(unique_count, 4);
}

#[test]
fn test_transfer_status_symbols() {
    assert!(!TransferStatus::Preparing.symbol().is_empty());
    assert!(!TransferStatus::Connecting.symbol().is_empty());
    assert!(!TransferStatus::Active.symbol().is_empty());
    assert!(!TransferStatus::Paused.symbol().is_empty());
    assert!(!TransferStatus::Stalled.symbol().is_empty());
    assert!(!TransferStatus::Queued.symbol().is_empty());
    assert!(!TransferStatus::Failed.symbol().is_empty());
    assert!(!TransferStatus::Complete.symbol().is_empty());
}

#[test]
fn test_transfer_status_symbols_correct() {
    assert_eq!(TransferStatus::Preparing.symbol(), "...");
    assert_eq!(TransferStatus::Connecting.symbol(), "◐");
    assert_eq!(TransferStatus::Active.symbol(), ">");
    assert_eq!(TransferStatus::Paused.symbol(), "||");
    assert_eq!(TransferStatus::Stalled.symbol(), "!");
    assert_eq!(TransferStatus::Queued.symbol(), "~");
    assert_eq!(TransferStatus::Failed.symbol(), "x");
    assert_eq!(TransferStatus::Complete.symbol(), "*");
}

#[test]
fn test_transfer_status_symbols_unique() {
    let symbols = [
        TransferStatus::Preparing.symbol(),
        TransferStatus::Connecting.symbol(),
        TransferStatus::Active.symbol(),
        TransferStatus::Paused.symbol(),
        TransferStatus::Stalled.symbol(),
        TransferStatus::Queued.symbol(),
        TransferStatus::Failed.symbol(),
        TransferStatus::Complete.symbol(),
    ];
    let unique_count = symbols.iter().collect::<std::collections::HashSet<_>>().len();
    assert_eq!(unique_count, 8);
}

#[test]
fn test_transfer_status_labels() {
    assert!(!TransferStatus::Preparing.label().is_empty());
    assert!(!TransferStatus::Connecting.label().is_empty());
    assert_eq!(TransferStatus::Active.label(), "");
    assert!(!TransferStatus::Paused.label().is_empty());
    assert!(!TransferStatus::Stalled.label().is_empty());
    assert!(!TransferStatus::Queued.label().is_empty());
    assert!(!TransferStatus::Failed.label().is_empty());
    assert!(!TransferStatus::Complete.label().is_empty());
}

#[test]
fn test_transfer_status_labels_correct() {
    assert_eq!(TransferStatus::Preparing.label(), "PREPARING");
    assert_eq!(TransferStatus::Connecting.label(), "WAITING");
    assert_eq!(TransferStatus::Active.label(), "");
    assert_eq!(TransferStatus::Paused.label(), "PAUSED");
    assert_eq!(TransferStatus::Stalled.label(), "STALLED");
    assert_eq!(TransferStatus::Queued.label(), "QUEUED");
    assert_eq!(TransferStatus::Failed.label(), "FAILED");
    assert_eq!(TransferStatus::Complete.label(), "DONE");
}

#[test]
fn test_mode_enum_default() {
    assert_eq!(Mode::default(), Mode::Send);
}

#[test]
fn test_connection_status_default() {
    assert_eq!(ConnectionStatus::default(), ConnectionStatus::Ready);
}

#[test]
fn test_transfer_eta_zero_speed() {
    let transfer = test_transfer(1000, 0, 0);
    assert_eq!(transfer.eta_seconds(), None);
}

#[test]
fn test_transfer_eta_calculation() {
    let transfer = test_transfer(1000, 0, 100);
    assert_eq!(transfer.eta_seconds(), Some(10));
}

#[test]
fn test_transfer_eta_partial_complete() {
    let transfer = test_transfer(1000, 500, 100);
    assert_eq!(transfer.eta_seconds(), Some(5));
}

#[test]
fn test_transfer_eta_complete() {
    let transfer = test_transfer(1000, 1000, 100);
    assert_eq!(transfer.eta_seconds(), Some(0));
}

#[test]
fn test_transfer_eta_various_speeds() {
    let transfer = test_transfer(10000, 0, 1000);
    assert_eq!(transfer.eta_seconds(), Some(10));

    let transfer = test_transfer(5000, 1000, 500);
    assert_eq!(transfer.eta_seconds(), Some(8));
}

#[test]
fn test_transfer_remaining_zero() {
    let transfer = test_transfer(1000, 1000, 0);
    assert_eq!(transfer.remaining_bytes(), 0);
}

#[test]
fn test_transfer_remaining_all() {
    let transfer = test_transfer(1000, 0, 0);
    assert_eq!(transfer.remaining_bytes(), 1000);
}

#[test]
fn test_transfer_remaining_partial() {
    let transfer = test_transfer(1000, 400, 0);
    assert_eq!(transfer.remaining_bytes(), 600);
}

#[test]
fn test_transfer_remaining_saturates() {
    let transfer = test_transfer(1000, 1500, 0);
    assert_eq!(transfer.remaining_bytes(), 0);
}

#[test]
fn test_transfer_remaining_large_values() {
    let transfer = test_transfer(u64::MAX, 0, 0);
    assert_eq!(transfer.remaining_bytes(), u64::MAX);

    let transfer = test_transfer(u64::MAX, u64::MAX / 2, 0);
    assert_eq!(transfer.remaining_bytes(), u64::MAX / 2 + 1);
}

#[test]
fn test_transfer_set_files_under_max() {
    let mut transfer = test_transfer(0, 0, 0);
    let files = vec![
        TransferFile { name: "file1.txt".to_string(), size: 100 },
        TransferFile { name: "file2.txt".to_string(), size: 200 },
    ];

    transfer.set_files(files);
    assert_eq!(transfer.files.len(), 2);
    assert_eq!(transfer.additional_file_count, 0);
    assert_eq!(transfer.total_file_count(), 2);
}

#[test]
fn test_transfer_set_files_at_max() {
    let mut transfer = test_transfer(0, 0, 0);
    let files: Vec<TransferFile> = (0..15)
        .map(|i| TransferFile { name: format!("file{}.txt", i), size: 100 })
        .collect();

    transfer.set_files(files);
    assert_eq!(transfer.files.len(), 15);
    assert_eq!(transfer.additional_file_count, 0);
    assert_eq!(transfer.total_file_count(), 15);
}

#[test]
fn test_transfer_set_files_over_max() {
    let mut transfer = test_transfer(0, 0, 0);
    let files: Vec<TransferFile> = (0..20)
        .map(|i| TransferFile { name: format!("file{}.txt", i), size: 100 })
        .collect();

    transfer.set_files(files);
    assert_eq!(transfer.files.len(), 15);
    assert_eq!(transfer.additional_file_count, 5);
    assert_eq!(transfer.total_file_count(), 20);
}

#[test]
fn test_transfer_set_files_way_over_max() {
    let mut transfer = test_transfer(0, 0, 0);
    let files: Vec<TransferFile> = (0..100)
        .map(|i| TransferFile { name: format!("file{}.txt", i), size: 100 })
        .collect();

    transfer.set_files(files);
    assert_eq!(transfer.files.len(), 15);
    assert_eq!(transfer.additional_file_count, 85);
    assert_eq!(transfer.total_file_count(), 100);
}

#[test]
fn test_transfer_set_files_empty() {
    let mut transfer = test_transfer(0, 0, 0);
    transfer.set_files(vec![]);
    assert_eq!(transfer.files.len(), 0);
    assert_eq!(transfer.additional_file_count, 0);
    assert_eq!(transfer.total_file_count(), 0);
}

#[test]
fn test_conflict_resolution_variants() {
    let _ = ConflictResolution::Rename;
    let _ = ConflictResolution::Overwrite;
    let _ = ConflictResolution::Skip;
    let _ = ConflictResolution::Cancel;
}
