//! Tests for the speed tracker, limits, and event types.

use tuit::events::{TransferCommand, TransferLimits, TransferProgress};
use tuit::speed::SpeedTracker;

#[test]
fn test_speed_tracker_empty() {
    let tracker = SpeedTracker::new(5000);
    assert_eq!(tracker.speed_bps(), 0);
}

#[test]
fn test_speed_tracker_single_sample() {
    let mut tracker = SpeedTracker::new(5000);
    tracker.add_sample(1000);
    assert_eq!(tracker.speed_bps(), 0);
}

#[test]
fn test_speed_tracker_two_samples() {
    let mut tracker = SpeedTracker::new(5000);
    tracker.add_sample_at(0, 0);
    tracker.add_sample_at(200, 2000);

    let speed = tracker.speed_bps();
    assert!(speed > 5000 && speed < 15000, "speed {} not in expected range", speed);
}

#[test]
fn test_speed_tracker_default_window() {
    let tracker = SpeedTracker::default_window();
    assert_eq!(tracker.window_ms, 5000);
}

#[test]
fn test_speed_tracker_zero_duration_protection() {
    let mut tracker = SpeedTracker::new(5000);
    tracker.add_sample(0);
    tracker.add_sample(10000);
    assert_eq!(tracker.speed_bps(), 0);
}

#[test]
fn test_speed_tracker_eviction() {
    let mut tracker = SpeedTracker::new(5000);
    tracker.add_sample_at(0, 100);
    tracker.add_sample_at(10000, 200);
    // The first sample fell out of the five-second window; one remains.
    assert_eq!(tracker.speed_bps(), 0);
    tracker.add_sample_at(11000, 2200);
    // 2000 bytes over one second.
    assert_eq!(tracker.speed_bps(), 2000);
}

#[test]
fn test_transfer_limits_default() {
    let limits = TransferLimits::default();
    assert_eq!(limits.max_concurrent_sends, 50);
    assert_eq!(limits.max_concurrent_receives, 50);
}

#[test]
fn test_transfer_progress_variants() {
    let id = "test".to_string();

    let _ = TransferProgress::Preparing { id: id.clone(), status: "Importing...".into() };
    let _ = TransferProgress::Connecting { id: id.clone() };
    let _ = TransferProgress::Connected { id: id.clone(), is_relay: false };
    let _ = TransferProgress::Started { id: id.clone(), name: "test".into(), total_bytes: 100 };
    let _ = TransferProgress::Progress { id: id.clone(), transferred_bytes: 50, speed_bps: 100 };
    let _ = TransferProgress::TicketReady { id: id.clone(), ticket: "ticket".into() };
    let _ = TransferProgress::Completed { id: id.clone(), total_bytes: 100, duration_millis: 1000 };
    let _ = TransferProgress::Failed { id: id.clone(), error: "error".into() };
    let _ = TransferProgress::Cancelled { id: id.clone() };
    let _ = TransferProgress::Queued { id: id.clone(), position: 1 };
    let _ = TransferProgress::FileList { id: id.clone(), files: vec![("file".into(), 100)] };
}

#[test]
fn test_transfer_command_variants() {
    let _ = TransferCommand::Send { id: "test".into(), paths: vec![], follow_symlinks: false };
    let _ = TransferCommand::Cancel { id: "test".into() };
    let _ = TransferCommand::Shutdown;
    let _ = TransferCommand::ResolveConflict {
        id: "test".into(),
        resolution: tuit::events::ConflictResolution::Skip,
    };
}
