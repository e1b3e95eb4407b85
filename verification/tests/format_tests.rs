//! Tests for human-readable formatting and the default download directory.

use tuit::format::{base64_encode, format_bytes, format_eta, format_speed, truncate, truncate_padded};
use tuit::ui_model::download_dir;

#[test]
fn test_format_bytes_values() {
    assert_eq!(format_bytes(0), "0 B");
    assert_eq!(format_bytes(512), "512 B");
    assert_eq!(format_bytes(1024), "1.0 KB");
    assert_eq!(format_bytes(1536), "1.5 KB");
    assert_eq!(format_bytes(1048576), "1.0 MB");
    assert_eq!(format_bytes(1572864), "1.5 MB");
    assert_eq!(format_bytes(1073741824), "1.0 GB");
    assert_eq!(format_bytes(2684354560), "2.5 GB");
}

#[test]
fn test_format_eta_values() {
    assert_eq!(format_eta(0), "0:00");
    assert_eq!(format_eta(59), "0:59");
    assert_eq!(format_eta(60), "1:00");
    assert_eq!(format_eta(125), "2:05");
    assert_eq!(format_eta(3599), "59:59");
    assert_eq!(format_eta(3600), "1:00:00");
    assert_eq!(format_eta(3725), "1:02:05");
}

#[test]
fn test_format_speed_zero() {
    assert_eq!(format_speed(0), "0 B/s");
}

#[test]
fn test_format_speed_nonzero() {
    let s = format_speed(2048);
    assert!(s.ends_with("/s"));
    assert!(s.contains("KiB") || s.contains("2"));
}

#[test]
fn test_truncate_values() {
    assert_eq!(truncate("short", 10), "short");
    assert_eq!(truncate("exactly10!", 10), "exactly10!");
    assert_eq!(truncate("a much longer text", 8), "a much …");
}

#[test]
fn test_download_dir() {
    assert_eq!(download_dir(Some("/home/u")), Some("/home/u/Downloads".to_string()));
    assert_eq!(download_dir(None), None);
}

#[test]
fn test_base64_encode_known_values() {
    assert_eq!(base64_encode(b""), "");
    assert_eq!(base64_encode(b"f"), "Zg==");
    assert_eq!(base64_encode(b"fo"), "Zm8=");
    assert_eq!(base64_encode(b"foo"), "Zm9v");
    assert_eq!(base64_encode(b"foob"), "Zm9vYg==");
    assert_eq!(base64_encode(b"hello"), "aGVsbG8=");
}

#[test]
fn test_truncate_padded_values() {
    assert_eq!(truncate_padded("ab", 5), "ab   ");
    assert_eq!(truncate_padded("exact", 5), "exact");
    assert_eq!(truncate_padded("overflowing", 5), "over…");
}
