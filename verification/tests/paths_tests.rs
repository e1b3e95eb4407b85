//! Tests for path sanitization, export paths, renaming, and the sender's
//! name normalization.

use tuit::paths::{
    canonicalized_path_to_string, export_path, find_available_name, sanitize_name, PathError,
};
use tuit::tree::{FileNode, NodeId};

#[test]
fn test_sanitize_simple_name() {
    let parts = sanitize_name("dir/file.txt").unwrap();
    assert_eq!(parts, vec!["dir".to_string(), "file.txt".to_string()]);
}

#[test]
fn test_sanitize_rejects_parent() {
    assert_eq!(sanitize_name("../evil"), Err(PathError::Traversal));
    assert_eq!(sanitize_name("a/../b"), Err(PathError::Traversal));
    assert_eq!(sanitize_name("."), Err(PathError::Traversal));
}

#[test]
fn test_sanitize_rejects_empty_component() {
    assert_eq!(sanitize_name(""), Err(PathError::EmptyComponent));
    assert_eq!(sanitize_name("a//b"), Err(PathError::EmptyComponent));
    assert_eq!(sanitize_name("/a"), Err(PathError::EmptyComponent));
    assert_eq!(sanitize_name("a/"), Err(PathError::EmptyComponent));
}

#[test]
fn test_sanitize_rejects_backslash() {
    assert_eq!(sanitize_name("a\\b"), Err(PathError::SeparatorInComponent));
}

#[test]
fn test_sanitize_resanitizes_to_itself() {
    // Each component of a sanitized name sanitizes to itself again.
    let parts = sanitize_name("photos/2024/trip.jpg").unwrap();
    for part in parts {
        let again = sanitize_name(&part).unwrap();
        assert_eq!(again, vec![part]);
    }
}

#[test]
fn test_export_path_stays_inside() {
    let p = export_path("/downloads", "a/b.txt").unwrap();
    assert_eq!(p, "/downloads/a/b.txt");
    assert!(p.starts_with("/downloads/"));
    assert!(export_path("/downloads", "../escape").is_err());
}

#[test]
fn test_find_available_name_free() {
    let r = find_available_name("f.bin", &vec![]);
    assert_eq!(r, "f.bin");
}

#[test]
fn test_find_available_name_renames() {
    let taken = vec!["f.bin".to_string()];
    assert_eq!(find_available_name("f.bin", &taken), "f (1).bin");

    let taken = vec!["f.bin".to_string(), "f (1).bin".to_string(), "f (2).bin".to_string()];
    assert_eq!(find_available_name("f.bin", &taken), "f (3).bin");
}

#[test]
fn test_find_available_name_without_extension() {
    let taken = vec!["notes".to_string()];
    assert_eq!(find_available_name("notes", &taken), "notes (1)");
}

#[test]
fn test_find_available_name_keeps_directory_dots() {
    // A dot in a directory name does not start an extension.
    let taken = vec!["/out/v1.2/readme".to_string()];
    assert_eq!(find_available_name("/out/v1.2/readme", &taken), "/out/v1.2/readme (1)");
}

#[test]
fn test_canonicalize_plain_relative() {
    assert_eq!(canonicalized_path_to_string("a/b/c", true).unwrap(), "a/b/c");
}

#[test]
fn test_canonicalize_drops_dot_and_doubled_slashes() {
    assert_eq!(canonicalized_path_to_string("a/./b", true).unwrap(), "a/b");
    assert_eq!(canonicalized_path_to_string("a//b/", true).unwrap(), "a/b");
}

#[test]
fn test_canonicalize_rejects_parent_dir() {
    assert_eq!(
        canonicalized_path_to_string("a/../b", true),
        Err(PathError::Traversal)
    );
}

#[test]
fn test_canonicalize_rejects_absolute_when_relative_required() {
    assert_eq!(
        canonicalized_path_to_string("/abs/path", true),
        Err(PathError::AbsoluteNotAllowed)
    );
    assert_eq!(canonicalized_path_to_string("/abs/path", false).unwrap(), "/abs/path");
}

#[test]
fn test_canonicalize_rejects_backslash_component() {
    assert_eq!(
        canonicalized_path_to_string("a\\b/c", true),
        Err(PathError::SeparatorInComponent)
    );
}

#[test]
fn test_path_error_messages() {
    assert_eq!(PathError::EmptyComponent.message(), "empty path component");
    assert_eq!(PathError::Traversal.message(), "path traversal attempt");
    assert_eq!(PathError::SeparatorInComponent.message(), "path separator in component");
    assert_eq!(PathError::AbsoluteNotAllowed.message(), "absolute path not allowed");
}

#[test]
fn test_node_id_display() {
    let node_id = NodeId("/test/path".to_string());
    let display = node_id.display_text();
    assert!(display.contains("test"));
}

#[test]
fn test_file_node_names() {
    let n = FileNode::new("/home/user/notes.txt".to_string(), false);
    assert_eq!(n.name, "notes.txt");
    assert!(!n.is_dir);
    assert!(n.children.is_empty());
    assert!(!n.expanded);

    let d = FileNode::new("/home/user/docs/".to_string(), true);
    assert_eq!(d.name, "docs");

    let root = FileNode::new("/".to_string(), true);
    assert_eq!(root.name, "/");
}

#[test]
fn test_file_node_find() {
    let mut root = FileNode::new("/r".to_string(), true);
    let mut a = FileNode::new("/r/a".to_string(), true);
    a.children.push(FileNode::new("/r/a/x".to_string(), false));
    root.children.push(a);
    root.children.push(FileNode::new("/r/b".to_string(), false));

    assert!(root.find(&"/r".to_string()).is_some());
    assert_eq!(root.find(&"/r/a/x".to_string()).unwrap().path, "/r/a/x");
    assert_eq!(root.find(&"/r/b".to_string()).unwrap().path, "/r/b");
    assert!(root.find(&"/r/c".to_string()).is_none());
}

#[test]
fn test_file_node_find_mut_first_preorder() {
    // Two nodes share a path: the pre-order first (root before children,
    // children left to right) is found, and can be edited in place.
    let mut root = FileNode::new("/r".to_string(), true);
    let mut a = FileNode::new("/r/a".to_string(), true);
    a.children.push(FileNode::new("/r/dup".to_string(), false));
    root.children.push(a);
    root.children.push(FileNode::new("/r/dup".to_string(), false));

    let found = root.find_mut(&"/r/dup".to_string()).unwrap();
    found.expanded = true;
    assert!(root.children[0].children[0].expanded);
    assert!(!root.children[1].expanded);
    assert!(root.find_mut(&"/r/none".to_string()).is_none());
}
