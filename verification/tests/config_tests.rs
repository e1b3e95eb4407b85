//! Tests for configuration parsing, defaults, and the write/read round trip.

use tuit::config::Config;

#[test]
fn test_default_config() {
    let config = Config::default();
    assert!(config.persistence.history);
    assert_eq!(config.preferences.theme, "default");
    assert_eq!(config.preferences.key_preset, "arrows");
    assert_eq!(config.preferences.receive_dir, None);
    assert_eq!(config.transfer.max_concurrent_sends, 50);
    assert_eq!(config.transfer.max_concurrent_receives, 50);
}

#[test]
fn test_load_nonexistent_file() {
    let config = Config::load(None);
    assert!(config.persistence.history);
}

#[test]
fn test_load_invalid_toml() {
    let config = Config::from_toml("invalid toml content {{{{{{");
    assert!(config.persistence.history);
}

#[test]
fn test_save_and_load() {
    let mut config = Config::default();
    config.persistence.history = false;
    config.preferences.theme = "custom".to_string();
    config.transfer.max_concurrent_sends = 10;

    let toml_string = config.to_toml();
    let loaded = Config::from_toml(&toml_string);
    assert!(!loaded.persistence.history);
    assert_eq!(loaded.preferences.theme, "custom");
    assert_eq!(loaded.transfer.max_concurrent_sends, 10);
}

#[test]
fn test_partial_config() {
    let toml_str = r#"
        [persistence]
        history = false
    "#;

    let config = Config::from_toml(toml_str);
    assert!(!config.persistence.history);
    assert_eq!(config.preferences.theme, "default");
    assert_eq!(config.transfer.max_concurrent_sends, 50);
}

#[test]
fn test_empty_file_uses_defaults() {
    let config = Config::from_toml("");
    let default_config = Config::default();

    assert_eq!(config.persistence.history, default_config.persistence.history);
    assert_eq!(config.preferences.theme, default_config.preferences.theme);
    assert_eq!(config.preferences.key_preset, default_config.preferences.key_preset);
    assert_eq!(config.preferences.receive_dir, default_config.preferences.receive_dir);
    assert_eq!(
        config.transfer.max_concurrent_sends,
        default_config.transfer.max_concurrent_sends
    );
    assert_eq!(
        config.transfer.max_concurrent_receives,
        default_config.transfer.max_concurrent_receives
    );
}

#[test]
fn test_unknown_fields_ignored() {
    let toml_str = r#"
        [persistence]
        history = false
        future_feature = true

        [preferences]
        theme = "dark"

        [completely_unknown_section]
        some_field = "value"
    "#;

    let config = Config::from_toml(toml_str);
    assert!(!config.persistence.history);
    assert_eq!(config.preferences.theme, "dark");
    assert_eq!(config.preferences.key_preset, "arrows");
}

#[test]
fn test_type_mismatch_falls_back() {
    let config = Config::from_toml(
        r#"
        [persistence]
        history = "yes"
    "#,
    );
    assert!(config.persistence.history);
}

#[test]
fn test_nested_partial_config() {
    let toml_str = r#"
        [transfer]
        max_concurrent_sends = 100
        max_concurrent_receives = 75
    "#;

    let config = Config::from_toml(toml_str);
    assert_eq!(config.transfer.max_concurrent_sends, 100);
    assert_eq!(config.transfer.max_concurrent_receives, 75);
    assert!(config.persistence.history);
    assert_eq!(config.preferences.theme, "default");
}

#[test]
fn test_path_with_special_chars() {
    let toml_str = r#"
        [preferences]
        receive_dir = "/home/user/My Documents/downloads"
    "#;

    let config = Config::from_toml(toml_str);
    assert_eq!(
        config.preferences.receive_dir,
        Some("/home/user/My Documents/downloads".to_string())
    );
}

#[test]
fn test_default_round_trip() {
    let config = Config::default();
    let text = config.to_toml();
    let back = Config::from_toml(&text);
    assert_eq!(back, config);
}

#[test]
fn test_full_round_trip() {
    let mut config = Config::default();
    config.persistence.history = false;
    config.preferences.theme = "Gruvbox Dark".to_string();
    config.preferences.key_preset = "emacs".to_string();
    config.preferences.receive_dir = Some("/tmp/incoming files".to_string());
    config.transfer.max_concurrent_sends = 3;
    config.transfer.max_concurrent_receives = 7;

    let text = config.to_toml();
    let back = Config::from_toml(&text);
    assert_eq!(back, config);
}

#[test]
fn test_serialized_shape() {
    let text = Config::default().to_toml();
    assert!(text.starts_with("[persistence]\nhistory = true\n"));
    assert!(text.contains("[preferences]\ntheme = \"default\"\nkey_preset = \"arrows\"\n"));
    assert!(text.contains("[transfer]\nmax_concurrent_sends = 50\nmax_concurrent_receives = 50\n"));
    assert!(text.ends_with("\n"));
}

#[test]
fn test_unknown_key_with_unreadable_value_ignored() {
    // A value form the file format cannot read is fine under a key it
    // does not know; the known settings still apply.
    let toml_str = r#"
        [transfer]
        future_list = [1, 2, 3]
        max_concurrent_sends = 9
    "#;
    let config = Config::from_toml(toml_str);
    assert_eq!(config.transfer.max_concurrent_sends, 9);
    assert!(config.persistence.history);
}

#[test]
fn test_comment_after_value() {
    let toml_str = r#"
        [persistence]
        history = false # keep the disk clean
        [transfer]
        max_concurrent_sends = 4 # plenty
        [preferences]
        theme = "dark" # night shift
    "#;
    let config = Config::from_toml(toml_str);
    assert!(!config.persistence.history);
    assert_eq!(config.transfer.max_concurrent_sends, 4);
    assert_eq!(config.preferences.theme, "dark");
}

#[test]
fn test_hash_inside_quoted_value_kept() {
    let toml_str = r#"
        [preferences]
        theme = "a#b"
    "#;
    let config = Config::from_toml(toml_str);
    assert_eq!(config.preferences.theme, "a#b");
}
