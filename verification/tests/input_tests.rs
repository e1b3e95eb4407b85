//! Tests for key presets.

use tuit::input::{KeyCode, KeyInput, KeyPreset};

fn key(code: KeyCode) -> KeyInput {
    KeyInput { code, ctrl: false }
}

fn key_ctrl(c: char) -> KeyInput {
    KeyInput { code: KeyCode::Char(c), ctrl: true }
}

#[test]
fn test_vim_hjkl_mapping() {
    let preset = KeyPreset::Vim;
    assert!(preset.is_down(&key(KeyCode::Char('j'))));
    assert!(preset.is_up(&key(KeyCode::Char('k'))));
    assert!(preset.is_left(&key(KeyCode::Char('h'))));
    assert!(preset.is_right(&key(KeyCode::Char('l'))));
}

#[test]
fn test_vim_arrow_keys_also_work() {
    let preset = KeyPreset::Vim;
    assert!(preset.is_up(&key(KeyCode::Up)));
    assert!(preset.is_down(&key(KeyCode::Down)));
    assert!(preset.is_left(&key(KeyCode::Left)));
    assert!(preset.is_right(&key(KeyCode::Right)));
}

#[test]
fn test_arrows_preset_ignores_letters() {
    let preset = KeyPreset::Arrows;
    assert!(!preset.is_down(&key(KeyCode::Char('j'))));
    assert!(!preset.is_up(&key(KeyCode::Char('k'))));
    assert!(!preset.is_left(&key(KeyCode::Char('h'))));
    assert!(!preset.is_right(&key(KeyCode::Char('l'))));

    assert!(preset.is_down(&key(KeyCode::Down)));
    assert!(preset.is_up(&key(KeyCode::Up)));
}

#[test]
fn test_emacs_requires_ctrl() {
    let preset = KeyPreset::Emacs;
    assert!(!preset.is_down(&key(KeyCode::Char('n'))));
    assert!(!preset.is_up(&key(KeyCode::Char('p'))));
    assert!(!preset.is_right(&key(KeyCode::Char('f'))));
    assert!(!preset.is_left(&key(KeyCode::Char('b'))));
}

#[test]
fn test_emacs_ctrl_npfb() {
    let preset = KeyPreset::Emacs;
    assert!(preset.is_down(&key_ctrl('n')));
    assert!(preset.is_up(&key_ctrl('p')));
    assert!(preset.is_right(&key_ctrl('f')));
    assert!(preset.is_left(&key_ctrl('b')));
}

#[test]
fn test_backspace_is_left_all_presets() {
    let backspace = key(KeyCode::Backspace);
    assert!(KeyPreset::Vim.is_left(&backspace));
    assert!(KeyPreset::Arrows.is_left(&backspace));
    assert!(KeyPreset::Emacs.is_left(&backspace));
}

#[test]
fn test_from_name_case_insensitive() {
    assert_eq!(KeyPreset::from_name("VIM"), KeyPreset::Vim);
    assert_eq!(KeyPreset::from_name("vim"), KeyPreset::Vim);
    assert_eq!(KeyPreset::from_name("Vim"), KeyPreset::Vim);
    assert_eq!(KeyPreset::from_name("ARROWS"), KeyPreset::Arrows);
    assert_eq!(KeyPreset::from_name("arrows"), KeyPreset::Arrows);
    assert_eq!(KeyPreset::from_name("EMACS"), KeyPreset::Emacs);
}

#[test]
fn test_from_name_aliases() {
    assert_eq!(KeyPreset::from_name("vi"), KeyPreset::Vim);
    assert_eq!(KeyPreset::from_name("arrow"), KeyPreset::Arrows);
    assert_eq!(KeyPreset::from_name("emac"), KeyPreset::Emacs);
}

#[test]
fn test_from_name_unknown_fallback() {
    assert_eq!(KeyPreset::from_name("qwerty"), KeyPreset::Vim);
    assert_eq!(KeyPreset::from_name(""), KeyPreset::Vim);
}

#[test]
fn test_preset_names_non_empty() {
    assert!(!KeyPreset::Vim.name().is_empty());
    assert!(!KeyPreset::Arrows.name().is_empty());
    assert!(!KeyPreset::Emacs.name().is_empty());
}

#[test]
fn test_preset_all_constant() {
    assert_eq!(KeyPreset::all().len(), 3);
    assert!(KeyPreset::all().contains(&KeyPreset::Vim));
    assert!(KeyPreset::all().contains(&KeyPreset::Arrows));
    assert!(KeyPreset::all().contains(&KeyPreset::Emacs));
}

#[test]
fn test_default_preset_is_vim() {
    assert_eq!(KeyPreset::default(), KeyPreset::Vim);
}
