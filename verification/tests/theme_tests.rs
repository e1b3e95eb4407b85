//! Tests for theme names and name matching.

use std::collections::HashSet;
use tuit::theme::ThemeKind;

#[test]
fn test_all_array_has_five_themes() {
    assert_eq!(ThemeKind::all().len(), 5);
}

#[test]
fn test_all_themes_have_names() {
    for theme in ThemeKind::all().iter() {
        let name = theme.name();
        assert!(!name.is_empty(), "a theme has an empty name");
    }
}

#[test]
fn test_all_themes_unique_names() {
    let mut names = HashSet::new();
    for theme in ThemeKind::all().iter() {
        let name = theme.name();
        assert!(names.insert(name), "duplicate theme name found: {}", name);
    }
}

#[test]
fn test_from_name_exact_matches() {
    assert_eq!(ThemeKind::from_name("Catppuccin Mocha"), ThemeKind::CatppuccinMocha);
    assert_eq!(ThemeKind::from_name("Tokyo Night"), ThemeKind::TokyoNight);
    assert_eq!(ThemeKind::from_name("Dracula"), ThemeKind::Dracula);
    assert_eq!(ThemeKind::from_name("Nord"), ThemeKind::Nord);
    assert_eq!(ThemeKind::from_name("Gruvbox Dark"), ThemeKind::GruvboxDark);
}

#[test]
fn test_from_name_flexible_matching() {
    assert_eq!(ThemeKind::from_name("tokyo-night"), ThemeKind::TokyoNight);
    assert_eq!(ThemeKind::from_name("tokyonight"), ThemeKind::TokyoNight);
    assert_eq!(ThemeKind::from_name("catppuccin-mocha"), ThemeKind::CatppuccinMocha);
    assert_eq!(ThemeKind::from_name("catppuccinmocha"), ThemeKind::CatppuccinMocha);
    assert_eq!(ThemeKind::from_name("gruvbox-dark"), ThemeKind::GruvboxDark);
    assert_eq!(ThemeKind::from_name("gruvboxdark"), ThemeKind::GruvboxDark);

    assert_eq!(ThemeKind::from_name("mocha"), ThemeKind::CatppuccinMocha);
    assert_eq!(ThemeKind::from_name("tokyo"), ThemeKind::TokyoNight);
    assert_eq!(ThemeKind::from_name("gruvbox"), ThemeKind::GruvboxDark);
}

#[test]
fn mod_test_from_name_case_insensitive() {
    assert_eq!(ThemeKind::from_name("DRACULA"), ThemeKind::Dracula);
    assert_eq!(ThemeKind::from_name("TOKYO NIGHT"), ThemeKind::TokyoNight);
    assert_eq!(ThemeKind::from_name("NORD"), ThemeKind::Nord);

    assert_eq!(ThemeKind::from_name("dracula"), ThemeKind::Dracula);
    assert_eq!(ThemeKind::from_name("tokyo night"), ThemeKind::TokyoNight);
    assert_eq!(ThemeKind::from_name("nord"), ThemeKind::Nord);

    assert_eq!(ThemeKind::from_name("DrAcUlA"), ThemeKind::Dracula);
    assert_eq!(ThemeKind::from_name("ToKyO NiGhT"), ThemeKind::TokyoNight);
}

#[test]
fn test_from_name_unknown_returns_default() {
    assert_eq!(ThemeKind::from_name("nonexistent"), ThemeKind::TokyoNight);
    assert_eq!(ThemeKind::from_name("invalid_theme"), ThemeKind::TokyoNight);
    assert_eq!(ThemeKind::from_name("foobar123"), ThemeKind::TokyoNight);
}

#[test]
fn test_from_name_empty_string() {
    assert_eq!(ThemeKind::from_name(""), ThemeKind::TokyoNight);
}

#[test]
fn test_theme_kind_default() {
    let default_theme = ThemeKind::default();
    assert_eq!(default_theme, ThemeKind::TokyoNight);
}

#[test]
fn test_all_themes_present_in_all_array() {
    assert!(ThemeKind::all().contains(&ThemeKind::CatppuccinMocha));
    assert!(ThemeKind::all().contains(&ThemeKind::TokyoNight));
    assert!(ThemeKind::all().contains(&ThemeKind::Dracula));
    assert!(ThemeKind::all().contains(&ThemeKind::Nord));
    assert!(ThemeKind::all().contains(&ThemeKind::GruvboxDark));

    assert_eq!(ThemeKind::all().iter().filter(|&&t| t == ThemeKind::CatppuccinMocha).count(), 1);
    assert_eq!(ThemeKind::all().iter().filter(|&&t| t == ThemeKind::TokyoNight).count(), 1);
    assert_eq!(ThemeKind::all().iter().filter(|&&t| t == ThemeKind::Dracula).count(), 1);
    assert_eq!(ThemeKind::all().iter().filter(|&&t| t == ThemeKind::Nord).count(), 1);
    assert_eq!(ThemeKind::all().iter().filter(|&&t| t == ThemeKind::GruvboxDark).count(), 1);
}
