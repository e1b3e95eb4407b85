//! Key-binding presets.
//!
//! A preset maps terminal keys to the four navigation directions. Key
//! events reach the library as a plain code plus a control-modifier flag.

use vstd::prelude::*;

use crate::text::{ascii_lower, chars_eq, chars_of, lower_chars};

verus! {

/// A key, reduced to what the presets read.
#[derive(Debug, Clone, Copy, PartialEq, Eq, Structural)]
pub enum KeyCode {
    Up,
    Down,
    Left,
    Right,
    Backspace,
    Enter,
    Esc,
    Tab,
    BackTab,
    Char(char),
    Other,
}

/// A key press: its code and whether control was held.
#[derive(Debug, Clone, Copy, PartialEq, Eq, Structural)]
pub struct KeyInput {
    pub code: KeyCode,
    pub ctrl: bool,
}

/// Keybinding preset styles.
#[derive(Debug, Clone, Copy, PartialEq, Eq, Structural)]
pub enum KeyPreset {
    /// `h`/`j`/`k`/`l` plus the arrow keys.
    Vim,
    /// Arrow keys only.
    Arrows,
    /// Control with `n`/`p`/`f`/`b` plus the arrow keys.
    Emacs,
}

impl Default for KeyPreset {
    /// The vim-style preset.
    fn default() -> (r: Self)
        ensures
            r == KeyPreset::Vim,
    {
        KeyPreset::Vim
    }
}

impl KeyPreset {
    /// Every preset, in display order.
    pub fn all() -> (r: Vec<KeyPreset>)
        ensures
            r@ == seq![KeyPreset::Vim, KeyPreset::Arrows, KeyPreset::Emacs],
    {
        let mut v: Vec<KeyPreset> = Vec::new();
        v.push(KeyPreset::Vim);
        v.push(KeyPreset::Arrows);
        v.push(KeyPreset::Emacs);
        proof {
            assert(v@ =~= seq![KeyPreset::Vim, KeyPreset::Arrows, KeyPreset::Emacs]);
        }
        v
    }

    /// The preset's display name.
    pub fn name(&self) -> (r: &'static str)
        ensures
            self is Vim ==> r@ == "Vim (hjkl)"@,
            self is Arrows ==> r@ == "Arrows"@,
            self is Emacs ==> r@ == "Emacs (C-npfb)"@,
    {
        match self {
            KeyPreset::Vim => "Vim (hjkl)",
            KeyPreset::Arrows => "Arrows",
            KeyPreset::Emacs => "Emacs (C-npfb)",
        }
    }

    /// The preset a configuration names, matched without regard to case;
    /// an unknown name falls back to the default.
    pub open spec fn from_name_spec(name: Seq<char>) -> KeyPreset {
        let n = lower_chars(name);
        if n == "vim"@ || n == "vi"@ {
            KeyPreset::Vim
        } else if n == "arrows"@ || n == "arrow"@ {
            KeyPreset::Arrows
        } else if n == "emacs"@ || n == "emac"@ {
            KeyPreset::Emacs
        } else {
            KeyPreset::Vim
        }
    }

    /// Parses a preset name, case-insensitively; unknown names give the
    /// default.
    pub fn from_name(name: &str) -> (r: KeyPreset)
        ensures
            r == KeyPreset::from_name_spec(name@),
    {
        let chars = chars_of(name);
        let n = ascii_lower(&chars);
        let vim = chars_of("vim");
        let vi = chars_of("vi");
        if chars_eq(&n, &vim) || chars_eq(&n, &vi) {
            return KeyPreset::Vim;
        }
        let arrows = chars_of("arrows");
        let arrow = chars_of("arrow");
        if chars_eq(&n, &arrows) || chars_eq(&n, &arrow) {
            return KeyPreset::Arrows;
        }
        let emacs = chars_of("emacs");
        let emac = chars_of("emac");
        if chars_eq(&n, &emacs) || chars_eq(&n, &emac) {
            return KeyPreset::Emacs;
        }
        KeyPreset::Vim
    }

    /// Whether the key moves up under this preset.
    pub fn is_up(&self, key: &KeyInput) -> (r: bool)
        ensures
            r <==> (key.code is Up || (key.code == KeyCode::Char('k') && *self is Vim) || (key.code
                == KeyCode::Char('p') && *self is Emacs && key.ctrl)),
    {
        match key.code {
            KeyCode::Up => true,
            KeyCode::Char(c) => (c == 'k' && *self == KeyPreset::Vim) || (c == 'p' && *self
                == KeyPreset::Emacs && key.ctrl),
            _ => false,
        }
    }

    /// Whether the key moves down under this preset.
    pub fn is_down(&self, key: &KeyInput) -> (r: bool)
        ensures
            r <==> (key.code is Down || (key.code == KeyCode::Char('j') && *self is Vim) || (
            key.code == KeyCode::Char('n') && *self is Emacs && key.ctrl)),
    {
        match key.code {
            KeyCode::Down => true,
            KeyCode::Char(c) => (c == 'j' && *self == KeyPreset::Vim) || (c == 'n' && *self
                == KeyPreset::Emacs && key.ctrl),
            _ => false,
        }
    }

    /// Whether the key moves left or goes back under this preset;
    /// backspace always does.
    pub fn is_left(&self, key: &KeyInput) -> (r: bool)
        ensures
            r <==> (key.code is Left || key.code is Backspace || (key.code == KeyCode::Char('h')
                && *self is Vim) || (key.code == KeyCode::Char('b') && *self is Emacs && key.ctrl)),
    {
        match key.code {
            KeyCode::Left => true,
            KeyCode::Backspace => true,
            KeyCode::Char(c) => (c == 'h' && *self == KeyPreset::Vim) || (c == 'b' && *self
                == KeyPreset::Emacs && key.ctrl),
            _ => false,
        }
    }

    /// Whether the key moves right or enters under this preset.
    pub fn is_right(&self, key: &KeyInput) -> (r: bool)
        ensures
            r <==> (key.code is Right || (key.code == KeyCode::Char('l') && *self is Vim) || (
            key.code == KeyCode::Char('f') && *self is Emacs && key.ctrl)),
    {
        match key.code {
            KeyCode::Right => true,
            KeyCode::Char(c) => (c == 'l' && *self == KeyPreset::Vim) || (c == 'f' && *self
                == KeyPreset::Emacs && key.ctrl),
            _ => false,
        }
    }
}

} // verus!
