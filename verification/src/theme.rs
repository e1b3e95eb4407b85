//! Theme names.
//!
//! Five dark themes are offered; their palettes live with the rendering
//! layer. The library knows the themes' names and how a configured name
//! picks one.

use vstd::prelude::*;

use crate::text::{ascii_lower, chars_eq, chars_of, lower_chars};

verus! {

/// The available themes.
#[derive(Debug, Clone, Copy, PartialEq, Eq, Structural)]
pub enum ThemeKind {
    CatppuccinMocha,
    TokyoNight,
    Dracula,
    Nord,
    GruvboxDark,
}

impl Default for ThemeKind {
    /// The Tokyo Night theme.
    fn default() -> (r: Self)
        ensures
            r == ThemeKind::TokyoNight,
    {
        ThemeKind::TokyoNight
    }
}

/// A name lower-cased with spaces and hyphens removed, the form theme
/// names are matched in.
pub open spec fn normalized(s: Seq<char>) -> Seq<char>
    decreases s.len(),
{
    if s.len() == 0 {
        Seq::<char>::empty()
    } else {
        let front = normalized(s.drop_last());
        let c = crate::text::lower_char(s.last());
        if c == ' ' || c == '-' {
            front
        } else {
            front.push(c)
        }
    }
}

/// Lower-cases a name and removes spaces and hyphens.
fn normalize(s: &Vec<char>) -> (r: Vec<char>)
    ensures
        r@ == normalized(s@),
{
    let low = ascii_lower(s);
    proof {
        assert(low@.len() == s@.len());
    }
    let mut out: Vec<char> = Vec::new();
    let mut i: usize = 0;
    proof {
        assert(s@.take(0) =~= Seq::<char>::empty());
        assert(out@ =~= normalized(s@.take(0)));
    }
    while i < low.len()
        invariant
            0 <= i <= s@.len(),
            low@ == lower_chars(s@),
            low@.len() == s@.len(),
            out@ == normalized(s@.take(i as int)),
        decreases s@.len() - i,
    {
        let c = low[i];
        proof {
            assert(low@[i as int] == crate::text::lower_char(s@[i as int]));
            assert(s@.take(i as int + 1).drop_last() =~= s@.take(i as int));
            assert(s@.take(i as int + 1).last() == s@[i as int]);
        }
        if c != ' ' && c != '-' {
            out.push(c);
        }
        i = i + 1;
    }
    proof {
        assert(s@.take(s@.len() as int) =~= s@);
    }
    out
}

impl ThemeKind {
    /// Every theme, in display order.
    pub fn all() -> (r: Vec<ThemeKind>)
        ensures
            r@ == seq![
                ThemeKind::CatppuccinMocha,
                ThemeKind::TokyoNight,
                ThemeKind::Dracula,
                ThemeKind::Nord,
                ThemeKind::GruvboxDark,
            ],
    {
        let mut v: Vec<ThemeKind> = Vec::new();
        v.push(ThemeKind::CatppuccinMocha);
        v.push(ThemeKind::TokyoNight);
        v.push(ThemeKind::Dracula);
        v.push(ThemeKind::Nord);
        v.push(ThemeKind::GruvboxDark);
        proof {
            assert(v@ =~= seq![
                ThemeKind::CatppuccinMocha,
                ThemeKind::TokyoNight,
                ThemeKind::Dracula,
                ThemeKind::Nord,
                ThemeKind::GruvboxDark,
            ]);
        }
        v
    }

    /// The theme's display name.
    pub fn name(&self) -> (r: &'static str)
        ensures
            self is CatppuccinMocha ==> r@ == "Catppuccin Mocha"@,
            self is TokyoNight ==> r@ == "Tokyo Night"@,
            self is Dracula ==> r@ == "Dracula"@,
            self is Nord ==> r@ == "Nord"@,
            self is GruvboxDark ==> r@ == "Gruvbox Dark"@,
    {
        match self {
            ThemeKind::CatppuccinMocha => "Catppuccin Mocha",
            ThemeKind::TokyoNight => "Tokyo Night",
            ThemeKind::Dracula => "Dracula",
            ThemeKind::Nord => "Nord",
            ThemeKind::GruvboxDark => "Gruvbox Dark",
        }
    }

    /// The theme a configured name picks: matched after lower-casing and
    /// dropping spaces and hyphens, with short aliases; unknown names give
    /// the default.
    pub open spec fn from_name_spec(name: Seq<char>) -> ThemeKind {
        let n = normalized(name);
        if n == "catppuccin"@ || n == "catppuccinmocha"@ || n == "mocha"@ {
            ThemeKind::CatppuccinMocha
        } else if n == "tokyonight"@ || n == "tokyo"@ {
            ThemeKind::TokyoNight
        } else if n == "dracula"@ {
            ThemeKind::Dracula
        } else if n == "nord"@ {
            ThemeKind::Nord
        } else if n == "gruvbox"@ || n == "gruvboxdark"@ {
            ThemeKind::GruvboxDark
        } else {
            ThemeKind::TokyoNight
        }
    }

    /// Parses a theme name flexibly; unknown names give the default.
    pub fn from_name(name: &str) -> (r: ThemeKind)
        ensures
            r == ThemeKind::from_name_spec(name@),
    {
        let chars = chars_of(name);
        let n = normalize(&chars);
        let c1 = chars_of("catppuccin");
        let c2 = chars_of("catppuccinmocha");
        let c3 = chars_of("mocha");
        if chars_eq(&n, &c1) || chars_eq(&n, &c2) || chars_eq(&n, &c3) {
            return ThemeKind::CatppuccinMocha;
        }
        let t1 = chars_of("tokyonight");
        let t2 = chars_of("tokyo");
        if chars_eq(&n, &t1) || chars_eq(&n, &t2) {
            return ThemeKind::TokyoNight;
        }
        let d = chars_of("dracula");
        if chars_eq(&n, &d) {
            return ThemeKind::Dracula;
        }
        let o = chars_of("nord");
        if chars_eq(&n, &o) {
            return ThemeKind::Nord;
        }
        let g1 = chars_of("gruvbox");
        let g2 = chars_of("gruvboxdark");
        if chars_eq(&n, &g1) || chars_eq(&n, &g2) {
            return ThemeKind::GruvboxDark;
        }
        ThemeKind::TokyoNight
    }
}

} // verus!
