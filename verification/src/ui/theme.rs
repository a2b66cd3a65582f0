//! Colour themes: light, dark, or following the system.

use vstd::prelude::*;
use crate::text::{chars_of, eq_chars};

verus! {

/// The theme setting.
#[derive(Debug, Clone, Copy, PartialEq, Eq, Structural)]
pub enum ThemeMode {
    Auto,
    Light,
    Dark,
}

/// The theme in effect.
#[derive(Debug, Clone, Copy, PartialEq, Eq, Structural)]
pub enum ResolvedTheme {
    Light,
    Dark,
}

impl ThemeMode {
    /// The setting's name as stored.
    pub fn as_str(&self) -> (s: &'static str)
        ensures
            s@ == match *self {
                ThemeMode::Auto => "auto"@,
                ThemeMode::Light => "light"@,
                ThemeMode::Dark => "dark"@,
            },
    {
        match self {
            ThemeMode::Auto => "auto",
            ThemeMode::Light => "light",
            ThemeMode::Dark => "dark",
        }
    }

    /// The setting a stored name means: "light", "dark", anything else auto.
    pub fn from_str(s: &str) -> (m: Self)
        ensures
            m == if s@ == "light"@ {
                ThemeMode::Light
            } else if s@ == "dark"@ {
                ThemeMode::Dark
            } else {
                ThemeMode::Auto
            },
    {
        let c = chars_of(s);
        if eq_chars(&c, &chars_of("light")) {
            ThemeMode::Light
        } else if eq_chars(&c, &chars_of("dark")) {
            ThemeMode::Dark
        } else {
            ThemeMode::Auto
        }
    }

    /// The theme in effect, given the system's theme name ("dark" or not)
    /// for the auto setting.
    pub fn resolve(&self, system_theme: &str) -> (t: ResolvedTheme)
        ensures
            t == match *self {
                ThemeMode::Light => ResolvedTheme::Light,
                ThemeMode::Dark => ResolvedTheme::Dark,
                ThemeMode::Auto => if system_theme@ == "dark"@ {
                    ResolvedTheme::Dark
                } else {
                    ResolvedTheme::Light
                },
            },
    {
        match self {
            ThemeMode::Light => ResolvedTheme::Light,
            ThemeMode::Dark => ResolvedTheme::Dark,
            ThemeMode::Auto => {
                if eq_chars(&chars_of(system_theme), &chars_of("dark")) {
                    ResolvedTheme::Dark
                } else {
                    ResolvedTheme::Light
                }
            },
        }
    }
}

/// The system's theme name from the registry value AppsUseLightTheme:
/// 1 is "light", any other value "dark", and "light" when it cannot be read.
pub fn theme_from_registry(apps_use_light_theme: Option<u32>) -> (s: &'static str)
    ensures
        s@ == match apps_use_light_theme {
            Some(v) => if v == 1 { "light"@ } else { "dark"@ },
            None => "light"@,
        },
{
    match apps_use_light_theme {
        Some(v) => if v == 1 {
            "light"
        } else {
            "dark"
        },
        None => "light",
    }
}

/// A Win32 COLORREF (0x00BBGGRR).
pub open spec fn colorref(r: u8, g: u8, b: u8) -> int {
    (r as u32) + (g as u32) * 256 + (b as u32) * 65536
}

/// The COLORREF of a red, green, blue triple.
pub fn rgb(r: u8, g: u8, b: u8) -> (c: u32)
    ensures
        c == colorref(r, g, b),
{
    let c = (r as u32) | ((g as u32) << 8) | ((b as u32) << 16);
    assert(c == (r as u32) + (g as u32) * 256 + (b as u32) * 65536) by (bit_vector)
        requires
            c == (r as u32) | ((g as u32) << 8) | ((b as u32) << 16),
    ;
    c
}

/// One set of colours, as COLORREFs.
#[derive(Debug, Clone, Copy)]
pub struct Palette {
    pub bg: u32,
    pub text: u32,
    pub input_bg: u32,
    pub ok: u32,
    pub warn: u32,
    pub err: u32,
}

impl Palette {
    /// The colours of a theme.
    pub fn for_theme(t: ResolvedTheme) -> (p: Self)
        ensures
            t == ResolvedTheme::Dark ==> p.bg == colorref(28, 28, 30) && p.text == colorref(
                255,
                255,
                255,
            ) && p.input_bg == colorref(44, 44, 46) && p.ok == colorref(52, 199, 89) && p.warn
                == colorref(255, 149, 0) && p.err == colorref(255, 59, 48),
            t == ResolvedTheme::Light ==> p.bg == colorref(242, 242, 242) && p.text == colorref(
                28,
                28,
                30,
            ) && p.input_bg == colorref(255, 255, 255) && p.ok == colorref(40, 167, 69) && p.warn
                == colorref(255, 149, 0) && p.err == colorref(255, 59, 48),
    {
        match t {
            ResolvedTheme::Dark => Palette {
                bg: rgb(28, 28, 30),
                text: rgb(255, 255, 255),
                input_bg: rgb(44, 44, 46),
                ok: rgb(52, 199, 89),
                warn: rgb(255, 149, 0),
                err: rgb(255, 59, 48),
            },
            ResolvedTheme::Light => Palette {
                bg: rgb(242, 242, 242),
                text: rgb(28, 28, 30),
                input_bg: rgb(255, 255, 255),
                ok: rgb(40, 167, 69),
                warn: rgb(255, 149, 0),
                err: rgb(255, 59, 48),
            },
        }
    }
}

} // verus!
