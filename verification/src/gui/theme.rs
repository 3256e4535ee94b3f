//! One palette. Every colour in the window comes from here.
//!
//! The accent is a blue that never appears on the level meter: green, amber and
//! red already mean something to anyone looking at one.

use vstd::prelude::*;

verus! {

/// A colour, by its red, green and blue.
#[derive(Debug, Clone, Copy, PartialEq, Eq, Structural)]
pub struct Color {
    pub r: u8,
    pub g: u8,
    pub b: u8,
}

#[derive(Debug, Clone, Copy, PartialEq, Eq, Structural)]
pub enum Theme {
    Dark,
    Light,
}

#[derive(Debug, Clone, Copy, PartialEq, Eq, Structural)]
pub struct Palette {
    /// Window background.
    pub bg: Color,
    /// Cards and raised surfaces.
    pub panel: Color,
    /// Inputs and wells, one step from `panel`.
    pub panel2: Color,
    /// Hairline borders.
    pub line: Color,
    /// Unlit meter segments and inactive tracks.
    pub dim: Color,
    /// Primary text.
    pub ink: Color,
    /// Secondary text and labels.
    pub muted: Color,
    /// Interactive accent. Never used for state.
    pub accent: Color,
    /// State: healthy.
    pub good: Color,
    /// State: worth a look.
    pub warn: Color,
    /// State: wrong.
    pub bad: Color,
}

impl Palette {
    /// The palette of the dark theme.
    pub open spec fn dark() -> Palette {
        Palette {
            bg: Color { r: 0x0F, g: 0x15, b: 0x18 },
            panel: Color { r: 0x18, g: 0x21, b: 0x26 },
            panel2: Color { r: 0x1F, g: 0x2A, b: 0x30 },
            line: Color { r: 0x2C, g: 0x3A, b: 0x41 },
            dim: Color { r: 0x22, g: 0x30, b: 0x37 },
            ink: Color { r: 0xDC, g: 0xE6, b: 0xEA },
            muted: Color { r: 0x7E, g: 0x93, b: 0x9C },
            accent: Color { r: 0x3B, g: 0x9E, b: 0xEA },
            good: Color { r: 0x46, g: 0xB8, b: 0x7A },
            warn: Color { r: 0xD6, g: 0xA9, b: 0x3C },
            bad: Color { r: 0xD9, g: 0x52, b: 0x4F },
        }
    }

    /// The palette of the light theme.
    pub open spec fn light() -> Palette {
        Palette {
            bg: Color { r: 0xED, g: 0xF1, b: 0xF2 },
            panel: Color { r: 0xFF, g: 0xFF, b: 0xFF },
            panel2: Color { r: 0xF4, g: 0xF7, b: 0xF8 },
            line: Color { r: 0xD2, g: 0xDB, b: 0xDE },
            dim: Color { r: 0xDF, g: 0xE6, b: 0xE8 },
            ink: Color { r: 0x11, g: 0x1A, b: 0x1D },
            muted: Color { r: 0x5B, g: 0x6E, b: 0x75 },
            accent: Color { r: 0x1B, g: 0x72, b: 0xBC },
            good: Color { r: 0x2E, g: 0x9A, b: 0x5F },
            warn: Color { r: 0xB4, g: 0x86, b: 0x2A },
            bad: Color { r: 0xC4, g: 0x40, b: 0x3D },
        }
    }

    /// The palette of a theme.
    pub open spec fn of_theme(theme: Theme) -> Palette {
        match theme {
            Theme::Dark => Palette::dark(),
            Theme::Light => Palette::light(),
        }
    }

    pub fn for_theme(theme: Theme) -> (palette: Palette)
        ensures
            palette == Palette::of_theme(theme),
    {
        match theme {
            Theme::Dark => Palette {
                bg: Color { r: 0x0F, g: 0x15, b: 0x18 },
                panel: Color { r: 0x18, g: 0x21, b: 0x26 },
                panel2: Color { r: 0x1F, g: 0x2A, b: 0x30 },
                line: Color { r: 0x2C, g: 0x3A, b: 0x41 },
                dim: Color { r: 0x22, g: 0x30, b: 0x37 },
                ink: Color { r: 0xDC, g: 0xE6, b: 0xEA },
                muted: Color { r: 0x7E, g: 0x93, b: 0x9C },
                accent: Color { r: 0x3B, g: 0x9E, b: 0xEA },
                good: Color { r: 0x46, g: 0xB8, b: 0x7A },
                warn: Color { r: 0xD6, g: 0xA9, b: 0x3C },
                bad: Color { r: 0xD9, g: 0x52, b: 0x4F },
            },
            // The state colours are darker here: the dark theme's green on white
            // is barely legible.
            Theme::Light => Palette {
                bg: Color { r: 0xED, g: 0xF1, b: 0xF2 },
                panel: Color { r: 0xFF, g: 0xFF, b: 0xFF },
                panel2: Color { r: 0xF4, g: 0xF7, b: 0xF8 },
                line: Color { r: 0xD2, g: 0xDB, b: 0xDE },
                dim: Color { r: 0xDF, g: 0xE6, b: 0xE8 },
                ink: Color { r: 0x11, g: 0x1A, b: 0x1D },
                muted: Color { r: 0x5B, g: 0x6E, b: 0x75 },
                accent: Color { r: 0x1B, g: 0x72, b: 0xBC },
                good: Color { r: 0x2E, g: 0x9A, b: 0x5F },
                warn: Color { r: 0xB4, g: 0x86, b: 0x2A },
                bad: Color { r: 0xC4, g: 0x40, b: 0x3D },
            },
        }
    }
}

/// Chrome and state never share a colour, so a blue thing is never a status and
/// a green thing always is.
pub proof fn the_accent_is_not_a_state_colour(theme: Theme)
    ensures
        Palette::of_theme(theme).accent != Palette::of_theme(theme).good,
        Palette::of_theme(theme).accent != Palette::of_theme(theme).warn,
        Palette::of_theme(theme).accent != Palette::of_theme(theme).bad,
{
}

/// Text can be read on every surface: light on dark in the dark theme, dark on light
/// in the light one. And a state is recognised by its colour: what is healthy is
/// green above all, what is wrong is red, and what is worth a look is between them.
pub proof fn text_can_be_read_and_states_told_apart(theme: Theme)
    ensures
        ({
            let p = Palette::of_theme(theme);
            &&& theme == Theme::Dark ==> {
                &&& p.ink.r > p.muted.r > p.panel2.r > p.panel.r > p.bg.r
                &&& p.ink.g > p.muted.g > p.panel2.g > p.panel.g > p.bg.g
                &&& p.ink.b > p.muted.b > p.panel2.b > p.panel.b > p.bg.b
            }
            &&& theme == Theme::Light ==> {
                &&& p.ink.r < p.muted.r < p.bg.r < p.panel2.r < p.panel.r
                &&& p.ink.g < p.muted.g < p.bg.g < p.panel2.g < p.panel.g
                &&& p.ink.b < p.muted.b < p.bg.b < p.panel2.b < p.panel.b
            }
            &&& p.good.g > p.good.b > p.good.r
            &&& p.bad.r > 2 * p.bad.g && p.bad.r > 2 * p.bad.b
            &&& p.warn.r > p.warn.g && p.warn.g > 2 * p.warn.b
            &&& p.accent.b > p.accent.g && p.accent.g > 2 * p.accent.r
        }),
{
}

} // verus!
