//! The colour themes of terminal output.
use vstd::prelude::*;

verus! {

/// The bits of a Windows console attribute word that hold the background.
pub const BACKGROUND_COLOR_MASK: u16 = 0x00f0;
/// The blue background of the legacy Windows console.
pub const BLUE_BACKGROUND: u16 = 0x0010;
/// The background of PowerShell's fifth palette slot.
pub const POWERSHELL_SLOT5_BACKGROUND: u16 = 0x0050;

/// A colour theme.
#[derive(Clone, Copy, Debug, PartialEq, Eq, Structural)]
pub enum Theme {
    Default,
    LegacyWindowsConsole,
}

/// A colour by its role in the output.
#[derive(Clone, Copy, Debug, PartialEq, Eq, Structural)]
pub enum SemanticColor {
    Green,
    Blue,
    Cyan,
    Purple,
    Magenta,
    Yellow,
    Red,
}

/// A terminal colour that a theme paints with.
#[derive(Clone, Copy, Debug, PartialEq, Eq, Structural)]
pub enum ColorName {
    Green,
    Blue,
    Cyan,
    Magenta,
    Yellow,
    Red,
    BrightRed,
}

/// The theme for a console whose attribute word is `attributes`: the
/// legacy theme on the blue backgrounds, where blue and magenta are hard
/// to read.
pub open spec fn theme_of(attributes: u16) -> Theme {
    let bg = attributes & BACKGROUND_COLOR_MASK;
    if bg == BLUE_BACKGROUND || bg == POWERSHELL_SLOT5_BACKGROUND {
        Theme::LegacyWindowsConsole
    } else {
        Theme::Default
    }
}

/// The terminal colour that `theme` uses for `c`.
pub open spec fn color_of(theme: Theme, c: SemanticColor) -> ColorName {
    match theme {
        Theme::Default => match c {
            SemanticColor::Green => ColorName::Green,
            SemanticColor::Blue => ColorName::Blue,
            SemanticColor::Cyan => ColorName::Cyan,
            SemanticColor::Purple => ColorName::Magenta,
            SemanticColor::Magenta => ColorName::Magenta,
            SemanticColor::Yellow => ColorName::Yellow,
            SemanticColor::Red => ColorName::Red,
        },
        Theme::LegacyWindowsConsole => match c {
            SemanticColor::Green => ColorName::Green,
            SemanticColor::Blue => ColorName::Cyan,
            SemanticColor::Cyan => ColorName::Cyan,
            SemanticColor::Purple => ColorName::BrightRed,
            SemanticColor::Magenta => ColorName::BrightRed,
            SemanticColor::Yellow => ColorName::Yellow,
            SemanticColor::Red => ColorName::Red,
        },
    }
}

impl Theme {
    /// The theme for a console with the given attribute word.
    pub fn from_console_attributes(attributes: u16) -> (t: Theme)
        ensures
            t == theme_of(attributes),
    {
        let bg = attributes & BACKGROUND_COLOR_MASK;
        if bg == BLUE_BACKGROUND || bg == POWERSHELL_SLOT5_BACKGROUND {
            Theme::LegacyWindowsConsole
        } else {
            Theme::Default
        }
    }

    /// The terminal colour this theme uses for `semantic_color`.
    pub fn color(self, semantic_color: SemanticColor) -> (c: ColorName)
        ensures
            c == color_of(self, semantic_color),
    {
        match self {
            Theme::Default => match semantic_color {
                SemanticColor::Green => ColorName::Green,
                SemanticColor::Blue => ColorName::Blue,
                SemanticColor::Cyan => ColorName::Cyan,
                SemanticColor::Purple => ColorName::Magenta,
                SemanticColor::Magenta => ColorName::Magenta,
                SemanticColor::Yellow => ColorName::Yellow,
                SemanticColor::Red => ColorName::Red,
            },
            Theme::LegacyWindowsConsole => match semantic_color {
                SemanticColor::Green => ColorName::Green,
                SemanticColor::Blue => ColorName::Cyan,
                SemanticColor::Cyan => ColorName::Cyan,
                SemanticColor::Purple => ColorName::BrightRed,
                SemanticColor::Magenta => ColorName::BrightRed,
                SemanticColor::Yellow => ColorName::Yellow,
                SemanticColor::Red => ColorName::Red,
            },
        }
    }
}

/// The legacy console theme paints nothing blue or magenta, the colours
/// that are unreadable on its blue background.
pub proof fn lemma_legacy_theme_avoids_blue_and_magenta(c: SemanticColor)
    ensures
        color_of(Theme::LegacyWindowsConsole, c) != ColorName::Blue,
        color_of(Theme::LegacyWindowsConsole, c) != ColorName::Magenta,
{
}

/// A console without one of the two blue backgrounds gets the default theme,
/// whatever its foreground bits.
pub proof fn lemma_other_backgrounds_use_default_theme(attributes: u16)
    requires
        attributes & BACKGROUND_COLOR_MASK != BLUE_BACKGROUND,
        attributes & BACKGROUND_COLOR_MASK != POWERSHELL_SLOT5_BACKGROUND,
    ensures
        theme_of(attributes) == Theme::Default,
{
}

} // verus!
