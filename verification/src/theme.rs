//! Colours and styles.

use crate::reading::{
    law_order_is_numeric, law_threshold_values, Reading, EIGHTY_FIVE, FORTY, NINETY, SEVENTY,
};
use vstd::arithmetic::power2::pow2;
use vstd::prelude::*;

verus! {

/// The colours, by what they are for.
#[derive(Debug, Clone, Copy, PartialEq, Eq, Structural)]
pub enum Color {
    Bg,
    Border,
    Text,
    Muted,
    HeaderBg,
    RowA,
    RowB,
    RowSelected,
    Track,
    Separator,
    AccentCpu,
    AccentThread,
    AccentGpu,
    AccentVram,
    AccentProc,
    Good,
    Warn,
    Hot,
}

impl Color {
    /// The shares of red, green and blue.
    pub open spec fn shares(self) -> (u8, u8, u8) {
        match self {
            Color::Bg => (12, 14, 20),
            Color::Border => (84, 90, 108),
            Color::Text => (236, 238, 244),
            Color::Muted => (150, 158, 180),
            Color::HeaderBg => (34, 39, 52),
            Color::RowA => (20, 24, 33),
            Color::RowB => (16, 20, 29),
            Color::RowSelected => (42, 51, 71),
            Color::Track => (82, 86, 98),
            Color::Separator => (98, 106, 127),
            Color::AccentCpu => (255, 186, 92),
            Color::AccentThread => (255, 139, 72),
            Color::AccentGpu => (255, 169, 90),
            Color::AccentVram => (255, 205, 124),
            Color::AccentProc => (255, 191, 101),
            Color::Good => (255, 214, 130),
            Color::Warn => (255, 163, 94),
            Color::Hot => (255, 111, 111),
        }
    }

    /// The shares of red, green and blue.
    pub fn rgb(self) -> (r: (u8, u8, u8))
        ensures
            r == self.shares(),
    {
        match self {
            Color::Bg => (12, 14, 20),
            Color::Border => (84, 90, 108),
            Color::Text => (236, 238, 244),
            Color::Muted => (150, 158, 180),
            Color::HeaderBg => (34, 39, 52),
            Color::RowA => (20, 24, 33),
            Color::RowB => (16, 20, 29),
            Color::RowSelected => (42, 51, 71),
            Color::Track => (82, 86, 98),
            Color::Separator => (98, 106, 127),
            Color::AccentCpu => (255, 186, 92),
            Color::AccentThread => (255, 139, 72),
            Color::AccentGpu => (255, 169, 90),
            Color::AccentVram => (255, 205, 124),
            Color::AccentProc => (255, 191, 101),
            Color::Good => (255, 214, 130),
            Color::Warn => (255, 163, 94),
            Color::Hot => (255, 111, 111),
        }
    }
}

/// How text is drawn. What is not set stays as it was.
#[derive(Debug, Clone, Copy)]
pub struct Style {
    pub fg: Option<Color>,
    pub bg: Option<Color>,
    pub bold: bool,
    pub underlined: bool,
}

impl Style {
    /// Nothing set.
    #[verifier::allow_in_spec]
    pub fn plain() -> Style
        returns
            (Style { fg: None, bg: None, bold: false, underlined: false }),
    {
        Style { fg: None, bg: None, bold: false, underlined: false }
    }

    /// Only the colour of the text set.
    #[verifier::allow_in_spec]
    pub fn ink(color: Color) -> Style
        returns
            (Style { fg: Some(color), bg: None, bold: false, underlined: false }),
    {
        Style { fg: Some(color), bg: None, bold: false, underlined: false }
    }

    /// Only the colour behind the text set.
    #[verifier::allow_in_spec]
    pub fn paper(color: Color) -> Style
        returns
            (Style { fg: None, bg: Some(color), bold: false, underlined: false }),
    {
        Style { fg: None, bg: Some(color), bold: false, underlined: false }
    }

    /// The style in bold.
    #[verifier::allow_in_spec]
    pub fn in_bold(self) -> Style
        returns
            (Style { bold: true, ..self }),
    {
        Style { bold: true, ..self }
    }

    /// The style with a colour behind the text.
    #[verifier::allow_in_spec]
    pub fn on(self, color: Color) -> Style
        returns
            (Style { bg: Some(color), ..self }),
    {
        Style { bg: Some(color), ..self }
    }
}

/// How a share in percent is drawn: the higher, the warmer; a low one in the colour `base`.
pub open spec fn usage_style(usage: Reading, base: Color) -> Style {
    if (Reading { bits: NINETY }).at_most(usage) {
        Style::ink(Color::Hot).in_bold()
    } else if (Reading { bits: SEVENTY }).at_most(usage) {
        Style::ink(Color::Warn)
    } else if (Reading { bits: FORTY }).at_most(usage) {
        Style::ink(Color::Good)
    } else {
        Style::ink(base)
    }
}

/// How a share in percent is drawn.
pub fn style_for_usage_with_base(usage: Reading, base: Color) -> (r: Style)
    ensures
        r == usage_style(usage, base),
{
    if usage.at_least(NINETY) {
        Style::ink(Color::Hot).in_bold()
    } else if usage.at_least(SEVENTY) {
        Style::ink(Color::Warn)
    } else if usage.at_least(FORTY) {
        Style::ink(Color::Good)
    } else {
        Style::ink(base)
    }
}

/// How a temperature is drawn.
pub open spec fn temp_style(temp_c: Option<Reading>) -> Style {
    match temp_c {
        Some(temp) => if (Reading { bits: EIGHTY_FIVE }).at_most(temp) {
            Style::ink(Color::Hot).in_bold()
        } else if (Reading { bits: SEVENTY }).at_most(temp) {
            Style::ink(Color::Warn)
        } else {
            Style::ink(Color::Good)
        },
        None => Style::ink(Color::Muted),
    }
}

/// How a temperature is drawn.
pub fn style_for_temp(temp_c: Option<Reading>) -> (r: Style)
    ensures
        r == temp_style(temp_c),
{
    match temp_c {
        Some(temp) => if temp.at_least(EIGHTY_FIVE) {
            Style::ink(Color::Hot).in_bold()
        } else if temp.at_least(SEVENTY) {
            Style::ink(Color::Warn)
        } else {
            Style::ink(Color::Good)
        },
        None => Style::ink(Color::Muted),
    }
}

// ---------------------------------------------------------------------------
// Laws
// ---------------------------------------------------------------------------

/// A share below 40 has its own colour, one below 70 is good, one below 90 a warning, and any
/// higher is hot and bold. Nothing is put behind it.
pub proof fn law_usage_colors(usage: Reading, base: Color)
    requires
        !usage.is_nan(),
    ensures
        usage.value() < 40 * pow2(149) ==> usage_style(usage, base).fg == Some(base),
        40 * pow2(149) <= usage.value() < 70 * pow2(149) ==> usage_style(usage, base).fg == Some(Color::Good),
        70 * pow2(149) <= usage.value() < 90 * pow2(149) ==> usage_style(usage, base).fg == Some(Color::Warn),
        90 * pow2(149) <= usage.value() ==> usage_style(usage, base).fg == Some(Color::Hot),
        usage_style(usage, base).bold <==> 90 * pow2(149) <= usage.value(),
        usage_style(usage, base).bg is None,
        !usage_style(usage, base).underlined,
{
    law_threshold_values();
    law_order_is_numeric(Reading { bits: FORTY }, usage);
    law_order_is_numeric(Reading { bits: SEVENTY }, usage);
    law_order_is_numeric(Reading { bits: NINETY }, usage);
}

/// A temperature below 70 is good, one below 85 a warning, and any higher is hot and bold; one
/// that is not known is muted.
pub proof fn law_temperature_colors(temp: Reading)
    requires
        !temp.is_nan(),
    ensures
        temp.value() < 70 * pow2(149) ==> temp_style(Some(temp)).fg == Some(Color::Good),
        70 * pow2(149) <= temp.value() < 85 * pow2(149) ==> temp_style(Some(temp)).fg == Some(Color::Warn),
        85 * pow2(149) <= temp.value() ==> temp_style(Some(temp)).fg == Some(Color::Hot),
        temp_style(Some(temp)).bold <==> 85 * pow2(149) <= temp.value(),
        temp_style(None).fg == Some(Color::Muted),
        !temp_style(None).bold,
{
    law_threshold_values();
    law_order_is_numeric(Reading { bits: SEVENTY }, temp);
    law_order_is_numeric(Reading { bits: EIGHTY_FIVE }, temp);
}

/// The colours as numbers of six hexadecimal digits.
pub proof fn law_color_numbers(c: Color)
    ensures
        c.shares().0 * 0x10000 + c.shares().1 * 0x100 + c.shares().2 == (match c {
            Color::Bg => 0x0C0E14int,
            Color::Border => 0x545A6C,
            Color::Text => 0xECEEF4,
            Color::Muted => 0x969EB4,
            Color::HeaderBg => 0x222734,
            Color::RowA => 0x141821,
            Color::RowB => 0x10141D,
            Color::RowSelected => 0x2A3347,
            Color::Track => 0x525662,
            Color::Separator => 0x626A7F,
            Color::AccentCpu => 0xFFBA5C,
            Color::AccentThread => 0xFF8B48,
            Color::AccentGpu => 0xFFA95A,
            Color::AccentVram => 0xFFCD7C,
            Color::AccentProc => 0xFFBF65,
            Color::Good => 0xFFD682,
            Color::Warn => 0xFFA35E,
            Color::Hot => 0xFF6F6F,
        }),
{
}

} // verus!
