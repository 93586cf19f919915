//! Colors, text modifiers and styles of the terminal interface.

use vstd::prelude::*;

verus! {

/// A terminal color, as the interface names them.
#[derive(Clone, Copy, PartialEq, Eq, Structural, Debug)]
pub enum Color {
    Reset,
    Black,
    Red,
    Green,
    Yellow,
    Blue,
    Magenta,
    Cyan,
    Gray,
    DarkGray,
    LightRed,
    LightGreen,
    LightYellow,
    LightBlue,
    LightMagenta,
    LightCyan,
    White,
    Rgb(u8, u8, u8),
    Indexed(u8),
}

/// A set of text modifiers.
#[derive(Clone, Copy, PartialEq, Eq, Debug)]
pub struct Modifier {
    pub bold: bool,
    pub dim: bool,
    pub italic: bool,
    pub underlined: bool,
    pub slow_blink: bool,
    pub rapid_blink: bool,
    pub reversed: bool,
    pub hidden: bool,
    pub crossed_out: bool,
}

impl Modifier {
    /// No modifier.
    pub fn empty() -> (m: Modifier)
        ensures
            m == Modifier::spec_empty(),
    {
        Modifier {
            bold: false,
            dim: false,
            italic: false,
            underlined: false,
            slow_blink: false,
            rapid_blink: false,
            reversed: false,
            hidden: false,
            crossed_out: false,
        }
    }

    /// No modifier.
    pub open spec fn spec_empty() -> Modifier {
        Modifier {
            bold: false,
            dim: false,
            italic: false,
            underlined: false,
            slow_blink: false,
            rapid_blink: false,
            reversed: false,
            hidden: false,
            crossed_out: false,
        }
    }

    /// Bold only.
    pub fn bold() -> (m: Modifier)
        ensures
            m == (Modifier { bold: true, ..Modifier::spec_empty() }),
    {
        Modifier { bold: true, ..Modifier::empty() }
    }

    /// The modifiers of `self` that are not in `other`.
    pub open spec fn spec_minus(self, other: Modifier) -> Modifier {
        Modifier {
            bold: self.bold && !other.bold,
            dim: self.dim && !other.dim,
            italic: self.italic && !other.italic,
            underlined: self.underlined && !other.underlined,
            slow_blink: self.slow_blink && !other.slow_blink,
            rapid_blink: self.rapid_blink && !other.rapid_blink,
            reversed: self.reversed && !other.reversed,
            hidden: self.hidden && !other.hidden,
            crossed_out: self.crossed_out && !other.crossed_out,
        }
    }

    /// The modifiers of `self` that are not in `other`.
    pub fn minus(self, other: Modifier) -> (m: Modifier)
        ensures
            m == self.spec_minus(other),
    {
        Modifier {
            bold: self.bold && !other.bold,
            dim: self.dim && !other.dim,
            italic: self.italic && !other.italic,
            underlined: self.underlined && !other.underlined,
            slow_blink: self.slow_blink && !other.slow_blink,
            rapid_blink: self.rapid_blink && !other.rapid_blink,
            reversed: self.reversed && !other.reversed,
            hidden: self.hidden && !other.hidden,
            crossed_out: self.crossed_out && !other.crossed_out,
        }
    }

    /// Whether both hold the same modifiers.
    pub fn same(self, other: Modifier) -> (r: bool)
        ensures
            r == (self == other),
    {
        self.bold == other.bold && self.dim == other.dim && self.italic == other.italic
            && self.underlined == other.underlined && self.slow_blink == other.slow_blink
            && self.rapid_blink == other.rapid_blink && self.reversed == other.reversed
            && self.hidden == other.hidden && self.crossed_out == other.crossed_out
    }
}

/// A style: optional colors, and modifiers to add and to remove.
#[derive(Clone, Copy, PartialEq, Eq, Debug)]
pub struct Style {
    pub fg: Option<Color>,
    pub bg: Option<Color>,
    pub add_modifier: Modifier,
    pub sub_modifier: Modifier,
}

impl Style {
    /// The style that changes nothing.
    pub open spec fn spec_default() -> Style {
        Style { fg: None, bg: None, add_modifier: Modifier::spec_empty(), sub_modifier: Modifier::spec_empty() }
    }

    /// The style that changes nothing.
    pub fn new() -> (s: Style)
        ensures
            s == Style::spec_default(),
    {
        Style { fg: None, bg: None, add_modifier: Modifier::empty(), sub_modifier: Modifier::empty() }
    }

    /// The style with the foreground color set.
    pub fn fg(self, color: Color) -> (s: Style)
        ensures
            s == (Style { fg: Some(color), ..self }),
    {
        Style { fg: Some(color), ..self }
    }

    /// The style with the background color set.
    pub fn bg(self, color: Color) -> (s: Style)
        ensures
            s == (Style { bg: Some(color), ..self }),
    {
        Style { bg: Some(color), ..self }
    }

    /// The style that also adds bold text.
    pub fn add_bold(self) -> (s: Style)
        ensures
            s == (Style { add_modifier: Modifier { bold: true, ..self.add_modifier },
                sub_modifier: Modifier { bold: false, ..self.sub_modifier }, ..self }),
    {
        Style {
            add_modifier: Modifier { bold: true, ..self.add_modifier },
            sub_modifier: Modifier { bold: false, ..self.sub_modifier },
            ..self
        }
    }
}

} // verus!
