//! What is sent to the terminal to draw changed cells: cursor moves, color
//! and attribute changes, and the cells' symbols.

use vstd::prelude::*;
use crate::tui::style::{Color, Modifier};

verus! {

/// A text attribute command of the terminal.
#[derive(Clone, Copy, PartialEq, Eq, Debug)]
pub enum Attribute {
    Reset,
    Bold,
    Dim,
    NormalIntensity,
    Italic,
    NoItalic,
    Underlined,
    NoUnderline,
    SlowBlink,
    RapidBlink,
    NoBlink,
    Reverse,
    NoReverse,
    CrossedOut,
    NotCrossedOut,
}

/// A color as the terminal names them.
#[derive(Clone, Copy, PartialEq, Eq, Debug)]
pub enum TermColor {
    Reset,
    Black,
    DarkRed,
    DarkGreen,
    DarkYellow,
    DarkBlue,
    DarkMagenta,
    DarkCyan,
    Grey,
    DarkGrey,
    Red,
    Green,
    Yellow,
    Blue,
    Magenta,
    Cyan,
    White,
    AnsiValue(u8),
    Rgb { r: u8, g: u8, b: u8 },
}

/// The terminal's name of a color: the plain colors are its dark ones, the
/// light colors its plain ones.
pub open spec fn spec_term_color(c: Color) -> TermColor {
    match c {
        Color::Reset => TermColor::Reset,
        Color::Black => TermColor::Black,
        Color::Red => TermColor::DarkRed,
        Color::Green => TermColor::DarkGreen,
        Color::Yellow => TermColor::DarkYellow,
        Color::Blue => TermColor::DarkBlue,
        Color::Magenta => TermColor::DarkMagenta,
        Color::Cyan => TermColor::DarkCyan,
        Color::Gray => TermColor::Grey,
        Color::DarkGray => TermColor::DarkGrey,
        Color::LightRed => TermColor::Red,
        Color::LightGreen => TermColor::Green,
        Color::LightBlue => TermColor::Blue,
        Color::LightYellow => TermColor::Yellow,
        Color::LightMagenta => TermColor::Magenta,
        Color::LightCyan => TermColor::Cyan,
        Color::White => TermColor::White,
        Color::Indexed(i) => TermColor::AnsiValue(i),
        Color::Rgb(r, g, b) => TermColor::Rgb { r, g, b },
    }
}

/// The terminal's name of a color (see [`spec_term_color`]).
pub fn term_color(c: Color) -> (t: TermColor)
    ensures
        t == spec_term_color(c),
{
    match c {
        Color::Reset => TermColor::Reset,
        Color::Black => TermColor::Black,
        Color::Red => TermColor::DarkRed,
        Color::Green => TermColor::DarkGreen,
        Color::Yellow => TermColor::DarkYellow,
        Color::Blue => TermColor::DarkBlue,
        Color::Magenta => TermColor::DarkMagenta,
        Color::Cyan => TermColor::DarkCyan,
        Color::Gray => TermColor::Grey,
        Color::DarkGray => TermColor::DarkGrey,
        Color::LightRed => TermColor::Red,
        Color::LightGreen => TermColor::Green,
        Color::LightBlue => TermColor::Blue,
        Color::LightYellow => TermColor::Yellow,
        Color::LightMagenta => TermColor::Magenta,
        Color::LightCyan => TermColor::Cyan,
        Color::White => TermColor::White,
        Color::Indexed(i) => TermColor::AnsiValue(i),
        Color::Rgb(r, g, b) => TermColor::Rgb { r, g, b },
    }
}

/// `a` when `b` holds, else nothing.
pub open spec fn when(b: bool, a: Attribute) -> Seq<Attribute> {
    if b { seq![a] } else { Seq::empty() }
}

/// A change of the modifiers in effect.
#[derive(Clone, Copy, Debug)]
pub struct ModifierDiff {
    pub from: Modifier,
    pub to: Modifier,
}

impl ModifierDiff {
    /// The attribute commands that switch from `from` to `to`: first those
    /// that turn removed modifiers off (turning bold off also ends dim
    /// text, so dim is set again if it stays), then those that turn added
    /// ones on.
    #[verifier::opaque]
    pub open spec fn spec_attributes(self) -> Seq<Attribute> {
        let removed = self.from.spec_minus(self.to);
        let added = self.to.spec_minus(self.from);
        when(removed.reversed, Attribute::NoReverse)
            + when(removed.bold, Attribute::NormalIntensity)
            + when(removed.bold && self.to.dim, Attribute::Dim)
            + when(removed.italic, Attribute::NoItalic)
            + when(removed.underlined, Attribute::NoUnderline)
            + when(removed.dim, Attribute::NormalIntensity)
            + when(removed.crossed_out, Attribute::NotCrossedOut)
            + when(removed.slow_blink || removed.rapid_blink, Attribute::NoBlink)
            + when(added.reversed, Attribute::Reverse)
            + when(added.bold, Attribute::Bold)
            + when(added.italic, Attribute::Italic)
            + when(added.underlined, Attribute::Underlined)
            + when(added.dim, Attribute::Dim)
            + when(added.crossed_out, Attribute::CrossedOut)
            + when(added.slow_blink, Attribute::SlowBlink)
            + when(added.rapid_blink, Attribute::RapidBlink)
    }

    /// The attribute commands that switch from `from` to `to` (see
    /// [`ModifierDiff::spec_attributes`]).
    pub fn queue(&self) -> (r: Vec<Attribute>)
        ensures
            r@ == self.spec_attributes(),
    {
        let removed = self.from.minus(self.to);
        let added = self.to.minus(self.from);
        let mut r: Vec<Attribute> = Vec::new();
        push_when(&mut r, removed.reversed, Attribute::NoReverse);
        push_when(&mut r, removed.bold, Attribute::NormalIntensity);
        push_when(&mut r, removed.bold && self.to.dim, Attribute::Dim);
        push_when(&mut r, removed.italic, Attribute::NoItalic);
        push_when(&mut r, removed.underlined, Attribute::NoUnderline);
        push_when(&mut r, removed.dim, Attribute::NormalIntensity);
        push_when(&mut r, removed.crossed_out, Attribute::NotCrossedOut);
        push_when(&mut r, removed.slow_blink || removed.rapid_blink, Attribute::NoBlink);
        push_when(&mut r, added.reversed, Attribute::Reverse);
        push_when(&mut r, added.bold, Attribute::Bold);
        push_when(&mut r, added.italic, Attribute::Italic);
        push_when(&mut r, added.underlined, Attribute::Underlined);
        push_when(&mut r, added.dim, Attribute::Dim);
        push_when(&mut r, added.crossed_out, Attribute::CrossedOut);
        push_when(&mut r, added.slow_blink, Attribute::SlowBlink);
        push_when(&mut r, added.rapid_blink, Attribute::RapidBlink);
        proof { reveal(ModifierDiff::spec_attributes); }
        assert(r@ =~= self.spec_attributes());
        r
    }
}

/// Appends `a` when `b` holds.
fn push_when(v: &mut Vec<Attribute>, b: bool, a: Attribute)
    ensures
        final(v)@ == old(v)@ + when(b, a),
{
    let ghost before = v@;
    if b {
        v.push(a);
    }
    assert(v@ =~= before + when(b, a));
}

/// A cell to draw: its position, symbol, colors and modifiers.
pub struct Cell {
    pub x: u16,
    pub y: u16,
    pub symbol: String,
    pub fg: Color,
    pub bg: Color,
    pub modifier: Modifier,
}

/// A command to the terminal.
#[derive(Clone, Copy, PartialEq, Eq, Debug)]
pub enum Command {
    /// Moves the cursor to a column and row.
    MoveTo(u16, u16),
    /// Changes an attribute.
    SetAttribute(Attribute),
    SetForeground(TermColor),
    SetBackground(TermColor),
    /// Prints the symbol of the cell with this position in the input.
    Print(usize),
}

/// What is in effect while drawing: colors, modifiers and the last cell
/// position.
pub struct Pen {
    pub fg: Color,
    pub bg: Color,
    pub modifier: Modifier,
    pub last_pos: Option<(u16, u16)>,
}

/// The commands for one cell (the `i`-th) with the pen as it is, and the
/// pen after it: a move unless the cell follows the last one in its row,
/// the attribute changes, the color changes, and the symbol.
pub open spec fn cell_commands(pen: (Color, Color, Modifier, Option<(u16, u16)>), c: Cell, i: int)
    -> (Seq<Command>, (Color, Color, Modifier, Option<(u16, u16)>))
{
    let (fg, bg, modifier, last) = pen;
    let adjacent = last matches Some(p) && c.x == p.0 + 1 && c.y == p.1;
    let mv = if adjacent { Seq::empty() } else { seq![Command::MoveTo(c.x, c.y)] };
    let attrs = if c.modifier != modifier {
        ModifierDiff { from: modifier, to: c.modifier }.spec_attributes().map_values(|a: Attribute| Command::SetAttribute(a))
    } else {
        Seq::empty()
    };
    let fgs = if c.fg != fg { seq![Command::SetForeground(spec_term_color(c.fg))] } else { Seq::empty() };
    let bgs = if c.bg != bg { seq![Command::SetBackground(spec_term_color(c.bg))] } else { Seq::empty() };
    (mv + attrs + fgs + bgs + seq![Command::Print(i as usize)], (c.fg, c.bg, c.modifier, Some((c.x, c.y))))
}

/// The commands for the cells, starting with reset colors and no
/// modifiers, and the pen afterwards.
pub open spec fn cells_commands(cells: Seq<Cell>) -> (Seq<Command>, (Color, Color, Modifier, Option<(u16, u16)>))
    decreases cells.len(),
{
    if cells.len() == 0 {
        (Seq::empty(), (Color::Reset, Color::Reset, Modifier::spec_empty(), None))
    } else {
        let (before, pen) = cells_commands(cells.drop_last());
        let (cmds, after) = cell_commands(pen, cells.last(), cells.len() - 1);
        (before + cmds, after)
    }
}

/// The commands that draw the cells and then reset the colors and the
/// attributes.
pub open spec fn spec_draw(cells: Seq<Cell>) -> Seq<Command> {
    cells_commands(cells).0 + seq![
        Command::SetForeground(TermColor::Reset),
        Command::SetBackground(TermColor::Reset),
        Command::SetAttribute(Attribute::Reset),
    ]
}

/// Appends the commands for the `i`-th cell and moves the pen past it (see
/// [`cell_commands`]).
fn push_cell(out: &mut Vec<Command>, pen: &mut (Color, Color, Modifier, Option<(u16, u16)>), c: &Cell, i: usize)
    ensures
        final(out)@ == old(out)@ + cell_commands(*old(pen), *c, i as int).0,
        *final(pen) == cell_commands(*old(pen), *c, i as int).1,
{
    let ghost before = out@;
    let adjacent = match pen.3 {
        Some(p) => p.0 < u16::MAX && c.x == p.0 + 1 && c.y == p.1,
        None => false,
    };
    if !adjacent {
        out.push(Command::MoveTo(c.x, c.y));
    }
    let ghost after_move = out@;
    if !c.modifier.same(pen.2) {
        let attrs = ModifierDiff { from: pen.2, to: c.modifier }.queue();
        let mut k: usize = 0;
        while k < attrs.len()
            invariant
                k <= attrs@.len(),
                out@ == after_move + attrs@.take(k as int).map_values(|a: Attribute| Command::SetAttribute(a)),
            decreases attrs@.len() - k,
        {
            out.push(Command::SetAttribute(attrs[k]));
            assert(attrs@.take(k + 1).map_values(|a: Attribute| Command::SetAttribute(a))
                =~= attrs@.take(k as int).map_values(|a: Attribute| Command::SetAttribute(a)).push(
                Command::SetAttribute(attrs@[k as int])));
            k = k + 1;
        }
        assert(attrs@.take(attrs@.len() as int) =~= attrs@);
    }
    let ghost after_attrs = out@;
    if c.fg != pen.0 {
        out.push(Command::SetForeground(term_color(c.fg)));
    }
    let ghost after_fg = out@;
    if c.bg != pen.1 {
        out.push(Command::SetBackground(term_color(c.bg)));
    }
    let ghost after_bg = out@;
    out.push(Command::Print(i));
    proof {
        let (cmds, _) = cell_commands(*old(pen), *c, i as int);
        assert(out@ =~= before + cmds);
    }
    *pen = (c.fg, c.bg, c.modifier, Some((c.x, c.y)));
}

/// The commands that draw the cells (see [`spec_draw`]).
pub fn draw(cells: &Vec<Cell>) -> (r: Vec<Command>)
    ensures
        r@ == spec_draw(cells@),
{
    let mut out: Vec<Command> = Vec::new();
    let mut pen: (Color, Color, Modifier, Option<(u16, u16)>) = (Color::Reset, Color::Reset, Modifier::empty(), None);
    let mut i: usize = 0;
    while i < cells.len()
        invariant
            i <= cells@.len(),
            (out@, pen) == cells_commands(cells@.take(i as int)),
        decreases cells@.len() - i,
    {
        assert(cells@.take(i + 1).drop_last() =~= cells@.take(i as int));
        push_cell(&mut out, &mut pen, &cells[i], i);
        i = i + 1;
    }
    assert(cells@.take(cells@.len() as int) =~= cells@);
    out.push(Command::SetForeground(TermColor::Reset));
    out.push(Command::SetBackground(TermColor::Reset));
    out.push(Command::SetAttribute(Attribute::Reset));
    out
}

} // verus!
