//! The colors of the terminal. The colors that the terminal is in are a
//! value that printing takes and gives back, so that a color is only sent
//! when it changes.

use vstd::prelude::*;

verus! {

/// A background color.
#[derive(Clone, Copy, Debug, PartialEq, Eq, Structural)]
pub enum Bg {
    Default,
    Custom(u8),
}

/// A foreground color.
#[derive(Clone, Copy, Debug, PartialEq, Eq, Structural)]
pub enum Fg {
    Black,
    Blue,
    Cyan,
    Default,
    Green,
    LightGray,
    Magenta,
    Red,
    White,
    Yellow,
}

/// The colors that the terminal is in.
#[derive(Clone, Copy, Debug, PartialEq, Eq, Structural)]
pub struct Colors {
    pub fg: Fg,
    pub bg: Bg,
}

impl Colors {
    /// The colors of a terminal that has been sent none.
    pub fn new() -> (r: Colors)
        ensures
            r == (Colors { fg: Fg::Default, bg: Bg::Default }),
    {
        Colors { fg: Fg::Default, bg: Bg::Default }
    }
}

impl Bg {
    /// The background that the terminal is in.
    pub fn get(colors: &Colors) -> (r: Bg)
        ensures
            r == colors.bg,
    {
        colors.bg
    }

    /// Notes that the terminal is in this background.
    pub fn set(&self, colors: &mut Colors)
        ensures
            *final(colors) == (Colors { fg: old(colors).fg, bg: *self }),
    {
        colors.bg = *self;
    }
}

impl Fg {
    /// The foreground that the terminal is in.
    pub fn get(colors: &Colors) -> (r: Fg)
        ensures
            r == colors.fg,
    {
        colors.fg
    }

    /// Notes that the terminal is in this foreground.
    pub fn set(&self, colors: &mut Colors)
        ensures
            *final(colors) == (Colors { fg: *self, bg: old(colors).bg }),
    {
        colors.fg = *self;
    }
}

} // verus!
