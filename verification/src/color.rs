//! The closed set of named colors and their ANSI escape sequences.

use vstd::prelude::*;

verus! {

/// A named terminal foreground color. `End` is the sentinel that ends all
/// styling (the ANSI reset sequence).
#[derive(PartialEq, Eq, Clone, Copy, Structural)]
pub enum AsciiColor {
    Red,
    Green,
    Yellow,
    Blue,
    Purple,
    Cyan,
    White,
    Orange,
    Pink,
    Teal,
    Black,
    End,
}

/// The ANSI escape sequence of a color, as a sequence of characters.
pub open spec fn escape_seq(c: AsciiColor) -> Seq<char> {
    match c {
        AsciiColor::Black => "\x1b[30m"@,
        AsciiColor::Red => "\x1b[31m"@,
        AsciiColor::Green => "\x1b[32m"@,
        AsciiColor::Yellow => "\x1b[33m"@,
        AsciiColor::Blue => "\x1b[34m"@,
        AsciiColor::Purple => "\x1b[35m"@,
        AsciiColor::Cyan => "\x1b[36m"@,
        AsciiColor::White => "\x1b[37m"@,
        AsciiColor::Orange => "\x1b[38;5;208m"@,
        AsciiColor::Pink => "\x1b[38;5;205m"@,
        AsciiColor::Teal => "\x1b[38;5;51m"@,
        AsciiColor::End => "\x1b[0m"@,
    }
}

impl AsciiColor {
    /// The ANSI escape sequence that switches the terminal to this color
    /// (or, for `End`, resets all styling).
    pub fn escape(self) -> (r: &'static str)
        ensures
            r@ == escape_seq(self),
    {
        match self {
            AsciiColor::Black => "\x1b[30m",
            AsciiColor::Red => "\x1b[31m",
            AsciiColor::Green => "\x1b[32m",
            AsciiColor::Yellow => "\x1b[33m",
            AsciiColor::Blue => "\x1b[34m",
            AsciiColor::Purple => "\x1b[35m",
            AsciiColor::Cyan => "\x1b[36m",
            AsciiColor::White => "\x1b[37m",
            AsciiColor::Orange => "\x1b[38;5;208m",
            AsciiColor::Pink => "\x1b[38;5;205m",
            AsciiColor::Teal => "\x1b[38;5;51m",
            AsciiColor::End => "\x1b[0m",
        }
    }
}

/// The fixed palette used by digit coloring: digit value `d` is shown in
/// `digit_color(d)`.
pub open spec fn digit_color(d: int) -> AsciiColor {
    if d == 0 {
        AsciiColor::White
    } else if d == 1 {
        AsciiColor::Red
    } else if d == 2 {
        AsciiColor::Yellow
    } else if d == 3 {
        AsciiColor::Green
    } else if d == 4 {
        AsciiColor::Blue
    } else if d == 5 {
        AsciiColor::Purple
    } else if d == 6 {
        AsciiColor::Cyan
    } else if d == 7 {
        AsciiColor::Orange
    } else if d == 8 {
        AsciiColor::Pink
    } else {
        AsciiColor::Teal
    }
}

/// The palette color of a decimal digit value.
pub fn palette_color(d: u32) -> (r: AsciiColor)
    requires
        d <= 9,
    ensures
        r == digit_color(d as int),
{
    if d == 0 {
        AsciiColor::White
    } else if d == 1 {
        AsciiColor::Red
    } else if d == 2 {
        AsciiColor::Yellow
    } else if d == 3 {
        AsciiColor::Green
    } else if d == 4 {
        AsciiColor::Blue
    } else if d == 5 {
        AsciiColor::Purple
    } else if d == 6 {
        AsciiColor::Cyan
    } else if d == 7 {
        AsciiColor::Orange
    } else if d == 8 {
        AsciiColor::Pink
    } else {
        AsciiColor::Teal
    }
}

} // verus!
