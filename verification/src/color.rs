//! Named colours and their packed 24-bit RGB values.

use vstd::prelude::*;

verus! {

/// A named colour. Each name stands for one packed RGB value, red in the
/// high byte and blue in the low byte.
#[derive(Debug, Clone, Copy, PartialEq, Eq, Structural)]
pub enum Color {
    Red,
    Green,
    Blue,
    White,
    Black,
    Yellow,
    Cyan,
    Magenta,
    Orange,
    Purple,
    Brown,
    Pink,
    Grey,
    Gold,
    Silver,
    Background,
    GruvboxBrightRed,
    GruvboxBrightGreen,
    GruvboxBrightYellow,
    GruvboxBrightBlue,
    GruvboxBrightPurple,
    GruvboxBrightAqua,
    GruvboxBrightOrange,
    GruvboxDarkRed,
    GruvboxDarkGreen,
    GruvboxDarkYellow,
    GruvboxDarkBlue,
    GruvboxDarkPurple,
    GruvboxDarkAqua,
    GruvboxDarkOrange,
}

impl Color {
    /// The packed RGB value that the name stands for.
    pub open spec fn value(self) -> u32 {
        match self {
            Color::Red => 0xFF0000,
            Color::Green => 0x00FF00,
            Color::Blue => 0x0000FF,
            Color::White => 0xFFFFFF,
            Color::Black => 0x000000,
            Color::Yellow => 0xFFFF00,
            Color::Cyan => 0x00FFFF,
            Color::Magenta => 0xFF00FF,
            Color::Orange => 0xFFA500,
            Color::Purple => 0x800080,
            Color::Brown => 0xA52A2A,
            Color::Pink => 0xFFC0CB,
            Color::Grey => 0x808080,
            Color::Gold => 0xFFD700,
            Color::Silver => 0xC0C0C0,
            Color::Background => 0x181818,
            Color::GruvboxBrightRed => 0xFB4934,
            Color::GruvboxBrightGreen => 0xB8BB26,
            Color::GruvboxBrightYellow => 0xFABD2F,
            Color::GruvboxBrightBlue => 0x83A598,
            Color::GruvboxBrightPurple => 0xD3869B,
            Color::GruvboxBrightAqua => 0x8EC07C,
            Color::GruvboxBrightOrange => 0xFE8019,
            Color::GruvboxDarkRed => 0xCC241D,
            Color::GruvboxDarkGreen => 0x98971A,
            Color::GruvboxDarkYellow => 0xD79921,
            Color::GruvboxDarkBlue => 0x458588,
            Color::GruvboxDarkPurple => 0xB16286,
            Color::GruvboxDarkAqua => 0x689D6A,
            Color::GruvboxDarkOrange => 0xD65D0E,
        }
    }

    /// Returns the packed RGB value of the colour, which fits in 24 bits.
    pub fn rgb(self) -> (packed: u32)
        ensures
            packed == self.value(),
            packed <= 0xFFFFFF,
    {
        match self {
            Color::Red => 0xFF0000,
            Color::Green => 0x00FF00,
            Color::Blue => 0x0000FF,
            Color::White => 0xFFFFFF,
            Color::Black => 0x000000,
            Color::Yellow => 0xFFFF00,
            Color::Cyan => 0x00FFFF,
            Color::Magenta => 0xFF00FF,
            Color::Orange => 0xFFA500,
            Color::Purple => 0x800080,
            Color::Brown => 0xA52A2A,
            Color::Pink => 0xFFC0CB,
            Color::Grey => 0x808080,
            Color::Gold => 0xFFD700,
            Color::Silver => 0xC0C0C0,
            Color::Background => 0x181818,
            Color::GruvboxBrightRed => 0xFB4934,
            Color::GruvboxBrightGreen => 0xB8BB26,
            Color::GruvboxBrightYellow => 0xFABD2F,
            Color::GruvboxBrightBlue => 0x83A598,
            Color::GruvboxBrightPurple => 0xD3869B,
            Color::GruvboxBrightAqua => 0x8EC07C,
            Color::GruvboxBrightOrange => 0xFE8019,
            Color::GruvboxDarkRed => 0xCC241D,
            Color::GruvboxDarkGreen => 0x98971A,
            Color::GruvboxDarkYellow => 0xD79921,
            Color::GruvboxDarkBlue => 0x458588,
            Color::GruvboxDarkPurple => 0xB16286,
            Color::GruvboxDarkAqua => 0x689D6A,
            Color::GruvboxDarkOrange => 0xD65D0E,
        }
    }
}

} // verus!
