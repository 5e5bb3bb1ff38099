//! ANSI color formatting for terminal output.

use vstd::prelude::*;
use vstd::string::StringExecFns;

verus! {

/// A terminal color, rendered as an ANSI escape sequence.
pub enum Color {
    Black,
    Red,
    Green,
    Yellow,
    Blue,
    Magenta,
    Cyan,
    White,
    Default,
}

impl Color {
    /// The ANSI escape sequence that switches the terminal to this color.
    pub open spec fn spec_code(self) -> Seq<char> {
        match self {
            Color::Black => "\x1b[30m"@,
            Color::Red => "\x1b[31m"@,
            Color::Green => "\x1b[32m"@,
            Color::Yellow => "\x1b[33m"@,
            Color::Blue => "\x1b[34m"@,
            Color::Magenta => "\x1b[35m"@,
            Color::Cyan => "\x1b[36m"@,
            Color::White => "\x1b[37m"@,
            Color::Default => "\x1b[39m"@,
        }
    }

    /// Wraps `txt` in this color's escape sequence followed by the reset
    /// sequence, so the text prints colored and the terminal returns to
    /// its default afterwards.
    pub fn new(&self, txt: &str) -> (r: String)
        ensures
            r@ == self.spec_code() + txt@ + "\x1b[0m"@,
    {
        match self {
            Color::Black => self.cfmt("\x1b[30m", txt),
            Color::Red => self.cfmt("\x1b[31m", txt),
            Color::Green => self.cfmt("\x1b[32m", txt),
            Color::Yellow => self.cfmt("\x1b[33m", txt),
            Color::Blue => self.cfmt("\x1b[34m", txt),
            Color::Magenta => self.cfmt("\x1b[35m", txt),
            Color::Cyan => self.cfmt("\x1b[36m", txt),
            Color::White => self.cfmt("\x1b[37m", txt),
            Color::Default => self.cfmt("\x1b[39m", txt),
        }
    }

    fn cfmt(&self, color: &str, txt: &str) -> (r: String)
        ensures
            r@ == color@ + txt@ + "\x1b[0m"@,
    {
        let mut r = color.to_owned();
        r.append(txt);
        r.append("\x1b[0m");
        r
    }
}

} // verus!
