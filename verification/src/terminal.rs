//! What is sent to the terminal: one glyph at one position at a time.

use vstd::prelude::*;
use vstd::string::StringExecFns;

verus! {

/// What a cell of the terminal is set to.
#[derive(Clone, Copy, Debug, PartialEq, Eq, Structural)]
pub enum Glyph {
    /// The brush's mark, `#`.
    Mark,
    /// An empty cell, a space.
    Blank,
}

impl Glyph {
    /// The character that stands in the cell.
    pub open spec fn symbol(self) -> char {
        match self {
            Glyph::Mark => '#',
            Glyph::Blank => ' ',
        }
    }

    /// The mark where `is_there` holds, the blank where it does not.
    pub open spec fn for_presence(is_there: bool) -> Glyph {
        if is_there {
            Glyph::Mark
        } else {
            Glyph::Blank
        }
    }

    /// The mark where `is_there` holds, the blank where it does not.
    pub fn of(is_there: bool) -> (g: Glyph)
        ensures
            g == Glyph::for_presence(is_there),
    {
        if is_there {
            Glyph::Mark
        } else {
            Glyph::Blank
        }
    }
}

/// One request to the terminal: set the cell in column `col` of row `row`
/// to `glyph`. Columns and rows are counted from 1.
#[derive(Clone, Copy, Debug, PartialEq, Eq, Structural)]
pub struct SetGlyph {
    pub col: u16,
    pub row: u16,
    pub glyph: Glyph,
}

/// The character of a decimal digit.
pub open spec fn digit(d: nat) -> char {
    if d == 0 {
        '0'
    } else if d == 1 {
        '1'
    } else if d == 2 {
        '2'
    } else if d == 3 {
        '3'
    } else if d == 4 {
        '4'
    } else if d == 5 {
        '5'
    } else if d == 6 {
        '6'
    } else if d == 7 {
        '7'
    } else if d == 8 {
        '8'
    } else {
        '9'
    }
}

/// `n` written in decimal digits, without sign or leading zeros.
pub open spec fn decimal(n: nat) -> Seq<char>
    decreases n,
{
    if n < 10 {
        seq![digit(n)]
    } else {
        decimal(n / 10).push(digit(n % 10))
    }
}

/// The control sequence that moves the cursor to column `col` of row
/// `row`: escape, `[`, the row, `;`, the column, `H`.
pub open spec fn goto_text(col: nat, row: nat) -> Seq<char> {
    seq!['\x1b', '['] + decimal(row) + seq![';'] + decimal(col) + seq!['H']
}

/// Formats `termion::cursor::Goto(col, row)` by its `Display`. That impl
/// writes the escape character and `[`, the second field, `;`, the first
/// field and `H`, each field as `u16` is displayed: in decimal. It refuses
/// the position `(0, 0)`.
#[verifier::external_body]
fn cursor_goto(col: u16, row: u16) -> (text: String)
    requires
        col != 0 || row != 0,
    ensures
        text@ == goto_text(col as nat, row as nat),
{
    format!("{}", termion::cursor::Goto(col, row))
}

impl SetGlyph {
    /// Whether the position is one that is counted from 1.
    pub open spec fn wf(self) -> bool {
        self.col >= 1 && self.row >= 1
    }

    /// The characters that carry out the request: the cursor movement, then
    /// the glyph.
    pub open spec fn text_spec(self) -> Seq<char> {
        goto_text(self.col as nat, self.row as nat).push(self.glyph.symbol())
    }

    /// Renders the request as the text to write to the terminal.
    pub fn text(&self) -> (text: String)
        requires
            self.wf(),
        ensures
            text@ == self.text_spec(),
    {
        let mut text = cursor_goto(self.col, self.row);
        match self.glyph {
            Glyph::Mark => {
                proof {
                    reveal_strlit("#");
                }
                text.append("#");
                assert(text@ =~= self.text_spec());
            },
            Glyph::Blank => {
                proof {
                    reveal_strlit(" ");
                }
                text.append(" ");
                assert(text@ =~= self.text_spec());
            },
        }
        text
    }
}

} // verus!
