//! A meter displaying cpu usage: a row of cells, each showing from none to
//! eight dots.

use std::collections::VecDeque;
use vstd::prelude::*;
use vstd::string::StringExecFns;

verus! {

/// a cell in a meter.
#[derive(Clone, Copy, Debug, PartialEq, Eq, Structural)]
pub enum Cell {
    Zero,
    One,
    Two,
    Three,
    Four,
    Five,
    Six,
    Seven,
    Eight,
}

/// a reading is a list of cells.
#[derive(Debug, PartialEq, Eq)]
pub struct Reading {
    /// the cells, from left to right.
    pub cells: Vec<Cell>,
}

impl Cell {
    /// the "resolution" of a cell.
    ///
    /// zero to eight dots can be shown in a cell.
    pub const RESOLUTION: u8 = 8;

    /// How many dots the cell shows.
    pub open spec fn dots(self) -> nat {
        match self {
            Cell::Zero => 0,
            Cell::One => 1,
            Cell::Two => 2,
            Cell::Three => 3,
            Cell::Four => 4,
            Cell::Five => 5,
            Cell::Six => 6,
            Cell::Seven => 7,
            Cell::Eight => 8,
        }
    }

    /// The character that shows the cell's dots: a braille pattern that is
    /// filled from the bottom.
    pub open spec fn glyph(self) -> char {
        match self {
            Cell::Zero => '\u{2800}',
            Cell::One => '\u{2840}',
            Cell::Two => '\u{28C0}',
            Cell::Three => '\u{28C4}',
            Cell::Four => '\u{28E4}',
            Cell::Five => '\u{28E6}',
            Cell::Six => '\u{28F6}',
            Cell::Seven => '\u{28F7}',
            Cell::Eight => '\u{28FF}',
        }
    }

    /// The cell that shows `value` dots, or `value` back where no cell
    /// shows as many.
    pub fn try_from(value: u8) -> (r: Result<Cell, u8>)
        ensures
            value <= 8 ==> r is Ok && r->Ok_0.dots() == value,
            value > 8 ==> r == Err::<Cell, u8>(value),
    {
        Ok(
            match value {
                0 => Cell::Zero,
                1 => Cell::One,
                2 => Cell::Two,
                3 => Cell::Three,
                4 => Cell::Four,
                5 => Cell::Five,
                6 => Cell::Six,
                7 => Cell::Seven,
                8 => Cell::Eight,
                other => {
                    return Err(other);
                },
            },
        )
    }

    /// The character that shows the cell's dots.
    pub fn as_char(&self) -> (c: char)
        ensures
            c == self.glyph(),
    {
        match self {
            Cell::Zero => '\u{2800}',
            Cell::One => '\u{2840}',
            Cell::Two => '\u{28C0}',
            Cell::Three => '\u{28C4}',
            Cell::Four => '\u{28E4}',
            Cell::Five => '\u{28E6}',
            Cell::Six => '\u{28F6}',
            Cell::Seven => '\u{28F7}',
            Cell::Eight => '\u{28FF}',
        }
    }

    /// The text that shows the cell's dots: its character alone.
    pub fn as_str(&self) -> (s: &'static str)
        ensures
            s@ == seq![self.glyph()],
    {
        proof {
            reveal_strlit("\u{2800}");
            reveal_strlit("\u{2840}");
            reveal_strlit("\u{28C0}");
            reveal_strlit("\u{28C4}");
            reveal_strlit("\u{28E4}");
            reveal_strlit("\u{28E6}");
            reveal_strlit("\u{28F6}");
            reveal_strlit("\u{28F7}");
            reveal_strlit("\u{28FF}");
        }
        let s = match self {
            Cell::Zero => "\u{2800}",
            Cell::One => "\u{2840}",
            Cell::Two => "\u{28C0}",
            Cell::Three => "\u{28C4}",
            Cell::Four => "\u{28E4}",
            Cell::Five => "\u{28E6}",
            Cell::Six => "\u{28F6}",
            Cell::Seven => "\u{28F7}",
            Cell::Eight => "\u{28FF}",
        };
        assert(s@ =~= seq![self.glyph()]);
        s
    }
}

/// The cells of a meter `width` cells wide that shows `amount` dots, filled
/// from the left: full cells, then one cell with the dots that do not fill a
/// cell, then empty cells.
pub open spec fn placed(amount: nat, width: nat) -> Seq<nat> {
    Seq::new(
        width,
        |i: int|
            if i < amount / 8 {
                8nat
            } else if i == amount / 8 {
                amount % 8
            } else {
                0nat
            },
    )
}

/// The cells `cells` dealt out from the middle: the first cell stays where
/// it is, and the others go by turns to the left end and to the right end.
pub open spec fn spread<T>(cells: Seq<T>) -> Seq<T> {
    let left = cells.len() / 2;
    Seq::new(
        cells.len(),
        |j: int|
            if j < left {
                cells[2 * (left - j) - 1]
            } else {
                cells[2 * (j - left)]
            },
    )
}

/// A meter `width` cells wide that shows `amount` dots, filled from the
/// left.
///
/// The meter has at least one cell, and the dots that fill whole cells fill
/// no more cells than the meter has.
pub fn placeholder(amount: u8, width: usize) -> (reading: Reading)
    requires
        width > 0,
        amount / 8 <= width,
    ensures
        reading.cells@.map_values(|c: Cell| c.dots()) == placed(amount as nat, width as nat),
{
    let filled: usize = (amount / Cell::RESOLUTION) as usize;
    // fewer than eight dots are left over, and a cell shows as many.
    let rem = match Cell::try_from(amount % Cell::RESOLUTION) {
        Ok(rem) => rem,
        Err(_) => Cell::Zero,
    };
    let mut cells: Vec<Cell> = Vec::new();
    let mut i: usize = 0;
    while i < width
        invariant
            i <= width,
            filled == amount / 8,
            rem.dots() == amount % 8,
            cells@.len() == i,
            forall|j: int|
                0 <= j < i ==> (#[trigger] cells@[j]).dots() == placed(amount as nat, width as nat)[j],
        decreases width - i,
    {
        if i < filled {
            cells.push(Cell::Eight);
        } else if i == filled {
            cells.push(rem);
        } else {
            cells.push(Cell::Zero);
        }
        i = i + 1;
    }
    assert(cells@.map_values(|c: Cell| c.dots()) =~= placed(amount as nat, width as nat));
    Reading { cells }
}

/// Deals the cells out from the middle: the first cell stays where it is,
/// and the others go by turns to the left end and to the right end.
pub fn middle_fill(cells: Vec<Cell>) -> (filled: Vec<Cell>)
    ensures
        filled@ == spread(cells@),
{
    let n = cells.len();
    let mut new: VecDeque<Cell> = VecDeque::new();
    let mut flip = false;
    let mut i: usize = 0;
    assert(new@ =~= spread(cells@.take(0)));
    while i < n
        invariant
            i <= n,
            n == cells@.len(),
            flip == (i % 2 == 1),
            new@ == spread(cells@.take(i as int)),
        decreases n - i,
    {
        let next = cells[i];
        let ghost before = cells@.take(i as int);
        let ghost after = cells@.take(i + 1);
        if flip {
            new.push_front(next);
            assert(new@ =~= spread(after)) by {
                assert forall|j: int| 0 <= j < after.len() implies new@[j] == spread(after)[j] by {
                    if j > 0 {
                        assert(new@[j] == spread(before)[j - 1]);
                    }
                }
            }
        } else {
            new.push_back(next);
            assert(new@ =~= spread(after));
        }
        flip = !flip;
        i = i + 1;
    }
    assert(cells@.take(n as int) =~= cells@);
    let mut filled: Vec<Cell> = Vec::new();
    let mut j: usize = 0;
    while j < n
        invariant
            j <= n,
            n == new@.len(),
            filled@ == new@.take(j as int),
        decreases n - j,
    {
        filled.push(new[j]);
        assert(new@.take(j + 1) =~= new@.take(j as int).push(new@[j as int]));
        j = j + 1;
    }
    assert(new@.take(n as int) =~= new@);
    filled
}

/// A bar of a hundred characters for the percentage `percent`: as many `X`
/// as `percent` says, and blanks after them.
pub open spec fn bar_of(percent: nat) -> Seq<char> {
    Seq::new(
        100,
        |i: int|
            if i < percent {
                'X'
            } else {
                ' '
            },
    )
}

/// A bar of a hundred characters for the percentage `percent`: as many `X`
/// as `percent` says, and blanks after them.
pub fn bar(percent: u8) -> (text: String)
    ensures
        text@ == bar_of(percent as nat),
{
    proof {
        reveal_strlit("X");
        reveal_strlit(" ");
    }
    let mut text = String::new();
    let mut i: u8 = 0;
    while i < 100
        invariant
            i <= 100,
            "X"@ == seq!['X'],
            " "@ == seq![' '],
            text@ == bar_of(percent as nat).take(i as int),
        decreases 100 - i,
    {
        if i < percent {
            text.append("X");
        } else {
            text.append(" ");
        }
        assert(bar_of(percent as nat).take(i + 1) =~= bar_of(percent as nat).take(i as int)
            + seq![bar_of(percent as nat)[i as int]]);
        i = i + 1;
    }
    assert(bar_of(percent as nat).take(100) =~= bar_of(percent as nat));
    text
}

impl Reading {
    /// The characters that show the reading, from left to right.
    pub open spec fn glyphs(self) -> Seq<char> {
        self.cells@.map_values(|c: Cell| c.glyph())
    }

    /// The text that shows the reading: one character for each cell.
    pub fn to_string(&self) -> (text: String)
        ensures
            text@ == self.glyphs(),
    {
        let mut text = String::new();
        let n = self.cells.len();
        let mut i: usize = 0;
        while i < n
            invariant
                i <= n,
                n == self.cells@.len(),
                text@ == self.glyphs().take(i as int),
            decreases n - i,
        {
            text.append(self.cells[i].as_str());
            assert(self.glyphs().take(i + 1) =~= self.glyphs().take(i as int) + seq![
                self.cells@[i as int].glyph(),
            ]);
            i = i + 1;
        }
        assert(self.glyphs().take(n as int) =~= self.glyphs());
        text
    }
}

} // verus!
