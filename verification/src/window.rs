//! Where things go in the tui window: a border, a heading for each
//! processor, and below the headings one row for each recording that is
//! remembered.

use std::collections::VecDeque;
use vstd::prelude::*;

verus! {

/// How many columns each processor has to itself.
pub const COLUMN_WIDTH: u16 = 10;

/// The column left of the first processor's.
pub const LEFT_MARGIN: u16 = 2;

/// The row of the headings.
pub const HEADING_ROW: u16 = 2;

/// The row of the oldest recording that is remembered.
pub const FIRST_ROW: u16 = 4;

/// How many rows of the window show no recording.
pub const ROWS_TAKEN: u16 = 6;

/// Whether the cell in column `x` and row `y` is on the border of a window
/// of `cols` columns and `rows` rows: in its first or last column, or in its
/// first or last row.
pub fn on_border(x: u16, y: u16, cols: u16, rows: u16) -> (on: bool)
    requires
        x < cols,
        y < rows,
    ensures
        on == (x == 0 || y == 0 || x == cols - 1 || y == rows - 1),
{
    (y == 0 || y == rows - 1) || (x == 0 || x == cols - 1)
}

/// The column in which what is shown of the processor `cpu` starts.
pub fn column_of(cpu: u8) -> (x: u16)
    ensures
        x == cpu * 10 + 2,
{
    (cpu as u16) * COLUMN_WIDTH + LEFT_MARGIN
}

/// The row of the recording that is the `age`-th oldest of those
/// remembered, counted from zero, or `None` where the window's rows are not
/// numbered that far.
pub fn row_of(age: usize) -> (y: Option<u16>)
    ensures
        age + 4 <= u16::MAX ==> y == Some((age + 4) as u16),
        age + 4 > u16::MAX ==> y is None,
{
    if age <= (u16::MAX - FIRST_ROW) as usize {
        Some(age as u16 + FIRST_ROW)
    } else {
        None
    }
}

/// How many recordings a window of `rows` rows has room for.
pub fn room(rows: u16) -> (n: usize)
    ensures
        n == if rows >= 6 {
            rows - 6
        } else {
            0
        },
{
    if rows >= ROWS_TAKEN {
        (rows - ROWS_TAKEN) as usize
    } else {
        0
    }
}

/// What is remembered once `item` is added to `history` and there is room
/// for `room` items: `item` comes last, and the oldest item is forgotten if
/// there are more than `room` of them with it.
pub open spec fn remembered<T>(history: Seq<T>, item: T, room: nat) -> Seq<T> {
    if history.len() + 1 > room {
        history.push(item).skip(1)
    } else {
        history.push(item)
    }
}

/// Adds `item` to `history`, and forgets the oldest item if there are now
/// more than `room` of them.
pub fn remember<T>(history: &mut VecDeque<T>, item: T, room: usize)
    ensures
        final(history)@ == remembered(old(history)@, item, room as nat),
{
    history.push_back(item);
    if history.len() > room {
        let ghost full = history@;
        history.pop_front();
        assert(history@ =~= full.skip(1));
    }
}

} // verus!
