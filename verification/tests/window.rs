//! Where things go in the window.

use std::collections::VecDeque;
use tach::window::{column_of, on_border, remember, room, row_of};

#[test]
fn border_is_the_first_and_last_column_and_row() {
    let (cols, rows) = (4, 3);
    let mut drawn = String::new();
    for y in 0..rows {
        for x in 0..cols {
            drawn.push(if on_border(x, y, cols, rows) { '#' } else { '.' });
        }
        drawn.push('/');
    }
    assert_eq!(drawn, "####/#..#/####/");
    assert!(on_border(0, 0, 1, 1));
}

#[test]
fn each_processor_has_ten_columns() {
    assert_eq!(column_of(0), 2);
    assert_eq!(column_of(1), 12);
    assert_eq!(column_of(255), 2552);
}

#[test]
fn recordings_start_in_the_fifth_row() {
    assert_eq!(row_of(0), Some(4));
    assert_eq!(row_of(10), Some(14));
    assert_eq!(row_of(65531), Some(65535));
    assert_eq!(row_of(65532), None);
}

#[test]
fn six_rows_show_no_recording() {
    assert_eq!(room(0), 0);
    assert_eq!(room(5), 0);
    assert_eq!(room(6), 0);
    assert_eq!(room(7), 1);
    assert_eq!(room(30), 24);
}

#[test]
fn oldest_recording_is_forgotten_when_there_is_no_room() {
    let mut history = VecDeque::new();
    remember(&mut history, 1, 2);
    remember(&mut history, 2, 2);
    assert_eq!(history, [1, 2]);
    remember(&mut history, 3, 2);
    assert_eq!(history, [2, 3]);
    remember(&mut history, 4, 0);
    assert_eq!(history, [3, 4]);
    let mut none = VecDeque::new();
    remember(&mut none, 1, 0);
    assert!(none.is_empty());
}
