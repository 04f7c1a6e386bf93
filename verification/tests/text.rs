//! Characters, words and numbers in text.

use tach::stat::number::{read_unsigned, IntParseError};
use tach::stat::text::{chars_of, is_whitespace, split_words};

fn words_of(text: &str) -> Vec<String> {
    let chars = chars_of(text);
    split_words(&chars)
        .into_iter()
        .map(|(from, to)| chars[from..to].iter().collect())
        .collect()
}

#[test]
fn white_space_is_what_unicode_says_it_is() {
    for code in 0..=0x10FFFF_u32 {
        if let Some(c) = char::from_u32(code) {
            assert_eq!(is_whitespace(c), c.is_whitespace(), "{code:#x}");
        }
    }
}

#[test]
fn characters_are_counted_one_by_one() {
    assert_eq!(chars_of(""), vec![]);
    assert_eq!(chars_of("cpu 1"), vec!['c', 'p', 'u', ' ', '1']);
    assert_eq!(chars_of("\u{28FF}\u{e9}x"), vec!['\u{28FF}', '\u{e9}', 'x']);
}

#[test]
fn words_are_the_longest_runs_that_are_not_white_space() {
    assert_eq!(words_of(""), Vec::<String>::new());
    assert_eq!(words_of(" \t \n"), Vec::<String>::new());
    assert_eq!(words_of("cpu"), vec!["cpu"]);
    assert_eq!(words_of("cpu  1 22\t333 "), vec!["cpu", "1", "22", "333"]);
    assert_eq!(words_of("  a b"), vec!["a", "b"]);
    assert_eq!(words_of("a\u{00A0}b\u{3000}c"), vec!["a", "b", "c"]);
}

#[test]
fn words_are_told_by_where_they_are() {
    let chars = chars_of(" ab  c");
    assert_eq!(split_words(&chars), vec![(1, 3), (5, 6)]);
    let chars = chars_of("\u{e9}t\u{e9} x");
    assert_eq!(split_words(&chars), vec![(0, 3), (4, 5)]);
}

#[test]
fn numbers_are_read_up_to_the_largest_allowed() {
    let read = |text: &str, max: u64| read_unsigned(&chars_of(text), max);
    assert_eq!(read("0", 0), Ok(0));
    assert_eq!(read("1", 0), Err(IntParseError::PosOverflow));
    assert_eq!(read("255", 255), Ok(255));
    assert_eq!(read("256", 255), Err(IntParseError::PosOverflow));
    assert_eq!(read("000255", 255), Ok(255));
    assert_eq!(read("+255", 255), Ok(255));
    assert_eq!(read("25 ", 255), Err(IntParseError::InvalidDigit));
    assert_eq!(read(" 25", 255), Err(IntParseError::InvalidDigit));
    assert_eq!(read("\u{0661}", 255), Err(IntParseError::InvalidDigit));
    assert_eq!(read("", 255), Err(IntParseError::Empty));
    assert_eq!(read("4294967296", u64::MAX), Ok(4294967296));
}

#[test]
fn what_is_wrong_with_a_number_is_said_in_words() {
    assert_eq!(
        IntParseError::Empty.description(),
        "cannot parse integer from empty string"
    );
    assert_eq!(
        IntParseError::InvalidDigit.description(),
        "invalid digit found in string"
    );
    assert_eq!(
        IntParseError::PosOverflow.description(),
        "number too large to fit in target type"
    );
}

// a sequence of numbers that looks random and is the same every time.
fn next(state: &mut u64) -> u64 {
    *state = state
        .wrapping_mul(6364136223846793005)
        .wrapping_add(1442695040888963407);
    *state >> 33
}

fn text_from(alphabet: &[char], longest: u64, state: &mut u64) -> String {
    let length = next(state) % (longest + 1);
    (0..length)
        .map(|_| alphabet[(next(state) % alphabet.len() as u64) as usize])
        .collect()
}

#[test]
fn numbers_are_read_as_the_standard_library_reads_them() {
    let alphabet: Vec<char> = "00123456789999+-x ".chars().collect();
    let mut state = 1;
    for _ in 0..20000 {
        let text = text_from(&alphabet, 24, &mut state);
        let expected = text.parse::<u64>().map_err(|e| format!("{:?}", e.kind()));
        let read = read_unsigned(&chars_of(&text), u64::MAX).map_err(|e| format!("{e:?}"));
        assert_eq!(read, expected, "{text:?}");
        let expected = text
            .parse::<u8>()
            .map(u64::from)
            .map_err(|e| format!("{:?}", e.kind()));
        let read = read_unsigned(&chars_of(&text), 255).map_err(|e| format!("{e:?}"));
        assert_eq!(read, expected, "{text:?}");
    }
}

#[test]
fn words_are_split_as_the_standard_library_splits_them() {
    let alphabet: Vec<char> = "ab1 \t\n\r\u{00A0}\u{2003}\u{e9}  ".chars().collect();
    let mut state = 2;
    for _ in 0..20000 {
        let text = text_from(&alphabet, 16, &mut state);
        let expected: Vec<String> = text.split_whitespace().map(String::from).collect();
        assert_eq!(words_of(&text), expected, "{text:?}");
    }
}
