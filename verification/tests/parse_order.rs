//! What is looked at first in a line, and what it says when it is refused.

use tach::stat::{CpuId, Entry, EntryParseError, IntParseError, UserHz};

#[test]
fn processor_line_names_its_processor() {
    let entry = "cpu0 1393280 32966 572056 13343292 6130 0 17875 0 23933 0"
        .parse::<Entry>()
        .unwrap();
    match entry {
        Entry::Cpu { id, time } => {
            assert_eq!(id, CpuId(0));
            assert_eq!(
                time.into_array(),
                [1393280, 32966, 572056, 13343292, 6130, 0, 17875, 0, 23933, 0].map(UserHz)
            );
        }
        _other => panic!(),
    }
    let entry = "  cpu255   0 0 0 0 0 0 0 0 0 0  ".parse::<Entry>().unwrap();
    assert!(matches!(entry, Entry::Cpu { id: CpuId(255), .. }));
}

#[test]
fn processor_number_must_fit_eight_bits() {
    assert_eq!(
        Entry::parse_cpu_id("cpu256"),
        Err(EntryParseError::CpuIdParse(IntParseError::PosOverflow))
    );
    assert_eq!(
        Entry::parse_cpu_id("cpu-1"),
        Err(EntryParseError::CpuIdParse(IntParseError::InvalidDigit))
    );
    assert_eq!(
        Entry::parse_cpu_id("cpu+"),
        Err(EntryParseError::CpuIdParse(IntParseError::InvalidDigit))
    );
    assert_eq!(Entry::parse_cpu_id("cpu007"), Ok(Some(CpuId(7))));
    assert_eq!(CpuId(255).as_u16(), 255);
}

#[test]
fn word_that_does_not_start_with_cpu_names_no_processor() {
    for word in ["cp", "", "Cpu0", "xcpu", "page"] {
        assert_eq!(
            Entry::parse_cpu_id(word),
            Err(EntryParseError::UnrecognizedEntry {
                kind: word.to_string()
            })
        );
    }
}

#[test]
fn line_without_a_word_is_refused() {
    for line in ["", "   ", "\t"] {
        assert_eq!(
            line.parse::<Entry>(),
            Err(EntryParseError::UnrecognizedEntry {
                kind: String::new()
            })
        );
    }
}

#[test]
fn other_kinds_are_known_by_their_first_word_alone() {
    assert_eq!("disk_io (2,0):(31,30,5764,1,2)".parse::<Entry>(), Ok(Entry::DiskIo));
    assert_eq!("ctxt 115315".parse::<Entry>(), Ok(Entry::Ctxt));
    assert_eq!("ctxt".parse::<Entry>(), Ok(Entry::Ctxt));
    assert_eq!("page not a number".parse::<Entry>(), Ok(Entry::Page));
    assert_eq!(
        "pages 1 2".parse::<Entry>(),
        Err(EntryParseError::UnrecognizedEntry {
            kind: "pages".to_string()
        })
    );
}

#[test]
fn first_word_alone_tells_the_other_kinds() {
    assert_eq!(Entry::parse_entry_kind("page"), Some(Entry::Page));
    assert_eq!(Entry::parse_entry_kind("swap"), Some(Entry::Swap));
    assert_eq!(Entry::parse_entry_kind("intr"), Some(Entry::Intr));
    assert_eq!(Entry::parse_entry_kind("disk_io"), Some(Entry::DiskIo));
    assert_eq!(Entry::parse_entry_kind("ctxt"), Some(Entry::Ctxt));
    assert_eq!(Entry::parse_entry_kind("btime"), Some(Entry::Btime));
    assert_eq!(Entry::parse_entry_kind("processes"), Some(Entry::Processes));
    assert_eq!(
        Entry::parse_entry_kind("procs_running"),
        Some(Entry::ProcsRunning)
    );
    assert_eq!(
        Entry::parse_entry_kind("procs_blocked"),
        Some(Entry::ProcsBlocked)
    );
    assert_eq!(Entry::parse_entry_kind("softirq"), Some(Entry::SoftIrq));
    for word in ["cpu", "cpu0", "wrong", "", "Page", "page "] {
        assert_eq!(Entry::parse_entry_kind(word), None);
    }
}

#[test]
fn counter_that_is_no_number_is_refused_before_the_count_is() {
    assert_eq!(
        "cpu 1 2 x".parse::<Entry>(),
        Err(EntryParseError::UserHzParse(IntParseError::InvalidDigit))
    );
    assert_eq!(
        "cpu 1 2 3 4 5 6 7 8 9 10 11 18446744073709551616".parse::<Entry>(),
        Err(EntryParseError::UserHzParse(IntParseError::PosOverflow))
    );
    // the processor's number is looked at before the counters.
    assert_eq!(
        "cpux 1 2 y".parse::<Entry>(),
        Err(EntryParseError::CpuIdParse(IntParseError::InvalidDigit))
    );
    assert_eq!("cpu".parse::<Entry>(), Err(EntryParseError::CpuTime));
}

#[test]
fn refusals_say_what_is_wrong() {
    assert_eq!(
        EntryParseError::UnrecognizedEntry {
            kind: "wrong".to_string()
        }
        .to_string(),
        "unrecognized entry kind: wrong"
    );
    assert_eq!(
        EntryParseError::CpuIdParse(IntParseError::InvalidDigit).to_string(),
        "invalid cpu id: invalid digit found in string"
    );
    assert_eq!(
        EntryParseError::UserHzParse(IntParseError::PosOverflow).to_string(),
        "invalid time value: number too large to fit in target type"
    );
    assert_eq!(
        EntryParseError::UserHzParse(IntParseError::Empty).to_string(),
        "invalid time value: cannot parse integer from empty string"
    );
    assert_eq!(EntryParseError::CpuTime.to_string(), "some other error");
}

#[test]
fn refusals_name_the_number_that_could_not_be_read() {
    assert_eq!(
        EntryParseError::CpuIdParse(IntParseError::Empty).source(),
        Some(IntParseError::Empty)
    );
    assert_eq!(
        EntryParseError::UserHzParse(IntParseError::PosOverflow).source(),
        Some(IntParseError::PosOverflow)
    );
    assert_eq!(EntryParseError::CpuTime.source(), None);
    assert_eq!(
        EntryParseError::UnrecognizedEntry {
            kind: String::new()
        }
        .source(),
        None
    );
}
