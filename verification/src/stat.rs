//! Kernel statistics: the accounting table's lines and what they hold.
//!
//! The table is text. Each line starts with a word that says what the line
//! counts; the lines that count processor time go on with ten counters.

use std::str::FromStr;
use vstd::prelude::*;
use vstd::slice::slice_subrange;
use vstd::string::{StrSliceExecFns, StringExecFns};

pub mod cpu_time;
pub mod number;
pub mod snapshot;
pub mod text;
pub mod user_hz;

pub use self::cpu_time::{
    active_of, delta, percentage, percentage_of, precedes, ticks_of, total_of, CpuTime,
    Measurement,
};
pub use self::number::{
    all_digits, decimal_value, parse_unsigned, read_unsigned, IntParseError,
};
pub use self::snapshot::{
    counters_by_processor, snapshot_from, snapshot_of, snapshot_outcome, Snapshot, SnapshotView,
    StatReadError, StatReadErrorView,
};
pub use self::text::{chars_of, lines, split_words, spans_of, words};
pub use self::user_hz::{ArithmeticUnderflow, UserHz};

verus! {

/// An entry in the kernel's statistics table: one line of it.
#[derive(Clone, Copy, Debug, PartialEq, Eq, Structural)]
pub enum Entry {
    /// the amount of time that the system ("cpu" line) spent in various states.
    AllCpu { time: CpuTime },
    /// the amount of time that a specific cpu ("cpuN" line) spent in various states.
    Cpu { id: CpuId, time: CpuTime },
    /// the number of pages the system paged in and the number that were paged out (from disk).
    Page,
    /// the number of swap pages that have been brought in and out.
    Swap,
    /// this line shows counts of interrupts serviced since boot time.
    Intr,
    /// counts of disk input and output.
    DiskIo,
    /// the number of context switches that the system underwent.
    Ctxt,
    /// the time at which the system booted.
    Btime,
    /// the number of forks since boot.
    Processes,
    /// the number of processes in runnable state.
    ProcsRunning,
    /// the number of processes blocked waiting for i/o to complete.
    ProcsBlocked,
    /// this line shows the number of softirq for all cpus.
    SoftIrq,
}

/// The number of a processor.
#[derive(Clone, Copy, Debug, PartialEq, Eq, PartialOrd, Ord, Structural)]
pub struct CpuId(pub u8);

impl CpuId {
    /// The processor's number.
    pub fn as_u16(&self) -> (n: u16)
        ensures
            n == self.0,
    {
        self.0 as u16
    }
}

/// Why a line of the accounting table was refused.
#[derive(Debug, PartialEq, Eq)]
pub enum EntryParseError {
    /// The line's first word names no kind of line that the table has.
    UnrecognizedEntry { kind: String },
    /// What follows `cpu` in the line's first word is no processor number.
    CpuIdParse(IntParseError),
    /// One of a processor line's counters is no number.
    UserHzParse(IntParseError),
    /// A processor line's counters are not a processor's ten: there are
    /// fewer or more of them.
    CpuTime,
}

/// An [`Entry`] as a mathematical value.
pub enum EntryView {
    AllCpu { time: Seq<nat> },
    Cpu { id: CpuId, time: Seq<nat> },
    Page,
    Swap,
    Intr,
    DiskIo,
    Ctxt,
    Btime,
    Processes,
    ProcsRunning,
    ProcsBlocked,
    SoftIrq,
}

/// An [`EntryParseError`] as a mathematical value.
pub enum EntryParseErrorView {
    UnrecognizedEntry { kind: Seq<char> },
    CpuIdParse(IntParseError),
    UserHzParse(IntParseError),
    CpuTime,
}

impl View for Entry {
    type V = EntryView;

    open spec fn view(&self) -> EntryView {
        match *self {
            Entry::AllCpu { time } => EntryView::AllCpu { time: time@ },
            Entry::Cpu { id, time } => EntryView::Cpu { id, time: time@ },
            Entry::Page => EntryView::Page,
            Entry::Swap => EntryView::Swap,
            Entry::Intr => EntryView::Intr,
            Entry::DiskIo => EntryView::DiskIo,
            Entry::Ctxt => EntryView::Ctxt,
            Entry::Btime => EntryView::Btime,
            Entry::Processes => EntryView::Processes,
            Entry::ProcsRunning => EntryView::ProcsRunning,
            Entry::ProcsBlocked => EntryView::ProcsBlocked,
            Entry::SoftIrq => EntryView::SoftIrq,
        }
    }
}

impl View for EntryParseError {
    type V = EntryParseErrorView;

    open spec fn view(&self) -> EntryParseErrorView {
        match *self {
            EntryParseError::UnrecognizedEntry { kind } => EntryParseErrorView::UnrecognizedEntry {
                kind: kind@,
            },
            EntryParseError::CpuIdParse(e) => EntryParseErrorView::CpuIdParse(e),
            EntryParseError::UserHzParse(e) => EntryParseErrorView::UserHzParse(e),
            EntryParseError::CpuTime => EntryParseErrorView::CpuTime,
        }
    }
}

/// The entry that a line is if its first word is `kind` and is not about
/// processor time: such a line's first word decides, and the rest of it is
/// not read.
pub open spec fn other_kind(kind: Seq<char>) -> Option<EntryView> {
    if kind == "page"@ {
        Some(EntryView::Page)
    } else if kind == "swap"@ {
        Some(EntryView::Swap)
    } else if kind == "intr"@ {
        Some(EntryView::Intr)
    } else if kind == "disk_io"@ {
        Some(EntryView::DiskIo)
    } else if kind == "ctxt"@ {
        Some(EntryView::Ctxt)
    } else if kind == "btime"@ {
        Some(EntryView::Btime)
    } else if kind == "processes"@ {
        Some(EntryView::Processes)
    } else if kind == "procs_running"@ {
        Some(EntryView::ProcsRunning)
    } else if kind == "procs_blocked"@ {
        Some(EntryView::ProcsBlocked)
    } else if kind == "softirq"@ {
        Some(EntryView::SoftIrq)
    } else {
        None
    }
}

/// Whether `word` starts with `cpu`.
pub open spec fn starts_with_cpu(word: Seq<char>) -> bool {
    word.len() >= 3 && word.take(3) == "cpu"@
}

/// Which processor the first word of a processor line names: none for the
/// line of all processors together, which is `cpu` alone, and else the
/// number that follows `cpu`.
pub open spec fn cpu_id_of(word: Seq<char>) -> Result<Option<CpuId>, EntryParseErrorView> {
    if !starts_with_cpu(word) {
        Err(EntryParseErrorView::UnrecognizedEntry { kind: word })
    } else if word.len() == 3 {
        Ok(None)
    } else {
        match parse_unsigned(word.skip(3), u8::MAX as nat) {
            Ok(n) => Ok(Some(CpuId(n as u8))),
            Err(e) => Err(EntryParseErrorView::CpuIdParse(e)),
        }
    }
}

/// The counters that `words` write, in their order, or what is wrong with
/// the first of them that is no counter.
pub open spec fn counters_of(words: Seq<Seq<char>>) -> Result<Seq<nat>, IntParseError>
    decreases words.len(),
{
    if words.len() == 0 {
        Ok(Seq::empty())
    } else {
        match counters_of(words.drop_last()) {
            Err(e) => Err(e),
            Ok(counters) => match parse_unsigned(words.last(), u64::MAX as nat) {
                Err(e) => Err(e),
                Ok(n) => Ok(counters.push(n)),
            },
        }
    }
}

/// The entry that the line `line` of the table is.
///
/// The first word decides the kind. A line that is not about processor time
/// is known by that word alone. A processor line names its processor in the
/// first word, and its other words are its counters: each must be a number
/// that fits 64 bits, and there must be ten of them. Of all that may be
/// wrong with a line, the first word is looked at first, then each counter
/// from the left, then their number.
pub open spec fn parse_entry(line: Seq<char>) -> Result<EntryView, EntryParseErrorView> {
    let w = words(line);
    if w.len() == 0 {
        Err(EntryParseErrorView::UnrecognizedEntry { kind: Seq::empty() })
    } else if other_kind(w[0]) is Some {
        Ok(other_kind(w[0])->0)
    } else {
        match cpu_id_of(w[0]) {
            Err(e) => Err(e),
            Ok(id) => match counters_of(w.skip(1)) {
                Err(e) => Err(EntryParseErrorView::UserHzParse(e)),
                Ok(time) => if time.len() == 10 {
                    match id {
                        None => Ok(EntryView::AllCpu { time }),
                        Some(id) => Ok(EntryView::Cpu { id, time }),
                    }
                } else {
                    Err(EntryParseErrorView::CpuTime)
                },
            },
        }
    }
}

/// What a result of reading a line is as a mathematical value.
pub open spec fn entry_outcome(r: Result<Entry, EntryParseError>) -> Result<
    EntryView,
    EntryParseErrorView,
> {
    match r {
        Ok(entry) => Ok(entry@),
        Err(e) => Err(e@),
    }
}

/// Whether `word` is the text `name`.
fn same_text(word: &[char], name: &str) -> (same: bool)
    ensures
        same == (word@ == name@),
{
    let n = name.unicode_len();
    if word.len() != n {
        return false;
    }
    let mut i: usize = 0;
    while i < n
        invariant
            i <= n,
            n == name@.len(),
            n == word@.len(),
            word@.take(i as int) == name@.take(i as int),
        decreases n - i,
    {
        if word[i] != name.get_char(i) {
            return false;
        }
        assert(word@.take(i + 1) =~= word@.take(i as int).push(word@[i as int]));
        assert(name@.take(i + 1) =~= name@.take(i as int).push(name@[i as int]));
        i = i + 1;
    }
    assert(word@.take(n as int) =~= word@);
    assert(name@.take(n as int) =~= name@);
    true
}

/// The entry that a line with the first word `kind` is, where that word
/// alone decides it.
fn entry_kind_in(kind: &[char]) -> (r: Option<Entry>)
    ensures
        match r {
            Some(entry) => other_kind(kind@) == Some(entry@),
            None => other_kind(kind@) is None,
        },
{
    if same_text(kind, "page") {
        Some(Entry::Page)
    } else if same_text(kind, "swap") {
        Some(Entry::Swap)
    } else if same_text(kind, "intr") {
        Some(Entry::Intr)
    } else if same_text(kind, "disk_io") {
        Some(Entry::DiskIo)
    } else if same_text(kind, "ctxt") {
        Some(Entry::Ctxt)
    } else if same_text(kind, "btime") {
        Some(Entry::Btime)
    } else if same_text(kind, "processes") {
        Some(Entry::Processes)
    } else if same_text(kind, "procs_running") {
        Some(Entry::ProcsRunning)
    } else if same_text(kind, "procs_blocked") {
        Some(Entry::ProcsBlocked)
    } else if same_text(kind, "softirq") {
        Some(Entry::SoftIrq)
    } else {
        None
    }
}

/// Which processor `word` names, or why it names none: `None` where it does
/// not start with `cpu`, and else what is wrong with the number.
fn cpu_id_in(word: &[char]) -> (r: Result<Option<CpuId>, Option<IntParseError>>)
    ensures
        match r {
            Ok(id) => cpu_id_of(word@) == Ok::<Option<CpuId>, EntryParseErrorView>(id),
            Err(None) => cpu_id_of(word@) == Err::<Option<CpuId>, EntryParseErrorView>(
                EntryParseErrorView::UnrecognizedEntry { kind: word@ },
            ),
            Err(Some(e)) => cpu_id_of(word@) == Err::<Option<CpuId>, EntryParseErrorView>(
                EntryParseErrorView::CpuIdParse(e),
            ),
        },
{
    let n = word.len();
    if n < 3 {
        return Err(None);
    }
    let prefix = slice_subrange(word, 0, 3);
    assert(prefix@ =~= word@.take(3));
    if !same_text(prefix, "cpu") {
        return Err(None);
    }
    if n == 3 {
        return Ok(None);
    }
    let suffix = slice_subrange(word, 3, n);
    assert(suffix@ =~= word@.skip(3));
    match read_unsigned(suffix, 255) {
        Ok(id) => Ok(Some(CpuId(id as u8))),
        Err(e) => Err(Some(e)),
    }
}

/// Reads the line that `chars` holds from `from` up to `to`. The text
/// `source` has the same characters as `chars`.
pub(crate) fn parse_span(source: &str, chars: &[char], from: usize, to: usize) -> (r: Result<
    Entry,
    EntryParseError,
>)
    requires
        chars@ == source@,
        from <= to <= chars@.len(),
    ensures
        entry_outcome(r) == parse_entry(chars@.subrange(from as int, to as int)),
{
    let line = slice_subrange(chars, from, to);
    let spans = split_words(line);
    let ghost w = words(line@);
    if spans.len() == 0 {
        return Err(EntryParseError::UnrecognizedEntry { kind: String::new() });
    }
    let (a, b) = spans[0];
    let kind = slice_subrange(line, a, b);
    assert(kind@ == w[0]);
    if let Some(entry) = entry_kind_in(kind) {
        return Ok(entry);
    }
    let id = match cpu_id_in(kind) {
        Ok(id) => id,
        Err(None) => {
            let word = source.substring_char(from + a, from + b);
            assert(word@ =~= kind@);
            return Err(EntryParseError::UnrecognizedEntry { kind: word.to_owned() });
        },
        Err(Some(e)) => {
            return Err(EntryParseError::CpuIdParse(e));
        },
    };
    let ghost rest = w.skip(1);
    let mut times: Vec<UserHz> = Vec::new();
    let mut i: usize = 1;
    assert(rest.take(0) =~= Seq::<Seq<char>>::empty());
    assert(ticks_of(times@) =~= Seq::<nat>::empty());
    while i < spans.len()
        invariant
            1 <= i <= spans.len(),
            line@ == chars@.subrange(from as int, to as int),
            w == words(line@),
            spans_of(spans@, line@, w),
            other_kind(w[0]) is None,
            cpu_id_of(w[0]) == Ok::<Option<CpuId>, EntryParseErrorView>(id),
            rest == w.skip(1),
            counters_of(rest.take(i - 1)) == Ok::<Seq<nat>, IntParseError>(
                ticks_of(times@),
            ),
        decreases spans.len() - i,
    {
        let (c, d) = spans[i];
        let word = slice_subrange(line, c, d);
        assert(word@ == rest[i - 1]);
        assert(rest.take(i as int).drop_last() =~= rest.take(i - 1));
        assert(rest.take(i as int).last() == rest[i - 1]);
        match read_unsigned(word, u64::MAX) {
            Ok(n) => {
                let ghost before = ticks_of(times@);
                times.push(UserHz(n));
                assert(ticks_of(times@) =~= before.push(n as nat));
            },
            Err(e) => {
                proof {
                    lemma_counters_fail_on(rest, i as int);
                }
                return Err(EntryParseError::UserHzParse(e));
            },
        }
        i = i + 1;
    }
    assert(rest.take(spans.len() - 1) =~= rest);
    match CpuTime::try_from(times) {
        Ok(time) => match id {
            None => Ok(Entry::AllCpu { time }),
            Some(id) => Ok(Entry::Cpu { id, time }),
        },
        Err(e) => Err(e),
    }
}

/// Once the counters of some first words of `words` cannot be read, those of
/// all of `words` cannot, for the same reason.
proof fn lemma_counters_fail_on(words: Seq<Seq<char>>, n: int)
    requires
        0 <= n <= words.len(),
        counters_of(words.take(n)) is Err,
    ensures
        counters_of(words) == counters_of(words.take(n)),
    decreases words.len() - n,
{
    if n == words.len() {
        assert(words.take(n) =~= words);
    } else {
        assert(words.take(n + 1).drop_last() =~= words.take(n));
        lemma_counters_fail_on(words, n + 1);
    }
}

/// Whether `word` writes a counter: an unsigned decimal number that fits 64
/// bits.
pub open spec fn is_counter(word: Seq<char>) -> bool {
    parse_unsigned(word, u64::MAX as nat) is Ok
}

/// The counters that the words after the first of `line` write, in their
/// order: for each word the number that its digits write.
pub open spec fn written_counters(line: Seq<char>) -> Seq<nat> {
    Seq::new(
        (words(line).len() - 1) as nat,
        |i: int| decimal_value(number::unsigned_digits(words(line)[i + 1])),
    )
}

/// Words that write counters are read as the numbers they write, in their
/// order.
proof fn lemma_counters_are_read(words: Seq<Seq<char>>)
    requires
        forall|i: int| 0 <= i < words.len() ==> is_counter(#[trigger] words[i]),
    ensures
        counters_of(words) == Ok::<Seq<nat>, IntParseError>(
            Seq::new(words.len(), |i: int| decimal_value(number::unsigned_digits(words[i]))),
        ),
    decreases words.len(),
{
    if words.len() > 0 {
        let front = words.drop_last();
        assert forall|i: int| 0 <= i < front.len() implies is_counter(#[trigger] front[i]) by {
            assert(front[i] == words[i]);
        }
        lemma_counters_are_read(front);
        assert(is_counter(words.last()));
        assert(Seq::new(
            front.len(),
            |i: int| decimal_value(number::unsigned_digits(front[i])),
        ).push(decimal_value(number::unsigned_digits(words.last()))) =~= Seq::new(
            words.len(),
            |i: int| decimal_value(number::unsigned_digits(words[i])),
        ));
    } else {
        assert(Seq::new(
            words.len(),
            |i: int| decimal_value(number::unsigned_digits(words[i])),
        ) =~= Seq::<nat>::empty());
    }
}

/// A word that starts with `cpu` names no other kind of line.
proof fn lemma_cpu_is_no_other_kind(word: Seq<char>)
    requires
        starts_with_cpu(word),
    ensures
        other_kind(word) is None,
{
    reveal_strlit("cpu");
    reveal_strlit("page");
    reveal_strlit("swap");
    reveal_strlit("intr");
    reveal_strlit("disk_io");
    reveal_strlit("ctxt");
    reveal_strlit("btime");
    reveal_strlit("processes");
    reveal_strlit("procs_running");
    reveal_strlit("procs_blocked");
    reveal_strlit("softirq");
    assert(word.take(3)[0] == word[0]);
    assert(word.take(3)[1] == word[1]);
    assert(word[0] == 'c');
    assert(word[1] == 'p');
}

/// A processor line is read as it is written: where the first word names
/// the processor `id` and ten more words write ten counters, the line is the
/// entry of that processor with those ten counters, each with the number
/// that its word writes and in the place in which it is written.
pub proof fn lemma_cpu_line_round_trips(line: Seq<char>, id: Option<CpuId>)
    requires
        words(line).len() == 11,
        cpu_id_of(words(line)[0]) == Ok::<Option<CpuId>, EntryParseErrorView>(id),
        forall|i: int| 1 <= i <= 10 ==> is_counter(#[trigger] words(line)[i]),
    ensures
        written_counters(line).len() == 10,
        parse_entry(line) == Ok::<EntryView, EntryParseErrorView>(
            match id {
                None => EntryView::AllCpu { time: written_counters(line) },
                Some(id) => EntryView::Cpu { id, time: written_counters(line) },
            },
        ),
{
    let w = words(line);
    lemma_cpu_is_no_other_kind(w[0]);
    let rest = w.skip(1);
    assert forall|i: int| 0 <= i < rest.len() implies is_counter(#[trigger] rest[i]) by {
        assert(rest[i] == w[i + 1]);
    }
    lemma_counters_are_read(rest);
    assert(Seq::new(rest.len(), |i: int| decimal_value(number::unsigned_digits(rest[i])))
        =~= written_counters(line));
}

impl Entry {
    /// The entry that a line with the first word `kind` is, where that word
    /// alone decides it: where the line is not about processor time.
    pub fn parse_entry_kind(kind: &str) -> (r: Option<Entry>)
        ensures
            match r {
                Some(entry) => other_kind(kind@) == Some(entry@),
                None => other_kind(kind@) is None,
            },
    {
        let chars = chars_of(kind);
        entry_kind_in(chars.as_slice())
    }

    /// Which processor the first word `token` of a processor line names:
    /// `None` for `cpu` alone, the line of all processors together.
    ///
    /// Refused as an unrecognized entry where `token` does not start with
    /// `cpu`, and as a processor number that cannot be read where what
    /// follows `cpu` is no number from 0 to 255.
    pub fn parse_cpu_id(token: &str) -> (r: Result<Option<CpuId>, EntryParseError>)
        ensures
            match r {
                Ok(id) => cpu_id_of(token@) == Ok::<Option<CpuId>, EntryParseErrorView>(id),
                Err(e) => cpu_id_of(token@) == Err::<Option<CpuId>, EntryParseErrorView>(e@),
            },
    {
        let chars = chars_of(token);
        match cpu_id_in(chars.as_slice()) {
            Ok(id) => Ok(id),
            Err(None) => Err(EntryParseError::UnrecognizedEntry { kind: token.to_owned() }),
            Err(Some(e)) => Err(EntryParseError::CpuIdParse(e)),
        }
    }
}

impl EntryParseError {
    /// What is wrong with the line, in words.
    pub open spec fn message(self) -> Seq<char> {
        match self {
            EntryParseError::UnrecognizedEntry { kind } => "unrecognized entry kind: "@ + kind@,
            EntryParseError::CpuIdParse(e) => "invalid cpu id: "@ + e.message(),
            EntryParseError::UserHzParse(e) => "invalid time value: "@ + e.message(),
            EntryParseError::CpuTime => "some other error"@,
        }
    }

    /// What is wrong with the line, in words.
    pub fn to_string(&self) -> (text: String)
        ensures
            text@ == self.message(),
    {
        match self {
            EntryParseError::UnrecognizedEntry { kind } => {
                let mut text = "unrecognized entry kind: ".to_owned();
                text.append(kind.as_str());
                text
            },
            EntryParseError::CpuIdParse(e) => {
                let mut text = "invalid cpu id: ".to_owned();
                text.append(e.description());
                text
            },
            EntryParseError::UserHzParse(e) => {
                let mut text = "invalid time value: ".to_owned();
                text.append(e.description());
                text
            },
            EntryParseError::CpuTime => "some other error".to_owned(),
        }
    }

    /// The number that could not be read, where that is what is wrong with
    /// the line.
    pub fn source(&self) -> (cause: Option<IntParseError>)
        ensures
            cause == match *self {
                EntryParseError::CpuIdParse(e) => Some(e),
                EntryParseError::UserHzParse(e) => Some(e),
                EntryParseError::UnrecognizedEntry { kind: _ } => None,
                EntryParseError::CpuTime => None,
            },
    {
        match self {
            EntryParseError::CpuIdParse(e) => Some(*e),
            EntryParseError::UserHzParse(e) => Some(*e),
            EntryParseError::UnrecognizedEntry { kind: _ } => None,
            EntryParseError::CpuTime => None,
        }
    }
}

impl FromStr for Entry {
    type Err = EntryParseError;

    /// Reads one line of the table.
    fn from_str(entry: &str) -> (r: Result<Entry, EntryParseError>)
        ensures
            entry_outcome(r) == parse_entry(entry@),
    {
        let chars = chars_of(entry);
        assert(chars@.subrange(0, chars@.len() as int) =~= chars@);
        parse_span(entry, chars.as_slice(), 0, chars.len())
    }
}

} // verus!
