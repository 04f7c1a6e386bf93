//! The whole table at one instant.

use super::text::{chars_of, lines};
use super::{parse_entry, parse_span, CpuTime, Entry, EntryParseError, EntryParseErrorView, EntryView};
use crate::source::{table_outcome, Clock, IoError, StatsSource};
use std::collections::BTreeMap;
use vstd::prelude::*;

verus! {

broadcast use vstd::std_specs::btree::group_btree_axioms;

/// Why no measurement could be taken.
#[derive(Debug, PartialEq, Eq)]
pub enum StatReadError {
    /// The table could not be had from its source.
    Io(IoError),
    /// A line of the table was refused.
    Parse(EntryParseError),
    /// The table has no line of all processors together.
    MissingAggregateEntry,
    /// The table has more than one line of all processors together.
    DuplicateAggregateEntry,
    /// The clock did not move forward between two readings of the table.
    ClockNotMonotonic,
    /// The two readings of the table are not of the same processors.
    TopologyChanged,
    /// A counter ran backwards between two readings of the table.
    ArithmeticUnderflow,
}

/// A [`StatReadError`] as a mathematical value.
pub enum StatReadErrorView {
    Io(Seq<char>),
    Parse(EntryParseErrorView),
    MissingAggregateEntry,
    DuplicateAggregateEntry,
    ClockNotMonotonic,
    TopologyChanged,
    ArithmeticUnderflow,
}

impl View for StatReadError {
    type V = StatReadErrorView;

    open spec fn view(&self) -> StatReadErrorView {
        match *self {
            StatReadError::Io(e) => StatReadErrorView::Io(e@),
            StatReadError::Parse(e) => StatReadErrorView::Parse(e@),
            StatReadError::MissingAggregateEntry => StatReadErrorView::MissingAggregateEntry,
            StatReadError::DuplicateAggregateEntry => StatReadErrorView::DuplicateAggregateEntry,
            StatReadError::ClockNotMonotonic => StatReadErrorView::ClockNotMonotonic,
            StatReadError::TopologyChanged => StatReadErrorView::TopologyChanged,
            StatReadError::ArithmeticUnderflow => StatReadErrorView::ArithmeticUnderflow,
        }
    }
}

/// What the table held at one instant: the counters of all processors
/// together, those of each processor by its number, and the instant.
#[derive(Debug)]
pub struct Snapshot {
    /// how the system's processors spent their time, all together.
    pub system: CpuTime,
    /// how each processor spent its time.
    pub cpus: BTreeMap<u8, CpuTime>,
    /// when the table was read.
    pub time: u64,
}

/// A [`Snapshot`] as a mathematical value.
pub struct SnapshotView {
    pub system: Seq<nat>,
    pub cpus: Map<u8, Seq<nat>>,
    pub time: nat,
}

/// The counters of each processor of `cpus`, by the processor's number.
pub open spec fn counters_by_processor(cpus: Map<u8, CpuTime>) -> Map<u8, Seq<nat>> {
    cpus.map_values(|time: CpuTime| time@)
}

impl View for Snapshot {
    type V = SnapshotView;

    open spec fn view(&self) -> SnapshotView {
        SnapshotView {
            system: self.system@,
            cpus: counters_by_processor(self.cpus@),
            time: self.time as nat,
        }
    }
}

impl Clone for Snapshot {
    fn clone(&self) -> (copy: Snapshot)
        ensures
            copy@ == self@,
    {
        Snapshot { system: self.system, cpus: self.cpus.clone(), time: self.time }
    }
}

/// What the lines read so far have given.
pub struct Tally {
    /// the counters of all processors together, once their line was read.
    pub system: Option<Seq<nat>>,
    /// the counters of each processor whose line was read.
    pub cpus: Map<u8, Seq<nat>>,
}

/// What `tally` becomes when `line` is read after it.
///
/// The line must be an entry of the table. The line of all processors
/// together may come once. A processor's line gives that processor's
/// counters, in place of what an earlier line gave for it. Any other line
/// changes nothing.
pub open spec fn tally_line(tally: Tally, line: Seq<char>) -> Result<Tally, StatReadErrorView> {
    match parse_entry(line) {
        Err(e) => Err(StatReadErrorView::Parse(e)),
        Ok(EntryView::AllCpu { time }) => if tally.system is Some {
            Err(StatReadErrorView::DuplicateAggregateEntry)
        } else {
            Ok(Tally { system: Some(time), cpus: tally.cpus })
        },
        Ok(EntryView::Cpu { id, time }) => Ok(
            Tally { system: tally.system, cpus: tally.cpus.insert(id.0, time) },
        ),
        Ok(_) => Ok(tally),
    }
}

/// What `lines` give when they are read from first to last, or what is
/// wrong with the first of them that cannot be taken.
pub open spec fn tally_lines(lines: Seq<Seq<char>>) -> Result<Tally, StatReadErrorView>
    decreases lines.len(),
{
    if lines.len() == 0 {
        Ok(Tally { system: None, cpus: Map::empty() })
    } else {
        match tally_lines(lines.drop_last()) {
            Err(e) => Err(e),
            Ok(tally) => tally_line(tally, lines.last()),
        }
    }
}

/// The snapshot that the table `text`, read at the instant `time`, gives.
///
/// Every line of the table must be an entry of it, and exactly one of them
/// the line of all processors together.
pub open spec fn snapshot_of(text: Seq<char>, time: nat) -> Result<SnapshotView, StatReadErrorView> {
    match tally_lines(lines(text)) {
        Err(e) => Err(e),
        Ok(tally) => match tally.system {
            None => Err(StatReadErrorView::MissingAggregateEntry),
            Some(system) => Ok(SnapshotView { system, cpus: tally.cpus, time }),
        },
    }
}

/// The snapshot that is taken when the clock tells `time` and the source
/// answers `table`.
pub open spec fn snapshot_from(time: nat, table: Result<Seq<char>, Seq<char>>) -> Result<
    SnapshotView,
    StatReadErrorView,
> {
    match table {
        Err(e) => Err(StatReadErrorView::Io(e)),
        Ok(text) => snapshot_of(text, time),
    }
}

/// What a result of taking a snapshot is as a mathematical value.
pub open spec fn snapshot_outcome(r: Result<Snapshot, StatReadError>) -> Result<
    SnapshotView,
    StatReadErrorView,
> {
    match r {
        Ok(snapshot) => Ok(snapshot@),
        Err(e) => Err(e@),
    }
}

/// What has been read so far, as a tally.
pub open spec fn tally_held(system: Option<CpuTime>, cpus: BTreeMap<u8, CpuTime>) -> Tally {
    Tally {
        system: match system {
            Some(time) => Some(time@),
            None => None,
        },
        cpus: counters_by_processor(cpus@),
    }
}

/// Reads the line that `chars` holds from `from` up to `to` and takes it
/// into what has been read so far.
fn take_line(
    source: &str,
    chars: &[char],
    from: usize,
    to: usize,
    system: &mut Option<CpuTime>,
    cpus: &mut BTreeMap<u8, CpuTime>,
) -> (r: Result<(), StatReadError>)
    requires
        chars@ == source@,
        from <= to <= chars@.len(),
    ensures
        match r {
            Ok(_) => tally_line(
                tally_held(*old(system), *old(cpus)),
                chars@.subrange(from as int, to as int),
            ) == Ok::<Tally, StatReadErrorView>(tally_held(*final(system), *final(cpus))),
            Err(e) => tally_line(
                tally_held(*old(system), *old(cpus)),
                chars@.subrange(from as int, to as int),
            ) == Err::<Tally, StatReadErrorView>(e@),
        },
{
    match parse_span(source, chars, from, to) {
        Err(e) => Err(StatReadError::Parse(e)),
        Ok(Entry::AllCpu { time }) => {
            if system.is_some() {
                Err(StatReadError::DuplicateAggregateEntry)
            } else {
                *system = Some(time);
                Ok(())
            }
        },
        Ok(Entry::Cpu { id, time }) => {
            cpus.insert(id.0, time);
            assert(counters_by_processor(cpus@) =~= counters_by_processor(old(cpus)@).insert(
                id.0,
                time@,
            ));
            Ok(())
        },
        Ok(_) => Ok(()),
    }
}

impl Snapshot {
    /// Takes a snapshot: asks the clock for the instant, then the source for
    /// the table, and reads the table.
    ///
    /// The result is what [`snapshot_from`] makes of the instant that the
    /// clock told and of the answer that the source gave.
    pub fn read<S: StatsSource, C: Clock>(source: &mut S, clock: &mut C) -> (r: Result<
        Snapshot,
        StatReadError,
    >)
        requires
            old(clock).has_instant(),
        ensures
            exists|time: u64, table: Result<Seq<char>, Seq<char>>|
                {
                    &&& old(clock).tells(time, final(clock))
                    &&& old(source).gives(table, final(source))
                    &&& snapshot_outcome(r) == #[trigger] snapshot_from(time as nat, table)
                },
    {
        let time = clock.now();
        let table = source.open();
        let ghost answer = table_outcome(table);
        let r = Snapshot::from_table(time, table);
        assert(snapshot_outcome(r) == snapshot_from(time as nat, answer));
        r
    }

    /// The snapshot that is taken when the clock tells `time` and the source
    /// answers `table`: the table's text is read, and a source's failure is
    /// handed on.
    pub fn from_table(time: u64, table: Result<String, IoError>) -> (r: Result<
        Snapshot,
        StatReadError,
    >)
        ensures
            snapshot_outcome(r) == snapshot_from(time as nat, table_outcome(table)),
    {
        match table {
            Err(e) => Err(StatReadError::Io(e)),
            Ok(text) => Snapshot::parse(text.as_str(), time),
        }
    }

    /// Reads the table `text`, which was had at the instant `time`.
    pub fn parse(text: &str, time: u64) -> (r: Result<Snapshot, StatReadError>)
        ensures
            snapshot_outcome(r) == snapshot_of(text@, time as nat),
    {
        let chars = chars_of(text);
        let n = chars.len();
        let mut system: Option<CpuTime> = None;
        let mut cpus: BTreeMap<u8, CpuTime> = BTreeMap::new();
        let mut start: usize = 0;
        let mut i: usize = 0;
        let ghost mut done: Seq<Seq<char>> = Seq::empty();
        assert(tally_held(system, cpus).cpus =~= Map::<u8, Seq<nat>>::empty());
        while i < n
            invariant
                start <= i <= n,
                n == chars@.len(),
                chars@ == text@,
                (i > 0 && chars@[i - 1] != '\n') ==> start < i,
                !(i > 0 && chars@[i - 1] != '\n') ==> start == i,
                lines(chars@.take(i as int)) == if start < i {
                    done.push(chars@.subrange(start as int, i as int))
                } else {
                    done
                },
                tally_lines(done) == Ok::<Tally, StatReadErrorView>(tally_held(system, cpus)),
            decreases n - i,
        {
            let ghost seen = chars@.take(i as int);
            let ghost next = chars@.take(i + 1);
            assert(next.drop_last() =~= seen);
            assert(next.last() == chars@[i as int]);
            assert(i > 0 ==> next[next.len() - 2] == chars@[i - 1]);
            if chars[i] == '\n' {
                let ghost line = chars@.subrange(start as int, i as int);
                let ghost more = done.push(line);
                assert(more.drop_last() =~= done);
                assert(start == i ==> line =~= Seq::<char>::empty());
                assert(lines(next) == more);
                match take_line(text, chars.as_slice(), start, i, &mut system, &mut cpus) {
                    Ok(_) => {},
                    Err(e) => {
                        proof {
                            lemma_tally_fails_on(lines(chars@), more, i + 1, chars@);
                        }
                        return Err(e);
                    },
                }
                proof {
                    done = more;
                }
                start = i + 1;
            } else {
                proof {
                    let line = chars@.subrange(start as int, i + 1);
                    if start < i {
                        assert(line =~= chars@.subrange(start as int, i as int).push(
                            chars@[i as int],
                        ));
                        assert(done.push(chars@.subrange(start as int, i as int)).drop_last()
                            =~= done);
                    } else {
                        assert(line =~= seq![chars@[i as int]]);
                    }
                }
            }
            i = i + 1;
        }
        assert(chars@.take(n as int) =~= chars@);
        if start < n {
            let ghost line = chars@.subrange(start as int, n as int);
            assert(done.push(line).drop_last() =~= done);
            match take_line(text, chars.as_slice(), start, n, &mut system, &mut cpus) {
                Ok(_) => {},
                Err(e) => {
                    return Err(e);
                },
            }
        }
        match system {
            None => Err(StatReadError::MissingAggregateEntry),
            Some(system) => Ok(Snapshot { system, cpus, time }),
        }
    }
}

/// Once the lines of some first part of a text cannot be taken, those of all
/// of the text cannot, for the same reason: `some` are the lines of the
/// first `n` characters of `text`, the last of which ends a line.
proof fn lemma_tally_fails_on(all: Seq<Seq<char>>, some: Seq<Seq<char>>, n: int, text: Seq<char>)
    requires
        0 < n <= text.len(),
        text[n - 1] == '\n',
        some == lines(text.take(n)),
        all == lines(text),
        tally_lines(some) is Err,
    ensures
        tally_lines(all) == tally_lines(some),
{
    lemma_lines_extend(text, n);
    lemma_tally_prefix(all, some.len() as int);
}

/// The lines of the first `n` characters of `text`, the last of which ends a
/// line, are the first of the lines of `text`.
proof fn lemma_lines_extend(text: Seq<char>, n: int)
    requires
        0 < n <= text.len(),
        text[n - 1] == '\n',
    ensures
        lines(text.take(n)).len() <= lines(text).len(),
        lines(text).take(lines(text.take(n)).len() as int) == lines(text.take(n)),
{
    assert(text.take(text.len() as int) =~= text);
    lemma_lines_grow(text, n, text.len() as int);
}

/// With a line ended just before `from`, the lines of the first `from`
/// characters of `text` are the first of the lines of any longer part of it.
proof fn lemma_lines_grow(text: Seq<char>, from: int, to: int)
    requires
        0 < from <= to <= text.len(),
        text[from - 1] == '\n',
    ensures
        lines(text.take(from)).len() <= lines(text.take(to)).len(),
        lines(text.take(to)).take(lines(text.take(from)).len() as int) == lines(text.take(from)),
        to > from && text[to - 1] != '\n' ==> lines(text.take(from)).len() < lines(
            text.take(to),
        ).len(),
    decreases to - from,
{
    let base = lines(text.take(from));
    if to == from {
        assert(base.take(base.len() as int) =~= base);
    } else {
        lemma_lines_grow(text, from, to - 1);
        let shorter = text.take(to - 1);
        let longer = text.take(to);
        assert(longer.drop_last() =~= shorter);
        let before = lines(shorter);
        assert(before.take(base.len() as int) == base);
        if to - 1 > from {
            assert(longer[longer.len() - 2] == text[to - 2]);
        } else {
            assert(longer[longer.len() - 2] == text[from - 1]);
        }
        assert(lines(longer).take(base.len() as int) =~= before.take(base.len() as int));
    }
}

/// Once the first `n` of `lines` cannot be taken, all of them cannot, for
/// the same reason.
proof fn lemma_tally_prefix(lines: Seq<Seq<char>>, n: int)
    requires
        0 <= n <= lines.len(),
        tally_lines(lines.take(n)) is Err,
    ensures
        tally_lines(lines) == tally_lines(lines.take(n)),
    decreases lines.len() - n,
{
    if n == lines.len() {
        assert(lines.take(n) =~= lines);
    } else {
        assert(lines.take(n + 1).drop_last() =~= lines.take(n));
        lemma_tally_prefix(lines, n + 1);
    }
}

} // verus!
