//! Where the engine gets the time and the table from.
//!
//! The engine asks a [`Clock`] for the current instant and a
//! [`StatsSource`] for the table's text. A program gives it the system's
//! clock and the kernel's file; a test gives it [`MockStatClock`] and
//! [`MockStatFile`], which replay what they were handed.

use std::collections::VecDeque;
use vstd::prelude::*;
use vstd::string::StringExecFns;

verus! {

/// The table could not be had from its source.
#[derive(Debug, PartialEq, Eq)]
pub struct IoError {
    /// What the source said went wrong.
    pub message: String,
}

impl View for IoError {
    type V = Seq<char>;

    /// What the source said went wrong.
    open spec fn view(&self) -> Seq<char> {
        self.message@
    }
}

/// What a source's answer is as a mathematical value: the table's text, or
/// what the source said went wrong.
pub open spec fn table_outcome(r: Result<String, IoError>) -> Result<Seq<char>, Seq<char>> {
    match r {
        Ok(text) => Ok(text@),
        Err(e) => Err(e@),
    }
}

/// A clock: it tells instants, as counts of some unit of time that has
/// passed since some fixed moment.
pub trait Clock {
    /// Whether the clock can tell one more instant. A clock always can,
    /// unless its kind says otherwise.
    open spec fn has_instant(&self) -> bool {
        true
    }

    /// Whether the clock, asked for the instant, may tell `instant` and be
    /// `after` once it has. Any instant may be told and the clock may
    /// become any other, unless its kind says otherwise.
    open spec fn tells(&self, instant: u64, after: &Self) -> bool {
        true
    }

    /// The current instant.
    fn now(&mut self) -> (instant: u64)
        requires
            old(self).has_instant(),
        ensures
            old(self).tells(instant, final(self)),
    ;
}

/// A source of kernel statistics.
pub trait StatsSource {
    /// Whether the source, asked for the table, may answer `table` and be
    /// `after` once it has. Any answer may be given and the source may
    /// become any other, unless its kind says otherwise.
    open spec fn gives(&self, table: Result<Seq<char>, Seq<char>>, after: &Self) -> bool {
        true
    }

    /// The whole text of the table as it is now.
    fn open(&mut self) -> (table: Result<String, IoError>)
        ensures
            old(self).gives(table_outcome(table), final(self)),
    ;
}

/// A clock that tells the instants it was handed, first in, first out.
#[derive(Debug)]
pub struct MockStatClock {
    times: VecDeque<u64>,
}

/// A source that gives the tables it was handed, first in, first out, and
/// fails when it has none left.
#[derive(Debug)]
pub struct MockStatFile {
    stats: VecDeque<String>,
}

impl View for MockStatClock {
    type V = Seq<u64>;

    /// The instants that are still to be told, the next one first.
    closed spec fn view(&self) -> Seq<u64> {
        self.times@
    }
}

impl View for MockStatFile {
    type V = Seq<Seq<char>>;

    /// The tables that are still to be given, the next one first.
    closed spec fn view(&self) -> Seq<Seq<char>> {
        self.stats@.map_values(|table: String| table@)
    }
}

impl MockStatClock {
    /// A clock with no instant to tell.
    pub fn new() -> (clock: MockStatClock)
        ensures
            clock@ == Seq::<u64>::empty(),
    {
        MockStatClock { times: VecDeque::new() }
    }

    /// Hands the clock one more instant to tell, after those it has.
    pub fn push(&mut self, time: u64)
        ensures
            final(self)@ == old(self)@.push(time),
    {
        self.times.push_back(time);
    }

    /// How many instants are still to be told.
    pub fn remaining(&self) -> (n: usize)
        ensures
            n == self@.len(),
    {
        self.times.len()
    }
}

impl Default for MockStatClock {
    fn default() -> (clock: MockStatClock)
        ensures
            clock@ == Seq::<u64>::empty(),
    {
        MockStatClock::new()
    }
}

impl Clock for MockStatClock {
    open spec fn has_instant(&self) -> bool {
        self@.len() > 0
    }

    /// The clock tells the oldest instant that it was handed and has not
    /// told yet, and has told it afterwards.
    open spec fn tells(&self, instant: u64, after: &Self) -> bool {
        self@.len() > 0 && instant == self@[0] && after@ == self@.skip(1)
    }

    /// The oldest instant that the clock was handed and has not told yet.
    fn now(&mut self) -> (instant: u64)
        ensures
            instant == old(self)@[0],
            final(self)@ == old(self)@.skip(1),
    {
        let instant = self.times.pop_front();
        assert(old(self)@.skip(1) =~= old(self)@.subrange(1, old(self)@.len() as int));
        instant.unwrap()
    }
}

impl MockStatFile {
    /// A source with no table to give.
    pub fn new() -> (file: MockStatFile)
        ensures
            file@ == Seq::<Seq<char>>::empty(),
    {
        let file = MockStatFile { stats: VecDeque::new() };
        assert(file@ =~= Seq::<Seq<char>>::empty());
        file
    }

    /// Hands the source one more table to give, after those it has.
    pub fn push(&mut self, table: &str)
        ensures
            final(self)@ == old(self)@.push(table@),
    {
        let owned = String::from_str(table);
        self.stats.push_back(owned);
        assert(self@ =~= old(self)@.push(table@));
    }

    /// How many tables are still to be given.
    pub fn remaining(&self) -> (n: usize)
        ensures
            n == self@.len(),
    {
        self.stats.len()
    }
}

impl Default for MockStatFile {
    fn default() -> (file: MockStatFile)
        ensures
            file@ == Seq::<Seq<char>>::empty(),
    {
        MockStatFile::new()
    }
}

impl StatsSource for MockStatFile {
    /// The source gives the oldest table that it was handed and has not
    /// given yet, and has given it afterwards; with none left it fails and
    /// stays as it is.
    open spec fn gives(&self, table: Result<Seq<char>, Seq<char>>, after: &Self) -> bool {
        if self@.len() > 0 {
            table == Ok::<Seq<char>, Seq<char>>(self@[0]) && after@ == self@.skip(1)
        } else {
            table == Err::<Seq<char>, Seq<char>>("mock stats should not be empty"@) && after@
                == self@
        }
    }

    /// The oldest table that the source was handed and has not given yet,
    /// or an error where it has none left.
    fn open(&mut self) -> (table: Result<String, IoError>)
        ensures
            old(self)@.len() > 0 ==> table is Ok && table->Ok_0@ == old(self)@[0] && final(self)@
                == old(self)@.skip(1),
            old(self)@.len() == 0 ==> table is Err && table->Err_0@ == "mock stats should not be empty"@
                && final(self)@ == old(self)@,
    {
        match self.stats.pop_front() {
            Some(table) => {
                assert(self@ =~= old(self)@.skip(1));
                Ok(table)
            },
            None => Err(IoError { message: String::from_str("mock stats should not be empty") }),
        }
    }
}

} // verus!
