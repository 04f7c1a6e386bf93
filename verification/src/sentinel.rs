//! The sentinel: it watches the table and tells what happened between two
//! readings of it.

use crate::source::{Clock, StatsSource};
use crate::stat::{
    delta, precedes, snapshot_from, snapshot_outcome, CpuTime, Measurement, Snapshot,
    SnapshotView, StatReadError, StatReadErrorView,
};
use std::collections::BTreeMap;
use vstd::prelude::*;

verus! {

broadcast use vstd::std_specs::btree::group_btree_axioms;

/// Watches the kernel's statistics.
///
/// A sentinel keeps the last snapshot that it took. It has none until the
/// first observation in which it could take one, and has one ever after.
pub struct Sentinel<C, S> {
    /// the clock being used to measure time.
    clock: C,
    /// the underlying source of kernel statistics.
    source: S,
    /// what the sentinel has seen so far.
    inner: Inner,
}

/// What a sentinel has seen so far.
enum Inner {
    /// nothing yet.
    Initialized,
    /// at least one snapshot.
    Running {
        /// the last observed snapshot.
        last: Snapshot,
    },
}

/// A recording of the system's cpu load between two snapshots.
#[derive(Debug)]
pub struct Recording {
    /// when the recording began.
    pub start: u64,
    /// when the recording ended.
    pub end: u64,
    /// how the system cpus spent their time, in aggregate.
    pub system: Measurement,
    /// how each cpu spent its time.
    pub cpus: BTreeMap<u8, Measurement>,
}

/// A [`Recording`] as a mathematical value.
pub struct RecordingView {
    pub start: nat,
    pub end: nat,
    pub system: Seq<nat>,
    pub cpus: Map<u8, Seq<nat>>,
}

/// The differences of each processor of `cpus`, by the processor's number.
pub open spec fn differences_by_processor(cpus: Map<u8, Measurement>) -> Map<u8, Seq<nat>> {
    cpus.map_values(|m: Measurement| m@)
}

impl View for Recording {
    type V = RecordingView;

    open spec fn view(&self) -> RecordingView {
        RecordingView {
            start: self.start as nat,
            end: self.end as nat,
            system: self.system@,
            cpus: differences_by_processor(self.cpus@),
        }
    }
}

impl Clone for Recording {
    fn clone(&self) -> (copy: Recording)
        ensures
            copy@ == self@,
    {
        Recording {
            start: self.start,
            end: self.end,
            system: self.system,
            cpus: self.cpus.clone(),
        }
    }
}

/// Whether `a` and `b` hold counters of the same processors.
pub open spec fn same_processors(a: Map<u8, Seq<nat>>, b: Map<u8, Seq<nat>>) -> bool {
    forall|id: u8| a.contains_key(id) == b.contains_key(id)
}

/// Whether no counter of `a` is ahead of its counterpart in `b`, for each
/// processor of `a`.
pub open spec fn processors_precede(a: Map<u8, Seq<nat>>, b: Map<u8, Seq<nat>>) -> bool {
    forall|id: u8| a.contains_key(id) ==> precedes(#[trigger] a[id], b[id])
}

/// What happened to each processor of `a` between `a` and `b`.
pub open spec fn processors_delta(a: Map<u8, Seq<nat>>, b: Map<u8, Seq<nat>>) -> Map<
    u8,
    Seq<nat>,
> {
    Map::new(|id: u8| a.contains_key(id), |id: u8| delta(a[id], b[id]))
}

/// The recording of what happened between the snapshot `a` and the later
/// snapshot `b`.
///
/// The clock must have moved forward from `a` to `b`. The two snapshots must
/// be of the same processors. No counter may have run backwards. What is
/// wrong is looked for in this order.
pub open spec fn recording_of(a: SnapshotView, b: SnapshotView) -> Result<
    RecordingView,
    StatReadErrorView,
> {
    if b.time <= a.time {
        Err(StatReadErrorView::ClockNotMonotonic)
    } else if !same_processors(a.cpus, b.cpus) {
        Err(StatReadErrorView::TopologyChanged)
    } else if !precedes(a.system, b.system) || !processors_precede(a.cpus, b.cpus) {
        Err(StatReadErrorView::ArithmeticUnderflow)
    } else {
        Ok(
            RecordingView {
                start: a.time,
                end: b.time,
                system: delta(a.system, b.system),
                cpus: processors_delta(a.cpus, b.cpus),
            },
        )
    }
}

/// What one observation does: what the sentinel keeps after it, and what it
/// tells. The sentinel kept `last` before it, and `taken` is the snapshot
/// that it took, or why it took none.
///
/// A snapshot that could not be taken changes nothing. The first snapshot
/// is kept, and there is nothing to tell yet. Every later one is kept in
/// place of the one before, and what happened between the two is told, or
/// why the two cannot be compared.
pub open spec fn observation(
    last: Option<SnapshotView>,
    taken: Result<SnapshotView, StatReadErrorView>,
) -> (Option<SnapshotView>, Result<Option<RecordingView>, StatReadErrorView>) {
    match taken {
        Err(e) => (last, Err(e)),
        Ok(new) => match last {
            None => (Some(new), Ok(None)),
            Some(prev) => (
                Some(new),
                match recording_of(prev, new) {
                    Ok(recording) => Ok(Some(recording)),
                    Err(e) => Err(e),
                },
            ),
        },
    }
}

/// What a result of making a recording is as a mathematical value.
pub open spec fn recording_outcome(r: Result<Recording, StatReadError>) -> Result<
    RecordingView,
    StatReadErrorView,
> {
    match r {
        Ok(recording) => Ok(recording@),
        Err(e) => Err(e@),
    }
}

/// What a result of an observation is as a mathematical value.
pub open spec fn observed(r: Result<Option<Recording>, StatReadError>) -> Result<
    Option<RecordingView>,
    StatReadErrorView,
> {
    match r {
        Ok(Some(recording)) => Ok(Some(recording@)),
        Ok(None) => Ok(None),
        Err(e) => Err(e@),
    }
}

/// The first observation keeps its snapshot and tells nothing. A second one
/// tells a recording, from the first snapshot's instant to the second's,
/// where the clock has moved forward between the two, both are of the same
/// processors, and no counter has run backwards.
pub proof fn lemma_first_tells_nothing_second_tells(first: SnapshotView, second: SnapshotView)
    requires
        first.time < second.time,
        same_processors(first.cpus, second.cpus),
        precedes(first.system, second.system),
        processors_precede(first.cpus, second.cpus),
    ensures
        observation(None, Ok(first)) == (
            Some(first),
            Ok::<Option<RecordingView>, StatReadErrorView>(None),
        ),
        observation(Some(first), Ok(second)) == (
            Some(second),
            Ok::<Option<RecordingView>, StatReadErrorView>(
                Some(
                    (RecordingView {
                        start: first.time,
                        end: second.time,
                        system: delta(first.system, second.system),
                        cpus: processors_delta(first.cpus, second.cpus),
                    }),
                ),
            ),
        ),
{
}

/// A sentinel that has kept a snapshot keeps one ever after, whatever comes
/// of its observations.
pub proof fn lemma_baseline_is_never_lost(
    last: SnapshotView,
    taken: Result<SnapshotView, StatReadErrorView>,
)
    ensures
        observation(Some(last), taken).0 is Some,
{
}

/// An observation that could take no snapshot keeps what was kept before
/// it, and the observation after it goes as if the failed one had not been
/// made.
pub proof fn lemma_failure_keeps_baseline(
    last: Option<SnapshotView>,
    e: StatReadErrorView,
    next: Result<SnapshotView, StatReadErrorView>,
)
    ensures
        observation(last, Err(e)) == (last, Err::<Option<RecordingView>, StatReadErrorView>(e)),
        observation(observation(last, Err(e)).0, next) == observation(last, next),
{
}

impl<C: Default, S: Default> Sentinel<C, S> {
    /// A sentinel that has seen nothing yet, with a clock and a source as
    /// their types make them by default.
    pub fn new() -> (sentinel: Self)
        ensures
            sentinel.baseline() is None,
            call_ensures(C::default, (), sentinel.clock()),
            call_ensures(S::default, (), sentinel.source()),
    {
        Sentinel { clock: C::default(), source: S::default(), inner: Inner::Initialized }
    }
}

impl<C, S> Sentinel<C, S> {
    /// The last snapshot that the sentinel took, if it took one.
    pub closed spec fn baseline(&self) -> Option<SnapshotView> {
        match self.inner {
            Inner::Initialized => None,
            Inner::Running { last } => Some(last@),
        }
    }

    /// The sentinel's clock.
    pub closed spec fn clock(&self) -> C {
        self.clock
    }

    /// The sentinel's source.
    pub closed spec fn source(&self) -> S {
        self.source
    }

    /// A sentinel that has seen nothing yet, with the clock and the source
    /// given.
    pub fn with_sources(clock: C, source: S) -> (sentinel: Self)
        ensures
            sentinel.baseline() is None,
            sentinel.clock() == clock,
            sentinel.source() == source,
    {
        Sentinel { clock, source, inner: Inner::Initialized }
    }

    /// The last snapshot that the sentinel took, if it took one.
    pub fn last(&self) -> (last: Option<&Snapshot>)
        ensures
            match last {
                Some(snapshot) => self.baseline() == Some(snapshot@),
                None => self.baseline() is None,
            },
    {
        match &self.inner {
            Inner::Initialized => None,
            Inner::Running { last } => Some(last),
        }
    }

    /// Takes `taken` as the outcome of taking a snapshot: what
    /// [`observation`] says is kept and told.
    pub fn advance(&mut self, taken: Result<Snapshot, StatReadError>) -> (r: Result<
        Option<Recording>,
        StatReadError,
    >)
        ensures
            (final(self).baseline(), observed(r)) == observation(
                old(self).baseline(),
                snapshot_outcome(taken),
            ),
            final(self).clock() == old(self).clock(),
            final(self).source() == old(self).source(),
    {
        let new = match taken {
            Ok(new) => new,
            Err(e) => {
                return Err(e);
            },
        };
        let r = match &self.inner {
            Inner::Initialized => Ok(None),
            Inner::Running { last } => match Recording::new(last, &new) {
                Ok(recording) => Ok(Some(recording)),
                Err(e) => Err(e),
            },
        };
        self.inner = Inner::Running { last: new };
        r
    }
}

impl<C: Clock, S: StatsSource> Sentinel<C, S> {
    /// Tells a [`Recording`] of cpu time since this was last called.
    ///
    /// The sentinel takes a snapshot, with its clock and its source. By
    /// virtue of this being a comparison to the previous snapshot, this
    /// tells `Ok(None)` the first time a snapshot could be taken. Of the
    /// instant that the clock told and the answer that the source gave,
    /// [`observation`] says what is kept and told.
    pub fn observe(&mut self) -> (r: Result<Option<Recording>, StatReadError>)
        requires
            old(self).clock().has_instant(),
        ensures
            exists|time: u64, table: Result<Seq<char>, Seq<char>>|
                {
                    &&& old(self).clock().tells(time, &final(self).clock())
                    &&& old(self).source().gives(table, &final(self).source())
                    &&& (final(self).baseline(), observed(r)) == observation(
                        old(self).baseline(),
                        #[trigger] snapshot_from(time as nat, table),
                    )
                },
    {
        let taken = Snapshot::read(&mut self.source, &mut self.clock);
        self.advance(taken)
    }
}

impl Recording {
    /// The recording of what happened between the snapshot `a` and the
    /// later snapshot `b`.
    ///
    /// Refused where the clock has not moved forward from `a` to `b`, where
    /// the two are not of the same processors, and where a counter has run
    /// backwards; what is wrong is looked for in this order.
    pub fn new(a: &Snapshot, b: &Snapshot) -> (r: Result<Recording, StatReadError>)
        ensures
            recording_outcome(r) == recording_of(a@, b@),
            r matches Ok(recording) ==> recording.start < recording.end && same_processors(
                a@.cpus,
                recording@.cpus,
            ) && same_processors(b@.cpus, recording@.cpus),
    {
        if b.time <= a.time {
            return Err(StatReadError::ClockNotMonotonic);
        }
        let ghost av = a@.cpus;
        let ghost bv = b@.cpus;
        // walk the processor numbers in ascending order, in both snapshots.
        let mut k: u16 = 0;
        while k < 256
            invariant
                k <= 256,
                a.time < b.time,
                av == a@.cpus,
                bv == b@.cpus,
                forall|id: u8| id < k ==> av.contains_key(id) == bv.contains_key(id),
            decreases 256 - k,
        {
            let id = k as u8;
            if a.cpus.contains_key(&id) != b.cpus.contains_key(&id) {
                assert(av.contains_key(id) != bv.contains_key(id));
                return Err(StatReadError::TopologyChanged);
            }
            k = k + 1;
        }
        assert(same_processors(av, bv));
        let system = match Measurement::new(a.system, b.system) {
            Ok(system) => system,
            Err(_) => {
                return Err(StatReadError::ArithmeticUnderflow);
            },
        };
        let mut diff: BTreeMap<u8, Measurement> = BTreeMap::new();
        let mut k: u16 = 0;
        while k < 256
            invariant
                k <= 256,
                a.time < b.time,
                av == a@.cpus,
                bv == b@.cpus,
                same_processors(av, bv),
                precedes(a@.system, b@.system),
                forall|id: u8| id < k && av.contains_key(id) ==> precedes(#[trigger] av[id], bv[id]),
                differences_by_processor(diff@) =~= Map::new(
                    |id: u8| id < k && av.contains_key(id),
                    |id: u8| delta(av[id], bv[id]),
                ),
            decreases 256 - k,
        {
            let id = k as u8;
            let ghost before = differences_by_processor(diff@);
            match a.cpus.get(&id) {
                None => {
                    assert(!av.contains_key(id));
                },
                Some(times_a) => {
                    assert(bv.contains_key(id));
                    let times_b = match b.cpus.get(&id) {
                        Some(times_b) => times_b,
                        None => {
                            // both snapshots hold this processor.
                            return Err(StatReadError::TopologyChanged);
                        },
                    };
                    assert(av[id] == times_a@);
                    assert(bv[id] == times_b@);
                    match Measurement::new(*times_a, *times_b) {
                        Ok(times) => {
                            diff.insert(id, times);
                            assert(differences_by_processor(diff@) =~= before.insert(
                                id,
                                delta(av[id], bv[id]),
                            ));
                        },
                        Err(_) => {
                            assert(av.contains_key(id) && !precedes(av[id], bv[id]));
                            assert(!processors_precede(av, bv));
                            return Err(StatReadError::ArithmeticUnderflow);
                        },
                    }
                },
            }
            k = k + 1;
        }
        assert(processors_precede(av, bv));
        assert(differences_by_processor(diff@) =~= processors_delta(av, bv));
        Ok(Recording { start: a.time, end: b.time, system, cpus: diff })
    }
}

} // verus!
