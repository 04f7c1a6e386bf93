//! A processor's ten counters, and the difference of two readings of them.

use super::user_hz::{ArithmeticUnderflow, UserHz};
use super::EntryParseError;
use vstd::prelude::*;

verus! {

/// The numbers of ticks that the counters `times` hold, in their order.
pub open spec fn ticks_of(times: Seq<UserHz>) -> Seq<nat> {
    times.map_values(|t: UserHz| t@)
}

/// The sum of all ten counters of `c`.
pub open spec fn total_of(c: Seq<nat>) -> nat {
    c[0] + c[1] + c[2] + c[3] + c[4] + c[5] + c[6] + c[7] + c[8] + c[9]
}

/// The sum of the counters of `c` but the fourth, which counts idle time.
pub open spec fn active_of(c: Seq<nat>) -> nat {
    c[0] + c[1] + c[2] + c[4] + c[5] + c[6] + c[7] + c[8] + c[9]
}

/// Whether none of the ten counters of `later` is behind its counterpart in
/// `earlier`.
pub open spec fn precedes(earlier: Seq<nat>, later: Seq<nat>) -> bool {
    forall|i: int| 0 <= i < 10 ==> earlier[i] <= later[i]
}

/// How far each of the ten counters of `later` is ahead of its counterpart
/// in `earlier`.
pub open spec fn delta(earlier: Seq<nat>, later: Seq<nat>) -> Seq<nat> {
    Seq::new(10, |i: int| (later[i] - earlier[i]) as nat)
}

/// The percentage that `active` is of `total`, rounded to the nearest whole
/// number, a half rounded up.
pub open spec fn percentage_of(active: nat, total: nat) -> nat {
    (200 * active + total) / (2 * total)
}

/// How long a processor has spent in each of its ten states.
///
/// The counters are, in the order of the table and of the view: user, nice,
/// system, idle, iowait, irq, softirq, steal, guest, guest_nice.
#[derive(Clone, Copy, Debug, PartialEq, Eq, Structural)]
pub struct CpuTime {
    /// time spent in user mode.
    user: UserHz,
    /// time spent in user mode with low priority (nice).
    nice: UserHz,
    /// time spent in system mode.
    system: UserHz,
    /// time spent in the idle task.
    idle: UserHz,
    /// time waiting for i/o to complete.
    iowait: UserHz,
    /// time servicing interrupts.
    irq: UserHz,
    /// time servicing softirqs.
    softirq: UserHz,
    /// stolen time, which is the time spent in other operating systems when
    /// running in a virtualized environment.
    steal: UserHz,
    /// time spent running a virtual cpu for guest operating systems.
    guest: UserHz,
    /// time spent running a niced guest.
    guest_nice: UserHz,
}

impl View for CpuTime {
    type V = Seq<nat>;

    /// The ten counters, in the table's order.
    closed spec fn view(&self) -> Seq<nat> {
        seq![
            self.user@,
            self.nice@,
            self.system@,
            self.idle@,
            self.iowait@,
            self.irq@,
            self.softirq@,
            self.steal@,
            self.guest@,
            self.guest_nice@,
        ]
    }
}

impl CpuTime {
    /// Every reading has ten counters, each of which fits 64 bits.
    pub proof fn lemma_shape(self)
        ensures
            self@.len() == 10,
            forall|i: int| 0 <= i < 10 ==> #[trigger] self@[i] <= u64::MAX,
    {
    }

    /// The reading whose counters are `times`, in the table's order.
    ///
    /// Refused with [`EntryParseError::CpuTime`] unless `times` holds exactly
    /// ten counters.
    pub fn try_from(times: Vec<UserHz>) -> (r: Result<CpuTime, EntryParseError>)
        ensures
            r is Ok <==> times.len() == 10,
            r matches Ok(time) ==> time@ == ticks_of(times@),
            r matches Err(e) ==> e == EntryParseError::CpuTime,
    {
        if times.len() != 10 {
            return Err(EntryParseError::CpuTime);
        }
        let array: [UserHz; 10] = [
            times[0],
            times[1],
            times[2],
            times[3],
            times[4],
            times[5],
            times[6],
            times[7],
            times[8],
            times[9],
        ];
        assert(array@ =~= times@);
        Ok(CpuTime::from_array(array))
    }

    /// The reading whose counters are `times`, in the table's order.
    pub fn from_array(times: [UserHz; 10]) -> (time: CpuTime)
        ensures
            time@ == ticks_of(times@),
    {
        let time = CpuTime {
            user: times[0],
            nice: times[1],
            system: times[2],
            idle: times[3],
            iowait: times[4],
            irq: times[5],
            softirq: times[6],
            steal: times[7],
            guest: times[8],
            guest_nice: times[9],
        };
        assert(time@ =~= ticks_of(times@));
        time
    }

    /// The ten counters, in the table's order.
    pub fn into_array(self) -> (times: [UserHz; 10])
        ensures
            ticks_of(times@) == self@,
    {
        let times = [
            self.user,
            self.nice,
            self.system,
            self.idle,
            self.iowait,
            self.irq,
            self.softirq,
            self.steal,
            self.guest,
            self.guest_nice,
        ];
        assert(ticks_of(times@) =~= self@);
        times
    }

    /// The time spent in any state but idle.
    ///
    /// The sum must fit 64 bits, as a counter does; `checked_active` tells
    /// whether it does.
    pub fn active(&self) -> (t: UserHz)
        requires
            active_of(self@) <= u64::MAX,
        ensures
            t@ == active_of(self@),
    {
        UserHz(
            self.user.0 + self.nice.0 + self.system.0 + self.iowait.0 + self.irq.0
                + self.softirq.0 + self.steal.0 + self.guest.0 + self.guest_nice.0,
        )
    }

    /// The time spent in any state but idle, or `None` where the sum does
    /// not fit 64 bits.
    pub fn checked_active(&self) -> (t: Option<UserHz>)
        ensures
            active_of(self@) <= u64::MAX ==> t == Some(UserHz(active_of(self@) as u64)),
            active_of(self@) > u64::MAX ==> t is None,
    {
        if self.sum_without_idle() <= u64::MAX as u128 {
            Some(self.active())
        } else {
            None
        }
    }

    /// The time spent in all ten states.
    ///
    /// The sum must fit 64 bits, as a counter does; `checked_total` tells
    /// whether it does.
    pub fn total(&self) -> (t: UserHz)
        requires
            total_of(self@) <= u64::MAX,
        ensures
            t@ == total_of(self@),
    {
        UserHz(
            self.user.0 + self.nice.0 + self.system.0 + self.iowait.0 + self.irq.0
                + self.softirq.0 + self.steal.0 + self.guest.0 + self.guest_nice.0
                + self.idle.0,
        )
    }

    /// The time spent in all ten states, or `None` where the sum does not
    /// fit 64 bits.
    pub fn checked_total(&self) -> (t: Option<UserHz>)
        ensures
            total_of(self@) <= u64::MAX ==> t == Some(UserHz(total_of(self@) as u64)),
            total_of(self@) > u64::MAX ==> t is None,
    {
        if self.sum() <= u64::MAX as u128 {
            Some(self.total())
        } else {
            None
        }
    }

    /// The sum of all ten, in a width that holds it whatever they are.
    fn sum(&self) -> (t: u128)
        ensures
            t == total_of(self@),
    {
        self.sum_without_idle() + self.idle.0 as u128
    }

    /// The sum of all but the idle one, in a width that holds it whatever
    /// they are.
    fn sum_without_idle(&self) -> (t: u128)
        ensures
            t == active_of(self@),
            t <= 9 * u64::MAX,
    {
        self.user.0 as u128 + self.nice.0 as u128 + self.system.0 as u128 + self.iowait.0 as u128
            + self.irq.0 as u128 + self.softirq.0 as u128 + self.steal.0 as u128
            + self.guest.0 as u128 + self.guest_nice.0 as u128
    }
}

/// How far each of a processor's ten counters went between two readings.
///
/// The differences are, in the order of the view: user, nice, system, idle,
/// iowait, irq, softirq, steal, guest, guest_nice.
#[derive(Clone, Copy, Debug, PartialEq, Eq, Structural)]
pub struct Measurement {
    /// time spent in user mode.
    user: UserHz,
    /// time spent in user mode with low priority (nice).
    nice: UserHz,
    /// time spent in system mode.
    system: UserHz,
    /// time spent in the idle task.
    idle: UserHz,
    /// time waiting for i/o to complete.
    iowait: UserHz,
    /// time servicing interrupts.
    irq: UserHz,
    /// time servicing softirqs.
    softirq: UserHz,
    /// stolen time, which is the time spent in other operating systems when
    /// running in a virtualized environment.
    steal: UserHz,
    /// time spent running a virtual cpu for guest operating systems.
    guest: UserHz,
    /// time spent running a niced guest.
    guest_nice: UserHz,
}

impl View for Measurement {
    type V = Seq<nat>;

    /// The ten differences, in the table's order.
    closed spec fn view(&self) -> Seq<nat> {
        seq![
            self.user@,
            self.nice@,
            self.system@,
            self.idle@,
            self.iowait@,
            self.irq@,
            self.softirq@,
            self.steal@,
            self.guest@,
            self.guest_nice@,
        ]
    }
}

impl Measurement {
    /// Every measurement has ten differences, each of which fits 64 bits.
    pub proof fn lemma_shape(self)
        ensures
            self@.len() == 10,
            forall|i: int| 0 <= i < 10 ==> #[trigger] self@[i] <= u64::MAX,
    {
    }

    /// What happened between the reading `a` and the later reading `b` of
    /// one processor.
    ///
    /// Refused with [`ArithmeticUnderflow`] where a counter of `b` is behind
    /// its counterpart in `a`: counters do not run backwards, so the two
    /// readings are not in order, or not of the same processor.
    pub fn new(a: CpuTime, b: CpuTime) -> (r: Result<Measurement, ArithmeticUnderflow>)
        ensures
            r is Ok <==> precedes(a@, b@),
            r matches Ok(m) ==> m@ == delta(a@, b@),
    {
        let user = b.user.checked_sub(a.user)?;
        let nice = b.nice.checked_sub(a.nice)?;
        let system = b.system.checked_sub(a.system)?;
        let idle = b.idle.checked_sub(a.idle)?;
        let iowait = b.iowait.checked_sub(a.iowait)?;
        let irq = b.irq.checked_sub(a.irq)?;
        let softirq = b.softirq.checked_sub(a.softirq)?;
        let steal = b.steal.checked_sub(a.steal)?;
        let guest = b.guest.checked_sub(a.guest)?;
        let guest_nice = b.guest_nice.checked_sub(a.guest_nice)?;
        let m = Measurement {
            user,
            nice,
            system,
            idle,
            iowait,
            irq,
            softirq,
            steal,
            guest,
            guest_nice,
        };
        assert(m@ =~= delta(a@, b@));
        Ok(m)
    }

    /// The ten differences, in the table's order.
    pub fn into_array(self) -> (times: [UserHz; 10])
        ensures
            ticks_of(times@) == self@,
    {
        let times = [
            self.user,
            self.nice,
            self.system,
            self.idle,
            self.iowait,
            self.irq,
            self.softirq,
            self.steal,
            self.guest,
            self.guest_nice,
        ];
        assert(ticks_of(times@) =~= self@);
        times
    }

    /// The share of the time that was spent in any state but idle, as a
    /// whole percentage: the nearest one, and the larger of two that are
    /// equally near.
    ///
    /// Some time must have passed between the two readings. The sums are
    /// taken in a width that holds them whatever the differences are.
    pub fn percentage(&self) -> (p: u8)
        requires
            total_of(self@) > 0,
        ensures
            p == percentage_of(active_of(self@), total_of(self@)),
            p <= 100,
            2 * p * total_of(self@) <= 200 * active_of(self@) + total_of(self@),
            200 * active_of(self@) + total_of(self@) < 2 * (p + 1) * total_of(self@),
    {
        let active = self.sum_without_idle();
        let total = self.sum();
        proof {
            lemma_percentage(active as nat, total as nat);
        }
        let rounded: u128 = (200 * active + total) / (2 * total);
        rounded as u8
    }

    /// The time spent in any state but idle.
    ///
    /// The sum must fit 64 bits, as a counter does; `checked_active` tells
    /// whether it does.
    pub fn active(&self) -> (t: UserHz)
        requires
            active_of(self@) <= u64::MAX,
        ensures
            t@ == active_of(self@),
    {
        UserHz(
            self.user.0 + self.nice.0 + self.system.0 + self.iowait.0 + self.irq.0
                + self.softirq.0 + self.steal.0 + self.guest.0 + self.guest_nice.0,
        )
    }

    /// The time spent in any state but idle, or `None` where the sum does
    /// not fit 64 bits.
    pub fn checked_active(&self) -> (t: Option<UserHz>)
        ensures
            active_of(self@) <= u64::MAX ==> t == Some(UserHz(active_of(self@) as u64)),
            active_of(self@) > u64::MAX ==> t is None,
    {
        if self.sum_without_idle() <= u64::MAX as u128 {
            Some(self.active())
        } else {
            None
        }
    }

    /// The time spent in all ten states: the time between the two readings.
    ///
    /// The sum must fit 64 bits, as a counter does; `checked_total` tells
    /// whether it does.
    pub fn total(&self) -> (t: UserHz)
        requires
            total_of(self@) <= u64::MAX,
        ensures
            t@ == total_of(self@),
    {
        UserHz(
            self.user.0 + self.nice.0 + self.system.0 + self.iowait.0 + self.irq.0
                + self.softirq.0 + self.steal.0 + self.guest.0 + self.guest_nice.0
                + self.idle.0,
        )
    }

    /// The time spent in all ten states, or `None` where the sum does not
    /// fit 64 bits.
    pub fn checked_total(&self) -> (t: Option<UserHz>)
        ensures
            total_of(self@) <= u64::MAX ==> t == Some(UserHz(total_of(self@) as u64)),
            total_of(self@) > u64::MAX ==> t is None,
    {
        if self.sum() <= u64::MAX as u128 {
            Some(self.total())
        } else {
            None
        }
    }

    /// The sum of all ten, in a width that holds it whatever they are.
    fn sum(&self) -> (t: u128)
        ensures
            t == total_of(self@),
    {
        self.sum_without_idle() + self.idle.0 as u128
    }

    /// The sum of all but the idle one, in a width that holds it whatever
    /// they are.
    fn sum_without_idle(&self) -> (t: u128)
        ensures
            t == active_of(self@),
            t <= 9 * u64::MAX,
    {
        self.user.0 as u128 + self.nice.0 as u128 + self.system.0 as u128 + self.iowait.0 as u128
            + self.irq.0 as u128 + self.softirq.0 as u128 + self.steal.0 as u128
            + self.guest.0 as u128 + self.guest_nice.0 as u128
    }
}

/// The share that `active` is of `total`, as a whole percentage: the nearest
/// one, and the larger of two that are equally near.
///
/// `active` is a part of `total`, and `total` is not zero.
pub fn percentage(active: UserHz, total: UserHz) -> (p: u8)
    requires
        active@ <= total@,
        total@ > 0,
    ensures
        p == percentage_of(active@, total@),
        p <= 100,
        2 * p * total@ <= 200 * active@ + total@,
        200 * active@ + total@ < 2 * (p + 1) * total@,
{
    let active: u128 = active.0 as u128;
    let total: u128 = total.0 as u128;
    proof {
        lemma_percentage(active as nat, total as nat);
    }
    let rounded: u128 = (200 * active + total) / (2 * total);
    rounded as u8
}

/// The time that was not idle and the time that was idle make up all of the
/// time, in every measurement: in the difference of any two readings `a` and
/// `b` of which `a` is nowhere ahead of `b`.
pub proof fn lemma_active_and_idle_make_total(a: CpuTime, b: CpuTime)
    requires
        precedes(a@, b@),
    ensures
        active_of(delta(a@, b@)) + delta(a@, b@)[3] == total_of(delta(a@, b@)),
{
}

/// A percentage is a whole number from 0 to 100, and it is the share,
/// rounded to the nearest whole number, a half rounded up:
/// `p - 1/2 <= 100 * active / total < p + 1/2`.
pub proof fn lemma_percentage(active: nat, total: nat)
    requires
        active <= total,
        total > 0,
    ensures
        percentage_of(active, total) <= 100,
        2 * percentage_of(active, total) * total <= 200 * active + total,
        200 * active + total < 2 * (percentage_of(active, total) + 1) * total,
{
    let x = (200 * active + total) as int;
    let d = (2 * total) as int;
    let p = x / d;
    assert(p == percentage_of(active, total));
    vstd::arithmetic::div_mod::lemma_fundamental_div_mod(x, d);
    vstd::arithmetic::div_mod::lemma_mod_bound(x, d);
    assert(x == d * p + x % d);
    assert(0 <= x % d < d);
    assert(d * p == 2 * p * total) by (nonlinear_arith)
        requires
            d == 2 * total,
    ;
    assert(d * (p + 1) == 2 * (p + 1) * total) by (nonlinear_arith)
        requires
            d == 2 * total,
    ;
    assert(d * (p + 1) == d * p + d) by (nonlinear_arith);
    assert(p <= 100) by (nonlinear_arith)
        requires
            d * p <= x,
            x <= 201 * total,
            d == 2 * total,
            total > 0,
    ;
}

} // verus!
