//! Tick counters.

use super::number::{parse_unsigned, read_unsigned, IntParseError};
use super::text::chars_of;
use core::ops::Add;
use std::str::FromStr;
use vstd::prelude::*;
use vstd::std_specs::ops::AddSpecImpl;

verus! {

/// A count of kernel clock ticks.
///
/// The kernel counts in units of `1 / FREQ` seconds. A counter only ever
/// grows, so the difference of two readings is taken with
/// [`UserHz::checked_sub`], which refuses to go below zero.
#[derive(Clone, Copy, Debug, PartialEq, Eq, Structural)]
pub struct UserHz(pub u64);

/// A counter was asked to go below zero: the later reading is smaller than
/// the earlier one.
#[derive(Clone, Copy, Debug, PartialEq, Eq, Structural)]
pub struct ArithmeticUnderflow;

impl View for UserHz {
    type V = nat;

    /// The number of ticks counted.
    open spec fn view(&self) -> nat {
        self.0 as nat
    }
}

impl UserHz {
    /// The number of clock ticks in a second.
    pub const FREQ: u8 = 100;

    /// The number of ticks counted.
    pub fn ticks(self) -> (t: u64)
        ensures
            t == self@,
    {
        self.0
    }

    /// The difference `self - earlier`, or `ArithmeticUnderflow` when
    /// `earlier` is the larger of the two.
    pub fn checked_sub(self, earlier: UserHz) -> (r: Result<UserHz, ArithmeticUnderflow>)
        ensures
            earlier@ <= self@ ==> r == Ok::<UserHz, ArithmeticUnderflow>(UserHz((self@ - earlier@) as u64)),
            earlier@ > self@ ==> r == Err::<UserHz, ArithmeticUnderflow>(ArithmeticUnderflow),
    {
        if earlier.0 <= self.0 {
            Ok(UserHz(self.0 - earlier.0))
        } else {
            Err(ArithmeticUnderflow)
        }
    }
}

impl FromStr for UserHz {
    type Err = IntParseError;

    /// Reads a counter: an unsigned decimal number that fits 64 bits.
    fn from_str(s: &str) -> (r: Result<UserHz, IntParseError>)
        ensures
            match r {
                Ok(counter) => parse_unsigned(s@, u64::MAX as nat) == Ok::<nat, IntParseError>(
                    counter@,
                ),
                Err(e) => parse_unsigned(s@, u64::MAX as nat) == Err::<nat, IntParseError>(e),
            },
    {
        let chars = chars_of(s);
        match read_unsigned(chars.as_slice(), u64::MAX) {
            Ok(ticks) => Ok(UserHz(ticks)),
            Err(e) => Err(e),
        }
    }
}

impl Add for UserHz {
    type Output = UserHz;

    fn add(self, rhs: UserHz) -> (sum: UserHz) {
        UserHz(self.0 + rhs.0)
    }
}

impl AddSpecImpl for UserHz {
    open spec fn obeys_add_spec() -> bool {
        true
    }

    /// A sum is only taken where it fits the counter.
    open spec fn add_req(self, rhs: UserHz) -> bool {
        self@ + rhs@ <= u64::MAX
    }

    open spec fn add_spec(self, rhs: UserHz) -> UserHz {
        UserHz((self@ + rhs@) as u64)
    }
}

} // verus!
