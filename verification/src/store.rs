//! What the dose history keeps: finished garden days, and how kinds of time
//! are written down. The database itself is the shell's.

use vstd::prelude::*;

use crate::dose::{div_floor, in_range, Mode, Moment};
use crate::home::Plant;
use crate::text::{chars_of, same};

verus! {

/// History kept, in days.
pub const RETENTION_DAYS: i64 = 90;

/// A finished day in the garden: what it grew, if anything.
#[derive(Clone, Copy, Debug, PartialEq, Structural)]
pub struct GardenDay {
    pub day: i64,
    pub plant: Option<Plant>,
    pub fireflies: bool,
}

pub open spec fn mode_key_spec(mode: Mode) -> Seq<char> {
    match mode {
        Mode::Away => "away"@,
        Mode::Draining => "draining"@,
        Mode::Resting => "resting"@,
        Mode::Nourishing => "nourishing"@,
        Mode::Holding => "holding"@,
    }
}

/// What a key reads back as; anything unknown is time away.
pub open spec fn mode_from_key_spec(key: Seq<char>) -> Mode {
    if key == "draining"@ {
        Mode::Draining
    } else if key == "resting"@ {
        Mode::Resting
    } else if key == "nourishing"@ {
        Mode::Nourishing
    } else if key == "holding"@ {
        Mode::Holding
    } else {
        Mode::Away
    }
}

pub fn mode_key(mode: Mode) -> (r: &'static str)
    ensures
        r@ == mode_key_spec(mode),
{
    match mode {
        Mode::Away => "away",
        Mode::Draining => "draining",
        Mode::Resting => "resting",
        Mode::Nourishing => "nourishing",
        Mode::Holding => "holding",
    }
}

pub fn mode_from_key(key: &str) -> (r: Mode)
    ensures
        r == mode_from_key_spec(key@),
{
    let k = chars_of(key);
    if same(&k, &chars_of("draining")) {
        Mode::Draining
    } else if same(&k, &chars_of("resting")) {
        Mode::Resting
    } else if same(&k, &chars_of("nourishing")) {
        Mode::Nourishing
    } else if same(&k, &chars_of("holding")) {
        Mode::Holding
    } else {
        Mode::Away
    }
}

/// Every mode is read back as itself.
pub proof fn mode_keys_come_back(mode: Mode)
    ensures
        mode_from_key_spec(mode_key_spec(mode)) == mode,
{
    reveal_strlit("away");
    reveal_strlit("draining");
    reveal_strlit("resting");
    reveal_strlit("nourishing");
    reveal_strlit("holding");
    assert("away"@[0] == 'a' && "draining"@[0] == 'd' && "resting"@[0] == 'r' && "nourishing"@[0]
        == 'n' && "holding"@[0] == 'h');
}

/// The minute a moment falls in, counted from 1970: one row each at most.
pub fn minute_of(at: Moment) -> (r: i64)
    ensures
        r == at.ms as int / 60_000,
{
    div_floor(at.ms, 60_000)
}

/// The first minute still kept: history older than the retention period
/// goes.
pub fn kept_from(now: Moment) -> (r: i64)
    ensures
        r == now.ms as int / 60_000 - RETENTION_DAYS * 24 * 60,
{
    minute_of(now) - RETENTION_DAYS * 24 * 60
}

/// The first minute whose site is forgotten when the last `ms` are.
pub fn forget_from(now: Moment, ms: i64) -> (r: i64)
    requires
        in_range(now),
        0 <= ms <= 1_000_000_000_000,
    ensures
        r == (now.ms - ms) as int / 60_000,
{
    div_floor(now.ms - ms, 60_000)
}

} // verus!
