//! Where the user's attention is: the rule for presence. The clock itself is
//! the shell's to read; everything here is handed the moment it concerns.

use vstd::prelude::*;

use crate::dose::{in_range, Moment, Presence};

verus! {

/// While sound plays with no input, presence is leased this far ahead (or
/// until sound stops counting) and renewed well before it runs out.
pub const SOUND_LEASE_MS: i64 = 60_000;

/// What a window can tell us about the user.
#[derive(Clone, Copy, Debug)]
pub struct Signals {
    /// The window is the active one and not hidden or minimised.
    pub in_front: bool,
    pub last_input: Option<Moment>,
    /// The visible tab is playing sound (not muted). Silent video doesn't
    /// count.
    pub sound_on_screen: bool,
}

pub open spec fn later(a: Option<int>, b: Option<int>) -> Option<int> {
    match (a, b) {
        (Some(x), Some(y)) => Some(if x >= y {
            x
        } else {
            y
        }),
        (Some(x), None) => Some(x),
        (None, y) => y,
    }
}

/// Until when, in Unix milliseconds, the user counts as present: in front,
/// and either input within `input_seconds`, or sound on screen within
/// `sound_ms` of the last input, leased at most `SOUND_LEASE_MS` ahead.
pub open spec fn presence_spec(input_seconds: int, sound_ms: int, s: Signals, now: Moment) -> Option<int> {
    if !s.in_front {
        None
    } else {
        let by_input = match s.last_input {
            Some(t) => if t.ms + input_seconds * 1000 > now.ms {
                Some(t.ms + input_seconds * 1000)
            } else {
                None
            },
            None => None,
        };
        let by_sound = match s.last_input {
            Some(t) => if s.sound_on_screen && t.ms + sound_ms > now.ms {
                Some(
                    if t.ms + sound_ms <= now.ms + SOUND_LEASE_MS {
                        t.ms + sound_ms
                    } else {
                        now.ms + SOUND_LEASE_MS
                    },
                )
            } else {
                None
            },
            None => None,
        };
        later(by_input, by_sound)
    }
}

/// Until when the user counts as present, or `None` if they're away.
/// Sound keeps the user present only so long after they last touched
/// anything (`sound_ms`): past that they've stepped away or fallen asleep
/// to it.
pub fn presence_until(presence: &Presence, sound_ms: i64, signals: Signals, now: Moment) -> (r: Option<Moment>)
    requires
        in_range(now),
        signals.last_input matches Some(t) ==> in_range(t),
        0 <= sound_ms <= 1_000_000_000_000_000,
    ensures
        match presence_spec(presence.input_seconds as int, sound_ms as int, signals, now) {
            Some(ms) => r == Some(Moment { ms: ms as i64, utc_offset_s: now.utc_offset_s }),
            None => r is None,
        },
{
    if !signals.in_front {
        return None;
    }
    let by_input: Option<i64> = match signals.last_input {
        Some(t) => {
            let until = t.ms + presence.input_seconds as i64 * 1000;
            if until > now.ms {
                Some(until)
            } else {
                None
            }
        },
        None => None,
    };
    let by_sound: Option<i64> = match signals.last_input {
        Some(t) => {
            let until = t.ms + sound_ms;
            if signals.sound_on_screen && until > now.ms {
                let lease = now.ms + SOUND_LEASE_MS;
                Some(
                    if until <= lease {
                        until
                    } else {
                        lease
                    },
                )
            } else {
                None
            }
        },
        None => None,
    };
    let best: Option<i64> = match (by_input, by_sound) {
        (Some(x), Some(y)) => Some(
            if x >= y {
                x
            } else {
                y
            },
        ),
        (Some(x), None) => Some(x),
        (None, y) => y,
    };
    match best {
        Some(ms) => Some(Moment { ms, utc_offset_s: now.utc_offset_s }),
        None => None,
    }
}

} // verus!
