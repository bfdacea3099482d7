use glimmerwood_core::attention::{presence_until, Signals};
use glimmerwood_core::dose::{Moment, Presence};

/// The bundled rates: four minutes of input, half an hour of sound.
const PRESENCE: Presence = Presence { input_seconds: 240 };
const SOUND_MS: i64 = 30 * 60_000;

fn t(minutes: i64) -> Moment {
    Moment {
        ms: 1_789_426_800_000 + minutes * 60_000,
        utc_offset_s: 3600,
    }
}

#[test]
fn present_means_in_front_with_recent_input() {
    let signals = Signals {
        in_front: true,
        last_input: Some(t(0)),
        sound_on_screen: false,
    };
    assert_eq!(presence_until(&PRESENCE, SOUND_MS, signals, t(1)), Some(t(4)));
    assert_eq!(presence_until(&PRESENCE, SOUND_MS, signals, t(4)), None);
    let behind = Signals {
        in_front: false,
        ..signals
    };
    assert_eq!(presence_until(&PRESENCE, SOUND_MS, behind, t(1)), None);
}

#[test]
fn sound_on_screen_keeps_you_present_for_half_an_hour_without_input() {
    let watching = Signals {
        in_front: true,
        last_input: Some(t(0)),
        sound_on_screen: true,
    };
    assert_eq!(presence_until(&PRESENCE, SOUND_MS, watching, t(10)), Some(t(11)));
    assert_eq!(presence_until(&PRESENCE, SOUND_MS, watching, t(29)), Some(t(30)));
    // Past that, falling asleep to rain sounds is being away.
    assert_eq!(presence_until(&PRESENCE, SOUND_MS, watching, t(30)), None);
    // ...and never with the window behind another.
    let behind = Signals {
        in_front: false,
        ..watching
    };
    assert_eq!(presence_until(&PRESENCE, SOUND_MS, behind, t(10)), None);
    // ...or without any input at all.
    let untouched = Signals {
        last_input: None,
        ..watching
    };
    assert_eq!(presence_until(&PRESENCE, SOUND_MS, untouched, t(1)), None);
}

#[test]
fn input_outlasts_a_short_sound_lease() {
    let watching = Signals {
        in_front: true,
        last_input: Some(t(0)),
        sound_on_screen: true,
    };
    // Input keeps the user for four minutes, past the sound's one-minute lease.
    assert_eq!(presence_until(&PRESENCE, SOUND_MS, watching, t(0)), Some(t(4)));
}
