use glimmerwood_core::dose::Mode;
use glimmerwood_core::store::{mode_from_key, mode_key};

#[test]
fn modes_are_found_again_by_their_keys() {
    for mode in [Mode::Away, Mode::Draining, Mode::Resting, Mode::Nourishing, Mode::Holding] {
        assert_eq!(mode_from_key(mode_key(mode)), mode);
    }
}
