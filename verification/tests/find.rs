use glimmerwood_core::find::{summary, MAX_MATCHES};

#[test]
fn counts_read_as_words() {
    assert_eq!(summary(None), "No matches");
    assert_eq!(summary(Some(0)), "No matches");
    assert_eq!(summary(Some(1)), "One match");
    assert_eq!(summary(Some(12)), "12 matches");
    assert_eq!(summary(Some(MAX_MATCHES)), "999 matches");
    assert_eq!(summary(Some(u32::MAX)), "Over 999 matches");
}
