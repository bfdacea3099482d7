use glimmerwood_core::protocol::snake_case;

#[test]
fn variant_names_go_on_the_wire_in_snake_case() {
    assert_eq!(snake_case("NotSecure"), "not_secure");
    assert_eq!(snake_case("Secure"), "secure");
    assert_eq!(snake_case("RestoresALot"), "restores_a_lot");
    assert_eq!(snake_case(""), "");
}
