use league_signups::controls::{control_id, read_control_id};
use league_signups::roster::Role;

#[test]
fn control_id_names_role_and_game() {
    assert_eq!(control_id(0, Role::Top), "0:0");
    assert_eq!(control_id(1234, Role::Fill), "5:1234");
    assert_eq!(control_id(u128::MAX, Role::Mid), format!("2:{}", u128::MAX));
}

#[test]
fn control_id_reads_back() {
    for (game, role) in [(0u128, Role::Top), (907, Role::Support), (u128::MAX, Role::Adc)] {
        assert_eq!(read_control_id(&control_id(game, role)), Some((game, role)));
    }
}

#[test]
fn malformed_control_ids_are_refused() {
    assert_eq!(read_control_id(""), None);
    assert_eq!(read_control_id("1:"), None);
    assert_eq!(read_control_id("6:12"), None);
    assert_eq!(read_control_id("1-12"), None);
    assert_eq!(read_control_id("1:1x"), None);
    assert_eq!(read_control_id(&format!("1:{}0", u128::MAX)), None);
    assert_eq!(read_control_id("1:007"), Some((7, Role::Jungle)));
}
