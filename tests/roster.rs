use league_signups::roster::{ClaimError, GameRoster, Role};

#[test]
fn new_roster_is_empty() {
    let r = GameRoster::new();
    assert_eq!(r.view().slots, vec![None; 6]);
}

#[test]
fn reclaim_is_idempotent() {
    let mut r = GameRoster::new();
    assert!(r.claim(Role::Top, 1).is_ok());
    let v = r.claim(Role::Top, 1).unwrap();
    assert_eq!(v.holder(Role::Top), Some(1));
    assert_eq!(v.slots.iter().filter(|s| s.is_some()).count(), 1);
}

#[test]
fn conflicting_claim_is_refused() {
    let mut r = GameRoster::new();
    r.claim(Role::Top, 1).unwrap();
    assert_eq!(r.claim(Role::Top, 2).unwrap_err(), ClaimError::SlotTaken(1));
    assert_eq!(r.view().holder(Role::Top), Some(1));
}

#[test]
fn one_role_per_game() {
    let mut r = GameRoster::new();
    r.claim(Role::Top, 1).unwrap();
    assert_eq!(r.claim(Role::Jungle, 1).unwrap_err(), ClaimError::AlreadyInGame(Role::Top));
    assert_eq!(r.view().holder(Role::Jungle), None);
}

#[test]
fn taken_slot_wins_over_already_in_game() {
    let mut r = GameRoster::new();
    r.claim(Role::Top, 1).unwrap();
    r.claim(Role::Mid, 2).unwrap();
    assert_eq!(r.claim(Role::Mid, 1).unwrap_err(), ClaimError::SlotTaken(2));
}

#[test]
fn release_then_reclaim() {
    let mut r = GameRoster::new();
    r.claim(Role::Top, 1).unwrap();
    let v = r.release(Role::Top, 1).unwrap();
    assert_eq!(v.holder(Role::Top), None);
    let v = r.claim(Role::Top, 2).unwrap();
    assert_eq!(v.holder(Role::Top), Some(2));
}

#[test]
fn release_by_other_is_refused() {
    let mut r = GameRoster::new();
    assert_eq!(r.release(Role::Support, 1).unwrap_err(), ClaimError::NotHolder);
    r.claim(Role::Support, 1).unwrap();
    assert_eq!(r.release(Role::Support, 2).unwrap_err(), ClaimError::NotHolder);
    assert_eq!(r.view().holder(Role::Support), Some(1));
}

#[test]
fn claim_race_has_one_winner() {
    for round in 0..50u64 {
        let (first, second) = if round % 2 == 0 { (1u64, 2u64) } else { (2u64, 1u64) };
        let mut r = GameRoster::new();
        // Other participants hold other roles; the middle lane is open.
        r.claim(Role::Top, 100 + round).unwrap();
        r.claim(Role::Support, 200 + round).unwrap();
        let a = r.claim(Role::Mid, first);
        let b = r.claim(Role::Mid, second);
        assert_eq!(a.is_ok() as u32 + b.is_ok() as u32, 1);
        assert!(a.is_ok());
        assert_eq!(b.unwrap_err(), ClaimError::SlotTaken(first));
        assert_eq!(r.view().holder(Role::Mid), Some(first));
    }
}

#[test]
fn participant_may_play_other_games() {
    let mut a = GameRoster::new();
    let mut b = GameRoster::new();
    a.claim(Role::Adc, 5).unwrap();
    assert!(b.claim(Role::Fill, 5).is_ok());
}

#[test]
fn role_indices_round_trip() {
    for i in 0..6usize {
        assert_eq!(Role::from_index(i).index(), i);
    }
}

#[test]
fn toggle_claims_then_releases() {
    let mut r = GameRoster::new();
    assert_eq!(r.toggle(Role::Adc, 3).unwrap().holder(Role::Adc), Some(3));
    assert_eq!(r.toggle(Role::Adc, 4).unwrap_err(), ClaimError::SlotTaken(3));
    assert_eq!(r.toggle(Role::Adc, 3).unwrap().holder(Role::Adc), None);
}
