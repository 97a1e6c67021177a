use clubs::allocator::next_id;
use clubs::errors::Error;
use clubs::events::Event;
use clubs::origin::Origin;
use clubs::pallet::{DefaultTotalClubs, Pallet};
use clubs::registry::ClubRegistry;
use clubs::store::MembershipStore;

#[test]
fn slot_counter_counts_registrations() {
    let mut pallet = Pallet::new();
    let mut k: u8 = 0;
    while k < 32 {
        assert_eq!(pallet.total_clubs(), k);
        // The k-th registered club gets the identifier with bit k set.
        assert_eq!(
            pallet.add_club(Origin::Root, k),
            Ok(Event::ClubCreated(1_u32 << k))
        );
        k += 1;
    }
    assert_eq!(pallet.total_clubs(), 32);
    // All 32 slots are taken: a 33rd registration is rejected.
    assert_eq!(pallet.add_club(Origin::Root, 0_u8), Err(Error::IndexOutOfBounds));
    assert_eq!(pallet.total_clubs(), 32);
}

#[test]
fn revoke_then_revoke_reports_not_member() {
    let mut pallet = Pallet::new();
    let user: u64 = 3;

    assert!(pallet.add_club(Origin::Root, 1_u8).is_ok());
    assert!(pallet.assign_to_club(Origin::Root, user, 0_u8).is_ok());
    assert!(pallet.remove_from_club(Origin::Root, user, 0_u8).is_ok());
    assert_eq!(
        pallet.remove_from_club(Origin::Root, user, 0_u8),
        Err(Error::NotMember)
    );
}

#[test]
fn revoke_without_grant_reports_not_member() {
    let mut pallet = Pallet::new();
    let user: u64 = 3;

    assert!(pallet.add_club(Origin::Root, 1_u8).is_ok());
    assert_eq!(
        pallet.remove_from_club(Origin::Root, user, 0_u8),
        Err(Error::NotMember)
    );
}

#[test]
fn grant_revoke_round_trip_restores_mask() {
    let mut pallet = Pallet::new();
    let user: u64 = 7;
    let mut k: u8 = 0;
    while k < 4 {
        assert!(pallet.add_club(Origin::Root, k).is_ok());
        k += 1;
    }
    // Some prior membership, so the round trip starts from a non-empty mask.
    assert!(pallet.assign_to_club(Origin::Root, user, 2_u8).is_ok());

    let before: u32 = pallet.users(user);
    assert!(pallet.assign_to_club(Origin::Root, user, 0_u8).is_ok());
    assert!(pallet.remove_from_club(Origin::Root, user, 0_u8).is_ok());
    assert_eq!(pallet.users(user), before);
}

#[test]
fn distinct_clubs_compose_additively() {
    let mut pallet = Pallet::new();
    let user: u64 = 9;
    let mut k: u8 = 0;
    while k < 6 {
        assert!(pallet.add_club(Origin::Root, k).is_ok());
        k += 1;
    }
    assert!(pallet.assign_to_club(Origin::Root, user, 2_u8).is_ok());
    assert!(pallet.assign_to_club(Origin::Root, user, 5_u8).is_ok());
    assert_eq!(pallet.users(user), 0b100100_u32);
    assert!(pallet.remove_from_club(Origin::Root, user, 2_u8).is_ok());
    assert_eq!(pallet.users(user), 0b100000_u32);
}

#[test]
fn unauthorized_commands_leave_state_unchanged() {
    let mut pallet = Pallet::new();
    let user: u64 = 5;
    assert!(pallet.add_club(Origin::Root, 7_u8).is_ok());
    assert!(pallet.add_club(Origin::Root, 9_u8).is_ok());
    assert!(pallet.assign_to_club(Origin::Root, user, 1_u8).is_ok());

    assert_eq!(pallet.add_club(Origin::Signed(user), 3_u8), Err(Error::Unauthorized));
    assert_eq!(
        pallet.assign_to_club(Origin::Signed(user), user, 0_u8),
        Err(Error::Unauthorized)
    );
    assert_eq!(
        pallet.remove_from_club(Origin::Signed(user), user, 1_u8),
        Err(Error::Unauthorized)
    );

    assert_eq!(pallet.total_clubs(), 2);
    assert_eq!(pallet.users(user), Pallet::number_to_id(1_u8));
    assert_eq!(pallet.clubs(Pallet::number_to_id(0_u8)), 7);
    assert_eq!(pallet.clubs(Pallet::number_to_id(1_u8)), 9);
}

#[test]
fn unregistered_club_number_reports_invalid_club() {
    let mut pallet = Pallet::new();
    let user: u64 = 1;
    // Only one club exists; slot 10 has none.
    assert!(pallet.add_club(Origin::Root, 1_u8).is_ok());
    assert_eq!(
        pallet.assign_to_club(Origin::Root, user, 10_u8),
        Err(Error::InvalidClub)
    );
    assert_eq!(
        pallet.remove_from_club(Origin::Root, user, 10_u8),
        Err(Error::InvalidClub)
    );
}

#[test]
fn club_number_out_of_range_rejected_regardless_of_registry() {
    let mut pallet = Pallet::new();
    let user: u64 = 1;
    let mut k: u8 = 0;
    while k < 32 {
        assert!(pallet.add_club(Origin::Root, k).is_ok());
        k += 1;
    }
    // Even with every club registered, only slots 0..=31 exist.
    assert_eq!(pallet.assign_to_club(Origin::Root, user, 40_u8), Err(Error::IndexOutOfBounds));
    assert_eq!(pallet.assign_to_club(Origin::Root, user, 32_u8), Err(Error::IndexOutOfBounds));
    assert_eq!(pallet.remove_from_club(Origin::Root, user, 40_u8), Err(Error::IndexOutOfBounds));
    assert_eq!(pallet.remove_from_club(Origin::Root, user, 32_u8), Err(Error::IndexOutOfBounds));
}

#[test]
fn number_to_id_is_the_slots_power_of_two() {
    assert_eq!(Pallet::number_to_id(0_u8), 1_u32);
    assert_eq!(Pallet::number_to_id(3_u8), 8_u32);
    assert_eq!(Pallet::number_to_id(31_u8), 0x8000_0000_u32);
}

#[test]
fn events_carry_account_and_identifier() {
    let mut pallet = Pallet::new();
    let user: u64 = 11;
    assert_eq!(pallet.add_club(Origin::Root, 1_u8), Ok(Event::ClubCreated(1_u32)));
    assert_eq!(
        pallet.assign_to_club(Origin::Root, user, 0_u8),
        Ok(Event::MemberGranted(user, 1_u32))
    );
    assert_eq!(
        pallet.remove_from_club(Origin::Root, user, 0_u8),
        Ok(Event::MemberRevoked(user, 1_u32))
    );
}

#[test]
fn fresh_state_is_empty() {
    let pallet = Pallet::new();
    assert_eq!(DefaultTotalClubs(), 0);
    assert_eq!(pallet.total_clubs(), 0);
    assert_eq!(pallet.users(1_u64), 0);
    assert_eq!(pallet.clubs(1_u32), 0);
}

#[test]
fn allocator_hands_out_successive_bits() {
    assert_eq!(next_id(0), Ok(1_u32));
    assert_eq!(next_id(5), Ok(32_u32));
    assert_eq!(next_id(31), Ok(0x8000_0000_u32));
    assert_eq!(next_id(32), Err(Error::IndexOutOfBounds));
    assert_eq!(next_id(40), Err(Error::IndexOutOfBounds));
}

#[test]
fn registry_records_clubs_in_slot_order() {
    let mut registry = ClubRegistry::new();
    assert_eq!(registry.total(), 0);
    assert!(!registry.contains_key(1_u32));

    assert_eq!(registry.register(1_u32, 7_u8), Ok(()));
    assert_eq!(registry.register(2_u32, 9_u8), Ok(()));

    assert_eq!(registry.total(), 2);
    assert!(registry.contains_key(1_u32));
    assert!(registry.contains_key(2_u32));
    assert!(!registry.contains_key(4_u32));
    assert_eq!(registry.get_tag(1_u32), 7);
    assert_eq!(registry.get_tag(2_u32), 9);
    assert_eq!(registry.get_tag(4_u32), 0);
}

#[test]
fn registry_rejects_duplicate_identifier() {
    let mut registry = ClubRegistry::new();
    assert_eq!(registry.register(1_u32, 7_u8), Ok(()));
    assert_eq!(registry.register(1_u32, 9_u8), Err(Error::ClubAlreadyExists));
    assert_eq!(registry.total(), 1);
    assert_eq!(registry.get_tag(1_u32), 7);
}

#[test]
fn store_tracks_masks_per_account() {
    let mut store = MembershipStore::new();
    let alice: u64 = 1;
    let bob: u64 = 2;

    assert_eq!(store.mask_of(alice), 0);
    assert_eq!(store.grant(alice, 1_u32), Ok(()));
    assert_eq!(store.grant(alice, 8_u32), Ok(()));
    assert_eq!(store.grant(alice, 8_u32), Err(Error::AlreadyMember));
    assert_eq!(store.mask_of(alice), 9);
    // Another account's mask is untouched.
    assert_eq!(store.mask_of(bob), 0);
    assert_eq!(store.revoke(bob, 1_u32), Err(Error::NotMember));
    assert_eq!(store.revoke(alice, 8_u32), Ok(()));
    assert_eq!(store.revoke(alice, 8_u32), Err(Error::NotMember));
    assert_eq!(store.mask_of(alice), 1);
}

#[test]
fn origin_privilege_check() {
    assert!(Origin::Root.check_privileged());
    assert!(!Origin::Signed(1_u64).check_privileged());
}
