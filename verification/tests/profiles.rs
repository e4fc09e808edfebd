use interview_core::api::bookings_response;
use interview_core::slots::{CreateSlotRequest, SlotStore};
use interview_core::users::{authenticate_user, display_name, UserProfile};

fn profile(full_name: Option<&str>, nickname: Option<&str>) -> UserProfile {
    UserProfile {
        telegram_id: 7,
        telegram_nickname: nickname.map(|s| s.to_string()),
        vk_nickname: None,
        status: None,
        full_name: full_name.map(|s| s.to_string()),
        phone_number: None,
        live_metro_station: None,
        study_metro_station: None,
        year_of_admission: None,
        has_driver_license: None,
        date_of_birth: None,
        has_printer: None,
        can_host_night: None,
    }
}

#[test]
fn display_name_prefers_the_full_name() {
    assert_eq!(
        display_name(&profile(Some("Full Name"), Some("nick"))),
        Some("Full Name".to_string())
    );
    assert_eq!(display_name(&profile(None, Some("nick"))), Some("nick".to_string()));
    assert_eq!(display_name(&profile(None, None)), None);
}

#[test]
fn authentication_follows_the_directory() {
    let ok = authenticate_user(Some(profile(Some("Full Name"), None)), Some(1));
    assert!(ok.success);
    assert_eq!(ok.user_role, Some(1));
    assert!(ok.user_profile.is_some());
    assert_eq!(ok.message, "authenticated".to_string());
    let missing = authenticate_user(None, Some(1));
    assert!(!missing.success);
    assert_eq!(missing.user_role, None);
    assert!(missing.user_profile.is_none());
    assert_eq!(missing.message, "user not found".to_string());
}

#[test]
fn bookings_listing_mirrors_the_records() {
    let mut store = SlotStore::new();
    let sid = store
        .create_slot(
            CreateSlotRequest { start_time: 1000, place: "hall".to_string(), max_users: 2 },
            0,
        )
        .expect("slot created");
    assert!(store.create_or_update_booking(5, Some(sid), 10).is_ok());
    let listing = bookings_response(&store.get_all_bookings());
    assert_eq!(listing.bookings.len(), 1);
    assert_eq!(listing.bookings[0].telegram_id, 5);
    assert_eq!(listing.bookings[0].slot_id, sid);
}
