use interview_core::slots::{
    BookingError, CreateBookingRequest, CreateSlotError, CreateSlotRequest, SlotStore,
    UpdateSlotError, UpdateSlotRequest,
};

fn future_slot(store: &mut SlotStore, time: i64, place: &str, cap: u16) -> i64 {
    let req = CreateSlotRequest { start_time: time, place: place.to_string(), max_users: cap };
    store.create_slot(req, 0).expect("slot should be created")
}

#[test]
fn create_slot_validates_input() {
    let mut store = SlotStore::new();
    let empty = CreateSlotRequest { start_time: 100, place: String::new(), max_users: 2 };
    assert_eq!(store.create_slot(empty, 0), Err(CreateSlotError::EmptyPlace));
    let zero = CreateSlotRequest { start_time: 100, place: "hall".to_string(), max_users: 0 };
    assert_eq!(store.create_slot(zero, 0), Err(CreateSlotError::ZeroCapacity));
    let past = CreateSlotRequest { start_time: 50, place: "hall".to_string(), max_users: 2 };
    assert_eq!(store.create_slot(past, 100), Err(CreateSlotError::StartInPast));
    let ok = CreateSlotRequest { start_time: 100, place: "hall".to_string(), max_users: 2 };
    assert_eq!(store.create_slot(ok, 100), Ok(1));
}

#[test]
fn book_and_read_back() {
    let mut store = SlotStore::new();
    let sid = future_slot(&mut store, 1000, "hall", 2);
    assert!(store.create_or_update_booking(7, Some(sid), 10).is_ok());
    let (slot, booked) = store.get_slot(sid).expect("slot exists");
    assert_eq!(slot.id, sid);
    assert_eq!(slot.place, "hall".to_string());
    assert_eq!(booked, 1);
}

#[test]
fn booking_missing_slot_fails() {
    let mut store = SlotStore::new();
    assert_eq!(
        store.create_or_update_booking(7, Some(99), 10),
        Err(BookingError::SlotNotFound)
    );
}

#[test]
fn exactly_full_slot_rejects_with_counts() {
    let mut store = SlotStore::new();
    let sid = future_slot(&mut store, 1000, "hall", 1);
    assert!(store.create_or_update_booking(1, Some(sid), 10).is_ok());
    assert_eq!(
        store.create_or_update_booking(2, Some(sid), 11),
        Err(BookingError::SlotFull { max_users: 1, current_count: 1 })
    );
}

#[test]
fn capacity_race_two_of_four_succeed() {
    let mut store = SlotStore::new();
    let sid = future_slot(&mut store, 1000, "hall", 2);
    let mut successes = 0;
    let mut full_errors = 0;
    for r in [10i64, 20, 30, 40] {
        match store.create_or_update_booking(r, Some(sid), 10) {
            Ok(()) => successes += 1,
            Err(BookingError::SlotFull { max_users, current_count }) => {
                assert_eq!(max_users, 2);
                assert_eq!(current_count, 2);
                full_errors += 1;
            },
            Err(other) => panic!("unexpected error {:?}", other),
        }
    }
    assert_eq!(successes, 2);
    assert_eq!(full_errors, 2);
    let (_, booked) = store.get_slot(sid).expect("slot exists");
    assert_eq!(booked, 2);
}

#[test]
fn rebooking_replaces_the_old_booking() {
    let mut store = SlotStore::new();
    let s1 = future_slot(&mut store, 1000, "hall a", 1);
    let s2 = future_slot(&mut store, 2000, "hall b", 1);
    assert!(store.create_or_update_booking(7, Some(s1), 10).is_ok());
    assert!(store.create_or_update_booking(7, Some(s2), 11).is_ok());
    let records = store.get_all_bookings();
    assert_eq!(records.len(), 1);
    assert_eq!(records[0].telegram_id, 7);
    assert_eq!(records[0].slot_id, s2);
    assert_eq!(store.get_slot(s1).unwrap().1, 0);
    assert_eq!(store.get_slot(s2).unwrap().1, 1);
}

#[test]
fn booking_none_cancels() {
    let mut store = SlotStore::new();
    let sid = future_slot(&mut store, 1000, "hall", 1);
    assert!(store.create_or_update_booking(7, Some(sid), 10).is_ok());
    assert!(store.create_or_update_booking(7, None, 11).is_ok());
    assert_eq!(store.get_all_bookings().len(), 0);
}

#[test]
fn create_booking_returns_the_booking() {
    let mut store = SlotStore::new();
    let sid = future_slot(&mut store, 1000, "hall", 1);
    let booking = store
        .create_booking(CreateBookingRequest { slot_id: sid, telegram_id: 9 }, 10)
        .expect("booking should succeed");
    assert_eq!(booking.slot_id, sid);
    assert_eq!(booking.telegram_id, 9);
}

#[test]
fn capacity_update_below_booked_rejected() {
    let mut store = SlotStore::new();
    let sid = future_slot(&mut store, 1000, "hall", 3);
    assert!(store.create_or_update_booking(1, Some(sid), 10).is_ok());
    assert!(store.create_or_update_booking(2, Some(sid), 10).is_ok());
    let shrink = UpdateSlotRequest { start_time: None, place: None, max_users: Some(1) };
    assert_eq!(store.update_slot(sid, shrink), Err(UpdateSlotError::CapacityBelowBooked));
    let keep = UpdateSlotRequest { start_time: None, place: None, max_users: Some(2) };
    assert_eq!(store.update_slot(sid, keep), Ok(()));
    assert_eq!(store.get_slot(sid).unwrap().0.max_user, 2);
    let missing = UpdateSlotRequest { start_time: None, place: None, max_users: None };
    assert_eq!(store.update_slot(777, missing), Err(UpdateSlotError::SlotNotFound));
}

#[test]
fn deleting_a_slot_cascades_to_bookings() {
    let mut store = SlotStore::new();
    let s1 = future_slot(&mut store, 1000, "hall a", 2);
    let s2 = future_slot(&mut store, 2000, "hall b", 2);
    assert!(store.create_or_update_booking(1, Some(s1), 10).is_ok());
    assert!(store.create_or_update_booking(2, Some(s2), 10).is_ok());
    store.delete_slot(s1);
    assert!(store.get_slot(s1).is_none());
    let records = store.get_all_bookings();
    assert_eq!(records.len(), 1);
    assert_eq!(records[0].slot_id, s2);
}

#[test]
fn delete_booking_and_user() {
    let mut store = SlotStore::new();
    let sid = future_slot(&mut store, 1000, "hall", 3);
    assert!(store.create_or_update_booking(1, Some(sid), 10).is_ok());
    assert!(store.create_or_update_booking(2, Some(sid), 10).is_ok());
    let first_id = store.get_all_bookings()[0].id;
    store.delete_booking(first_id);
    assert_eq!(store.get_all_bookings().len(), 1);
    store.delete_user(2);
    assert_eq!(store.get_all_bookings().len(), 0);
}

#[test]
fn todays_bookings_respect_the_window() {
    let mut store = SlotStore::new();
    let today = future_slot(&mut store, 50_000, "today hall", 2);
    let tomorrow = future_slot(&mut store, 120_000, "tomorrow hall", 2);
    assert!(store.create_or_update_booking(1, Some(today), 10).is_ok());
    assert!(store.create_or_update_booking(2, Some(tomorrow), 10).is_ok());
    let infos = store.get_todays_bookings(0, 86_400);
    assert_eq!(infos.len(), 1);
    assert_eq!(infos[0].telegram_id, 1);
    assert_eq!(infos[0].time, 50_000);
    assert_eq!(infos[0].place, "today hall".to_string());
}

#[test]
fn available_slots_excludes_full_ones() {
    let mut store = SlotStore::new();
    let s1 = future_slot(&mut store, 1000, "hall a", 1);
    let s2 = future_slot(&mut store, 2000, "hall b", 2);
    assert!(store.create_or_update_booking(1, Some(s1), 10).is_ok());
    let open = store.get_available_slots();
    assert_eq!(open.len(), 1);
    assert_eq!(open[0].id, s2);
}

#[test]
fn all_slots_come_back_chronologically() {
    let mut store = SlotStore::new();
    let s_late = future_slot(&mut store, 3000, "late", 1);
    let s_early = future_slot(&mut store, 1000, "early", 1);
    let s_mid = future_slot(&mut store, 2000, "mid", 1);
    let all = store.get_all_slots();
    assert_eq!(all.len(), 3);
    assert_eq!(all[0].id, s_early);
    assert_eq!(all[1].id, s_mid);
    assert_eq!(all[2].id, s_late);
}
