use interview_core::ranking::{get_best_slots_for_booking, get_upcoming_open_slots};
use interview_core::slots::{CreateSlotRequest, SlotStore};

fn add_slot(store: &mut SlotStore, time: i64, place: &str, cap: u16) -> i64 {
    let req = CreateSlotRequest { start_time: time, place: place.to_string(), max_users: cap };
    store.create_slot(req, 0).expect("slot should be created")
}

#[test]
fn ranker_returns_nothing_without_future_slots() {
    let mut store = SlotStore::new();
    add_slot(&mut store, 100, "past a", 2);
    add_slot(&mut store, 200, "past b", 2);
    let open = get_upcoming_open_slots(&store, 500);
    assert_eq!(open.len(), 0);
    let best = get_best_slots_for_booking(&open, &Vec::new(), 6);
    assert_eq!(best.len(), 0);
}

#[test]
fn ranker_skips_full_and_past_slots() {
    let mut store = SlotStore::new();
    let past = add_slot(&mut store, 100, "past", 2);
    let full = add_slot(&mut store, 2000, "full", 1);
    let open_id = add_slot(&mut store, 3000, "open", 2);
    assert!(store.create_or_update_booking(1, Some(full), 10).is_ok());
    let open = get_upcoming_open_slots(&store, 500);
    assert_eq!(open.len(), 1);
    assert_eq!(open[0].id, open_id);
    assert_ne!(open[0].id, past);
}

#[test]
fn top_slots_by_weight_presented_chronologically() {
    let mut store = SlotStore::new();
    let s1 = add_slot(&mut store, 1000, "a", 2);
    let s2 = add_slot(&mut store, 2000, "b", 2);
    let s3 = add_slot(&mut store, 3000, "c", 2);
    let open = get_upcoming_open_slots(&store, 0);
    assert_eq!(open.len(), 3);
    assert_eq!(open[0].id, s1);
    // The middle and late slots score highest; the pick comes back in
    // chronological order all the same.
    let weights: Vec<u64> = vec![5, 9, 7];
    let best = get_best_slots_for_booking(&open, &weights, 2);
    assert_eq!(best.len(), 2);
    assert_eq!(best[0].id, s2);
    assert_eq!(best[1].id, s3);
}

#[test]
fn weight_ties_go_to_the_earlier_slot() {
    let mut store = SlotStore::new();
    let s1 = add_slot(&mut store, 1000, "a", 2);
    add_slot(&mut store, 2000, "b", 2);
    add_slot(&mut store, 3000, "c", 2);
    let open = get_upcoming_open_slots(&store, 0);
    let weights: Vec<u64> = vec![5, 5, 3];
    let best = get_best_slots_for_booking(&open, &weights, 1);
    assert_eq!(best.len(), 1);
    assert_eq!(best[0].id, s1);
}

#[test]
fn limit_larger_than_pool_returns_everything() {
    let mut store = SlotStore::new();
    add_slot(&mut store, 1000, "a", 2);
    add_slot(&mut store, 2000, "b", 2);
    let open = get_upcoming_open_slots(&store, 0);
    let weights: Vec<u64> = vec![1, 2];
    let best = get_best_slots_for_booking(&open, &weights, 6);
    assert_eq!(best.len(), 2);
}
