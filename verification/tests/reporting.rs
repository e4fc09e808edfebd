use interview_core::broadcast::{BroadcastMessageType, BroadcastStore};
use interview_core::clock::{next_reminder_time, ttl_fresh};
use interview_core::reports::{get_no_response_users, get_selected_users};
use interview_core::slots::{CreateSlotRequest, SlotStore};
use interview_core::votes::{CreateVoteRequest, VoteStore};

#[test]
fn no_response_lists_invited_without_booking() {
    let mut bstore = BroadcastStore::new();
    let command = interview_core::broadcast::CreateBroadcastCommand {
        message: "please sign up".to_string(),
        message_type: Some(BroadcastMessageType::SignUp),
        selected_external_users: Some(vec![10, 20, 30]),
        media_group: None,
    };
    let (response, event) = bstore.handle_create_broadcast(command, 100).expect("accepted");
    let bid = response.broadcast_id;
    let _ = bstore.handle_broadcast_event(&event, &"e".to_string(), &"w".to_string(), 110);
    let _ = bstore.record_delivery_outcome(&bid, 10, None, 120);
    let _ = bstore.record_delivery_outcome(&bid, 20, None, 121);
    let _ = bstore.record_delivery_outcome(&bid, 30, Some("no chat".to_string()), 122);

    let mut sstore = SlotStore::new();
    let sid = sstore
        .create_slot(
            CreateSlotRequest { start_time: 1000, place: "hall".to_string(), max_users: 5 },
            0,
        )
        .expect("slot created");
    assert!(sstore.create_or_update_booking(10, Some(sid), 10).is_ok());

    let quiet = get_no_response_users(&bstore, &sstore);
    assert_eq!(quiet, vec![20, 30]);
}

#[test]
fn no_response_ignores_custom_broadcasts_and_pending_rows() {
    let mut bstore = BroadcastStore::new();
    let command = interview_core::broadcast::CreateBroadcastCommand {
        message: "newsletter".to_string(),
        message_type: Some(BroadcastMessageType::Custom),
        selected_external_users: Some(vec![40]),
        media_group: None,
    };
    let (response, event) = bstore.handle_create_broadcast(command, 100).expect("accepted");
    let _ = bstore.handle_broadcast_event(&event, &"e".to_string(), &"w".to_string(), 110);
    let _ = bstore.record_delivery_outcome(&response.broadcast_id, 40, None, 120);

    let signup = interview_core::broadcast::CreateBroadcastCommand {
        message: "please sign up".to_string(),
        message_type: Some(BroadcastMessageType::SignUp),
        selected_external_users: Some(vec![50]),
        media_group: None,
    };
    let (_r2, e2) = bstore.handle_create_broadcast(signup, 130).expect("accepted");
    let _ = bstore.handle_broadcast_event(&e2, &"e2".to_string(), &"w".to_string(), 140);
    // Recipient 50's delivery is still pending, so nobody qualifies yet.

    let sstore = SlotStore::new();
    let quiet = get_no_response_users(&bstore, &sstore);
    assert_eq!(quiet.len(), 0);
}

#[test]
fn selected_users_follow_privileged_approvals() {
    let mut vstore = VoteStore::new();
    vstore.set_user_role(9, 1, 5);
    let approve = CreateVoteRequest { survey_id: 100, decision: 1, comment: None };
    vstore.create_vote(approve, 9, 10).expect("recorded");
    let reject = CreateVoteRequest { survey_id: 200, decision: 0, comment: None };
    vstore.create_vote(reject, 9, 11).expect("recorded");
    let ordinary = CreateVoteRequest { survey_id: 300, decision: 1, comment: None };
    vstore.create_vote(ordinary, 4, 12).expect("recorded");
    let picked = get_selected_users(&vstore, &vec![100, 200, 300, 400]);
    assert_eq!(picked, vec![100]);
}

#[test]
fn reminder_wakes_at_the_coming_nine_utc() {
    // 07:00 UTC wakes the same day at 09:00; 10:00 UTC waits for the next.
    let seven_am: i64 = 7 * 3600;
    assert_eq!(next_reminder_time(seven_am), 9 * 3600);
    let ten_am: i64 = 10 * 3600;
    assert_eq!(next_reminder_time(ten_am), 86_400 + 9 * 3600);
}

#[test]
fn cache_entries_expire_after_their_ttl() {
    assert!(ttl_fresh(0, 599, 600));
    assert!(!ttl_fresh(0, 600, 600));
    assert!(!ttl_fresh(0, 1200, 600));
}
