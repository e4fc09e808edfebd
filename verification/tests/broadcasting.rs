use interview_core::broadcast::{
    BroadcastEvent, BroadcastMessage, BroadcastMessageType, BroadcastStatus, BroadcastStore,
    CancelBroadcastCommand, CreateBroadcastCommand, CreateBroadcastError, MediaGroup, MediaItem,
    MessageStatus, RetryMessageCommand, SendPlan,
};

fn command(recipients: Vec<i64>, kind: Option<BroadcastMessageType>) -> CreateBroadcastCommand {
    CreateBroadcastCommand {
        message: "come and sign up".to_string(),
        message_type: kind,
        selected_external_users: Some(recipients),
        media_group: None,
    }
}

fn created(
    store: &mut BroadcastStore,
    recipients: Vec<i64>,
    kind: Option<BroadcastMessageType>,
    now: i64,
) -> (String, BroadcastEvent) {
    let (response, event) = store
        .handle_create_broadcast(command(recipients, kind), now)
        .expect("broadcast should be accepted");
    assert!(matches!(response.status, BroadcastStatus::Pending));
    (response.broadcast_id, event)
}

#[test]
fn create_broadcast_seeds_summary_and_log() {
    let mut store = BroadcastStore::new();
    let (bid, event) = created(&mut store, vec![10, 20, 30], None, 100);
    assert_eq!(bid.len(), 36);
    let summary = store.get_broadcast_summary(&bid).expect("summary exists");
    assert_eq!(summary.total_users, 3);
    assert_eq!(summary.pending_count, 3);
    assert_eq!(summary.sent_count, 0);
    assert_eq!(summary.failed_count, 0);
    assert!(matches!(summary.status, BroadcastStatus::Pending));
    let log = store.get_broadcast_events(&bid);
    assert_eq!(log.len(), 1);
    assert_eq!(log[0].version, 1);
    assert!(matches!(log[0].event, BroadcastEvent::BroadcastCreated { .. }));
    match &event {
        BroadcastEvent::BroadcastCreated { broadcast_id, target_users, .. } => {
            assert_eq!(*broadcast_id, bid);
            assert_eq!(*target_users, vec![10, 20, 30]);
        },
        other => panic!("unexpected event {:?}", other),
    }
}

#[test]
fn empty_recipient_set_is_invalid_input() {
    let mut store = BroadcastStore::new();
    let r1 = store.handle_create_broadcast(command(vec![], None), 100);
    assert!(matches!(r1, Err(CreateBroadcastError::NoRecipients)));
    let none = CreateBroadcastCommand {
        message: "hello".to_string(),
        message_type: None,
        selected_external_users: None,
        media_group: None,
    };
    let r2 = store.handle_create_broadcast(none, 100);
    assert!(matches!(r2, Err(CreateBroadcastError::NoRecipients)));
}

#[test]
fn event_worker_materialises_rows_and_commands() {
    let mut store = BroadcastStore::new();
    let (bid, event) = created(&mut store, vec![10, 20, 30], None, 100);
    let eid = "event-1".to_string();
    let wid = "worker-1".to_string();
    let cmds = store.handle_broadcast_event(&event, &eid, &wid, 110);
    assert_eq!(cmds.len(), 3);
    assert_eq!(cmds[0].telegram_id, 10);
    assert_eq!(cmds[0].broadcast_id, bid);
    assert_eq!(cmds[0].message, "come and sign up".to_string());
    let rows = store.get_broadcast_messages(&bid, None, None, None);
    assert_eq!(rows.len(), 3);
    for row in &rows {
        assert!(matches!(row.status, MessageStatus::Pending));
    }
    assert!(store.is_event_processed(&eid, &wid));
}

#[test]
fn replayed_event_changes_nothing() {
    let mut store = BroadcastStore::new();
    let (bid, event) = created(&mut store, vec![10, 20, 30], None, 100);
    let eid = "event-1".to_string();
    let wid = "worker-1".to_string();
    let first = store.handle_broadcast_event(&event, &eid, &wid, 110);
    assert_eq!(first.len(), 3);
    let replay = store.handle_broadcast_event(&event, &eid, &wid, 120);
    assert_eq!(replay.len(), 0);
    assert_eq!(store.get_broadcast_messages(&bid, None, None, None).len(), 3);
}

#[test]
fn broadcast_converges_after_draining() {
    let mut store = BroadcastStore::new();
    let (bid, event) = created(&mut store, vec![10, 20, 30], None, 100);
    let _ = store.handle_broadcast_event(&event, &"e".to_string(), &"w".to_string(), 110);
    let _ = store.record_delivery_outcome(&bid, 10, None, 120);
    let _ = store.record_delivery_outcome(&bid, 20, None, 121);
    let _ = store.record_delivery_outcome(&bid, 30, Some("blocked by peer".to_string()), 122);
    let summary = store.get_broadcast_summary(&bid).expect("summary exists");
    assert_eq!(summary.total_users, 3);
    assert_eq!(summary.sent_count, 2);
    assert_eq!(summary.failed_count, 1);
    assert_eq!(summary.pending_count, 0);
    assert!(matches!(summary.status, BroadcastStatus::Completed));
    assert!(summary.completed_at.is_some());
    let log = store.get_broadcast_events(&bid);
    let mut sent_to = Vec::new();
    let mut failed_to = Vec::new();
    for rec in &log {
        match &rec.event {
            BroadcastEvent::MessageSent { telegram_id, .. } => sent_to.push(*telegram_id),
            BroadcastEvent::MessageFailed { telegram_id, error, .. } => {
                failed_to.push(*telegram_id);
                assert_eq!(*error, "blocked by peer".to_string());
            },
            _ => {},
        }
    }
    assert_eq!(sent_to, vec![10, 20]);
    assert_eq!(failed_to, vec![30]);
}

#[test]
fn log_versions_grow_in_order() {
    let mut store = BroadcastStore::new();
    let (bid, event) = created(&mut store, vec![10, 20], None, 100);
    let _ = store.handle_broadcast_event(&event, &"e".to_string(), &"w".to_string(), 110);
    let _ = store.record_delivery_outcome(&bid, 10, None, 120);
    let _ = store.record_delivery_outcome(&bid, 20, None, 121);
    let log = store.get_broadcast_events(&bid);
    assert_eq!(log.len(), 3);
    assert!(log[0].version < log[1].version);
    assert!(log[1].version < log[2].version);
}

#[test]
fn partial_progress_is_in_progress() {
    let mut store = BroadcastStore::new();
    let (bid, event) = created(&mut store, vec![10, 20], None, 100);
    let _ = store.handle_broadcast_event(&event, &"e".to_string(), &"w".to_string(), 110);
    let _ = store.record_delivery_outcome(&bid, 10, None, 120);
    let summary = store.get_broadcast_summary(&bid).expect("summary exists");
    assert_eq!(summary.sent_count, 1);
    assert_eq!(summary.pending_count, 1);
    assert!(matches!(summary.status, BroadcastStatus::InProgress));
    assert!(summary.started_at.is_some());
    assert!(summary.completed_at.is_none());
}

#[test]
fn retry_flips_failed_row_and_caps_the_count() {
    let mut store = BroadcastStore::new();
    let (bid, event) = created(&mut store, vec![10], None, 100);
    let _ = store.handle_broadcast_event(&event, &"e".to_string(), &"w".to_string(), 110);
    let _ = store.record_delivery_outcome(&bid, 10, Some("boom".to_string()), 120);
    let retry = RetryMessageCommand { broadcast_id: bid.clone(), telegram_id: 10 };
    let cmd = store.handle_retry_message(&retry, 130).expect("retry should be offered");
    assert_eq!(cmd.telegram_id, 10);
    assert_eq!(cmd.message, "come and sign up".to_string());
    let rows = store.get_broadcast_messages(&bid, None, None, None);
    assert!(matches!(rows[0].status, MessageStatus::Retrying));
    assert_eq!(rows[0].retry_count, 1);
    // Idempotent against a row already retrying.
    let again = store.handle_retry_message(&retry, 140).expect("still offered");
    assert_eq!(again.telegram_id, 10);
    let rows2 = store.get_broadcast_messages(&bid, None, None, None);
    assert_eq!(rows2[0].retry_count, 1);
    // The retry resolves.
    let _ = store.record_delivery_outcome(&bid, 10, None, 150);
    let summary = store.get_broadcast_summary(&bid).expect("summary exists");
    assert_eq!(summary.sent_count, 1);
    assert!(matches!(summary.status, BroadcastStatus::Completed));
}

#[test]
fn retry_republishes_the_media_from_the_log() {
    let mut store = BroadcastStore::new();
    let media = MediaGroup {
        media: vec![MediaItem {
            media_type: "photo".to_string(),
            file_id: Some("pic-1".to_string()),
            file_path: None,
            caption: Some("hello".to_string()),
        }],
    };
    let cmd = CreateBroadcastCommand {
        message: "come and sign up".to_string(),
        message_type: None,
        selected_external_users: Some(vec![10]),
        media_group: Some(media),
    };
    let (response, event) = store.handle_create_broadcast(cmd, 100).expect("accepted");
    let bid = response.broadcast_id;
    let _ = store.handle_broadcast_event(&event, &"e".to_string(), &"w".to_string(), 110);
    let _ = store.record_delivery_outcome(&bid, 10, Some("boom".to_string()), 120);
    let retry = RetryMessageCommand { broadcast_id: bid, telegram_id: 10 };
    let republished = store.handle_retry_message(&retry, 130).expect("retry offered");
    let group = republished.media_group.expect("media recovered from the log");
    assert_eq!(group.media.len(), 1);
    assert_eq!(group.media[0].file_id, Some("pic-1".to_string()));
    assert_eq!(group.media[0].caption, Some("hello".to_string()));
}

#[test]
fn retry_refuses_rows_that_did_not_fail() {
    let mut store = BroadcastStore::new();
    let (bid, event) = created(&mut store, vec![10], None, 100);
    let _ = store.handle_broadcast_event(&event, &"e".to_string(), &"w".to_string(), 110);
    let retry = RetryMessageCommand { broadcast_id: bid.clone(), telegram_id: 10 };
    assert!(store.handle_retry_message(&retry, 120).is_none());
    let missing = RetryMessageCommand { broadcast_id: bid, telegram_id: 99 };
    assert!(store.handle_retry_message(&missing, 121).is_none());
}

#[test]
fn cancel_marks_summary_failed() {
    let mut store = BroadcastStore::new();
    let (bid, _) = created(&mut store, vec![10, 20], None, 100);
    store.handle_cancel_broadcast(&CancelBroadcastCommand { broadcast_id: bid.clone() }, 130);
    let summary = store.get_broadcast_summary(&bid).expect("summary exists");
    assert!(matches!(summary.status, BroadcastStatus::Failed));
    assert_eq!(summary.completed_at, Some(130));
}

#[test]
fn delete_broadcast_keeps_the_log() {
    let mut store = BroadcastStore::new();
    let (bid, event) = created(&mut store, vec![10], None, 100);
    let _ = store.handle_broadcast_event(&event, &"e".to_string(), &"w".to_string(), 110);
    store.delete_broadcast(&bid);
    assert!(store.get_broadcast_summary(&bid).is_none());
    assert_eq!(store.get_broadcast_messages(&bid, None, None, None).len(), 0);
    assert_eq!(store.get_broadcast_events(&bid).len(), 1);
}

#[test]
fn message_listing_filters_and_pages() {
    let mut store = BroadcastStore::new();
    let (bid, event) = created(&mut store, vec![10, 20, 30, 40], None, 100);
    let _ = store.handle_broadcast_event(&event, &"e".to_string(), &"w".to_string(), 110);
    let _ = store.record_delivery_outcome(&bid, 10, None, 120);
    let _ = store.record_delivery_outcome(&bid, 20, Some("boom".to_string()), 121);
    let sent = store.get_broadcast_messages(&bid, Some(MessageStatus::Sent), None, None);
    assert_eq!(sent.len(), 1);
    assert_eq!(sent[0].telegram_id, 10);
    let page = store.get_broadcast_messages(&bid, None, Some(2), Some(1));
    assert_eq!(page.len(), 2);
    assert_eq!(page[0].telegram_id, 20);
    assert_eq!(page[1].telegram_id, 30);
    let beyond = store.get_broadcast_messages(&bid, None, Some(10), Some(9));
    assert_eq!(beyond.len(), 0);
}

#[test]
fn text_plan_carries_the_sign_up_button() {
    let signup = BroadcastMessage {
        telegram_id: 10,
        message: "sign up".to_string(),
        broadcast_id: "b".to_string(),
        message_type: Some(BroadcastMessageType::SignUp),
        media_group: None,
        created_at: 0,
    };
    match interview_core::broadcast::plan_send(&signup) {
        SendPlan::Text { sign_up_button } => assert!(sign_up_button),
        other => panic!("unexpected plan {:?}", other),
    }
    let plain = BroadcastMessage { message_type: None, ..signup };
    match interview_core::broadcast::plan_send(&plain) {
        SendPlan::Text { sign_up_button } => assert!(!sign_up_button),
        other => panic!("unexpected plan {:?}", other),
    }
}

#[test]
fn media_plan_keeps_valid_items_and_first_caption() {
    let items = vec![
        MediaItem {
            media_type: "photo".to_string(),
            file_id: None,
            file_path: Some("/tmp/a".to_string()),
            caption: Some("dropped".to_string()),
        },
        MediaItem {
            media_type: "video".to_string(),
            file_id: Some("vid-1".to_string()),
            file_path: None,
            caption: Some("first caption".to_string()),
        },
        MediaItem {
            media_type: "scroll".to_string(),
            file_id: Some("weird".to_string()),
            file_path: None,
            caption: None,
        },
        MediaItem {
            media_type: "photo".to_string(),
            file_id: Some("pic-2".to_string()),
            file_path: None,
            caption: Some("second caption".to_string()),
        },
    ];
    let msg = BroadcastMessage {
        telegram_id: 10,
        message: "look".to_string(),
        broadcast_id: "b".to_string(),
        message_type: None,
        media_group: Some(MediaGroup { media: items }),
        created_at: 0,
    };
    match interview_core::broadcast::plan_send(&msg) {
        SendPlan::Media { items } => {
            assert_eq!(items.len(), 2);
            assert_eq!(items[0].file_id, Some("vid-1".to_string()));
            assert_eq!(items[0].caption, Some("first caption".to_string()));
            assert_eq!(items[1].file_id, Some("pic-2".to_string()));
            assert_eq!(items[1].caption, None);
        },
        other => panic!("unexpected plan {:?}", other),
    }
}

#[test]
fn media_plan_with_no_valid_items_fails_the_message() {
    let items = vec![MediaItem {
        media_type: "photo".to_string(),
        file_id: None,
        file_path: Some("/tmp/a".to_string()),
        caption: None,
    }];
    let msg = BroadcastMessage {
        telegram_id: 10,
        message: "look".to_string(),
        broadcast_id: "b".to_string(),
        message_type: None,
        media_group: Some(MediaGroup { media: items }),
        created_at: 0,
    };
    match interview_core::broadcast::plan_send(&msg) {
        SendPlan::InvalidMedia { error } => {
            assert_eq!(error, "media group has no valid items: upload the files first".to_string());
        },
        other => panic!("unexpected plan {:?}", other),
    }
}

#[test]
fn fresh_broadcast_ids_have_uuid_shape() {
    let mut store = BroadcastStore::new();
    let (bid_a, _) = created(&mut store, vec![1], None, 100);
    let (bid_b, _) = created(&mut store, vec![1], None, 101);
    assert_eq!(bid_a.len(), 36);
    assert_eq!(bid_b.len(), 36);
    assert_ne!(bid_a, bid_b);
}
