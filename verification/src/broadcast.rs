//! Event-sourced broadcast fan-out.
//!
//! An operator's broadcast is recorded as an event in an append-only log
//! together with a summary row; a worker materialises one message row per
//! recipient and hands back the delivery commands to publish; delivery
//! outcomes flow back row by row; and the summary is a projection recomputed
//! from the rows. Message rows are unique per `(broadcast, recipient)`, and
//! the workflow only ever appends to the event log, with strictly increasing
//! versions.
use vstd::prelude::*;
use crate::counting::{
    count_where, keep_where, lemma_count_where_bounds, lemma_count_where_keep_le, lemma_count_where_pos, lemma_count_where_push,
    lemma_count_where_take_all, lemma_count_where_take_step, lemma_count_where_two,
    lemma_count_where_update, lemma_count_where_zero, lemma_keep_where_all,
    lemma_keep_where_take_all, lemma_keep_where_take_step, lemma_map_values_push,
};
use crate::ids::fresh_uuid;

verus! {

#[derive(Clone, Copy, Debug, PartialEq, Eq, Structural)]
pub enum BroadcastMessageType {
    Custom,
    SignUp,
}

#[derive(Clone, Copy, Debug, PartialEq, Eq, Structural)]
pub enum MessageStatus {
    Pending,
    Sent,
    Failed,
    Retrying,
}

#[derive(Clone, Copy, Debug, PartialEq, Eq, Structural)]
pub enum BroadcastStatus {
    Pending,
    InProgress,
    Completed,
    Failed,
}

/// One attachment of a media group.
#[derive(Debug)]
pub struct MediaItem {
    pub media_type: String,
    pub file_id: Option<String>,
    pub file_path: Option<String>,
    pub caption: Option<String>,
}

impl Clone for MediaItem {
    fn clone(&self) -> (r: MediaItem)
        ensures
            r == *self,
    {
        MediaItem {
            media_type: self.media_type.clone(),
            file_id: clone_opt_string(&self.file_id),
            file_path: clone_opt_string(&self.file_path),
            caption: clone_opt_string(&self.caption),
        }
    }
}

#[derive(Debug)]
pub struct MediaGroup {
    pub media: Vec<MediaItem>,
}

impl Clone for MediaGroup {
    fn clone(&self) -> (r: MediaGroup)
        ensures
            r.media@ == self.media@,
    {
        let mut media: Vec<MediaItem> = Vec::new();
        let mut i: usize = 0;
        while i < self.media.len()
            invariant
                i <= self.media@.len(),
                media@ == self.media@.take(i as int),
            decreases self.media@.len() - i,
        {
            media.push(self.media[i].clone());
            proof {
                assert(media@ =~= self.media@.take(i + 1));
            }
            i += 1;
        }
        proof {
            assert(media@ =~= self.media@);
        }
        MediaGroup { media }
    }
}

/// The attachments a media group holds, or nothing.
pub open spec fn media_view(m: Option<MediaGroup>) -> Option<Seq<MediaItem>> {
    match m {
        Some(g) => Some(g.media@),
        None => None,
    }
}

fn clone_opt_string(s: &Option<String>) -> (r: Option<String>)
    ensures
        r == *s,
{
    match s {
        Some(x) => Some(x.clone()),
        None => None,
    }
}

fn clone_opt_media(m: &Option<MediaGroup>) -> (r: Option<MediaGroup>)
    ensures
        media_view(r) == media_view(*m),
{
    match m {
        Some(x) => Some(x.clone()),
        None => None,
    }
}

fn clone_ids(v: &Vec<i64>) -> (r: Vec<i64>)
    ensures
        r@ == v@,
{
    let mut out: Vec<i64> = Vec::new();
    let mut i: usize = 0;
    while i < v.len()
        invariant
            i <= v@.len(),
            out@ == v@.take(i as int),
        decreases v@.len() - i,
    {
        out.push(v[i]);
        proof {
            assert(out@ =~= v@.take(i + 1));
        }
        i += 1;
    }
    proof {
        assert(out@ =~= v@);
    }
    out
}

/// The operator's command: one message for a curated set of recipients.
pub struct CreateBroadcastCommand {
    pub message: String,
    pub message_type: Option<BroadcastMessageType>,
    pub selected_external_users: Option<Vec<i64>>,
    pub media_group: Option<MediaGroup>,
}

/// One event of the append-only broadcast log.
#[derive(Debug)]
pub enum BroadcastEvent {
    BroadcastCreated {
        broadcast_id: String,
        message: String,
        target_users: Vec<i64>,
        message_type: Option<BroadcastMessageType>,
        media_group: Option<MediaGroup>,
        created_at: i64,
    },
    BroadcastStarted { broadcast_id: String, started_at: i64 },
    MessageSent { broadcast_id: String, telegram_id: i64, sent_at: i64 },
    MessageFailed { broadcast_id: String, telegram_id: i64, error: String, failed_at: i64 },
    MessageRetrying { broadcast_id: String, telegram_id: i64, retry_count: u32, retry_at: i64 },
    BroadcastCompleted { broadcast_id: String, total_sent: u32, total_failed: u32, completed_at: i64 },
}

/// The mathematical value of a log event: every payload field by view.
pub enum EventView {
    Created {
        broadcast_id: Seq<char>,
        message: Seq<char>,
        target_users: Seq<i64>,
        message_type: Option<BroadcastMessageType>,
        media: Option<Seq<MediaItem>>,
        created_at: i64,
    },
    Started { broadcast_id: Seq<char>, started_at: i64 },
    Sent { broadcast_id: Seq<char>, telegram_id: i64, sent_at: i64 },
    Failed { broadcast_id: Seq<char>, telegram_id: i64, error: Seq<char>, failed_at: i64 },
    Retrying { broadcast_id: Seq<char>, telegram_id: i64, retry_count: u32, retry_at: i64 },
    Completed { broadcast_id: Seq<char>, total_sent: u32, total_failed: u32, completed_at: i64 },
}

pub open spec fn event_view(e: BroadcastEvent) -> EventView {
    match e {
        BroadcastEvent::BroadcastCreated {
            broadcast_id,
            message,
            target_users,
            message_type,
            media_group,
            created_at,
        } => EventView::Created {
            broadcast_id: broadcast_id@,
            message: message@,
            target_users: target_users@,
            message_type,
            media: media_view(media_group),
            created_at,
        },
        BroadcastEvent::BroadcastStarted { broadcast_id, started_at } => EventView::Started {
            broadcast_id: broadcast_id@,
            started_at,
        },
        BroadcastEvent::MessageSent { broadcast_id, telegram_id, sent_at } => EventView::Sent {
            broadcast_id: broadcast_id@,
            telegram_id,
            sent_at,
        },
        BroadcastEvent::MessageFailed { broadcast_id, telegram_id, error, failed_at } => EventView::Failed {
            broadcast_id: broadcast_id@,
            telegram_id,
            error: error@,
            failed_at,
        },
        BroadcastEvent::MessageRetrying {
            broadcast_id,
            telegram_id,
            retry_count,
            retry_at,
        } => EventView::Retrying { broadcast_id: broadcast_id@, telegram_id, retry_count, retry_at },
        BroadcastEvent::BroadcastCompleted {
            broadcast_id,
            total_sent,
            total_failed,
            completed_at,
        } => EventView::Completed {
            broadcast_id: broadcast_id@,
            total_sent,
            total_failed,
            completed_at,
        },
    }
}

/// The broadcast a log event belongs to.
pub open spec fn event_broadcast_id(e: BroadcastEvent) -> Seq<char> {
    match e {
        BroadcastEvent::BroadcastCreated { broadcast_id, .. } => broadcast_id@,
        BroadcastEvent::BroadcastStarted { broadcast_id, .. } => broadcast_id@,
        BroadcastEvent::MessageSent { broadcast_id, .. } => broadcast_id@,
        BroadcastEvent::MessageFailed { broadcast_id, .. } => broadcast_id@,
        BroadcastEvent::MessageRetrying { broadcast_id, .. } => broadcast_id@,
        BroadcastEvent::BroadcastCompleted { broadcast_id, .. } => broadcast_id@,
    }
}

/// One persisted row of the event log.
#[derive(Debug)]
pub struct BroadcastEventRecord {
    pub event_id: String,
    pub broadcast_id: String,
    pub event: BroadcastEvent,
    pub created_at: i64,
    pub version: i64,
}

/// The read-model row reporting a broadcast's progress.
#[derive(Debug)]
pub struct BroadcastSummary {
    pub id: String,
    pub message: String,
    pub message_type: Option<BroadcastMessageType>,
    pub total_users: usize,
    pub sent_count: usize,
    pub failed_count: usize,
    pub pending_count: usize,
    pub status: BroadcastStatus,
    pub created_at: i64,
    pub started_at: Option<i64>,
    pub completed_at: Option<i64>,
}

impl Clone for BroadcastSummary {
    fn clone(&self) -> (r: BroadcastSummary)
        ensures
            r == *self,
    {
        BroadcastSummary {
            id: self.id.clone(),
            message: self.message.clone(),
            message_type: self.message_type,
            total_users: self.total_users,
            sent_count: self.sent_count,
            failed_count: self.failed_count,
            pending_count: self.pending_count,
            status: self.status,
            created_at: self.created_at,
            started_at: self.started_at,
            completed_at: self.completed_at,
        }
    }
}

/// One per-recipient message row.
#[derive(Debug)]
pub struct BroadcastMessageRecord {
    pub id: i64,
    pub broadcast_id: String,
    pub telegram_id: i64,
    pub status: MessageStatus,
    pub error: Option<String>,
    pub sent_at: Option<i64>,
    pub retry_count: i64,
    pub message_type: Option<BroadcastMessageType>,
    pub created_at: i64,
}

impl Clone for BroadcastMessageRecord {
    fn clone(&self) -> (r: BroadcastMessageRecord)
        ensures
            r == *self,
    {
        BroadcastMessageRecord {
            id: self.id,
            broadcast_id: self.broadcast_id.clone(),
            telegram_id: self.telegram_id,
            status: self.status,
            error: clone_opt_string(&self.error),
            sent_at: self.sent_at,
            retry_count: self.retry_count,
            message_type: self.message_type,
            created_at: self.created_at,
        }
    }
}

/// The idempotency ledger: events a worker has already handled.
#[derive(Debug)]
pub struct ProcessedEvent {
    pub event_id: String,
    pub worker_id: String,
}

/// A per-recipient delivery command, as published to the delivery queue.
#[derive(Debug)]
pub struct BroadcastMessage {
    pub telegram_id: i64,
    pub message: String,
    pub broadcast_id: String,
    pub message_type: Option<BroadcastMessageType>,
    pub media_group: Option<MediaGroup>,
    pub created_at: i64,
}

pub struct RetryMessageCommand {
    pub broadcast_id: String,
    pub telegram_id: i64,
}

pub struct CancelBroadcastCommand {
    pub broadcast_id: String,
}

pub struct GetBroadcastStatusQuery {
    pub broadcast_id: String,
}

pub struct GetBroadcastMessagesQuery {
    pub broadcast_id: String,
    pub status: Option<MessageStatus>,
    pub limit: Option<usize>,
    pub offset: Option<usize>,
}

#[derive(Debug)]
pub struct BroadcastCreatedResponse {
    pub broadcast_id: String,
    pub status: BroadcastStatus,
}

#[derive(Debug)]
pub struct BroadcastStatusResponse {
    pub broadcast: BroadcastSummary,
    pub messages: Vec<BroadcastMessageRecord>,
}

#[derive(Clone, Copy, Debug, PartialEq, Eq, Structural)]
pub enum CreateBroadcastError {
    /// The recipient set was absent or empty.
    NoRecipients,
    /// The freshly drawn broadcast id collided with an existing summary.
    DuplicateBroadcastId,
}

/// The event log, read model, message rows and idempotency ledger.
pub struct BroadcastStore {
    pub events: Vec<BroadcastEventRecord>,
    pub summaries: Vec<BroadcastSummary>,
    pub messages: Vec<BroadcastMessageRecord>,
    pub processed: Vec<ProcessedEvent>,
    pub next_message_id: i64,
}

/// Mathematical model of a [`BroadcastStore`].
pub struct BroadcastModel {
    pub events: Seq<BroadcastEventRecord>,
    pub summaries: Seq<BroadcastSummary>,
    pub messages: Seq<BroadcastMessageRecord>,
    pub processed: Seq<ProcessedEvent>,
    pub next_message_id: int,
}

impl View for BroadcastStore {
    type V = BroadcastModel;

    open spec fn view(&self) -> BroadcastModel {
        BroadcastModel {
            events: self.events@,
            summaries: self.summaries@,
            messages: self.messages@,
            processed: self.processed@,
            next_message_id: self.next_message_id as int,
        }
    }
}

/// Predicate: the message row belongs to broadcast `bid`.
pub open spec fn msg_of(bid: Seq<char>) -> spec_fn(BroadcastMessageRecord) -> bool {
    |m: BroadcastMessageRecord| m.broadcast_id@ == bid
}

/// Predicate: the message row of `(broadcast, recipient)`.
pub open spec fn msg_pair(bid: Seq<char>, t: i64) -> spec_fn(BroadcastMessageRecord) -> bool {
    |m: BroadcastMessageRecord| m.broadcast_id@ == bid && m.telegram_id == t
}

/// Predicate: a row of broadcast `bid` in status `st`.
pub open spec fn msg_status(bid: Seq<char>, st: MessageStatus) -> spec_fn(
    BroadcastMessageRecord,
) -> bool {
    |m: BroadcastMessageRecord| m.broadcast_id@ == bid && m.status == st
}

pub open spec fn with_msg_id(b: i64) -> spec_fn(BroadcastMessageRecord) -> bool {
    |m: BroadcastMessageRecord| m.id == b
}

/// Predicate: the summary row of broadcast `bid`.
pub open spec fn summary_with_id(bid: Seq<char>) -> spec_fn(BroadcastSummary) -> bool {
    |s: BroadcastSummary| s.id@ == bid
}

pub open spec fn has_summary(summaries: Seq<BroadcastSummary>, bid: Seq<char>) -> bool {
    exists|i: int| 0 <= i < summaries.len() && summaries[i].id@ == bid
}

pub open spec fn summary_index(summaries: Seq<BroadcastSummary>, bid: Seq<char>) -> int {
    choose|i: int| 0 <= i < summaries.len() && summaries[i].id@ == bid
}

pub open spec fn summary_of(summaries: Seq<BroadcastSummary>, bid: Seq<char>) -> BroadcastSummary {
    summaries[summary_index(summaries, bid)]
}

pub open spec fn has_msg_pair(msgs: Seq<BroadcastMessageRecord>, bid: Seq<char>, t: i64) -> bool {
    exists|i: int| 0 <= i < msgs.len() && msgs[i].broadcast_id@ == bid && msgs[i].telegram_id == t
}

pub open spec fn msg_pair_index(msgs: Seq<BroadcastMessageRecord>, bid: Seq<char>, t: i64) -> int {
    choose|i: int| 0 <= i < msgs.len() && msgs[i].broadcast_id@ == bid && msgs[i].telegram_id == t
}

/// Whether worker `wid` has already processed event `eid`.
pub open spec fn processed_contains(ps: Seq<ProcessedEvent>, eid: Seq<char>, wid: Seq<char>) -> bool {
    exists|i: int| 0 <= i < ps.len() && ps[i].event_id@ == eid && ps[i].worker_id@ == wid
}

pub open spec fn sent_count_of(msgs: Seq<BroadcastMessageRecord>, bid: Seq<char>) -> int {
    count_where(msgs, msg_status(bid, MessageStatus::Sent))
}

pub open spec fn failed_count_of(msgs: Seq<BroadcastMessageRecord>, bid: Seq<char>) -> int {
    count_where(msgs, msg_status(bid, MessageStatus::Failed))
}

pub open spec fn pending_count_of(msgs: Seq<BroadcastMessageRecord>, bid: Seq<char>) -> int {
    count_where(msgs, msg_status(bid, MessageStatus::Pending))
}

pub open spec fn retrying_count_of(msgs: Seq<BroadcastMessageRecord>, bid: Seq<char>) -> int {
    count_where(msgs, msg_status(bid, MessageStatus::Retrying))
}

impl BroadcastModel {
    /// Well-formedness: unique summary per broadcast, at most one message
    /// row per `(broadcast, recipient)`, unique message-row ids below the
    /// counter, and event versions equal to their position in the log.
    pub open spec fn wf(&self) -> bool {
        &&& forall|bid: Seq<char>| #[trigger] count_where(self.summaries, summary_with_id(bid)) <= 1
        &&& forall|bid: Seq<char>, t: i64| #[trigger] count_where(self.messages, msg_pair(bid, t))
            <= 1
        &&& forall|b: i64| #[trigger] count_where(self.messages, with_msg_id(b)) <= 1
        &&& forall|i: int|
            0 <= i < self.messages.len() ==> #[trigger] self.messages[i].id < self.next_message_id
        &&& forall|i: int| 0 <= i < self.events.len() ==> #[trigger] self.events[i].version == i + 1
    }
}

/// The row-uniqueness invariant, named: a well-formed store holds at most
/// one message row per `(broadcast, recipient)`.
pub proof fn lemma_message_pair_unique(m: BroadcastModel, bid: Seq<char>, t: i64)
    requires
        m.wf(),
    ensures
        count_where(m.messages, msg_pair(bid, t)) <= 1,
{
}

/// The event log is append-only within the broadcast workflow, and versions
/// grow strictly within each broadcast: whatever a well-formed log holds,
/// two events of one broadcast stand in version order.
pub proof fn lemma_event_versions_monotone(m: BroadcastModel)
    requires
        m.wf(),
    ensures
        forall|i: int, j: int|
            0 <= i < j < m.events.len() && #[trigger] m.events[i].broadcast_id@
                == #[trigger] m.events[j].broadcast_id@ ==> m.events[i].version
                < m.events[j].version,
{
}

impl BroadcastStore {
    pub fn new() -> (s: BroadcastStore)
        ensures
            s@.wf(),
            s@.events.len() == 0,
            s@.summaries.len() == 0,
            s@.messages.len() == 0,
            s@.processed.len() == 0,
            s@.next_message_id == 1,
    {
        BroadcastStore {
            events: Vec::new(),
            summaries: Vec::new(),
            messages: Vec::new(),
            processed: Vec::new(),
            next_message_id: 1,
        }
    }

    fn extract_broadcast_id(event: &BroadcastEvent) -> (r: String)
        ensures
            r@ == event_broadcast_id(*event),
    {
        match event {
            BroadcastEvent::BroadcastCreated { broadcast_id, .. } => broadcast_id.clone(),
            BroadcastEvent::BroadcastStarted { broadcast_id, .. } => broadcast_id.clone(),
            BroadcastEvent::MessageSent { broadcast_id, .. } => broadcast_id.clone(),
            BroadcastEvent::MessageFailed { broadcast_id, .. } => broadcast_id.clone(),
            BroadcastEvent::MessageRetrying { broadcast_id, .. } => broadcast_id.clone(),
            BroadcastEvent::BroadcastCompleted { broadcast_id, .. } => broadcast_id.clone(),
        }
    }

    /// Appends one event to the log with the next version; returns the
    /// fresh event id. Nothing already in the log moves or changes.
    pub fn save_broadcast_event(&mut self, event: BroadcastEvent, now: i64) -> (eid: String)
        requires
            old(self)@.wf(),
            old(self)@.events.len() + 1 <= i64::MAX,
        ensures
            final(self)@.wf(),
            final(self)@.summaries == old(self)@.summaries,
            final(self)@.messages == old(self)@.messages,
            final(self)@.processed == old(self)@.processed,
            final(self)@.next_message_id == old(self)@.next_message_id,
            final(self)@.events == old(self)@.events.push(final(self)@.events.last()),
            final(self)@.events.last().event == event,
            final(self)@.events.last().event_id == eid,
            final(self)@.events.last().broadcast_id@ == event_broadcast_id(event),
            final(self)@.events.last().created_at == now,
            final(self)@.events.last().version == old(self)@.events.len() + 1,
            forall|i: int|
                0 <= i < old(self)@.events.len() ==> final(self)@.events.last().version
                    > #[trigger] old(self)@.events[i].version,
            eid@.len() == 36,
    {
        let eid = fresh_uuid();
        let bid = Self::extract_broadcast_id(&event);
        let version = self.events.len() as i64 + 1;
        let record = BroadcastEventRecord {
            event_id: eid.clone(),
            broadcast_id: bid,
            event,
            created_at: now,
            version,
        };
        self.events.push(record);
        proof {
            assert(self@.events.last().version as int == old(self)@.events.len() + 1);
            assert forall|i: int|
                0 <= i < self@.events.len() implies #[trigger] self@.events[i].version == i
                + 1 by {
                if i < self@.events.len() - 1 {
                    assert(self@.events[i] == old(self)@.events[i]);
                } else {
                    assert(self@.events[i] == self@.events.last());
                }
            }
            assert(self@.summaries == old(self)@.summaries);
            assert(self@.messages == old(self)@.messages);
            assert forall|bid: Seq<char>|
                #[trigger] count_where(self@.summaries, summary_with_id(bid)) <= 1 by {
                assert(count_where(old(self)@.summaries, summary_with_id(bid)) <= 1);
            }
            assert forall|bid: Seq<char>, t: i64|
                #[trigger] count_where(self@.messages, msg_pair(bid, t)) <= 1 by {
                assert(count_where(old(self)@.messages, msg_pair(bid, t)) <= 1);
            }
            assert forall|b: i64| #[trigger] count_where(self@.messages, with_msg_id(b)) <= 1 by {
                assert(count_where(old(self)@.messages, with_msg_id(b)) <= 1);
            }
        }
        eid
    }

    /// Whether worker `worker_id` has already handled event `event_id`.
    pub fn is_event_processed(&self, event_id: &String, worker_id: &String) -> (b: bool)
        ensures
            b == processed_contains(self@.processed, event_id@, worker_id@),
    {
        let mut i: usize = 0;
        while i < self.processed.len()
            invariant
                i <= self@.processed.len(),
                forall|j: int|
                    0 <= j < i ==> !(#[trigger] self@.processed[j].event_id@ == event_id@
                        && self@.processed[j].worker_id@ == worker_id@),
            decreases self@.processed.len() - i,
        {
            if self.processed[i].event_id == *event_id && self.processed[i].worker_id
                == *worker_id {
                return true;
            }
            i += 1;
        }
        false
    }

    fn find_message(&self, broadcast_id: &String, telegram_id: i64) -> (r: Option<usize>)
        ensures
            match r {
                Some(i) => i < self@.messages.len() && self@.messages[i as int].broadcast_id@
                    == broadcast_id@ && self@.messages[i as int].telegram_id == telegram_id,
                None => !has_msg_pair(self@.messages, broadcast_id@, telegram_id),
            },
    {
        let mut i: usize = 0;
        while i < self.messages.len()
            invariant
                i <= self@.messages.len(),
                forall|j: int|
                    0 <= j < i ==> !(#[trigger] self@.messages[j].broadcast_id@ == broadcast_id@
                        && self@.messages[j].telegram_id == telegram_id),
            decreases self@.messages.len() - i,
        {
            if self.messages[i].broadcast_id == *broadcast_id && self.messages[i].telegram_id
                == telegram_id {
                return Some(i);
            }
            i += 1;
        }
        None
    }

    fn find_summary(&self, broadcast_id: &String) -> (r: Option<usize>)
        ensures
            match r {
                Some(i) => i < self@.summaries.len() && self@.summaries[i as int].id@
                    == broadcast_id@,
                None => !has_summary(self@.summaries, broadcast_id@),
            },
    {
        let mut i: usize = 0;
        while i < self.summaries.len()
            invariant
                i <= self@.summaries.len(),
                forall|j: int| 0 <= j < i ==> !(#[trigger] self@.summaries[j].id@ == broadcast_id@),
            decreases self@.summaries.len() - i,
        {
            if self.summaries[i].id == *broadcast_id {
                return Some(i);
            }
            i += 1;
        }
        None
    }

    /// Accepts `CreateBroadcast`: validates the recipient set, appends the
    /// `BroadcastCreated` event and seeds the summary with every recipient
    /// pending. The per-recipient rows are left to the event worker, so that
    /// replaying the event recreates them. Returns the response and the
    /// event for the caller to publish after commit.
    pub fn handle_create_broadcast(&mut self, command: CreateBroadcastCommand, now: i64) -> (r:
        Result<(BroadcastCreatedResponse, BroadcastEvent), CreateBroadcastError>)
        requires
            old(self)@.wf(),
            old(self)@.events.len() + 1 <= i64::MAX,
        ensures
            final(self)@.wf(),
            final(self)@.messages == old(self)@.messages,
            final(self)@.processed == old(self)@.processed,
            final(self)@.next_message_id == old(self)@.next_message_id,
            r == Err::<(BroadcastCreatedResponse, BroadcastEvent), CreateBroadcastError>(
                CreateBroadcastError::NoRecipients,
            ) <==> (command.selected_external_users is None
                || command.selected_external_users.unwrap()@.len() == 0),
            r is Err ==> final(self)@ == old(self)@,
            r == Err::<(BroadcastCreatedResponse, BroadcastEvent), CreateBroadcastError>(
                CreateBroadcastError::DuplicateBroadcastId,
            ) ==> exists|k: int|
                0 <= k < old(self)@.summaries.len() && (#[trigger] old(
                    self,
                )@.summaries[k].id)@.len() == 36,
            r is Ok ==> final(self)@.summaries == old(self)@.summaries.push(
                BroadcastSummary {
                    id: r.unwrap().0.broadcast_id,
                    message: command.message,
                    message_type: command.message_type,
                    total_users: command.selected_external_users.unwrap()@.len() as usize,
                    sent_count: 0,
                    failed_count: 0,
                    pending_count: command.selected_external_users.unwrap()@.len() as usize,
                    status: BroadcastStatus::Pending,
                    created_at: now,
                    started_at: None,
                    completed_at: None,
                },
            ),
            r is Ok ==> r.unwrap().0.status == BroadcastStatus::Pending && r.unwrap(
            ).0.broadcast_id@.len() == 36 && !has_summary(
                old(self)@.summaries,
                r.unwrap().0.broadcast_id@,
            ),
            r is Ok ==> event_view(r.unwrap().1) == (EventView::Created {
                broadcast_id: r.unwrap().0.broadcast_id@,
                message: command.message@,
                target_users: command.selected_external_users.unwrap()@,
                message_type: command.message_type,
                media: media_view(command.media_group),
                created_at: now,
            }),
            r is Ok ==> final(self)@.events == old(self)@.events.push(
                final(self)@.events.last(),
            ) && event_view(final(self)@.events.last().event) == event_view(r.unwrap().1),
    {
        let ghost pre = self@;
        let CreateBroadcastCommand { message, message_type, selected_external_users, media_group } =
            command;
        let recipients = match selected_external_users {
            None => {
                return Err(CreateBroadcastError::NoRecipients);
            },
            Some(v) => v,
        };
        if recipients.len() == 0 {
            return Err(CreateBroadcastError::NoRecipients);
        }
        let broadcast_id = fresh_uuid();
        match self.find_summary(&broadcast_id) {
            Some(i) => {
                proof {
                    assert(self@.summaries[i as int].id@.len() == 36);
                }
                return Err(CreateBroadcastError::DuplicateBroadcastId);
            },
            None => {},
        }
        let total = recipients.len();
        let event = BroadcastEvent::BroadcastCreated {
            broadcast_id: broadcast_id.clone(),
            message: message.clone(),
            target_users: recipients,
            message_type,
            media_group,
        created_at: now,
        };
        let returned_event = clone_created_event(&event);
        let _ = self.save_broadcast_event(event, now);
        let summary = BroadcastSummary {
            id: broadcast_id.clone(),
            message,
            message_type,
            total_users: total,
            sent_count: 0,
            failed_count: 0,
            pending_count: total,
            status: BroadcastStatus::Pending,
            created_at: now,
            started_at: None,
            completed_at: None,
        };
        self.summaries.push(summary);
        proof {
            assert forall|bid: Seq<char>|
                #[trigger] count_where(self@.summaries, summary_with_id(bid)) <= 1 by {
                lemma_count_where_push(
                    pre.summaries,
                    summary_with_id(bid),
                    self@.summaries.last(),
                );
                lemma_count_where_bounds(pre.summaries, summary_with_id(bid));
                if bid == broadcast_id@ {
                    assert forall|k: int| 0 <= k < pre.summaries.len() implies !(summary_with_id(
                        bid,
                    )(#[trigger] pre.summaries[k])) by {
                        assert(!(pre.summaries[k].id@ == broadcast_id@));
                    }
                    lemma_count_where_zero(pre.summaries, summary_with_id(bid));
                }
            }
        }
        Ok((BroadcastCreatedResponse { broadcast_id, status: BroadcastStatus::Pending },
            returned_event))
    }
}

/// The recipients a `BroadcastCreated` event targets; empty for any other
/// event.
pub open spec fn created_recipients(e: BroadcastEvent) -> Seq<i64> {
    match e {
        BroadcastEvent::BroadcastCreated { target_users, .. } => target_users@,
        _ => Seq::empty(),
    }
}

/// The fresh pending row the event worker materialises for one recipient.
pub open spec fn pending_row(
    id: int,
    bid: String,
    t: i64,
    mtype: Option<BroadcastMessageType>,
    now: i64,
) -> BroadcastMessageRecord {
    BroadcastMessageRecord {
        id: id as i64,
        broadcast_id: bid,
        telegram_id: t,
        status: MessageStatus::Pending,
        error: None,
        sent_at: None,
        retry_count: 0,
        message_type: mtype,
        created_at: now,
    }
}

/// The worker's row materialisation: one pending row per recipient that has
/// none yet; rows that already exist are left untouched, so replay is a
/// no-op on the table.
pub open spec fn spec_materialize_rows(
    m: BroadcastModel,
    bid: String,
    mtype: Option<BroadcastMessageType>,
    recipients: Seq<i64>,
    now: i64,
) -> BroadcastModel
    decreases recipients.len(),
{
    if recipients.len() == 0 {
        m
    } else {
        let m1 = spec_materialize_rows(m, bid, mtype, recipients.drop_last(), now);
        let t = recipients.last();
        if has_msg_pair(m1.messages, bid@, t) {
            m1
        } else {
            BroadcastModel {
                messages: m1.messages.push(pending_row(m1.next_message_id, bid, t, mtype, now)),
                next_message_id: m1.next_message_id + 1,
                ..m1
            }
        }
    }
}

/// The one-way street of a message row's life: a pending row resolves or
/// enters a retry, a failed row may be retried, a retry resolves, and a
/// sent row never moves again.
pub open spec fn legal_status_transition(from: MessageStatus, to: MessageStatus) -> bool {
    match from {
        MessageStatus::Pending => to == MessageStatus::Sent || to == MessageStatus::Failed || to
            == MessageStatus::Retrying,
        MessageStatus::Failed => to == MessageStatus::Retrying,
        MessageStatus::Retrying => to == MessageStatus::Sent || to == MessageStatus::Failed,
        MessageStatus::Sent => false,
    }
}

/// A message row after a status transition: the status and error are
/// replaced, and `sent_at` is stamped exactly on `Sent`.
pub open spec fn status_updated_row(
    r: BroadcastMessageRecord,
    st: MessageStatus,
    error: Option<String>,
    now: i64,
) -> BroadcastMessageRecord {
    BroadcastMessageRecord {
        status: st,
        error,
        sent_at: if st == MessageStatus::Sent {
            Some(now)
        } else {
            None
        },
        ..r
    }
}

/// The row-status transition of the delivery path; a missing row changes
/// nothing.
pub open spec fn spec_set_status(
    m: BroadcastModel,
    bid: Seq<char>,
    t: i64,
    st: MessageStatus,
    error: Option<String>,
    now: i64,
) -> BroadcastModel {
    if has_msg_pair(m.messages, bid, t) {
        BroadcastModel {
            messages: m.messages.update(
                msg_pair_index(m.messages, bid, t),
                status_updated_row(m.messages[msg_pair_index(m.messages, bid, t)], st, error, now),
            ),
            ..m
        }
    } else {
        m
    }
}

/// What the projector writes: counters recomputed from the rows, the status
/// rule applied without regressing from `Completed`, and the two timestamps
/// stamped at most once.
pub open spec fn projected_summary(
    s: BroadcastSummary,
    sent: int,
    failed: int,
    pending: int,
    now: i64,
) -> BroadcastSummary {
    let target = if pending == 0 && s.total_users > 0 {
        BroadcastStatus::Completed
    } else if s.total_users > 0 {
        BroadcastStatus::InProgress
    } else {
        BroadcastStatus::Pending
    };
    let st = if s.status == BroadcastStatus::Completed {
        BroadcastStatus::Completed
    } else {
        target
    };
    BroadcastSummary {
        sent_count: sent as usize,
        failed_count: failed as usize,
        pending_count: pending as usize,
        status: st,
        started_at: if s.started_at is None && !(st == BroadcastStatus::Pending) {
            Some(now)
        } else {
            s.started_at
        },
        completed_at: if st == BroadcastStatus::Completed && s.completed_at is None {
            Some(now)
        } else {
            s.completed_at
        },
        ..s
    }
}

/// The Summary Projector's transition: recompute one broadcast's summary
/// from its message rows; a missing summary changes nothing.
pub open spec fn spec_project(m: BroadcastModel, bid: Seq<char>, now: i64) -> BroadcastModel {
    if has_summary(m.summaries, bid) {
        BroadcastModel {
            summaries: m.summaries.update(
                summary_index(m.summaries, bid),
                projected_summary(
                    summary_of(m.summaries, bid),
                    sent_count_of(m.messages, bid),
                    failed_count_of(m.messages, bid),
                    pending_count_of(m.messages, bid),
                    now,
                ),
            ),
            ..m
        }
    } else {
        m
    }
}

/// The delivery worker's transition for one resolved send: the row becomes
/// `Sent` or `Failed` and the summary is reprojected.
pub open spec fn spec_record_outcome(
    m: BroadcastModel,
    bid: Seq<char>,
    t: i64,
    error: Option<String>,
    now: i64,
) -> BroadcastModel {
    spec_project(
        spec_set_status(
            m,
            bid,
            t,
            if error is None {
                MessageStatus::Sent
            } else {
                MessageStatus::Failed
            },
            error,
            now,
        ),
        bid,
        now,
    )
}

/// The four statuses partition a broadcast's message rows.
pub proof fn lemma_status_partition(msgs: Seq<BroadcastMessageRecord>, bid: Seq<char>)
    ensures
        count_where(msgs, msg_of(bid)) == sent_count_of(msgs, bid) + failed_count_of(msgs, bid)
            + pending_count_of(msgs, bid) + retrying_count_of(msgs, bid),
    decreases msgs.len(),
{
    if msgs.len() > 0 {
        lemma_status_partition(msgs.drop_last(), bid);
    }
}

/// Summary convergence: once every row of the broadcast is terminal and the
/// summary accounts for every recipient, one projector run leaves
/// `sent + failed = total`, no pending work, and the `Completed` status.
pub proof fn lemma_summary_convergence(m: BroadcastModel, bid: Seq<char>, now: i64)
    requires
        has_summary(m.summaries, bid),
        forall|i: int|
            0 <= i < m.messages.len() && #[trigger] m.messages[i].broadcast_id@ == bid ==> (
            m.messages[i].status == MessageStatus::Sent || m.messages[i].status
                == MessageStatus::Failed),
        count_where(m.messages, msg_of(bid)) == summary_of(m.summaries, bid).total_users,
        summary_of(m.summaries, bid).total_users > 0,
        count_where(m.summaries, summary_with_id(bid)) <= 1,
    ensures
        has_summary(spec_project(m, bid, now).summaries, bid),
        summary_of(spec_project(m, bid, now).summaries, bid).sent_count + summary_of(
            spec_project(m, bid, now).summaries,
            bid,
        ).failed_count == summary_of(spec_project(m, bid, now).summaries, bid).total_users,
        summary_of(spec_project(m, bid, now).summaries, bid).pending_count == 0,
        summary_of(spec_project(m, bid, now).summaries, bid).status == BroadcastStatus::Completed,
        summary_of(spec_project(m, bid, now).summaries, bid).sent_count as int == sent_count_of(
            m.messages,
            bid,
        ),
        summary_of(spec_project(m, bid, now).summaries, bid).failed_count as int
            == failed_count_of(m.messages, bid),
        summary_of(spec_project(m, bid, now).summaries, bid).completed_at is Some,
{
    lemma_status_partition(m.messages, bid);
    assert forall|i: int| 0 <= i < m.messages.len() implies !(msg_status(
        bid,
        MessageStatus::Pending,
    )(#[trigger] m.messages[i])) by {
        if m.messages[i].broadcast_id@ == bid {
            assert(m.messages[i].status == MessageStatus::Sent || m.messages[i].status
                == MessageStatus::Failed);
        }
    }
    lemma_count_where_zero(m.messages, msg_status(bid, MessageStatus::Pending));
    assert forall|i: int| 0 <= i < m.messages.len() implies !(msg_status(
        bid,
        MessageStatus::Retrying,
    )(#[trigger] m.messages[i])) by {
        if m.messages[i].broadcast_id@ == bid {
            assert(m.messages[i].status == MessageStatus::Sent || m.messages[i].status
                == MessageStatus::Failed);
        }
    }
    lemma_count_where_zero(m.messages, msg_status(bid, MessageStatus::Retrying));
    lemma_count_where_bounds(m.messages, msg_status(bid, MessageStatus::Sent));
    lemma_count_where_bounds(m.messages, msg_status(bid, MessageStatus::Failed));
    let k = summary_index(m.summaries, bid);
    let post = spec_project(m, bid, now);
    assert(post.summaries[k].id@ == bid);
    assert(has_summary(post.summaries, bid));
    let k2 = summary_index(post.summaries, bid);
    if k2 != k {
        assert(post.summaries[k2].id@ == bid);
        assert(m.summaries[k2].id@ == bid);
        if k < k2 {
            lemma_count_where_two(m.summaries, summary_with_id(bid), k, k2);
        } else {
            lemma_count_where_two(m.summaries, summary_with_id(bid), k2, k);
        }
        lemma_count_where_pos(m.summaries, summary_with_id(bid), k);
    }
}

/// An exact copy of a `BroadcastCreated` event, for handing to the caller
/// while the original goes into the log.
fn clone_created_event(e: &BroadcastEvent) -> (r: BroadcastEvent)
    requires
        e is BroadcastCreated,
    ensures
        event_view(r) == event_view(*e),
{
    match e {
        BroadcastEvent::BroadcastCreated {
            broadcast_id,
            message,
            target_users,
            message_type,
            media_group,
            created_at,
        } => BroadcastEvent::BroadcastCreated {
            broadcast_id: broadcast_id.clone(),
            message: message.clone(),
            target_users: clone_ids(target_users),
            message_type: *message_type,
            media_group: clone_opt_media(media_group),
            created_at: *created_at,
        },
        _ => unreached(),
    }
}

/// With unique summary ids, the chosen summary index agrees with any
/// witness index.
proof fn lemma_summary_agrees(summaries: Seq<BroadcastSummary>, bid: Seq<char>, i: int)
    requires
        count_where(summaries, summary_with_id(bid)) <= 1,
        0 <= i < summaries.len(),
        summaries[i].id@ == bid,
    ensures
        has_summary(summaries, bid),
        summary_index(summaries, bid) == i,
{
    assert(has_summary(summaries, bid));
    let j = summary_index(summaries, bid);
    if i < j {
        lemma_count_where_two(summaries, summary_with_id(bid), i, j);
    } else if j < i {
        lemma_count_where_two(summaries, summary_with_id(bid), j, i);
    }
}

/// With unique `(broadcast, recipient)` rows, the chosen row index agrees
/// with any witness index.
proof fn lemma_msg_pair_agrees(msgs: Seq<BroadcastMessageRecord>, bid: Seq<char>, t: i64, i: int)
    requires
        count_where(msgs, msg_pair(bid, t)) <= 1,
        0 <= i < msgs.len(),
        msgs[i].broadcast_id@ == bid,
        msgs[i].telegram_id == t,
    ensures
        has_msg_pair(msgs, bid, t),
        msg_pair_index(msgs, bid, t) == i,
{
    assert(has_msg_pair(msgs, bid, t));
    let j = msg_pair_index(msgs, bid, t);
    if i < j {
        lemma_count_where_two(msgs, msg_pair(bid, t), i, j);
    } else if j < i {
        lemma_count_where_two(msgs, msg_pair(bid, t), j, i);
    }
}

/// Appending a fresh row for a pair that has none preserves
/// well-formedness.
proof fn lemma_msgs_push_wf(pre: BroadcastModel, post: BroadcastModel, fresh: BroadcastMessageRecord)
    requires
        pre.wf(),
        !has_msg_pair(pre.messages, fresh.broadcast_id@, fresh.telegram_id),
        fresh.id as int == pre.next_message_id,
        i64::MIN <= pre.next_message_id < i64::MAX,
        post.messages == pre.messages.push(fresh),
        post.summaries == pre.summaries,
        post.events == pre.events,
        post.next_message_id == pre.next_message_id + 1,
    ensures
        post.wf(),
{
    assert forall|bid: Seq<char>, t: i64| #[trigger] count_where(post.messages, msg_pair(bid, t))
        <= 1 by {
        lemma_count_where_push(pre.messages, msg_pair(bid, t), fresh);
        lemma_count_where_bounds(pre.messages, msg_pair(bid, t));
        if bid == fresh.broadcast_id@ && t == fresh.telegram_id {
            assert forall|i: int| 0 <= i < pre.messages.len() implies !(msg_pair(bid, t)(
                #[trigger] pre.messages[i],
            )) by {
                assert(!(pre.messages[i].broadcast_id@ == bid && pre.messages[i].telegram_id == t));
            }
            lemma_count_where_zero(pre.messages, msg_pair(bid, t));
        }
    }
    assert forall|b: i64| #[trigger] count_where(post.messages, with_msg_id(b)) <= 1 by {
        lemma_count_where_push(pre.messages, with_msg_id(b), fresh);
        lemma_count_where_bounds(pre.messages, with_msg_id(b));
        if b == fresh.id {
            assert forall|i: int| 0 <= i < pre.messages.len() implies !(with_msg_id(b)(
                #[trigger] pre.messages[i],
            )) by {
                assert(pre.messages[i].id < pre.next_message_id);
            }
            lemma_count_where_zero(pre.messages, with_msg_id(b));
        }
    }
}

/// Rewriting a row in place without touching its identity or its pair
/// preserves well-formedness.
proof fn lemma_msgs_update_wf(
    pre: BroadcastModel,
    post: BroadcastModel,
    i: int,
    updated: BroadcastMessageRecord,
)
    requires
        pre.wf(),
        0 <= i < pre.messages.len(),
        updated.broadcast_id@ == pre.messages[i].broadcast_id@,
        updated.telegram_id == pre.messages[i].telegram_id,
        updated.id == pre.messages[i].id,
        post.messages == pre.messages.update(i, updated),
        post.summaries == pre.summaries,
        post.events == pre.events,
        post.next_message_id == pre.next_message_id,
    ensures
        post.wf(),
{
    assert forall|bid: Seq<char>, t: i64| #[trigger] count_where(post.messages, msg_pair(bid, t))
        <= 1 by {
        lemma_count_where_update(pre.messages, msg_pair(bid, t), i, updated);
    }
    assert forall|b: i64| #[trigger] count_where(post.messages, with_msg_id(b)) <= 1 by {
        lemma_count_where_update(pre.messages, with_msg_id(b), i, updated);
    }
    assert forall|k: int|
        0 <= k < post.messages.len() implies #[trigger] post.messages[k].id
        < post.next_message_id by {
        if k != i {
            assert(post.messages[k] == pre.messages[k]);
        }
    }
}

/// Rewriting a summary in place with the same id preserves well-formedness.
proof fn lemma_summaries_update_wf(
    pre: BroadcastModel,
    post: BroadcastModel,
    i: int,
    updated: BroadcastSummary,
)
    requires
        pre.wf(),
        0 <= i < pre.summaries.len(),
        updated.id@ == pre.summaries[i].id@,
        post.summaries == pre.summaries.update(i, updated),
        post.messages == pre.messages,
        post.events == pre.events,
        post.next_message_id == pre.next_message_id,
    ensures
        post.wf(),
{
    assert forall|bid: Seq<char>| #[trigger] count_where(post.summaries, summary_with_id(bid))
        <= 1 by {
        lemma_count_where_update(pre.summaries, summary_with_id(bid), i, updated);
    }
}

/// Materialising rows for a fresh broadcast with pairwise-distinct
/// recipients leaves exactly one row per recipient, all pending.
pub proof fn lemma_materialize_count(
    m: BroadcastModel,
    bid: String,
    mtype: Option<BroadcastMessageType>,
    recipients: Seq<i64>,
    now: i64,
)
    requires
        count_where(m.messages, msg_of(bid@)) == 0,
        forall|i: int, j: int|
            0 <= i < j < recipients.len() ==> #[trigger] recipients[i] != #[trigger] recipients[j],
    ensures
        count_where(
            spec_materialize_rows(m, bid, mtype, recipients, now).messages,
            msg_of(bid@),
        ) == recipients.len(),
        count_where(
            spec_materialize_rows(m, bid, mtype, recipients, now).messages,
            msg_status(bid@, MessageStatus::Pending),
        ) == recipients.len(),
        forall|t: i64|
            #[trigger] has_msg_pair(
                spec_materialize_rows(m, bid, mtype, recipients, now).messages,
                bid@,
                t,
            ) <==> recipients.contains(t),
    decreases recipients.len(),
{
    if recipients.len() == 0 {
        assert forall|i: int| 0 <= i < m.messages.len() implies !(msg_status(
            bid@,
            MessageStatus::Pending,
        )(#[trigger] m.messages[i])) by {
            if m.messages[i].broadcast_id@ == bid@ {
                lemma_count_where_pos(m.messages, msg_of(bid@), i);
            }
        }
        lemma_count_where_zero(m.messages, msg_status(bid@, MessageStatus::Pending));
        assert forall|t: i64|
            #[trigger] has_msg_pair(m.messages, bid@, t) <==> recipients.contains(t) by {
            if has_msg_pair(m.messages, bid@, t) {
                let k = choose|k: int|
                    0 <= k < m.messages.len() && m.messages[k].broadcast_id@ == bid@
                        && m.messages[k].telegram_id == t;
                lemma_count_where_pos(m.messages, msg_of(bid@), k);
            }
        }
    } else {
        let prefix = recipients.drop_last();
        let t = recipients.last();
        lemma_materialize_count(m, bid, mtype, prefix, now);
        let m1 = spec_materialize_rows(m, bid, mtype, prefix, now);
        let post = spec_materialize_rows(m, bid, mtype, recipients, now);
        assert(forall|i: int| 0 <= i < prefix.len() ==> prefix[i] == recipients[i]);
        if has_msg_pair(m1.messages, bid@, t) {
            assert(prefix.contains(t));
            let k = choose|k: int| 0 <= k < prefix.len() && prefix[k] == t;
            assert(recipients[k] == t);
            assert(recipients[recipients.len() - 1] == t);
            assert(false);
        } else {
            let fresh = pending_row(m1.next_message_id, bid, t, mtype, now);
            lemma_count_where_push(m1.messages, msg_of(bid@), fresh);
            lemma_count_where_push(m1.messages, msg_status(bid@, MessageStatus::Pending), fresh);
            assert forall|t2: i64|
                #[trigger] has_msg_pair(post.messages, bid@, t2) <==> recipients.contains(
                t2,
            ) by {
                if has_msg_pair(post.messages, bid@, t2) {
                    let k = choose|k: int|
                        0 <= k < post.messages.len() && post.messages[k].broadcast_id@ == bid@
                            && post.messages[k].telegram_id == t2;
                    if k < m1.messages.len() {
                        assert(post.messages[k] == m1.messages[k]);
                        assert(has_msg_pair(m1.messages, bid@, t2));
                        assert(prefix.contains(t2));
                        let k2 = choose|k2: int| 0 <= k2 < prefix.len() && prefix[k2] == t2;
                        assert(recipients[k2] == t2);
                    } else {
                        assert(post.messages[k] == fresh);
                        assert(recipients[recipients.len() - 1] == t2);
                    }
                }
                if recipients.contains(t2) {
                    let k = choose|k: int| 0 <= k < recipients.len() && recipients[k] == t2;
                    if k < recipients.len() - 1 {
                        assert(prefix[k] == t2);
                        assert(has_msg_pair(m1.messages, bid@, t2));
                        let k2 = choose|k2: int|
                            0 <= k2 < m1.messages.len() && m1.messages[k2].broadcast_id@ == bid@
                                && m1.messages[k2].telegram_id == t2;
                        assert(post.messages[k2].broadcast_id@ == bid@
                            && post.messages[k2].telegram_id == t2);
                        assert(has_msg_pair(post.messages, bid@, t2));
                    } else {
                        assert(t2 == t);
                        assert(post.messages[post.messages.len() - 1] == fresh);
                        assert(post.messages[post.messages.len() - 1].broadcast_id@ == bid@);
                        assert(post.messages[post.messages.len() - 1].telegram_id == t2);
                        assert(has_msg_pair(post.messages, bid@, t2));
                    }
                }
            }
        }
    }
}

impl BroadcastStore {
    fn count_msgs_status(&self, broadcast_id: &String, st: MessageStatus) -> (n: usize)
        ensures
            n as int == count_where(self@.messages, msg_status(broadcast_id@, st)),
    {
        let mut n: usize = 0;
        let mut i: usize = 0;
        while i < self.messages.len()
            invariant
                i <= self@.messages.len(),
                n <= i,
                n as int == count_where(
                    self@.messages.take(i as int),
                    msg_status(broadcast_id@, st),
                ),
            decreases self@.messages.len() - i,
        {
            proof {
                lemma_count_where_take_step(self@.messages, msg_status(broadcast_id@, st), i as int);
            }
            if self.messages[i].broadcast_id == *broadcast_id && self.messages[i].status == st {
                n += 1;
            }
            i += 1;
        }
        proof {
            lemma_count_where_take_all(self@.messages, msg_status(broadcast_id@, st));
        }
        n
    }

    /// Inserts the pending row for one recipient unless the pair already
    /// has one; says whether a row was inserted.
    pub fn create_broadcast_message(
        &mut self,
        broadcast_id: &String,
        telegram_id: i64,
        message_type: Option<BroadcastMessageType>,
        now: i64,
    ) -> (inserted: bool)
        requires
            old(self)@.wf(),
            old(self)@.next_message_id < i64::MAX,
        ensures
            final(self)@.wf(),
            final(self)@.events == old(self)@.events,
            final(self)@.summaries == old(self)@.summaries,
            final(self)@.processed == old(self)@.processed,
            inserted <==> !has_msg_pair(old(self)@.messages, broadcast_id@, telegram_id),
            !inserted ==> final(self)@ == old(self)@,
            inserted ==> final(self)@.messages == old(self)@.messages.push(
                pending_row(old(self)@.next_message_id, *broadcast_id, telegram_id, message_type, now),
            ) && final(self)@.next_message_id == old(self)@.next_message_id + 1,
    {
        let ghost pre = self@;
        if let Some(_) = self.find_message(broadcast_id, telegram_id) {
            return false;
        }
        let fresh = BroadcastMessageRecord {
            id: self.next_message_id,
            broadcast_id: broadcast_id.clone(),
            telegram_id,
            status: MessageStatus::Pending,
            error: None,
            sent_at: None,
            retry_count: 0,
            message_type,
            created_at: now,
        };
        self.messages.push(fresh);
        self.next_message_id += 1;
        proof {
            lemma_msgs_push_wf(pre, self@, self@.messages.last());
        }
        true
    }

    /// The Broadcast Event Worker's step for one delivered event: skip
    /// anything already processed by this worker (replay is a no-op), else
    /// materialise one pending row per recipient that has none, record the
    /// event as processed, and hand back one delivery command per recipient
    /// for the caller to publish.
    pub fn handle_broadcast_event(
        &mut self,
        event: &BroadcastEvent,
        event_id: &String,
        worker_id: &String,
        now: i64,
    ) -> (cmds: Vec<BroadcastMessage>)
        requires
            old(self)@.wf(),
            old(self)@.next_message_id + created_recipients(*event).len() <= i64::MAX,
        ensures
            final(self)@.wf(),
            final(self)@.events == old(self)@.events,
            final(self)@.summaries == old(self)@.summaries,
            !(*event is BroadcastCreated) ==> final(self)@ == old(self)@ && cmds@.len() == 0,
            *event is BroadcastCreated && processed_contains(
                old(self)@.processed,
                event_id@,
                worker_id@,
            ) ==> final(self)@ == old(self)@ && cmds@.len() == 0,
            *event is BroadcastCreated && !processed_contains(
                old(self)@.processed,
                event_id@,
                worker_id@,
            ) ==> {
                &&& final(self)@.processed == old(self)@.processed.push(
                    final(self)@.processed.last(),
                )
                &&& final(self)@.processed.last().event_id@ == event_id@
                &&& final(self)@.processed.last().worker_id@ == worker_id@
                &&& cmds@.len() == created_recipients(*event).len()
            },
            *event is BroadcastCreated && !processed_contains(
                old(self)@.processed,
                event_id@,
                worker_id@,
            ) ==> exists|bid: String|
                bid@ == event_broadcast_id(*event) && final(self)@.messages == #[trigger] spec_materialize_rows(
                    old(self)@,
                    bid,
                    event_mtype(*event),
                    created_recipients(*event),
                    now,
                ).messages && final(self)@.next_message_id == spec_materialize_rows(
                    old(self)@,
                    bid,
                    event_mtype(*event),
                    created_recipients(*event),
                    now,
                ).next_message_id,
            forall|k: int|
                0 <= k < cmds@.len() ==> #[trigger] cmds@[k].telegram_id == created_recipients(
                    *event,
                )[k] && cmds@[k].broadcast_id@ == event_broadcast_id(*event) && cmds@[k].message@
                    == created_message(*event) && cmds@[k].message_type == event_mtype(*event)
                    && media_view(cmds@[k].media_group) == created_media(*event) && cmds@[k].created_at
                    == now,
    {
        let ghost pre = self@;
        match event {
            BroadcastEvent::BroadcastCreated {
                broadcast_id,
                message,
                target_users,
                message_type,
                media_group,
                created_at: _,
            } => {
                if self.is_event_processed(event_id, worker_id) {
                    return Vec::new();
                }
                let mut cmds: Vec<BroadcastMessage> = Vec::new();
                let mut k: usize = 0;
                while k < target_users.len()
                    invariant
                        pre.wf(),
                        pre == old(self)@,
                        k <= target_users@.len(),
                        pre.next_message_id + target_users@.len() <= i64::MAX,
                        self@.wf(),
                        self@.events == pre.events,
                        self@.summaries == pre.summaries,
                        self@.processed == pre.processed,
                        self@ == spec_materialize_rows(
                            pre,
                            *broadcast_id,
                            *message_type,
                            target_users@.take(k as int),
                            now,
                        ),
                        self@.next_message_id <= pre.next_message_id + k,
                        cmds@.len() == k,
                        forall|j: int|
                            0 <= j < k ==> #[trigger] cmds@[j].telegram_id == target_users@[j]
                                && cmds@[j].broadcast_id@ == broadcast_id@ && cmds@[j].message@
                                == message@ && cmds@[j].message_type == *message_type && media_view(
                                cmds@[j].media_group,
                            ) == media_view(*media_group) && cmds@[j].created_at == now,
                    decreases target_users@.len() - k,
                {
                    proof {
                        assert(target_users@.take(k + 1).drop_last() =~= target_users@.take(
                            k as int,
                        ));
                        assert(target_users@.take(k + 1).last() == target_users@[k as int]);
                    }
                    let t = target_users[k];
                    let ghost mid = self@;
                    let _ = self.create_broadcast_message(broadcast_id, t, *message_type, now);
                    cmds.push(
                        BroadcastMessage {
                            telegram_id: t,
                            message: message.clone(),
                            broadcast_id: broadcast_id.clone(),
                            message_type: *message_type,
                            media_group: clone_opt_media(media_group),
                            created_at: now,
                        },
                    );
                    k += 1;
                }
                proof {
                    assert(target_users@.take(target_users@.len() as int) =~= target_users@);
                }
                self.processed.push(
                    ProcessedEvent { event_id: event_id.clone(), worker_id: worker_id.clone() },
                );
                cmds
            },
            _ => Vec::new(),
        }
    }
}

impl BroadcastStore {
    /// The Summary Projector: recomputes one broadcast's counters from its
    /// message rows and applies the status rule, never regressing from
    /// `Completed` and stamping `started_at` / `completed_at` at most once.
    pub fn update_broadcast_summary_from_messages(&mut self, broadcast_id: &String, now: i64)
        requires
            old(self)@.wf(),
        ensures
            final(self)@.wf(),
            final(self)@ == spec_project(old(self)@, broadcast_id@, now),
            final(self)@.events == old(self)@.events,
            final(self)@.messages == old(self)@.messages,
            final(self)@.processed == old(self)@.processed,
    {
        let ghost pre = self@;
        let sent = self.count_msgs_status(broadcast_id, MessageStatus::Sent);
        let failed = self.count_msgs_status(broadcast_id, MessageStatus::Failed);
        let pending = self.count_msgs_status(broadcast_id, MessageStatus::Pending);
        let idx = match self.find_summary(broadcast_id) {
            None => {
                return ;
            },
            Some(i) => i,
        };
        proof {
            lemma_summary_agrees(pre.summaries, broadcast_id@, idx as int);
        }
        let old_summary = self.summaries.remove(idx);
        let target = if pending == 0 && old_summary.total_users > 0 {
            BroadcastStatus::Completed
        } else if old_summary.total_users > 0 {
            BroadcastStatus::InProgress
        } else {
            BroadcastStatus::Pending
        };
        let new_status = if old_summary.status == BroadcastStatus::Completed {
            BroadcastStatus::Completed
        } else {
            target
        };
        let started_at = if old_summary.started_at.is_none() && !(new_status
            == BroadcastStatus::Pending) {
            Some(now)
        } else {
            old_summary.started_at
        };
        let completed_at = if new_status == BroadcastStatus::Completed
            && old_summary.completed_at.is_none() {
            Some(now)
        } else {
            old_summary.completed_at
        };
        let updated = BroadcastSummary {
            sent_count: sent,
            failed_count: failed,
            pending_count: pending,
            status: new_status,
            started_at,
            completed_at,
            ..old_summary
        };
        self.summaries.insert(idx, updated);
        proof {
            assert(self@.summaries =~= pre.summaries.update(
                idx as int,
                projected_summary(
                    summary_of(pre.summaries, broadcast_id@),
                    sent_count_of(pre.messages, broadcast_id@),
                    failed_count_of(pre.messages, broadcast_id@),
                    pending_count_of(pre.messages, broadcast_id@),
                    now,
                ),
            ));
            lemma_summaries_update_wf(
                pre,
                self@,
                idx as int,
                projected_summary(
                    summary_of(pre.summaries, broadcast_id@),
                    sent_count_of(pre.messages, broadcast_id@),
                    failed_count_of(pre.messages, broadcast_id@),
                    pending_count_of(pre.messages, broadcast_id@),
                    now,
                ),
            );
        }
    }

    /// Flips one message row's status and error, stamping `sent_at` exactly
    /// on `Sent`, and reprojects the broadcast's summary. A missing row
    /// leaves the table unchanged (the projector still runs). Callers may
    /// only move a row along a legal transition: statuses are one-way
    /// except that a retry resolves to sent or failed.
    pub fn update_broadcast_message_status(
        &mut self,
        broadcast_id: &String,
        telegram_id: i64,
        status: MessageStatus,
        error: Option<String>,
        now: i64,
    )
        requires
            old(self)@.wf(),
            has_msg_pair(old(self)@.messages, broadcast_id@, telegram_id)
                ==> legal_status_transition(
                old(self)@.messages[msg_pair_index(
                    old(self)@.messages,
                    broadcast_id@,
                    telegram_id,
                )].status,
                status,
            ),
        ensures
            final(self)@.wf(),
            final(self)@ == spec_project(
                spec_set_status(old(self)@, broadcast_id@, telegram_id, status, error, now),
                broadcast_id@,
                now,
            ),
            final(self)@.events == old(self)@.events,
            final(self)@.processed == old(self)@.processed,
    {
        let ghost pre = self@;
        match self.find_message(broadcast_id, telegram_id) {
            None => {},
            Some(i) => {
                proof {
                    lemma_msg_pair_agrees(pre.messages, broadcast_id@, telegram_id, i as int);
                }
                let row = self.messages.remove(i);
                let updated = BroadcastMessageRecord {
                    status,
                    error,
                    sent_at: if status == MessageStatus::Sent {
                        Some(now)
                    } else {
                        None
                    },
                    ..row
                };
                self.messages.insert(i, updated);
                proof {
                    assert(self@.messages =~= pre.messages.update(
                        i as int,
                        status_updated_row(pre.messages[i as int], status, error, now),
                    ));
                    lemma_msgs_update_wf(
                        pre,
                        self@,
                        i as int,
                        status_updated_row(pre.messages[i as int], status, error, now),
                    );
                }
            },
        }
        self.update_broadcast_summary_from_messages(broadcast_id, now);
    }

    /// The Delivery Worker's bookkeeping for one resolved send: the row
    /// becomes `Sent` (no error) or `Failed` (with the error string), the
    /// matching event is appended to the log, and the summary converges one
    /// step. Returns the id of the appended event. An outcome can only be
    /// recorded against a row still in flight — pending or retrying.
    pub fn record_delivery_outcome(
        &mut self,
        broadcast_id: &String,
        telegram_id: i64,
        error: Option<String>,
        now: i64,
    ) -> (eid: String)
        requires
            old(self)@.wf(),
            old(self)@.events.len() + 1 <= i64::MAX,
            has_msg_pair(old(self)@.messages, broadcast_id@, telegram_id) ==> (old(
                self,
            )@.messages[msg_pair_index(
                old(self)@.messages,
                broadcast_id@,
                telegram_id,
            )].status == MessageStatus::Pending || old(self)@.messages[msg_pair_index(
                old(self)@.messages,
                broadcast_id@,
                telegram_id,
            )].status == MessageStatus::Retrying),
        ensures
            final(self)@.wf(),
            final(self)@.messages == spec_record_outcome(
                old(self)@,
                broadcast_id@,
                telegram_id,
                error,
                now,
            ).messages,
            final(self)@.summaries == spec_record_outcome(
                old(self)@,
                broadcast_id@,
                telegram_id,
                error,
                now,
            ).summaries,
            final(self)@.processed == old(self)@.processed,
            final(self)@.next_message_id == old(self)@.next_message_id,
            final(self)@.events == old(self)@.events.push(final(self)@.events.last()),
            event_view(final(self)@.events.last().event) == (match error {
                None => EventView::Sent { broadcast_id: broadcast_id@, telegram_id, sent_at: now },
                Some(e) => EventView::Failed {
                    broadcast_id: broadcast_id@,
                    telegram_id,
                    error: e@,
                    failed_at: now,
                },
            }),
    {
        let status = if error.is_none() {
            MessageStatus::Sent
        } else {
            MessageStatus::Failed
        };
        let event = match &error {
            None => BroadcastEvent::MessageSent {
                broadcast_id: broadcast_id.clone(),
                telegram_id,
                sent_at: now,
            },
            Some(e) => BroadcastEvent::MessageFailed {
                broadcast_id: broadcast_id.clone(),
                telegram_id,
                error: e.clone(),
                failed_at: now,
            },
        };
        self.update_broadcast_message_status(broadcast_id, telegram_id, status, error, now);
        let eid = self.save_broadcast_event(event, now);
        eid
    }

    /// `RetryMessage`: a `Failed` row flips to `Retrying` with its retry
    /// count capped at one, a `MessageRetrying` event is appended, and the
    /// delivery command to republish is rebuilt — its text from the
    /// summary, its media from the logged `BroadcastCreated` event. A row
    /// already `Retrying` is left as it is (the command is still
    /// returned); anything else is refused with `None`.
    pub fn handle_retry_message(&mut self, command: &RetryMessageCommand, now: i64) -> (r: Option<
        BroadcastMessage,
    >)
        requires
            old(self)@.wf(),
            old(self)@.events.len() + 1 <= i64::MAX,
        ensures
            final(self)@.wf(),
            final(self)@.summaries == old(self)@.summaries,
            final(self)@.processed == old(self)@.processed,
            final(self)@.next_message_id == old(self)@.next_message_id,
            !has_msg_pair(old(self)@.messages, command.broadcast_id@, command.telegram_id) ==> r
                is None && final(self)@ == old(self)@,
            !has_summary(old(self)@.summaries, command.broadcast_id@) ==> r is None,
            r is Some ==> has_summary(old(self)@.summaries, command.broadcast_id@) && r.unwrap().telegram_id
                == command.telegram_id && r.unwrap().broadcast_id@ == command.broadcast_id@
                && r.unwrap().message@ == summary_of(
                old(self)@.summaries,
                command.broadcast_id@,
            ).message@ && media_view(r.unwrap().media_group) == first_created_media(
                old(self)@.events,
                command.broadcast_id@,
                0,
            ) && r.unwrap().message_type == summary_of(
                old(self)@.summaries,
                command.broadcast_id@,
            ).message_type && r.unwrap().created_at == now,
            has_msg_pair(old(self)@.messages, command.broadcast_id@, command.telegram_id)
                && !(old(self)@.messages[msg_pair_index(
                old(self)@.messages,
                command.broadcast_id@,
                command.telegram_id,
            )].status == MessageStatus::Failed) && !(old(self)@.messages[msg_pair_index(
                old(self)@.messages,
                command.broadcast_id@,
                command.telegram_id,
            )].status == MessageStatus::Retrying) ==> r is None && final(self)@ == old(self)@,
            has_msg_pair(old(self)@.messages, command.broadcast_id@, command.telegram_id)
                && has_summary(old(self)@.summaries, command.broadcast_id@) && old(
                self,
            )@.messages[msg_pair_index(
                old(self)@.messages,
                command.broadcast_id@,
                command.telegram_id,
            )].status == MessageStatus::Retrying ==> r is Some && final(self)@.messages == old(
                self,
            )@.messages && final(self)@.events == old(self)@.events,
            has_msg_pair(old(self)@.messages, command.broadcast_id@, command.telegram_id)
                && has_summary(old(self)@.summaries, command.broadcast_id@) && old(
                self,
            )@.messages[msg_pair_index(
                old(self)@.messages,
                command.broadcast_id@,
                command.telegram_id,
            )].status == MessageStatus::Failed ==> r is Some && final(self)@.messages == old(
                self,
            )@.messages.update(
                msg_pair_index(old(self)@.messages, command.broadcast_id@, command.telegram_id),
                BroadcastMessageRecord {
                    status: MessageStatus::Retrying,
                    retry_count: (if old(self)@.messages[msg_pair_index(
                        old(self)@.messages,
                        command.broadcast_id@,
                        command.telegram_id,
                    )].retry_count < 1 {
                        (old(self)@.messages[msg_pair_index(
                            old(self)@.messages,
                            command.broadcast_id@,
                            command.telegram_id,
                        )].retry_count + 1) as i64
                    } else {
                        old(self)@.messages[msg_pair_index(
                            old(self)@.messages,
                            command.broadcast_id@,
                            command.telegram_id,
                        )].retry_count
                    }),
                    ..old(self)@.messages[msg_pair_index(
                        old(self)@.messages,
                        command.broadcast_id@,
                        command.telegram_id,
                    )]
                },
            ) && final(self)@.events == old(self)@.events.push(final(self)@.events.last())
                && (final(self)@.events.last().event matches BroadcastEvent::MessageRetrying {
                broadcast_id,
                telegram_id,
                ..
            } && broadcast_id@ == command.broadcast_id@ && telegram_id == command.telegram_id),
    {
        let ghost pre = self@;
        let idx = match self.find_message(&command.broadcast_id, command.telegram_id) {
            None => {
                return None;
            },
            Some(i) => i,
        };
        proof {
            lemma_msg_pair_agrees(
                pre.messages,
                command.broadcast_id@,
                command.telegram_id,
                idx as int,
            );
        }
        let sidx = match self.find_summary(&command.broadcast_id) {
            None => {
                return None;
            },
            Some(i) => i,
        };
        proof {
            lemma_summary_agrees(pre.summaries, command.broadcast_id@, sidx as int);
        }
        let mut media: Option<MediaGroup> = None;
        let mut found_created: bool = false;
        let mut e: usize = 0;
        while e < self.events.len()
            invariant
                self@ == pre,
                e <= pre.events.len(),
                !found_created ==> media is None && first_created_media(
                    pre.events,
                    command.broadcast_id@,
                    0,
                ) == first_created_media(pre.events, command.broadcast_id@, e as int),
                found_created ==> media_view(media) == first_created_media(
                    pre.events,
                    command.broadcast_id@,
                    0,
                ),
            decreases pre.events.len() - e,
        {
            if !found_created {
                let rec = &self.events[e];
                if rec.broadcast_id == command.broadcast_id && matches!(
                    rec.event,
                    BroadcastEvent::BroadcastCreated { .. },
                ) {
                    media = created_media_of(&rec.event);
                    found_created = true;
                }
            }
            e += 1;
        }
        proof {
            if !found_created {
                assert(first_created_media(pre.events, command.broadcast_id@, pre.events.len() as int)
                    is None);
            }
        }
        let row_status = self.messages[idx].status;
        if row_status == MessageStatus::Failed {
            let row = self.messages.remove(idx);
            let new_retry: i64 = if row.retry_count < 1 {
                row.retry_count + 1
            } else {
                row.retry_count
            };
            let updated = BroadcastMessageRecord {
                status: MessageStatus::Retrying,
                retry_count: new_retry,
                ..row
            };
            self.messages.insert(idx, updated);
            proof {
                assert(self@.messages =~= pre.messages.update(idx as int, self@.messages[idx as int]));
                lemma_msgs_update_wf(pre, self@, idx as int, self@.messages[idx as int]);
            }
            let retry_u32: u32 = if new_retry >= 1 {
                1
            } else {
                0
            };
            let event = BroadcastEvent::MessageRetrying {
                broadcast_id: command.broadcast_id.clone(),
                telegram_id: command.telegram_id,
                retry_count: retry_u32,
                retry_at: now,
            };
            let _ = self.save_broadcast_event(event, now);
        } else if row_status == MessageStatus::Retrying {
            // Idempotent: the row already carries the retry.
        } else {
            return None;
        }
        let summary = &self.summaries[sidx];
        Some(
            BroadcastMessage {
                telegram_id: command.telegram_id,
                message: summary.message.clone(),
                broadcast_id: command.broadcast_id.clone(),
                message_type: summary.message_type,
                media_group: media,
                created_at: now,
            },
        )
    }

    /// `CancelBroadcast`: the summary is marked `Failed` and stamped as
    /// completed. In-flight deliveries are not revoked; the per-message
    /// rows stay authoritative for work already under way.
    pub fn handle_cancel_broadcast(&mut self, command: &CancelBroadcastCommand, now: i64)
        requires
            old(self)@.wf(),
        ensures
            final(self)@.wf(),
            final(self)@.events == old(self)@.events,
            final(self)@.messages == old(self)@.messages,
            final(self)@.processed == old(self)@.processed,
            final(self)@.next_message_id == old(self)@.next_message_id,
            !has_summary(old(self)@.summaries, command.broadcast_id@) ==> final(self)@ == old(
                self,
            )@,
            has_summary(old(self)@.summaries, command.broadcast_id@) ==> final(self)@.summaries
                == old(self)@.summaries.update(
                summary_index(old(self)@.summaries, command.broadcast_id@),
                BroadcastSummary {
                    status: BroadcastStatus::Failed,
                    completed_at: Some(now),
                    ..summary_of(old(self)@.summaries, command.broadcast_id@)
                },
            ),
    {
        let ghost pre = self@;
        let idx = match self.find_summary(&command.broadcast_id) {
            None => {
                return ;
            },
            Some(i) => i,
        };
        proof {
            lemma_summary_agrees(pre.summaries, command.broadcast_id@, idx as int);
        }
        let old_summary = self.summaries.remove(idx);
        let updated = BroadcastSummary {
            status: BroadcastStatus::Failed,
            completed_at: Some(now),
            ..old_summary
        };
        self.summaries.insert(idx, updated);
        proof {
            assert(self@.summaries =~= pre.summaries.update(
                idx as int,
                self@.summaries[idx as int],
            ));
            lemma_summaries_update_wf(pre, self@, idx as int, self@.summaries[idx as int]);
        }
    }

    /// Deletes a broadcast's message rows and summary. The event log is
    /// append-only and keeps its history.
    pub fn delete_broadcast(&mut self, broadcast_id: &String)
        requires
            old(self)@.wf(),
        ensures
            final(self)@.wf(),
            final(self)@.events == old(self)@.events,
            final(self)@.processed == old(self)@.processed,
            final(self)@.next_message_id == old(self)@.next_message_id,
            final(self)@.messages == keep_where(
                old(self)@.messages,
                msg_not_of(broadcast_id@),
            ),
            final(self)@.summaries == keep_where(
                old(self)@.summaries,
                summary_not_with_id(broadcast_id@),
            ),
            !has_summary(final(self)@.summaries, broadcast_id@),
    {
        let ghost pre = self@;
        let mut kept_msgs: Vec<BroadcastMessageRecord> = Vec::new();
        let mut i: usize = 0;
        while i < self.messages.len()
            invariant
                self@ == pre,
                i <= pre.messages.len(),
                kept_msgs@ == keep_where(pre.messages.take(i as int), msg_not_of(broadcast_id@)),
            decreases pre.messages.len() - i,
        {
            proof {
                lemma_keep_where_take_step(pre.messages, msg_not_of(broadcast_id@), i as int);
            }
            if !(self.messages[i].broadcast_id == *broadcast_id) {
                kept_msgs.push(self.messages[i].clone());
            }
            i += 1;
        }
        proof {
            lemma_keep_where_take_all(pre.messages, msg_not_of(broadcast_id@));
        }
        self.messages = kept_msgs;
        let ghost mid = self@;
        let mut kept_sums: Vec<BroadcastSummary> = Vec::new();
        let mut j: usize = 0;
        while j < self.summaries.len()
            invariant
                self@ == mid,
                j <= pre.summaries.len(),
                self@.summaries == pre.summaries,
                kept_sums@ == keep_where(
                    pre.summaries.take(j as int),
                    summary_not_with_id(broadcast_id@),
                ),
            decreases pre.summaries.len() - j,
        {
            proof {
                lemma_keep_where_take_step(pre.summaries, summary_not_with_id(broadcast_id@), j as int);
            }
            if !(self.summaries[j].id == *broadcast_id) {
                kept_sums.push(self.summaries[j].clone());
            }
            j += 1;
        }
        proof {
            lemma_keep_where_take_all(pre.summaries, summary_not_with_id(broadcast_id@));
        }
        self.summaries = kept_sums;
        proof {
            let post = self@;
            lemma_keep_where_all(pre.messages, msg_not_of(broadcast_id@));
            lemma_keep_where_all(pre.summaries, summary_not_with_id(broadcast_id@));
            assert forall|bid: Seq<char>|
                #[trigger] count_where(post.summaries, summary_with_id(bid)) <= 1 by {
                lemma_count_where_keep_le(
                    pre.summaries,
                    summary_not_with_id(broadcast_id@),
                    summary_with_id(bid),
                );
            }
            assert forall|bid: Seq<char>, t: i64|
                #[trigger] count_where(post.messages, msg_pair(bid, t)) <= 1 by {
                lemma_count_where_keep_le(
                    pre.messages,
                    msg_not_of(broadcast_id@),
                    msg_pair(bid, t),
                );
            }
            assert forall|b: i64| #[trigger] count_where(post.messages, with_msg_id(b)) <= 1 by {
                lemma_count_where_keep_le(pre.messages, msg_not_of(broadcast_id@), with_msg_id(b));
            }
            assert forall|k: int|
                0 <= k < post.messages.len() implies #[trigger] post.messages[k].id
                < post.next_message_id by {
                assert(pre.messages.contains(post.messages[k]));
                let k2 = choose|k2: int|
                    0 <= k2 < pre.messages.len() && pre.messages[k2] == post.messages[k];
                assert(pre.messages[k2].id < pre.next_message_id);
            }
            if has_summary(post.summaries, broadcast_id@) {
                let k = choose|k: int|
                    0 <= k < post.summaries.len() && post.summaries[k].id@ == broadcast_id@;
                assert(summary_not_with_id(broadcast_id@)(post.summaries[k]));
            }
        }
    }

    /// The summary of one broadcast, if it exists.
    pub fn get_broadcast_summary(&self, broadcast_id: &String) -> (r: Option<BroadcastSummary>)
        requires
            self@.wf(),
        ensures
            r is Some <==> has_summary(self@.summaries, broadcast_id@),
            r is Some ==> r.unwrap() == summary_of(self@.summaries, broadcast_id@),
    {
        match self.find_summary(broadcast_id) {
            None => None,
            Some(i) => {
                proof {
                    lemma_summary_agrees(self@.summaries, broadcast_id@, i as int);
                }
                Some(self.summaries[i].clone())
            },
        }
    }

    /// Every summary, in insertion order.
    pub fn get_all_broadcast_summaries(&self) -> (r: Vec<BroadcastSummary>)
        ensures
            r@ == self@.summaries,
    {
        let mut out: Vec<BroadcastSummary> = Vec::new();
        let mut i: usize = 0;
        while i < self.summaries.len()
            invariant
                i <= self@.summaries.len(),
                out@ == self@.summaries.take(i as int),
            decreases self@.summaries.len() - i,
        {
            out.push(self.summaries[i].clone());
            proof {
                assert(out@ =~= self@.summaries.take(i + 1));
            }
            i += 1;
        }
        proof {
            assert(out@ =~= self@.summaries);
        }
        out
    }

    /// One broadcast's message rows, optionally restricted to a status,
    /// then windowed by offset and limit (the service defaults are an
    /// offset of zero and a page of one hundred rows).
    pub fn get_broadcast_messages(
        &self,
        broadcast_id: &String,
        status: Option<MessageStatus>,
        limit: Option<usize>,
        offset: Option<usize>,
    ) -> (r: Vec<BroadcastMessageRecord>)
        ensures
            r@ == page_of(
                keep_where(
                    self@.messages,
                    match status {
                        None => msg_of(broadcast_id@),
                        Some(st) => msg_status(broadcast_id@, st),
                    },
                ),
                limit,
                offset,
            ),
    {
        let mut filtered: Vec<BroadcastMessageRecord> = Vec::new();
        let mut i: usize = 0;
        while i < self.messages.len()
            invariant
                i <= self@.messages.len(),
                filtered@ == keep_where(
                    self@.messages.take(i as int),
                    match status {
                        None => msg_of(broadcast_id@),
                        Some(st) => msg_status(broadcast_id@, st),
                    },
                ),
            decreases self@.messages.len() - i,
        {
            proof {
                lemma_keep_where_take_step(
                    self@.messages,
                    match status {
                        None => msg_of(broadcast_id@),
                        Some(st) => msg_status(broadcast_id@, st),
                    },
                    i as int,
                );
            }
            let row = &self.messages[i];
            let keep = match status {
                None => row.broadcast_id == *broadcast_id,
                Some(st) => row.broadcast_id == *broadcast_id && row.status == st,
            };
            if keep {
                filtered.push(self.messages[i].clone());
            }
            i += 1;
        }
        proof {
            assert(self@.messages.take(self@.messages.len() as int) =~= self@.messages);
        }
        let off = match offset {
            None => 0,
            Some(o) => o,
        };
        let lim = match limit {
            None => 100,
            Some(l) => l,
        };
        let start = if off < filtered.len() {
            off
        } else {
            filtered.len()
        };
        let stop = if lim < filtered.len() - start {
            start + lim
        } else {
            filtered.len()
        };
        let mut out: Vec<BroadcastMessageRecord> = Vec::new();
        let mut k: usize = start;
        while k < stop
            invariant
                start <= k <= stop <= filtered@.len(),
                out@ == filtered@.subrange(start as int, k as int),
            decreases stop - k,
        {
            out.push(filtered[k].clone());
            proof {
                assert(out@ =~= filtered@.subrange(start as int, k + 1));
            }
            k += 1;
        }
        proof {
            assert(out@ =~= filtered@.subrange(start as int, stop as int));
        }
        out
    }
}

impl BroadcastStore {
    /// `GetBroadcastStatus`: the summary with the first page of its rows.
    pub fn handle_get_broadcast_status(&self, query: &GetBroadcastStatusQuery) -> (r: Option<
        BroadcastStatusResponse,
    >)
        requires
            self@.wf(),
        ensures
            r is Some <==> has_summary(self@.summaries, query.broadcast_id@),
            r is Some ==> r.unwrap().broadcast == summary_of(
                self@.summaries,
                query.broadcast_id@,
            ) && r.unwrap().messages@ == page_of(
                keep_where(self@.messages, msg_of(query.broadcast_id@)),
                None,
                None,
            ),
    {
        let summary = match self.get_broadcast_summary(&query.broadcast_id) {
            None => {
                return None;
            },
            Some(s) => s,
        };
        let messages = self.get_broadcast_messages(&query.broadcast_id, None, None, None);
        Some(BroadcastStatusResponse { broadcast: summary, messages })
    }

    /// `GetBroadcastMessages`: one filtered, windowed page of rows.
    pub fn handle_get_broadcast_messages(&self, query: &GetBroadcastMessagesQuery) -> (r: Vec<
        BroadcastMessageRecord,
    >)
        ensures
            r@ == page_of(
                keep_where(
                    self@.messages,
                    match query.status {
                        None => msg_of(query.broadcast_id@),
                        Some(st) => msg_status(query.broadcast_id@, st),
                    },
                ),
                query.limit,
                query.offset,
            ),
    {
        self.get_broadcast_messages(&query.broadcast_id, query.status, query.limit, query.offset)
    }
}

/// Delivery outcomes move rows between statuses but never add or drop a
/// row: every broadcast keeps its population of message rows.
pub proof fn lemma_outcome_preserves_population(
    m: BroadcastModel,
    bid: Seq<char>,
    t: i64,
    error: Option<String>,
    now: i64,
    bid2: Seq<char>,
)
    ensures
        count_where(spec_record_outcome(m, bid, t, error, now).messages, msg_of(bid2))
            == count_where(m.messages, msg_of(bid2)),
{
    let st = if error is None {
        MessageStatus::Sent
    } else {
        MessageStatus::Failed
    };
    if has_msg_pair(m.messages, bid, t) {
        let i = msg_pair_index(m.messages, bid, t);
        lemma_count_where_update(
            m.messages,
            msg_of(bid2),
            i,
            status_updated_row(m.messages[i], st, error, now),
        );
    }
}

/// A whole drain of the delivery queue: the resolved sends applied one
/// after another.
pub open spec fn spec_drain(
    m: BroadcastModel,
    bid: Seq<char>,
    outcomes: Seq<(i64, Option<String>)>,
    now: i64,
) -> BroadcastModel
    decreases outcomes.len(),
{
    if outcomes.len() == 0 {
        m
    } else {
        spec_record_outcome(
            spec_drain(m, bid, outcomes.drop_last(), now),
            bid,
            outcomes.last().0,
            outcomes.last().1,
            now,
        )
    }
}

/// Draining deliveries never adds or drops a message row: the number of
/// rows each broadcast holds — the recipients the operator named — is
/// what `sent + failed` converges against.
pub proof fn lemma_drain_preserves_population(
    m: BroadcastModel,
    bid: Seq<char>,
    outcomes: Seq<(i64, Option<String>)>,
    now: i64,
    bid2: Seq<char>,
)
    ensures
        count_where(spec_drain(m, bid, outcomes, now).messages, msg_of(bid2)) == count_where(
            m.messages,
            msg_of(bid2),
        ),
    decreases outcomes.len(),
{
    if outcomes.len() > 0 {
        lemma_drain_preserves_population(m, bid, outcomes.drop_last(), now, bid2);
        lemma_outcome_preserves_population(
            spec_drain(m, bid, outcomes.drop_last(), now),
            bid,
            outcomes.last().0,
            outcomes.last().1,
            now,
            bid2,
        );
    }
}

/// The projector rewrites counters and status but never creates, drops or
/// re-identifies a summary, and never touches the recipient total.
pub proof fn lemma_project_preserves_summaries(
    m: BroadcastModel,
    bid: Seq<char>,
    now: i64,
    bid2: Seq<char>,
)
    requires
        count_where(m.summaries, summary_with_id(bid2)) <= 1,
    ensures
        has_summary(spec_project(m, bid, now).summaries, bid2) == has_summary(m.summaries, bid2),
        count_where(spec_project(m, bid, now).summaries, summary_with_id(bid2)) <= 1,
        has_summary(m.summaries, bid2) ==> summary_of(
            spec_project(m, bid, now).summaries,
            bid2,
        ).total_users == summary_of(m.summaries, bid2).total_users && summary_of(
            spec_project(m, bid, now).summaries,
            bid2,
        ).id@ == bid2,
{
    if has_summary(m.summaries, bid) {
        let i = summary_index(m.summaries, bid);
        let post = spec_project(m, bid, now);
        assert(post.summaries.len() == m.summaries.len());
        assert(post.summaries[i].id@ == m.summaries[i].id@);
        assert(forall|k: int|
            0 <= k < post.summaries.len() && k != i ==> post.summaries[k] == m.summaries[k]);
        assert forall|k: int|
            0 <= k < post.summaries.len() implies (#[trigger] post.summaries[k].id@
            == m.summaries[k].id@) by {
            if k != i {
                assert(post.summaries[k] == m.summaries[k]);
            }
        }
        lemma_count_where_update(
            m.summaries,
            summary_with_id(bid2),
            i,
            post.summaries[i],
        );
        if has_summary(m.summaries, bid2) {
            let j = choose|j: int| 0 <= j < m.summaries.len() && m.summaries[j].id@ == bid2;
            assert(post.summaries[j].id@ == bid2);
            lemma_summary_agrees(m.summaries, bid2, j);
            lemma_summary_agrees(post.summaries, bid2, j);
        }
        if has_summary(post.summaries, bid2) {
            let j = choose|j: int| 0 <= j < post.summaries.len() && post.summaries[j].id@ == bid2;
            assert(m.summaries[j].id@ == bid2);
        }
    }
}

/// Delivery outcomes keep every summary present under its id, unique, and
/// at its recipient total.
pub proof fn lemma_drain_preserves_summaries(
    m: BroadcastModel,
    bid: Seq<char>,
    outcomes: Seq<(i64, Option<String>)>,
    now: i64,
    bid2: Seq<char>,
)
    requires
        count_where(m.summaries, summary_with_id(bid2)) <= 1,
    ensures
        has_summary(spec_drain(m, bid, outcomes, now).summaries, bid2) == has_summary(
            m.summaries,
            bid2,
        ),
        count_where(spec_drain(m, bid, outcomes, now).summaries, summary_with_id(bid2)) <= 1,
        has_summary(m.summaries, bid2) ==> summary_of(
            spec_drain(m, bid, outcomes, now).summaries,
            bid2,
        ).total_users == summary_of(m.summaries, bid2).total_users,
    decreases outcomes.len(),
{
    if outcomes.len() > 0 {
        lemma_drain_preserves_summaries(m, bid, outcomes.drop_last(), now, bid2);
        let mid = spec_drain(m, bid, outcomes.drop_last(), now);
        let t = outcomes.last().0;
        let error = outcomes.last().1;
        let st = if error is None {
            MessageStatus::Sent
        } else {
            MessageStatus::Failed
        };
        let stepped = spec_set_status(mid, bid, t, st, error, now);
        assert(stepped.summaries == mid.summaries);
        lemma_project_preserves_summaries(stepped, bid, now, bid2);
    }
}

/// Materialisation is an upsert, on any starting table: afterwards every
/// targeted recipient has a row for the broadcast, and every pair that had
/// a row keeps one. With row uniqueness (well-formedness) that is exactly
/// one row per targeted recipient.
pub proof fn lemma_materialize_covers(
    m: BroadcastModel,
    bid: String,
    mtype: Option<BroadcastMessageType>,
    recipients: Seq<i64>,
    now: i64,
)
    ensures
        forall|k: int|
            0 <= k < recipients.len() ==> has_msg_pair(
                spec_materialize_rows(m, bid, mtype, recipients, now).messages,
                bid@,
                #[trigger] recipients[k],
            ),
        forall|t: i64|
            #[trigger] has_msg_pair(m.messages, bid@, t) ==> has_msg_pair(
                spec_materialize_rows(m, bid, mtype, recipients, now).messages,
                bid@,
                t,
            ),
    decreases recipients.len(),
{
    if recipients.len() > 0 {
        let prefix = recipients.drop_last();
        let t = recipients.last();
        lemma_materialize_covers(m, bid, mtype, prefix, now);
        let m1 = spec_materialize_rows(m, bid, mtype, prefix, now);
        let post = spec_materialize_rows(m, bid, mtype, recipients, now);
        assert(forall|k: int| 0 <= k < prefix.len() ==> prefix[k] == recipients[k]);
        assert forall|t2: i64|
            has_msg_pair(m1.messages, bid@, t2) implies has_msg_pair(
            post.messages,
            bid@,
            t2,
        ) by {
            let k = choose|k: int|
                0 <= k < m1.messages.len() && m1.messages[k].broadcast_id@ == bid@
                    && m1.messages[k].telegram_id == t2;
            assert(post.messages[k].broadcast_id@ == bid@ && post.messages[k].telegram_id == t2);
        }
        if !has_msg_pair(m1.messages, bid@, t) {
            let fresh = pending_row(m1.next_message_id, bid, t, mtype, now);
            assert(post.messages.last() == fresh);
            assert(post.messages[post.messages.len() - 1].broadcast_id@ == bid@
                && post.messages[post.messages.len() - 1].telegram_id == t);
        }
        assert forall|k: int|
            0 <= k < recipients.len() implies has_msg_pair(
            post.messages,
            bid@,
            #[trigger] recipients[k],
        ) by {
            if k < recipients.len() - 1 {
                assert(has_msg_pair(m1.messages, bid@, prefix[k]));
            } else {
                assert(has_msg_pair(post.messages, bid@, t));
            }
        }
    }
}

/// Materialising rows touches the message table and its id counter only.
pub proof fn lemma_materialize_preserves(
    m: BroadcastModel,
    bid: String,
    mtype: Option<BroadcastMessageType>,
    recipients: Seq<i64>,
    now: i64,
)
    ensures
        spec_materialize_rows(m, bid, mtype, recipients, now).summaries == m.summaries,
        spec_materialize_rows(m, bid, mtype, recipients, now).events == m.events,
        spec_materialize_rows(m, bid, mtype, recipients, now).processed == m.processed,
    decreases recipients.len(),
{
    if recipients.len() > 0 {
        lemma_materialize_preserves(m, bid, mtype, recipients.drop_last(), now);
    }
}

/// The broadcast round trip: create, fan out to distinct recipients, let
/// the deliveries resolve, and re-run the projector. Once nothing is in
/// flight, the summary reports exactly the operator's recipients:
/// `sent + failed` equals their number, nothing is pending, and the
/// broadcast stands `Completed`.
pub proof fn lemma_broadcast_round_trip(
    m0: BroadcastModel,
    bid: String,
    mtype: Option<BroadcastMessageType>,
    recipients: Seq<i64>,
    outcomes: Seq<(i64, Option<String>)>,
    now: i64,
)
    requires
        count_where(m0.messages, msg_of(bid@)) == 0,
        forall|i: int, j: int|
            0 <= i < j < recipients.len() ==> #[trigger] recipients[i] != #[trigger] recipients[j],
        recipients.len() > 0,
        has_summary(m0.summaries, bid@),
        count_where(m0.summaries, summary_with_id(bid@)) <= 1,
        summary_of(m0.summaries, bid@).total_users == recipients.len(),
        forall|i: int|
            0 <= i < spec_drain(
                spec_materialize_rows(m0, bid, mtype, recipients, now),
                bid@,
                outcomes,
                now,
            ).messages.len() && #[trigger] spec_drain(
                spec_materialize_rows(m0, bid, mtype, recipients, now),
                bid@,
                outcomes,
                now,
            ).messages[i].broadcast_id@ == bid@ ==> (spec_drain(
                spec_materialize_rows(m0, bid, mtype, recipients, now),
                bid@,
                outcomes,
                now,
            ).messages[i].status == MessageStatus::Sent || spec_drain(
                spec_materialize_rows(m0, bid, mtype, recipients, now),
                bid@,
                outcomes,
                now,
            ).messages[i].status == MessageStatus::Failed),
    ensures
        summary_of(
            spec_project(
                spec_drain(
                    spec_materialize_rows(m0, bid, mtype, recipients, now),
                    bid@,
                    outcomes,
                    now,
                ),
                bid@,
                now,
            ).summaries,
            bid@,
        ).sent_count + summary_of(
            spec_project(
                spec_drain(
                    spec_materialize_rows(m0, bid, mtype, recipients, now),
                    bid@,
                    outcomes,
                    now,
                ),
                bid@,
                now,
            ).summaries,
            bid@,
        ).failed_count == recipients.len(),
        summary_of(
            spec_project(
                spec_drain(
                    spec_materialize_rows(m0, bid, mtype, recipients, now),
                    bid@,
                    outcomes,
                    now,
                ),
                bid@,
                now,
            ).summaries,
            bid@,
        ).pending_count == 0,
        summary_of(
            spec_project(
                spec_drain(
                    spec_materialize_rows(m0, bid, mtype, recipients, now),
                    bid@,
                    outcomes,
                    now,
                ),
                bid@,
                now,
            ).summaries,
            bid@,
        ).status == BroadcastStatus::Completed,
{
    let filled = spec_materialize_rows(m0, bid, mtype, recipients, now);
    let drained = spec_drain(filled, bid@, outcomes, now);
    lemma_materialize_count(m0, bid, mtype, recipients, now);
    lemma_materialize_preserves(m0, bid, mtype, recipients, now);
    assert(filled.summaries == m0.summaries);
    lemma_drain_preserves_population(filled, bid@, outcomes, now, bid@);
    lemma_drain_preserves_summaries(filled, bid@, outcomes, now, bid@);
    assert(count_where(drained.messages, msg_of(bid@)) == recipients.len());
    assert(has_summary(drained.summaries, bid@));
    assert(summary_of(drained.summaries, bid@).total_users == recipients.len());
    lemma_summary_convergence(drained, bid@, now);
    lemma_project_preserves_summaries(drained, bid@, now, bid@);
}

/// Predicate: the message row does not belong to broadcast `bid`.
pub open spec fn msg_not_of(bid: Seq<char>) -> spec_fn(BroadcastMessageRecord) -> bool {
    |m: BroadcastMessageRecord| m.broadcast_id@ != bid
}

/// Predicate: the summary row is not the one of broadcast `bid`.
pub open spec fn summary_not_with_id(bid: Seq<char>) -> spec_fn(BroadcastSummary) -> bool {
    |s: BroadcastSummary| s.id@ != bid
}

/// The window an offset and a limit cut out of a listing; the service
/// defaults are offset zero and one hundred rows.
pub open spec fn page_of<A>(s: Seq<A>, limit: Option<usize>, offset: Option<usize>) -> Seq<A> {
    let off = match offset {
        None => 0int,
        Some(o) => o as int,
    };
    let lim = match limit {
        None => 100int,
        Some(l) => l as int,
    };
    let start = if off < s.len() {
        off
    } else {
        s.len() as int
    };
    let stop = if start + lim < s.len() {
        start + lim
    } else {
        s.len() as int
    };
    s.subrange(start, stop)
}

/// How one delivery command is to be carried out by the messenger.
#[derive(Debug)]
pub enum SendPlan {
    /// Send the valid attachments as one media group; the caption rides on
    /// the first item only.
    Media { items: Vec<MediaItem> },
    /// Send the text alone; a sign-up message carries the single inline
    /// sign-up button.
    Text { sign_up_button: bool },
    /// A media group was attached but no item of it can be sent: the
    /// message must fail with this explanation.
    InvalidMedia { error: String },
}

/// Media types the messenger accepts in a media group.
pub open spec fn supported_media_type(s: Seq<char>) -> bool {
    s == "photo"@ || s == "video"@ || s == "document"@ || s == "audio"@ || s == "voice"@
}

/// Predicate: the attachment can actually be sent — it has a durable file
/// id and a supported type.
pub open spec fn valid_media_item() -> spec_fn(MediaItem) -> bool {
    |it: MediaItem| it.file_id is Some && supported_media_type(it.media_type@)
}

/// The attachments with the caption kept on the first one only.
pub open spec fn caption_on_first(kept: Seq<MediaItem>) -> Seq<MediaItem> {
    Seq::new(
        kept.len(),
        |k: int|
            if k == 0 {
                kept[k]
            } else {
                MediaItem { caption: None, ..kept[k] }
            },
    )
}

/// Decides how a delivery command is sent: a message without media goes as
/// text (a sign-up message with the sign-up button); with media, the valid
/// attachments go as one group with the caption on the first item; media
/// with no valid attachment fails the message.
pub fn plan_send(message: &BroadcastMessage) -> (r: SendPlan)
    ensures
        message.media_group is None ==> (r matches SendPlan::Text { sign_up_button } && (
        sign_up_button <==> message.message_type == Some(BroadcastMessageType::SignUp))),
        message.media_group is Some && count_where(
            message.media_group.unwrap().media@,
            valid_media_item(),
        ) == 0 ==> (r matches SendPlan::InvalidMedia { error } && error@
            == "media group has no valid items: upload the files first"@),
        message.media_group is Some && count_where(
            message.media_group.unwrap().media@,
            valid_media_item(),
        ) > 0 ==> (r matches SendPlan::Media { items } && items@ == caption_on_first(
            keep_where(message.media_group.unwrap().media@, valid_media_item()),
        )),
{
    let group = match &message.media_group {
        None => {
            let sign_up_button = matches!(message.message_type, Some(BroadcastMessageType::SignUp));
            return SendPlan::Text { sign_up_button };
        },
        Some(g) => g,
    };
    let photo = String::from_str("photo");
    let video = String::from_str("video");
    let document = String::from_str("document");
    let audio = String::from_str("audio");
    let voice = String::from_str("voice");
    let mut items: Vec<MediaItem> = Vec::new();
    let mut i: usize = 0;
    while i < group.media.len()
        invariant
            i <= group.media@.len(),
            photo@ == "photo"@,
            video@ == "video"@,
            document@ == "document"@,
            audio@ == "audio"@,
            voice@ == "voice"@,
            items@ == caption_on_first(keep_where(group.media@.take(i as int), valid_media_item())),
            items@.len() == count_where(group.media@.take(i as int), valid_media_item()),
        decreases group.media@.len() - i,
    {
        proof {
            lemma_keep_where_take_step(group.media@, valid_media_item(), i as int);
            lemma_count_where_take_step(group.media@, valid_media_item(), i as int);
            lemma_keep_where_all(group.media@.take(i as int), valid_media_item());
            crate::counting::lemma_count_where_bounds(
                group.media@.take(i as int),
                valid_media_item(),
            );
        }
        let it = &group.media[i];
        let supported = it.media_type == photo || it.media_type == video || it.media_type
            == document || it.media_type == audio || it.media_type == voice;
        if supported && it.file_id.is_some() {
            let cloned = it.clone();
            if items.len() == 0 {
                items.push(cloned);
            } else {
                items.push(MediaItem { caption: None, ..cloned });
            }
            proof {
                assert(items@ =~= caption_on_first(
                    keep_where(group.media@.take(i + 1), valid_media_item()),
                ));
            }
        }
        i += 1;
    }
    proof {
        assert(group.media@.take(group.media@.len() as int) =~= group.media@);
    }
    if items.len() == 0 {
        proof {
            crate::counting::lemma_keep_where_all(group.media@, valid_media_item());
        }
        return SendPlan::InvalidMedia {
            error: String::from_str("media group has no valid items: upload the files first"),
        };
    }
    proof {
        crate::counting::lemma_keep_where_all(group.media@, valid_media_item());
    }
    SendPlan::Media { items }
}

/// The media the first `BroadcastCreated` event of broadcast `bid` at or
/// after position `i` carries, if any such event stands in the log.
pub open spec fn first_created_media(
    events: Seq<BroadcastEventRecord>,
    bid: Seq<char>,
    i: int,
) -> Option<Seq<MediaItem>>
    decreases events.len() - i,
{
    if i < 0 || i >= events.len() {
        None
    } else if events[i].broadcast_id@ == bid && events[i].event is BroadcastCreated {
        created_media(events[i].event)
    } else {
        first_created_media(events, bid, i + 1)
    }
}

/// The media group a `BroadcastCreated` event carries, copied out.
fn created_media_of(e: &BroadcastEvent) -> (r: Option<MediaGroup>)
    requires
        *e is BroadcastCreated,
    ensures
        media_view(r) == created_media(*e),
{
    match e {
        BroadcastEvent::BroadcastCreated { media_group, .. } => clone_opt_media(media_group),
        _ => unreached(),
    }
}

/// Predicate: the log record belongs to broadcast `bid`.
pub open spec fn event_rec_of(bid: Seq<char>) -> spec_fn(BroadcastEventRecord) -> bool {
    |e: BroadcastEventRecord| e.broadcast_id@ == bid
}

/// An exact-by-view copy of any log event.
fn clone_event(e: &BroadcastEvent) -> (r: BroadcastEvent)
    ensures
        event_view(r) == event_view(*e),
{
    match e {
        BroadcastEvent::BroadcastCreated { .. } => clone_created_event(e),
        BroadcastEvent::BroadcastStarted { broadcast_id, started_at } => {
            BroadcastEvent::BroadcastStarted {
                broadcast_id: broadcast_id.clone(),
                started_at: *started_at,
            }
        },
        BroadcastEvent::MessageSent { broadcast_id, telegram_id, sent_at } => {
            BroadcastEvent::MessageSent {
                broadcast_id: broadcast_id.clone(),
                telegram_id: *telegram_id,
                sent_at: *sent_at,
            }
        },
        BroadcastEvent::MessageFailed { broadcast_id, telegram_id, error, failed_at } => {
            BroadcastEvent::MessageFailed {
                broadcast_id: broadcast_id.clone(),
                telegram_id: *telegram_id,
                error: error.clone(),
                failed_at: *failed_at,
            }
        },
        BroadcastEvent::MessageRetrying { broadcast_id, telegram_id, retry_count, retry_at } => {
            BroadcastEvent::MessageRetrying {
                broadcast_id: broadcast_id.clone(),
                telegram_id: *telegram_id,
                retry_count: *retry_count,
                retry_at: *retry_at,
            }
        },
        BroadcastEvent::BroadcastCompleted {
            broadcast_id,
            total_sent,
            total_failed,
            completed_at,
        } => {
            BroadcastEvent::BroadcastCompleted {
                broadcast_id: broadcast_id.clone(),
                total_sent: *total_sent,
                total_failed: *total_failed,
                completed_at: *completed_at,
            }
        },
    }
}

/// The mathematical value of one log record.
pub open spec fn event_record_view() -> spec_fn(BroadcastEventRecord) -> (
    Seq<char>,
    Seq<char>,
    EventView,
    i64,
    i64,
) {
    |e: BroadcastEventRecord| (e.event_id@, e.broadcast_id@, event_view(e.event), e.created_at, e.version)
}

impl BroadcastStore {
    /// One broadcast's slice of the event log, in log order.
    pub fn get_broadcast_events(&self, broadcast_id: &String) -> (r: Vec<BroadcastEventRecord>)
        ensures
            r@.map_values(event_record_view()) == keep_where(
                self@.events,
                event_rec_of(broadcast_id@),
            ).map_values(event_record_view()),
    {
        let mut out: Vec<BroadcastEventRecord> = Vec::new();
        let mut i: usize = 0;
        while i < self.events.len()
            invariant
                i <= self@.events.len(),
                out@.map_values(event_record_view()) == keep_where(
                    self@.events.take(i as int),
                    event_rec_of(broadcast_id@),
                ).map_values(event_record_view()),
            decreases self@.events.len() - i,
        {
            proof {
                lemma_keep_where_take_step(self@.events, event_rec_of(broadcast_id@), i as int);
            }
            let rec = &self.events[i];
            if rec.broadcast_id == *broadcast_id {
                let copied = BroadcastEventRecord {
                    event_id: rec.event_id.clone(),
                    broadcast_id: rec.broadcast_id.clone(),
                    event: clone_event(&rec.event),
                    created_at: rec.created_at,
                    version: rec.version,
                };
                let ghost out0 = out@;
                out.push(copied);
                proof {
                    lemma_map_values_push(
                        keep_where(self@.events.take(i as int), event_rec_of(broadcast_id@)),
                        event_record_view(),
                        self@.events[i as int],
                    );
                    assert(out@.map_values(event_record_view()) =~= out0.map_values(
                        event_record_view(),
                    ).push(event_record_view()(self@.events[i as int])));
                }
            }
            i += 1;
        }
        proof {
            assert(self@.events.take(i as int) =~= self@.events);
        }
        out
    }
}

/// The message type a `BroadcastCreated` event carries.
pub open spec fn event_mtype(e: BroadcastEvent) -> Option<BroadcastMessageType> {
    match e {
        BroadcastEvent::BroadcastCreated { message_type, .. } => message_type,
        _ => None,
    }
}

/// The text a `BroadcastCreated` event carries.
pub open spec fn created_message(e: BroadcastEvent) -> Seq<char> {
    match e {
        BroadcastEvent::BroadcastCreated { message, .. } => message@,
        _ => Seq::empty(),
    }
}

/// The media a `BroadcastCreated` event carries.
pub open spec fn created_media(e: BroadcastEvent) -> Option<Seq<MediaItem>> {
    match e {
        BroadcastEvent::BroadcastCreated { media_group, .. } => media_view(media_group),
        _ => None,
    }
}

} // verus!
