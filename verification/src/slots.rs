//! Capacity-bounded interview slots and bookings.
//!
//! The slot and booking tables of the durable store are modelled in memory.
//! The central invariant, kept by every operation, is that no slot ever holds
//! more bookings than its capacity, and that a recipient owns at most one
//! booking (booking again replaces the old one).
use vstd::prelude::*;
use crate::counting::{
    count_where, keep_where, lemma_count_where_bounds, lemma_count_where_keep_le,
    lemma_count_where_push, lemma_count_where_take_all, lemma_count_where_take_step,
    lemma_count_where_zero, lemma_keep_where_all, lemma_keep_where_take_all,
    lemma_keep_where_take_step, lemma_map_values_push,
};

verus! {

/// One interview slot: start time (UTC, epoch seconds), venue, capacity.
#[derive(Debug)]
pub struct Slot {
    pub id: i64,
    pub time: i64,
    pub place: String,
    pub max_user: u16,
}

impl Clone for Slot {
    fn clone(&self) -> (r: Slot)
        ensures
            r == *self,
    {
        Slot {
            id: self.id,
            time: self.time,
            place: self.place.clone(),
            max_user: self.max_user,
        }
    }
}

/// One booking row: a recipient holds a seat in a slot.
#[derive(Clone, Copy, Debug, PartialEq, Eq, Structural)]
pub struct Record {
    pub id: i64,
    pub telegram_id: i64,
    pub slot_id: i64,
    pub created_at: i64,
}

#[derive(Clone, Copy, Debug, PartialEq, Eq, Structural)]
pub enum BookingError {
    SlotFull { max_users: u16, current_count: u16 },
    SlotNotFound,
    UserNotFound,
}

#[derive(Clone, Copy, Debug, PartialEq, Eq, Structural)]
pub enum CreateSlotError {
    EmptyPlace,
    ZeroCapacity,
    StartInPast,
}

#[derive(Clone, Copy, Debug, PartialEq, Eq, Structural)]
pub enum UpdateSlotError {
    SlotNotFound,
    CapacityBelowBooked,
}

pub struct CreateSlotRequest {
    pub start_time: i64,
    pub place: String,
    pub max_users: u16,
}

pub struct UpdateSlotRequest {
    pub start_time: Option<i64>,
    pub place: Option<String>,
    pub max_users: Option<u16>,
}

/// The slot and booking tables.
pub struct SlotStore {
    pub slots: Vec<Slot>,
    pub records: Vec<Record>,
    pub next_slot_id: i64,
    pub next_record_id: i64,
}

/// Mathematical model of a [`SlotStore`].
pub struct SlotsModel {
    pub slots: Seq<Slot>,
    pub records: Seq<Record>,
    pub next_slot_id: int,
    pub next_record_id: int,
}

impl View for SlotStore {
    type V = SlotsModel;

    open spec fn view(&self) -> SlotsModel {
        SlotsModel {
            slots: self.slots@,
            records: self.records@,
            next_slot_id: self.next_slot_id as int,
            next_record_id: self.next_record_id as int,
        }
    }
}

/// Predicate: the booking is for slot `sid`.
pub open spec fn of_slot(sid: i64) -> spec_fn(Record) -> bool {
    |r: Record| r.slot_id == sid
}

/// Predicate: the booking belongs to recipient `tid`.
pub open spec fn of_user(tid: i64) -> spec_fn(Record) -> bool {
    |r: Record| r.telegram_id == tid
}

/// Predicate: the booking does not belong to recipient `tid`.
pub open spec fn not_of_user(tid: i64) -> spec_fn(Record) -> bool {
    |r: Record| r.telegram_id != tid
}

/// Predicate: the booking row has id `b`.
pub open spec fn with_record_id(b: i64) -> spec_fn(Record) -> bool {
    |r: Record| r.id == b
}

/// Predicate: the booking is not for slot `sid`.
pub open spec fn not_of_slot(sid: i64) -> spec_fn(Record) -> bool {
    |r: Record| r.slot_id != sid
}

/// Predicate: the booking row does not have id `b`.
pub open spec fn not_with_record_id(b: i64) -> spec_fn(Record) -> bool {
    |r: Record| r.id != b
}

/// The slot a field update leaves behind: absent fields keep their value.
pub open spec fn spec_updated_slot(
    s0: Slot,
    start_time: Option<i64>,
    place: Option<String>,
    max_users: Option<u16>,
) -> Slot {
    Slot {
        id: s0.id,
        time: match start_time {
            Some(t) => t,
            None => s0.time,
        },
        place: match place {
            Some(p) => p,
            None => s0.place,
        },
        max_user: match max_users {
            Some(m) => m,
            None => s0.max_user,
        },
    }
}

/// Number of bookings held against slot `sid`.
pub open spec fn booked_count(records: Seq<Record>, sid: i64) -> int {
    count_where(records, of_slot(sid))
}

pub open spec fn has_slot(slots: Seq<Slot>, sid: i64) -> bool {
    exists|i: int| 0 <= i < slots.len() && slots[i].id == sid
}

pub open spec fn slot_index(slots: Seq<Slot>, sid: i64) -> int {
    choose|i: int| 0 <= i < slots.len() && slots[i].id == sid
}

pub open spec fn slot_of(slots: Seq<Slot>, sid: i64) -> Slot {
    slots[slot_index(slots, sid)]
}

/// A recipient's bookings removed (the replace step of rebooking).
pub open spec fn spec_remove_user(records: Seq<Record>, tid: i64) -> Seq<Record> {
    keep_where(records, not_of_user(tid))
}

pub open spec fn has_booking(records: Seq<Record>, tid: i64) -> bool {
    exists|i: int| 0 <= i < records.len() && records[i].telegram_id == tid
}

impl SlotsModel {
    /// Well-formedness of the tables: unique slot ids, at most one booking
    /// per recipient, unique booking ids below the id counter, every booking
    /// referring to an existing slot, and no slot over capacity.
    pub open spec fn wf(&self) -> bool {
        &&& forall|i: int, j: int|
            0 <= i < j < self.slots.len() ==> #[trigger] self.slots[i].id
                != #[trigger] self.slots[j].id
        &&& forall|t: i64| #[trigger] count_where(self.records, of_user(t)) <= 1
        &&& forall|b: i64| #[trigger] count_where(self.records, with_record_id(b)) <= 1
        &&& forall|i: int|
            0 <= i < self.records.len() ==> #[trigger] self.records[i].id < self.next_record_id
        &&& forall|i: int|
            0 <= i < self.slots.len() ==> #[trigger] self.slots[i].id < self.next_slot_id
        &&& forall|i: int|
            0 <= i < self.records.len() ==> has_slot(self.slots, #[trigger] self.records[i].slot_id)
        &&& forall|i: int|
            0 <= i < self.slots.len() ==> booked_count(self.records, #[trigger] self.slots[i].id)
                <= self.slots[i].max_user
    }
}

/// The booking transition: drop any prior booking of `tid`, then seat `tid`
/// in `sid` only if the slot exists and has a free seat.
pub open spec fn spec_book(m: SlotsModel, tid: i64, sid: i64, now: i64) -> (SlotsModel, Result<
    (),
    BookingError,
>) {
    let cleared = spec_remove_user(m.records, tid);
    if !has_slot(m.slots, sid) {
        (SlotsModel { records: cleared, ..m }, Err(BookingError::SlotNotFound))
    } else {
        let cap = slot_of(m.slots, sid).max_user;
        if booked_count(cleared, sid) < cap {
            let fresh = Record {
                id: m.next_record_id as i64,
                telegram_id: tid,
                slot_id: sid,
                created_at: now,
            };
            (
                SlotsModel {
                    records: cleared.push(fresh),
                    next_record_id: m.next_record_id + 1,
                    ..m
                },
                Ok(()),
            )
        } else {
            (
                SlotsModel { records: cleared, ..m },
                Err(
                    BookingError::SlotFull {
                        max_users: cap,
                        current_count: booked_count(cleared, sid) as u16,
                    },
                ),
            )
        }
    }
}

impl SlotStore {
    pub fn new() -> (s: SlotStore)
        ensures
            s@.wf(),
            s@.slots.len() == 0,
            s@.records.len() == 0,
            s@.next_slot_id == 1,
            s@.next_record_id == 1,
    {
        SlotStore { slots: Vec::new(), records: Vec::new(), next_slot_id: 1, next_record_id: 1 }
    }

    /// Index of the slot with id `sid`, if any.
    fn find_slot(&self, sid: i64) -> (r: Option<usize>)
        ensures
            match r {
                Some(i) => i < self.slots@.len() && self.slots@[i as int].id == sid,
                None => !has_slot(self.slots@, sid),
            },
    {
        let mut i: usize = 0;
        while i < self.slots.len()
            invariant
                i <= self.slots@.len(),
                forall|j: int| 0 <= j < i ==> #[trigger] self.slots@[j].id != sid,
            decreases self.slots@.len() - i,
        {
            if self.slots[i].id == sid {
                return Some(i);
            }
            i += 1;
        }
        None
    }

    /// Number of bookings held against slot `sid`.
    pub fn count_booked(&self, sid: i64) -> (c: usize)
        ensures
            c == booked_count(self.records@, sid),
    {
        let mut c: usize = 0;
        let mut i: usize = 0;
        while i < self.records.len()
            invariant
                i <= self.records@.len(),
                c <= i,
                c == count_where(self.records@.take(i as int), of_slot(sid)),
            decreases self.records@.len() - i,
        {
            proof {
                lemma_count_where_take_step(self.records@, of_slot(sid), i as int);
            }
            if self.records[i].slot_id == sid {
                c += 1;
            }
            i += 1;
        }
        proof {
            lemma_count_where_take_all(self.records@, of_slot(sid));
        }
        c
    }

    /// All bookings of recipient `tid` removed, keeping everything else.
    fn remove_user_records(&mut self, tid: i64)
        ensures
            final(self)@.records == spec_remove_user(old(self)@.records, tid),
            final(self)@.slots == old(self)@.slots,
            final(self)@.next_slot_id == old(self)@.next_slot_id,
            final(self)@.next_record_id == old(self)@.next_record_id,
    {
        let ghost orig = self.records@;
        let mut kept: Vec<Record> = Vec::new();
        let mut i: usize = 0;
        while i < self.records.len()
            invariant
                i <= orig.len(),
                self.records@ == orig,
                kept@ == keep_where(orig.take(i as int), not_of_user(tid)),
            decreases orig.len() - i,
        {
            proof {
                lemma_keep_where_take_step(orig, not_of_user(tid), i as int);
            }
            let rec = self.records[i];
            if rec.telegram_id != tid {
                kept.push(rec);
            }
            i += 1;
        }
        proof {
            lemma_keep_where_take_all(orig, not_of_user(tid));
        }
        self.records = kept;
    }

    /// Capacity-safe booking create-or-replace: any prior booking of
    /// `telegram_id` is dropped, and the new seat is taken only if the slot
    /// still has room. The check and the insert are one atomic step of the
    /// store. Passing `None` just cancels the recipient's booking.
    pub fn create_or_update_booking(
        &mut self,
        telegram_id: i64,
        slot_id: Option<i64>,
        now: i64,
    ) -> (r: Result<(), BookingError>)
        requires
            old(self)@.wf(),
            old(self)@.next_record_id < i64::MAX,
        ensures
            final(self)@.wf(),
            final(self)@.slots == old(self)@.slots,
            match slot_id {
                Some(sid) => final(self)@ == spec_book(old(self)@, telegram_id, sid, now).0 && r
                    == spec_book(old(self)@, telegram_id, sid, now).1,
                None => final(self)@.records == spec_remove_user(old(self)@.records, telegram_id)
                    && r is Ok && final(self)@.next_record_id == old(self)@.next_record_id,
            },
            r is Ok && slot_id is Some ==> booked_count(final(self)@.records, slot_id.unwrap())
                == booked_count(spec_remove_user(old(self)@.records, telegram_id), slot_id.unwrap())
                + 1,
            !(r is Ok && slot_id is Some) ==> !has_booking(final(self)@.records, telegram_id),
            (match r {
                Err(BookingError::SlotFull { max_users, current_count }) => current_count
                    == max_users,
                _ => true,
            }),
    {
        let ghost pre = self@;
        self.remove_user_records(telegram_id);
        let ghost cleared = self@.records;
        proof {
            lemma_keep_where_all(pre.records, not_of_user(telegram_id));
            lemma_cleared_wf(pre, self@, telegram_id);
        }
        let sid = match slot_id {
            None => {
                return Ok(());
            },
            Some(sid) => sid,
        };
        let slot_idx = match self.find_slot(sid) {
            None => {
                return Err(BookingError::SlotNotFound);
            },
            Some(i) => i,
        };
        let cap = self.slots[slot_idx].max_user;
        proof {
            lemma_slot_of_agrees(self@.slots, sid, slot_idx as int);
        }
        let cnt = self.count_booked(sid);
        proof {
            lemma_count_where_keep_le(pre.records, not_of_user(telegram_id), of_slot(sid));
            lemma_count_where_bounds(cleared, of_slot(sid));
        }
        if cnt < cap as usize {
            let fresh = Record {
                id: self.next_record_id,
                telegram_id,
                slot_id: sid,
                created_at: now,
            };
            self.records.push(fresh);
            self.next_record_id += 1;
            proof {
                lemma_count_where_push(cleared, of_slot(sid), fresh);
                lemma_booked_wf(pre, cleared, self@, telegram_id, sid, now);
            }
            Ok(())
        } else {
            proof {
                assert(booked_count(pre.records, sid) <= cap);
                assert(booked_count(cleared, sid) == cnt as int);
            }
            Err(BookingError::SlotFull { max_users: cap, current_count: cnt as u16 })
        }
    }

    /// Creates a slot after validating the operator's input: the venue must
    /// be named, the capacity positive, and the start time not in the past.
    pub fn create_slot(&mut self, payload: CreateSlotRequest, now: i64) -> (r: Result<
        i64,
        CreateSlotError,
    >)
        requires
            old(self)@.wf(),
            old(self)@.next_slot_id < i64::MAX,
        ensures
            final(self)@.wf(),
            final(self)@.records == old(self)@.records,
            final(self)@.next_record_id == old(self)@.next_record_id,
            payload.place@.len() == 0 ==> r == Err::<i64, CreateSlotError>(
                CreateSlotError::EmptyPlace,
            ),
            payload.place@.len() > 0 && payload.max_users == 0 ==> r == Err::<i64, CreateSlotError>(
                CreateSlotError::ZeroCapacity,
            ),
            payload.place@.len() > 0 && payload.max_users > 0 && payload.start_time < now ==> r
                == Err::<i64, CreateSlotError>(CreateSlotError::StartInPast),
            r is Err ==> final(self)@ == old(self)@,
            r is Ok ==> r == Ok::<i64, CreateSlotError>(old(self).next_slot_id) && final(self)@.slots
                == old(self)@.slots.push(
                Slot {
                    id: old(self).next_slot_id,
                    time: payload.start_time,
                    place: payload.place,
                    max_user: payload.max_users,
                },
            ) && final(self)@.next_slot_id == old(self)@.next_slot_id + 1,
            r is Ok <==> (payload.place@.len() > 0 && payload.max_users > 0 && payload.start_time
                >= now),
    {
        if payload.place.as_str().unicode_len() == 0 {
            return Err(CreateSlotError::EmptyPlace);
        }
        if payload.max_users == 0 {
            return Err(CreateSlotError::ZeroCapacity);
        }
        if payload.start_time < now {
            return Err(CreateSlotError::StartInPast);
        }
        let ghost pre = self@;
        let id = self.next_slot_id;
        let fresh = Slot {
            id,
            time: payload.start_time,
            place: payload.place,
            max_user: payload.max_users,
        };
        self.slots.push(fresh);
        self.next_slot_id += 1;
        proof {
            let post = self@;
            assert forall|i: int|
                0 <= i < post.records.len() implies has_slot(
                post.slots,
                #[trigger] post.records[i].slot_id,
            ) by {
                let k = choose|k: int|
                    0 <= k < pre.slots.len() && pre.slots[k].id == pre.records[i].slot_id;
                assert(post.slots[k].id == post.records[i].slot_id);
            }
            assert forall|i: int|
                0 <= i < post.slots.len() implies booked_count(
                post.records,
                #[trigger] post.slots[i].id,
            ) <= post.slots[i].max_user by {
                if i == post.slots.len() - 1 {
                    assert forall|j: int|
                        0 <= j < post.records.len() implies !(of_slot(post.slots[i].id)(
                        #[trigger] post.records[j],
                    )) by {
                        let k = choose|k: int|
                            0 <= k < pre.slots.len() && pre.slots[k].id == pre.records[j].slot_id;
                        assert(pre.slots[k].id < pre.next_slot_id);
                    }
                    lemma_count_where_zero(post.records, of_slot(post.slots[i].id));
                }
            }
        }
        Ok(id)
    }

    /// Field-wise slot update. A capacity update strictly below the current
    /// booked count is rejected, so the capacity invariant is preserved.
    pub fn update_slot(&mut self, slot_id: i64, payload: UpdateSlotRequest) -> (r: Result<
        (),
        UpdateSlotError,
    >)
        requires
            old(self)@.wf(),
        ensures
            final(self)@.wf(),
            final(self)@.records == old(self)@.records,
            final(self)@.next_record_id == old(self)@.next_record_id,
            final(self)@.next_slot_id == old(self)@.next_slot_id,
            r == Err::<(), UpdateSlotError>(UpdateSlotError::SlotNotFound) <==> !has_slot(
                old(self)@.slots,
                slot_id,
            ),
            r == Err::<(), UpdateSlotError>(UpdateSlotError::CapacityBelowBooked) <==> (has_slot(
                old(self)@.slots,
                slot_id,
            ) && payload.max_users is Some && (payload.max_users.unwrap() as int) < booked_count(
                old(self)@.records,
                slot_id,
            )),
            r is Err ==> final(self)@ == old(self)@,
            r is Ok ==> final(self)@.slots == old(self)@.slots.update(
                slot_index(old(self)@.slots, slot_id),
                spec_updated_slot(
                    slot_of(old(self)@.slots, slot_id),
                    payload.start_time,
                    payload.place,
                    payload.max_users,
                ),
            ),
    {
        let ghost pre = self@;
        let idx = match self.find_slot(slot_id) {
            None => {
                return Err(UpdateSlotError::SlotNotFound);
            },
            Some(i) => i,
        };
        proof {
            lemma_slot_of_agrees(pre.slots, slot_id, idx as int);
        }
        if let Some(m) = payload.max_users {
            let booked = self.count_booked(slot_id);
            proof {
                lemma_count_where_bounds(pre.records, of_slot(slot_id));
            }
            if (m as usize) < booked {
                return Err(UpdateSlotError::CapacityBelowBooked);
            }
        }
        let old_slot = self.slots.remove(idx);
        let updated = Slot {
            id: old_slot.id,
            time: match payload.start_time {
                Some(t) => t,
                None => old_slot.time,
            },
            place: match payload.place {
                Some(p) => p,
                None => old_slot.place,
            },
            max_user: match payload.max_users {
                Some(m) => m,
                None => old_slot.max_user,
            },
        };
        self.slots.insert(idx, updated);
        proof {
            assert(self@.slots =~= pre.slots.update(
                idx as int,
                spec_updated_slot(
                    slot_of(pre.slots, slot_id),
                    payload.start_time,
                    payload.place,
                    payload.max_users,
                ),
            ));
            let post = self@;
            assert forall|i: int|
                0 <= i < post.records.len() implies has_slot(
                post.slots,
                #[trigger] post.records[i].slot_id,
            ) by {
                let k = choose|k: int|
                    0 <= k < pre.slots.len() && pre.slots[k].id == pre.records[i].slot_id;
                assert(post.slots[k].id == post.records[i].slot_id);
            }
            assert forall|i: int|
                0 <= i < post.slots.len() implies booked_count(
                post.records,
                #[trigger] post.slots[i].id,
            ) <= post.slots[i].max_user by {
                assert(pre.slots[i].id == post.slots[i].id);
            }
        }
        Ok(())
    }

    /// Deletes a slot; its bookings are deleted with it. Deleting an absent
    /// slot changes nothing.
    pub fn delete_slot(&mut self, slot_id: i64)
        requires
            old(self)@.wf(),
        ensures
            final(self)@.wf(),
            final(self)@.next_record_id == old(self)@.next_record_id,
            final(self)@.next_slot_id == old(self)@.next_slot_id,
            !has_slot(old(self)@.slots, slot_id) ==> final(self)@ == old(self)@,
            has_slot(old(self)@.slots, slot_id) ==> final(self)@.slots == old(self)@.slots.remove(
                slot_index(old(self)@.slots, slot_id),
            ),
            final(self)@.records == keep_where(old(self)@.records, not_of_slot(slot_id)),
            !has_slot(final(self)@.slots, slot_id),
            !has_booking_for_slot(final(self)@.records, slot_id),
    {
        let ghost pre = self@;
        let idx = match self.find_slot(slot_id) {
            None => {
                proof {
                    assert forall|j: int|
                        0 <= j < pre.records.len() implies not_of_slot(slot_id)(
                        #[trigger] pre.records[j],
                    ) by {
                        assert(has_slot(pre.slots, pre.records[j].slot_id));
                    }
                    lemma_keep_where_true_id(pre.records, not_of_slot(slot_id));
                }
                return ;
            },
            Some(i) => i,
        };
        proof {
            lemma_slot_of_agrees(pre.slots, slot_id, idx as int);
        }
        let removed = self.slots.remove(idx);
        let ghost mid_slots = self@.slots;
        let mut kept: Vec<Record> = Vec::new();
        let mut i: usize = 0;
        while i < self.records.len()
            invariant
                i <= self.records@.len(),
                self.records@ == pre.records,
                kept@ == keep_where(pre.records.take(i as int), not_of_slot(slot_id)),
            decreases self.records@.len() - i,
        {
            proof {
                lemma_keep_where_take_step(pre.records, not_of_slot(slot_id), i as int);
            }
            let rec = self.records[i];
            if rec.slot_id != slot_id {
                kept.push(rec);
            }
            i += 1;
        }
        proof {
            lemma_keep_where_take_all(pre.records, not_of_slot(slot_id));
        }
        self.records = kept;
        proof {
            let post = self@;
            let q = not_of_slot(slot_id);
            lemma_keep_where_all(pre.records, q);
            assert forall|a: int, b: int|
                0 <= a < b < post.slots.len() implies #[trigger] post.slots[a].id
                != #[trigger] post.slots[b].id by {
                if b < idx as int {
                } else if a < idx as int {
                    assert(post.slots[b] == pre.slots[b + 1]);
                } else {
                    assert(post.slots[a] == pre.slots[a + 1]);
                    assert(post.slots[b] == pre.slots[b + 1]);
                }
            }
            assert forall|t: i64| #[trigger] count_where(post.records, of_user(t)) <= 1 by {
                lemma_count_where_keep_le(pre.records, q, of_user(t));
            }
            assert forall|b: i64| #[trigger] count_where(post.records, with_record_id(b)) <= 1 by {
                lemma_count_where_keep_le(pre.records, q, with_record_id(b));
            }
            assert forall|i2: int|
                0 <= i2 < post.records.len() implies #[trigger] post.records[i2].id
                < post.next_record_id by {
                assert(pre.records.contains(post.records[i2]));
                let k = choose|k: int|
                    0 <= k < pre.records.len() && pre.records[k] == post.records[i2];
                assert(pre.records[k].id < pre.next_record_id);
            }
            assert forall|i2: int|
                0 <= i2 < post.slots.len() implies #[trigger] post.slots[i2].id
                < post.next_slot_id by {
                if i2 < idx as int {
                } else {
                    assert(post.slots[i2] == pre.slots[i2 + 1]);
                }
            }
            assert(!has_slot(post.slots, slot_id)) by {
                assert forall|k: int| 0 <= k < post.slots.len() implies #[trigger] post.slots[k].id
                    != slot_id by {
                    if k < idx as int {
                        assert(pre.slots[k].id != pre.slots[idx as int].id);
                    } else {
                        assert(post.slots[k] == pre.slots[k + 1]);
                        assert(pre.slots[idx as int].id != pre.slots[k + 1].id);
                    }
                }
            }
            assert forall|i2: int|
                0 <= i2 < post.records.len() implies has_slot(
                post.slots,
                #[trigger] post.records[i2].slot_id,
            ) by {
                assert(pre.records.contains(post.records[i2]));
                let k = choose|k: int|
                    0 <= k < pre.records.len() && pre.records[k] == post.records[i2];
                assert(has_slot(pre.slots, pre.records[k].slot_id));
                let k2 = choose|k2: int|
                    0 <= k2 < pre.slots.len() && pre.slots[k2].id == pre.records[k].slot_id;
                assert(pre.records[k].slot_id != slot_id);
                if k2 < idx as int {
                    assert(post.slots[k2].id == post.records[i2].slot_id);
                } else {
                    assert(k2 != idx as int);
                    assert(post.slots[k2 - 1].id == post.records[i2].slot_id);
                }
            }
            assert forall|i2: int|
                0 <= i2 < post.slots.len() implies booked_count(
                post.records,
                #[trigger] post.slots[i2].id,
            ) <= post.slots[i2].max_user by {
                lemma_count_where_keep_le(pre.records, q, of_slot(post.slots[i2].id));
                if i2 < idx as int {
                } else {
                    assert(post.slots[i2] == pre.slots[i2 + 1]);
                }
            }
            assert(!has_booking_for_slot(post.records, slot_id));
        }
    }

    /// Deletes one booking row by id. Deleting an absent row changes nothing.
    pub fn delete_booking(&mut self, booking_id: i64)
        requires
            old(self)@.wf(),
        ensures
            final(self)@.wf(),
            final(self)@.slots == old(self)@.slots,
            final(self)@.next_record_id == old(self)@.next_record_id,
            final(self)@.next_slot_id == old(self)@.next_slot_id,
            final(self)@.records == keep_where(old(self)@.records, not_with_record_id(booking_id)),
    {
        let ghost pre = self@;
        let mut kept: Vec<Record> = Vec::new();
        let mut i: usize = 0;
        while i < self.records.len()
            invariant
                i <= self.records@.len(),
                self.records@ == pre.records,
                self.slots@ == pre.slots,
                kept@ == keep_where(pre.records.take(i as int), not_with_record_id(booking_id)),
            decreases self.records@.len() - i,
        {
            proof {
                lemma_keep_where_take_step(pre.records, not_with_record_id(booking_id), i as int);
            }
            let rec = self.records[i];
            if rec.id != booking_id {
                kept.push(rec);
            }
            i += 1;
        }
        proof {
            lemma_keep_where_take_all(pre.records, not_with_record_id(booking_id));
        }
        self.records = kept;
        proof {
            let post = self@;
            let q = not_with_record_id(booking_id);
            lemma_keep_where_all(pre.records, q);
            assert forall|t: i64| #[trigger] count_where(post.records, of_user(t)) <= 1 by {
                lemma_count_where_keep_le(pre.records, q, of_user(t));
            }
            assert forall|b: i64| #[trigger] count_where(post.records, with_record_id(b)) <= 1 by {
                lemma_count_where_keep_le(pre.records, q, with_record_id(b));
            }
            assert forall|i2: int|
                0 <= i2 < post.records.len() implies #[trigger] post.records[i2].id
                < post.next_record_id by {
                assert(pre.records.contains(post.records[i2]));
                let k = choose|k: int|
                    0 <= k < pre.records.len() && pre.records[k] == post.records[i2];
                assert(pre.records[k].id < pre.next_record_id);
            }
            assert forall|i2: int|
                0 <= i2 < post.records.len() implies has_slot(
                post.slots,
                #[trigger] post.records[i2].slot_id,
            ) by {
                assert(pre.records.contains(post.records[i2]));
                let k = choose|k: int|
                    0 <= k < pre.records.len() && pre.records[k] == post.records[i2];
                assert(has_slot(pre.slots, pre.records[k].slot_id));
            }
            assert forall|i2: int|
                0 <= i2 < post.slots.len() implies booked_count(
                post.records,
                #[trigger] post.slots[i2].id,
            ) <= post.slots[i2].max_user by {
                lemma_count_where_keep_le(pre.records, q, of_slot(post.slots[i2].id));
            }
        }
    }

    /// Deletes a recipient's bookings. The recipient's role, if any, lives
    /// in the vote store and is cleared there.
    pub fn delete_user(&mut self, telegram_id: i64)
        requires
            old(self)@.wf(),
        ensures
            final(self)@.wf(),
            final(self)@.slots == old(self)@.slots,
            final(self)@.next_record_id == old(self)@.next_record_id,
            final(self)@.next_slot_id == old(self)@.next_slot_id,
            final(self)@.records == spec_remove_user(old(self)@.records, telegram_id),
            !has_booking(final(self)@.records, telegram_id),
    {
        let ghost pre = self@;
        self.remove_user_records(telegram_id);
        proof {
            lemma_cleared_wf(pre, self@, telegram_id);
        }
    }
}

pub open spec fn has_booking_for_slot(records: Seq<Record>, sid: i64) -> bool {
    exists|i: int| 0 <= i < records.len() && records[i].slot_id == sid
}

/// A booking through the operator surface: recipient plus chosen slot.
#[derive(Clone, Copy, Debug, PartialEq, Eq, Structural)]
pub struct Booking {
    pub slot_id: i64,
    pub telegram_id: i64,
}

pub struct CreateBookingRequest {
    pub slot_id: i64,
    pub telegram_id: i64,
}

/// An entry of the daily reminder run: who is booked, when and where.
#[derive(Debug)]
pub struct BookingInfo {
    pub telegram_id: i64,
    pub time: i64,
    pub place: String,
}

/// Chronological order, ties broken by slot id. Slot ids are unique, so a
/// sequence sorted this way is fully determined by its multiset of slots.
pub open spec fn slot_le(a: Slot, b: Slot) -> bool {
    a.time < b.time || (a.time == b.time && a.id <= b.id)
}

pub open spec fn sorted_by_time(s: Seq<Slot>) -> bool {
    forall|i: int, j: int| 0 <= i < j < s.len() ==> slot_le(#[trigger] s[i], #[trigger] s[j])
}

/// Predicate: the slot still has a free seat.
pub open spec fn slot_open(records: Seq<Record>) -> spec_fn(Slot) -> bool {
    |s: Slot| booked_count(records, s.id) < s.max_user
}

/// Predicate: the booking's slot starts inside the window `[lo, hi)`.
pub open spec fn in_window(slots: Seq<Slot>, lo: i64, hi: i64) -> spec_fn(Record) -> bool {
    |r: Record| lo <= slot_of(slots, r.slot_id).time < hi
}

/// The reminder entry a booking row expands to.
pub open spec fn booking_info_of(slots: Seq<Slot>) -> spec_fn(Record) -> BookingInfo {
    |r: Record| BookingInfo {
        telegram_id: r.telegram_id,
        time: slot_of(slots, r.slot_id).time,
        place: slot_of(slots, r.slot_id).place,
    }
}

/// Selection sort into chronological order (ties by slot id).
pub fn sort_slots_by_time(input: Vec<Slot>) -> (out: Vec<Slot>)
    ensures
        sorted_by_time(out@),
        out@.to_multiset() == input@.to_multiset(),
        out@.len() == input@.len(),
{
    broadcast use vstd::seq_lib::group_to_multiset_ensures;

    let ghost orig = input@;
    let mut rest = input;
    let mut out: Vec<Slot> = Vec::new();
    while rest.len() > 0
        invariant
            sorted_by_time(out@),
            out@.to_multiset().add(rest@.to_multiset()) == orig.to_multiset(),
            out@.len() + rest@.len() == orig.len(),
            forall|i: int, j: int|
                0 <= i < out@.len() && 0 <= j < rest@.len() ==> slot_le(
                    #[trigger] out@[i],
                    #[trigger] rest@[j],
                ),
        decreases rest@.len(),
    {
        broadcast use vstd::seq_lib::group_to_multiset_ensures;

        let mut m: usize = 0;
        let mut k: usize = 1;
        while k < rest.len()
            invariant
                m < k <= rest@.len(),
                rest@.len() > 0,
                forall|j: int| 0 <= j < k ==> slot_le(rest@[m as int], #[trigger] rest@[j]),
            decreases rest@.len() - k,
        {
            if rest[k].time < rest[m].time || (rest[k].time == rest[m].time && rest[k].id
                < rest[m].id) {
                m = k;
            }
            k += 1;
        }
        let ghost pre_out = out@;
        let ghost pre_rest = rest@;
        let x = rest.remove(m);
        out.push(x);
        proof {
            assert(out@.to_multiset().add(rest@.to_multiset()) =~= pre_out.to_multiset().add(
                pre_rest.to_multiset(),
            ));
            assert forall|i: int, j: int|
                0 <= i < out@.len() && 0 <= j < rest@.len() implies slot_le(
                #[trigger] out@[i],
                #[trigger] rest@[j],
            ) by {
                if j < m as int {
                    assert(rest@[j] == pre_rest[j]);
                } else {
                    assert(rest@[j] == pre_rest[j + 1]);
                }
                if i < pre_out.len() {
                    assert(out@[i] == pre_out[i]);
                } else {
                    assert(out@[i] == x);
                }
            }
        }
    }
    out
}

impl SlotStore {
    /// The slot with id `slot_id`, with its current booked count.
    pub fn get_slot(&self, slot_id: i64) -> (r: Option<(Slot, usize)>)
        requires
            self@.wf(),
        ensures
            r is Some <==> has_slot(self@.slots, slot_id),
            r is Some ==> r.unwrap().0 == slot_of(self@.slots, slot_id) && r.unwrap().1
                == booked_count(self@.records, slot_id),
    {
        let idx = match self.find_slot(slot_id) {
            None => {
                return None;
            },
            Some(i) => i,
        };
        proof {
            lemma_slot_of_agrees(self@.slots, slot_id, idx as int);
        }
        let cnt = self.count_booked(slot_id);
        Some((self.slots[idx].clone(), cnt))
    }

    /// All slots that still have a free seat, in table order.
    pub fn get_available_slots(&self) -> (r: Vec<Slot>)
        requires
            self@.wf(),
        ensures
            r@ == keep_where(self@.slots, slot_open(self@.records)),
    {
        let ghost slots0 = self.slots@;
        let mut out: Vec<Slot> = Vec::new();
        let mut i: usize = 0;
        while i < self.slots.len()
            invariant
                self@.wf(),
                i <= slots0.len(),
                self.slots@ == slots0,
                out@ == keep_where(slots0.take(i as int), slot_open(self@.records)),
            decreases slots0.len() - i,
        {
            proof {
                lemma_keep_where_take_step(slots0, slot_open(self@.records), i as int);
            }
            let cnt = self.count_booked(self.slots[i].id);
            if cnt < self.slots[i].max_user as usize {
                out.push(self.slots[i].clone());
            }
            i += 1;
        }
        proof {
            lemma_keep_where_take_all(slots0, slot_open(self@.records));
        }
        out
    }

    /// Every slot, in chronological order.
    pub fn get_all_slots(&self) -> (r: Vec<Slot>)
        requires
            self@.wf(),
        ensures
            sorted_by_time(r@),
            r@.to_multiset() == self@.slots.to_multiset(),
            r@.len() == self@.slots.len(),
    {
        let mut all: Vec<Slot> = Vec::new();
        let mut i: usize = 0;
        while i < self.slots.len()
            invariant
                i <= self.slots@.len(),
                all@ == self.slots@.take(i as int),
            decreases self.slots@.len() - i,
        {
            all.push(self.slots[i].clone());
            proof {
                assert(all@ =~= self.slots@.take(i + 1));
            }
            i += 1;
        }
        proof {
            assert(all@ =~= self.slots@);
        }
        sort_slots_by_time(all)
    }

    /// Every booking row, in table order.
    pub fn get_all_bookings(&self) -> (r: Vec<Record>)
        ensures
            r@ == self@.records,
    {
        let mut out: Vec<Record> = Vec::new();
        let mut i: usize = 0;
        while i < self.records.len()
            invariant
                i <= self.records@.len(),
                out@ == self.records@.take(i as int),
            decreases self.records@.len() - i,
        {
            out.push(self.records[i]);
            proof {
                assert(out@ =~= self.records@.take(i + 1));
            }
            i += 1;
        }
        proof {
            assert(out@ =~= self.records@);
        }
        out
    }

    /// Reminder listing: one entry per booking whose slot starts inside
    /// `[window_start, window_end)`, in table order.
    pub fn get_todays_bookings(&self, window_start: i64, window_end: i64) -> (r: Vec<BookingInfo>)
        requires
            self@.wf(),
        ensures
            r@ == keep_where(self@.records, in_window(self@.slots, window_start, window_end))
                .map_values(booking_info_of(self@.slots)),
    {
        let mut out: Vec<BookingInfo> = Vec::new();
        let mut i: usize = 0;
        while i < self.records.len()
            invariant
                self@.wf(),
                i <= self@.records.len(),
                out@ == keep_where(
                    self@.records.take(i as int),
                    in_window(self@.slots, window_start, window_end),
                ).map_values(booking_info_of(self@.slots)),
            decreases self@.records.len() - i,
        {
            proof {
                lemma_keep_where_take_step(
                    self@.records,
                    in_window(self@.slots, window_start, window_end),
                    i as int,
                );
            }
            let rec = self.records[i];
            proof {
                assert(rec == self@.records[i as int]);
                assert(has_slot(self@.slots, self@.records[i as int].slot_id));
            }
            let idx = match self.find_slot(rec.slot_id) {
                None => {
                    unreached()
                },
                Some(ix) => ix,
            };
            proof {
                lemma_slot_of_agrees(self@.slots, rec.slot_id, idx as int);
            }
            let slot = &self.slots[idx];
            if window_start <= slot.time && slot.time < window_end {
                out.push(
                    BookingInfo {
                        telegram_id: rec.telegram_id,
                        time: slot.time,
                        place: slot.place.clone(),
                    },
                );
                proof {
                    lemma_map_values_push(
                        keep_where(
                            self@.records.take(i as int),
                            in_window(self@.slots, window_start, window_end),
                        ),
                        booking_info_of(self@.slots),
                        rec,
                    );
                    assert(booking_info_of(self@.slots)(rec) == BookingInfo {
                        telegram_id: rec.telegram_id,
                        time: slot_of(self@.slots, rec.slot_id).time,
                        place: slot_of(self@.slots, rec.slot_id).place,
                    });
                }
            }
            i += 1;
        }
        proof {
            assert(self@.records.take(self@.records.len() as int) =~= self@.records);
        }
        out
    }

    /// Whether the recipient currently holds a booking.
    pub fn has_booking_for(&self, telegram_id: i64) -> (b: bool)
        ensures
            b == has_booking(self@.records, telegram_id),
    {
        let mut i: usize = 0;
        while i < self.records.len()
            invariant
                i <= self@.records.len(),
                forall|j: int| 0 <= j < i ==> #[trigger] self@.records[j].telegram_id != telegram_id,
            decreases self@.records.len() - i,
        {
            if self.records[i].telegram_id == telegram_id {
                return true;
            }
            i += 1;
        }
        false
    }

    /// Books through the operator surface; same semantics as
    /// [`Self::create_or_update_booking`] with a slot given.
    pub fn create_booking(&mut self, payload: CreateBookingRequest, now: i64) -> (r: Result<
        Booking,
        BookingError,
    >)
        requires
            old(self)@.wf(),
            old(self)@.next_record_id < i64::MAX,
        ensures
            final(self)@.wf(),
            final(self)@ == spec_book(old(self)@, payload.telegram_id, payload.slot_id, now).0,
            (match r {
                Ok(b) => spec_book(old(self)@, payload.telegram_id, payload.slot_id, now).1 is Ok
                    && b == (Booking { slot_id: payload.slot_id, telegram_id: payload.telegram_id }),
                Err(e) => spec_book(old(self)@, payload.telegram_id, payload.slot_id, now).1
                    == Err::<(), BookingError>(e),
            }),
    {
        match self.create_or_update_booking(payload.telegram_id, Some(payload.slot_id), now) {
            Ok(()) => Ok(Booking { slot_id: payload.slot_id, telegram_id: payload.telegram_id }),
            Err(e) => Err(e),
        }
    }
}

/// The capacity invariant, named: in a well-formed store no slot ever
/// holds more bookings than its capacity.
pub proof fn lemma_capacity_never_exceeded(m: SlotsModel, i: int)
    requires
        m.wf(),
        0 <= i < m.slots.len(),
    ensures
        booked_count(m.records, m.slots[i].id) <= m.slots[i].max_user,
{
}

/// A run of booking attempts applied one after another, as contending
/// requests serialise against the store; the second component counts the
/// successes.
pub open spec fn spec_book_run(m: SlotsModel, tids: Seq<i64>, sid: i64, now: i64) -> (
    SlotsModel,
    int,
)
    decreases tids.len(),
{
    if tids.len() == 0 {
        (m, 0)
    } else {
        let r0 = spec_book_run(m, tids.drop_last(), sid, now);
        let step = spec_book(r0.0, tids.last(), sid, now);
        (
            step.0,
            r0.1 + if step.1 is Ok {
                1int
            } else {
                0int
            },
        )
    }
}

/// Capacity under contention: when distinct recipients with no prior
/// bookings all go for one fresh slot, exactly as many succeed as the slot
/// has seats — every other attempt fails — and the slot ends exactly at
/// the smaller of the two counts.
pub proof fn lemma_booking_contention(m: SlotsModel, tids: Seq<i64>, sid: i64, now: i64)
    requires
        has_slot(m.slots, sid),
        booked_count(m.records, sid) == 0,
        forall|i: int, j: int| 0 <= i < j < tids.len() ==> #[trigger] tids[i] != #[trigger] tids[j],
        forall|i: int| 0 <= i < tids.len() ==> !has_booking(m.records, #[trigger] tids[i]),
    ensures
        spec_book_run(m, tids, sid, now).1 == (if tids.len() < slot_of(m.slots, sid).max_user as int {
            tids.len() as int
        } else {
            slot_of(m.slots, sid).max_user as int
        }),
        booked_count(spec_book_run(m, tids, sid, now).0.records, sid) == (if tids.len() < slot_of(
            m.slots,
            sid,
        ).max_user as int {
            tids.len() as int
        } else {
            slot_of(m.slots, sid).max_user as int
        }),
        spec_book_run(m, tids, sid, now).0.slots == m.slots,
        forall|t: i64|
            #[trigger] has_booking(spec_book_run(m, tids, sid, now).0.records, t) ==> has_booking(
                m.records,
                t,
            ) || tids.contains(t),
    decreases tids.len(),
{
    let cap = slot_of(m.slots, sid).max_user as int;
    if tids.len() == 0 {
    } else {
        let prefix = tids.drop_last();
        let t = tids.last();
        lemma_booking_contention(m, prefix, sid, now);
        let r0 = spec_book_run(m, prefix, sid, now);
        assert(forall|i: int| 0 <= i < prefix.len() ==> prefix[i] == tids[i]);
        assert(!has_booking(r0.0.records, t)) by {
            if has_booking(r0.0.records, t) {
                if prefix.contains(t) {
                    let k = choose|k: int| 0 <= k < prefix.len() && prefix[k] == t;
                    assert(tids[k] == t);
                    assert(tids[tids.len() - 1] == t);
                    assert(false);
                } else {
                    assert(has_booking(m.records, t));
                    assert(!has_booking(m.records, tids[tids.len() - 1]));
                    assert(false);
                }
            }
        }
        assert forall|i: int| 0 <= i < r0.0.records.len() implies not_of_user(t)(
            #[trigger] r0.0.records[i],
        ) by {
            assert(!(r0.0.records[i].telegram_id == t));
        }
        lemma_keep_where_true_id(r0.0.records, not_of_user(t));
        let cleared = spec_remove_user(r0.0.records, t);
        assert(cleared == r0.0.records);
        assert(slot_of(r0.0.slots, sid) == slot_of(m.slots, sid));
        let step = spec_book(r0.0, t, sid, now);
        if booked_count(cleared, sid) < cap {
            let fresh = Record {
                id: r0.0.next_record_id as i64,
                telegram_id: t,
                slot_id: sid,
                created_at: now,
            };
            lemma_count_where_push(cleared, of_slot(sid), fresh);
            assert forall|t2: i64|
                #[trigger] has_booking(step.0.records, t2) implies has_booking(m.records, t2)
                || tids.contains(t2) by {
                let k = choose|k: int|
                    0 <= k < step.0.records.len() && step.0.records[k].telegram_id == t2;
                if k < cleared.len() {
                    assert(has_booking(r0.0.records, t2));
                    if prefix.contains(t2) {
                        let k2 = choose|k2: int| 0 <= k2 < prefix.len() && prefix[k2] == t2;
                        assert(tids[k2] == t2);
                    }
                } else {
                    assert(step.0.records[k] == fresh);
                    assert(tids[tids.len() - 1] == t2);
                }
            }
        } else {
            assert(booked_count(cleared, sid) == cap);
        }
    }
}

/// Keeping everything keeps the sequence.
pub proof fn lemma_keep_where_true_id(s: Seq<Record>, p: spec_fn(Record) -> bool)
    requires
        forall|i: int| 0 <= i < s.len() ==> p(#[trigger] s[i]),
    ensures
        keep_where(s, p) == s,
    decreases s.len(),
{
    if s.len() > 0 {
        assert(forall|i: int| 0 <= i < s.len() - 1 ==> s.drop_last()[i] == s[i]);
        lemma_keep_where_true_id(s.drop_last(), p);
        assert(keep_where(s, p) =~= s);
    }
}

/// Removing one recipient's bookings preserves well-formedness, and leaves
/// that recipient with no booking.
proof fn lemma_cleared_wf(pre: SlotsModel, post: SlotsModel, tid: i64)
    requires
        pre.wf(),
        post.slots == pre.slots,
        post.next_slot_id == pre.next_slot_id,
        post.next_record_id == pre.next_record_id,
        post.records == spec_remove_user(pre.records, tid),
    ensures
        post.wf(),
        !has_booking(post.records, tid),
{
    let q = not_of_user(tid);
    lemma_keep_where_all(pre.records, q);
    assert forall|t: i64| #[trigger] count_where(post.records, of_user(t)) <= 1 by {
        lemma_count_where_keep_le(pre.records, q, of_user(t));
    }
    assert forall|b: i64| #[trigger] count_where(post.records, with_record_id(b)) <= 1 by {
        lemma_count_where_keep_le(pre.records, q, with_record_id(b));
    }
    assert forall|i: int|
        0 <= i < post.records.len() implies #[trigger] post.records[i].id < post.next_record_id by {
        assert(pre.records.contains(post.records[i]));
        let k = choose|k: int| 0 <= k < pre.records.len() && pre.records[k] == post.records[i];
        assert(pre.records[k].id < pre.next_record_id);
    }
    assert forall|i: int|
        0 <= i < post.records.len() implies has_slot(
        post.slots,
        #[trigger] post.records[i].slot_id,
    ) by {
        assert(pre.records.contains(post.records[i]));
        let k = choose|k: int| 0 <= k < pre.records.len() && pre.records[k] == post.records[i];
        assert(has_slot(pre.slots, pre.records[k].slot_id));
    }
    assert forall|i: int|
        0 <= i < post.slots.len() implies booked_count(post.records, #[trigger] post.slots[i].id)
        <= post.slots[i].max_user by {
        lemma_count_where_keep_le(pre.records, q, of_slot(post.slots[i].id));
    }
}

/// The chosen slot index agrees with any witness index, by uniqueness of ids.
proof fn lemma_slot_of_agrees(slots: Seq<Slot>, sid: i64, i: int)
    requires
        0 <= i < slots.len(),
        slots[i].id == sid,
        forall|a: int, b: int|
            0 <= a < b < slots.len() ==> #[trigger] slots[a].id != #[trigger] slots[b].id,
    ensures
        has_slot(slots, sid),
        slot_index(slots, sid) == i,
        slot_of(slots, sid) == slots[i],
{
    assert(has_slot(slots, sid));
    let j = slot_index(slots, sid);
    if i < j {
        assert(slots[i].id != slots[j].id);
    } else if j < i {
        assert(slots[j].id != slots[i].id);
    }
}

/// Seating a recipient in a slot with a free seat preserves well-formedness.
proof fn lemma_booked_wf(
    pre: SlotsModel,
    cleared: Seq<Record>,
    post: SlotsModel,
    tid: i64,
    sid: i64,
    now: i64,
)
    requires
        pre.wf(),
        cleared == spec_remove_user(pre.records, tid),
        has_slot(pre.slots, sid),
        booked_count(cleared, sid) < slot_of(pre.slots, sid).max_user,
        post.slots == pre.slots,
        post.next_slot_id == pre.next_slot_id,
        i64::MIN <= pre.next_record_id < i64::MAX,
        post.next_record_id == pre.next_record_id + 1,
        post.records == cleared.push(
            Record {
                id: pre.next_record_id as i64,
                telegram_id: tid,
                slot_id: sid,
                created_at: now,
            },
        ),
    ensures
        post.wf(),
{
    let q = not_of_user(tid);
    let fresh = Record {
        id: pre.next_record_id as i64,
        telegram_id: tid,
        slot_id: sid,
        created_at: now,
    };
    lemma_keep_where_all(pre.records, q);
    assert forall|t: i64| #[trigger] count_where(post.records, of_user(t)) <= 1 by {
        lemma_count_where_push(cleared, of_user(t), fresh);
        lemma_count_where_keep_le(pre.records, q, of_user(t));
        if t == tid {
            lemma_count_where_zero(cleared, of_user(t));
        } else {
            lemma_count_where_bounds(cleared, of_user(t));
        }
    }
    assert forall|b: i64| #[trigger] count_where(post.records, with_record_id(b)) <= 1 by {
        lemma_count_where_push(cleared, with_record_id(b), fresh);
        lemma_count_where_keep_le(pre.records, q, with_record_id(b));
        if b == fresh.id {
            assert forall|i: int| 0 <= i < cleared.len() implies !(with_record_id(b)(
                #[trigger] cleared[i],
            )) by {
                assert(pre.records.contains(cleared[i]));
                let k = choose|k: int| 0 <= k < pre.records.len() && pre.records[k] == cleared[i];
                assert(pre.records[k].id < pre.next_record_id);
            }
            lemma_count_where_zero(cleared, with_record_id(b));
        }
    }
    assert forall|i: int|
        0 <= i < post.records.len() implies #[trigger] post.records[i].id < post.next_record_id by {
        if i < cleared.len() {
            assert(pre.records.contains(cleared[i]));
            let k = choose|k: int| 0 <= k < pre.records.len() && pre.records[k] == cleared[i];
            assert(pre.records[k].id < pre.next_record_id);
        }
    }
    assert forall|i: int|
        0 <= i < post.records.len() implies has_slot(
        post.slots,
        #[trigger] post.records[i].slot_id,
    ) by {
        if i < cleared.len() {
            assert(pre.records.contains(cleared[i]));
            let k = choose|k: int| 0 <= k < pre.records.len() && pre.records[k] == cleared[i];
            assert(has_slot(pre.slots, pre.records[k].slot_id));
        }
    }
    assert forall|i: int|
        0 <= i < post.slots.len() implies booked_count(post.records, #[trigger] post.slots[i].id)
        <= post.slots[i].max_user by {
        let s = post.slots[i].id;
        lemma_count_where_push(cleared, of_slot(s), fresh);
        lemma_count_where_keep_le(pre.records, q, of_slot(s));
        if s == sid {
            lemma_slot_of_agrees(pre.slots, sid, i);
        }
    }
}

} // verus!
