//! Cross-table reports: who was asked to sign up but never booked, and
//! whose profiles the privileged screeners approved.
use vstd::prelude::*;
use crate::broadcast::{
    has_summary, summary_of, BroadcastMessageRecord, BroadcastMessageType, BroadcastModel,
    BroadcastStatus, BroadcastStore, MessageStatus,
};
use crate::counting::{keep_where, lemma_keep_where_take_all, lemma_keep_where_take_step};
use crate::slots::{has_booking, SlotStore};
use crate::votes::{role_of, VoteStore, VotesModel};

verus! {

/// Whether one message row counts as a sign-up invitation that reached its
/// recipient: a signup-typed row that resolved (sent or failed) within a
/// broadcast whose summary still stands (was not cancelled).
pub open spec fn signup_delivery(b: BroadcastModel, mrow: BroadcastMessageRecord) -> bool {
    &&& mrow.message_type == Some(BroadcastMessageType::SignUp)
    &&& (mrow.status == MessageStatus::Sent || mrow.status == MessageStatus::Failed)
    &&& has_summary(b.summaries, mrow.broadcast_id@)
    &&& summary_of(b.summaries, mrow.broadcast_id@).status != BroadcastStatus::Failed
}

/// Whether recipient `t` received any sign-up invitation.
pub open spec fn asked_to_sign_up(b: BroadcastModel, t: i64) -> bool {
    exists|i: int|
        0 <= i < b.messages.len() && #[trigger] b.messages[i].telegram_id == t && signup_delivery(
            b,
            b.messages[i],
        )
}

fn vec_contains(v: &Vec<i64>, x: i64) -> (b: bool)
    ensures
        b == v@.contains(x),
{
    let mut i: usize = 0;
    while i < v.len()
        invariant
            i <= v@.len(),
            forall|j: int| 0 <= j < i ==> #[trigger] v@[j] != x,
        decreases v@.len() - i,
    {
        if v[i] == x {
            proof {
                assert(v@[i as int] == x);
            }
            return true;
        }
        i += 1;
    }
    false
}

/// The No-Response Reporter: every recipient who received a sign-up
/// invitation (delivered or failed, in a broadcast that was not cancelled)
/// and holds no booking — each one listed once.
pub fn get_no_response_users(bstore: &BroadcastStore, sstore: &SlotStore) -> (r: Vec<i64>)
    requires
        bstore@.wf(),
    ensures
        forall|t: i64|
            #[trigger] r@.contains(t) <==> (asked_to_sign_up(bstore@, t) && !has_booking(
                sstore@.records,
                t,
            )),
        forall|i: int, j: int| 0 <= i < j < r@.len() ==> #[trigger] r@[i] != #[trigger] r@[j],
{
    let mut out: Vec<i64> = Vec::new();
    let mut i: usize = 0;
    while i < bstore.messages.len()
        invariant
            bstore@.wf(),
            i <= bstore@.messages.len(),
            forall|t: i64|
                #[trigger] out@.contains(t) <==> ((exists|j: int|
                    0 <= j < i && #[trigger] bstore@.messages[j].telegram_id == t
                        && signup_delivery(bstore@, bstore@.messages[j])) && !has_booking(
                    sstore@.records,
                    t,
                )),
            forall|a: int, b: int| 0 <= a < b < out@.len() ==> #[trigger] out@[a] != #[trigger] out@[b],
        decreases bstore@.messages.len() - i,
    {
        let row = &bstore.messages[i];
        let t = row.telegram_id;
        let is_signup = matches!(row.message_type, Some(BroadcastMessageType::SignUp));
        let resolved = matches!(row.status, MessageStatus::Sent) || matches!(
            row.status,
            MessageStatus::Failed,
        );
        let mut qualifies = false;
        if is_signup && resolved {
            match bstore.get_broadcast_summary(&row.broadcast_id) {
                Some(s) => {
                    if !(s.status == BroadcastStatus::Failed) {
                        qualifies = true;
                    }
                },
                None => {},
            }
        }
        proof {
            assert(qualifies == signup_delivery(bstore@, bstore@.messages[i as int]));
        }
        if qualifies && !sstore.has_booking_for(t) && !vec_contains(&out, t) {
            let ghost out0 = out@;
            out.push(t);
            proof {
                assert forall|t2: i64| #[trigger] out@.contains(t2) implies ((exists|j: int|
                    0 <= j < i + 1 && #[trigger] bstore@.messages[j].telegram_id == t2
                        && signup_delivery(bstore@, bstore@.messages[j])) && !has_booking(
                    sstore@.records,
                    t2,
                )) by {
                    let k = choose|k: int| 0 <= k < out@.len() && out@[k] == t2;
                    if k < out0.len() {
                        assert(out0[k] == t2);
                        assert(out0.contains(t2));
                    } else {
                        assert(t2 == t);
                        assert(bstore@.messages[i as int].telegram_id == t2);
                    }
                }
                assert forall|t2: i64|
                    ((exists|j: int|
                        0 <= j < i + 1 && #[trigger] bstore@.messages[j].telegram_id == t2
                            && signup_delivery(bstore@, bstore@.messages[j])) && !has_booking(
                        sstore@.records,
                        t2,
                    )) implies #[trigger] out@.contains(t2) by {
                    if t2 == t {
                        assert(out@[out@.len() - 1] == t2);
                    } else {
                        let j = choose|j: int|
                            0 <= j < i + 1 && bstore@.messages[j].telegram_id == t2
                                && signup_delivery(bstore@, bstore@.messages[j]);
                        assert(j < i);
                        assert(out0.contains(t2));
                        let k = choose|k: int| 0 <= k < out0.len() && out0[k] == t2;
                        assert(out@[k] == t2);
                    }
                }
            }
        } else {
            proof {
                assert forall|t2: i64| #[trigger] out@.contains(t2) implies ((exists|j: int|
                    0 <= j < i + 1 && #[trigger] bstore@.messages[j].telegram_id == t2
                        && signup_delivery(bstore@, bstore@.messages[j])) && !has_booking(
                    sstore@.records,
                    t2,
                )) by {}
                assert forall|t2: i64|
                    ((exists|j: int|
                        0 <= j < i + 1 && #[trigger] bstore@.messages[j].telegram_id == t2
                            && signup_delivery(bstore@, bstore@.messages[j])) && !has_booking(
                        sstore@.records,
                        t2,
                    )) implies #[trigger] out@.contains(t2) by {
                    let j = choose|j: int|
                        0 <= j < i + 1 && bstore@.messages[j].telegram_id == t2
                            && signup_delivery(bstore@, bstore@.messages[j]);
                    if j == i as int {
                        assert(qualifies);
                        assert(!has_booking(sstore@.records, t2));
                        assert(out@.contains(t2));
                    }
                }
            }
        }
        i += 1;
    }
    out
}

/// Whether any privileged screener approved candidate `c`.
pub open spec fn approved_by_privileged(v: VotesModel, c: i64) -> bool {
    exists|i: int|
        0 <= i < v.votes.len() && #[trigger] v.votes[i].survey_id == c && v.votes[i].decision == 1
            && role_of(v.roles, v.votes[i].voter_telegram_id) == 1
}

/// Predicate form of [`approved_by_privileged`] for filtering a listing.
pub open spec fn selected_pred(v: VotesModel) -> spec_fn(i64) -> bool {
    |c: i64| approved_by_privileged(v, c)
}

fn has_privileged_approval(vstore: &VoteStore, c: i64) -> (b: bool)
    requires
        vstore@.wf(),
    ensures
        b == approved_by_privileged(vstore@, c),
{
    let mut i: usize = 0;
    while i < vstore.votes.len()
        invariant
            vstore@.wf(),
            i <= vstore@.votes.len(),
            forall|j: int|
                0 <= j < i ==> !(#[trigger] vstore@.votes[j].survey_id == c
                    && vstore@.votes[j].decision == 1 && role_of(
                    vstore@.roles,
                    vstore@.votes[j].voter_telegram_id,
                ) == 1),
        decreases vstore@.votes.len() - i,
    {
        if vstore.votes[i].survey_id == c && vstore.votes[i].decision == 1 {
            match vstore.get_user_role(vstore.votes[i].voter_telegram_id) {
                Some(role) => {
                    if role == 1 {
                        return true;
                    }
                },
                None => {},
            }
        }
        i += 1;
    }
    false
}

/// The candidates of the listing whose profiles a privileged screener
/// approved, in listing order.
pub fn get_selected_users(vstore: &VoteStore, universe: &Vec<i64>) -> (r: Vec<i64>)
    requires
        vstore@.wf(),
    ensures
        r@ == keep_where(universe@, selected_pred(vstore@)),
{
    let mut out: Vec<i64> = Vec::new();
    let mut i: usize = 0;
    while i < universe.len()
        invariant
            vstore@.wf(),
            i <= universe@.len(),
            out@ == keep_where(universe@.take(i as int), selected_pred(vstore@)),
        decreases universe@.len() - i,
    {
        proof {
            lemma_keep_where_take_step(universe@, selected_pred(vstore@), i as int);
        }
        if has_privileged_approval(vstore, universe[i]) {
            out.push(universe[i]);
        }
        i += 1;
    }
    proof {
        lemma_keep_where_take_all(universe@, selected_pred(vstore@));
    }
    out
}

} // verus!
