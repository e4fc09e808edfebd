//! Slot Ranker: surfaces the best open upcoming slots.
//!
//! A slot's score blends its free seats with how soon it starts; computing
//! that score uses floating-point arithmetic and therefore happens outside
//! this crate. The caller hands the scores back as integer weights whose
//! order matches the scores' order. Everything else — filtering to open
//! future slots, picking the top entries by weight with earlier slots
//! winning ties, and presenting the pick chronologically — is verified here.
use vstd::prelude::*;
use crate::counting::{
    count_where, keep_where, lemma_count_where_full, lemma_count_where_update,
    lemma_keep_where_all, lemma_keep_where_take_all, lemma_keep_where_take_step,
};
use crate::slots::{
    booked_count, slot_le, sort_slots_by_time, sorted_by_time, Record, Slot, SlotStore,
};

verus! {

/// Predicate: the slot still has a free seat and starts after `now`.
pub open spec fn open_future(records: Seq<Record>, now: i64) -> spec_fn(Slot) -> bool {
    |s: Slot| booked_count(records, s.id) < s.max_user && s.time > now
}

pub open spec fn is_true() -> spec_fn(bool) -> bool {
    |b: bool| b
}

pub open spec fn count_true(sel: Seq<bool>) -> int {
    count_where(sel, is_true())
}

/// The elements of `s` at the selected positions, in position order.
pub open spec fn selected_subseq(s: Seq<Slot>, sel: Seq<bool>) -> Seq<Slot>
    decreases s.len(),
{
    if s.len() == 0 {
        Seq::empty()
    } else if sel.len() == s.len() && sel.last() {
        selected_subseq(s.drop_last(), sel.drop_last()).push(s.last())
    } else {
        selected_subseq(s.drop_last(), sel.drop_last())
    }
}

/// `sel` marks a top-`limit` choice: as many slots as fit are selected, and
/// every selected slot beats every unselected one — by weight, with the
/// earlier position winning a tie.
pub open spec fn selection_ok(s: Seq<Slot>, w: Seq<u64>, limit: int, sel: Seq<bool>) -> bool {
    &&& sel.len() == s.len()
    &&& count_true(sel) == if limit < s.len() {
        limit
    } else {
        s.len() as int
    }
    &&& forall|i: int, j: int|
        0 <= i < sel.len() && 0 <= j < sel.len() && #[trigger] sel[i] && !(#[trigger] sel[j]) ==> (
        w[i] > w[j] || (w[i] == w[j] && i < j))
}

/// The open slots that start after `now`, in chronological order.
pub fn get_upcoming_open_slots(store: &SlotStore, now: i64) -> (r: Vec<Slot>)
    requires
        store@.wf(),
    ensures
        r@.to_multiset() == keep_where(store@.slots, open_future(store@.records, now)).to_multiset(),
        sorted_by_time(r@),
        r@.len() == count_where(store@.slots, open_future(store@.records, now)),
        (forall|i: int| 0 <= i < store@.slots.len() ==> #[trigger] store@.slots[i].time <= now)
            ==> r@.len() == 0,
{
    let mut open: Vec<Slot> = Vec::new();
    let mut i: usize = 0;
    while i < store.slots.len()
        invariant
            store@.wf(),
            i <= store@.slots.len(),
            open@ == keep_where(store@.slots.take(i as int), open_future(store@.records, now)),
        decreases store@.slots.len() - i,
    {
        proof {
            lemma_keep_where_take_step(store@.slots, open_future(store@.records, now), i as int);
        }
        let cnt = store.count_booked(store.slots[i].id);
        if cnt < store.slots[i].max_user as usize && store.slots[i].time > now {
            open.push(store.slots[i].clone());
        }
        i += 1;
    }
    proof {
        lemma_keep_where_take_all(store@.slots, open_future(store@.records, now));
        lemma_keep_where_all(store@.slots, open_future(store@.records, now));
        if forall|k: int| 0 <= k < store@.slots.len() ==> #[trigger] store@.slots[k].time <= now {
            assert forall|k: int|
                0 <= k < store@.slots.len() implies !(open_future(store@.records, now)(
                #[trigger] store@.slots[k],
            )) by {
                assert(store@.slots[k].time <= now);
            }
            crate::counting::lemma_count_where_zero(store@.slots, open_future(store@.records, now));
        }
    }
    sort_slots_by_time(open)
}

/// Top-`limit` slots by caller-supplied weight, ties to the earlier slot,
/// presented in chronological order. `slots` must come in chronologically
/// (as [`get_upcoming_open_slots`] returns them) with one weight per slot.
pub fn get_best_slots_for_booking(slots: &Vec<Slot>, weights: &Vec<u64>, limit: usize) -> (r: Vec<
    Slot,
>)
    requires
        weights@.len() == slots@.len(),
        sorted_by_time(slots@),
    ensures
        r@.len() == if (limit as int) < slots@.len() {
            limit as int
        } else {
            slots@.len() as int
        },
        sorted_by_time(r@),
        exists|sel: Seq<bool>|
            #[trigger] selection_ok(slots@, weights@, limit as int, sel) && r@ == selected_subseq(
                slots@,
                sel,
            ),
{
    let n = slots.len();
    let mut sel: Vec<bool> = Vec::new();
    while sel.len() < n
        invariant
            sel@.len() <= n,
            forall|i: int| 0 <= i < sel@.len() ==> !(#[trigger] sel@[i]),
        decreases n - sel@.len(),
    {
        sel.push(false);
    }
    proof {
        crate::counting::lemma_count_where_zero(sel@, is_true());
    }
    let goal = if limit < n {
        limit
    } else {
        n
    };
    let mut picked: usize = 0;
    while picked < goal
        invariant
            n == slots@.len() == weights@.len(),
            goal <= n,
            picked <= goal,
            sel@.len() == n,
            count_true(sel@) == picked,
            forall|i: int, j: int|
                0 <= i < n && 0 <= j < n && #[trigger] sel@[i] && !(#[trigger] sel@[j]) ==> (
                weights@[i] > weights@[j] || (weights@[i] == weights@[j] && i < j)),
        decreases goal - picked,
    {
        proof {
            lemma_count_where_full(sel@, is_true());
        }
        let mut best: usize = n;
        let mut j: usize = 0;
        while j < n
            invariant
                n == slots@.len() == weights@.len(),
                sel@.len() == n,
                j <= n,
                best <= n,
                best == n ==> forall|u: int| 0 <= u < j ==> #[trigger] sel@[u],
                best < n ==> !sel@[best as int] && best < j && forall|u: int|
                    0 <= u < j && !(#[trigger] sel@[u]) ==> (weights@[best as int] > weights@[u] || (
                    weights@[best as int] == weights@[u] && best <= u)),
            decreases n - j,
        {
            if !sel[j] {
                if best == n {
                    best = j;
                } else if weights[j] > weights[best] {
                    best = j;
                }
            }
            j += 1;
        }
        proof {
            if best == n {
                assert(forall|u: int| 0 <= u < n ==> #[trigger] sel@[u]);
                assert(false);
            }
        }
        let ghost pre_sel = sel@;
        let _ = sel.remove(best);
        sel.insert(best, true);
        proof {
            assert(sel@ =~= pre_sel.update(best as int, true));
            lemma_count_where_update(pre_sel, is_true(), best as int, true);
            assert forall|i: int, j2: int|
                0 <= i < n && 0 <= j2 < n && #[trigger] sel@[i] && !(#[trigger] sel@[j2]) implies (
            weights@[i] > weights@[j2] || (weights@[i] == weights@[j2] && i < j2)) by {
                if i == best as int {
                } else {
                    assert(pre_sel[i]);
                    assert(!pre_sel[j2]);
                }
            }
        }
        picked += 1;
    }
    let ghost sel_final = sel@;
    proof {
        assert(selection_ok(slots@, weights@, limit as int, sel_final));
    }
    let mut out: Vec<Slot> = Vec::new();
    let mut i: usize = 0;
    while i < n
        invariant
            n == slots@.len(),
            sel@ == sel_final,
            sel_final.len() == n,
            i <= n,
            out@ == selected_subseq(slots@.take(i as int), sel_final.take(i as int)),
        decreases n - i,
    {
        proof {
            lemma_selected_subseq_step(slots@, sel_final, i as int);
        }
        if sel[i] {
            out.push(slots[i].clone());
        }
        i += 1;
    }
    proof {
        assert(slots@.take(n as int) =~= slots@);
        assert(sel_final.take(n as int) =~= sel_final);
        lemma_selected_subseq_all(slots@, sel_final);
        crate::counting::lemma_count_where_bounds(sel_final, is_true());
    }
    out
}

/// Unfolds the selection one position at a time, mirroring the build loop.
proof fn lemma_selected_subseq_step(s: Seq<Slot>, sel: Seq<bool>, i: int)
    requires
        sel.len() == s.len(),
        0 <= i < s.len(),
    ensures
        selected_subseq(s.take(i + 1), sel.take(i + 1)) == if sel[i] {
            selected_subseq(s.take(i), sel.take(i)).push(s[i])
        } else {
            selected_subseq(s.take(i), sel.take(i))
        },
{
    assert(s.take(i + 1).drop_last() =~= s.take(i));
    assert(sel.take(i + 1).drop_last() =~= sel.take(i));
    assert(s.take(i + 1).last() == s[i]);
    assert(sel.take(i + 1).last() == sel[i]);
}

/// The selection has as many elements as marks, each drawn from `s`, and it
/// stays chronologically sorted when `s` is.
proof fn lemma_selected_subseq_all(s: Seq<Slot>, sel: Seq<bool>)
    requires
        sel.len() == s.len(),
    ensures
        selected_subseq(s, sel).len() == count_true(sel),
        forall|j: int|
            0 <= j < selected_subseq(s, sel).len() ==> s.contains(
                #[trigger] selected_subseq(s, sel)[j],
            ),
        sorted_by_time(s) ==> sorted_by_time(selected_subseq(s, sel)),
    decreases s.len(),
{
    if s.len() > 0 {
        lemma_selected_subseq_all(s.drop_last(), sel.drop_last());
        let sub0 = selected_subseq(s.drop_last(), sel.drop_last());
        assert(forall|i: int| 0 <= i < s.len() - 1 ==> s.drop_last()[i] == s[i]);
        assert(sel.drop_last().len() == s.drop_last().len());
        assert(count_true(sel) == count_true(sel.drop_last()) + if sel.last() {
            1int
        } else {
            0int
        });
        assert forall|j: int|
            0 <= j < selected_subseq(s, sel).len() implies s.contains(
            #[trigger] selected_subseq(s, sel)[j],
        ) by {
            if sel.last() && j == selected_subseq(s, sel).len() - 1 {
                assert(selected_subseq(s, sel)[j] == s[s.len() - 1]);
            } else {
                assert(selected_subseq(s, sel)[j] == sub0[j]);
                let k = choose|k: int| 0 <= k < s.drop_last().len() && s.drop_last()[k] == sub0[j];
                assert(s[k] == sub0[j]);
            }
        }
        if sorted_by_time(s) {
            assert(sorted_by_time(s.drop_last()));
            assert forall|a: int, b: int|
                0 <= a < b < selected_subseq(s, sel).len() implies slot_le(
                #[trigger] selected_subseq(s, sel)[a],
                #[trigger] selected_subseq(s, sel)[b],
            ) by {
                if sel.last() && b == selected_subseq(s, sel).len() - 1 {
                    assert(selected_subseq(s, sel)[a] == sub0[a]);
                    let k = choose|k: int|
                        0 <= k < s.drop_last().len() && s.drop_last()[k] == sub0[a];
                    assert(slot_le(s[k], s[s.len() - 1]));
                } else {
                    assert(selected_subseq(s, sel)[a] == sub0[a]);
                    assert(selected_subseq(s, sel)[b] == sub0[b]);
                }
            }
        }
    }
}

} // verus!
