//! Candidate-screening voting: roles, votes, claims and tallies.
//!
//! A claim is a reserved vote row that marks a screener's exclusive lease on
//! a candidate. Uniqueness of `(survey, voter)` vote rows is the concurrency
//! primitive: inserting the claim row either succeeds — the lease is won —
//! or fails because a row already exists. Claim and seed rows are reserved
//! markers and are excluded from every tally.
use vstd::prelude::*;
use crate::counting::{
    count_where, keep_where, lemma_count_where_bounds, lemma_count_where_keep_le, lemma_count_where_pos, lemma_count_where_push,
    lemma_count_where_take_all, lemma_count_where_take_step, lemma_count_where_two,
    lemma_count_where_unique, lemma_count_where_update, lemma_count_where_zero,
    lemma_keep_where_all, lemma_keep_where_take_all, lemma_keep_where_take_step,
};

verus! {

/// Number of ordinary real votes a candidate needs before the profile is
/// routed to a privileged screener.
pub const REVIEW_QUORUM: usize = 3;

/// A vote row's comment: the two reserved markers, or the screener's text.
#[derive(Debug)]
pub enum VoteComment {
    /// Reserved marker: an in-flight lease held by the voter ("claim").
    Claim,
    /// Reserved marker: a seed row created when a candidate first appears
    /// ("init").
    Init,
    /// Ordinary screener commentary.
    Text(String),
}

impl Clone for VoteComment {
    fn clone(&self) -> (r: VoteComment)
        ensures
            r == *self,
    {
        match self {
            VoteComment::Claim => VoteComment::Claim,
            VoteComment::Init => VoteComment::Init,
            VoteComment::Text(s) => VoteComment::Text(s.clone()),
        }
    }
}

/// One vote row. `decision` is 1 for approve and 0 for reject; the seed
/// rows use -1, but they are excluded from every tally anyway.
#[derive(Debug)]
pub struct Vote {
    pub id: i64,
    pub survey_id: i64,
    pub voter_telegram_id: i64,
    pub decision: i32,
    pub comment: Option<VoteComment>,
    pub created_at: i64,
}

impl Clone for Vote {
    fn clone(&self) -> (r: Vote)
        ensures
            r == *self,
    {
        Vote {
            id: self.id,
            survey_id: self.survey_id,
            voter_telegram_id: self.voter_telegram_id,
            decision: self.decision,
            comment: match &self.comment {
                Some(c) => Some(c.clone()),
                None => None,
            },
            created_at: self.created_at,
        }
    }
}

/// A recipient's role: 1 is privileged ("responsible"), anything else is
/// ordinary. Absence from the table means ordinary.
#[derive(Clone, Copy, Debug, PartialEq, Eq, Structural)]
pub struct UserRole {
    pub telegram_id: i64,
    pub role: i32,
    pub created_at: i64,
}

pub struct CreateVoteRequest {
    pub survey_id: i64,
    pub decision: i32,
    pub comment: Option<VoteComment>,
}

pub struct UpdateVoteRequest {
    pub decision: i32,
    pub comment: Option<VoteComment>,
}

#[derive(Clone, Copy, Debug, PartialEq, Eq, Structural)]
pub enum VoteError {
    /// A non-claim row by this voter on this survey already exists.
    Conflict,
    /// No such vote row.
    NotFound,
}

#[derive(Clone, Copy, Debug, PartialEq, Eq, Structural)]
pub enum SurveyStatus {
    InProgress,
    ReadyForReview,
    Completed,
}

/// The reporting view of one candidate's votes.
#[derive(Clone, Copy, Debug, PartialEq, Eq, Structural)]
pub struct SurveyVoteSummary {
    pub survey_id: i64,
    pub total_votes: usize,
    pub approve_votes: usize,
    pub reject_votes: usize,
    pub status: SurveyStatus,
    pub has_responsible_vote: bool,
}

/// The vote and role tables.
pub struct VoteStore {
    pub votes: Vec<Vote>,
    pub roles: Vec<UserRole>,
    pub next_vote_id: i64,
}

/// Mathematical model of a [`VoteStore`].
pub struct VotesModel {
    pub votes: Seq<Vote>,
    pub roles: Seq<UserRole>,
    pub next_vote_id: int,
}

impl View for VoteStore {
    type V = VotesModel;

    open spec fn view(&self) -> VotesModel {
        VotesModel {
            votes: self.votes@,
            roles: self.roles@,
            next_vote_id: self.next_vote_id as int,
        }
    }
}

pub open spec fn is_claim(v: Vote) -> bool {
    v.comment == Some(VoteComment::Claim)
}

pub open spec fn is_init(v: Vote) -> bool {
    v.comment == Some(VoteComment::Init)
}

/// A real vote: neither a claim lease nor a seed row.
pub open spec fn is_real(v: Vote) -> bool {
    !is_claim(v) && !is_init(v)
}

/// Predicate: any row on survey `c`.
pub open spec fn on_survey(c: i64) -> spec_fn(Vote) -> bool {
    |v: Vote| v.survey_id == c
}

/// Predicate: a real vote on survey `c`.
pub open spec fn real_on(c: i64) -> spec_fn(Vote) -> bool {
    |v: Vote| v.survey_id == c && is_real(v)
}

/// Predicate: a claim lease on survey `c`.
pub open spec fn claim_on(c: i64) -> spec_fn(Vote) -> bool {
    |v: Vote| v.survey_id == c && is_claim(v)
}

/// Predicate: an approving real vote on survey `c`.
pub open spec fn approve_on(c: i64) -> spec_fn(Vote) -> bool {
    |v: Vote| v.survey_id == c && is_real(v) && v.decision == 1
}

/// Predicate: a rejecting real vote on survey `c`.
pub open spec fn reject_on(c: i64) -> spec_fn(Vote) -> bool {
    |v: Vote| v.survey_id == c && is_real(v) && v.decision != 1
}

/// Predicate: the row of voter `t` on survey `c` (unique by well-formedness).
pub open spec fn pair_of(c: i64, t: i64) -> spec_fn(Vote) -> bool {
    |v: Vote| v.survey_id == c && v.voter_telegram_id == t
}

/// Predicate: a claim lease held by voter `t`.
pub open spec fn claim_by(t: i64) -> spec_fn(Vote) -> bool {
    |v: Vote| v.voter_telegram_id == t && is_claim(v)
}

/// Predicate: not a claim lease held by voter `t`.
pub open spec fn not_claim_by(t: i64) -> spec_fn(Vote) -> bool {
    |v: Vote| !(v.voter_telegram_id == t && is_claim(v))
}

pub open spec fn with_vote_id(b: i64) -> spec_fn(Vote) -> bool {
    |v: Vote| v.id == b
}

pub open spec fn not_with_vote_id(b: i64) -> spec_fn(Vote) -> bool {
    |v: Vote| v.id != b
}

pub open spec fn real_count(votes: Seq<Vote>, c: i64) -> int {
    count_where(votes, real_on(c))
}

pub open spec fn claim_count(votes: Seq<Vote>, c: i64) -> int {
    count_where(votes, claim_on(c))
}

/// Whether voter `t` has any row (vote, claim or seed) on survey `c`.
pub open spec fn touched(votes: Seq<Vote>, c: i64, t: i64) -> bool {
    exists|i: int| 0 <= i < votes.len() && votes[i].survey_id == c && votes[i].voter_telegram_id == t
}

pub open spec fn has_role_row(roles: Seq<UserRole>, t: i64) -> bool {
    exists|i: int| 0 <= i < roles.len() && roles[i].telegram_id == t
}

pub open spec fn role_index(roles: Seq<UserRole>, t: i64) -> int {
    choose|i: int| 0 <= i < roles.len() && roles[i].telegram_id == t
}

/// A recipient's role; absence from the table means ordinary (0).
pub open spec fn role_of(roles: Seq<UserRole>, t: i64) -> int {
    if has_role_row(roles, t) {
        roles[role_index(roles, t)].role as int
    } else {
        0
    }
}

/// Whether any row on survey `c` — a vote, a claim or a seed — was left by
/// a privileged voter. This is the privileged-routing guard.
pub open spec fn has_priv_row(votes: Seq<Vote>, roles: Seq<UserRole>, c: i64) -> bool {
    exists|i: int|
        0 <= i < votes.len() && votes[i].survey_id == c && role_of(
            roles,
            votes[i].voter_telegram_id,
        ) == 1
}

/// Whether a privileged voter has a real vote on survey `c` (reserved
/// markers excluded). This is what the tally reports.
pub open spec fn has_priv_real_row(votes: Seq<Vote>, roles: Seq<UserRole>, c: i64) -> bool {
    exists|i: int|
        0 <= i < votes.len() && votes[i].survey_id == c && is_real(votes[i]) && role_of(
            roles,
            votes[i].voter_telegram_id,
        ) == 1
}

impl VotesModel {
    /// Well-formedness: at most one row per `(survey, voter)` pair, unique
    /// vote ids below the id counter, and at most one role row per recipient.
    pub open spec fn wf(&self) -> bool {
        &&& forall|c: i64, t: i64| #[trigger] count_where(self.votes, pair_of(c, t)) <= 1
        &&& forall|b: i64| #[trigger] count_where(self.votes, with_vote_id(b)) <= 1
        &&& forall|i: int|
            0 <= i < self.votes.len() ==> #[trigger] self.votes[i].id < self.next_vote_id
        &&& forall|i: int, j: int|
            0 <= i < j < self.roles.len() ==> #[trigger] self.roles[i].telegram_id
                != #[trigger] self.roles[j].telegram_id
    }
}

impl VoteStore {
    pub fn new() -> (s: VoteStore)
        ensures
            s@.wf(),
            s@.votes.len() == 0,
            s@.roles.len() == 0,
            s@.next_vote_id == 1,
    {
        VoteStore { votes: Vec::new(), roles: Vec::new(), next_vote_id: 1 }
    }

    fn find_role(&self, telegram_id: i64) -> (r: Option<usize>)
        ensures
            match r {
                Some(i) => i < self.roles@.len() && self.roles@[i as int].telegram_id == telegram_id,
                None => !has_role_row(self.roles@, telegram_id),
            },
    {
        let mut i: usize = 0;
        while i < self.roles.len()
            invariant
                i <= self.roles@.len(),
                forall|j: int| 0 <= j < i ==> #[trigger] self.roles@[j].telegram_id != telegram_id,
            decreases self.roles@.len() - i,
        {
            if self.roles[i].telegram_id == telegram_id {
                return Some(i);
            }
            i += 1;
        }
        None
    }

    /// The stored role of a recipient, if a role row exists.
    pub fn get_user_role(&self, telegram_id: i64) -> (r: Option<i32>)
        requires
            self@.wf(),
        ensures
            r is Some <==> has_role_row(self@.roles, telegram_id),
            r is Some ==> r.unwrap() as int == role_of(self@.roles, telegram_id),
    {
        match self.find_role(telegram_id) {
            None => None,
            Some(i) => {
                proof {
                    lemma_role_of_agrees(self@.roles, telegram_id, i as int);
                }
                Some(self.roles[i].role)
            },
        }
    }

    /// Sets or replaces a recipient's role.
    pub fn set_user_role(&mut self, telegram_id: i64, role: i32, now: i64)
        requires
            old(self)@.wf(),
        ensures
            final(self)@.wf(),
            final(self)@.votes == old(self)@.votes,
            final(self)@.next_vote_id == old(self)@.next_vote_id,
            role_of(final(self)@.roles, telegram_id) == role as int,
            has_role_row(final(self)@.roles, telegram_id),
            forall|t: i64|
                t != telegram_id ==> #[trigger] role_of(final(self)@.roles, t) == role_of(
                    old(self)@.roles,
                    t,
                ),
            final(self)@.roles == (if has_role_row(old(self)@.roles, telegram_id) {
                old(self)@.roles.update(
                    role_index(old(self)@.roles, telegram_id),
                    UserRole { telegram_id, role, created_at: now },
                )
            } else {
                old(self)@.roles.push(UserRole { telegram_id, role, created_at: now })
            }),
    {
        let ghost pre = self@;
        let fresh = UserRole { telegram_id, role, created_at: now };
        match self.find_role(telegram_id) {
            Some(i) => {
                proof {
                    lemma_role_of_agrees(pre.roles, telegram_id, i as int);
                }
                let _ = self.roles.remove(i);
                self.roles.insert(i, fresh);
                proof {
                    assert(self@.roles =~= pre.roles.update(i as int, fresh));
                    lemma_roles_update_wf(pre.roles, self@.roles, i as int, telegram_id, fresh);
                }
            },
            None => {
                self.roles.push(fresh);
                proof {
                    let post = self@.roles;
                    assert forall|a: int, b: int|
                        0 <= a < b < post.len() implies #[trigger] post[a].telegram_id
                        != #[trigger] post[b].telegram_id by {
                        if b == post.len() - 1 {
                            assert(post[a] == pre.roles[a]);
                        }
                    }
                    assert(post[post.len() - 1].telegram_id == telegram_id);
                    lemma_role_of_agrees(post, telegram_id, post.len() - 1);
                    assert forall|t: i64|
                        t != telegram_id implies #[trigger] role_of(post, t) == role_of(
                        pre.roles,
                        t,
                    ) by {
                        lemma_role_of_frame(pre.roles, post, t);
                    }
                }
            },
        }
    }

    /// The recipients with the privileged role, in table order.
    pub fn get_users(&self) -> (r: Vec<i64>)
        requires
            self@.wf(),
        ensures
            r@ == keep_where(self@.roles, priv_role()).map_values(role_telegram_id()),
    {
        let mut out: Vec<i64> = Vec::new();
        let mut i: usize = 0;
        while i < self.roles.len()
            invariant
                i <= self@.roles.len(),
                out@ == keep_where(self@.roles.take(i as int), priv_role()).map_values(
                    role_telegram_id(),
                ),
            decreases self@.roles.len() - i,
        {
            proof {
                lemma_keep_where_take_step(self@.roles, priv_role(), i as int);
                crate::counting::lemma_map_values_push(
                    keep_where(self@.roles.take(i as int), priv_role()),
                    role_telegram_id(),
                    self@.roles[i as int],
                );
            }
            if self.roles[i].role == 1 {
                out.push(self.roles[i].telegram_id);
            }
            i += 1;
        }
        proof {
            assert(self@.roles.take(self@.roles.len() as int) =~= self@.roles);
        }
        out
    }

    /// Sweeps the voter's stale claim leases; returns how many were dropped.
    pub fn clear_user_locks(&mut self, telegram_id: i64) -> (n: u64)
        requires
            old(self)@.wf(),
        ensures
            final(self)@.wf(),
            final(self)@.roles == old(self)@.roles,
            final(self)@.next_vote_id == old(self)@.next_vote_id,
            final(self)@.votes == keep_where(old(self)@.votes, not_claim_by(telegram_id)),
            n as int == count_where(old(self)@.votes, claim_by(telegram_id)),
    {
        let ghost pre = self@;
        let mut kept: Vec<Vote> = Vec::new();
        let mut dropped: u64 = 0;
        let mut i: usize = 0;
        while i < self.votes.len()
            invariant
                i <= pre.votes.len(),
                self@.votes == pre.votes,
                self@.roles == pre.roles,
                dropped <= i,
                kept@ == keep_where(pre.votes.take(i as int), not_claim_by(telegram_id)),
                dropped as int == count_where(pre.votes.take(i as int), claim_by(telegram_id)),
            decreases pre.votes.len() - i,
        {
            proof {
                lemma_keep_where_take_step(pre.votes, not_claim_by(telegram_id), i as int);
                lemma_count_where_take_step(pre.votes, claim_by(telegram_id), i as int);
            }
            let v = &self.votes[i];
            let is_lock = v.voter_telegram_id == telegram_id && matches!(
                v.comment,
                Some(VoteComment::Claim),
            );
            if is_lock {
                dropped += 1;
            } else {
                kept.push(self.votes[i].clone());
            }
            i += 1;
        }
        proof {
            lemma_keep_where_take_all(pre.votes, not_claim_by(telegram_id));
            lemma_count_where_take_all(pre.votes, claim_by(telegram_id));
        }
        self.votes = kept;
        proof {
            lemma_votes_keep_wf(pre, self@, not_claim_by(telegram_id));
        }
        dropped
    }

    /// The atomic claim: inserts the lease row for `(survey_id, voter)`
    /// unless any row of that pair exists. The caller that loses the race
    /// gets `false` and the store is unchanged.
    pub fn attempt_claim(&mut self, survey_id: i64, voter_telegram_id: i64, now: i64) -> (won: bool)
        requires
            old(self)@.wf(),
            old(self)@.next_vote_id < i64::MAX,
        ensures
            final(self)@.wf(),
            final(self)@.roles == old(self)@.roles,
            won <==> !touched(old(self)@.votes, survey_id, voter_telegram_id),
            !won ==> final(self)@ == old(self)@,
            won ==> final(self)@.votes == old(self)@.votes.push(
                Vote {
                    id: old(self).next_vote_id,
                    survey_id,
                    voter_telegram_id,
                    decision: 0,
                    comment: Some(VoteComment::Claim),
                    created_at: now,
                },
            ) && final(self)@.next_vote_id == old(self)@.next_vote_id + 1,
    {
        let ghost pre = self@;
        let mut i: usize = 0;
        while i < self.votes.len()
            invariant
                self@ == pre,
                pre == old(self)@,
                pre.wf(),
                i <= pre.votes.len(),
                forall|j: int|
                    0 <= j < i ==> !(#[trigger] pre.votes[j].survey_id == survey_id
                        && pre.votes[j].voter_telegram_id == voter_telegram_id),
            decreases pre.votes.len() - i,
        {
            if self.votes[i].survey_id == survey_id && self.votes[i].voter_telegram_id
                == voter_telegram_id {
                return false;
            }
            i += 1;
        }
        let fresh = Vote {
            id: self.next_vote_id,
            survey_id,
            voter_telegram_id,
            decision: 0,
            comment: Some(VoteComment::Claim),
            created_at: now,
        };
        self.votes.push(fresh);
        self.next_vote_id += 1;
        proof {
            lemma_votes_push_wf(pre, self@, fresh);
        }
        true
    }

    fn count_votes_where_real(&self, c: i64) -> (n: usize)
        ensures
            n as int == real_count(self@.votes, c),
    {
        let mut n: usize = 0;
        let mut i: usize = 0;
        while i < self.votes.len()
            invariant
                i <= self@.votes.len(),
                n <= i,
                n as int == count_where(self@.votes.take(i as int), real_on(c)),
            decreases self@.votes.len() - i,
        {
            proof {
                lemma_count_where_take_step(self@.votes, real_on(c), i as int);
            }
            let v = &self.votes[i];
            let ordinary_row = !matches!(v.comment, Some(VoteComment::Claim)) && !matches!(
                v.comment,
                Some(VoteComment::Init),
            );
            if v.survey_id == c && ordinary_row {
                n += 1;
            }
            i += 1;
        }
        proof {
            lemma_count_where_take_all(self@.votes, real_on(c));
        }
        n
    }

    fn count_votes_where_claim(&self, c: i64) -> (n: usize)
        ensures
            n as int == claim_count(self@.votes, c),
    {
        let mut n: usize = 0;
        let mut i: usize = 0;
        while i < self.votes.len()
            invariant
                i <= self@.votes.len(),
                n <= i,
                n as int == count_where(self@.votes.take(i as int), claim_on(c)),
            decreases self@.votes.len() - i,
        {
            proof {
                lemma_count_where_take_step(self@.votes, claim_on(c), i as int);
            }
            let v = &self.votes[i];
            if v.survey_id == c && matches!(v.comment, Some(VoteComment::Claim)) {
                n += 1;
            }
            i += 1;
        }
        proof {
            lemma_count_where_take_all(self@.votes, claim_on(c));
        }
        n
    }

    fn has_privileged_row(&self, c: i64) -> (b: bool)
        requires
            self@.wf(),
        ensures
            b == has_priv_row(self@.votes, self@.roles, c),
    {
        let mut i: usize = 0;
        while i < self.votes.len()
            invariant
                self@.wf(),
                i <= self@.votes.len(),
                forall|j: int|
                    0 <= j < i ==> !(#[trigger] self@.votes[j].survey_id == c && role_of(
                        self@.roles,
                        self@.votes[j].voter_telegram_id,
                    ) == 1),
            decreases self@.votes.len() - i,
        {
            if self.votes[i].survey_id == c {
                let role = self.get_user_role(self.votes[i].voter_telegram_id);
                if let Some(r) = role {
                    if r == 1 {
                        return true;
                    }
                }
                proof {
                    if role_of(self@.roles, self@.votes[i as int].voter_telegram_id) == 1 {
                        assert(has_role_row(self@.roles, self@.votes[i as int].voter_telegram_id));
                    }
                }
            }
            i += 1;
        }
        false
    }

    fn has_privileged_real(&self, c: i64) -> (b: bool)
        requires
            self@.wf(),
        ensures
            b == has_priv_real_row(self@.votes, self@.roles, c),
    {
        let mut i: usize = 0;
        while i < self.votes.len()
            invariant
                self@.wf(),
                i <= self@.votes.len(),
                forall|j: int|
                    0 <= j < i ==> !(#[trigger] self@.votes[j].survey_id == c && is_real(
                        self@.votes[j],
                    ) && role_of(self@.roles, self@.votes[j].voter_telegram_id) == 1),
            decreases self@.votes.len() - i,
        {
            let v = &self.votes[i];
            let ordinary_row = !matches!(v.comment, Some(VoteComment::Claim)) && !matches!(
                v.comment,
                Some(VoteComment::Init),
            );
            if v.survey_id == c && ordinary_row {
                let role = self.get_user_role(v.voter_telegram_id);
                if let Some(r) = role {
                    if r == 1 {
                        return true;
                    }
                }
                proof {
                    if role_of(self@.roles, self@.votes[i as int].voter_telegram_id) == 1 {
                        assert(has_role_row(self@.roles, self@.votes[i as int].voter_telegram_id));
                    }
                }
            }
            i += 1;
        }
        false
    }

    /// The tally a reporter sees for one candidate: real approve and reject
    /// counts (reserved markers excluded), whether a privileged voter has
    /// cast a real vote, and the derived status.
    pub fn get_survey_vote_summary(&self, survey_id: i64) -> (s: SurveyVoteSummary)
        requires
            self@.wf(),
        ensures
            s.survey_id == survey_id,
            s.approve_votes as int == count_where(self@.votes, approve_on(survey_id)),
            s.reject_votes as int == count_where(self@.votes, reject_on(survey_id)),
            s.total_votes as int == real_count(self@.votes, survey_id),
            s.total_votes == s.approve_votes + s.reject_votes,
            s.has_responsible_vote == has_priv_real_row(self@.votes, self@.roles, survey_id),
            s.status == (if s.has_responsible_vote {
                SurveyStatus::Completed
            } else if real_count(self@.votes, survey_id) >= REVIEW_QUORUM {
                SurveyStatus::ReadyForReview
            } else {
                SurveyStatus::InProgress
            }),
    {
        let mut approve: usize = 0;
        let mut reject: usize = 0;
        let mut i: usize = 0;
        while i < self.votes.len()
            invariant
                i <= self@.votes.len(),
                approve + reject <= i,
                approve as int == count_where(self@.votes.take(i as int), approve_on(survey_id)),
                reject as int == count_where(self@.votes.take(i as int), reject_on(survey_id)),
            decreases self@.votes.len() - i,
        {
            proof {
                lemma_count_where_take_step(self@.votes, approve_on(survey_id), i as int);
                lemma_count_where_take_step(self@.votes, reject_on(survey_id), i as int);
            }
            let v = &self.votes[i];
            let ordinary_row = !matches!(v.comment, Some(VoteComment::Claim)) && !matches!(
                v.comment,
                Some(VoteComment::Init),
            );
            if v.survey_id == survey_id && ordinary_row {
                if v.decision == 1 {
                    approve += 1;
                } else {
                    reject += 1;
                }
            }
            i += 1;
        }
        proof {
            lemma_count_where_take_all(self@.votes, approve_on(survey_id));
            lemma_count_where_take_all(self@.votes, reject_on(survey_id));
            lemma_real_partition(self@.votes, survey_id);
        }
        let total = approve + reject;
        let has_responsible = self.has_privileged_real(survey_id);
        let status = if has_responsible {
            SurveyStatus::Completed
        } else if total >= REVIEW_QUORUM {
            SurveyStatus::ReadyForReview
        } else {
            SurveyStatus::InProgress
        };
        SurveyVoteSummary {
            survey_id,
            total_votes: total,
            approve_votes: approve,
            reject_votes: reject,
            status,
            has_responsible_vote: has_responsible,
        }
    }
}

/// Predicate: the role row grants the privileged role.
pub open spec fn priv_role() -> spec_fn(UserRole) -> bool {
    |r: UserRole| r.role == 1
}

/// Projection: the role row's recipient.
pub open spec fn role_telegram_id() -> spec_fn(UserRole) -> i64 {
    |r: UserRole| r.telegram_id
}

/// Approve and reject rows partition the real votes.
pub proof fn lemma_real_partition(votes: Seq<Vote>, c: i64)
    ensures
        real_count(votes, c) == count_where(votes, approve_on(c)) + count_where(
            votes,
            reject_on(c),
        ),
    decreases votes.len(),
{
    if votes.len() > 0 {
        lemma_real_partition(votes.drop_last(), c);
    }
}

/// With unique role rows, the chosen index agrees with any witness.
proof fn lemma_role_of_agrees(roles: Seq<UserRole>, t: i64, i: int)
    requires
        0 <= i < roles.len(),
        roles[i].telegram_id == t,
        forall|a: int, b: int|
            0 <= a < b < roles.len() ==> #[trigger] roles[a].telegram_id
                != #[trigger] roles[b].telegram_id,
    ensures
        has_role_row(roles, t),
        role_index(roles, t) == i,
        role_of(roles, t) == roles[i].role as int,
{
    assert(has_role_row(roles, t));
    let j = role_index(roles, t);
    if i < j {
        assert(roles[i].telegram_id != roles[j].telegram_id);
    } else if j < i {
        assert(roles[j].telegram_id != roles[i].telegram_id);
    }
}

/// Roles other than the touched one keep their value.
proof fn lemma_role_of_frame(pre: Seq<UserRole>, post: Seq<UserRole>, t: i64)
    requires
        forall|a: int, b: int|
            0 <= a < b < pre.len() ==> #[trigger] pre[a].telegram_id != #[trigger] pre[b].telegram_id,
        forall|a: int, b: int|
            0 <= a < b < post.len() ==> #[trigger] post[a].telegram_id
                != #[trigger] post[b].telegram_id,
        forall|i: int|
            0 <= i < pre.len() && #[trigger] pre[i].telegram_id == t ==> i < post.len() && post[i]
                == pre[i],
        forall|i: int|
            0 <= i < post.len() && #[trigger] post[i].telegram_id == t ==> i < pre.len() && pre[i]
                == post[i],
    ensures
        role_of(post, t) == role_of(pre, t),
{
    if has_role_row(pre, t) {
        let i = choose|i: int| 0 <= i < pre.len() && pre[i].telegram_id == t;
        lemma_role_of_agrees(pre, t, i);
        lemma_role_of_agrees(post, t, i);
    } else if has_role_row(post, t) {
        let i = choose|i: int| 0 <= i < post.len() && post[i].telegram_id == t;
        assert(pre[i].telegram_id == t);
    }
}

/// Updating a role row in place preserves well-formedness of the role table
/// and the roles of everyone else.
proof fn lemma_roles_update_wf(
    pre: Seq<UserRole>,
    post: Seq<UserRole>,
    i: int,
    t: i64,
    fresh: UserRole,
)
    requires
        0 <= i < pre.len(),
        pre[i].telegram_id == t,
        fresh.telegram_id == t,
        post == pre.update(i, fresh),
        forall|a: int, b: int|
            0 <= a < b < pre.len() ==> #[trigger] pre[a].telegram_id != #[trigger] pre[b].telegram_id,
    ensures
        forall|a: int, b: int|
            0 <= a < b < post.len() ==> #[trigger] post[a].telegram_id
                != #[trigger] post[b].telegram_id,
        role_of(post, t) == fresh.role as int,
        has_role_row(post, t),
        role_index(pre, t) == i,
        forall|t2: i64| t2 != t ==> #[trigger] role_of(post, t2) == role_of(pre, t2),
    decreases pre.len(),
{
    lemma_role_of_agrees(pre, t, i);
    assert forall|a: int, b: int|
        0 <= a < b < post.len() implies #[trigger] post[a].telegram_id
        != #[trigger] post[b].telegram_id by {
        assert(pre[a].telegram_id != pre[b].telegram_id);
    }
    lemma_role_of_agrees(post, t, i);
    assert forall|t2: i64| t2 != t implies #[trigger] role_of(post, t2) == role_of(pre, t2) by {
        lemma_role_of_frame(pre, post, t2);
    }
}

/// Filtering the vote table preserves well-formedness.
proof fn lemma_votes_keep_wf(pre: VotesModel, post: VotesModel, q: spec_fn(Vote) -> bool)
    requires
        pre.wf(),
        post.votes == keep_where(pre.votes, q),
        post.roles == pre.roles,
        post.next_vote_id == pre.next_vote_id,
    ensures
        post.wf(),
{
    lemma_keep_where_all(pre.votes, q);
    assert forall|c: i64, t: i64| #[trigger] count_where(post.votes, pair_of(c, t)) <= 1 by {
        lemma_count_where_keep_le(pre.votes, q, pair_of(c, t));
    }
    assert forall|b: i64| #[trigger] count_where(post.votes, with_vote_id(b)) <= 1 by {
        lemma_count_where_keep_le(pre.votes, q, with_vote_id(b));
    }
    assert forall|i: int|
        0 <= i < post.votes.len() implies #[trigger] post.votes[i].id < post.next_vote_id by {
        assert(pre.votes.contains(post.votes[i]));
        let k = choose|k: int| 0 <= k < pre.votes.len() && pre.votes[k] == post.votes[i];
        assert(pre.votes[k].id < pre.next_vote_id);
    }
}

/// What the router hands back: the routed candidate, if any, and the
/// screener's role.
#[derive(Clone, Copy, Debug, PartialEq, Eq, Structural)]
pub struct NextSurveyOutcome {
    pub survey_id: Option<i64>,
    pub user_role: i32,
}

/// Ordinary-screener eligibility, judged on the post-sweep table: the
/// screener has not touched the candidate, the quorum is not yet reached,
/// and nobody holds a claim on it.
pub open spec fn eligible_ordinary(votes: Seq<Vote>, voter: i64, c: i64) -> bool {
    &&& !touched(votes, c, voter)
    &&& real_count(votes, c) < REVIEW_QUORUM as int
    &&& claim_count(votes, c) == 0
}

/// Privileged-screener eligibility: the quorum is reached and no privileged
/// voter has any row on the candidate yet.
pub open spec fn eligible_privileged(votes: Seq<Vote>, roles: Seq<UserRole>, c: i64) -> bool {
    &&& real_count(votes, c) >= REVIEW_QUORUM as int
    &&& !has_priv_row(votes, roles, c)
}

/// Walks the candidate list keeping the eligible candidate with the most
/// real votes; a tie keeps the earlier candidate.
pub open spec fn pick_ordinary_from(
    votes: Seq<Vote>,
    voter: i64,
    universe: Seq<i64>,
    i: int,
    best: Option<i64>,
    best_real: int,
) -> Option<i64>
    decreases universe.len() - i,
{
    if i < 0 || i >= universe.len() {
        best
    } else {
        let c = universe[i];
        if eligible_ordinary(votes, voter, c) && real_count(votes, c) > best_real {
            pick_ordinary_from(votes, voter, universe, i + 1, Some(c), real_count(votes, c))
        } else {
            pick_ordinary_from(votes, voter, universe, i + 1, best, best_real)
        }
    }
}

/// The ordinary router's choice: the eligible candidate closest to the
/// quorum, earliest in the list on a tie.
pub open spec fn pick_ordinary(votes: Seq<Vote>, voter: i64, universe: Seq<i64>) -> Option<i64> {
    pick_ordinary_from(votes, voter, universe, 0, None, -1)
}

pub open spec fn pick_privileged_from(
    votes: Seq<Vote>,
    roles: Seq<UserRole>,
    universe: Seq<i64>,
    i: int,
) -> Option<i64>
    decreases universe.len() - i,
{
    if i < 0 || i >= universe.len() {
        None
    } else if eligible_privileged(votes, roles, universe[i]) {
        Some(universe[i])
    } else {
        pick_privileged_from(votes, roles, universe, i + 1)
    }
}

/// The privileged router's choice: the first eligible candidate in the list.
pub open spec fn pick_privileged(votes: Seq<Vote>, roles: Seq<UserRole>, universe: Seq<i64>) -> Option<
    i64,
> {
    pick_privileged_from(votes, roles, universe, 0)
}

/// The claim lease row the router inserts on a successful pick.
pub open spec fn claim_row(id: int, c: i64, voter: i64, now: i64) -> Vote {
    Vote {
        id: id as i64,
        survey_id: c,
        voter_telegram_id: voter,
        decision: 0,
        comment: Some(VoteComment::Claim),
        created_at: now,
    }
}

/// The routing transition: sweep the screener's stale claims, pick by role,
/// and on a pick insert the claim lease.
pub open spec fn spec_next_survey(m: VotesModel, voter: i64, universe: Seq<i64>, now: i64) -> (
    VotesModel,
    Option<i64>,
) {
    let cleared = keep_where(m.votes, not_claim_by(voter));
    let pick = if role_of(m.roles, voter) == 1 {
        pick_privileged(cleared, m.roles, universe)
    } else {
        pick_ordinary(cleared, voter, universe)
    };
    match pick {
        Some(c) => (
            VotesModel {
                votes: cleared.push(claim_row(m.next_vote_id, c, voter, now)),
                next_vote_id: m.next_vote_id + 1,
                ..m
            },
            Some(c),
        ),
        None => (VotesModel { votes: cleared, ..m }, None),
    }
}

proof fn lemma_pick_ordinary_from_props(
    votes: Seq<Vote>,
    voter: i64,
    universe: Seq<i64>,
    i: int,
    best: Option<i64>,
    best_real: int,
)
    requires
        0 <= i <= universe.len(),
        match best {
            Some(b) => eligible_ordinary(votes, voter, b) && best_real == real_count(votes, b) && (
            exists|k: int| 0 <= k < universe.len() && universe[k] == b) && (forall|j: int|
                0 <= j < i && eligible_ordinary(votes, voter, #[trigger] universe[j])
                    ==> real_count(votes, universe[j]) <= best_real),
            None => best_real <= -1 && (forall|j: int|
                0 <= j < i ==> !eligible_ordinary(votes, voter, #[trigger] universe[j])),
        },
    ensures
        match pick_ordinary_from(votes, voter, universe, i, best, best_real) {
            Some(c) => eligible_ordinary(votes, voter, c) && (exists|k: int|
                0 <= k < universe.len() && universe[k] == c) && (forall|j: int|
                0 <= j < universe.len() && eligible_ordinary(votes, voter, #[trigger] universe[j])
                    ==> real_count(votes, universe[j]) <= real_count(votes, c)),
            None => forall|j: int|
                0 <= j < universe.len() ==> !eligible_ordinary(votes, voter, #[trigger] universe[j]),
        },
    decreases universe.len() - i,
{
    if i == universe.len() {
    } else {
        let c = universe[i];
        lemma_count_where_bounds(votes, real_on(c));
        if eligible_ordinary(votes, voter, c) && real_count(votes, c) > best_real {
            lemma_pick_ordinary_from_props(
                votes,
                voter,
                universe,
                i + 1,
                Some(c),
                real_count(votes, c),
            );
        } else {
            lemma_pick_ordinary_from_props(votes, voter, universe, i + 1, best, best_real);
        }
    }
}

/// What the ordinary pick guarantees: a routed candidate is eligible and
/// closest to the quorum among all eligible ones; no pick means nothing in
/// the list was eligible.
pub proof fn lemma_pick_ordinary_props(votes: Seq<Vote>, voter: i64, universe: Seq<i64>)
    ensures
        match pick_ordinary(votes, voter, universe) {
            Some(c) => eligible_ordinary(votes, voter, c) && (exists|k: int|
                0 <= k < universe.len() && universe[k] == c) && (forall|j: int|
                0 <= j < universe.len() && eligible_ordinary(votes, voter, #[trigger] universe[j])
                    ==> real_count(votes, universe[j]) <= real_count(votes, c)),
            None => forall|j: int|
                0 <= j < universe.len() ==> !eligible_ordinary(votes, voter, #[trigger] universe[j]),
        },
{
    lemma_pick_ordinary_from_props(votes, voter, universe, 0, None, -1);
}

proof fn lemma_pick_privileged_from_props(
    votes: Seq<Vote>,
    roles: Seq<UserRole>,
    universe: Seq<i64>,
    i: int,
)
    requires
        0 <= i <= universe.len(),
    ensures
        match pick_privileged_from(votes, roles, universe, i) {
            Some(c) => eligible_privileged(votes, roles, c) && (exists|k: int|
                0 <= k < universe.len() && universe[k] == c),
            None => forall|j: int|
                i <= j < universe.len() ==> !eligible_privileged(
                    votes,
                    roles,
                    #[trigger] universe[j],
                ),
        },
    decreases universe.len() - i,
{
    if i < universe.len() {
        if !eligible_privileged(votes, roles, universe[i]) {
            lemma_pick_privileged_from_props(votes, roles, universe, i + 1);
        }
    }
}

/// What the privileged pick guarantees.
pub proof fn lemma_pick_privileged_props(votes: Seq<Vote>, roles: Seq<UserRole>, universe: Seq<i64>)
    ensures
        match pick_privileged(votes, roles, universe) {
            Some(c) => eligible_privileged(votes, roles, c) && (exists|k: int|
                0 <= k < universe.len() && universe[k] == c),
            None => forall|j: int|
                0 <= j < universe.len() ==> !eligible_privileged(
                    votes,
                    roles,
                    #[trigger] universe[j],
                ),
        },
{
    lemma_pick_privileged_from_props(votes, roles, universe, 0);
}

/// A candidate under an active claim is never routed to an ordinary
/// screener: whoever claims first excludes everyone else.
pub proof fn lemma_claim_blocks_rerouting(votes: Seq<Vote>, voter: i64, universe: Seq<i64>, c: i64)
    requires
        claim_count(votes, c) > 0,
    ensures
        pick_ordinary(votes, voter, universe) != Some(c),
{
    lemma_pick_ordinary_props(votes, voter, universe);
}

/// Contention for a single eligible candidate: once a claim on it is in the
/// table, the ordinary router has nothing left to hand out.
pub proof fn lemma_single_candidate_contention(
    votes: Seq<Vote>,
    voter: i64,
    universe: Seq<i64>,
    c: i64,
)
    requires
        claim_count(votes, c) > 0,
        forall|j: int|
            0 <= j < universe.len() && universe[j] != c ==> !eligible_ordinary(
                votes,
                voter,
                #[trigger] universe[j],
            ),
    ensures
        pick_ordinary(votes, voter, universe) is None,
{
    lemma_pick_ordinary_props(votes, voter, universe);
    if pick_ordinary(votes, voter, universe) is Some {
        let c2 = pick_ordinary(votes, voter, universe).unwrap();
        let k = choose|k: int| 0 <= k < universe.len() && universe[k] == c2;
        if c2 == c {
            assert(claim_count(votes, c) == 0);
        }
    }
}

/// Mutual exclusion across two routing calls: once the router hands
/// candidate `c` to one ordinary screener and takes the claim, routing any
/// other ordinary screener — however their own stale claims are swept —
/// cannot hand out `c` again.
pub proof fn lemma_router_mutual_exclusion(
    m: VotesModel,
    v1: i64,
    v2: i64,
    universe: Seq<i64>,
    now1: i64,
    now2: i64,
)
    requires
        v1 != v2,
        role_of(m.roles, v2) != 1,
        spec_next_survey(m, v1, universe, now1).1 is Some,
    ensures
        spec_next_survey(spec_next_survey(m, v1, universe, now1).0, v2, universe, now2).1
            != spec_next_survey(m, v1, universe, now1).1,
{
    let c = spec_next_survey(m, v1, universe, now1).1.unwrap();
    let m1 = spec_next_survey(m, v1, universe, now1).0;
    let lease = claim_row(m.next_vote_id, c, v1, now1);
    assert(m1.votes.last() == lease);
    assert(is_claim(lease));
    let cleared2 = keep_where(m1.votes, not_claim_by(v2));
    lemma_keep_where_all(m1.votes, not_claim_by(v2));
    assert(not_claim_by(v2)(lease));
    assert(cleared2.contains(lease));
    let k = choose|k: int| 0 <= k < cleared2.len() && cleared2[k] == lease;
    lemma_count_where_pos(cleared2, claim_on(c), k);
    lemma_claim_blocks_rerouting(cleared2, v2, universe, c);
    assert(m1.roles == m.roles);
}

/// A candidate at or past the quorum of real votes is invisible to ordinary
/// screeners; only privileged routing can reach it.
pub proof fn lemma_quorum_blocks_ordinary(votes: Seq<Vote>, voter: i64, universe: Seq<i64>, c: i64)
    requires
        real_count(votes, c) >= REVIEW_QUORUM as int,
    ensures
        pick_ordinary(votes, voter, universe) != Some(c),
{
    lemma_pick_ordinary_props(votes, voter, universe);
}

impl VoteStore {
    /// Index of the row of `(survey, voter)`, if any.
    fn find_pair(&self, c: i64, t: i64) -> (r: Option<usize>)
        ensures
            match r {
                Some(i) => i < self@.votes.len() && self@.votes[i as int].survey_id == c
                    && self@.votes[i as int].voter_telegram_id == t,
                None => !touched(self@.votes, c, t),
            },
    {
        let mut i: usize = 0;
        while i < self.votes.len()
            invariant
                i <= self@.votes.len(),
                forall|j: int|
                    0 <= j < i ==> !(#[trigger] self@.votes[j].survey_id == c
                        && self@.votes[j].voter_telegram_id == t),
            decreases self@.votes.len() - i,
        {
            if self.votes[i].survey_id == c && self.votes[i].voter_telegram_id == t {
                return Some(i);
            }
            i += 1;
        }
        None
    }

    fn pick_ordinary_exec(&self, voter: i64, universe: &Vec<i64>) -> (r: Option<i64>)
        ensures
            r == pick_ordinary(self@.votes, voter, universe@),
    {
        let mut best: Option<i64> = None;
        let mut best_real: usize = 0;
        let mut i: usize = 0;
        while i < universe.len()
            invariant
                i <= universe@.len(),
                pick_ordinary_from(
                    self@.votes,
                    voter,
                    universe@,
                    i as int,
                    best,
                    if best is Some {
                        best_real as int
                    } else {
                        -1
                    },
                ) == pick_ordinary(self@.votes, voter, universe@),
            decreases universe@.len() - i,
        {
            let c = universe[i];
            let real_cnt = self.count_votes_where_real(c);
            let claim_cnt = self.count_votes_where_claim(c);
            let pair = self.find_pair(c, voter);
            let elig = pair.is_none() && real_cnt < REVIEW_QUORUM && claim_cnt == 0;
            proof {
                if pair is Some {
                    assert(touched(self@.votes, c, voter));
                }
                assert(elig == eligible_ordinary(self@.votes, voter, c));
            }
            let better = match best {
                None => elig,
                Some(_) => elig && real_cnt > best_real,
            };
            if better {
                best = Some(c);
                best_real = real_cnt;
            }
            i += 1;
        }
        best
    }

    fn pick_privileged_exec(&self, universe: &Vec<i64>) -> (r: Option<i64>)
        requires
            self@.wf(),
        ensures
            r == pick_privileged(self@.votes, self@.roles, universe@),
    {
        let mut i: usize = 0;
        while i < universe.len()
            invariant
                self@.wf(),
                i <= universe@.len(),
                pick_privileged_from(self@.votes, self@.roles, universe@, i as int)
                    == pick_privileged(self@.votes, self@.roles, universe@),
            decreases universe@.len() - i,
        {
            let c = universe[i];
            let real_cnt = self.count_votes_where_real(c);
            let has_priv = self.has_privileged_row(c);
            if real_cnt >= REVIEW_QUORUM && !has_priv {
                return Some(c);
            }
            i += 1;
        }
        None
    }

    /// The Survey Router: sweeps the screener's stale claim leases, picks
    /// the next candidate for their role, and — on a pick — takes the claim
    /// lease, all in one step of the store.
    pub fn get_next_survey(&mut self, voter_telegram_id: i64, universe: &Vec<i64>, now: i64) -> (r:
        NextSurveyOutcome)
        requires
            old(self)@.wf(),
            old(self)@.next_vote_id < i64::MAX,
        ensures
            final(self)@.wf(),
            final(self)@.roles == old(self)@.roles,
            final(self)@ == spec_next_survey(old(self)@, voter_telegram_id, universe@, now).0,
            r.survey_id == spec_next_survey(old(self)@, voter_telegram_id, universe@, now).1,
            r.user_role as int == role_of(old(self)@.roles, voter_telegram_id),
            r.survey_id is Some ==> claim_count(final(self)@.votes, r.survey_id.unwrap()) > 0
                && touched(final(self)@.votes, r.survey_id.unwrap(), voter_telegram_id),
    {
        let ghost pre = self@;
        let role = match self.get_user_role(voter_telegram_id) {
            Some(x) => x,
            None => 0,
        };
        let _ = self.clear_user_locks(voter_telegram_id);
        let ghost cleared = self@.votes;
        let pick = if role == 1 {
            self.pick_privileged_exec(universe)
        } else {
            self.pick_ordinary_exec(voter_telegram_id, universe)
        };
        let c = match pick {
            None => {
                return NextSurveyOutcome { survey_id: None, user_role: role };
            },
            Some(c) => c,
        };
        proof {
            if role == 1 {
                lemma_pick_privileged_props(cleared, pre.roles, universe@);
                if touched(cleared, c, voter_telegram_id) {
                    let k = choose|k: int|
                        0 <= k < cleared.len() && cleared[k].survey_id == c
                            && cleared[k].voter_telegram_id == voter_telegram_id;
                    assert(has_priv_row(cleared, pre.roles, c));
                }
            } else {
                lemma_pick_ordinary_props(cleared, voter_telegram_id, universe@);
            }
            assert(!touched(cleared, c, voter_telegram_id));
        }
        let won = self.attempt_claim(c, voter_telegram_id, now);
        proof {
            assert(won);
            lemma_count_where_push(cleared, claim_on(c), claim_row(
                pre.next_vote_id,
                c,
                voter_telegram_id,
                now,
            ));
            lemma_count_where_bounds(cleared, claim_on(c));
            assert(self@.votes[self@.votes.len() - 1].survey_id == c);
        }
        NextSurveyOutcome { survey_id: Some(c), user_role: role }
    }
}

/// Appending a fresh row for an untouched `(survey, voter)` pair preserves
/// well-formedness.
proof fn lemma_votes_push_wf(pre: VotesModel, post: VotesModel, fresh: Vote)
    requires
        pre.wf(),
        !touched(pre.votes, fresh.survey_id, fresh.voter_telegram_id),
        fresh.id == pre.next_vote_id,
        i64::MIN <= pre.next_vote_id < i64::MAX,
        post.votes == pre.votes.push(fresh),
        post.roles == pre.roles,
        post.next_vote_id == pre.next_vote_id + 1,
    ensures
        post.wf(),
{
    assert forall|c: i64, t: i64| #[trigger] count_where(post.votes, pair_of(c, t)) <= 1 by {
        lemma_count_where_push(pre.votes, pair_of(c, t), fresh);
        lemma_count_where_bounds(pre.votes, pair_of(c, t));
        if c == fresh.survey_id && t == fresh.voter_telegram_id {
            assert forall|i: int| 0 <= i < pre.votes.len() implies !(pair_of(c, t)(
                #[trigger] pre.votes[i],
            )) by {
                assert(!(pre.votes[i].survey_id == c && pre.votes[i].voter_telegram_id == t));
            }
            lemma_count_where_zero(pre.votes, pair_of(c, t));
        }
    }
    assert forall|b: i64| #[trigger] count_where(post.votes, with_vote_id(b)) <= 1 by {
        lemma_count_where_push(pre.votes, with_vote_id(b), fresh);
        lemma_count_where_bounds(pre.votes, with_vote_id(b));
        if b == fresh.id {
            assert forall|i: int| 0 <= i < pre.votes.len() implies !(with_vote_id(b)(
                #[trigger] pre.votes[i],
            )) by {
                assert(pre.votes[i].id < pre.next_vote_id);
            }
            lemma_count_where_zero(pre.votes, with_vote_id(b));
        }
    }
}

/// The vote-uniqueness invariant, named: a well-formed table holds at most
/// one row per `(survey, voter)` pair — the primitive the atomic claim
/// rests on.
pub proof fn lemma_vote_pair_unique(m: VotesModel, c: i64, t: i64)
    requires
        m.wf(),
    ensures
        count_where(m.votes, pair_of(c, t)) <= 1,
{
}

/// Whether the claim lease of `(survey, voter)` is in the table.
pub open spec fn has_claim_pair(votes: Seq<Vote>, c: i64, t: i64) -> bool {
    exists|i: int|
        0 <= i < votes.len() && votes[i].survey_id == c && votes[i].voter_telegram_id == t
            && is_claim(votes[i])
}

pub open spec fn pair_index(votes: Seq<Vote>, c: i64, t: i64) -> int {
    choose|i: int|
        0 <= i < votes.len() && votes[i].survey_id == c && votes[i].voter_telegram_id == t
}

pub open spec fn vote_id_index(votes: Seq<Vote>, b: i64) -> int {
    choose|i: int| 0 <= i < votes.len() && votes[i].id == b
}

pub open spec fn has_vote_id(votes: Seq<Vote>, b: i64) -> bool {
    exists|i: int| 0 <= i < votes.len() && votes[i].id == b
}

/// The seed row planted when a candidate first appears in the directory.
pub open spec fn seed_row(id: int, c: i64, now: i64) -> Vote {
    Vote {
        id: id as i64,
        survey_id: c,
        voter_telegram_id: 0,
        decision: (-1) as i32,
        comment: Some(VoteComment::Init),
        created_at: now,
    }
}

/// The vote-recording transition: a claim held by the voter is finalised in
/// place; with no row at all a fresh one is inserted; a finished row is a
/// conflict.
pub open spec fn spec_create_vote(
    m: VotesModel,
    c: i64,
    decision: i32,
    comment: Option<VoteComment>,
    voter: i64,
    now: i64,
) -> (VotesModel, Result<Vote, VoteError>) {
    if has_claim_pair(m.votes, c, voter) {
        let i = pair_index(m.votes, c, voter);
        let updated = Vote {
            id: m.votes[i].id,
            survey_id: c,
            voter_telegram_id: voter,
            decision,
            comment,
            created_at: m.votes[i].created_at,
        };
        (VotesModel { votes: m.votes.update(i, updated), ..m }, Ok(updated))
    } else if touched(m.votes, c, voter) {
        (m, Err(VoteError::Conflict))
    } else {
        let fresh = Vote {
            id: m.next_vote_id as i64,
            survey_id: c,
            voter_telegram_id: voter,
            decision,
            comment,
            created_at: now,
        };
        (
            VotesModel { votes: m.votes.push(fresh), next_vote_id: m.next_vote_id + 1, ..m },
            Ok(fresh),
        )
    }
}

/// The candidate-seeding transition: walk the directory listing and plant
/// one seed row for every candidate that has no rows yet, collecting the
/// newly seeded ids.
pub open spec fn spec_seed(m: VotesModel, universe: Seq<i64>, now: i64) -> (VotesModel, Seq<i64>)
    decreases universe.len(),
{
    if universe.len() == 0 {
        (m, Seq::empty())
    } else {
        let r0 = spec_seed(m, universe.drop_last(), now);
        let c = universe.last();
        if count_where(r0.0.votes, on_survey(c)) == 0 {
            (
                VotesModel {
                    votes: r0.0.votes.push(seed_row(r0.0.next_vote_id, c, now)),
                    next_vote_id: r0.0.next_vote_id + 1,
                    ..r0.0
                },
                r0.1.push(c),
            )
        } else {
            r0
        }
    }
}

/// With unique `(survey, voter)` pairs, the chosen pair index agrees with
/// any witness index.
proof fn lemma_pair_agrees(votes: Seq<Vote>, c: i64, t: i64, i: int)
    requires
        count_where(votes, pair_of(c, t)) <= 1,
        0 <= i < votes.len(),
        votes[i].survey_id == c,
        votes[i].voter_telegram_id == t,
    ensures
        touched(votes, c, t),
        pair_index(votes, c, t) == i,
{
    assert(touched(votes, c, t));
    let j = pair_index(votes, c, t);
    assert(0 <= j < votes.len() && votes[j].survey_id == c && votes[j].voter_telegram_id == t);
    if i < j {
        lemma_count_where_two(votes, pair_of(c, t), i, j);
    } else if j < i {
        lemma_count_where_two(votes, pair_of(c, t), j, i);
    }
}

/// With unique vote ids, the chosen id index agrees with any witness index.
proof fn lemma_vote_id_agrees(votes: Seq<Vote>, b: i64, i: int)
    requires
        count_where(votes, with_vote_id(b)) <= 1,
        0 <= i < votes.len(),
        votes[i].id == b,
    ensures
        has_vote_id(votes, b),
        vote_id_index(votes, b) == i,
{
    assert(has_vote_id(votes, b));
    let j = vote_id_index(votes, b);
    if i < j {
        lemma_count_where_two(votes, with_vote_id(b), i, j);
    } else if j < i {
        lemma_count_where_two(votes, with_vote_id(b), j, i);
    }
}

/// Rewriting a row in place without touching its identity or its
/// `(survey, voter)` pair preserves well-formedness.
proof fn lemma_votes_update_wf(pre: VotesModel, post: VotesModel, i: int, updated: Vote)
    requires
        pre.wf(),
        0 <= i < pre.votes.len(),
        updated.survey_id == pre.votes[i].survey_id,
        updated.voter_telegram_id == pre.votes[i].voter_telegram_id,
        updated.id == pre.votes[i].id,
        post.votes == pre.votes.update(i, updated),
        post.roles == pre.roles,
        post.next_vote_id == pre.next_vote_id,
    ensures
        post.wf(),
{
    assert forall|c: i64, t: i64| #[trigger] count_where(post.votes, pair_of(c, t)) <= 1 by {
        lemma_count_where_update(pre.votes, pair_of(c, t), i, updated);
    }
    assert forall|b: i64| #[trigger] count_where(post.votes, with_vote_id(b)) <= 1 by {
        lemma_count_where_update(pre.votes, with_vote_id(b), i, updated);
    }
    assert forall|k: int|
        0 <= k < post.votes.len() implies #[trigger] post.votes[k].id < post.next_vote_id by {
        if k != i {
            assert(post.votes[k] == pre.votes[k]);
        }
    }
}

/// Predicate: the role row belongs to recipient `t`.
pub open spec fn role_row_of(t: i64) -> spec_fn(UserRole) -> bool {
    |r: UserRole| r.telegram_id == t
}

/// Predicate: the role row does not belong to recipient `t`.
pub open spec fn role_row_not_of(t: i64) -> spec_fn(UserRole) -> bool {
    |r: UserRole| r.telegram_id != t
}

/// Filtering the role table keeps its rows pairwise distinct.
proof fn lemma_roles_keep_pairwise(pre: Seq<UserRole>, q: spec_fn(UserRole) -> bool)
    requires
        forall|a: int, b: int|
            0 <= a < b < pre.len() ==> #[trigger] pre[a].telegram_id != #[trigger] pre[b].telegram_id,
    ensures
        forall|a: int, b: int|
            0 <= a < b < keep_where(pre, q).len() ==> #[trigger] keep_where(pre, q)[a].telegram_id
                != #[trigger] keep_where(pre, q)[b].telegram_id,
{
    let post = keep_where(pre, q);
    assert forall|a: int, b: int|
        0 <= a < b < post.len() implies #[trigger] post[a].telegram_id
        != #[trigger] post[b].telegram_id by {
        let t = post[a].telegram_id;
        if post[b].telegram_id == t {
            assert forall|x: int, y: int|
                0 <= x < y < pre.len() implies !(role_row_of(t)(#[trigger] pre[x]) && role_row_of(t)(
                #[trigger] pre[y],
            )) by {
                assert(pre[x].telegram_id != pre[y].telegram_id);
            }
            lemma_count_where_unique(pre, role_row_of(t));
            lemma_count_where_keep_le(pre, q, role_row_of(t));
            lemma_count_where_two(post, role_row_of(t), a, b);
        }
    }
}

impl VoteStore {
    /// Records a vote: finalises the voter's claim lease in place, or —
    /// when no lease and no row exist — inserts a fresh vote row. A voter
    /// who already has a finished row on this survey gets a conflict; the
    /// pair keeps exactly one row either way.
    pub fn create_vote(
        &mut self,
        request: CreateVoteRequest,
        voter_telegram_id: i64,
        now: i64,
    ) -> (r: Result<Vote, VoteError>)
        requires
            old(self)@.wf(),
            old(self)@.next_vote_id < i64::MAX,
        ensures
            final(self)@.wf(),
            final(self)@.roles == old(self)@.roles,
            final(self)@ == spec_create_vote(
                old(self)@,
                request.survey_id,
                request.decision,
                request.comment,
                voter_telegram_id,
                now,
            ).0,
            (match r {
                Ok(v) => spec_create_vote(
                    old(self)@,
                    request.survey_id,
                    request.decision,
                    request.comment,
                    voter_telegram_id,
                    now,
                ).1 == Ok::<Vote, VoteError>(v),
                Err(e) => spec_create_vote(
                    old(self)@,
                    request.survey_id,
                    request.decision,
                    request.comment,
                    voter_telegram_id,
                    now,
                ).1 == Err::<Vote, VoteError>(e),
            }),
            r is Ok ==> count_where(
                final(self)@.votes,
                pair_of(request.survey_id, voter_telegram_id),
            ) == 1,
            r is Err <==> (touched(old(self)@.votes, request.survey_id, voter_telegram_id)
                && !has_claim_pair(old(self)@.votes, request.survey_id, voter_telegram_id)),
    {
        let ghost pre = self@;
        let CreateVoteRequest { survey_id, decision, comment } = request;
        match self.find_pair(survey_id, voter_telegram_id) {
            Some(i) => {
                proof {
                    lemma_pair_agrees(pre.votes, survey_id, voter_telegram_id, i as int);
                }
                let row_is_claim = matches!(self.votes[i].comment, Some(VoteComment::Claim));
                if row_is_claim {
                    let rid = self.votes[i].id;
                    let rcreated = self.votes[i].created_at;
                    let updated = Vote {
                        id: rid,
                        survey_id,
                        voter_telegram_id,
                        decision,
                        comment,
                        created_at: rcreated,
                    };
                    let returned = updated.clone();
                    let _ = self.votes.remove(i);
                    self.votes.insert(i, updated);
                    proof {
                        assert(self@.votes =~= pre.votes.update(i as int, returned));
                        lemma_votes_update_wf(pre, self@, i as int, returned);
                        lemma_count_where_update(
                            pre.votes,
                            pair_of(survey_id, voter_telegram_id),
                            i as int,
                            returned,
                        );
                        lemma_count_where_pos(
                            pre.votes,
                            pair_of(survey_id, voter_telegram_id),
                            i as int,
                        );
                    }
                    Ok(returned)
                } else {
                    proof {
                        if has_claim_pair(pre.votes, survey_id, voter_telegram_id) {
                            let j = choose|j: int|
                                0 <= j < pre.votes.len() && pre.votes[j].survey_id == survey_id
                                    && pre.votes[j].voter_telegram_id == voter_telegram_id
                                    && is_claim(pre.votes[j]);
                            lemma_pair_agrees(pre.votes, survey_id, voter_telegram_id, j);
                        }
                    }
                    Err(VoteError::Conflict)
                }
            },
            None => {
                let fresh = Vote {
                    id: self.next_vote_id,
                    survey_id,
                    voter_telegram_id,
                    decision,
                    comment,
                    created_at: now,
                };
                let returned = fresh.clone();
                self.votes.push(fresh);
                self.next_vote_id += 1;
                proof {
                    lemma_votes_push_wf(pre, self@, returned);
                    lemma_count_where_push(
                        pre.votes,
                        pair_of(survey_id, voter_telegram_id),
                        returned,
                    );
                    assert forall|k: int| 0 <= k < pre.votes.len() implies !(pair_of(
                        survey_id,
                        voter_telegram_id,
                    )(#[trigger] pre.votes[k])) by {
                        assert(!(pre.votes[k].survey_id == survey_id
                            && pre.votes[k].voter_telegram_id == voter_telegram_id));
                    }
                    lemma_count_where_zero(pre.votes, pair_of(survey_id, voter_telegram_id));
                    if has_claim_pair(pre.votes, survey_id, voter_telegram_id) {
                        let j = choose|j: int|
                            0 <= j < pre.votes.len() && pre.votes[j].survey_id == survey_id
                                && pre.votes[j].voter_telegram_id == voter_telegram_id && is_claim(
                                pre.votes[j],
                            );
                        assert(touched(pre.votes, survey_id, voter_telegram_id));
                    }
                }
                Ok(returned)
            },
        }
    }

    /// Records the vote and immediately routes the screener onward, as the
    /// voting surface does.
    pub fn handle_vote(
        &mut self,
        request: CreateVoteRequest,
        voter_telegram_id: i64,
        universe: &Vec<i64>,
        now: i64,
    ) -> (r: Result<(Vote, NextSurveyOutcome), VoteError>)
        requires
            old(self)@.wf(),
            old(self)@.next_vote_id + 1 < i64::MAX,
        ensures
            final(self)@.wf(),
            final(self)@.roles == old(self)@.roles,
            (match r {
                Err(e) => final(self)@ == old(self)@ && spec_create_vote(
                    old(self)@,
                    request.survey_id,
                    request.decision,
                    request.comment,
                    voter_telegram_id,
                    now,
                ).1 == Err::<Vote, VoteError>(e),
                Ok((v, nxt)) => spec_create_vote(
                    old(self)@,
                    request.survey_id,
                    request.decision,
                    request.comment,
                    voter_telegram_id,
                    now,
                ).1 == Ok::<Vote, VoteError>(v) && final(self)@ == spec_next_survey(
                    spec_create_vote(
                        old(self)@,
                        request.survey_id,
                        request.decision,
                        request.comment,
                        voter_telegram_id,
                        now,
                    ).0,
                    voter_telegram_id,
                    universe@,
                    now,
                ).0 && nxt.survey_id == spec_next_survey(
                    spec_create_vote(
                        old(self)@,
                        request.survey_id,
                        request.decision,
                        request.comment,
                        voter_telegram_id,
                        now,
                    ).0,
                    voter_telegram_id,
                    universe@,
                    now,
                ).1 && nxt.user_role as int == role_of(old(self)@.roles, voter_telegram_id),
            }),
    {
        let vote = match self.create_vote(request, voter_telegram_id, now) {
            Err(e) => {
                return Err(e);
            },
            Ok(v) => v,
        };
        let nxt = self.get_next_survey(voter_telegram_id, universe, now);
        Ok((vote, nxt))
    }

    /// Rewrites a vote row's decision and comment.
    pub fn update_vote(&mut self, vote_id: i64, vote: UpdateVoteRequest) -> (r: Result<
        Vote,
        VoteError,
    >)
        requires
            old(self)@.wf(),
        ensures
            final(self)@.wf(),
            final(self)@.roles == old(self)@.roles,
            final(self)@.next_vote_id == old(self)@.next_vote_id,
            r is Err ==> r == Err::<Vote, VoteError>(VoteError::NotFound) && final(self)@ == old(
                self,
            )@,
            r is Err <==> !has_vote_id(old(self)@.votes, vote_id),
            r is Ok ==> final(self)@.votes == old(self)@.votes.update(
                vote_id_index(old(self)@.votes, vote_id),
                r.unwrap(),
            ) && r.unwrap() == (Vote {
                decision: vote.decision,
                comment: vote.comment,
                ..old(self)@.votes[vote_id_index(old(self)@.votes, vote_id)]
            }),
    {
        let ghost pre = self@;
        let mut i: usize = 0;
        while i < self.votes.len()
            invariant
                self@ == pre,
                pre == old(self)@,
                pre.wf(),
                i <= pre.votes.len(),
                forall|j: int| 0 <= j < i ==> #[trigger] pre.votes[j].id != vote_id,
            decreases pre.votes.len() - i,
        {
            if self.votes[i].id == vote_id {
                proof {
                    lemma_vote_id_agrees(pre.votes, vote_id, i as int);
                }
                let row = &self.votes[i];
                let updated = Vote {
                    id: row.id,
                    survey_id: row.survey_id,
                    voter_telegram_id: row.voter_telegram_id,
                    decision: vote.decision,
                    comment: vote.comment,
                    created_at: row.created_at,
                };
                let returned = updated.clone();
                let _ = self.votes.remove(i);
                self.votes.insert(i, updated);
                proof {
                    assert(self@.votes =~= pre.votes.update(i as int, returned));
                    lemma_votes_update_wf(pre, self@, i as int, returned);
                }
                return Ok(returned);
            }
            i += 1;
        }
        Err(VoteError::NotFound)
    }

    /// Deletes one vote row by id. Deleting an absent row changes nothing.
    pub fn delete_vote(&mut self, vote_id: i64)
        requires
            old(self)@.wf(),
        ensures
            final(self)@.wf(),
            final(self)@.roles == old(self)@.roles,
            final(self)@.next_vote_id == old(self)@.next_vote_id,
            final(self)@.votes == keep_where(old(self)@.votes, not_with_vote_id(vote_id)),
    {
        let ghost pre = self@;
        let mut kept: Vec<Vote> = Vec::new();
        let mut i: usize = 0;
        while i < self.votes.len()
            invariant
                self@ == pre,
                i <= pre.votes.len(),
                kept@ == keep_where(pre.votes.take(i as int), not_with_vote_id(vote_id)),
            decreases pre.votes.len() - i,
        {
            proof {
                lemma_keep_where_take_step(pre.votes, not_with_vote_id(vote_id), i as int);
            }
            if self.votes[i].id != vote_id {
                kept.push(self.votes[i].clone());
            }
            i += 1;
        }
        proof {
            lemma_keep_where_take_all(pre.votes, not_with_vote_id(vote_id));
        }
        self.votes = kept;
        proof {
            lemma_votes_keep_wf(pre, self@, not_with_vote_id(vote_id));
        }
    }

    /// The rows on one survey, in insertion order.
    pub fn get_votes_by_survey(&self, survey_id: i64) -> (r: Vec<Vote>)
        ensures
            r@ == keep_where(self@.votes, on_survey(survey_id)),
    {
        let mut out: Vec<Vote> = Vec::new();
        let mut i: usize = 0;
        while i < self.votes.len()
            invariant
                i <= self@.votes.len(),
                out@ == keep_where(self@.votes.take(i as int), on_survey(survey_id)),
            decreases self@.votes.len() - i,
        {
            proof {
                lemma_keep_where_take_step(self@.votes, on_survey(survey_id), i as int);
            }
            if self.votes[i].survey_id == survey_id {
                out.push(self.votes[i].clone());
            }
            i += 1;
        }
        proof {
            assert(self@.votes.take(self@.votes.len() as int) =~= self@.votes);
        }
        out
    }

    /// Every vote row, in insertion order.
    pub fn get_all_votes(&self) -> (r: Vec<Vote>)
        ensures
            r@ == self@.votes,
    {
        let mut out: Vec<Vote> = Vec::new();
        let mut i: usize = 0;
        while i < self.votes.len()
            invariant
                i <= self@.votes.len(),
                out@ == self@.votes.take(i as int),
            decreases self@.votes.len() - i,
        {
            out.push(self.votes[i].clone());
            proof {
                assert(out@ =~= self@.votes.take(i + 1));
            }
            i += 1;
        }
        proof {
            assert(out@ =~= self@.votes);
        }
        out
    }

    fn count_votes_on_survey(&self, c: i64) -> (n: usize)
        ensures
            n as int == count_where(self@.votes, on_survey(c)),
    {
        let mut n: usize = 0;
        let mut i: usize = 0;
        while i < self.votes.len()
            invariant
                i <= self@.votes.len(),
                n <= i,
                n as int == count_where(self@.votes.take(i as int), on_survey(c)),
            decreases self@.votes.len() - i,
        {
            proof {
                lemma_count_where_take_step(self@.votes, on_survey(c), i as int);
            }
            if self.votes[i].survey_id == c {
                n += 1;
            }
            i += 1;
        }
        proof {
            lemma_count_where_take_all(self@.votes, on_survey(c));
        }
        n
    }

    /// Applies a fetched directory listing: candidates with no rows yet are
    /// seeded so that screeners can be routed to them; returns the newly
    /// seeded candidate ids.
    pub fn sync_users_from_external_api(&mut self, universe: &Vec<i64>, now: i64) -> (r: Vec<i64>)
        requires
            old(self)@.wf(),
            old(self)@.next_vote_id + universe@.len() <= i64::MAX,
        ensures
            final(self)@.wf(),
            final(self)@.roles == old(self)@.roles,
            final(self)@ == spec_seed(old(self)@, universe@, now).0,
            r@ == spec_seed(old(self)@, universe@, now).1,
    {
        let ghost pre = self@;
        let mut out: Vec<i64> = Vec::new();
        let mut i: usize = 0;
        while i < universe.len()
            invariant
                pre.wf(),
                pre == old(self)@,
                i <= universe@.len(),
                self@.wf(),
                self@.roles == pre.roles,
                self@ == spec_seed(pre, universe@.take(i as int), now).0,
                out@ == spec_seed(pre, universe@.take(i as int), now).1,
                self@.next_vote_id <= pre.next_vote_id + i,
                pre.next_vote_id + universe@.len() <= i64::MAX,
            decreases universe@.len() - i,
        {
            proof {
                assert(universe@.take(i + 1).drop_last() =~= universe@.take(i as int));
                assert(universe@.take(i + 1).last() == universe@[i as int]);
            }
            let c = universe[i];
            let cnt = self.count_votes_on_survey(c);
            if cnt == 0 {
                let ghost mid = self@;
                let fresh = Vote {
                    id: self.next_vote_id,
                    survey_id: c,
                    voter_telegram_id: 0,
                    decision: -1,
                    comment: Some(VoteComment::Init),
                    created_at: now,
                };
                self.votes.push(fresh);
                self.next_vote_id += 1;
                out.push(c);
                proof {
                    if touched(mid.votes, c, 0) {
                        let k = choose|k: int|
                            0 <= k < mid.votes.len() && mid.votes[k].survey_id == c
                                && mid.votes[k].voter_telegram_id == 0;
                        lemma_count_where_pos(mid.votes, on_survey(c), k);
                    }
                    lemma_votes_push_wf(mid, self@, seed_row(mid.next_vote_id, c, now));
                }
            }
            i += 1;
        }
        proof {
            assert(universe@.take(universe@.len() as int) =~= universe@);
        }
        out
    }

    /// Clears a recipient's role row; their bookings live in the slot store
    /// and are cleared there.
    pub fn delete_user(&mut self, telegram_id: i64)
        requires
            old(self)@.wf(),
        ensures
            final(self)@.wf(),
            final(self)@.votes == old(self)@.votes,
            final(self)@.next_vote_id == old(self)@.next_vote_id,
            final(self)@.roles == keep_where(old(self)@.roles, role_row_not_of(telegram_id)),
            role_of(final(self)@.roles, telegram_id) == 0,
    {
        let ghost pre = self@;
        let mut kept: Vec<UserRole> = Vec::new();
        let mut i: usize = 0;
        while i < self.roles.len()
            invariant
                self@ == pre,
                i <= pre.roles.len(),
                kept@ == keep_where(pre.roles.take(i as int), role_row_not_of(telegram_id)),
            decreases pre.roles.len() - i,
        {
            proof {
                lemma_keep_where_take_step(pre.roles, role_row_not_of(telegram_id), i as int);
            }
            if self.roles[i].telegram_id != telegram_id {
                kept.push(self.roles[i]);
            }
            i += 1;
        }
        proof {
            lemma_keep_where_take_all(pre.roles, role_row_not_of(telegram_id));
        }
        self.roles = kept;
        proof {
            lemma_roles_keep_pairwise(pre.roles, role_row_not_of(telegram_id));
            lemma_keep_where_all(pre.roles, role_row_not_of(telegram_id));
            if has_role_row(self@.roles, telegram_id) {
                let k = choose|k: int|
                    0 <= k < self@.roles.len() && self@.roles[k].telegram_id == telegram_id;
                assert(role_row_not_of(telegram_id)(self@.roles[k]));
            }
        }
    }
}

} // verus!
