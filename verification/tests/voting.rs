use interview_core::votes::{
    CreateVoteRequest, SurveyStatus, UpdateVoteRequest, VoteComment, VoteError, VoteStore,
};

fn real_vote(store: &mut VoteStore, survey: i64, voter: i64, decision: i32, now: i64) {
    let req = CreateVoteRequest { survey_id: survey, decision, comment: None };
    store.create_vote(req, voter, now).expect("vote should be recorded");
}

#[test]
fn roles_are_set_and_read_back() {
    let mut store = VoteStore::new();
    assert_eq!(store.get_user_role(7), None);
    store.set_user_role(7, 1, 10);
    assert_eq!(store.get_user_role(7), Some(1));
    store.set_user_role(7, 0, 11);
    assert_eq!(store.get_user_role(7), Some(0));
    store.set_user_role(8, 1, 12);
    assert_eq!(store.get_users(), vec![8]);
    store.delete_user(8);
    assert_eq!(store.get_user_role(8), None);
}

#[test]
fn claim_is_atomic_per_pair() {
    let mut store = VoteStore::new();
    assert!(store.attempt_claim(100, 1, 10));
    assert!(!store.attempt_claim(100, 1, 11));
    assert!(store.attempt_claim(100, 2, 12));
}

#[test]
fn finalising_a_claim_keeps_one_row() {
    let mut store = VoteStore::new();
    assert!(store.attempt_claim(100, 1, 10));
    let req = CreateVoteRequest {
        survey_id: 100,
        decision: 1,
        comment: Some(VoteComment::Text("fine candidate".to_string())),
    };
    let vote = store.create_vote(req, 1, 20).expect("claim should finalise");
    assert_eq!(vote.survey_id, 100);
    assert_eq!(vote.voter_telegram_id, 1);
    assert_eq!(vote.decision, 1);
    let rows = store.get_votes_by_survey(100);
    assert_eq!(rows.len(), 1);
    assert_eq!(rows[0].decision, 1);
}

#[test]
fn double_vote_is_a_conflict() {
    let mut store = VoteStore::new();
    real_vote(&mut store, 100, 1, 1, 10);
    let req = CreateVoteRequest { survey_id: 100, decision: 0, comment: None };
    assert!(matches!(store.create_vote(req, 1, 11), Err(VoteError::Conflict)));
    assert_eq!(store.get_votes_by_survey(100).len(), 1);
}

#[test]
fn tally_excludes_reserved_markers() {
    let mut store = VoteStore::new();
    let seeded = store.sync_users_from_external_api(&vec![100], 5);
    assert_eq!(seeded, vec![100]);
    assert!(store.attempt_claim(100, 9, 6));
    real_vote(&mut store, 100, 1, 1, 10);
    real_vote(&mut store, 100, 2, 0, 11);
    let tally = store.get_survey_vote_summary(100);
    assert_eq!(tally.total_votes, 2);
    assert_eq!(tally.approve_votes, 1);
    assert_eq!(tally.reject_votes, 1);
    assert!(matches!(tally.status, SurveyStatus::InProgress));
    assert!(!tally.has_responsible_vote);
}

#[test]
fn seeding_is_idempotent() {
    let mut store = VoteStore::new();
    assert_eq!(store.sync_users_from_external_api(&vec![10, 20], 5), vec![10, 20]);
    assert_eq!(store.sync_users_from_external_api(&vec![10, 20, 30], 6), vec![30]);
    assert_eq!(store.get_all_votes().len(), 3);
}

#[test]
fn quorum_hides_candidate_from_ordinary_reviewers() {
    let mut store = VoteStore::new();
    real_vote(&mut store, 100, 1, 1, 10);
    real_vote(&mut store, 100, 2, 1, 11);
    real_vote(&mut store, 100, 3, 0, 12);
    let outcome = store.get_next_survey(4, &vec![100], 20);
    assert_eq!(outcome.survey_id, None);
    assert_eq!(outcome.user_role, 0);
}

#[test]
fn privileged_reviewer_gets_quorum_candidate_with_tally() {
    let mut store = VoteStore::new();
    real_vote(&mut store, 100, 1, 1, 10);
    real_vote(&mut store, 100, 2, 1, 11);
    real_vote(&mut store, 100, 3, 0, 12);
    let tally = store.get_survey_vote_summary(100);
    assert_eq!(tally.total_votes, 3);
    assert_eq!(tally.approve_votes, 2);
    assert_eq!(tally.reject_votes, 1);
    assert!(matches!(tally.status, SurveyStatus::ReadyForReview));
    store.set_user_role(9, 1, 13);
    let outcome = store.get_next_survey(9, &vec![100], 20);
    assert_eq!(outcome.survey_id, Some(100));
    assert_eq!(outcome.user_role, 1);
    // The claim lease is reserved and does not change the reported tally.
    let tally2 = store.get_survey_vote_summary(100);
    assert_eq!(tally2.total_votes, 3);
    assert!(matches!(tally2.status, SurveyStatus::ReadyForReview));
}

#[test]
fn privileged_vote_completes_the_survey() {
    let mut store = VoteStore::new();
    real_vote(&mut store, 100, 1, 1, 10);
    real_vote(&mut store, 100, 2, 1, 11);
    real_vote(&mut store, 100, 3, 0, 12);
    store.set_user_role(9, 1, 13);
    let outcome = store.get_next_survey(9, &vec![100], 20);
    assert_eq!(outcome.survey_id, Some(100));
    real_vote(&mut store, 100, 9, 1, 21);
    let tally = store.get_survey_vote_summary(100);
    assert!(tally.has_responsible_vote);
    assert!(matches!(tally.status, SurveyStatus::Completed));
}

#[test]
fn contending_reviewers_get_one_winner() {
    let mut store = VoteStore::new();
    real_vote(&mut store, 100, 1, 1, 10);
    real_vote(&mut store, 100, 2, 1, 11);
    let first = store.get_next_survey(5, &vec![100], 20);
    assert_eq!(first.survey_id, Some(100));
    let second = store.get_next_survey(6, &vec![100], 21);
    assert_eq!(second.survey_id, None);
}

#[test]
fn router_prefers_the_candidate_closest_to_quorum() {
    let mut store = VoteStore::new();
    real_vote(&mut store, 100, 1, 1, 10);
    real_vote(&mut store, 200, 1, 1, 11);
    real_vote(&mut store, 200, 2, 1, 12);
    let outcome = store.get_next_survey(5, &vec![100, 200], 20);
    assert_eq!(outcome.survey_id, Some(200));
}

#[test]
fn router_sweeps_own_stale_claims() {
    let mut store = VoteStore::new();
    let first = store.get_next_survey(5, &vec![100], 10);
    assert_eq!(first.survey_id, Some(100));
    // The screener comes back without voting; the stale lease is swept and
    // the same candidate is handed out afresh.
    let again = store.get_next_survey(5, &vec![100], 20);
    assert_eq!(again.survey_id, Some(100));
    assert_eq!(store.get_votes_by_survey(100).len(), 1);
}

#[test]
fn clear_user_locks_reports_the_sweep() {
    let mut store = VoteStore::new();
    assert!(store.attempt_claim(100, 5, 10));
    assert!(store.attempt_claim(200, 5, 11));
    real_vote(&mut store, 300, 5, 1, 12);
    assert_eq!(store.clear_user_locks(5), 2);
    assert_eq!(store.get_all_votes().len(), 1);
}

#[test]
fn handle_vote_records_and_routes_on() {
    let mut store = VoteStore::new();
    let first = store.get_next_survey(5, &vec![100, 200], 10);
    assert_eq!(first.survey_id, Some(100));
    let req = CreateVoteRequest { survey_id: 100, decision: 1, comment: None };
    let (vote, next) = store.handle_vote(req, 5, &vec![100, 200], 20).expect("vote should pass");
    assert_eq!(vote.survey_id, 100);
    assert_eq!(next.survey_id, Some(200));
}

#[test]
fn update_and_delete_vote() {
    let mut store = VoteStore::new();
    real_vote(&mut store, 100, 1, 0, 10);
    let id = store.get_votes_by_survey(100)[0].id;
    let updated = store
        .update_vote(id, UpdateVoteRequest { decision: 1, comment: None })
        .expect("vote exists");
    assert_eq!(updated.decision, 1);
    assert!(matches!(
        store.update_vote(999, UpdateVoteRequest { decision: 1, comment: None }),
        Err(VoteError::NotFound)
    ));
    store.delete_vote(id);
    assert_eq!(store.get_votes_by_survey(100).len(), 0);
}
