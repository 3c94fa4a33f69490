use fvm_shared::address::Address;

use ipc_agent::checkpoint::{
    get_topdown_messages, list_checkpoints, plan_propagate, plan_submission, Checkpoint,
    CrossMessage, Direction, PropagateAction, VoteLog,
};
use ipc_agent::error::Error;

fn cp(epoch: i64) -> Checkpoint {
    Checkpoint { epoch, commitment: vec![epoch as u8] }
}

fn msg(nonce: u64) -> CrossMessage {
    CrossMessage {
        nonce,
        from: Address::new_id(100),
        to: Address::new_id(101),
        value_atto: 1_000,
    }
}

#[test]
fn checkpoints_in_range_are_selected_in_order() {
    let all = vec![cp(10), cp(20), cp(30), cp(40)];
    let r = list_checkpoints(all, 15, 35);
    let epochs: Vec<i64> = r.iter().map(|c| c.epoch).collect();
    assert_eq!(epochs, vec![20, 30]);
}

#[test]
fn checkpoints_range_bounds_are_inclusive() {
    let all = vec![cp(10), cp(20), cp(30)];
    let r = list_checkpoints(all, 10, 30);
    let epochs: Vec<i64> = r.iter().map(|c| c.epoch).collect();
    assert_eq!(epochs, vec![10, 20, 30]);
}

#[test]
fn empty_checkpoint_range_is_empty_not_an_error() {
    let all = vec![cp(10), cp(20)];
    let r = list_checkpoints(all, 100, 200);
    assert!(r.is_empty());
    let none = list_checkpoints(Vec::new(), 0, 100);
    assert!(none.is_empty());
}

#[test]
fn topdown_messages_contiguous_from_nonce_are_accepted() {
    let msgs = vec![msg(5), msg(6), msg(7)];
    let r = get_topdown_messages(5, msgs).unwrap();
    let nonces: Vec<u64> = r.iter().map(|m| m.nonce).collect();
    assert_eq!(nonces, vec![5, 6, 7]);
}

#[test]
fn topdown_messages_empty_is_accepted() {
    let r = get_topdown_messages(9, Vec::new()).unwrap();
    assert!(r.is_empty());
}

#[test]
fn topdown_messages_with_a_gap_are_a_nonce_gap() {
    let msgs = vec![msg(5), msg(7)];
    assert!(matches!(get_topdown_messages(5, msgs), Err(Error::NonceGap)));
}

#[test]
fn topdown_messages_from_wrong_start_are_a_nonce_gap() {
    let msgs = vec![msg(6), msg(7)];
    assert!(matches!(get_topdown_messages(5, msgs), Err(Error::NonceGap)));
}

#[test]
fn submission_at_or_behind_last_committed_is_stale() {
    // The receiving side already committed epoch 100: epoch 100 is stale,
    // template or no template.
    assert!(matches!(
        plan_submission(100, 100, false, Some(cp(100))),
        Err(Error::StaleCheckpoint)
    ));
    assert!(matches!(plan_submission(90, 100, false, None), Err(Error::StaleCheckpoint)));
}

#[test]
fn submission_without_a_template_is_not_yet_finalized() {
    assert!(matches!(plan_submission(110, 100, false, None), Err(Error::NotYetFinalized)));
    // A template for another epoch is no template for this one.
    assert!(matches!(
        plan_submission(110, 100, false, Some(cp(105))),
        Err(Error::NotYetFinalized)
    ));
}

#[test]
fn submission_after_a_recorded_vote_is_already_submitted() {
    assert!(matches!(
        plan_submission(110, 100, true, Some(cp(110))),
        Err(Error::AlreadySubmitted)
    ));
}

#[test]
fn fresh_submission_hands_back_the_template() {
    let c = plan_submission(110, 100, false, Some(cp(110))).unwrap();
    assert_eq!(c.epoch, 110);
}

#[test]
fn propagation_is_idempotent() {
    assert_eq!(plan_propagate(false), PropagateAction::Submit);
    assert_eq!(plan_propagate(true), PropagateAction::AlreadyExecuted);
}

#[test]
fn has_voted_is_false_until_a_vote_is_recorded() {
    let validator = Address::new_id(500);
    let mut log = VoteLog::new();
    assert!(!log.has_voted(Direction::BottomUp, 100, &validator));
    log.record_vote(Direction::BottomUp, 100, validator);
    assert!(log.has_voted(Direction::BottomUp, 100, &validator));
}

#[test]
fn a_vote_covers_only_its_own_triple() {
    let validator = Address::new_id(500);
    let other = Address::new_id(501);
    let mut log = VoteLog::new();
    log.record_vote(Direction::BottomUp, 100, validator);
    assert!(!log.has_voted(Direction::BottomUp, 101, &validator));
    assert!(!log.has_voted(Direction::TopDown, 100, &validator));
    assert!(!log.has_voted(Direction::BottomUp, 100, &other));
}
