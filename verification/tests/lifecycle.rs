use atra::lifecycle::{resolve, InteractionKind, LifecycleError, TurnLifecycle};

#[test]
fn active_turn_blocks_deletion() {
    let mut lifecycle = TurnLifecycle::new();
    lifecycle.start(1).unwrap();

    assert!(lifecycle.ensure_deletable(&vec![1]).is_err());

    lifecycle.finish(1);
    assert!(lifecycle.ensure_deletable(&vec![1]).is_ok());
}

#[test]
fn dropping_a_claimed_approval_releases_the_waiting_turn() {
    let mut lifecycle = TurnLifecycle::new();
    lifecycle.start(1).unwrap();
    let approval = lifecycle.register_approval(1).unwrap();

    assert_eq!(lifecycle.claim_approval(approval), Ok(1));

    assert!(lifecycle.claim_approval(approval).is_err());
}

#[test]
fn resolving_a_question_returns_answers_to_the_waiting_turn() {
    let mut lifecycle = TurnLifecycle::new();
    lifecycle.start(1).unwrap();
    let request = lifecycle.register_question(1).unwrap();
    assert_eq!(lifecycle.claim_questions(request), Ok(1));

    let questions = InteractionKind::Questions;
    assert_eq!(resolve(request, questions, questions, true), Ok(()));
    assert!(lifecycle.claim_questions(request).is_err());
}

#[test]
fn finished_turn_cannot_register_an_interaction() {
    let mut lifecycle = TurnLifecycle::new();
    lifecycle.start(1).unwrap();
    lifecycle.finish(1);

    assert!(lifecycle.register_question(1).is_err());
    assert!(lifecycle.register_approval(1).is_err());
}

#[test]
fn cancelling_turn_cannot_register_a_new_interaction() {
    let mut lifecycle = TurnLifecycle::new();
    lifecycle.start(1).unwrap();
    assert!(lifecycle.begin_cancellation(1).is_some());

    assert!(lifecycle.register_question(1).is_err());
    assert!(lifecycle.register_approval(1).is_err());
}

#[test]
fn cancellation_is_observed_when_requested_before_waiting() {
    let mut lifecycle = TurnLifecycle::new();
    let turn = lifecycle.start(1).unwrap();
    assert_eq!(lifecycle.begin_cancellation(1), Some(turn));

    assert!(lifecycle.get(1).unwrap().cancelling);
    assert_eq!(lifecycle.begin_cancellation(2), None);
}

#[test]
fn agent_concurrency_limit_is_atomic_per_root() {
    let mut lifecycle = TurnLifecycle::new();
    for id in 2..=9 {
        lifecycle.start_agent(id, 1).unwrap();
    }
    assert!(lifecycle.start_agent(10, 1).is_err());
    assert!(lifecycle.start_agent(10, 99).is_ok());
}

#[test]
fn observation_pin_blocks_turns_and_deletion_until_dropped() {
    let mut lifecycle = TurnLifecycle::new();
    assert_eq!(lifecycle.pin_many(&vec![1]), vec![None]);
    assert!(lifecycle.start(1).is_err());
    assert!(lifecycle.ensure_deletable(&vec![1]).is_err());
    assert!(lifecycle.ensure_mutable(1).is_err());
    lifecycle.release_pin(1);
    assert!(lifecycle.ensure_mutable(1).is_ok());
    assert!(lifecycle.start(1).is_ok());
}

#[test]
fn multi_thread_observation_captures_turns_and_releases_every_pin() {
    let mut lifecycle = TurnLifecycle::new();
    lifecycle.start(1).unwrap();

    let captured = lifecycle.pin_many(&vec![1, 2]);
    assert!(captured[0].is_some());
    assert!(captured[1].is_none());
    assert!(lifecycle.ensure_deletable(&vec![1, 2]).is_err());

    lifecycle.release_pin(1);
    lifecycle.release_pin(2);
    lifecycle.finish(1);
    assert!(lifecycle.ensure_deletable(&vec![1, 2]).is_ok());
}

#[test]
fn releasing_completed_target_pin_does_not_release_other_wait_target() {
    let mut lifecycle = TurnLifecycle::new();
    lifecycle.start(1).unwrap();
    lifecycle.start(2).unwrap();
    let captured = lifecycle.pin_many(&vec![1, 2]);

    lifecycle.finish(1);
    lifecycle.release_pin(1);
    let later = lifecycle.start(1).unwrap();

    assert!(lifecycle.is_finished(captured[0].unwrap()));
    assert!(!lifecycle.is_finished(later));
    assert!(lifecycle.start(2).is_err());
    assert!(lifecycle.ensure_deletable(&vec![2]).is_err());

    lifecycle.release_pin(2);
    lifecycle.finish(2);
}

#[test]
fn every_refusal_has_its_words() {
    let mut lifecycle = TurnLifecycle::new();
    lifecycle.start(1).unwrap();
    let words = |error: LifecycleError| error.message();
    assert_eq!(words(lifecycle.start(1).unwrap_err()), "thread already has an active turn");
    assert_eq!(words(lifecycle.ensure_mutable(1).unwrap_err()), "thread has an active turn");
    assert_eq!(
        lifecycle.ensure_deletable(&vec![1]).unwrap_err(),
        LifecycleError::DeleteActive(1)
    );
    lifecycle.pin_many(&vec![2]);
    assert_eq!(words(lifecycle.start(2).unwrap_err()), "thread is being observed");
    assert_eq!(
        lifecycle.ensure_deletable(&vec![2]).unwrap_err(),
        LifecycleError::DeleteObserved(2)
    );
    assert_eq!(lifecycle.start_agent(2, 1).unwrap_err(), LifecycleError::Unavailable);
    for id in 10..18 {
        lifecycle.start_agent(id, 1).unwrap();
    }
    assert_eq!(
        words(lifecycle.start_agent(18, 1).unwrap_err()),
        "at most eight descendant agent turns may run concurrently"
    );
    assert_eq!(lifecycle.register_approval(5).unwrap_err(), LifecycleError::NoActiveTurn);
    lifecycle.begin_cancellation(1);
    assert_eq!(lifecycle.register_approval(1).unwrap_err(), LifecycleError::Cancelling);
}

#[test]
fn a_finished_turn_leaves_no_interaction() {
    let mut lifecycle = TurnLifecycle::new();
    lifecycle.start(1).unwrap();
    let approval = lifecycle.register_approval(1).unwrap();
    let question = lifecycle.register_question(1).unwrap();
    assert_ne!(approval, question);
    assert!(lifecycle.claim_questions(approval).is_err());
    lifecycle.finish(1);
    assert_eq!(lifecycle.claim_approval(approval), Err(LifecycleError::NotPending(approval)));
    assert_eq!(lifecycle.claim_questions(question), Err(LifecycleError::NotPending(question)));
}

#[test]
fn cleared_interactions_cannot_be_claimed() {
    let mut lifecycle = TurnLifecycle::new();
    lifecycle.start(1).unwrap();
    lifecycle.start(2).unwrap();
    let first = lifecycle.register_approval(1).unwrap();
    let second = lifecycle.register_approval(2).unwrap();
    lifecycle.clear_interactions(1);
    assert!(lifecycle.claim_approval(first).is_err());
    assert_eq!(lifecycle.claim_approval(second), Ok(2));
}

#[test]
fn cancellation_of_many_reaches_the_active_ones() {
    let mut lifecycle = TurnLifecycle::new();
    lifecycle.start(1).unwrap();
    lifecycle.start(3).unwrap();
    assert_eq!(lifecycle.begin_cancellation_many(&vec![1, 2]), vec![1]);
    assert!(lifecycle.get(1).unwrap().cancelling);
    assert!(!lifecycle.get(3).unwrap().cancelling);
}

#[test]
fn answers_must_fit_and_reach_the_turn() {
    let approval = InteractionKind::Approval;
    let questions = InteractionKind::Questions;
    assert_eq!(
        resolve(4, approval, questions, true),
        Err(LifecycleError::WrongAnswer(4, questions))
    );
    assert_eq!(
        resolve(4, approval, approval, false),
        Err(LifecycleError::TurnEnded(4, approval))
    );
}
