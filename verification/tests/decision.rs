use agentplay::model::{Action, Decision, DecisionError, Key};
use agentplay::policy::{QuiescencePolicy, TemporalPolicy};
use std::time::Duration;

#[test]
fn action_converts_to_single_action_decision() {
    let decision: Decision = Action::KeyPress(Key::Right).into();
    assert_eq!(decision.actions, vec![Action::KeyPress(Key::Right)]);
}

#[test]
fn repeated_key_presses_remain_one_decision() {
    let action = Action::KeyPress(Key::Space);
    let decision = Decision::repeat(action.clone(), 10).unwrap();
    assert_eq!(decision.actions, vec![action; 10]);
}

#[test]
fn empty_decision_is_rejected() {
    assert!(Decision::new(Vec::new()).is_err());
}

#[test]
fn zero_repetition_is_rejected() {
    assert!(Decision::repeat(Action::KeyPress(Key::Space), 0).is_err());
}

#[test]
fn pacing_is_explicit_and_separate_from_settle() {
    let decision = Decision::new(vec![
        Action::KeyPress(Key::Right),
        Action::KeyPress(Key::Right),
    ])
    .unwrap()
    .with_inter_action_delay(Duration::from_millis(25));

    assert_eq!(decision.inter_action_delay_millis, 25);
}

#[test]
fn quiescence_default_keeps_multi_sample_cycle_history() {
    assert_eq!(QuiescencePolicy::default().max_cycle_frames, 8);
}

#[test]
fn decision_errors_name_their_cause() {
    assert_eq!(Decision::new(Vec::new()), Err(DecisionError::Empty));
    assert_eq!(
        Decision::repeat(Action::KeyPress(Key::Up), 0),
        Err(DecisionError::ZeroRepetition)
    );
}

#[test]
fn single_press_and_from_agree() {
    let a = Decision::single(Action::KeyPress(Key::Character('z')));
    let b = Decision::press(Key::Character('z'));
    let c: Decision = Action::KeyPress(Key::Character('z')).into();
    assert_eq!(a, b);
    assert_eq!(b, c);
    assert_eq!(a.inter_action_delay_millis, 0);
    assert!(a.validate().is_ok());
}

#[test]
fn built_decisions_validate_and_empty_ones_do_not() {
    assert!(Decision::repeat(Action::KeyPress(Key::Left), 3)
        .unwrap()
        .validate()
        .is_ok());
    let empty = Decision {
        actions: Vec::new(),
        inter_action_delay_millis: 7,
    };
    assert_eq!(empty.validate(), Err(DecisionError::Empty));
}

#[test]
fn delay_is_truncated_to_whole_milliseconds_and_keeps_actions() {
    let decision = Decision::press(Key::Enter).with_inter_action_delay(Duration::from_micros(2_999));
    assert_eq!(decision.inter_action_delay_millis, 2);
    assert_eq!(decision.actions, vec![Action::KeyPress(Key::Enter)]);
}

#[test]
fn fixed_delay_keeps_whole_milliseconds() {
    assert_eq!(
        TemporalPolicy::fixed_delay(Duration::from_millis(1_500)),
        TemporalPolicy::FixedDelay { millis: 1_500 }
    );
    assert_eq!(
        TemporalPolicy::fixed_delay(Duration::from_nanos(999_999)),
        TemporalPolicy::FixedDelay { millis: 0 }
    );
}

#[test]
fn quiescence_default_values() {
    let p = QuiescencePolicy::default();
    assert_eq!(p.sample_every_millis, 50);
    assert_eq!(p.stable_for_millis, 200);
    assert_eq!(p.max_wait_millis, 2_000);
    assert_eq!(p.difference_threshold, 100);
}

#[test]
fn decision_errors_carry_their_message() {
    assert_eq!(
        Decision::new(Vec::new()).unwrap_err().message(),
        "decision must contain at least one action"
    );
    assert_eq!(
        Decision::repeat(Action::KeyPress(Key::Up), 0).unwrap_err().message(),
        "action repetition count must be greater than zero"
    );
}
