use agentplay::metric::{BlockDifferenceMetric, FrameDifferenceMetric, MetricError};
use agentplay::model::Frame;
use agentplay::policy::QuiescencePolicy;
use agentplay::quiescence::{
    Detection, PolicyError, QuiescenceDetector, QuiescenceDiagnostics, SettleReason,
};

fn frame() -> Frame {
    Frame {
        width: 64,
        height: 64,
        rgba: vec![0; 64 * 64 * 4],
    }
}

fn fill_block(frame: &mut Frame, bx: u32, by: u32, value: u8) {
    for y in by * 8..(by + 1) * 8 {
        for x in bx * 8..(bx + 1) * 8 {
            let i = ((y * frame.width + x) * 4) as usize;
            frame.rgba[i..i + 3].fill(value);
        }
    }
}

fn policy() -> QuiescencePolicy {
    QuiescencePolicy {
        sample_every_millis: 50,
        stable_for_millis: 200,
        max_wait_millis: 1_000,
        difference_threshold: 100,
        max_cycle_frames: 4,
    }
}

fn three_phase_state(tile_x: u32) -> [Frame; 3] {
    let mut phases = [frame(), frame(), frame()];
    for (phase, value) in phases.iter_mut().zip([32, 128, 255]) {
        fill_block(phase, tile_x, 1, 255);
        fill_block(phase, 0, 0, value);
    }
    phases
}

#[test]
fn short_post_decision_cycle_settles_without_consecutive_frame_stability() {
    let mut detector =
        QuiescenceDetector::new(policy(), BlockDifferenceMetric::default()).unwrap();
    let phases = three_phase_state(2);
    let mut result = Detection::Waiting;

    for (sample, elapsed) in (0_usize..).zip((0_u64..=450).step_by(50)) {
        result = detector
            .push(phases[sample % phases.len()].clone(), elapsed)
            .unwrap();
        if matches!(result, Detection::Settled(_)) {
            break;
        }
    }

    assert!(matches!(
        result,
        Detection::Settled(QuiescenceDiagnostics {
            reason: SettleReason::Stable,
            ..
        })
    ));
}

#[test]
fn fresh_detector_does_not_reuse_previous_decision_history() {
    let old_phases = three_phase_state(1);
    let new_phases = three_phase_state(3);

    let mut old_detector =
        QuiescenceDetector::new(policy(), BlockDifferenceMetric::default()).unwrap();
    for (sample, elapsed) in (0_usize..3).zip((0_u64..).step_by(50)) {
        old_detector
            .push(old_phases[sample].clone(), elapsed)
            .unwrap();
    }

    let mut new_detector =
        QuiescenceDetector::new(policy(), BlockDifferenceMetric::default()).unwrap();
    assert_eq!(
        new_detector.push(new_phases[0].clone(), 0).unwrap(),
        Detection::Waiting
    );
    assert_eq!(
        new_detector.push(new_phases[1].clone(), 50).unwrap(),
        Detection::Waiting
    );
    assert_eq!(
        new_detector.push(new_phases[2].clone(), 100).unwrap(),
        Detection::Waiting
    );
}

#[test]
fn moving_automaton_can_settle_into_new_post_decision_cycle() {
    let mut detector =
        QuiescenceDetector::new(policy(), BlockDifferenceMetric::default()).unwrap();

    let mut transition = frame();
    fill_block(&mut transition, 1, 1, 255);
    assert_eq!(detector.push(transition, 0).unwrap(), Detection::Waiting);

    let phases = three_phase_state(2);
    let mut result = Detection::Waiting;
    for (sample, elapsed) in (0_usize..).zip((50_u64..=500).step_by(50)) {
        result = detector
            .push(phases[sample % phases.len()].clone(), elapsed)
            .unwrap();
        if matches!(result, Detection::Settled(_)) {
            break;
        }
    }

    assert!(matches!(
        result,
        Detection::Settled(QuiescenceDiagnostics {
            reason: SettleReason::Stable,
            ..
        })
    ));
}

#[test]
fn idle_phases_may_differ_above_threshold_and_still_settle_by_recurrence() {
    let phases = three_phase_state(2);
    let adjacent_score = BlockDifferenceMetric::default()
        .difference(&phases[0], &phases[1])
        .unwrap();
    assert!(adjacent_score > policy().difference_threshold);

    let mut detector =
        QuiescenceDetector::new(policy(), BlockDifferenceMetric::default()).unwrap();
    let mut result = Detection::Waiting;
    for (sample, elapsed) in (0_usize..).zip((0_u64..=450).step_by(50)) {
        result = detector
            .push(phases[sample % phases.len()].clone(), elapsed)
            .unwrap();
        if matches!(result, Detection::Settled(_)) {
            break;
        }
    }

    assert!(matches!(
        result,
        Detection::Settled(QuiescenceDiagnostics {
            reason: SettleReason::Stable,
            ..
        })
    ));
}

#[test]
fn large_scene_change_is_above_threshold() {
    let a = frame();
    let mut b = a.clone();
    for y in 0..4 {
        for x in 0..4 {
            fill_block(&mut b, x, y, 255);
        }
    }

    let score = BlockDifferenceMetric::default().difference(&a, &b).unwrap();

    assert!(score >= 1_000);
    assert!(score > policy().difference_threshold);
}

#[test]
fn meaningful_change_resets_stability_window() {
    let mut detector =
        QuiescenceDetector::new(policy(), BlockDifferenceMetric::default()).unwrap();
    let base = frame();
    detector.push(base.clone(), 0).unwrap();
    detector.push(base.clone(), 50).unwrap();
    detector.push(base.clone(), 100).unwrap();

    let mut changed = base.clone();
    for y in 0..4 {
        for x in 0..4 {
            fill_block(&mut changed, x, y, 255);
        }
    }
    assert_eq!(detector.push(changed, 150).unwrap(), Detection::Waiting);

    for elapsed in [200, 250, 300, 350] {
        assert_eq!(
            detector.push(base.clone(), elapsed).unwrap(),
            Detection::Waiting
        );
    }
    assert!(matches!(
        detector.push(base, 400).unwrap(),
        Detection::Settled(QuiescenceDiagnostics {
            reason: SettleReason::Stable,
            ..
        })
    ));
}

#[test]
fn timeout_is_reported() {
    let mut detector =
        QuiescenceDetector::new(policy(), BlockDifferenceMetric::default()).unwrap();
    let a = frame();
    detector.push(a.clone(), 0).unwrap();

    let mut b = a;
    for y in 0..4 {
        for x in 0..4 {
            fill_block(&mut b, x, y, 255);
        }
    }

    assert!(matches!(
        detector.push(b, 1_000).unwrap(),
        Detection::Settled(QuiescenceDiagnostics {
            reason: SettleReason::Timeout,
            ..
        })
    ));
}

fn held_frame(value: u8) -> Frame {
    let mut rgba = vec![0_u8; 64 * 64 * 4];
    for pixel in rgba.chunks_exact_mut(4) {
        pixel[3] = 255;
    }

    for y in 0..16 {
        for x in 0..16 {
            let i = (y * 64 + x) * 4;
            rgba[i..i + 3].fill(value);
        }
    }

    Frame {
        width: 64,
        height: 64,
        rgba,
    }
}

fn run_held_cycle(history: usize) -> Detection {
    let policy = QuiescencePolicy {
        sample_every_millis: 50,
        stable_for_millis: 200,
        max_wait_millis: 1_000,
        difference_threshold: 100,
        max_cycle_frames: history,
    };
    let phases = [held_frame(32), held_frame(128), held_frame(255)];
    let mut detector = QuiescenceDetector::new(policy, BlockDifferenceMetric::default()).unwrap();
    let mut result = Detection::Waiting;

    for sample in 0_usize..=20 {
        let phase = (sample / 3) % phases.len();
        result = detector
            .push(phases[phase].clone(), sample as u64 * 50)
            .unwrap();
        if matches!(result, Detection::Settled(_)) {
            break;
        }
    }

    result
}

#[test]
fn held_visual_cycle_needs_history_longer_than_phase_count() {
    assert!(matches!(
        run_held_cycle(4),
        Detection::Settled(diagnostics) if diagnostics.reason == SettleReason::Timeout
    ));

    assert!(matches!(
        run_held_cycle(QuiescencePolicy::default().max_cycle_frames),
        Detection::Settled(diagnostics) if diagnostics.reason == SettleReason::Stable
    ));
}

#[test]
fn invalid_policies_are_refused_in_order() {
    let mut p = policy();
    p.sample_every_millis = 0;
    p.max_cycle_frames = 0;
    assert!(matches!(
        QuiescenceDetector::new(p, BlockDifferenceMetric::default()),
        Err(PolicyError::ZeroSampleInterval)
    ));
    let mut p = policy();
    p.stable_for_millis = 2_000;
    assert!(matches!(
        QuiescenceDetector::new(p, BlockDifferenceMetric::default()),
        Err(PolicyError::StableWindowExceedsMaxWait)
    ));
    let mut p = policy();
    p.max_cycle_frames = 0;
    assert!(matches!(
        QuiescenceDetector::new(p, BlockDifferenceMetric::default()),
        Err(PolicyError::ZeroCycleLength)
    ));
}

#[test]
fn first_sample_waits_then_identical_frames_settle_with_diagnostics() {
    let mut detector =
        QuiescenceDetector::new(policy(), BlockDifferenceMetric::default()).unwrap();
    let base = frame();
    assert_eq!(detector.push(base.clone(), 0).unwrap(), Detection::Waiting);
    assert_eq!(detector.push(base.clone(), 100).unwrap(), Detection::Waiting);
    assert_eq!(detector.push(base.clone(), 199).unwrap(), Detection::Waiting);
    assert_eq!(
        detector.push(base, 300).unwrap(),
        Detection::Settled(QuiescenceDiagnostics {
            reason: SettleReason::Stable,
            elapsed_millis: 300,
            samples: 4,
            last_difference: Some(0),
        })
    );
}

#[test]
fn empty_history_times_out_at_max_wait() {
    let mut detector =
        QuiescenceDetector::new(policy(), BlockDifferenceMetric::default()).unwrap();
    assert_eq!(
        detector.push(frame(), 1_000).unwrap(),
        Detection::Settled(QuiescenceDiagnostics {
            reason: SettleReason::Timeout,
            elapsed_millis: 1_000,
            samples: 1,
            last_difference: None,
        })
    );
}

#[test]
fn metric_error_is_passed_on() {
    let mut detector =
        QuiescenceDetector::new(policy(), BlockDifferenceMetric::default()).unwrap();
    detector.push(frame(), 0).unwrap();
    let small = Frame {
        width: 8,
        height: 8,
        rgba: vec![0; 8 * 8 * 4],
    };
    assert_eq!(detector.push(small, 50), Err(MetricError::DimensionsChanged));
}

#[test]
fn sample_count_includes_failed_pushes() {
    let mut detector =
        QuiescenceDetector::new(policy(), BlockDifferenceMetric::default()).unwrap();
    assert_eq!(detector.sample_count(), 0);
    detector.push(frame(), 0).unwrap();
    let small = Frame {
        width: 8,
        height: 8,
        rgba: vec![0; 8 * 8 * 4],
    };
    assert!(detector.push(small, 50).is_err());
    assert_eq!(detector.sample_count(), 2);
}
