//! Deciding, from frames sampled after a decision, when the picture has settled.
use crate::metric::{FrameDifferenceMetric, MetricError};
use crate::model::Frame;
use crate::policy::QuiescencePolicy;
use vstd::prelude::*;

verus! {

/// Why the settle phase ended.
#[derive(Clone, Copy, Debug, PartialEq, Eq, Structural)]
pub enum SettleReason {
    Stable,
    Timeout,
}

/// What the settle phase reports about itself.
#[derive(Clone, Copy, Debug, PartialEq, Eq, Structural)]
pub struct QuiescenceDiagnostics {
    pub reason: SettleReason,
    pub elapsed_millis: u64,
    pub samples: u64,
    pub last_difference: Option<u32>,
}

/// The answer to one sample.
#[derive(Clone, Copy, Debug, PartialEq, Eq, Structural)]
pub enum Detection {
    Waiting,
    Settled(QuiescenceDiagnostics),
}

/// Why a quiescence policy was refused.
#[derive(Clone, Copy, Debug, PartialEq, Eq, Structural)]
pub enum PolicyError {
    /// The sample interval is zero.
    ZeroSampleInterval,
    /// The stable window is longer than the maximum wait.
    StableWindowExceedsMaxWait,
    /// The cycle history holds no frame.
    ZeroCycleLength,
}

/// The first check that `policy` fails, in the order in which they are made.
pub open spec fn policy_check(policy: QuiescencePolicy) -> Result<(), PolicyError> {
    if policy.sample_every_millis == 0 {
        Err(PolicyError::ZeroSampleInterval)
    } else if policy.stable_for_millis > policy.max_wait_millis {
        Err(PolicyError::StableWindowExceedsMaxWait)
    } else if policy.max_cycle_frames == 0 {
        Err(PolicyError::ZeroCycleLength)
    } else {
        Ok(())
    }
}

pub open spec fn policy_is_valid(policy: QuiescencePolicy) -> bool {
    policy_check(policy) is Ok
}

/// The smallest difference between `frame` and any frame of `recent` (`None` when
/// `recent` is empty), or the first error the metric reports, in history order.
pub open spec fn residual_of<M: FrameDifferenceMetric>(
    metric: M,
    recent: Seq<Frame>,
    frame: Frame,
) -> Result<Option<u32>, MetricError>
    decreases recent.len(),
{
    if recent.len() == 0 {
        Ok(None)
    } else {
        match residual_of(metric, recent.drop_last(), frame) {
            Err(e) => Err(e),
            Ok(before) => match metric.difference_spec(recent.last(), frame) {
                Err(e) => Err(e),
                Ok(d) => Ok(
                    Some(
                        match before {
                            None => d,
                            Some(m) => if d < m {
                                d
                            } else {
                                m
                            },
                        },
                    ),
                ),
            },
        }
    }
}

/// The last residual observed.
pub open spec fn next_last_difference(last: Option<u32>, residual: Option<u32>) -> Option<u32> {
    if residual is Some {
        residual
    } else {
        last
    }
}

/// When the current run of small residuals began: kept while residuals stay within
/// the threshold, started now if none was running, cleared by a large residual.
pub open spec fn next_stable_since(
    policy: QuiescencePolicy,
    since: Option<u64>,
    residual: Option<u32>,
    elapsed: u64,
) -> Option<u64> {
    match residual {
        None => since,
        Some(r) => if r <= policy.difference_threshold {
            match since {
                Some(s) => Some(s),
                None => Some(elapsed),
            }
        } else {
            None
        },
    }
}

/// The sample closes a run of small residuals that has lasted `stable_for_millis`.
pub open spec fn settles_stable(
    policy: QuiescencePolicy,
    since: Option<u64>,
    residual: Option<u32>,
    elapsed: u64,
) -> bool {
    match residual {
        None => false,
        Some(r) => r <= policy.difference_threshold && {
            let start = next_stable_since(policy, since, residual, elapsed)->0;
            (if elapsed >= start {
                elapsed - start
            } else {
                0
            }) >= policy.stable_for_millis
        },
    }
}

/// The last `max` frames of `frames`.
pub open spec fn keep_last(frames: Seq<Frame>, max: int) -> Seq<Frame> {
    if frames.len() > max {
        frames.subrange(frames.len() - max, frames.len() as int)
    } else {
        frames
    }
}

/// The history after a sample: unchanged when the sample settles as stable, else the
/// sample joins it and only the last `max_cycle_frames` frames are kept.
pub open spec fn next_recent(
    policy: QuiescencePolicy,
    recent: Seq<Frame>,
    frame: Frame,
    since: Option<u64>,
    residual: Option<u32>,
    elapsed: u64,
) -> Seq<Frame> {
    if settles_stable(policy, since, residual, elapsed) {
        recent
    } else {
        keep_last(recent.push(frame), policy.max_cycle_frames as int)
    }
}

/// The answer to a sample, given its residual and the counters after it.
pub open spec fn detection_after(
    policy: QuiescencePolicy,
    since: Option<u64>,
    residual: Option<u32>,
    elapsed: u64,
    samples: u64,
    last_difference: Option<u32>,
) -> Detection {
    if settles_stable(policy, since, residual, elapsed) {
        Detection::Settled(
            QuiescenceDiagnostics {
                reason: SettleReason::Stable,
                elapsed_millis: elapsed,
                samples,
                last_difference,
            },
        )
    } else if elapsed >= policy.max_wait_millis {
        Detection::Settled(
            QuiescenceDiagnostics {
                reason: SettleReason::Timeout,
                elapsed_millis: elapsed,
                samples,
                last_difference,
            },
        )
    } else {
        Detection::Waiting
    }
}

/// Detects a stable or recurrent visual regime using only frames supplied to this
/// instance. Create a fresh detector after a complete decision has executed.
pub struct QuiescenceDetector<M> {
    policy: QuiescencePolicy,
    metric: M,
    recent: std::collections::VecDeque<Frame>,
    stable_since_millis: Option<u64>,
    samples: u64,
    last_difference: Option<u32>,
    compared: Ghost<Seq<(Frame, Frame)>>,
}

/// The metric calls that comparing `frame` with each frame of `recent` makes, in
/// order: reference first, new frame second.
pub open spec fn comparison_pairs(recent: Seq<Frame>, frame: Frame) -> Seq<(Frame, Frame)> {
    Seq::new(recent.len(), |i: int| (recent[i], frame))
}

impl<M: FrameDifferenceMetric> QuiescenceDetector<M> {
    pub closed spec fn policy(&self) -> QuiescencePolicy {
        self.policy
    }

    pub closed spec fn metric(&self) -> M {
        self.metric
    }

    /// The frames against which the next sample is compared, oldest first.
    pub closed spec fn recent(&self) -> Seq<Frame> {
        self.recent@
    }

    pub closed spec fn stable_since(&self) -> Option<u64> {
        self.stable_since_millis
    }

    pub closed spec fn samples(&self) -> u64 {
        self.samples
    }

    pub closed spec fn last_difference(&self) -> Option<u32> {
        self.last_difference
    }

    /// Every call of the metric's `difference` made by this detector, oldest first,
    /// with its two frames in argument order.
    pub closed spec fn comparisons(&self) -> Seq<(Frame, Frame)> {
        self.compared@
    }

    /// How many frames have been pushed, failed pushes included.
    pub fn sample_count(&self) -> (r: u64)
        ensures
            r == self.samples(),
    {
        self.samples
    }

    /// The policy is valid and the history holds at most `max_cycle_frames` frames.
    pub closed spec fn wf(&self) -> bool {
        &&& policy_is_valid(self.policy)
        &&& self.recent@.len() <= self.policy.max_cycle_frames
    }

    pub fn new(policy: QuiescencePolicy, metric: M) -> (r: Result<Self, PolicyError>)
        ensures
            r is Ok <==> policy_is_valid(policy),
            r matches Err(e) ==> policy_check(policy) == Err::<(), PolicyError>(e),
            r matches Ok(d) ==> {
                &&& d.wf()
                &&& d.policy() == policy
                &&& d.metric() == metric
                &&& d.recent() == Seq::<Frame>::empty()
                &&& d.stable_since() is None
                &&& d.samples() == 0
                &&& d.last_difference() is None
                &&& d.comparisons() == Seq::<(Frame, Frame)>::empty()
            },
    {
        if policy.sample_every_millis == 0 {
            return Err(PolicyError::ZeroSampleInterval);
        }
        if policy.stable_for_millis > policy.max_wait_millis {
            return Err(PolicyError::StableWindowExceedsMaxWait);
        }
        if policy.max_cycle_frames == 0 {
            return Err(PolicyError::ZeroCycleLength);
        }
        let max_cycle_frames = policy.max_cycle_frames;
        Ok(
            QuiescenceDetector {
                policy,
                metric,
                recent: std::collections::VecDeque::with_capacity(max_cycle_frames),
                stable_since_millis: None,
                samples: 0,
                last_difference: None,
                compared: Ghost(Seq::empty()),
            },
        )
    }

    /// Feeds one frame, sampled `elapsed_millis` after the decision ended.
    pub fn push(&mut self, frame: Frame, elapsed_millis: u64) -> (r: Result<Detection, MetricError>)
        requires
            old(self).wf(),
            old(self).samples() < u64::MAX,
        ensures
            final(self).wf(),
            final(self).policy() == old(self).policy(),
            forall|p: Frame, c: Frame| #[trigger]
                final(self).metric().difference_spec(p, c) == old(self).metric().difference_spec(
                    p,
                    c,
                ),
            final(self).samples() == old(self).samples() + 1,
            match residual_of(old(self).metric(), old(self).recent(), frame) {
                Err(e) => {
                    &&& r == Err::<Detection, MetricError>(e)
                    &&& exists|k: int|
                        0 <= k < old(self).recent().len() && final(self).comparisons() == old(
                            self,
                        ).comparisons() + comparison_pairs(old(self).recent().take(k + 1), frame)
                            && #[trigger] old(self).metric().difference_spec(
                            old(self).recent()[k],
                            frame,
                        ) == Err::<u32, MetricError>(e) && forall|j: int|
                            0 <= j < k ==> old(self).metric().difference_spec(
                                #[trigger] old(self).recent()[j],
                                frame,
                            ) is Ok
                    &&& final(self).recent() == old(self).recent()
                    &&& final(self).stable_since() == old(self).stable_since()
                    &&& final(self).last_difference() == old(self).last_difference()
                },
                Ok(residual) => {
                    &&& final(self).comparisons() == old(self).comparisons() + comparison_pairs(
                        old(self).recent(),
                        frame,
                    )
                    &&& final(self).last_difference() == next_last_difference(
                        old(self).last_difference(),
                        residual,
                    )
                    &&& final(self).stable_since() == next_stable_since(
                        old(self).policy(),
                        old(self).stable_since(),
                        residual,
                        elapsed_millis,
                    )
                    &&& final(self).recent() == next_recent(
                        old(self).policy(),
                        old(self).recent(),
                        frame,
                        old(self).stable_since(),
                        residual,
                        elapsed_millis,
                    )
                    &&& r == Ok::<Detection, MetricError>(
                        detection_after(
                            old(self).policy(),
                            old(self).stable_since(),
                            residual,
                            elapsed_millis,
                            final(self).samples(),
                            final(self).last_difference(),
                        ),
                    )
                },
            },
    {
        self.samples = self.samples + 1;
        let ghost metric0 = self.metric;
        let ghost recent0 = self.recent@;
        let n = self.recent.len();
        let mut residual: Option<u32> = None;
        let mut i: usize = 0;
        while i < n
            invariant
                i <= n,
                self.wf(),
                n == self.recent@.len(),
                self.recent@ == recent0,
                recent0 == old(self).recent@,
                metric0 == old(self).metric,
                self.policy == old(self).policy,
                self.samples == old(self).samples + 1,
                self.stable_since_millis == old(self).stable_since_millis,
                self.last_difference == old(self).last_difference,
                self.compared@ == old(self).compared@ + comparison_pairs(
                    recent0.take(i as int),
                    frame,
                ),
                forall|p: Frame, c: Frame| #[trigger]
                    self.metric.difference_spec(p, c) == metric0.difference_spec(p, c),
                residual_of(metric0, recent0.take(i as int), frame) == Ok::<
                    Option<u32>,
                    MetricError,
                >(residual),
            decreases n - i,
        {
            assert(recent0.take(i + 1).drop_last() =~= recent0.take(i as int));
            proof {
                self.compared@ = self.compared@.push((recent0[i as int], frame));
                assert(comparison_pairs(recent0.take(i + 1), frame) =~= comparison_pairs(
                    recent0.take(i as int),
                    frame,
                ).push((recent0[i as int], frame)));
            }
            match self.metric.difference(&self.recent[i], &frame) {
                Err(e) => {
                    proof {
                        lemma_residual_error_persists(metric0, recent0, (i + 1) as int, frame);
                        lemma_residual_is_minimum(metric0, recent0.take(i as int), frame);
                        assert forall|j: int| 0 <= j < i implies metric0.difference_spec(
                            #[trigger] recent0[j],
                            frame,
                        ) is Ok by {
                            assert(recent0.take(i as int)[j] == recent0[j]);
                        }
                        assert(metric0.difference_spec(recent0[i as int], frame) == Err::<
                            u32,
                            MetricError,
                        >(e));
                    }
                    return Err(e);
                },
                Ok(d) => {
                    residual = match residual {
                        None => Some(d),
                        Some(m) => if d < m {
                            Some(d)
                        } else {
                            Some(m)
                        },
                    };
                },
            }
            i = i + 1;
        }
        assert(recent0.take(n as int) =~= recent0);
        assert(comparison_pairs(recent0.take(n as int), frame) =~= comparison_pairs(recent0, frame));
        let ghost since0 = self.stable_since_millis;
        if let Some(r) = residual {
            self.last_difference = Some(r);
            if r <= self.policy.difference_threshold {
                let since = match self.stable_since_millis {
                    Some(s) => s,
                    None => elapsed_millis,
                };
                self.stable_since_millis = Some(since);
                if elapsed_millis.saturating_sub(since) >= self.policy.stable_for_millis {
                    return Ok(Detection::Settled(self.diagnostics(SettleReason::Stable, elapsed_millis)));
                }
            } else {
                self.stable_since_millis = None;
            }
        }
        assert(!settles_stable(self.policy, since0, residual, elapsed_millis));
        self.recent.push_back(frame);
        if self.recent.len() > self.policy.max_cycle_frames {
            self.recent.pop_front();
        }
        assert(self.recent@ =~= keep_last(recent0.push(frame), self.policy.max_cycle_frames as int));
        if elapsed_millis >= self.policy.max_wait_millis {
            return Ok(Detection::Settled(self.diagnostics(SettleReason::Timeout, elapsed_millis)));
        }
        Ok(Detection::Waiting)
    }

    fn diagnostics(&self, reason: SettleReason, elapsed_millis: u64) -> (d: QuiescenceDiagnostics)
        ensures
            d == (QuiescenceDiagnostics {
                reason,
                elapsed_millis,
                samples: self.samples,
                last_difference: self.last_difference,
            }),
    {
        QuiescenceDiagnostics {
            reason,
            elapsed_millis,
            samples: self.samples,
            last_difference: self.last_difference,
        }
    }
}

/// An error met in a prefix of the history is the error of the whole history.
proof fn lemma_residual_error_persists<M: FrameDifferenceMetric>(
    metric: M,
    recent: Seq<Frame>,
    k: int,
    frame: Frame,
)
    requires
        0 <= k <= recent.len(),
        residual_of(metric, recent.take(k), frame) is Err,
    ensures
        residual_of(metric, recent, frame) == residual_of(metric, recent.take(k), frame),
    decreases recent.len(),
{
    if k < recent.len() {
        assert(recent.drop_last().take(k) =~= recent.take(k));
        lemma_residual_error_persists(metric, recent.drop_last(), k, frame);
    } else {
        assert(recent.take(k) =~= recent);
    }
}

/// Once the maximum wait has elapsed, every sample ends the settle phase.
pub proof fn lemma_max_wait_always_settles(
    policy: QuiescencePolicy,
    since: Option<u64>,
    residual: Option<u32>,
    elapsed: u64,
    samples: u64,
    last_difference: Option<u32>,
)
    requires
        elapsed >= policy.max_wait_millis,
    ensures
        detection_after(policy, since, residual, elapsed, samples, last_difference) is Settled,
{
}

/// The history never holds more than `max_cycle_frames` frames, and it always ends
/// with the most recent samples, in the order in which they came.
pub proof fn lemma_history_keeps_last_frames(
    policy: QuiescencePolicy,
    recent: Seq<Frame>,
    frame: Frame,
    since: Option<u64>,
    residual: Option<u32>,
    elapsed: u64,
)
    requires
        recent.len() <= policy.max_cycle_frames,
    ensures
        next_recent(policy, recent, frame, since, residual, elapsed).len()
            <= policy.max_cycle_frames,
        !settles_stable(policy, since, residual, elapsed) ==> {
            let next = next_recent(policy, recent, frame, since, residual, elapsed);
            &&& next.len() > 0 ==> next.last() == frame
            &&& recent.push(frame).subrange(
                recent.len() + 1 - next.len(),
                recent.len() + 1 as int,
            ) == next
        },
{
    let full = recent.push(frame);
    if !settles_stable(policy, since, residual, elapsed) && full.len() <= policy.max_cycle_frames {
        assert(full.subrange(0, full.len() as int) =~= full);
    }
}

/// A detector compares a sample only with the frames it was given itself: with an
/// empty history there is no residual, and the sample cannot settle as stable.
pub proof fn lemma_empty_history_never_stable<M: FrameDifferenceMetric>(
    policy: QuiescencePolicy,
    metric: M,
    frame: Frame,
    since: Option<u64>,
    elapsed: u64,
    samples: u64,
    last_difference: Option<u32>,
)
    ensures
        residual_of(metric, Seq::<Frame>::empty(), frame) == Ok::<Option<u32>, MetricError>(None),
        !settles_stable(policy, since, None, elapsed),
        detection_after(policy, since, None, elapsed, samples, last_difference) == (if elapsed
            >= policy.max_wait_millis {
            Detection::Settled(
                QuiescenceDiagnostics {
                    reason: SettleReason::Timeout,
                    elapsed_millis: elapsed,
                    samples,
                    last_difference,
                },
            )
        } else {
            Detection::Waiting
        }),
{
}

/// A stable verdict needs a sample within the threshold of some earlier frame, at the
/// end of a run of such samples that has lasted at least `stable_for_millis`.
pub proof fn lemma_stable_needs_small_residual(
    policy: QuiescencePolicy,
    since: Option<u64>,
    residual: Option<u32>,
    elapsed: u64,
    samples: u64,
    last_difference: Option<u32>,
)
    requires
        detection_after(policy, since, residual, elapsed, samples, last_difference) matches Detection::Settled(d)
            && d.reason == SettleReason::Stable,
    ensures
        residual matches Some(r) && r <= policy.difference_threshold,
        (next_stable_since(policy, since, residual, elapsed) matches Some(start) && (start <= elapsed
            && elapsed - start >= policy.stable_for_millis || policy.stable_for_millis == 0)),
{
}

/// A residual above the threshold ends the current run: the stability window starts
/// over and the sample cannot settle as stable.
pub proof fn lemma_large_change_resets_stability(
    policy: QuiescencePolicy,
    since: Option<u64>,
    r: u32,
    elapsed: u64,
)
    requires
        r > policy.difference_threshold,
    ensures
        next_stable_since(policy, since, Some(r), elapsed) is None,
        !settles_stable(policy, since, Some(r), elapsed),
{
}

/// A run of small residuals that began at `start` settles as stable on the first
/// sample within the threshold taken `stable_for_millis` or more after `start`.
pub proof fn lemma_held_stability_settles(
    policy: QuiescencePolicy,
    start: u64,
    r: u32,
    elapsed: u64,
    samples: u64,
    last_difference: Option<u32>,
)
    requires
        r <= policy.difference_threshold,
        elapsed >= start + policy.stable_for_millis,
    ensures
        detection_after(policy, Some(start), Some(r), elapsed, samples, last_difference) == Detection::Settled(
            QuiescenceDiagnostics {
                reason: SettleReason::Stable,
                elapsed_millis: elapsed,
                samples,
                last_difference,
            },
        ),
{
}

/// The residual is the smallest difference between the sample and the frames of the
/// history: no frame differs less, and some frame differs exactly that much.
pub proof fn lemma_residual_is_minimum<M: FrameDifferenceMetric>(
    metric: M,
    recent: Seq<Frame>,
    frame: Frame,
)
    ensures
        residual_of(metric, recent, frame) == Ok::<Option<u32>, MetricError>(None) <==> recent.len()
            == 0,
        residual_of(metric, recent, frame) matches Ok(Some(r)) ==> {
            &&& forall|i: int|
                0 <= i < recent.len() ==> (#[trigger] metric.difference_spec(recent[i], frame) matches Ok(
                    d,
                ) && r <= d)
            &&& exists|i: int|
                0 <= i < recent.len() && #[trigger] metric.difference_spec(recent[i], frame)
                    == Ok::<u32, MetricError>(r)
        },
    decreases recent.len(),
{
    if recent.len() > 0 {
        let rest = recent.drop_last();
        lemma_residual_is_minimum(metric, rest, frame);
        if let Ok(Some(r)) = residual_of(metric, recent, frame) {
            let last = recent.len() - 1;
            assert(recent[last] == recent.last());
            assert forall|i: int| 0 <= i < recent.len() implies (#[trigger] metric.difference_spec(
                recent[i],
                frame,
            ) matches Ok(d) && r <= d) by {
                if i < last {
                    assert(rest[i] == recent[i]);
                }
            }
            match residual_of(metric, rest, frame) {
                Ok(Some(m)) => {
                    let j = choose|j: int|
                        0 <= j < rest.len() && #[trigger] metric.difference_spec(rest[j], frame)
                            == Ok::<u32, MetricError>(m);
                    assert(rest[j] == recent[j]);
                },
                _ => {},
            }
        }
    }
}

/// What a settled verdict reports: the time of the sample, the number of pushes so
/// far, and the last residual; a stable verdict comes with a residual within the
/// threshold, a timeout only once the maximum wait has elapsed.
pub proof fn lemma_settled_diagnostics(
    policy: QuiescencePolicy,
    since: Option<u64>,
    last: Option<u32>,
    residual: Option<u32>,
    elapsed: u64,
    samples: u64,
)
    ensures
        elapsed >= policy.max_wait_millis ==> detection_after(
            policy,
            since,
            residual,
            elapsed,
            samples,
            next_last_difference(last, residual),
        ) is Settled,
        detection_after(policy, since, residual, elapsed, samples, next_last_difference(last, residual))
            matches Detection::Settled(d) ==> {
            &&& d.elapsed_millis == elapsed
            &&& d.samples == samples
            &&& d.reason == SettleReason::Stable ==> (d.last_difference matches Some(r) && r
                <= policy.difference_threshold)
            &&& d.reason == SettleReason::Timeout ==> elapsed >= policy.max_wait_millis
        },
{
}

/// The history and the start of the current run of small residuals after pushing the
/// samples `samples` (frame, elapsed), in order, into a detector whose history is
/// `recent` and whose run began at `since`. A push on which the metric fails changes
/// neither.
pub open spec fn replay<M: FrameDifferenceMetric>(
    policy: QuiescencePolicy,
    metric: M,
    recent: Seq<Frame>,
    since: Option<u64>,
    samples: Seq<(Frame, u64)>,
) -> (Seq<Frame>, Option<u64>)
    decreases samples.len(),
{
    if samples.len() == 0 {
        (recent, since)
    } else {
        let (r0, s0) = replay(policy, metric, recent, since, samples.drop_last());
        let (frame, elapsed) = samples.last();
        match residual_of(metric, r0, frame) {
            Err(_) => (r0, s0),
            Ok(residual) => (
                next_recent(policy, r0, frame, s0, residual, elapsed),
                next_stable_since(policy, s0, residual, elapsed),
            ),
        }
    }
}

/// The residual of sample `i` of a replay, or the metric's error.
pub open spec fn replay_residual<M: FrameDifferenceMetric>(
    policy: QuiescencePolicy,
    metric: M,
    recent: Seq<Frame>,
    since: Option<u64>,
    samples: Seq<(Frame, u64)>,
    i: int,
) -> Result<Option<u32>, MetricError> {
    residual_of(metric, replay(policy, metric, recent, since, samples.take(i)).0, samples[i].0)
}

/// The frames of a replay that enter the history: those of the pushes that succeed
/// without settling as stable, in order.
pub open spec fn admitted<M: FrameDifferenceMetric>(
    policy: QuiescencePolicy,
    metric: M,
    recent: Seq<Frame>,
    since: Option<u64>,
    samples: Seq<(Frame, u64)>,
) -> Seq<Frame>
    decreases samples.len(),
{
    if samples.len() == 0 {
        Seq::empty()
    } else {
        let before = admitted(policy, metric, recent, since, samples.drop_last());
        let (r0, s0) = replay(policy, metric, recent, since, samples.drop_last());
        let (frame, elapsed) = samples.last();
        match residual_of(metric, r0, frame) {
            Ok(residual) => if settles_stable(policy, s0, residual, elapsed) {
                before
            } else {
                before.push(frame)
            },
            Err(_) => before,
        }
    }
}

proof fn lemma_keep_last_push(frames: Seq<Frame>, frame: Frame, max: int)
    requires
        max >= 0,
    ensures
        keep_last(keep_last(frames, max).push(frame), max) == keep_last(frames.push(frame), max),
{
    let kept = keep_last(frames, max);
    if frames.len() > max {
        assert(keep_last(kept.push(frame), max) =~= keep_last(frames.push(frame), max));
    } else {
        assert(kept == frames);
    }
}

/// Over any run of pushes, the history is the last `max_cycle_frames` of the frames
/// it started with followed by the frames that entered it: those of pushes that
/// succeeded without settling as stable.
pub proof fn lemma_history_is_last_admitted<M: FrameDifferenceMetric>(
    policy: QuiescencePolicy,
    metric: M,
    recent: Seq<Frame>,
    since: Option<u64>,
    samples: Seq<(Frame, u64)>,
)
    requires
        recent.len() <= policy.max_cycle_frames,
    ensures
        replay(policy, metric, recent, since, samples).0 == keep_last(
            recent + admitted(policy, metric, recent, since, samples),
            policy.max_cycle_frames as int,
        ),
    decreases samples.len(),
{
    let max = policy.max_cycle_frames as int;
    if samples.len() == 0 {
        assert(recent + Seq::<Frame>::empty() =~= recent);
    } else {
        let rest = samples.drop_last();
        lemma_history_is_last_admitted(policy, metric, recent, since, rest);
        let before = admitted(policy, metric, recent, since, rest);
        let (r0, s0) = replay(policy, metric, recent, since, rest);
        let (frame, elapsed) = samples.last();
        if let Ok(residual) = residual_of(metric, r0, frame) {
            if !settles_stable(policy, s0, residual, elapsed) {
                lemma_keep_last_push(recent + before, frame, max);
                assert((recent + before).push(frame) =~= recent + before.push(frame));
            }
        }
    }
}

/// Two metrics that report the same values give the same residuals. A detector's
/// metric may change from push to push while its reports stay the same, so the
/// replays of its pushes do not depend on which of these values is used.
pub proof fn lemma_residual_depends_on_reports<M: FrameDifferenceMetric>(
    a: M,
    b: M,
    recent: Seq<Frame>,
    frame: Frame,
)
    requires
        forall|p: Frame, c: Frame| #[trigger] a.difference_spec(p, c) == b.difference_spec(p, c),
    ensures
        residual_of(a, recent, frame) == residual_of(b, recent, frame),
    decreases recent.len(),
{
    if recent.len() > 0 {
        lemma_residual_depends_on_reports(a, b, recent.drop_last(), frame);
        assert(a.difference_spec(recent.last(), frame) == b.difference_spec(recent.last(), frame));
    }
}

/// Sample `i` of a replay had a residual within the threshold.
pub open spec fn small_residual_at<M: FrameDifferenceMetric>(
    policy: QuiescencePolicy,
    metric: M,
    recent: Seq<Frame>,
    samples: Seq<(Frame, u64)>,
    i: int,
) -> bool {
    replay_residual(policy, metric, recent, None, samples, i) matches Ok(Some(r)) && r
        <= policy.difference_threshold
}

/// Sample `i` of a replay had a residual above the threshold.
pub open spec fn large_residual_at<M: FrameDifferenceMetric>(
    policy: QuiescencePolicy,
    metric: M,
    recent: Seq<Frame>,
    samples: Seq<(Frame, u64)>,
    i: int,
) -> bool {
    replay_residual(policy, metric, recent, None, samples, i) matches Ok(Some(r)) && r
        > policy.difference_threshold
}

proof fn lemma_replay_residual_prefix<M: FrameDifferenceMetric>(
    policy: QuiescencePolicy,
    metric: M,
    recent: Seq<Frame>,
    since: Option<u64>,
    samples: Seq<(Frame, u64)>,
    i: int,
)
    requires
        0 <= i < samples.len() - 1,
    ensures
        replay_residual(policy, metric, recent, since, samples, i) == replay_residual(
            policy,
            metric,
            recent,
            since,
            samples.drop_last(),
            i,
        ),
{
    assert(samples.take(i) =~= samples.drop_last().take(i));
    assert(samples[i] == samples.drop_last()[i]);
}

/// A run of small residuals starts at the first sample within the threshold after
/// the last sample above it; failed pushes and pushes without history neither start
/// nor end it. After a fresh start, the detector's run began at the time of that
/// sample, and there is no run when no sample within the threshold follows the last
/// one above it.
pub proof fn lemma_run_starts_after_last_large_change<M: FrameDifferenceMetric>(
    policy: QuiescencePolicy,
    metric: M,
    recent: Seq<Frame>,
    samples: Seq<(Frame, u64)>,
)
    ensures
        replay(policy, metric, recent, None, samples).1 matches Some(start) ==> exists|i: int|
            0 <= i < samples.len() && #[trigger] small_residual_at(policy, metric, recent, samples, i)
                && samples[i].1 == start && (forall|j: int|
                i < j < samples.len() ==> !#[trigger] large_residual_at(
                    policy,
                    metric,
                    recent,
                    samples,
                    j,
                )) && (forall|j: int|
                0 <= j < i && #[trigger] small_residual_at(policy, metric, recent, samples, j)
                    ==> exists|k: int|
                    j < k < i && #[trigger] large_residual_at(policy, metric, recent, samples, k)),
        replay(policy, metric, recent, None, samples).1 is None ==> forall|i: int|
            0 <= i < samples.len() && #[trigger] small_residual_at(policy, metric, recent, samples, i)
                ==> exists|k: int|
                i < k < samples.len() && #[trigger] large_residual_at(
                    policy,
                    metric,
                    recent,
                    samples,
                    k,
                ),
    decreases samples.len(),
{
    if samples.len() > 0 {
        let n = samples.len() - 1;
        let rest = samples.drop_last();
        lemma_run_starts_after_last_large_change(policy, metric, recent, rest);
        assert forall|i: int| 0 <= i < n implies (small_residual_at(
            policy,
            metric,
            recent,
            samples,
            i,
        ) == small_residual_at(policy, metric, recent, rest, i) && large_residual_at(
            policy,
            metric,
            recent,
            samples,
            i,
        ) == large_residual_at(policy, metric, recent, rest, i)) by {
            lemma_replay_residual_prefix(policy, metric, recent, None, samples, i);
        }
        assert(samples.take(n) =~= rest);
        let (r0, s0) = replay(policy, metric, recent, None, rest);
        let (frame, elapsed) = samples.last();
        assert(samples[n] == samples.last());
        assert(replay_residual(policy, metric, recent, None, samples, n) == residual_of(
            metric,
            r0,
            frame,
        ));
        match residual_of(metric, r0, frame) {
            Ok(Some(r)) => {
                if r <= policy.difference_threshold {
                    assert(small_residual_at(policy, metric, recent, samples, n));
                    if s0 is None {
                        assert forall|j: int|
                            0 <= j < n && #[trigger] small_residual_at(
                                policy,
                                metric,
                                recent,
                                samples,
                                j,
                            ) implies exists|k: int|
                            j < k < n && #[trigger] large_residual_at(
                                policy,
                                metric,
                                recent,
                                samples,
                                k,
                            ) by {
                            assert(small_residual_at(policy, metric, recent, rest, j));
                            let k = choose|k: int|
                                j < k < n && #[trigger] large_residual_at(
                                    policy,
                                    metric,
                                    recent,
                                    rest,
                                    k,
                                );
                            assert(large_residual_at(policy, metric, recent, samples, k));
                        }
                    } else {
                        let start = s0->0;
                        let i = choose|i: int|
                            0 <= i < n && #[trigger] small_residual_at(
                                policy,
                                metric,
                                recent,
                                rest,
                                i,
                            ) && rest[i].1 == start && (forall|j: int|
                                i < j < n ==> !#[trigger] large_residual_at(
                                    policy,
                                    metric,
                                    recent,
                                    rest,
                                    j,
                                )) && (forall|j: int|
                                0 <= j < i && #[trigger] small_residual_at(
                                    policy,
                                    metric,
                                    recent,
                                    rest,
                                    j,
                                ) ==> exists|k: int|
                                    j < k < i && #[trigger] large_residual_at(
                                        policy,
                                        metric,
                                        recent,
                                        rest,
                                        k,
                                    ));
                        assert(samples[i] == rest[i]);
                        assert(small_residual_at(policy, metric, recent, samples, i));
                        assert forall|j: int|
                            0 <= j < i && #[trigger] small_residual_at(
                                policy,
                                metric,
                                recent,
                                samples,
                                j,
                            ) implies exists|k: int|
                            j < k < i && #[trigger] large_residual_at(
                                policy,
                                metric,
                                recent,
                                samples,
                                k,
                            ) by {
                            assert(small_residual_at(policy, metric, recent, rest, j));
                            let k = choose|k: int|
                                j < k < i && #[trigger] large_residual_at(
                                    policy,
                                    metric,
                                    recent,
                                    rest,
                                    k,
                                );
                            assert(large_residual_at(policy, metric, recent, samples, k));
                        }
                    }
                } else {
                    assert(large_residual_at(policy, metric, recent, samples, n));
                }
            },
            _ => {
                assert(!small_residual_at(policy, metric, recent, samples, n));
                assert(!large_residual_at(policy, metric, recent, samples, n));
                if s0 is None {
                    assert forall|i: int|
                        0 <= i < samples.len() && #[trigger] small_residual_at(
                            policy,
                            metric,
                            recent,
                            samples,
                            i,
                        ) implies exists|k: int|
                        i < k < samples.len() && #[trigger] large_residual_at(
                            policy,
                            metric,
                            recent,
                            samples,
                            k,
                        ) by {
                        assert(small_residual_at(policy, metric, recent, rest, i));
                        let k = choose|k: int|
                            i < k < n && #[trigger] large_residual_at(
                                policy,
                                metric,
                                recent,
                                rest,
                                k,
                            );
                        assert(large_residual_at(policy, metric, recent, samples, k));
                    }
                } else {
                    let start = s0->0;
                    let i = choose|i: int|
                        0 <= i < n && #[trigger] small_residual_at(policy, metric, recent, rest, i)
                            && rest[i].1 == start && (forall|j: int|
                            i < j < n ==> !#[trigger] large_residual_at(
                                policy,
                                metric,
                                recent,
                                rest,
                                j,
                            )) && (forall|j: int|
                            0 <= j < i && #[trigger] small_residual_at(
                                policy,
                                metric,
                                recent,
                                rest,
                                j,
                            ) ==> exists|k: int|
                                j < k < i && #[trigger] large_residual_at(
                                    policy,
                                    metric,
                                    recent,
                                    rest,
                                    k,
                                ));
                    assert(samples[i] == rest[i]);
                    assert(small_residual_at(policy, metric, recent, samples, i));
                    assert forall|j: int|
                        0 <= j < i && #[trigger] small_residual_at(
                            policy,
                            metric,
                            recent,
                            samples,
                            j,
                        ) implies exists|k: int|
                        j < k < i && #[trigger] large_residual_at(
                            policy,
                            metric,
                            recent,
                            samples,
                            k,
                        ) by {
                        assert(small_residual_at(policy, metric, recent, rest, j));
                        let k = choose|k: int|
                            j < k < i && #[trigger] large_residual_at(
                                policy,
                                metric,
                                recent,
                                rest,
                                k,
                            );
                        assert(large_residual_at(policy, metric, recent, samples, k));
                    }
                }
            },
        }
    }
}

/// The last push of a replay settles as stable exactly when its residual is within
/// the threshold and `stable_for_millis` or more have passed since the run it closes
/// began.
pub proof fn lemma_stable_closes_a_long_run<M: FrameDifferenceMetric>(
    policy: QuiescencePolicy,
    metric: M,
    recent: Seq<Frame>,
    samples: Seq<(Frame, u64)>,
)
    requires
        samples.len() > 0,
    ensures
        ({
            let n = samples.len() - 1;
            let (r0, s0) = replay(policy, metric, recent, None, samples.drop_last());
            let elapsed = samples[n].1;
            residual_of(metric, r0, samples[n].0) matches Ok(residual) ==> (settles_stable(
                policy,
                s0,
                residual,
                elapsed,
            ) <==> (small_residual_at(policy, metric, recent, samples, n) && (replay(
                policy,
                metric,
                recent,
                None,
                samples,
            ).1 matches Some(start) && (if elapsed >= start {
                elapsed - start
            } else {
                0
            }) >= policy.stable_for_millis)))
        }),
{
    let n = samples.len() - 1;
    assert(samples.take(n) =~= samples.drop_last());
    assert(samples[n] == samples.last());
}

/// The reported last difference is the residual of the latest push that had one,
/// whatever earlier residuals were; a push without history leaves it unchanged. A
/// settled verdict reports it.
pub proof fn lemma_last_difference_is_latest_residual(
    policy: QuiescencePolicy,
    since: Option<u64>,
    last: Option<u32>,
    r: u32,
    elapsed: u64,
    samples: u64,
)
    ensures
        next_last_difference(last, Some(r)) == Some(r),
        next_last_difference(last, None) == last,
        detection_after(policy, since, Some(r), elapsed, samples, next_last_difference(last, Some(r)))
            matches Detection::Settled(d) ==> d.last_difference == Some(r),
{
}

/// A push onto a non-empty history that the metric compares without error has a
/// residual, and reports it as the last difference whatever came before: the smallest
/// difference between the new frame and a frame of the history.
pub proof fn lemma_push_reports_its_own_residual<M: FrameDifferenceMetric>(
    metric: M,
    recent: Seq<Frame>,
    frame: Frame,
    last: Option<u32>,
)
    requires
        recent.len() > 0,
    ensures
        residual_of(metric, recent, frame) != Ok::<Option<u32>, MetricError>(None),
        residual_of(metric, recent, frame) matches Ok(Some(r)) ==> {
            &&& next_last_difference(last, Some(r)) == Some(r)
            &&& forall|i: int|
                0 <= i < recent.len() ==> (#[trigger] metric.difference_spec(recent[i], frame) matches Ok(
                    d,
                ) && r <= d)
            &&& exists|i: int|
                0 <= i < recent.len() && #[trigger] metric.difference_spec(recent[i], frame)
                    == Ok::<u32, MetricError>(r)
        },
{
    lemma_residual_is_minimum(metric, recent, frame);
}

/// The frame that a settle phase ends on, with what it reported.
#[derive(Clone, Debug)]
pub struct QuiescenceResult {
    pub frame: Frame,
    pub diagnostics: QuiescenceDiagnostics,
}

} // verus!
