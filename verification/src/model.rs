//! Observations, player inputs and the decisions that group them.
use crate::duration::{as_millis, duration_nanos};
use vstd::prelude::*;

verus! {

/// An RGBA8 image of the game surface.
#[derive(Clone, Debug, PartialEq, Eq)]
pub struct Frame {
    pub width: u32,
    pub height: u32,
    pub rgba: Vec<u8>,
}

/// A frame together with its position in the observation stream.
#[derive(Clone, Debug, PartialEq, Eq)]
pub struct Observation {
    pub frame: Frame,
    pub sequence: u64,
}

/// What an environment reports after executing one decision.
#[derive(Clone, Debug, PartialEq, Eq)]
pub struct Step {
    pub observation: Observation,
    pub settle_millis: u64,
}

/// A physical key that a human player could press.
#[derive(Clone, Copy, Debug, PartialEq, Eq, Structural)]
pub enum Key {
    Up,
    Down,
    Left,
    Right,
    Enter,
    Space,
    Character(char),
}

/// One player-equivalent input.
#[derive(Clone, Copy, Debug, PartialEq, Eq, Structural)]
pub enum Action {
    KeyPress(Key),
}

/// Why a decision could not be built.
#[derive(Clone, Copy, Debug, PartialEq, Eq, Structural)]
pub enum DecisionError {
    /// The decision holds no action.
    Empty,
    /// A repetition count of zero was asked for.
    ZeroRepetition,
}

impl DecisionError {
    /// The text that describes the error.
    pub open spec fn message_spec(self) -> Seq<char> {
        match self {
            DecisionError::Empty => "decision must contain at least one action"@,
            DecisionError::ZeroRepetition => "action repetition count must be greater than zero"@,
        }
    }

    pub fn message(&self) -> (r: &'static str)
        ensures
            r@ == self.message_spec(),
    {
        match self {
            DecisionError::Empty => "decision must contain at least one action",
            DecisionError::ZeroRepetition => "action repetition count must be greater than zero",
        }
    }
}

/// The inputs that an agent commits to between two observations.
#[derive(Clone, Debug, PartialEq, Eq)]
pub struct Decision {
    pub actions: Vec<Action>,
    pub inter_action_delay_millis: u64,
}

impl Decision {
    /// A decision is executable when it holds at least one action.
    pub open spec fn is_valid(&self) -> bool {
        self.actions@.len() > 0
    }

    pub fn new(actions: Vec<Action>) -> (r: Result<Decision, DecisionError>)
        ensures
            r is Ok <==> actions@.len() > 0,
            r matches Ok(d) ==> d.actions@ == actions@ && d.inter_action_delay_millis == 0,
            r matches Err(e) ==> e == DecisionError::Empty,
    {
        if actions.len() == 0 {
            return Err(DecisionError::Empty);
        }
        Ok(Decision { actions, inter_action_delay_millis: 0 })
    }

    pub fn single(action: Action) -> (d: Decision)
        ensures
            d.actions@ == seq![action],
            d.inter_action_delay_millis == 0,
    {
        let mut actions: Vec<Action> = Vec::new();
        actions.push(action);
        Decision { actions, inter_action_delay_millis: 0 }
    }

    pub fn press(key: Key) -> (d: Decision)
        ensures
            d.actions@ == seq![Action::KeyPress(key)],
            d.inter_action_delay_millis == 0,
    {
        Self::single(Action::KeyPress(key))
    }

    pub fn repeat(action: Action, count: usize) -> (r: Result<Decision, DecisionError>)
        ensures
            r is Ok <==> count > 0,
            r matches Ok(d) ==> d.actions@ == Seq::new(count as nat, |i: int| action)
                && d.inter_action_delay_millis == 0,
            r matches Err(e) ==> e == DecisionError::ZeroRepetition,
    {
        if count == 0 {
            return Err(DecisionError::ZeroRepetition);
        }
        let mut actions: Vec<Action> = Vec::new();
        let mut i: usize = 0;
        while i < count
            invariant
                i <= count,
                actions@ == Seq::new(i as nat, |j: int| action),
            decreases count - i,
        {
            actions.push(action);
            i = i + 1;
            assert(actions@ =~= Seq::new(i as nat, |j: int| action));
        }
        Self::new(actions)
    }

    /// The same decision with `duration`, in whole milliseconds (truncated to 64 bits),
    /// between consecutive actions; the actions themselves are untouched.
    pub fn with_inter_action_delay(self, duration: std::time::Duration) -> (d: Decision)
        ensures
            d.actions == self.actions,
            d.inter_action_delay_millis == (duration_nanos(duration) / 1_000_000) as u64,
    {
        let mut d = self;
        d.inter_action_delay_millis = as_millis(&duration) as u64;
        d
    }

    pub fn validate(&self) -> (r: Result<(), DecisionError>)
        ensures
            r is Ok <==> self.is_valid(),
            r matches Err(e) ==> e == DecisionError::Empty,
    {
        if self.actions.len() == 0 {
            Err(DecisionError::Empty)
        } else {
            Ok(())
        }
    }
}

/// Every decision built from one action, or from a positive number of repetitions
/// of an action, passes `validate`; only a decision without actions is refused.
pub proof fn lemma_built_decisions_are_valid(d: Decision, action: Action, count: nat)
    ensures
        d.actions@ == seq![action] ==> d.is_valid(),
        count > 0 && d.actions@ == Seq::new(count, |i: int| action) ==> d.is_valid(),
        !d.is_valid() <==> d.actions@.len() == 0,
{
}

impl From<Action> for Decision {
    fn from(action: Action) -> (d: Decision)
        ensures
            d.actions@ == seq![action],
            d.inter_action_delay_millis == 0,
    {
        Self::single(action)
    }
}

impl vstd::std_specs::convert::FromSpecImpl<Action> for Decision {
    /// A `Decision` holds a `Vec`, which no spec function can build, so the generic
    /// `From` contract is not claimed; `from` states its result in its own `ensures`.
    open spec fn obeys_from_spec() -> bool {
        false
    }

    open spec fn from_spec(v: Action) -> Decision {
        arbitrary()
    }
}

} // verus!
