//! Which keys the runtime may send, and how long each is held.
use crate::duration::{as_millis, as_nanos, duration_nanos, from_millis};
use crate::keys::{key_code, key_code_spec, KeyError};
use crate::model::Key;
use vstd::prelude::*;

verus! {

/// Why an input policy or a key press was refused.
#[derive(Clone, Copy, Debug, PartialEq, Eq, Structural)]
pub enum InputError {
    /// The key hold is longer than one second.
    KeyHoldTooLong,
    /// The key is not in the allowlist.
    NotAllowed(Key),
    /// The key has no physical key code.
    Unmapped(KeyError),
}

/// An allowlist of keys and the time each press is held.
#[derive(Debug)]
pub struct InputPolicy {
    allowed_keys: Vec<Key>,
    key_hold: std::time::Duration,
}

impl InputPolicy {
    pub closed spec fn allowed(&self) -> Seq<Key> {
        self.allowed_keys@
    }

    pub closed spec fn hold(&self) -> std::time::Duration {
        self.key_hold
    }

    /// A policy that allows `allowed_keys`, held `key_hold` each; the hold may not
    /// exceed one second.
    pub fn new(allowed_keys: Vec<Key>, key_hold: std::time::Duration) -> (r: Result<
        InputPolicy,
        InputError,
    >)
        ensures
            r is Ok <==> duration_nanos(key_hold) <= 1_000_000_000,
            r matches Ok(p) ==> p.allowed() == allowed_keys@ && p.hold() == key_hold,
            r matches Err(e) ==> e == InputError::KeyHoldTooLong,
    {
        if as_nanos(&key_hold) > 1_000_000_000 {
            return Err(InputError::KeyHoldTooLong);
        }
        Ok(InputPolicy { allowed_keys, key_hold })
    }

    /// A policy that allows no key at all, with the default 20 ms hold.
    pub fn capture_only() -> (p: InputPolicy)
        ensures
            p.allowed() == Seq::<Key>::empty(),
            duration_nanos(p.hold()) == 20_000_000,
    {
        InputPolicy { allowed_keys: Vec::new(), key_hold: from_millis(20) }
    }

    pub fn allows(&self, key: &Key) -> (r: bool)
        ensures
            r == self.allowed().contains(*key),
    {
        let mut i: usize = 0;
        while i < self.allowed_keys.len()
            invariant
                i <= self.allowed_keys@.len(),
                forall|j: int| 0 <= j < i ==> self.allowed_keys@[j] != *key,
            decreases self.allowed_keys@.len() - i,
        {
            if self.allowed_keys[i] == *key {
                return true;
            }
            i = i + 1;
        }
        false
    }

    /// The key hold in whole milliseconds.
    pub fn key_hold_millis(&self) -> (r: u128)
        ensures
            r == duration_nanos(self.hold()) / 1_000_000,
    {
        as_millis(&self.key_hold)
    }

    /// What a press of `key` sends: its physical key code and the hold in whole
    /// milliseconds, provided the key is allowed and has a code.
    pub fn press_command(&self, key: &Key) -> (r: Result<(u16, u128), InputError>)
        ensures
            !self.allowed().contains(*key) ==> r == Err::<(u16, u128), InputError>(
                InputError::NotAllowed(*key),
            ),
            self.allowed().contains(*key) ==> match key_code_spec(*key) {
                Ok(code) => r == Ok::<(u16, u128), InputError>(
                    (code, duration_nanos(self.hold()) / 1_000_000),
                ),
                Err(e) => r == Err::<(u16, u128), InputError>(InputError::Unmapped(e)),
            },
    {
        if !self.allows(key) {
            return Err(InputError::NotAllowed(*key));
        }
        match key_code(key) {
            Ok(code) => Ok((code, self.key_hold_millis())),
            Err(e) => Err(InputError::Unmapped(e)),
        }
    }
}

/// A capture-only policy refuses every key press.
pub proof fn lemma_capture_only_sends_nothing(policy: InputPolicy, key: Key)
    requires
        policy.allowed() == Seq::<Key>::empty(),
    ensures
        !policy.allowed().contains(key),
{
}

} // verus!
