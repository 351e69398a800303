//! Per-recipient delivery flags, at most one per user.

use vstd::prelude::*;

use std::collections::HashMap;

verus! {

broadcast use vstd::std_specs::hash::group_hash_axioms;

/// The flag that a recipient can carry.
#[derive(Debug, Clone, Copy, PartialEq, Eq, Structural)]
pub enum UserStateKind {
    /// Direct messages to the recipient are rejected.
    CannotDm,
}

/// The code under which a flag is stored.
pub open spec fn state_code(kind: UserStateKind) -> i64 {
    match kind {
        UserStateKind::CannotDm => 0,
    }
}

/// The flag stored under a code, if the code is known.
pub open spec fn kind_of_code(code: i64) -> Option<UserStateKind> {
    if code == 0 {
        Some(UserStateKind::CannotDm)
    } else {
        None
    }
}

impl UserStateKind {
    /// The code under which this flag is stored.
    pub fn code(self) -> (r: i64)
        ensures
            r == state_code(self),
    {
        match self {
            UserStateKind::CannotDm => 0,
        }
    }
}

/// A stored flag that no known kind has.
#[derive(Debug, Clone, Copy, PartialEq, Eq, Structural)]
pub enum UserStateError {
    UnknownState(i64),
}

/// The flag of one user.
#[derive(Debug, Clone, Copy, PartialEq, Eq, Structural)]
pub struct UserState {
    pub user_id: u64,
    pub state: UserStateKind,
}

/// Every recipient's flag, at most one per user.
pub struct UserStates {
    states: HashMap<u64, UserStateKind>,
}

impl View for UserStates {
    type V = Map<u64, UserStateKind>;

    closed spec fn view(&self) -> Map<u64, UserStateKind> {
        self.states@
    }
}

impl UserStates {
    /// A store with no flags.
    pub fn new() -> (r: UserStates)
        ensures
            r@ == Map::<u64, UserStateKind>::empty(),
    {
        UserStates { states: HashMap::new() }
    }

    /// Whether the user may receive direct messages.
    pub fn can_dm(&self, user_id: u64) -> (r: bool)
        ensures
            r == !(self@.contains_key(user_id) && self@[user_id] == UserStateKind::CannotDm),
    {
        match self.states.get(&user_id) {
            Some(k) => *k != UserStateKind::CannotDm,
            None => true,
        }
    }
}

impl UserState {
    /// Decodes a stored row; a code that no kind has is refused.
    pub fn from_row(user_id: u64, code: i64) -> (r: Result<UserState, UserStateError>)
        ensures
            match kind_of_code(code) {
                Some(kind) => r == Ok::<UserState, UserStateError>(
                    UserState { user_id, state: kind },
                ),
                None => r == Err::<UserState, UserStateError>(UserStateError::UnknownState(code)),
            },
    {
        if code == 0 {
            Ok(UserState { user_id, state: UserStateKind::CannotDm })
        } else {
            Err(UserStateError::UnknownState(code))
        }
    }

    /// The flag of a user, if the user has one.
    pub fn user_state(states: &UserStates, user_id: u64) -> (r: Option<UserState>)
        ensures
            match r {
                Some(s) => states@.contains_key(user_id) && s == (UserState {
                    user_id,
                    state: states@[user_id],
                }),
                None => !states@.contains_key(user_id),
            },
    {
        match states.states.get(&user_id) {
            Some(k) => Some(UserState { user_id, state: *k }),
            None => None,
        }
    }

    /// Stores this flag, replacing any flag that the user had.
    pub fn set(self, states: &mut UserStates)
        ensures
            final(states)@ == old(states)@.insert(self.user_id, self.state),
    {
        states.states.insert(self.user_id, self.state);
    }

    /// Removes this flag's user's flag.
    pub fn delete(self, states: &mut UserStates)
        ensures
            final(states)@ == old(states)@.remove(self.user_id),
    {
        states.states.remove(&self.user_id);
    }

    /// Removes a user's flag, if there is one.
    pub fn clear(states: &mut UserStates, user_id: u64)
        ensures
            final(states)@ == old(states)@.remove(user_id),
    {
        states.states.remove(&user_id);
    }
}

} // verus!
