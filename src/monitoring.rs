//! Timers for commands and database queries.

use vstd::prelude::*;

use std::time::Instant;

verus! {

/// `std::time::Instant`, held opaque: a timer only carries its start.
#[verifier::external_type_specification]
#[verifier::external_body]
pub struct ExInstant(Instant);

/// Relies on `Instant::now`: the current instant, of which nothing is known.
#[verifier::external_body]
fn now() -> (r: Instant) {
    Instant::now()
}

/// What a timer measures.
#[derive(Debug, Clone, Copy, PartialEq, Eq, Structural)]
pub enum TimerType {
    Command,
    Query,
}

/// A running timer for one named command or query.
pub struct Timer {
    kind: TimerType,
    name: &'static str,
    start: Instant,
}

impl Timer {
    /// What the timer measures.
    pub closed spec fn spec_kind(&self) -> TimerType {
        self.kind
    }

    /// The name of what the timer measures.
    pub closed spec fn spec_name(&self) -> &'static str {
        self.name
    }

    /// Starts timing the command `name`.
    pub fn command(name: &'static str) -> (r: Timer)
        ensures
            r.spec_kind() == TimerType::Command,
            r.spec_name() == name,
    {
        Timer { kind: TimerType::Command, name, start: now() }
    }

    /// Starts timing the query `name`.
    pub fn query(name: &'static str) -> (r: Timer)
        ensures
            r.spec_kind() == TimerType::Query,
            r.spec_name() == name,
    {
        Timer { kind: TimerType::Query, name, start: now() }
    }

    /// What this timer measures.
    pub fn kind(&self) -> (r: TimerType)
        ensures
            r == self.spec_kind(),
    {
        self.kind
    }

    /// The name of what this timer measures.
    pub fn name(&self) -> (r: &'static str)
        ensures
            r == self.spec_name(),
    {
        self.name
    }

    /// When this timer started.
    pub fn start(&self) -> &Instant {
        &self.start
    }
}

} // verus!
