//! Settings that the library reads.

use vstd::prelude::*;

use std::time::Duration;

verus! {

/// How long a watch waits for a follow-up when no setting says otherwise.
pub const DEFAULT_PATIENCE_SECONDS: u64 = 120;

/// How many keywords a user may have when no setting says otherwise.
pub const DEFAULT_MAX_KEYWORDS: u32 = 100;

/// The span of `secs` whole seconds, as `Duration::from_secs` gives it.
pub uninterp spec fn secs_span(secs: u64) -> Duration;

/// Relies on `Duration::from_secs`: the span of `secs` whole seconds, which
/// depends on `secs` alone.
#[verifier::external_body]
fn duration_from_secs(secs: u64) -> (r: Duration)
    ensures
        r == secs_span(secs),
{
    Duration::from_secs(secs)
}

/// Settings of the bot's behaviour.
#[derive(Debug, Clone, Copy, PartialEq, Eq, Structural)]
pub struct BehaviorSettings {
    pub max_keywords: u32,
    pub patience_seconds: u64,
}

impl BehaviorSettings {
    pub fn new(max_keywords: u32, patience_seconds: u64) -> (r: BehaviorSettings)
        ensures
            r.max_keywords == max_keywords,
            r.patience_seconds == patience_seconds,
    {
        BehaviorSettings { max_keywords, patience_seconds }
    }

    /// The settings used when none are given.
    pub fn defaults() -> (r: BehaviorSettings)
        ensures
            r.max_keywords == DEFAULT_MAX_KEYWORDS,
            r.patience_seconds == DEFAULT_PATIENCE_SECONDS,
    {
        BehaviorSettings {
            max_keywords: DEFAULT_MAX_KEYWORDS,
            patience_seconds: DEFAULT_PATIENCE_SECONDS,
        }
    }

    /// The patience window in milliseconds, if that fits in a `u64`.
    pub fn patience_millis(&self) -> (r: Option<u64>)
        ensures
            self.patience_seconds * 1000 <= u64::MAX ==> r == Some(
                (self.patience_seconds * 1000) as u64,
            ),
            self.patience_seconds * 1000 > u64::MAX ==> r is None,
    {
        if self.patience_seconds <= u64::MAX / 1000 {
            Some(self.patience_seconds * 1000)
        } else {
            None
        }
    }

    /// The patience window.
    pub fn patience(&self) -> (r: Duration)
        ensures
            r == secs_span(self.patience_seconds),
    {
        duration_from_secs(self.patience_seconds)
    }
}

/// Settings of the bot's account.
#[derive(Debug, Clone)]
pub struct BotSettings {
    pub token: String,
    pub private: bool,
}

/// Where the database lives, and whether it is backed up.
#[derive(Debug, Clone)]
pub struct DatabaseSettings {
    pub path: String,
    pub backup: bool,
}

} // verus!
