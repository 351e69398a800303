//! The per-candidate watch: wait out the patience window for a follow-up
//! from the source's author, then deliver and record the notification.
//!
//! The watch only decides. Whoever drives it races the follow-up against
//! the timer, sends the direct message and writes the ledger, and hands back
//! what happened as an event.

use vstd::prelude::*;

use crate::matcher::{IncomingMessage, Keyword};
use crate::notification::{caused_by, has_notification, Notification};

verus! {

/// One subscription triggered by one message.
#[derive(Debug, Clone)]
pub struct Candidate {
    /// The message that triggered the subscription.
    pub source_message: u64,
    /// The author of that message.
    pub author_id: u64,
    pub channel_id: u64,
    pub guild_id: u64,
    /// The subscriber to notify.
    pub user_id: u64,
    pub keyword: String,
}

impl Candidate {
    /// The candidate that a message raises for a subscription.
    pub fn new(message: &IncomingMessage, keyword: &Keyword) -> (r: Candidate)
        ensures
            r.source_message == message.id,
            r.author_id == message.author_id,
            r.channel_id == message.channel_id,
            r.guild_id == message.guild_id,
            r.user_id == keyword.user_id,
            r.keyword == keyword.keyword,
    {
        Candidate {
            source_message: message.id,
            author_id: message.author_id,
            channel_id: message.channel_id,
            guild_id: message.guild_id,
            user_id: keyword.user_id,
            keyword: keyword.keyword.clone(),
        }
    }
}

/// Where a watch stands.
#[derive(Debug, Clone, Copy, PartialEq, Eq, Structural)]
pub enum WatchState {
    /// Waiting for a follow-up until `deadline` (milliseconds).
    Watching { deadline: u64 },
    /// The notification is being sent.
    Delivering,
    /// A follow-up came in time, or the channel was deleted: nothing is sent.
    Suppressed,
    /// The notification was sent and recorded.
    Delivered,
    /// Sending failed; the failure is reported.
    Failed,
}

/// What the driver of a watch observed.
#[derive(Debug, Clone, Copy, PartialEq, Eq, Structural)]
pub enum WatchEvent {
    /// A message by `author_id` in `channel_id` arrived at `at`.
    MessageSeen { author_id: u64, channel_id: u64, at: u64 },
    /// The timer fired at `at`.
    TimeElapsed { at: u64 },
    /// Channel `channel_id` was deleted.
    ChannelDeleted { channel_id: u64 },
    /// The notification was sent as message `notification_message`.
    DeliverySucceeded { notification_message: u64 },
    /// Sending the notification failed.
    DeliveryFailed,
}

/// What the driver of a watch must do next.
#[derive(Debug, Clone)]
pub enum WatchAction {
    /// Keep waiting.
    Wait,
    /// Send the notification.
    Deliver,
    /// Insert this row into the ledger.
    Record(Notification),
    /// Report the delivery failure.
    ReportError,
    /// The watch is over; do nothing.
    Stop,
}

/// The ledger row for a candidate delivered as message `notification_message`.
pub open spec fn notification_for(c: Candidate, notification_message: u64) -> Notification {
    Notification {
        original_message: c.source_message,
        notification_message,
        keyword: c.keyword,
        user_id: c.user_id,
    }
}

/// The event is a follow-up by the source's author in the source's channel
/// strictly before the deadline, or the deletion of the source's channel.
pub open spec fn disqualifies(c: Candidate, deadline: u64, e: WatchEvent) -> bool {
    match e {
        WatchEvent::MessageSeen { author_id, channel_id, at } => author_id == c.author_id
            && channel_id == c.channel_id && at < deadline,
        WatchEvent::ChannelDeleted { channel_id } => channel_id == c.channel_id,
        _ => false,
    }
}

/// One step of a watch: the next state and the action.
pub open spec fn watch_next(c: Candidate, s: WatchState, e: WatchEvent) -> (WatchState, WatchAction) {
    match s {
        WatchState::Watching { deadline } => {
            if disqualifies(c, deadline, e) {
                (WatchState::Suppressed, WatchAction::Stop)
            } else if e matches WatchEvent::TimeElapsed { at } && at >= deadline {
                (WatchState::Delivering, WatchAction::Deliver)
            } else {
                (s, WatchAction::Wait)
            }
        },
        WatchState::Delivering => match e {
            WatchEvent::DeliverySucceeded { notification_message } => (
                WatchState::Delivered,
                WatchAction::Record(notification_for(c, notification_message)),
            ),
            WatchEvent::DeliveryFailed => (WatchState::Failed, WatchAction::ReportError),
            _ => (s, WatchAction::Wait),
        },
        _ => (s, WatchAction::Stop),
    }
}

/// A watch: its candidate and where it stands.
#[derive(Debug, Clone)]
pub struct Watch {
    pub candidate: Candidate,
    pub state: WatchState,
}

impl Watch {
    /// Starts watching a candidate raised at `created_at` for `patience_ms`.
    pub fn start(candidate: Candidate, created_at: u64, patience_ms: u64) -> (r: Watch)
        requires
            created_at + patience_ms <= u64::MAX,
        ensures
            r.candidate == candidate,
            r.state == (WatchState::Watching { deadline: (created_at + patience_ms) as u64 }),
    {
        Watch { candidate, state: WatchState::Watching { deadline: created_at + patience_ms } }
    }

    /// Advances the watch by one event.
    pub fn step(&mut self, event: WatchEvent) -> (r: WatchAction)
        ensures
            final(self).candidate == old(self).candidate,
            (final(self).state, r) == watch_next(old(self).candidate, old(self).state, event),
    {
        match self.state {
            WatchState::Watching { deadline } => {
                match event {
                    WatchEvent::MessageSeen { author_id, channel_id, at } => {
                        if author_id == self.candidate.author_id && channel_id
                            == self.candidate.channel_id && at < deadline {
                            self.state = WatchState::Suppressed;
                            return WatchAction::Stop;
                        }
                        WatchAction::Wait
                    },
                    WatchEvent::ChannelDeleted { channel_id } => {
                        if channel_id == self.candidate.channel_id {
                            self.state = WatchState::Suppressed;
                            return WatchAction::Stop;
                        }
                        WatchAction::Wait
                    },
                    WatchEvent::TimeElapsed { at } => {
                        if at >= deadline {
                            self.state = WatchState::Delivering;
                            return WatchAction::Deliver;
                        }
                        WatchAction::Wait
                    },
                    _ => WatchAction::Wait,
                }
            },
            WatchState::Delivering => match event {
                WatchEvent::DeliverySucceeded { notification_message } => {
                    self.state = WatchState::Delivered;
                    WatchAction::Record(
                        Notification {
                            original_message: self.candidate.source_message,
                            notification_message,
                            keyword: self.candidate.keyword.clone(),
                            user_id: self.candidate.user_id,
                        },
                    )
                },
                WatchEvent::DeliveryFailed => {
                    self.state = WatchState::Failed;
                    WatchAction::ReportError
                },
                _ => WatchAction::Wait,
            },
            _ => WatchAction::Stop,
        }
    }
}

/// The state after a sequence of events, and the action of each.
pub open spec fn watch_run(c: Candidate, s: WatchState, events: Seq<WatchEvent>) -> (
    WatchState,
    Seq<WatchAction>,
)
    decreases events.len(),
{
    if events.len() == 0 {
        (s, Seq::empty())
    } else {
        let prev = watch_run(c, s, events.drop_last());
        let step = watch_next(c, prev.0, events.last());
        (step.0, prev.1.push(step.1))
    }
}

/// An event that neither disqualifies the candidate nor ends its wait.
pub open spec fn is_quiet(c: Candidate, deadline: u64, e: WatchEvent) -> bool {
    !disqualifies(c, deadline, e) && !(e matches WatchEvent::TimeElapsed { at } && at >= deadline)
}

proof fn lemma_run_append(c: Candidate, s: WatchState, a: Seq<WatchEvent>, b: Seq<WatchEvent>)
    ensures
        watch_run(c, s, a + b) == (
            watch_run(c, watch_run(c, s, a).0, b).0,
            watch_run(c, s, a).1 + watch_run(c, watch_run(c, s, a).0, b).1,
        ),
    decreases b.len(),
{
    let ra = watch_run(c, s, a);
    if b.len() == 0 {
        assert(a + b =~= a);
        assert(ra.1 + Seq::<WatchAction>::empty() =~= ra.1);
    } else {
        assert((a + b).drop_last() =~= a + b.drop_last());
        assert((a + b).last() == b.last());
        lemma_run_append(c, s, a, b.drop_last());
        let rb = watch_run(c, ra.0, b.drop_last());
        let step = watch_next(c, rb.0, b.last());
        assert((ra.1 + rb.1).push(step.1) =~= ra.1 + rb.1.push(step.1));
    }
}

/// Once suppressed, delivered or failed, a watch stays so and does nothing.
proof fn lemma_finished_stays(c: Candidate, s: WatchState, events: Seq<WatchEvent>)
    requires
        s is Suppressed || s is Delivered || s is Failed,
    ensures
        watch_run(c, s, events).0 == s,
        watch_run(c, s, events).1.len() == events.len(),
        forall|i: int|
            0 <= i < events.len() ==> (#[trigger] watch_run(c, s, events).1[i]) is Stop,
    decreases events.len(),
{
    if events.len() > 0 {
        lemma_finished_stays(c, s, events.drop_last());
        let prev = watch_run(c, s, events.drop_last());
        assert forall|i: int| 0 <= i < events.len() implies (#[trigger] watch_run(
            c,
            s,
            events,
        ).1[i]) is Stop by {
            if i < events.len() - 1 {
                assert(watch_run(c, s, events).1[i] == prev.1[i]);
            }
        }
    }
}

/// A watch stays in its wait through quiet events, and waits at each.
proof fn lemma_quiet_waits(c: Candidate, deadline: u64, events: Seq<WatchEvent>)
    requires
        forall|i: int| 0 <= i < events.len() ==> is_quiet(c, deadline, #[trigger] events[i]),
    ensures
        watch_run(c, WatchState::Watching { deadline }, events).0 == (WatchState::Watching {
            deadline,
        }),
        watch_run(c, WatchState::Watching { deadline }, events).1.len() == events.len(),
        forall|i: int|
            0 <= i < events.len() ==> (#[trigger] watch_run(
                c,
                WatchState::Watching { deadline },
                events,
            ).1[i]) is Wait,
    decreases events.len(),
{
    let w = WatchState::Watching { deadline };
    if events.len() > 0 {
        let t = events.drop_last();
        assert forall|i: int| 0 <= i < t.len() implies is_quiet(c, deadline, #[trigger] t[i]) by {
            assert(t[i] == events[i]);
        }
        lemma_quiet_waits(c, deadline, t);
        assert(is_quiet(c, deadline, events[events.len() - 1]));
        let prev = watch_run(c, w, t);
        assert forall|i: int| 0 <= i < events.len() implies (#[trigger] watch_run(
            c,
            w,
            events,
        ).1[i]) is Wait by {
            if i < events.len() - 1 {
                assert(watch_run(c, w, events).1[i] == prev.1[i]);
            }
        }
    }
}

/// A follow-up by the source's author in the source's channel strictly
/// before the deadline, or the deletion of that channel, suppresses the
/// notification for good: whatever comes
/// after, nothing is delivered and nothing is recorded.
pub proof fn lemma_follow_up_suppresses(
    c: Candidate,
    deadline: u64,
    follow_up: WatchEvent,
    later: Seq<WatchEvent>,
)
    requires
        disqualifies(c, deadline, follow_up),
    ensures
        watch_run(c, WatchState::Watching { deadline }, seq![follow_up] + later).0
            == WatchState::Suppressed,
        forall|i: int|
            0 <= i < later.len() + 1 ==> (#[trigger] watch_run(
                c,
                WatchState::Watching { deadline },
                seq![follow_up] + later,
            ).1[i]) is Stop,
{
    let w = WatchState::Watching { deadline };
    let first = seq![follow_up];
    assert(first.drop_last() =~= Seq::<WatchEvent>::empty());
    assert(watch_run(c, w, Seq::<WatchEvent>::empty()).0 == w);
    assert(first.last() == follow_up);
    assert(watch_run(c, w, first).0 == WatchState::Suppressed);
    lemma_run_append(c, w, first, later);
    lemma_finished_stays(c, WatchState::Suppressed, later);
    let all = watch_run(c, w, first + later).1;
    assert forall|i: int| 0 <= i < later.len() + 1 implies (#[trigger] all[i]) is Stop by {
        if i > 0 {
            assert(all[i] == watch_run(c, WatchState::Suppressed, later).1[i - 1]);
        }
    }
}

/// Without a follow-up before the deadline, the time-out starts exactly one
/// delivery, its success records exactly one ledger row, the one that links
/// the source message, the sent message, the keyword and the subscriber,
/// and nothing that comes after sends or records anything more.
pub proof fn lemma_quiet_watch_delivers_once(
    c: Candidate,
    deadline: u64,
    quiet: Seq<WatchEvent>,
    at: u64,
    notification_message: u64,
    later: Seq<WatchEvent>,
)
    requires
        forall|i: int| 0 <= i < quiet.len() ==> is_quiet(c, deadline, #[trigger] quiet[i]),
        at >= deadline,
    ensures
        ({
            let events = quiet + seq![
                WatchEvent::TimeElapsed { at },
                WatchEvent::DeliverySucceeded { notification_message },
            ] + later;
            let run = watch_run(c, WatchState::Watching { deadline }, events);
            &&& run.0 == WatchState::Delivered
            &&& run.1.len() == events.len()
            &&& forall|i: int| 0 <= i < quiet.len() ==> (#[trigger] run.1[i]) is Wait
            &&& run.1[quiet.len() as int] is Deliver
            &&& run.1[quiet.len() as int + 1] == WatchAction::Record(
                notification_for(c, notification_message),
            )
            &&& forall|i: int| quiet.len() + 2 <= i < events.len() ==> (#[trigger] run.1[i]) is Stop
        }),
{
    let w = WatchState::Watching { deadline };
    let mid = seq![
        WatchEvent::TimeElapsed { at },
        WatchEvent::DeliverySucceeded { notification_message },
    ];
    lemma_quiet_waits(c, deadline, quiet);
    assert(mid.drop_last() =~= seq![WatchEvent::TimeElapsed { at }]);
    assert(seq![WatchEvent::TimeElapsed { at }].drop_last() =~= Seq::<WatchEvent>::empty());
    assert(watch_run(c, w, Seq::<WatchEvent>::empty()).0 == w);
    assert(watch_run(c, w, Seq::<WatchEvent>::empty()).1.len() == 0);
    assert(seq![WatchEvent::TimeElapsed { at }].last() == WatchEvent::TimeElapsed { at });
    assert(mid.last() == WatchEvent::DeliverySucceeded { notification_message });
    assert(watch_run(c, w, seq![WatchEvent::TimeElapsed { at }]).0 == WatchState::Delivering);
    let rm = watch_run(c, w, mid);
    assert(rm.0 == WatchState::Delivered);
    assert(rm.1.len() == 2);
    assert(rm.1[0] is Deliver);
    assert(rm.1[1] == WatchAction::Record(notification_for(c, notification_message)));
    lemma_run_append(c, w, quiet, mid);
    lemma_run_append(c, w, quiet + mid, later);
    lemma_finished_stays(c, WatchState::Delivered, later);
    let rq = watch_run(c, w, quiet);
    let front = watch_run(c, w, quiet + mid);
    let all = watch_run(c, w, quiet + mid + later);
    assert(front.1 == rq.1 + rm.1);
    assert forall|i: int| 0 <= i < quiet.len() implies (#[trigger] all.1[i]) is Wait by {
        assert(all.1[i] == front.1[i]);
        assert(front.1[i] == rq.1[i]);
    }
    assert(all.1[quiet.len() as int] == rm.1[0]);
    assert(all.1[quiet.len() as int + 1] == rm.1[1]);
    assert forall|i: int| quiet.len() + 2 <= i < all.1.len() implies (#[trigger] all.1[i]) is Stop by {
        assert(all.1[i] == watch_run(c, WatchState::Delivered, later).1[i - quiet.len() - 2]);
    }
}

/// Recording a delivered candidate in a ledger that does not hold its
/// notification message yet adds exactly one row for the source message, the
/// one that links the source message, the sent message, the keyword and the
/// subscriber.
pub proof fn lemma_delivery_adds_one_row(c: Candidate, notification_message: u64, rows: Seq<Notification>)
    requires
        !has_notification(rows, notification_message),
    ensures
        rows.push(notification_for(c, notification_message)).filter(caused_by(c.source_message))
            == rows.filter(caused_by(c.source_message)).push(
            notification_for(c, notification_message),
        ),
        rows.push(notification_for(c, notification_message)).len() == rows.len() + 1,
{
    reveal(Seq::filter);
    let n = notification_for(c, notification_message);
    assert(rows.push(n).drop_last() =~= rows);
}

} // verus!
