//! The ledger of sent notifications, kept so that they can be retracted.
//!
//! `Ledger` holds the rows in memory and makes every decision about them:
//! which rows a query returns, which insert is refused, which rows a deletion
//! removes. A persistent copy, if any, mirrors the changes it accepts.

use vstd::prelude::*;

use crate::seqs::{lemma_filter_all, lemma_filter_complement, lemma_filter_step};

verus! {

broadcast use vstd::seq_lib::group_filter_ensures;

/// A sent notification message.
#[derive(Debug, Clone)]
pub struct Notification {
    /// The ID of the message that caused the notification to be sent.
    pub original_message: u64,
    /// The ID of the sent notification message.
    pub notification_message: u64,
    /// The keyword in the original message that caused the notification.
    pub keyword: String,
    /// The ID of the user that the notification was sent to.
    pub user_id: u64,
}

impl Notification {
    /// A copy of this notification.
    pub fn cloned(&self) -> (r: Notification)
        ensures
            r == *self,
    {
        Notification {
            original_message: self.original_message,
            notification_message: self.notification_message,
            keyword: self.keyword.clone(),
            user_id: self.user_id,
        }
    }
}

/// Whether a row was caused by message `m`.
pub open spec fn caused_by(m: u64) -> spec_fn(Notification) -> bool {
    |n: Notification| n.original_message == m
}

/// Whether a row was not caused by message `m`.
pub open spec fn not_caused_by(m: u64) -> spec_fn(Notification) -> bool {
    |n: Notification| n.original_message != m
}

/// Whether a row records notification message `id`.
pub open spec fn sent_as(id: u64) -> spec_fn(Notification) -> bool {
    |n: Notification| n.notification_message == id
}

/// Whether a row records another notification message than `id`.
pub open spec fn not_sent_as(id: u64) -> spec_fn(Notification) -> bool {
    |n: Notification| n.notification_message != id
}

/// No two rows record the same notification message.
pub open spec fn unique_notification_ids(rows: Seq<Notification>) -> bool {
    forall|i: int, j: int|
        0 <= i < rows.len() && 0 <= j < rows.len() && i != j ==> (#[trigger] rows[i]).notification_message
            != (#[trigger] rows[j]).notification_message
}

/// Whether some row records notification message `id`.
pub open spec fn has_notification(rows: Seq<Notification>, id: u64) -> bool {
    exists|i: int| 0 <= i < rows.len() && (#[trigger] rows[i]).notification_message == id
}

/// Errors of the ledger.
#[derive(Debug, Clone, Copy, PartialEq, Eq, Structural)]
pub enum LedgerError {
    /// A row already records this notification message.
    DuplicateNotification(u64),
}

/// The rows of sent notifications, in the order they were inserted.
pub struct Ledger {
    rows: Vec<Notification>,
}

impl View for Ledger {
    type V = Seq<Notification>;

    closed spec fn view(&self) -> Seq<Notification> {
        self.rows@
    }
}

proof fn lemma_filter_keeps_unique(s: Seq<Notification>, p: spec_fn(Notification) -> bool)
    requires
        unique_notification_ids(s),
    ensures
        unique_notification_ids(s.filter(p)),
    decreases s.len(),
{
    reveal(Seq::filter);
    if s.len() > 0 {
        let t = s.drop_last();
        assert forall|i: int, j: int|
            0 <= i < t.len() && 0 <= j < t.len() && i != j implies (#[trigger] t[i]).notification_message
            != (#[trigger] t[j]).notification_message by {
            assert(t[i] == s[i] && t[j] == s[j]);
        }
        lemma_filter_keeps_unique(t, p);
        let f = t.filter(p);
        if p(s.last()) {
            assert forall|i: int| 0 <= i < f.len() implies (#[trigger] f[i]).notification_message
                != s.last().notification_message by {
                assert(f.contains(f[i]));
                t.lemma_filter_contains_rev(p, f[i]);
                let j = choose|j: int| 0 <= j < t.len() && t[j] == f[i];
                assert(s[j] == t[j]);
            }
            let g = f.push(s.last());
            assert forall|i: int, j: int|
                0 <= i < g.len() && 0 <= j < g.len() && i != j implies (#[trigger] g[i]).notification_message
                != (#[trigger] g[j]).notification_message by {
                if i < f.len() && j < f.len() {
                    assert(g[i] == f[i] && g[j] == f[j]);
                } else if i < f.len() {
                    assert(g[i] == f[i]);
                } else if j < f.len() {
                    assert(g[j] == f[j]);
                }
            }
        }
    }
}

impl Ledger {
    /// No two rows record the same notification message.
    pub open spec fn wf(&self) -> bool {
        unique_notification_ids(self@)
    }

    /// An empty ledger.
    pub fn new() -> (r: Ledger)
        ensures
            r@ == Seq::<Notification>::empty(),
            r.wf(),
    {
        Ledger { rows: Vec::new() }
    }

    /// Keeps the rows that pass `by_original ? not_caused_by(id) : not_sent_as(id)`.
    fn retain_rows(&mut self, by_original: bool, id: u64)
        requires
            old(self).wf(),
        ensures
            final(self).wf(),
            by_original ==> final(self)@ == old(self)@.filter(not_caused_by(id)),
            !by_original ==> final(self)@ == old(self)@.filter(not_sent_as(id)),
    {
        let ghost p = if by_original { not_caused_by(id) } else { not_sent_as(id) };
        let mut kept: Vec<Notification> = Vec::new();
        let mut i: usize = 0;
        while i < self.rows.len()
            invariant
                i <= self.rows.len(),
                p == (if by_original { not_caused_by(id) } else { not_sent_as(id) }),
                kept@ == self.rows@.subrange(0, i as int).filter(p),
            decreases self.rows.len() - i,
        {
            proof {
                lemma_filter_step(self.rows@, p, i as int);
            }
            let keep = if by_original {
                self.rows[i].original_message != id
            } else {
                self.rows[i].notification_message != id
            };
            if keep {
                kept.push(self.rows[i].cloned());
            }
            i = i + 1;
        }
        proof {
            assert(self.rows@.subrange(0, self.rows.len() as int) =~= self.rows@);
            lemma_filter_keeps_unique(self.rows@, p);
        }
        self.rows = kept;
    }
}

impl Notification {
    /// The notifications that message `message_id` caused, in insertion order.
    pub fn notifications_of_message(ledger: &Ledger, message_id: u64) -> (r: Vec<Notification>)
        ensures
            r@ == ledger@.filter(caused_by(message_id)),
    {
        let mut r: Vec<Notification> = Vec::new();
        let mut i: usize = 0;
        while i < ledger.rows.len()
            invariant
                i <= ledger.rows.len(),
                r@ == ledger.rows@.subrange(0, i as int).filter(caused_by(message_id)),
            decreases ledger.rows.len() - i,
        {
            proof {
                lemma_filter_step(ledger.rows@, caused_by(message_id), i as int);
            }
            if ledger.rows[i].original_message == message_id {
                r.push(ledger.rows[i].cloned());
            }
            i = i + 1;
        }
        assert(ledger.rows@.subrange(0, ledger.rows.len() as int) =~= ledger.rows@);
        r
    }

    /// Records this notification. A notification message that the ledger
    /// already records is refused, and the ledger is left as it was.
    pub fn insert(self, ledger: &mut Ledger) -> (r: Result<(), LedgerError>)
        requires
            old(ledger).wf(),
        ensures
            final(ledger).wf(),
            has_notification(old(ledger)@, self.notification_message) ==> r == Err::<
                (),
                LedgerError,
            >(LedgerError::DuplicateNotification(self.notification_message)) && final(ledger)@
                == old(ledger)@,
            !has_notification(old(ledger)@, self.notification_message) ==> r == Ok::<
                (),
                LedgerError,
            >(()) && final(ledger)@ == old(ledger)@.push(self),
    {
        let mut i: usize = 0;
        while i < ledger.rows.len()
            invariant
                i <= ledger.rows.len(),
                unique_notification_ids(ledger.rows@),
                forall|j: int|
                    0 <= j < i ==> (#[trigger] ledger.rows@[j]).notification_message
                        != self.notification_message,
            decreases ledger.rows.len() - i,
        {
            if ledger.rows[i].notification_message == self.notification_message {
                return Err(LedgerError::DuplicateNotification(self.notification_message));
            }
            i = i + 1;
        }
        let ghost before = ledger.rows@;
        ledger.rows.push(self);
        assert forall|a: int, b: int|
            0 <= a < ledger.rows@.len() && 0 <= b < ledger.rows@.len() && a != b implies (#[trigger] ledger.rows@[a]).notification_message
            != (#[trigger] ledger.rows@[b]).notification_message by {
            if a < before.len() && b < before.len() {
                assert(ledger.rows@[a] == before[a] && ledger.rows@[b] == before[b]);
            } else if a < before.len() {
                assert(ledger.rows@[a] == before[a]);
            } else {
                assert(ledger.rows@[b] == before[b]);
            }
        }
        Ok(())
    }

    /// Removes the row of this notification message.
    pub fn delete(self, ledger: &mut Ledger)
        requires
            old(ledger).wf(),
        ensures
            final(ledger).wf(),
            final(ledger)@ == old(ledger)@.filter(not_sent_as(self.notification_message)),
    {
        ledger.retain_rows(false, self.notification_message);
    }

    /// Removes every row caused by message `message_id`.
    pub fn delete_notifications_of_message(ledger: &mut Ledger, message_id: u64)
        requires
            old(ledger).wf(),
        ensures
            final(ledger).wf(),
            final(ledger)@ == old(ledger)@.filter(not_caused_by(message_id)),
    {
        ledger.retain_rows(true, message_id);
    }
}

/// Retraction. Deleting the rows of a source message leaves none of its rows
/// and keeps every row of other messages; deleting one notification message
/// removes exactly its one row, when the ledger has it, and keeps every
/// other row.
pub proof fn lemma_retraction(rows: Seq<Notification>, message_id: u64, notification_id: u64)
    requires
        unique_notification_ids(rows),
    ensures
        forall|k: int|
            0 <= k < rows.filter(not_caused_by(message_id)).len() ==> (#[trigger] rows.filter(
                not_caused_by(message_id),
            )[k]).original_message != message_id,
        forall|i: int|
            0 <= i < rows.len() && (#[trigger] rows[i]).original_message != message_id
                ==> rows.filter(not_caused_by(message_id)).contains(rows[i]),
        forall|k: int|
            0 <= k < rows.filter(not_sent_as(notification_id)).len() ==> (#[trigger] rows.filter(
                not_sent_as(notification_id),
            )[k]).notification_message != notification_id,
        forall|i: int|
            0 <= i < rows.len() && (#[trigger] rows[i]).notification_message != notification_id
                ==> rows.filter(not_sent_as(notification_id)).contains(rows[i]),
        has_notification(rows, notification_id) ==> rows.filter(not_sent_as(notification_id)).len()
            + 1 == rows.len(),
        !has_notification(rows, notification_id) ==> rows.filter(not_sent_as(notification_id))
            == rows,
{
    assert forall|i: int|
        0 <= i < rows.len() && (#[trigger] rows[i]).original_message != message_id implies rows.filter(
        not_caused_by(message_id),
    ).contains(rows[i]) by {
        rows.lemma_filter_contains(not_caused_by(message_id), i);
    }
    assert forall|i: int|
        0 <= i < rows.len() && (#[trigger] rows[i]).notification_message != notification_id implies rows.filter(
        not_sent_as(notification_id),
    ).contains(rows[i]) by {
        rows.lemma_filter_contains(not_sent_as(notification_id), i);
    }
    let sent = rows.filter(sent_as(notification_id));
    lemma_filter_complement(rows, sent_as(notification_id), not_sent_as(notification_id));
    if has_notification(rows, notification_id) {
        let i = choose|i: int|
            0 <= i < rows.len() && (#[trigger] rows[i]).notification_message == notification_id;
        rows.lemma_filter_contains(sent_as(notification_id), i);
        lemma_filter_keeps_unique(rows, sent_as(notification_id));
        if sent.len() >= 2 {
            rows.lemma_filter_pred(sent_as(notification_id), 0);
            rows.lemma_filter_pred(sent_as(notification_id), 1);
            assert(sent[0].notification_message == sent[1].notification_message);
        }
    } else {
        assert forall|i: int| 0 <= i < rows.len() implies #[trigger] not_sent_as(notification_id)(
            rows[i],
        ) by {
            if rows[i].notification_message == notification_id {
                assert(has_notification(rows, notification_id));
            }
        }
        lemma_filter_all(rows, not_sent_as(notification_id));
    }
}

} // verus!
