//! The watch channel, modelled: a single slot holding at most one
//! pending wake-up. A source offering a notification while the slot is
//! occupied waits (backpressure); the watch loop drains the slot before
//! each reconciliation. That backpressure is the system's whole debounce
//! mechanism: a burst of changes collapses into one pending wake-up.
use vstd::prelude::*;

verus! {

/// How an offered notification fared.
pub enum OfferOutcome {
    /// The slot was empty and now holds the notification.
    Accepted,
    /// The slot already holds one; the sender would wait until it is
    /// drained.
    WouldWait,
}

/// The single-slot notification channel.
pub struct NotifyChannel {
    pub pending: bool,
}

impl NotifyChannel {
    pub fn new() -> (r: Self)
        ensures
            !r.pending,
    {
        NotifyChannel { pending: false }
    }

    /// A source announces a change: an empty slot takes the wake-up, an
    /// occupied one makes the sender wait.
    pub fn offer(&mut self) -> (r: OfferOutcome)
        ensures
            final (self).pending,
            (r is Accepted) == !old(self).pending,
    {
        if self.pending {
            OfferOutcome::WouldWait
        } else {
            self.pending = true;
            OfferOutcome::Accepted
        }
    }

    /// The watch loop takes the pending wake-up, if any, before running
    /// a reconciliation.
    pub fn drain(&mut self) -> (r: bool)
        ensures
            r == old(self).pending,
            !final (self).pending,
    {
        let was = self.pending;
        self.pending = false;
        was
    }
}

/// The slot's state after a burst of offers lands on it.
pub open spec fn after_offers(pending: bool, offers: nat) -> bool
    decreases offers,
{
    if offers == 0 {
        pending
    } else {
        after_offers(true, (offers - 1) as nat)
    }
}

/// How many reconciliations the loop runs once the in-flight one
/// completes: one per pending wake-up, of which the slot holds at most
/// one.
pub open spec fn runs_after(pending: bool) -> nat {
    if pending {
        1
    } else {
        0
    }
}

/// Law: debounce. However many change notifications arrive while a
/// reconciliation is in flight, the single-slot channel holds at most
/// one pending wake-up, so at most one further reconciliation follows
/// the in-flight one — and exactly one if anything arrived at all.
pub proof fn lemma_debounce(pending: bool, offers: nat)
    ensures
        runs_after(after_offers(pending, offers)) <= 1,
        offers > 0 ==> runs_after(after_offers(pending, offers)) == 1,
    decreases offers,
{
    if offers > 0 {
        lemma_debounce(true, (offers - 1) as nat);
    }
}

/// The kinds of file-system events a watcher reports, as far as the
/// watch loop reads them.
pub enum FileEventKind {
    Create,
    Modify,
    Remove,
    Access,
    Other,
}

/// Whether a file event warrants a wake-up: creations, modifications and
/// removals of the watched path do; mere accesses and anything else do
/// not.
pub fn event_triggers(kind: &FileEventKind) -> (r: bool)
    ensures
        r == (kind is Create || kind is Modify || kind is Remove),
{
    match kind {
        FileEventKind::Create => true,
        FileEventKind::Modify => true,
        FileEventKind::Remove => true,
        FileEventKind::Access => false,
        FileEventKind::Other => false,
    }
}

} // verus!
